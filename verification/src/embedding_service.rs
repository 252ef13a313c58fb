//! The parts of the embedding service that work on whole numbers: the guard
//! that lets one rebuild run at a time, and the tokens of a text.

use crate::text::{lowercase_of, to_lowercase};
use vstd::prelude::*;
use vstd::string::*;

verus! {

/// The length of an embedding vector.
pub const EMBEDDING_DIM: usize = 512;

/// The version of the model whose embeddings are stored.
pub const EMBEDDING_VERSION: i32 = 1;

/// The number of tokens of a tokenized text.
pub const TOKEN_COUNT: usize = 77;

/// The token that starts a text.
pub const BOS_TOKEN: i64 = 49406;

/// The token that ends a text.
pub const EOS_TOKEN: i64 = 49407;

/// The token that fills the rest.
pub const PAD_TOKEN: i64 = 0;

/// The flag that says a rebuild is running. It is one flag, not a queue:
/// whoever starts a rebuild sets it, and whoever ends one clears it.
#[derive(Debug)]
pub struct EmbeddingGuard {
    processing: bool,
}

impl EmbeddingGuard {
    /// Whether a rebuild is marked as running.
    pub closed spec fn processing(&self) -> bool {
        self.processing
    }

    /// A guard with no rebuild running.
    pub fn new() -> (guard: Self)
        ensures
            !guard.processing(),
    {
        EmbeddingGuard { processing: false }
    }

    /// Whether a rebuild is marked as running.
    pub fn is_processing(&self) -> (processing: bool)
        ensures
            processing == self.processing(),
    {
        self.processing
    }

    /// Marks a rebuild as running or as ended.
    pub fn set_processing(&mut self, processing: bool)
        ensures
            final(self).processing() == processing,
    {
        self.processing = processing;
    }

    /// Marks a rebuild as running unless one is; says whether it did.
    pub fn try_begin(&mut self) -> (begun: bool)
        ensures
            begun == !old(self).processing(),
            final(self).processing(),
    {
        if self.processing {
            false
        } else {
            self.processing = true;
            true
        }
    }
}

/// The token of one lower-case character: letters and digits have tokens of
/// their own, as have a few marks of paths; every other character shares one.
pub open spec fn char_token(c: char) -> i64 {
    let code = c as u32;
    if 97 <= code <= 122 {
        (code - 97 + 320) as i64
    } else if 48 <= code <= 57 {
        (code - 48 + 346) as i64
    } else if c == ' ' {
        256
    } else if c == '/' {
        257
    } else if c == '\\' {
        258
    } else if c == '_' {
        259
    } else if c == '-' {
        260
    } else if c == '.' {
        261
    } else if c == '(' {
        262
    } else if c == ')' {
        263
    } else if c == '[' {
        264
    } else if c == ']' {
        265
    } else {
        266
    }
}

/// The number of characters of a text that are tokenized.
pub open spec fn body_len(lower: Seq<char>) -> nat {
    if lower.len() < TOKEN_COUNT - 2 {
        lower.len()
    } else {
        (TOKEN_COUNT - 2) as nat
    }
}

/// The tokens of a text in lower case: the start token, the tokens of its
/// first 75 characters, the end token, and padding up to 77 tokens.
pub open spec fn lowered_tokens(lower: Seq<char>) -> Seq<i64> {
    Seq::new(
        TOKEN_COUNT as nat,
        |i: int|
            if i == 0 {
                BOS_TOKEN
            } else if i <= body_len(lower) {
                char_token(lower[i - 1])
            } else if i == body_len(lower) + 1 {
                EOS_TOKEN
            } else {
                PAD_TOKEN
            },
    )
}

/// Computes [`char_token`].
pub fn token_of(c: char) -> (token: i64)
    ensures
        token == char_token(c),
{
    let code = c as u32;
    if 97 <= code && code <= 122 {
        (code - 97 + 320) as i64
    } else if 48 <= code && code <= 57 {
        (code - 48 + 346) as i64
    } else if c == ' ' {
        256
    } else if c == '/' {
        257
    } else if c == '\\' {
        258
    } else if c == '_' {
        259
    } else if c == '-' {
        260
    } else if c == '.' {
        261
    } else if c == '(' {
        262
    } else if c == ')' {
        263
    } else if c == '[' {
        264
    } else if c == ']' {
        265
    } else {
        266
    }
}

/// Computes [`lowered_tokens`] for a text that is in lower case already.
pub fn tokenize_lowered(lower: &str) -> (tokens: Vec<i64>)
    ensures
        tokens@ == lowered_tokens(lower@),
        tokens@.len() == TOKEN_COUNT,
{
    let length = lower.unicode_len();
    let body: usize = if length < TOKEN_COUNT - 2 {
        length
    } else {
        TOKEN_COUNT - 2
    };
    let mut tokens: Vec<i64> = Vec::new();
    tokens.push(BOS_TOKEN);
    let mut i: usize = 0;
    while i < body
        invariant
            i <= body,
            body == body_len(lower@),
            body <= lower@.len(),
            tokens@.len() == i + 1,
            forall|k: int| 0 <= k <= i ==> tokens@[k] == lowered_tokens(lower@)[k],
        decreases body - i,
    {
        tokens.push(token_of(lower.get_char(i)));
        i = i + 1;
    }
    tokens.push(EOS_TOKEN);
    while tokens.len() < TOKEN_COUNT
        invariant
            body == body_len(lower@),
            body + 2 <= tokens@.len() <= TOKEN_COUNT,
            forall|k: int| 0 <= k < tokens@.len() ==> tokens@[k] == lowered_tokens(lower@)[k],
        decreases TOKEN_COUNT - tokens@.len(),
    {
        tokens.push(PAD_TOKEN);
    }
    assert(tokens@ =~= lowered_tokens(lower@));
    tokens
}

/// The tokens of a text: those of its lower-case form.
pub fn simple_tokenize(text: &str) -> (tokens: Vec<i64>)
    ensures
        tokens@ == lowered_tokens(lowercase_of(text@)),
        tokens@.len() == TOKEN_COUNT,
{
    let lower = to_lowercase(text);
    tokenize_lowered(lower.as_str())
}

/// The attention mask of a token sequence: one for a token, zero for padding.
pub fn attention_mask(tokens: &Vec<i64>) -> (mask: Vec<i64>)
    ensures
        mask@.len() == tokens@.len(),
        forall|i: int|
            0 <= i < tokens@.len() ==> #[trigger] mask@[i] == if tokens@[i] != PAD_TOKEN {
                1i64
            } else {
                0i64
            },
{
    let mut mask: Vec<i64> = Vec::new();
    let mut i: usize = 0;
    while i < tokens.len()
        invariant
            i <= tokens@.len(),
            mask@.len() == i,
            forall|k: int|
                0 <= k < i ==> #[trigger] mask@[k] == if tokens@[k] != PAD_TOKEN {
                    1i64
                } else {
                    0i64
                },
        decreases tokens@.len() - i,
    {
        if tokens[i] != PAD_TOKEN {
            mask.push(1);
        } else {
            mask.push(0);
        }
        i = i + 1;
    }
    mask
}

} // verus!
