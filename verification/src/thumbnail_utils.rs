//! The thumbnail of a folder as it is stored: the encoded image and the
//! digest by which a change of it is told.

use crate::text::same_text;
use sha2::Digest;
use vstd::prelude::*;
use vstd::string::*;

verus! {

/// The width and the height of a stored thumbnail, in pixels.
pub const THUMBNAIL_SIZE: u32 = 224;

/// A thumbnail with its digest.
#[derive(Debug)]
pub struct ThumbnailData {
    /// The encoded image.
    pub blob: Vec<u8>,
    /// The SHA-256 digest of `blob`, in lower-case hexadecimal.
    pub hash: String,
}

/// The SHA-256 digest of `data` in lower-case hexadecimal, as the crate
/// `sha2` computes it.
pub uninterp spec fn sha256_hex_of(data: Seq<u8>) -> Seq<char>;

/// `sha2::Sha256::digest` on the bytes, written in lower-case hexadecimal.
/// The result is the digest of exactly these bytes.
#[verifier::external_body]
pub(crate) fn sha256_hex(data: &[u8]) -> (hex: String)
    ensures
        hex@ == sha256_hex_of(data@),
{
    let digest = sha2::Sha256::digest(data);
    format!("{:x}", digest)
}

impl ThumbnailData {
    /// Puts the digest beside an encoded thumbnail.
    pub fn new(blob: Vec<u8>) -> (data: ThumbnailData)
        ensures
            data.blob@ == blob@,
            data.hash@ == sha256_hex_of(blob@),
    {
        let hash = sha256_hex(blob.as_slice());
        ThumbnailData { blob, hash }
    }

    /// Whether this thumbnail differs from the one whose digest is stored:
    /// there is none stored, or its digest is another one.
    pub fn differs_from(&self, stored_hash: Option<&str>) -> (differs: bool)
        ensures
            differs == match stored_hash {
                Some(stored) => stored@ != self.hash@,
                None => true,
            },
    {
        match stored_hash {
            Some(stored) => !same_text(stored, self.hash.as_str()),
            None => true,
        }
    }
}

/// The digest of the bytes of an image file, by which a change of the file
/// is told.
pub fn calculate_image_hash(data: &[u8]) -> (hash: String)
    ensures
        hash@ == sha256_hex_of(data@),
{
    sha256_hex(data)
}

/// Whether bytes have the digest `expected`.
pub fn verify_sha256(data: &[u8], expected: &str) -> (valid: bool)
    ensures
        valid == (sha256_hex_of(data@) == expected@),
{
    let actual = sha256_hex(data);
    same_text(actual.as_str(), expected)
}

} // verus!
