//! Images as the viewer hands them to its window: the bytes of a file or of
//! an entry of an archive, written in base 64.

use base64::Engine;
use std::io::Read;
use vstd::prelude::*;
use vstd::string::*;

verus! {

/// Bytes in base 64 without padding, as the crate `base64` writes them with
/// its standard alphabet.
pub uninterp spec fn base64_no_pad_of(data: Seq<u8>) -> Seq<char>;

/// The bytes of the entry `name` of an archive, as the crate `zip` reads
/// them without a password, up to the first failure if reading fails. `None`
/// where the bytes are no archive that it reads, where the archive has no
/// such entry, and where the entry asks for a password or is stored in a way
/// that the crate does not read.
pub uninterp spec fn archive_entry_of(archive: Seq<u8>, name: Seq<char>) -> Option<Seq<u8>>;

/// `base64::engine::general_purpose::STANDARD_NO_PAD.encode` on the bytes.
/// The result is their base-64 text.
#[verifier::external_body]
pub(crate) fn encode_base64(data: &[u8]) -> (text: String)
    ensures
        text@ == base64_no_pad_of(data@),
{
    base64::engine::general_purpose::STANDARD_NO_PAD.encode(data)
}

/// `zip::ZipArchive::new` on the bytes, then the entry by its name, and what
/// `read_to_end` reads of it; where reading fails midway, what was read until
/// then.
///
/// The entry is first asked for with `by_name_decrypt` and an empty password,
/// which hands every refusal back as a value. Only an entry that it opens is
/// then opened with `by_name`, which still refuses an entry marked as
/// encrypted. The result is `None` where the archive or the entry is refused
/// by either call.
#[verifier::external_body]
pub(crate) fn archive_entry(archive: &[u8], name: &str) -> (entry: Option<Vec<u8>>)
    ensures
        crate::database::bytes_view(entry) == archive_entry_of(archive@, name@),
{
    let mut read = zip::ZipArchive::new(std::io::Cursor::new(archive)).ok()?;
    read.by_name_decrypt(name, &[]).ok()?.ok()?;
    let mut file = read.by_name(name).ok()?;
    let mut bytes = Vec::new();
    file.read_to_end(&mut bytes).unwrap_or_default();
    Some(bytes)
}

/// The bytes of an image file in base 64.
pub fn open_file_image(data: &[u8]) -> (text: String)
    ensures
        text@ == base64_no_pad_of(data@),
{
    encode_base64(data)
}

/// The text for an entry that was read from an archive: its bytes in base
/// 64, or the empty text where there is no entry.
pub fn entry_text(entry: Option<Vec<u8>>) -> (text: String)
    ensures
        text@ == match entry {
            Some(bytes) => base64_no_pad_of(bytes@),
            None => Seq::<char>::empty(),
        },
{
    match entry {
        Some(bytes) => encode_base64(bytes.as_slice()),
        None => String::new(),
    }
}

/// The entry `filename` of an archive in base 64; the empty text where the
/// bytes are no archive or hold no such entry.
pub fn read_image_in_zip(archive: &[u8], filename: &str) -> (text: String)
    ensures
        text@ == match archive_entry_of(archive@, filename@) {
            Some(bytes) => base64_no_pad_of(bytes),
            None => Seq::<char>::empty(),
        },
{
    entry_text(archive_entry(archive, filename))
}

} // verus!
