//! Decompression of gzip payloads, which is left to `flate2`.

use vstd::prelude::*;

verus! {

/// The error of std's readers, which the decoder returns. Nothing is known of a value of it.
#[verifier::external_type_specification]
#[verifier::external_body]
pub struct ExIoError(std::io::Error);

/// The text that a gzip payload holds: what decompressing its first member
/// gives, read as UTF-8. `None` where the payload is no gzip data or what it
/// holds is no UTF-8 text.
pub uninterp spec fn gzip_text(gz_bytes: Seq<u8>) -> Option<Seq<char>>;

/// Decompresses `gz_bytes` with `flate2::read::GzDecoder::new` and reads all
/// that it gives into a string, with `read_to_string` of `std::io::Read`. The
/// contract claims only that the outcome is the one that [`gzip_text`] names
/// for these bytes: the text where the decoder gives one, an error where it
/// does not. None of this is proved.
#[verifier::external_body]
pub(crate) fn gunzip_to_string(gz_bytes: &[u8]) -> (r: Result<String, std::io::Error>)
    ensures
        match r {
            Ok(text) => gzip_text(gz_bytes@) == Some(text@),
            Err(_) => gzip_text(gz_bytes@) is None,
        },
{
    let mut decoder = flate2::read::GzDecoder::new(gz_bytes);
    let mut text = String::new();
    match std::io::Read::read_to_string(&mut decoder, &mut text) {
        Ok(_) => Ok(text),
        Err(e) => Err(e),
    }
}

} // verus!
