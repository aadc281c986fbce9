//! Decoding file contents into text: UTF-8 when the bytes are valid UTF-8,
//! a best-effort decode otherwise.

use vstd::prelude::*;
use vstd::utf8::{
    decode_utf8, encode_utf8, encode_utf8_decode_utf8, encode_utf8_valid_utf8, valid_utf8,
};

verus! {

#[verifier::external_type_specification]
#[verifier::external_body]
pub struct ExIoError(std::io::Error);

/// A file could not be read or written.
#[derive(Debug)]
pub enum IoError {
    Io(std::io::Error),
}

/// Calls `std::str::from_utf8`: `Some` exactly for valid UTF-8, holding the
/// decoded text.
#[verifier::external_body]
fn utf8_text(bytes: &[u8]) -> (r: Option<String>)
    ensures
        r is Some <==> valid_utf8(bytes@),
        r matches Some(s) ==> s@ == decode_utf8(bytes@),
{
    match std::str::from_utf8(bytes) {
        Ok(s) => Some(s.to_string()),
        Err(_) => None,
    }
}

/// What `encoding_rs::UTF_8.decode` makes of a byte string: the text with
/// byte-order-mark sniffing (a leading BOM is dropped, and a UTF-16 BOM
/// selects UTF-16) and malformed sequences replaced by U+FFFD.
pub uninterp spec fn utf8_lossy(bytes: Seq<u8>) -> Seq<char>;

/// Calls `encoding_rs::Encoding::decode` on `UTF_8`; the result is named
/// `utf8_lossy(bytes)`. The call panics when the size of its output buffer
/// overflows `usize`, which the bound on the input's length rules out.
#[verifier::external_body]
fn decode_lossy(bytes: &[u8]) -> (r: String)
    requires
        bytes@.len() <= usize::MAX / 4,
    ensures
        r@ == utf8_lossy(bytes@),
{
    let (text, _, _) = encoding_rs::UTF_8.decode(bytes);
    text.into_owned()
}

/// The text of a file's bytes: decoded exactly when they are valid UTF-8,
/// decoded best-effort otherwise.
pub fn decode_text(bytes: &[u8]) -> (s: String)
    requires
        valid_utf8(bytes@) || bytes@.len() <= usize::MAX / 4,
    ensures
        valid_utf8(bytes@) ==> s@ == decode_utf8(bytes@),
        !valid_utf8(bytes@) ==> s@ == utf8_lossy(bytes@),
{
    match utf8_text(bytes) {
        Some(s) => s,
        None => decode_lossy(bytes),
    }
}


/// Text written as UTF-8 reads back as the same text.
pub proof fn lemma_decode_encoded_text(text: Seq<char>)
    ensures
        valid_utf8(encode_utf8(text)),
        decode_utf8(encode_utf8(text)) == text,
{
    encode_utf8_valid_utf8(text);
    encode_utf8_decode_utf8(text);
}

} // verus!
