//! Base64, as the `base64` crate writes and reads it with its standard
//! alphabet and padding.

use vstd::prelude::*;

verus! {

/// `base64::DecodeError`, why a text is no Base64: carried along, never looked into.
#[verifier::external_type_specification]
#[verifier::external_body]
pub struct ExDecodeError(base64::DecodeError);

/// The standard Base64 text of the bytes.
pub uninterp spec fn base64_text(bytes: Seq<u8>) -> Seq<char>;

/// The bytes that a standard Base64 text stands for, if it is one.
pub uninterp spec fn base64_bytes(text: Seq<char>) -> Option<Seq<u8>>;

/// Calls `encode` of `base64::engine::general_purpose::STANDARD`: the
/// standard Base64 text of the bytes. The crate gives up only where the
/// length of the text would not fit the machine's word, which no slice of
/// bytes is long enough for.
#[verifier::external_body]
pub(crate) fn standard_encode(bytes: &[u8]) -> (text: String)
    ensures
        text@ == base64_text(bytes@),
{
    base64::Engine::encode(&base64::engine::general_purpose::STANDARD, bytes)
}

/// Calls `decode` of `base64::engine::general_purpose::STANDARD`: the bytes
/// of a standard Base64 text, or the crate's error for any other text.
#[verifier::external_body]
pub(crate) fn standard_decode(text: &str) -> (r: Result<Vec<u8>, base64::DecodeError>)
    ensures
        match r {
            Ok(bytes) => base64_bytes(text@) == Some(bytes@),
            Err(_) => base64_bytes(text@) is None,
        },
{
    base64::Engine::decode(&base64::engine::general_purpose::STANDARD, text)
}

/// Calls `to_string` on the crate's error: its description, of which nothing is claimed.
#[verifier::external_body]
pub(crate) fn describe_decode_error(e: &base64::DecodeError) -> (text: String)
{
    e.to_string()
}

} // verus!
