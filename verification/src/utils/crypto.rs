//! Identifiers, random texts and Base64.

use vstd::prelude::*;
use crate::encoding::{
    base64_bytes, base64_text, describe_decode_error, standard_decode, standard_encode,
};
use crate::error::{Error, ErrorView};
use crate::text::{chars_of, has_prefix, join2, text_of};

verus! {

/// `uuid::Uuid`, an identifier of 128 bits: carried along, never looked into.
#[verifier::external_type_specification]
#[verifier::external_body]
pub struct ExUuid(uuid::Uuid);

/// Calls `uuid::Uuid::new_v4`: a random identifier, of which nothing is
/// claimed. The crate gives up where the system has no random bytes to give.
#[verifier::external_body]
pub fn generate_uuid() -> (id: uuid::Uuid)
{
    uuid::Uuid::new_v4()
}

/// Calls `to_string` on the identifier: its hyphenated form of 36
/// characters, whatever the identifier.
#[verifier::external_body]
fn uuid_text(id: &uuid::Uuid) -> (s: String)
    ensures
        s@.len() == 36,
{
    id.to_string()
}

/// Calls `as_u128` on the identifier: its 128 bits as a number, of which
/// nothing is claimed.
#[verifier::external_body]
fn uuid_bits(id: &uuid::Uuid) -> (bits: u128)
{
    id.as_u128()
}

/// A random identifier, written out in 36 characters.
pub fn generate_uuid_string() -> (s: String)
    ensures
        s@.len() == 36,
{
    let id = generate_uuid();
    uuid_text(&id)
}

/// The Base64 text of the bytes.
pub fn encode_base64(data: &[u8]) -> (text: String)
    ensures
        text@ == base64_text(data@),
{
    standard_encode(data)
}

/// The bytes of a Base64 text, or an error that begins with
/// `Failed to decode base64: ` for a text that is none.
pub fn decode_base64(encoded: &str) -> (r: Result<Vec<u8>, Error>)
    ensures
        match r {
            Ok(bytes) => base64_bytes(encoded@) == Some(bytes@),
            Err(e) => {
                &&& base64_bytes(encoded@) is None
                &&& e@ matches ErrorView::Generic(m)
                &&& has_prefix(m, "Failed to decode base64: "@)
            },
        },
{
    match standard_decode(encoded) {
        Ok(bytes) => Ok(bytes),
        Err(e) => {
            let why = describe_decode_error(&e);
            let message = join2("Failed to decode base64: ", why.as_str());
            assert(message@.subrange(0, "Failed to decode base64: "@.len() as int)
                =~= "Failed to decode base64: "@);
            Err(Error::Generic(message))
        },
    }
}

/// The characters that random texts are made of: the letters and the digits.
pub open spec fn alphabet() -> Seq<char> {
    "abcdefghijklmnopqrstuvwxyzABCDEFGHIJKLMNOPQRSTUVWXYZ0123456789"@
}

/// The character that the given random bits pick.
pub open spec fn picked(bits: u128) -> char {
    alphabet()[(bits % 62) as int]
}

/// The character of the alphabet that the given random bits pick.
fn pick_char(letters: &Vec<char>, bits: u128) -> (c: char)
    requires
        letters@ == alphabet(),
    ensures
        c == picked(bits),
{
    proof {
        reveal_strlit("abcdefghijklmnopqrstuvwxyzABCDEFGHIJKLMNOPQRSTUVWXYZ0123456789");
    }
    letters[(bits % 62) as usize]
}

/// A random text of `length` letters and digits.
pub fn generate_random_string(length: usize) -> (s: String)
    ensures
        s@.len() == length,
        forall|i: int| 0 <= i < s@.len() ==> alphabet().contains(#[trigger] s@[i]),
{
    let letters = chars_of("abcdefghijklmnopqrstuvwxyzABCDEFGHIJKLMNOPQRSTUVWXYZ0123456789");
    proof {
        reveal_strlit("abcdefghijklmnopqrstuvwxyzABCDEFGHIJKLMNOPQRSTUVWXYZ0123456789");
    }
    let mut out: Vec<char> = Vec::new();
    let mut i: usize = 0;
    while i < length
        invariant
            i <= length,
            letters@ == alphabet(),
            alphabet().len() == 62,
            out@.len() == i,
            forall|k: int| 0 <= k < out@.len() ==> alphabet().contains(#[trigger] out@[k]),
        decreases length - i,
    {
        let id = generate_uuid();
        let bits = uuid_bits(&id);
        let c = pick_char(&letters, bits);
        assert(alphabet().contains(c)) by {
            assert(alphabet()[(bits % 62) as int] == c);
        }
        out.push(c);
        i = i + 1;
    }
    text_of(&out)
}

} // verus!
