//! Properties of single characters: white space, and the case mappings of
//! the standard library.

use vstd::prelude::*;

verus! {

/// Whether the standard library holds `c` to be an upper-case letter.
pub uninterp spec fn is_upper(c: char) -> bool;

/// The first character of what the standard library maps `c` to in lower case.
pub uninterp spec fn lower_of(c: char) -> Option<char>;

/// The first character of what the standard library maps `c` to in upper case.
pub uninterp spec fn upper_of(c: char) -> Option<char>;

/// Calls `char::is_uppercase`.
#[verifier::external_body]
pub(crate) fn char_is_uppercase(c: char) -> (b: bool)
    ensures
        b == is_upper(c),
{
    c.is_uppercase()
}

/// Calls `char::to_lowercase` and takes the first character of the mapping.
#[verifier::external_body]
pub(crate) fn first_lowercase(c: char) -> (r: Option<char>)
    ensures
        r == lower_of(c),
{
    c.to_lowercase().next()
}

/// Calls `char::to_uppercase` and takes the first character of the mapping.
#[verifier::external_body]
pub(crate) fn first_uppercase(c: char) -> (r: Option<char>)
    ensures
        r == upper_of(c),
{
    c.to_uppercase().next()
}

/// `c` in lower case: the first character of its mapping, or `c` itself
/// where the mapping is empty.
pub open spec fn lowered(c: char) -> char {
    match lower_of(c) {
        Some(l) => l,
        None => c,
    }
}

/// `c` in upper case: the first character of its mapping, or `c` itself
/// where the mapping is empty.
pub open spec fn raised(c: char) -> char {
    match upper_of(c) {
        Some(u) => u,
        None => c,
    }
}

/// White space: the characters that separate words and lines.
pub open spec fn is_space(c: char) -> bool {
    let code = c as int;
    ||| 0x09 <= code <= 0x0d
    ||| code == 0x20
    ||| code == 0x85
    ||| code == 0xa0
    ||| code == 0x1680
    ||| 0x2000 <= code <= 0x200a
    ||| code == 0x2028
    ||| code == 0x2029
    ||| code == 0x202f
    ||| code == 0x205f
    ||| code == 0x3000
}

/// Whether `c` is white space.
pub fn char_is_space(c: char) -> (b: bool)
    ensures
        b == is_space(c),
{
    let code: u32 = c as u32;
    (0x09 <= code && code <= 0x0d) || code == 0x20 || code == 0x85 || code == 0xa0 || code
        == 0x1680 || (0x2000 <= code && code <= 0x200a) || code == 0x2028 || code == 0x2029
        || code == 0x202f || code == 0x205f || code == 0x3000
}

/// Whether a text holds nothing but white space.
pub open spec fn all_space(s: Seq<char>) -> bool {
    forall|i: int| 0 <= i < s.len() ==> is_space(#[trigger] s[i])
}

/// Whether `s` holds nothing but white space.
pub(crate) fn chars_all_space(s: &Vec<char>) -> (b: bool)
    ensures
        b == all_space(s@),
{
    let mut i: usize = 0;
    while i < s.len()
        invariant
            i <= s.len(),
            forall|k: int| 0 <= k < i ==> is_space(#[trigger] s@[k]),
        decreases s.len() - i,
    {
        if !char_is_space(s[i]) {
            return false;
        }
        i = i + 1;
    }
    true
}

} // verus!
