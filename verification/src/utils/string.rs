//! Utilities on texts.

use vstd::prelude::*;
use crate::chars::{
    all_space, char_is_uppercase, chars_all_space, first_lowercase, first_uppercase, is_upper,
    lowered, raised,
};
use crate::text::{chars_of, owned, push_range, text_of};

verus! {

/// `s` as it is when it has at most `max_len` characters; else its first
/// `max_len - 3` characters (none if `max_len` is below 3) and three dots.
pub open spec fn truncated(s: Seq<char>, max_len: nat) -> Seq<char> {
    if s.len() <= max_len {
        s
    } else if max_len <= 3 {
        "..."@
    } else {
        s.subrange(0, max_len - 3) + "..."@
    }
}

/// Shortens a text to `max_len` characters, the last three of them dots.
pub fn truncate(s: &str, max_len: usize) -> (r: String)
    ensures
        r@ == truncated(s@, max_len as nat),
{
    let chars = chars_of(s);
    if chars.len() <= max_len {
        owned(s)
    } else {
        let keep: usize = if max_len <= 3 {
            0
        } else {
            max_len - 3
        };
        let mut out: Vec<char> = Vec::new();
        push_range(&mut out, &chars, 0, keep);
        out.push('.');
        out.push('.');
        out.push('.');
        proof {
            reveal_strlit("...");
            assert("..."@ =~= seq!['.', '.', '.']);
            assert(out@ =~= truncated(s@, max_len as nat));
        }
        text_of(&out)
    }
}

/// Whether a text is empty or holds nothing but white space.
pub fn is_blank(s: &str) -> (b: bool)
    ensures
        b == all_space(s@),
{
    let chars = chars_of(s);
    chars_all_space(&chars)
}

/// What one character adds in snake case: an underscore before an
/// upper-case letter that is not the first character, then the character in
/// lower case.
pub open spec fn snake_added(before: Seq<char>, upper: bool, lower: char) -> Seq<char> {
    if upper && before.len() > 0 {
        before.push('_').push(lower)
    } else {
        before.push(lower)
    }
}

/// The first `n` characters of `s` in snake case.
pub open spec fn snake_case(s: Seq<char>, n: nat) -> Seq<char>
    decreases n,
{
    if n == 0 || n > s.len() {
        Seq::empty()
    } else {
        snake_added(snake_case(s, (n - 1) as nat), is_upper(s[n - 1]), lowered(s[n - 1]))
    }
}

/// Adds one character in snake case, given whether it is an upper-case
/// letter and what it is in lower case.
pub fn push_snake(out: &mut Vec<char>, upper: bool, lower: char)
    ensures
        final(out)@ == snake_added(old(out)@, upper, lower),
{
    if upper && out.len() > 0 {
        out.push('_');
    }
    out.push(lower);
}

/// Writes a text in snake case: `HelloWorld` becomes `hello_world`.
pub fn to_snake_case(s: &str) -> (r: String)
    ensures
        r@ == snake_case(s@, s@.len()),
{
    let chars = chars_of(s);
    let mut out: Vec<char> = Vec::new();
    let mut i: usize = 0;
    while i < chars.len()
        invariant
            i <= chars.len(),
            chars@ == s@,
            out@ == snake_case(s@, i as nat),
        decreases chars.len() - i,
    {
        let c = chars[i];
        let lower = match first_lowercase(c) {
            Some(l) => l,
            None => c,
        };
        push_snake(&mut out, char_is_uppercase(c), lower);
        i = i + 1;
    }
    text_of(&out)
}

/// What reading a text for camel case has got to: the text so far, and
/// whether an underscore was just passed.
pub struct Camel {
    pub text: Seq<char>,
    pub pending: bool,
}

/// What one character adds in camel case: an underscore is dropped and
/// marks the next character, a marked character stands in upper case.
pub open spec fn camel_added(before: Camel, c: char, upper: char) -> Camel {
    if c == '_' {
        Camel { text: before.text, pending: true }
    } else if before.pending {
        Camel { text: before.text.push(upper), pending: false }
    } else {
        Camel { text: before.text.push(c), pending: false }
    }
}

/// The first `n` characters of `s` in camel case.
pub open spec fn camel_case(s: Seq<char>, n: nat) -> Camel
    decreases n,
{
    if n == 0 || n > s.len() {
        Camel { text: Seq::empty(), pending: false }
    } else {
        camel_added(camel_case(s, (n - 1) as nat), s[n - 1], raised(s[n - 1]))
    }
}

/// Adds one character in camel case, given what it is in upper case, and
/// tells whether the next character is marked.
pub fn push_camel(out: &mut Vec<char>, pending: bool, c: char, upper: char) -> (next: bool)
    ensures
        (Camel { text: final(out)@, pending: next }) == camel_added(
            Camel { text: old(out)@, pending },
            c,
            upper,
        ),
{
    if c == '_' {
        true
    } else if pending {
        out.push(upper);
        false
    } else {
        out.push(c);
        false
    }
}

/// Writes a text in camel case: `hello_world` becomes `helloWorld`.
pub fn to_camel_case(s: &str) -> (r: String)
    ensures
        r@ == camel_case(s@, s@.len()).text,
{
    let chars = chars_of(s);
    let mut out: Vec<char> = Vec::new();
    let mut pending = false;
    let mut i: usize = 0;
    while i < chars.len()
        invariant
            i <= chars.len(),
            chars@ == s@,
            (Camel { text: out@, pending }) == camel_case(s@, i as nat),
        decreases chars.len() - i,
    {
        let c = chars[i];
        let upper = match first_uppercase(c) {
            Some(u) => u,
            None => c,
        };
        pending = push_camel(&mut out, pending, c, upper);
        i = i + 1;
    }
    text_of(&out)
}

} // verus!
