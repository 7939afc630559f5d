//! Checks on the shape of texts.

use vstd::prelude::*;
use crate::chars::{all_space, chars_all_space};
use crate::text::{
    chars_of, contains_text, ends_with_text, has_prefix, has_subtext, has_suffix, starts_with_text,
};

verus! {

/// An e-mail address, as far as it is checked: it holds an `@` and a `.`,
/// and the `@` stands neither first nor last.
pub open spec fn email_shaped(s: Seq<char>) -> bool {
    has_subtext(s, "@"@) && has_subtext(s, "."@) && !has_prefix(s, "@"@) && !has_suffix(s, "@"@)
}

/// A URL, as far as it is checked: it starts with `http://` or `https://`.
pub open spec fn url_shaped(s: Seq<char>) -> bool {
    has_prefix(s, "http://"@) || has_prefix(s, "https://"@)
}

/// Whether a text has the shape of an e-mail address.
pub fn is_valid_email(email: &str) -> (b: bool)
    ensures
        b == email_shaped(email@),
{
    contains_text(email, "@") && contains_text(email, ".") && !starts_with_text(email, "@")
        && !ends_with_text(email, "@")
}

/// Whether a text has the shape of a URL.
pub fn is_valid_url(url: &str) -> (b: bool)
    ensures
        b == url_shaped(url@),
{
    starts_with_text(url, "http://") || starts_with_text(url, "https://")
}

/// Whether a text holds more than white space.
pub fn is_not_empty(s: &str) -> (b: bool)
    ensures
        b == !all_space(s@),
{
    let chars = chars_of(s);
    !chars_all_space(&chars)
}

} // verus!
