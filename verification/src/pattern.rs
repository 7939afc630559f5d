//! Regular-expression patterns, compiled and matched by the `regex` crate.

use vstd::prelude::*;

verus! {

/// `regex::Regex`, a compiled regular expression: carried along, never looked into.
#[verifier::external_type_specification]
#[verifier::external_body]
pub struct ExRegex(regex::Regex);

/// Whether `regex` accepts `pattern` as a regular expression.
pub uninterp spec fn pattern_compiles(pattern: Seq<char>) -> bool;

/// Whether the regular expression `pattern` matches somewhere in `text`.
pub uninterp spec fn pattern_matches(pattern: Seq<char>, text: Seq<char>) -> bool;

/// A compiled pattern together with the text it was compiled from.
pub struct Pattern {
    source: String,
    compiled: regex::Regex,
}

impl Pattern {
    /// The text the pattern was compiled from.
    pub closed spec fn source(&self) -> Seq<char> {
        self.source@
    }

    /// Calls `regex::Regex::new`: a pattern for exactly the texts that the
    /// crate accepts as regular expressions, keeping the text beside it.
    #[verifier::external_body]
    pub(crate) fn compile(pattern: &str) -> (r: Option<Pattern>)
        ensures
            r is Some <==> pattern_compiles(pattern@),
            r matches Some(p) ==> p.source() == pattern@,
    {
        match regex::Regex::new(pattern) {
            Ok(compiled) => Some(Pattern { source: pattern.to_string(), compiled }),
            Err(_) => None,
        }
    }

    /// Calls `regex::Regex::is_match`: whether the pattern matches anywhere in `text`.
    #[verifier::external_body]
    pub(crate) fn is_match(&self, text: &str) -> (b: bool)
        ensures
            b == pattern_matches(self.source(), text@),
    {
        self.compiled.is_match(text)
    }
}

/// Whether `text` matches `pattern`; `None` when `pattern` is no regular expression.
pub open spec fn match_outcome(pattern: Seq<char>, text: Seq<char>) -> Option<bool> {
    if pattern_compiles(pattern) {
        Some(pattern_matches(pattern, text))
    } else {
        None
    }
}

/// Whether `text` matches `pattern`; `None` when `pattern` is no regular expression.
pub fn match_pattern(pattern: &str, text: &str) -> (r: Option<bool>)
    ensures
        r == match_outcome(pattern@, text@),
{
    match Pattern::compile(pattern) {
        Some(p) => Some(p.is_match(text)),
        None => None,
    }
}

} // verus!
