//! Named text formats whose grammar lives in outside crates.

use vstd::prelude::*;

verus! {

/// Whether `chrono` reads `text` as an RFC 3339 date and time.
pub uninterp spec fn reads_as_rfc3339(text: Seq<char>) -> bool;

/// Whether `uuid` reads `text` as a UUID.
pub uninterp spec fn reads_as_uuid(text: Seq<char>) -> bool;

/// Calls `chrono::DateTime::parse_from_rfc3339` and tells whether it
/// accepted the text.
#[verifier::external_body]
pub(crate) fn is_rfc3339(text: &str) -> (b: bool)
    ensures
        b == reads_as_rfc3339(text@),
{
    chrono::DateTime::parse_from_rfc3339(text).is_ok()
}

/// Calls `uuid::Uuid::parse_str` and tells whether it accepted the text.
#[verifier::external_body]
pub(crate) fn is_uuid(text: &str) -> (b: bool)
    ensures
        b == reads_as_uuid(text@),
{
    uuid::Uuid::parse_str(text).is_ok()
}

} // verus!
