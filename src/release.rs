//! What the release service reports of the latest release.
use vstd::prelude::*;

verus! {

/// The latest published release: its tag, when it was published (RFC 3339)
/// and where its archive is downloaded from.
#[derive(Debug, Clone)]
pub struct ReleaseInfo {
    pub tag_name: String,
    pub published_at: String,
    pub zipball_url: String,
}

/// Whether `s` is a date and time in the RFC 3339 format, as chrono reads it.
pub uninterp spec fn is_rfc3339(s: Seq<char>) -> bool;

/// Relies on `chrono::DateTime::parse_from_rfc3339`: whether the text parses;
/// the answer depends on the text alone.
#[verifier::external_body]
pub(crate) fn parses_as_rfc3339(s: &str) -> (r: bool)
    ensures
        r == is_rfc3339(s@),
{
    chrono::DateTime::parse_from_rfc3339(s).is_ok()
}

} // verus!
