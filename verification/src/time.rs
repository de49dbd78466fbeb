//! Timestamps and their canonical textual form.
//!
//! The store keeps every instant as RFC 3339 text and reads it back as a
//! Unix timestamp in whole seconds. Formatting and parsing are done by the
//! `chrono` crate behind the trusted wrappers below.

use vstd::prelude::*;
use crate::valid_ts;

verus! {

/// The Unix timestamp (whole seconds) that a piece of RFC 3339 text denotes,
/// or `None` where the text is not valid RFC 3339. Names the result of
/// `chrono::DateTime::parse_from_rfc3339` followed by `DateTime::timestamp`,
/// which depends on the text alone.
pub uninterp spec fn parsed_rfc3339(s: Seq<char>) -> Option<int>;

/// Relies on `chrono::DateTime::from_timestamp` and `DateTime::to_rfc3339`:
/// a timestamp in the representable range formats as RFC 3339 text, and
/// `parse_from_rfc3339` reads the very same instant back from that text.
#[verifier::external_body]
pub(crate) fn fmt_rfc3339(t: i64) -> (r: String)
    requires
        valid_ts(t),
    ensures
        parsed_rfc3339(r@) == Some(t as int),
{
    chrono::DateTime::from_timestamp(t, 0).unwrap().to_rfc3339()
}

/// Relies on `chrono::DateTime::parse_from_rfc3339`: parsing depends on the
/// text alone; `DateTime::timestamp` gives the denoted instant in whole
/// seconds. Invalid text is reported as `None`, never a panic.
#[verifier::external_body]
pub(crate) fn parse_rfc3339(s: &str) -> (r: Option<i64>)
    ensures
        r matches Some(t) ==> parsed_rfc3339(s@) == Some(t as int),
        r is None ==> parsed_rfc3339(s@) is None,
{
    chrono::DateTime::parse_from_rfc3339(s).ok().map(|dt| dt.timestamp())
}

/// Relies on `chrono::Utc::now`: the current wall-clock time as a Unix
/// timestamp. Nothing is promised of the value; callers must handle every
/// outcome, including one outside the representable range.
#[verifier::external_body]
pub(crate) fn now_timestamp() -> i64 {
    chrono::Utc::now().timestamp()
}

} // verus!
