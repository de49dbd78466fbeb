//! A single-user time-tracking backend library.
//!
//! Projects and study sessions (time intervals spent on a project) are kept
//! in a store that enforces the business rule of the system: at most one
//! study session may be active (clocked in, with no end time) at any moment.

use vstd::prelude::*;

pub mod api;
pub mod laws;
pub mod models;
pub mod store;
pub mod time;

verus! {

/// Latest timestamp the canonical textual format can carry
/// (9999-12-31T23:59:59 UTC as seconds since the Unix epoch).
pub const MAX_TIMESTAMP: i64 = 253402300799;

/// Timestamps the store accepts: representable in the canonical text format.
pub open spec fn valid_ts(t: i64) -> bool {
    0 <= t <= MAX_TIMESTAMP
}

/// Whether a timestamp is in the range the store accepts.
pub fn timestamp_in_range(t: i64) -> (r: bool)
    ensures
        r == valid_ts(t),
{
    0 <= t && t <= MAX_TIMESTAMP
}

} // verus!
