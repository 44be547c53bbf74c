//! The records that the profile store keeps, and its clock.

use vstd::prelude::*;

verus! {

/// A space: a named group of pages and bookmarks.
#[derive(Clone, Debug, PartialEq, Eq)]
pub struct Space {
    pub id: String,
    pub name: String,
    pub position: i64,
}

/// An open page (tab).
#[derive(Clone, Debug, PartialEq, Eq)]
pub struct Page {
    pub id: String,
    pub url: String,
    pub title: String,
    pub position: i64,
}

/// One visit in the history.
#[derive(Clone, Debug, PartialEq, Eq)]
pub struct HistoryEntry {
    pub id: String,
    pub url: String,
    pub title: String,
    pub visited_at: i64,
}

/// Calls `SystemTime::now` and `duration_since(UNIX_EPOCH)`: the milliseconds
/// since the Unix epoch, or 0 for a clock set before it. The value is the
/// clock's, so nothing is stated of it.
#[verifier::external_body]
fn unix_millis() -> (r: u128) {
    std::time::SystemTime::now().duration_since(std::time::UNIX_EPOCH).unwrap_or_default().as_millis()
}

/// Milliseconds as an `i64`, saturating at `i64::MAX`.
pub fn millis_as_i64(millis: u128) -> (r: i64)
    ensures
        r == if millis > i64::MAX as u128 {
            i64::MAX as int
        } else {
            millis as int
        },
{
    if millis > 9223372036854775807 {
        9223372036854775807
    } else {
        millis as i64
    }
}

/// The current time in milliseconds since the Unix epoch, saturating.
pub fn now_ms() -> (r: i64)
    ensures
        r >= 0,
{
    millis_as_i64(unix_millis())
}

} // verus!
