//! The wall clock, from `chrono`.

use vstd::prelude::*;

verus! {

/// `chrono::Utc::now`, turned into milliseconds since the Unix epoch by
/// `DateTime::timestamp_millis`. Nothing is claimed of the result: it is the
/// time. `chrono` stops the program where the system clock stands before
/// 1970.
#[verifier::external_body]
pub(crate) fn unix_millis() -> i64 {
    chrono::Utc::now().timestamp_millis()
}

} // verus!
