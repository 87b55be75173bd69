//! The wall clock, as the subscription writer reads it.

use vstd::prelude::*;

verus! {

/// Relies on `chrono::Utc::now` and `DateTime::timestamp_millis`: the
/// current instant as non-leap milliseconds since the Unix epoch. A clock
/// reading depends on when it is taken, so nothing is promised of the
/// value; callers must be correct for every reading.
#[verifier::external_body]
pub fn now_timestamp_millis() -> i64 {
    chrono::Utc::now().timestamp_millis()
}

} // verus!
