//! The one place the scheduler touches a clock.  Timestamps and durations are
//! plain `u64` millisecond counts everywhere else, so every scheduling
//! decision is verified for any reading the clock may give.

use vstd::prelude::*;

verus! {

/// Relies on `std::time::SystemTime::now` for the current instant, read as
/// milliseconds since the Unix epoch via `duration_since`.  The body returns
/// on every clock state: a reading before the epoch becomes 0 and one beyond
/// `u64` milliseconds saturates, instead of aborting as a clock read through
/// a panicking path would.  The result depends on the wall clock, so nothing
/// is promised of it.
#[verifier::external_body]
pub(crate) fn now_millis() -> u64 {
    match std::time::SystemTime::now().duration_since(std::time::UNIX_EPOCH) {
        Ok(since_epoch) => u64::try_from(since_epoch.as_millis()).unwrap_or(u64::MAX),
        Err(_) => 0,
    }
}

} // verus!
