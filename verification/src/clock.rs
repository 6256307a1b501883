//! Reading the system clock.
use vstd::prelude::*;

verus! {

/// Milliseconds since the Unix epoch as a whole number, read from the system clock through
/// `utc_now_millis`; 0 for a reading before the epoch.
pub(crate) fn now_millis() -> (t: u64) {
    let t = utc_now_millis();
    if t < 0 {
        0
    } else {
        t as u64
    }
}

/// Milliseconds since the Unix epoch, read from `chrono::Utc::now()`.
/// Nothing is promised of the value: it is whatever the clock reads.
#[verifier::external_body]
pub(crate) fn utc_now_millis() -> (t: i64) {
    chrono::Utc::now().timestamp_millis()
}

} // verus!
