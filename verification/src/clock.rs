//! Reading the wall clock.  The consensus engine itself is driven with
//! explicit clock readings; callers that run nodes in real time take them
//! from here.

use vstd::prelude::*;

verus! {

/// Relies on time::OffsetDateTime::now_utc and its unix_timestamp_nanos:
/// the system clock, as nanoseconds since the Unix epoch.  The reading
/// depends on the environment, so nothing is promised of it.
#[verifier::external_body]
fn clock_unix_nanos() -> i128 {
    time::OffsetDateTime::now_utc().unix_timestamp_nanos()
}

/// The wall clock as whole milliseconds since the Unix epoch.  A reading
/// from before the epoch counts as zero, and one beyond the range of `u64`
/// stops at its largest value; neither arises on a sane clock.
pub fn now_millis() -> u64 {
    let nanos = clock_unix_nanos();
    if nanos <= 0 {
        0
    } else {
        let millis = nanos / 1_000_000;
        if millis > u64::MAX as i128 {
            u64::MAX
        } else {
            millis as u64
        }
    }
}

} // verus!
