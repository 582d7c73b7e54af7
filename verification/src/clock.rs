//! Wall-clock time in milliseconds since the Unix epoch.

use std::time::{Duration, SystemTime, SystemTimeError, UNIX_EPOCH};
use vstd::prelude::*;

verus! {

#[verifier::external_type_specification]
#[verifier::external_body]
pub struct ExSystemTime(SystemTime);

#[verifier::external_type_specification]
#[verifier::external_body]
pub struct ExSystemTimeError(SystemTimeError);

/// Calls `SystemTime::now`. The result is the machine's clock, of which
/// nothing is claimed.
#[verifier::external_body]
fn system_time_now() -> SystemTime {
    SystemTime::now()
}

/// Calls `SystemTime::duration_since(UNIX_EPOCH)` on `t`: the time elapsed
/// since the epoch, or an error when `t` lies before it. Nothing is claimed
/// of which of the two comes back, since `t` is the machine's clock.
#[verifier::external_body]
fn since_unix_epoch(t: &SystemTime) -> Result<Duration, SystemTimeError> {
    t.duration_since(UNIX_EPOCH)
}

/// Calls `Duration::as_millis`: the whole milliseconds of `d`. The value
/// of `d` is not visible here, so nothing is claimed of the result.
#[verifier::external_body]
fn whole_millis(d: &Duration) -> u128 {
    d.as_millis()
}

/// The timestamp of a reading of the clock: the milliseconds elapsed since
/// the epoch, cut to 64 bits as an `as u64` cast cuts them; a clock before
/// the epoch (`None`) gives no timestamp.
pub fn timestamp_from_elapsed(elapsed_ms: Option<u128>) -> (ts: Option<u64>)
    ensures
        match elapsed_ms {
            Some(ms) => ts == Some(ms as u64),
            None => ts is None,
        },
{
    match elapsed_ms {
        Some(ms) => Some(ms as u64),
        None => None,
    }
}

/// The current time in milliseconds since the Unix epoch, or `None` when
/// the clock reads a time before the epoch. It never panics; what the clock
/// reads is not stated.
pub fn now_ms() -> Option<u64> {
    let now = system_time_now();
    let elapsed = match since_unix_epoch(&now) {
        Ok(d) => Some(whole_millis(&d)),
        Err(_) => None,
    };
    timestamp_from_elapsed(elapsed)
}

} // verus!
