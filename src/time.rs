//! The system clock.

use std::time::Duration;
use std::time::UNIX_EPOCH;
use vstd::prelude::*;

verus! {

/// Relies on `SystemTime::elapsed` of `UNIX_EPOCH`: the time that has passed
/// since the epoch by the system clock. A clock set before the epoch reads as
/// zero. Nothing is known of the value.
#[verifier::external_body]
pub fn get_duration_since_unix() -> Duration {
    UNIX_EPOCH.elapsed().unwrap_or_default()
}

/// Relies on `Duration::as_secs`: the whole seconds of a duration.
pub assume_specification[ core::time::Duration::as_secs ](d: &core::time::Duration) -> u64;

/// Whole minutes since the Unix epoch, by the system clock.
pub fn minutes_since_unix() -> (m: u64)
    ensures
        m <= u64::MAX / 60,
{
    get_duration_since_unix().as_secs() / 60
}

} // verus!
