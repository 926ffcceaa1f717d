//! Time since the Unix epoch.
use std::time::Duration;
use std::time::SystemTime;
use vstd::prelude::*;

verus! {

#[verifier::external_type_specification]
#[verifier::external_body]
pub struct ExSystemTime(std::time::SystemTime);

/// Nanoseconds of a duration.
pub uninterp spec fn nanos(duration: std::time::Duration) -> u128;

/// The clock has stood at this time.
pub uninterp spec fn clock_read(time: SystemTime) -> bool;

/// Time from the Unix epoch to this one; `None` for a time before the epoch.
pub uninterp spec fn from_epoch(time: SystemTime) -> Option<Duration>;

/// `SystemTime::now`: the clock's reading. What the clock shows is not stated.
pub assume_specification[ std::time::SystemTime::now ]() -> (result: std::time::SystemTime)
    ensures
        clock_read(result),
;

/// `Duration::as_nanos`: the whole duration in nanoseconds.
pub assume_specification[ std::time::Duration::as_nanos ](duration: &std::time::Duration) -> (result: u128)
    ensures
        result == nanos(*duration),
;

/// `Duration::as_secs`: the whole seconds of a duration.
pub assume_specification[ std::time::Duration::as_secs ](duration: &std::time::Duration) -> (result: u64)
    ensures
        result == nanos(*duration) / 1_000_000_000,
;

/// `SystemTime::duration_since` the Unix epoch; `None` for a clock set before it.
#[verifier::external_body]
fn since_epoch(time: &SystemTime) -> (result: Option<Duration>)
    ensures
        result == from_epoch(*time),
{
    time.duration_since(std::time::UNIX_EPOCH).ok()
}

/// Whole seconds of a time since the epoch; 0 before it.
pub open spec fn seconds_of(elapsed: Option<Duration>) -> int {
    match elapsed {
        Some(duration) => nanos(duration) as int / 1_000_000_000,
        None => 0,
    }
}

/// The low 64 bits of the nanoseconds of a time since the epoch; 0 before it.
pub open spec fn seed_of(elapsed: Option<Duration>) -> u64 {
    match elapsed {
        Some(duration) => nanos(duration) as u64,
        None => 0,
    }
}

/// Whole seconds of a time since the epoch; 0 before it.
pub fn epoch_seconds(elapsed: Option<Duration>) -> (result: u64)
    ensures
        result == seconds_of(elapsed),
{
    match elapsed {
        Some(duration) => duration.as_secs(),
        None => 0,
    }
}

/// The low 64 bits of the nanoseconds of a time since the epoch; 0 before it.
pub fn epoch_seed(elapsed: Option<Duration>) -> (result: u64)
    ensures
        result == seed_of(elapsed),
{
    match elapsed {
        Some(duration) => duration.as_nanos() as u64,
        None => 0,
    }
}

/// Seconds since the epoch, as the clock stands.
pub fn now_epoch() -> (result: u64)
    ensures
        exists|time: SystemTime| #[trigger] clock_read(time) && result == seconds_of(from_epoch(time)),
{
    let now = SystemTime::now();
    epoch_seconds(since_epoch(&now))
}

/// A seed from the clock.
pub fn rand_seed() -> (result: u64)
    ensures
        exists|time: SystemTime| #[trigger] clock_read(time) && result == seed_of(from_epoch(time)),
{
    let now = SystemTime::now();
    epoch_seed(since_epoch(&now))
}

/// Whole seconds are as many as fit into the time that has passed, and a time before the epoch
/// counts as none; a later time has no fewer. A seed is the time in nanoseconds, as far as 64 bits
/// hold it.
pub proof fn law_seconds_fit_the_time(elapsed: Duration, later: Duration)
    requires
        nanos(elapsed) <= nanos(later),
    ensures
        seconds_of(Some(elapsed)) * 1_000_000_000 <= nanos(elapsed) < (seconds_of(Some(elapsed)) + 1)
            * 1_000_000_000,
        seconds_of(Some(elapsed)) <= seconds_of(Some(later)),
        seconds_of(None) == 0,
        nanos(elapsed) <= u64::MAX ==> seed_of(Some(elapsed)) == nanos(elapsed),
        nanos(elapsed) < nanos(later) <= u64::MAX ==> seed_of(Some(elapsed)) != seed_of(
            Some(later),
        ),
        seed_of(None) == 0,
{
}

} // verus!
