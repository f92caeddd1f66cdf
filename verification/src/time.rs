//! Time sources: the system clock, and a fixed clock for tests.

use vstd::prelude::*;

verus! {

#[verifier::external_type_specification]
#[verifier::external_body]
pub struct ExSystemTime(std::time::SystemTime);

#[verifier::external_type_specification]
#[verifier::external_body]
pub struct ExSystemTimeError(std::time::SystemTimeError);

/// `std::time::SystemTime::now`: the current time of the system clock.
#[verifier::external_body]
fn system_now() -> std::time::SystemTime {
    std::time::SystemTime::now()
}

/// `std::time::SystemTime::duration_since` the UNIX epoch: an error where
/// the time is before it.
#[verifier::external_body]
fn since_unix_epoch(t: std::time::SystemTime) -> Result<
    std::time::Duration,
    std::time::SystemTimeError,
> {
    t.duration_since(std::time::UNIX_EPOCH)
}

/// The whole seconds of a duration, as `std::time::Duration::as_secs`
/// gives them: a function of the duration alone.
pub uninterp spec fn duration_whole_secs(d: std::time::Duration) -> u64;

/// `std::time::Duration::as_secs`: the whole seconds of a duration.
#[verifier::external_body]
fn whole_secs(d: std::time::Duration) -> (secs: u64)
    ensures
        secs == duration_whole_secs(d),
{
    d.as_secs()
}

/// The UNIX timestamp in seconds, given how far past the epoch the clock
/// read: its whole seconds, or `None` where the clock read before the
/// epoch.
pub fn unix_secs_of(since: Result<std::time::Duration, std::time::SystemTimeError>) -> (r: Option<
    u64,
>)
    ensures
        match since {
            Ok(d) => r == Some(duration_whole_secs(d)),
            Err(_) => r is None,
        },
{
    match since {
        Ok(d) => Some(whole_secs(d)),
        Err(_) => None,
    }
}

/// The current UNIX timestamp in seconds; `None` where the system clock is
/// set before the epoch.
pub fn current_unix() -> Option<u64> {
    unix_secs_of(since_unix_epoch(system_now()))
}

/// Abstraction over "now", so that a clock can be replaced in tests.
pub trait TimeProvider {
    /// The current UNIX timestamp in seconds.
    fn now(&self) -> u64;
}

/// A fixed clock for tests.
pub struct FakeTime {
    pub timestamp: u64,
}

impl TimeProvider for FakeTime {
    /// Always the fixed timestamp.
    fn now(&self) -> (t: u64)
        ensures
            t == self.timestamp,
    {
        self.timestamp
    }
}

} // verus!
