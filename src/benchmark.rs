use vstd::prelude::*;

use std::time::{Duration, SystemTime};

verus! {

/// A reading of the system clock.
#[verifier::external_type_specification]
#[verifier::external_body]
pub struct ExSystemTime(SystemTime);

/// Relies on `SystemTime::now`: the current reading of the system clock.
#[verifier::external_body]
fn clock_now() -> SystemTime {
    SystemTime::now()
}

/// Relies on `SystemTime::duration_since`: the time from `start` to `end`,
/// or `None` where the clock reads `end` as earlier than `start`.
#[verifier::external_body]
fn elapsed_between(start: &SystemTime, end: &SystemTime) -> Option<Duration> {
    end.duration_since(*start).ok()
}

/// Relies on `Duration::from_secs`: a span of whole seconds.
pub assume_specification[ core::time::Duration::from_secs ](secs: u64) -> Duration;

/// Runs `f` once and returns its result with the wall-clock time it took.
/// Where the clock went backwards during the run, the time is zero.
pub fn timeit<F: Fn() -> T, T>(f: F) -> (r: (T, Duration))
    requires
        f.requires(()),
    ensures
        f.ensures((), r.0),
{
    let start = clock_now();
    let result = f();
    let end = clock_now();
    let duration = match elapsed_between(&start, &end) {
        Some(d) => d,
        None => Duration::from_secs(0),
    };
    (result, duration)
}

} // verus!
