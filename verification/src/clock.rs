//! Readings of the system clocks.

use std::time::{Duration, Instant, SystemTime, SystemTimeError, UNIX_EPOCH};

use vstd::prelude::*;

verus! {

#[verifier::external_type_specification]
#[verifier::external_body]
pub struct ExInstant(Instant);

#[verifier::external_type_specification]
#[verifier::external_body]
pub struct ExSystemTime(SystemTime);

#[verifier::external_type_specification]
#[verifier::external_body]
pub struct ExSystemTimeError(SystemTimeError);

/// `Instant::now` reads the monotonic clock; nothing is claimed of the reading.
pub assume_specification[ Instant::now ]() -> Instant
;

/// The nanoseconds in a duration, as `Duration::as_nanos` counts them.
pub uninterp spec fn nanoseconds(d: Duration) -> nat;

/// The nanoseconds from one instant to another, none where the other is not later.
pub uninterp spec fn span(from: Instant, to: Instant) -> nat;

/// `Instant::elapsed` gives the time from an instant to the one at which it is called; which one
/// that is, is left unsaid.
pub assume_specification[ Instant::elapsed ](since: &Instant) -> (age: Duration)
    ensures
        exists|now: Instant| nanoseconds(age) == #[trigger] span(*since, now),
;

/// `Duration::as_secs` gives the whole seconds in a duration.
pub assume_specification[ Duration::as_secs ](d: &Duration) -> (seconds: u64)
    ensures
        seconds == nanoseconds(*d) / 1_000_000_000,
;

/// `Duration::as_millis` gives the whole milliseconds in a duration.
pub assume_specification[ Duration::as_millis ](d: &Duration) -> (ms: u128)
    ensures
        ms == nanoseconds(*d) / 1_000_000,
;

/// `SystemTime::now` reads the wall clock; nothing is claimed of the reading.
pub assume_specification[ SystemTime::now ]() -> SystemTime
;

/// The nanoseconds from the Unix epoch to a point in time, below zero for one before it, as
/// `SystemTime::duration_since` measures them.
pub uninterp spec fn epoch_nanoseconds(time: SystemTime) -> int;

/// Calls `SystemTime::duration_since` with the Unix epoch: it gives the time from there on, and an
/// error for a point in time before it.
#[verifier::external_body]
fn since_epoch(time: SystemTime) -> (since: Result<Duration, SystemTimeError>)
    ensures
        match since {
            Ok(d) => nanoseconds(d) == epoch_nanoseconds(time),
            Err(_) => epoch_nanoseconds(time) < 0,
        },
{
    time.duration_since(UNIX_EPOCH)
}

/// Milliseconds since the Unix epoch, given the time since then; zero for a clock set before it.
pub fn epoch_ms(since: Result<Duration, SystemTimeError>) -> (ms: u64)
    ensures
        ms == (match since {
            Ok(d) => ((nanoseconds(d) / 1_000_000) as u128) as u64,
            Err(_) => 0,
        }),
{
    match since {
        Ok(d) => d.as_millis() as u64,
        Err(_) => 0,
    }
}

/// Milliseconds from the Unix epoch to a point in time; zero for one before it.
pub open spec fn clock_ms(time: SystemTime) -> u64 {
    if epoch_nanoseconds(time) < 0 {
        0
    } else {
        ((epoch_nanoseconds(time) / 1_000_000) as u128) as u64
    }
}

/// `ms` is what a clock shows at some point in time.
pub open spec fn is_reading(ms: u64) -> bool {
    exists|time: SystemTime| ms == #[trigger] clock_ms(time)
}

/// Milliseconds since the Unix epoch, by the clock. Which point in time it shows is left unsaid.
pub fn now_ms() -> (ms: u64)
    ensures
        is_reading(ms),
{
    let time = SystemTime::now();
    let ms: u64 = epoch_ms(since_epoch(time));
    assert(ms == clock_ms(time));
    ms
}

/// `seconds` are the whole seconds from `started_at` to some instant.
pub open spec fn is_age_of(started_at: Instant, seconds: u64) -> bool {
    exists|now: Instant| seconds == #[trigger] span(started_at, now) / 1_000_000_000
}

/// Whole seconds since `started_at`, by the clock.
pub fn seconds_since(started_at: &Instant) -> (seconds: u64)
    ensures
        is_age_of(*started_at, seconds),
{
    let age = started_at.elapsed();
    age.as_secs()
}

/// A clock shows the whole milliseconds since the epoch as long as they can be counted, and zero
/// before it.
pub proof fn clocks_show_whole_milliseconds(time: SystemTime)
    ensures
        epoch_nanoseconds(time) < 0 ==> clock_ms(time) == 0,
        0 <= epoch_nanoseconds(time) < (u64::MAX + 1) * 1_000_000 ==> clock_ms(time) * 1_000_000
            <= epoch_nanoseconds(time) < (clock_ms(time) + 1) * 1_000_000,
{
    let n = epoch_nanoseconds(time);
    if 0 <= n < (u64::MAX + 1) * 1_000_000 {
        let ms: int = n / 1_000_000;
        assert(0 <= ms <= u64::MAX);
        assert((ms as u128) == ms);
        assert(((ms as u128) as u64) == ms);
    }
}

/// Ages are whole seconds, rounded down.
pub proof fn ages_are_whole_seconds(started_at: Instant, seconds: u64)
    requires
        is_age_of(started_at, seconds),
    ensures
        exists|now: Instant|
            seconds * 1_000_000_000 <= #[trigger] span(started_at, now) < (seconds + 1)
                * 1_000_000_000,
{
    let now = choose|now: Instant| seconds == #[trigger] span(started_at, now) / 1_000_000_000;
    assert(seconds * 1_000_000_000 <= span(started_at, now) < (seconds + 1) * 1_000_000_000);
}

} // verus!
