//! The system clock.

use std::time::{Duration, SystemTime, SystemTimeError};

use vstd::prelude::*;

use crate::records::StoreError;

verus! {

/// `std::time::SystemTime`.
#[verifier::external_type_specification]
#[verifier::external_body]
pub struct ExSystemTime(SystemTime);

/// `std::time::SystemTimeError`.
#[verifier::external_type_specification]
#[verifier::external_body]
pub struct ExSystemTimeError(SystemTimeError);

/// `SystemTime::now`: the time of day. Nothing is claimed of it.
#[verifier::external_body]
fn system_time() -> SystemTime {
    SystemTime::now()
}

/// `SystemTime::duration_since` the first moment of 1970: an error for an earlier time. Nothing
/// is claimed of the duration, which is a reading of the clock.
#[verifier::external_body]
fn since_epoch(time: SystemTime) -> Result<Duration, SystemTimeError> {
    time.duration_since(std::time::UNIX_EPOCH)
}

/// `Duration::as_secs`: the whole seconds of a duration. Nothing is claimed of them: they are a
/// reading of the clock.
#[verifier::external_body]
fn whole_seconds(duration: Duration) -> u64 {
    duration.as_secs()
}

/// The time that a reading of the clock stands for: the whole seconds since the first moment of
/// 1970, or an error when there are none to give because the clock stands before it.
pub open spec fn epoch(seconds: Option<u64>) -> Result<i64, StoreError> {
    match seconds {
        Some(seconds) => Ok(seconds as i64),
        None => Err(StoreError::Clock),
    }
}

/// The time that a reading of the clock stands for.
pub fn epoch_of(seconds: Option<u64>) -> (r: Result<i64, StoreError>)
    ensures
        r == epoch(seconds),
        seconds is Some && seconds->0 <= i64::MAX ==> r is Ok && r->Ok_0 == seconds->0,
{
    match seconds {
        Some(seconds) => Ok(#[verifier::truncate] (seconds as i64)),
        None => Err(StoreError::Clock),
    }
}

/// Calls a function that takes nothing, and remembers that this is what it gave.
pub(crate) fn reading<T, F: Fn() -> T>(clock: F) -> (r: T)
    requires
        call_requires(clock, ()),
    ensures
        call_ensures(clock, (), r),
{
    clock()
}

/// Calls a function on one value, and remembers that this is what it gave.
fn reading_of<A, T, F: Fn(A) -> T>(function: F, value: A) -> (r: T)
    requires
        call_requires(function, (value,)),
    ensures
        call_ensures(function, (value,), r),
{
    function(value)
}

/// True for what the system clock may give: the whole seconds from the first moment of 1970 to
/// the time of day, or nothing for a time before it.
pub closed spec fn is_reading(seconds: Option<u64>) -> bool {
    exists|time: SystemTime|
        #[trigger] call_ensures(system_time, (), time) && match seconds {
            Some(seconds) => exists|duration: Duration|
                #[trigger] call_ensures(since_epoch, (time,), Ok(duration)) && call_ensures(
                    whole_seconds,
                    (duration,),
                    seconds,
                ),
            None => exists|error: SystemTimeError| #[trigger]
                call_ensures(since_epoch, (time,), Err(error)),
        }
}

/// The seconds since the first moment of 1970, or an error when the clock stands before it.
pub fn now_epoch() -> (r: Result<i64, StoreError>)
    ensures
        exists|seconds: Option<u64>| #[trigger] is_reading(seconds) && r == epoch(seconds),
        r matches Err(e) ==> e == StoreError::Clock,
{
    let time = reading(system_time);
    match reading_of(since_epoch, time) {
        Ok(duration) => {
            let seconds: u64 = reading_of(whole_seconds, duration);
            proof {
                assert(is_reading(Some(seconds)));
            }
            epoch_of(Some(seconds))
        },
        Err(error) => {
            proof {
                assert(call_ensures(since_epoch, (time,), Err(error)));
                assert(is_reading(None));
            }
            epoch_of(None)
        },
    }
}

/// True for a time that `now_epoch` may give: a reading of the clock.
pub open spec fn clock_gives(now: i64) -> bool {
    call_ensures(now_epoch, (), Ok(now))
}

/// True when `now_epoch` may give an error: the clock may stand before 1970.
pub open spec fn clock_fails() -> bool {
    call_ensures(now_epoch, (), Err(StoreError::Clock))
}

/// A time that the clock gives is a whole number of seconds since the first moment of 1970.
pub proof fn law_time_is_counted_in_seconds(now: i64)
    requires
        clock_gives(now),
    ensures
        exists|seconds: u64| #[trigger] is_reading(Some(seconds)) && (seconds <= i64::MAX ==> now
            == seconds),
{
}

/// Seconds are taken as they are, as far as they fit; without any there is no time.
pub proof fn law_seconds_are_taken_as_they_are(seconds: u64)
    ensures
        seconds <= i64::MAX ==> epoch(Some(seconds)) == Ok::<i64, StoreError>(seconds as i64),
        epoch(Some(seconds)) is Ok,
        epoch(None) == Err::<i64, StoreError>(StoreError::Clock),
{
}

} // verus!
