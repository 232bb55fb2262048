//! The machine's clock and time zone.

use vstd::prelude::*;

verus! {

/// A moment of the system clock.
#[verifier::external_type_specification]
#[verifier::external_body]
pub struct ExSystemTime(std::time::SystemTime);

/// What a clock says that stands before the moment it is measured from.
#[verifier::external_type_specification]
#[verifier::external_body]
pub struct ExSystemTimeError(std::time::SystemTimeError);

/// A moment in the time zone of the machine.
#[verifier::external_type_specification]
#[verifier::external_body]
pub struct ExZoned(jiff::Zoned);

/// What `jiff` says of a moment that it cannot represent.
#[verifier::external_type_specification]
#[verifier::external_body]
pub struct ExJiffError(jiff::Error);

/// `SystemTime::now`: some moment. Which one is up to the machine, so nothing is
/// claimed of it.
pub assume_specification[ std::time::SystemTime::now ]() -> std::time::SystemTime
;

/// `SystemTime::duration_since`, measured from `UNIX_EPOCH`: how far the clock is
/// past the epoch, or an error if it stands before it. A moment is opaque here,
/// so nothing is claimed of the outcome.
#[verifier::external_body]
fn since_epoch(time: &std::time::SystemTime) -> Result<
    std::time::Duration,
    std::time::SystemTimeError,
> {
    time.duration_since(std::time::UNIX_EPOCH)
}

/// The part of a duration that is less than a second, in nanoseconds.
pub uninterp spec fn subsec_of(duration: std::time::Duration) -> u32;

/// `Duration::subsec_nanos`: the part of a duration that is less than a second,
/// in nanoseconds, so less than a billion. It depends on the duration alone.
pub assume_specification[ std::time::Duration::subsec_nanos ](
    duration: &std::time::Duration,
) -> (nanos: u32)
    ensures
        nanos == subsec_of(*duration),
        nanos < 1_000_000_000,
;

/// `Zoned::try_from` of a system time: that moment in the machine's time zone, or
/// an error if the clock is set to a year that `jiff` does not know. A moment is
/// opaque here, so nothing is claimed of the outcome.
#[verifier::external_body]
fn in_local_zone(time: std::time::SystemTime) -> Result<jiff::Zoned, jiff::Error> {
    jiff::Zoned::try_from(time)
}

/// The hour of the day that a moment has in its time zone.
pub uninterp spec fn hour_of(zoned: jiff::Zoned) -> i8;

/// `Zoned::hour`: the hour of the day, guaranteed to be one of `0..=23`. It
/// depends on the moment, which carries its time zone, alone.
pub assume_specification[ jiff::Zoned::hour ](zoned: &jiff::Zoned) -> (hour: i8)
    ensures
        hour == hour_of(*zoned),
        0 <= hour <= 23,
;

/// How many nanoseconds into its second a clock is that stands so far past the
/// epoch. One that stands before the epoch counts as being at the start of one.
pub fn nanos_past_second(
    since_epoch: Result<std::time::Duration, std::time::SystemTimeError>,
) -> (nanos: u32)
    ensures
        nanos < 1_000_000_000,
        nanos == (match since_epoch {
            Ok(duration) => subsec_of(duration),
            Err(_) => 0,
        }),
{
    match since_epoch {
        Ok(duration) => duration.subsec_nanos(),
        Err(_) => 0,
    }
}

/// Reads how many nanoseconds into its second the clock is.
pub fn nanos_of_second() -> (nanos: u32)
    ensures
        nanos < 1_000_000_000,
{
    let now: std::time::SystemTime = std::time::SystemTime::now();
    nanos_past_second(since_epoch(&now))
}

/// Whether an hour of the day is one of the night: 22:00 to 06:00, matching what
/// people usually mean by it.
pub open spec fn nightly(hour: int) -> bool {
    hour < 6 || hour >= 22
}

/// Whether an hour of the day is one of the night.
pub fn is_night_hour(hour: i8) -> (night: bool)
    ensures
        night == nightly(hour as int),
{
    !(6 <= hour && hour < 22)
}

/// The clock is set to a moment that has no local time.
#[derive(Debug, Clone, Copy, PartialEq, Eq, Structural)]
pub struct ClockError;

/// Whether it is night at a moment, if the moment has a local time at all.
pub fn is_night_at(moment: Result<jiff::Zoned, jiff::Error>) -> (night: Result<bool, ClockError>)
    ensures
        match moment {
            Ok(zoned) => {
                &&& night == Ok::<bool, ClockError>(nightly(hour_of(zoned) as int))
                &&& 0 <= hour_of(zoned) <= 23
            },
            Err(_) => night == Err::<bool, ClockError>(ClockError),
        },
{
    match moment {
        Ok(zoned) => Ok(is_night_hour(zoned.hour())),
        Err(_) => Err(ClockError),
    }
}

/// The moment that the machine's clock says, in the machine's time zone. Which one
/// that is rests on the machine.
pub(crate) fn local_now() -> Result<jiff::Zoned, jiff::Error> {
    let now: std::time::SystemTime = std::time::SystemTime::now();
    in_local_zone(now)
}

/// Whether it is night where the machine is. The time zone comes from the system,
/// so this follows the user across a flight without asking.
pub fn is_night() -> (night: Result<bool, ClockError>)
    ensures
        night matches Ok(night) ==> exists|hour: int| 0 <= hour <= 23 && night == #[trigger] nightly(hour),
{
    is_night_at(local_now())
}

} // verus!
