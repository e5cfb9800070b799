//! The system clock, time in milliseconds since the Unix epoch, and the UTC
//! day that a timestamp falls in.

use std::time::{Duration, SystemTime, SystemTimeError, UNIX_EPOCH};
use vstd::prelude::*;

verus! {

/// Length of one UTC calendar day in milliseconds.
pub const MILLIS_PER_DAY: u64 = 86_400_000;

/// The first millisecond of the UTC day that contains `now_ms`.
pub open spec fn day_start(now_ms: u64) -> u64 {
    (now_ms - now_ms % MILLIS_PER_DAY) as u64
}

/// Whether `timestamp` lies in the UTC day that contains `now_ms`.
pub open spec fn same_day(timestamp: u64, now_ms: u64) -> bool {
    day_start(now_ms) <= timestamp < day_start(now_ms) + MILLIS_PER_DAY
}

/// Truncates a timestamp to the start of its UTC calendar day.
pub fn start_of_day(now_ms: u64) -> (midnight: u64)
    ensures
        midnight == day_start(now_ms),
        midnight <= now_ms < midnight + MILLIS_PER_DAY,
        midnight % MILLIS_PER_DAY == 0,
{
    let rest: u64 = now_ms % MILLIS_PER_DAY;
    now_ms - rest
}

/// `std::time::SystemTime`, a reading of the system clock. Nothing inside it
/// is looked at.
#[verifier::external_type_specification]
#[verifier::external_body]
pub struct ExSystemTime(SystemTime);

/// `std::time::SystemTimeError`, the failure of `duration_since`. Nothing
/// inside it is looked at.
#[verifier::external_type_specification]
#[verifier::external_body]
pub struct ExSystemTimeError(SystemTimeError);

/// `std::time::SystemTime::now`. The reading is the machine's; nothing is
/// claimed of it.
#[verifier::external_body]
fn system_now() -> SystemTime {
    SystemTime::now()
}

/// `std::time::SystemTime::duration_since`, measured from `UNIX_EPOCH`. It
/// fails when `at` lies before the epoch; nothing is claimed of the span.
#[verifier::external_body]
fn since_epoch(at: &SystemTime) -> Result<Duration, SystemTimeError> {
    at.duration_since(UNIX_EPOCH)
}

/// What `std::time::Duration::from_millis` returns: the span of `millis`
/// milliseconds.
pub uninterp spec fn span_of_millis(millis: u64) -> Duration;

/// What `std::time::Duration::as_millis` returns: the number of whole
/// milliseconds in `span`.
pub uninterp spec fn millis_of_span(span: Duration) -> u128;

/// `std::time::Duration::from_millis`: the span of that many milliseconds,
/// which holds that many whole milliseconds.
#[verifier::external_body]
fn duration_from_millis(millis: u64) -> (span: Duration)
    ensures
        span == span_of_millis(millis),
        millis_of_span(span) == millis,
{
    Duration::from_millis(millis)
}

/// `std::time::Duration::as_millis`: the number of whole milliseconds in the
/// span.
#[verifier::external_body]
fn duration_as_millis(span: &Duration) -> (millis: u128)
    ensures
        millis == millis_of_span(*span),
{
    span.as_millis()
}

/// The time since the epoch that a reading of the clock against the epoch
/// stands for: the span that was measured, or no time at all where the clock
/// lay before the epoch.
pub open spec fn span_of_reading(reading: Result<Duration, SystemTimeError>) -> Duration {
    match reading {
        Ok(elapsed) => elapsed,
        Err(_) => span_of_millis(0),
    }
}

/// Turns a reading of the clock against the epoch into the time since the
/// epoch. A clock before the epoch gives the span of no milliseconds.
pub fn elapsed_or_epoch(reading: Result<Duration, SystemTimeError>) -> (span: Duration)
    ensures
        span == span_of_reading(reading),
        reading is Err ==> millis_of_span(span) == 0,
{
    match reading {
        Ok(elapsed) => elapsed,
        Err(_) => duration_from_millis(0),
    }
}

/// The time that has passed since the Unix epoch by the system clock: the
/// span that some reading of the clock stands for. A clock set before the
/// epoch reads as the epoch itself.
pub fn get_now() -> (span: Duration)
    ensures
        exists|reading: Result<Duration, SystemTimeError>|
            span == #[trigger] span_of_reading(reading),
{
    let start = system_now();
    let reading = since_epoch(&start);
    let span = elapsed_or_epoch(reading);
    assert(span == span_of_reading(reading));
    span
}

/// The largest timestamp: a count of milliseconds stays within the signed
/// 64-bit range, so that it can be handed on as a signed number too.
pub const MAX_TIMESTAMP: u64 = 0x7fff_ffff_ffff_ffff;

/// The timestamp for a count of milliseconds since the epoch: the count
/// itself, held at [`MAX_TIMESTAMP`].
pub open spec fn millis_timestamp(millis: u128) -> u64 {
    if millis > MAX_TIMESTAMP {
        MAX_TIMESTAMP
    } else {
        millis as u64
    }
}

/// The timestamp for a span of time since the epoch.
pub open spec fn span_timestamp(span: Duration) -> u64 {
    millis_timestamp(millis_of_span(span))
}

/// Turns a count of milliseconds since the epoch into a timestamp.
pub fn timestamp_from_millis(millis: u128) -> (timestamp: u64)
    ensures
        timestamp == millis_timestamp(millis),
        timestamp <= MAX_TIMESTAMP,
{
    if millis > MAX_TIMESTAMP as u128 {
        MAX_TIMESTAMP
    } else {
        millis as u64
    }
}

/// Turns a span of time since the epoch into a timestamp in milliseconds.
pub fn timestamp_of_span(span: &Duration) -> (timestamp: u64)
    ensures
        timestamp == span_timestamp(*span),
        timestamp <= MAX_TIMESTAMP,
{
    timestamp_from_millis(duration_as_millis(span))
}

/// The current time in milliseconds since the Unix epoch: the timestamp of
/// the span that some reading of the clock stands for. A clock set before
/// the epoch gives the timestamp 0.
pub fn now_millis() -> (now: u64)
    ensures
        exists|reading: Result<Duration, SystemTimeError>|
            now == span_timestamp(#[trigger] span_of_reading(reading)),
        now <= MAX_TIMESTAMP,
{
    let span = get_now();
    timestamp_of_span(&span)
}

/// The timestamp that a signed count of milliseconds since the epoch stands
/// for: a count below zero, an instant before the epoch, counts as the epoch
/// itself.
pub open spec fn timestamp_of(reading: i64) -> u64 {
    if reading < 0 {
        0
    } else {
        reading as u64
    }
}

/// Turns a signed count of milliseconds since the epoch into a timestamp.
pub fn timestamp_from_reading(reading: i64) -> (timestamp: u64)
    ensures
        timestamp == timestamp_of(reading),
        timestamp <= MAX_TIMESTAMP,
{
    if reading < 0 {
        0
    } else {
        reading as u64
    }
}

} // verus!
