//! Time: the firmware clock read as nanoseconds since 2000, and back to a
//! calendar date.
use chrono::NaiveDateTime;
use vstd::prelude::*;

verus! {

#[verifier::external_type_specification]
#[verifier::external_body]
pub struct ExNaiveDateTime(NaiveDateTime);

/// Nanoseconds from 1970-01-01 to 2000-01-01.
pub const UEFI_TO_UNIX_OFFSET_NS: u64 = 946684800000000000;

/// Nanoseconds of eight hours, the offset of UTC+8.
pub const UTC8_OFFSET_NS: u64 = 28800000000000;

/// Days before the first of each month in a year that is not a leap year.
pub open spec fn days_before_month(month: int) -> int {
    if month == 1 {
        0
    } else if month == 2 {
        31
    } else if month == 3 {
        59
    } else if month == 4 {
        90
    } else if month == 5 {
        120
    } else if month == 6 {
        151
    } else if month == 7 {
        181
    } else if month == 8 {
        212
    } else if month == 9 {
        243
    } else if month == 10 {
        273
    } else if month == 11 {
        304
    } else {
        334
    }
}

pub open spec fn is_leap_year(year: int) -> bool {
    (year % 4 == 0 && year % 100 != 0) || year % 400 == 0
}

/// Days from 2000-01-01 to the given date.
pub open spec fn days_since_2000(year: int, month: int, day: int) -> int {
    let y = year - 2000;
    let leap_years = y / 4 - y / 100 + y / 400;
    y * 365 + leap_years + days_before_month(month) + (if is_leap_year(year) && month > 2 {
        1int
    } else {
        0
    }) + day - 1
}

/// Nanoseconds from 2000-01-01 00:00:00 to the given date and time.
pub open spec fn nanos_since_2000_of(
    year: int,
    month: int,
    day: int,
    hour: int,
    minute: int,
    second: int,
    nanosecond: int,
) -> int {
    (days_since_2000(year, month, day) * 86400 + hour * 3600 + minute * 60 + second) * 1_000_000_000
        + nanosecond
}

/// Reads a firmware clock reading as nanoseconds since 2000-01-01.
pub fn nanos_since_2000(
    year: u16,
    month: u8,
    day: u8,
    hour: u8,
    minute: u8,
    second: u8,
    nanosecond: u32,
) -> (r: u64)
    requires
        year >= 2000,
        1 <= month <= 12,
        days_since_2000(year as int, month as int, day as int) >= 0,
        nanos_since_2000_of(
            year as int,
            month as int,
            day as int,
            hour as int,
            minute as int,
            second as int,
            nanosecond as int,
        ) <= u64::MAX,
    ensures
        r == nanos_since_2000_of(
            year as int,
            month as int,
            day as int,
            hour as int,
            minute as int,
            second as int,
            nanosecond as int,
        ),
{
    let y = (year - 2000) as u64;
    let leap_years = y / 4 - y / 100 + y / 400;
    let days_from_years = y * 365 + leap_years;
    let month_days_cumulative: [u64; 12] = [0, 31, 59, 90, 120, 151, 181, 212, 243, 273, 304, 334];
    let days_from_months = month_days_cumulative[(month - 1) as usize];
    assert(days_from_months == days_before_month(month as int));
    let is_leap = (year % 4 == 0 && year % 100 != 0) || (year % 400 == 0);
    let leap_day: u64 = if is_leap && month > 2 {
        1
    } else {
        0
    };
    let total_days = days_from_years + days_from_months + leap_day + day as u64 - 1;
    assert(total_days == days_since_2000(year as int, month as int, day as int));
    assert(0 <= total_days * 86400 + hour * 3600 + minute * 60 + second <= (total_days * 86400 + hour * 3600
        + minute * 60 + second) * 1_000_000_000) by (nonlinear_arith);
    let total_seconds = total_days * 86400 + hour as u64 * 3600 + minute as u64 * 60 + second as u64;
    total_seconds * 1_000_000_000 + nanosecond as u64
}

/// Seconds and nanoseconds of the UNIX time, in UTC+8, of a reading of
/// `nanoseconds` since 2000.
pub fn unix_parts(nanoseconds: u64) -> (r: (i64, u32))
    requires
        nanoseconds + UEFI_TO_UNIX_OFFSET_NS + UTC8_OFFSET_NS <= u64::MAX,
    ensures
        r.0 == (nanoseconds + UEFI_TO_UNIX_OFFSET_NS + UTC8_OFFSET_NS) / 1_000_000_000,
        r.1 == (nanoseconds + UEFI_TO_UNIX_OFFSET_NS + UTC8_OFFSET_NS) % 1_000_000_000,
{
    let unix_nanos = nanoseconds + UEFI_TO_UNIX_OFFSET_NS + UTC8_OFFSET_NS;
    ((unix_nanos / 1_000_000_000) as i64, (unix_nanos % 1_000_000_000) as u32)
}

/// The date and time that `chrono` gives for `secs` seconds and `nsecs`
/// nanoseconds of UNIX time.
pub uninterp spec fn datetime_at(secs: i64, nsecs: u32) -> NaiveDateTime;

/// `NaiveDateTime::from_timestamp_opt`: the date and time of a UNIX
/// timestamp. It gives a value for any second count within about 262,000
/// years of the era together with a nanosecond part below one second; a
/// larger nanosecond part (a leap second) it accepts only in places, and
/// no clause speaks of that.
#[verifier::external_body]
#[allow(deprecated)]
fn naive_from_timestamp(secs: i64, nsecs: u32) -> (r: Option<NaiveDateTime>)
    ensures
        0 <= secs <= 4_000_000_000_000 && nsecs < 1_000_000_000 ==> r is Some,
        r matches Some(d) ==> d == datetime_at(secs, nsecs),
{
    NaiveDateTime::from_timestamp_opt(secs, nsecs)
}

/// The date and time, in UTC+8, of a reading of `nanoseconds` since 2000.
pub fn nanos_to_datetime(nanoseconds: u64) -> (r: NaiveDateTime)
    requires
        nanoseconds + UEFI_TO_UNIX_OFFSET_NS + UTC8_OFFSET_NS <= u64::MAX,
    ensures
        r == datetime_at(
            ((nanoseconds + UEFI_TO_UNIX_OFFSET_NS + UTC8_OFFSET_NS) / 1_000_000_000) as i64,
            ((nanoseconds + UEFI_TO_UNIX_OFFSET_NS + UTC8_OFFSET_NS) % 1_000_000_000) as u32,
        ),
{
    let (secs, ns) = unix_parts(nanoseconds);
    match naive_from_timestamp(secs, ns) {
        Some(d) => d,
        None => {
            assert(false);
            naive_from_timestamp(0, 0).unwrap()
        },
    }
}

/// Whether a sleep of `nanoseconds` that began at reading `start` is over
/// at reading `now`.
pub fn sleep_elapsed(start: u64, now: u64, nanoseconds: u64) -> (r: bool)
    requires
        start <= now,
    ensures
        r == (now - start >= nanoseconds),
{
    now - start >= nanoseconds
}

} // verus!
