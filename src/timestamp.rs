//! Points in time on the local wall clock, counted in microseconds since
//! 1970-01-01 00:00:00, and the calendar that gives them from a date.

use vstd::prelude::*;

verus! {

/// A point in time on the local wall clock, without a time zone.
#[derive(Clone, Copy, Debug, PartialEq, Eq, Structural, Hash)]
pub struct Timestamp {
    /// Microseconds since 1970-01-01 00:00:00.
    pub micros: i64,
}

pub const MICROS_PER_MINUTE: i64 = 60_000_000;

pub const MICROS_PER_HOUR: i64 = 3_600_000_000;

pub const MICROS_PER_DAY: i64 = 86_400_000_000;

pub open spec fn is_leap_year(y: int) -> bool {
    (y % 4 == 0 && y % 100 != 0) || y % 400 == 0
}

pub open spec fn days_in_month(y: int, m: int) -> int {
    if m == 2 {
        if is_leap_year(y) { 29 } else { 28 }
    } else if m == 4 || m == 6 || m == 9 || m == 11 {
        30
    } else {
        31
    }
}

/// A day that exists in the proleptic Gregorian calendar.
pub open spec fn is_calendar_date(y: int, m: int, d: int) -> bool {
    1 <= m <= 12 && 1 <= d <= days_in_month(y, m)
}

/// A wall-clock time of day given to the minute.
pub open spec fn is_time_of_day(h: int, mi: int) -> bool {
    0 <= h < 24 && 0 <= mi < 60
}

/// How many of the years 1 ..= n are leap years (negative for n < 0).
pub open spec fn leap_years_through(n: int) -> int {
    n / 4 - n / 100 + n / 400
}

/// Days from 1970-01-01 to January 1st of year `y`.
pub open spec fn days_before_year(y: int) -> int {
    365 * (y - 1970) + leap_years_through(y - 1) - leap_years_through(1969)
}

/// Days from January 1st to the first day of month `m` of year `y`.
pub open spec fn days_before_month(y: int, m: int) -> int {
    let common: int = if m == 1 {
        0
    } else if m == 2 {
        31
    } else if m == 3 {
        59
    } else if m == 4 {
        90
    } else if m == 5 {
        120
    } else if m == 6 {
        151
    } else if m == 7 {
        181
    } else if m == 8 {
        212
    } else if m == 9 {
        243
    } else if m == 10 {
        273
    } else if m == 11 {
        304
    } else {
        334
    };
    if m > 2 && is_leap_year(y) { common + 1 } else { common }
}

/// Days from 1970-01-01 to the given date.
pub open spec fn day_number(y: int, m: int, d: int) -> int {
    days_before_year(y) + days_before_month(y, m) + d - 1
}

/// The microseconds since 1970-01-01 00:00:00 of the given minute.
pub open spec fn wall_clock_micros(y: int, m: int, d: int, h: int, mi: int) -> int {
    ((day_number(y, m, d) * 24 + h) * 60 + mi) * MICROS_PER_MINUTE
}

/// Relies on chrono's `NaiveDate::from_ymd_opt` and `NaiveDate::and_hms_opt`
/// to accept exactly the dates of the calendar and the times of a day, and on
/// `DateTime::<Utc>::timestamp_micros` for the microseconds since 1970-01-01
/// 00:00:00 of the naive date and time.
#[verifier::external_body]
pub(crate) fn calendar_micros(year: i32, month: u32, day: u32, hour: u32, minute: u32) -> (r:
    Option<i64>)
    requires
        0 <= year <= 9999,
    ensures
        r is Some <==> (is_calendar_date(year as int, month as int, day as int) && is_time_of_day(
            hour as int,
            minute as int,
        )),
        r is Some ==> r->0 == wall_clock_micros(
            year as int,
            month as int,
            day as int,
            hour as int,
            minute as int,
        ),
{
    chrono::NaiveDate::from_ymd_opt(year, month, day)
        .and_then(|date| date.and_hms_opt(hour, minute, 0))
        .map(|t| t.and_utc().timestamp_micros())
}

/// Relies on chrono's `Local::now`: the current local wall-clock time, read
/// as microseconds since 1970-01-01 00:00:00. Nothing is known of its value.
#[verifier::external_body]
pub(crate) fn local_now() -> (r: Timestamp) {
    Timestamp { micros: chrono::Local::now().naive_local().and_utc().timestamp_micros() }
}

} // verus!
