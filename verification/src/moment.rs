//! Civil dates, civil times and moments as plain values.
use vstd::prelude::*;

verus! {

/// A calendar date.
#[derive(Clone, Copy, Debug, PartialEq, Eq, Structural)]
pub struct CivilDate {
    /// The year, such as `2026`.
    pub year: i16,
    /// The month, from `1` to `12`.
    pub month: i8,
    /// The day of the month, from `1`.
    pub day: i8,
}

/// A clock time.
#[derive(Clone, Copy, Debug, PartialEq, Eq, Structural)]
pub struct CivilTime {
    /// The hour, from `0` to `23`.
    pub hour: i8,
    /// The minute, from `0` to `59`.
    pub minute: i8,
    /// The second, from `0` to `59`.
    pub second: i8,
    /// The fraction of the second in nanoseconds.
    pub subsec_nanosecond: i32,
}

/// One instant as a place reads it: its local date and time, and how far
/// its clocks are ahead of UTC.
#[derive(Clone, Copy, Debug, PartialEq, Eq, Structural)]
pub struct Moment {
    /// The local date.
    pub date: CivilDate,
    /// The local time.
    pub time: CivilTime,
    /// Seconds east of UTC.
    pub offset_seconds: i32,
}

/// The last hour of a day.
pub const LAST_HOUR: i8 = 23;

/// The last minute of an hour.
pub const LAST_MINUTE: i8 = 59;

/// The largest offset from UTC in seconds that a zone can keep: 25:59:59.
pub const MAX_OFFSET_SECONDS: i32 = 93599;

/// Whether an hour and a minute make a clock time.
pub open spec fn is_clock(hour: int, minute: int) -> bool {
    0 <= hour <= LAST_HOUR && 0 <= minute <= LAST_MINUTE
}

/// Whether a number of seconds is an offset from UTC that a zone can keep.
pub open spec fn is_offset(seconds: int) -> bool {
    -MAX_OFFSET_SECONDS <= seconds <= MAX_OFFSET_SECONDS
}

/// The first year of the calendar that `jiff` reads.
pub const FIRST_YEAR: i16 = -9999;

/// The last year of the calendar that `jiff` reads.
pub const LAST_YEAR: i16 = 9999;

/// Nanoseconds in a second.
pub const NANOS_PER_SECOND: i128 = 1_000_000_000;

/// The earliest instant `jiff` holds, in nanoseconds since the Unix epoch.
pub const FIRST_INSTANT: i128 = -377_705_023_201_000_000_000;

/// The latest instant `jiff` holds, in nanoseconds since the Unix epoch.
pub const LAST_INSTANT: i128 = 253_402_207_200_999_999_999;

/// Whether a year of the proleptic Gregorian calendar is a leap year.
pub open spec fn is_leap_year(year: int) -> bool {
    year % 4 == 0 && (year % 100 != 0 || year % 400 == 0)
}

/// The number of days in a month of a year.
pub open spec fn days_in_month(year: int, month: int) -> int {
    if month == 2 {
        if is_leap_year(year) {
            29
        } else {
            28
        }
    } else if month == 4 || month == 6 || month == 9 || month == 11 {
        30
    } else {
        31
    }
}

/// Whether a date is a day of the calendar `jiff` reads.
pub open spec fn is_date(d: CivilDate) -> bool {
    &&& FIRST_YEAR <= d.year <= LAST_YEAR
    &&& 1 <= d.month <= 12
    &&& 1 <= d.day <= days_in_month(d.year as int, d.month as int)
}

/// Whether a date is the first day of the calendar `jiff` reads.
pub open spec fn is_first_day(d: CivilDate) -> bool {
    d.year == FIRST_YEAR && d.month == 1 && d.day == 1
}

/// Whether a date is the last day of the calendar `jiff` reads.
pub open spec fn is_last_day(d: CivilDate) -> bool {
    d.year == LAST_YEAR && d.month == 12 && d.day == 31
}

/// The number of days from 1970-01-01 to a date, negative before it.
pub open spec fn days_from_civil(d: CivilDate) -> int {
    let y = if d.month <= 2 {
        d.year - 1
    } else {
        d.year as int
    };
    let era = y / 400;
    let year_of_era = y - era * 400;
    let month_from_march = if d.month > 2 {
        d.month - 3
    } else {
        d.month + 9
    };
    let day_of_year = (153 * month_from_march + 2) / 5 + d.day - 1;
    let day_of_era = year_of_era * 365 + year_of_era / 4 - year_of_era / 100 + day_of_year;
    era * 146097 + day_of_era - 719468
}

/// The seconds from 1970-01-01 at midnight to a date and clock time.
pub open spec fn civil_seconds(d: CivilDate, t: CivilTime) -> int {
    days_from_civil(d) * 86400 + t.hour * 3600 + t.minute * 60 + t.second
}

/// The nanoseconds from 1970-01-01 at midnight to a date and clock time.
pub open spec fn civil_nanos(d: CivilDate, t: CivilTime) -> int {
    civil_seconds(d, t) * NANOS_PER_SECOND + t.subsec_nanosecond
}

/// The instant a moment stands for, in nanoseconds since the Unix epoch:
/// its local date and time less its offset.
pub open spec fn instant_of(m: Moment) -> int {
    (civil_seconds(m.date, m.time) - m.offset_seconds) * NANOS_PER_SECOND
        + m.time.subsec_nanosecond
}

/// Whether a number of nanoseconds since the Unix epoch is an instant that
/// `jiff` holds.
pub open spec fn is_instant(t: int) -> bool {
    FIRST_INSTANT <= t <= LAST_INSTANT
}

/// Whether the fields of a clock time are in their ranges.
pub open spec fn is_time(t: CivilTime) -> bool {
    &&& is_clock(t.hour as int, t.minute as int)
    &&& 0 <= t.second <= 59
    &&& 0 <= t.subsec_nanosecond <= 999_999_999
}

/// Whether the fields of a moment are in their ranges.
pub open spec fn is_moment(m: Moment) -> bool {
    &&& is_date(m.date)
    &&& is_time(m.time)
    &&& is_offset(m.offset_seconds as int)
}

/// The date as a triple of year, month and day.
pub open spec fn date_triple(d: CivilDate) -> (int, int, int) {
    (d.year as int, d.month as int, d.day as int)
}

} // verus!
