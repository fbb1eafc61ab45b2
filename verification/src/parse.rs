//! Hand-written parsers for the free-form inputs: time, date and offset.
use vstd::prelude::*;
use crate::error::Error;
use crate::moment::{
    CivilDate,
    CivilTime,
    is_date,
    LAST_HOUR,
    LAST_MINUTE,
    MAX_OFFSET_SECONDS,
    is_clock,
    is_offset,
};
use crate::text::{
    all_digits,
    chars_of,
    decimal_value,
    digits_value,
    find_either,
    find_either_in,
    lowercase,
    parse_integer,
    parse_integer_in,
    to_lowercase,
    to_uppercase,
    uppercase,
};
use crate::zone::{jiff_date, read_date};

verus! {

/// The smallest `i8`.
pub const I8_MIN: i64 = -128;

/// The largest `i8`.
pub const I8_MAX: i64 = 127;

/// The smallest `i32`.
pub const I32_MIN: i64 = -2147483648;

/// The largest `i32`.
pub const I32_MAX: i64 = 2147483647;

/// Hours in half a day, the span of a 12 hour clock.
pub const HALF_DAY: i64 = 12;

/// Seconds in an hour.
pub const SECS_PER_HOUR: i64 = 3600;

/// Seconds in a minute.
pub const SECS_PER_MIN: i64 = 60;

/// `s` without its ASCII spaces.
pub open spec fn without_spaces(s: Seq<char>) -> Seq<char>
    decreases s.len(),
{
    if s.len() == 0 {
        s
    } else if s.last() == ' ' {
        without_spaces(s.drop_last())
    } else {
        without_spaces(s.drop_last()).push(s.last())
    }
}

/// `s` split at its first char that is `a` or `b`; without one, all of `s`
/// and the text `0`.
pub open spec fn split_or_zero(s: Seq<char>, a: char, b: char) -> (Seq<char>, Seq<char>) {
    match find_either(s, a, b) {
        Some(i) => (s.take(i), s.skip(i + 1)),
        None => (s, seq!['0']),
    }
}

/// A lowercase clock text without a trailing `am` or `pm`, and which of the
/// two it ended with: `Some(true)` for `pm`.
pub open spec fn strip_meridiem(s: Seq<char>) -> (Seq<char>, Option<bool>) {
    let n = s.len();
    if n >= 2 && s[n - 2] == 'a' && s[n - 1] == 'm' {
        (s.take(n - 2), Some(false))
    } else if n >= 2 && s[n - 2] == 'p' && s[n - 1] == 'm' {
        (s.take(n - 2), Some(true))
    } else {
        (s, None)
    }
}

/// The hour of a 24 hour clock for hour `h` of a 12 hour clock, before or
/// after noon; nothing where `h` is not from 1 to 12.
pub open spec fn hour_of_meridiem(h: int, pm: bool) -> Option<int> {
    if 1 <= h <= HALF_DAY {
        Some(
            h % HALF_DAY as int + if pm {
                HALF_DAY as int
            } else {
                0int
            },
        )
    } else {
        None
    }
}

/// The clock time that a lowercase text gives: `8.30pm`, `8:30 pm`, `8pm` or
/// `20:30`. Spaces are ignored, hour and minute are read as `i8`, and a
/// missing minute is `0`.
pub open spec fn clock_of(lower: Seq<char>) -> Option<CivilTime> {
    let (clock, meridiem) = strip_meridiem(without_spaces(lower));
    let (h_text, m_text) = split_or_zero(clock, ':', '.');
    match (parse_integer(h_text, I8_MIN as int, I8_MAX as int), parse_integer(m_text, I8_MIN as int, I8_MAX as int)) {
        (Some(h), Some(m)) => {
            let hour = match meridiem {
                Some(pm) => hour_of_meridiem(h, pm),
                None => Some(h),
            };
            match hour {
                Some(hour) => if is_clock(hour, m) {
                    Some(
                        CivilTime {
                            hour: hour as i8,
                            minute: m as i8,
                            second: 0,
                            subsec_nanosecond: 0,
                        },
                    )
                } else {
                    None
                },
                None => None,
            }
        },
        _ => None,
    }
}

/// The clock time that a user typed, read case-insensitively.
pub open spec fn time_of(input: Seq<char>) -> Option<CivilTime> {
    clock_of(lowercase(input))
}

/// The date that a user typed, as `jiff` reads it: a day of the calendar.
pub open spec fn date_of(input: Seq<char>) -> Option<CivilDate> {
    match jiff_date(input) {
        Some((y, m, d)) => {
            let date = CivilDate { year: y as i16, month: m as i8, day: d as i8 };
            if is_date(date) {
                Some(date)
            } else {
                None
            }
        },
        None => None,
    }
}

/// Whether an uppercase text starts with `GMT` or `UTC`.
pub open spec fn has_zone_prefix(up: Seq<char>) -> bool {
    up.len() >= 3 && ((up[0] == 'G' && up[1] == 'M' && up[2] == 'T') || (up[0] == 'U' && up[1]
        == 'T' && up[2] == 'C'))
}

/// The offset in seconds east of UTC that an uppercase text gives: `GMT+4`,
/// `UTC+5:30`, `+04:00`, or `GMT` or `UTC` alone for no offset. Hours and
/// minutes are read as `i32`, a missing minute is `0`, and the seconds they
/// make are counted exactly: a sum too large for a zone is no offset.
pub open spec fn offset_of(up: Seq<char>) -> Option<int> {
    let stripped = has_zone_prefix(up);
    let rest = if stripped {
        up.skip(3)
    } else {
        up
    };
    if rest.len() == 0 {
        if stripped {
            Some(0)
        } else {
            None
        }
    } else if rest[0] != '+' && rest[0] != '-' {
        None
    } else {
        let (h_text, m_text) = split_or_zero(rest.drop_first(), ':', ':');
        match (parse_integer(h_text, I32_MIN as int, I32_MAX as int), parse_integer(m_text, I32_MIN as int, I32_MAX as int)) {
            (Some(h), Some(m)) => {
                let magnitude = h * SECS_PER_HOUR + m * SECS_PER_MIN;
                let seconds = if rest[0] == '-' {
                    -magnitude
                } else {
                    magnitude
                };
                if is_offset(seconds) {
                    Some(seconds)
                } else {
                    None
                }
            },
            _ => None,
        }
    }
}

/// The offset that a user typed, read case-insensitively.
pub open spec fn zone_offset_of(input: Seq<char>) -> Option<int> {
    offset_of(uppercase(input))
}

/// The chars of `s` without its ASCII spaces.
fn chars_without_spaces(s: &str) -> (v: Vec<char>)
    ensures
        v@ == without_spaces(s@),
{
    let chars = chars_of(s);
    let mut v: Vec<char> = Vec::new();
    let mut i: usize = 0;
    while i < chars.len()
        invariant
            i <= chars.len(),
            v@ == without_spaces(chars@.take(i as int)),
        decreases chars.len() - i,
    {
        let c = chars[i];
        proof {
            assert(chars@.take(i + 1).drop_last() =~= chars@.take(i as int));
        }
        if c != ' ' {
            v.push(c);
        }
        i += 1;
    }
    proof {
        assert(chars@.take(chars.len() as int) =~= chars@);
    }
    v
}

/// Reads `s[lo..hi]` as two integers split at its first `a` or `b`, the
/// second being `0` where there is no such char.
fn split_integers(s: &Vec<char>, lo: usize, hi: usize, a: char, b: char, min: i64, max: i64) -> (r: (
    Option<i64>,
    Option<i64>,
))
    requires
        lo <= hi <= s@.len(),
        -0x1_0000_0000 <= min <= 0 <= max <= 0x1_0000_0000,
    ensures
        ({
            let (h_text, m_text) = split_or_zero(s@.subrange(lo as int, hi as int), a, b);
            &&& r.0 matches Some(v) ==> parse_integer(h_text, min as int, max as int) == Some(v as int)
            &&& r.0 is None ==> parse_integer(h_text, min as int, max as int) is None
            &&& r.1 matches Some(v) ==> parse_integer(m_text, min as int, max as int) == Some(v as int)
            &&& r.1 is None ==> parse_integer(m_text, min as int, max as int) is None
        }),
{
    let ghost t = s@.subrange(lo as int, hi as int);
    match find_either_in(s, lo, hi, a, b) {
        Some(k) => {
            proof {
                assert(t.take(k as int) =~= s@.subrange(lo as int, lo + k));
                assert(t.skip(k + 1) =~= s@.subrange(lo + k + 1, hi as int));
            }
            let h = parse_integer_in(s, lo, lo + k, min, max);
            let m = parse_integer_in(s, lo + k + 1, hi, min, max);
            (h, m)
        },
        None => {
            proof {
                let z = seq!['0'];
                assert(z.drop_last() =~= Seq::<char>::empty());
                assert(z.last() == '0');
                assert(digits_value(Seq::<char>::empty()) == 0);
                assert(digits_value(z.drop_last()) == 0);
                assert(digits_value(z) == 0);
                assert(all_digits(z));
                assert(decimal_value(z) == Some(0int));
            }
            (parse_integer_in(s, lo, hi, min, max), Some(0))
        },
    }
}

/// Reads a clock time from lowercase text: `8.30pm`, `8:30 pm`, `8pm` or
/// `20:30`.
pub fn parse_clock(lower: &str) -> (res: Option<CivilTime>)
    ensures
        res == clock_of(lower@),
{
    let s = chars_without_spaces(lower);
    let n = s.len();
    let (end, meridiem): (usize, Option<bool>) = if n >= 2 && s[n - 2] == 'a' && s[n - 1] == 'm' {
        (n - 2, Some(false))
    } else if n >= 2 && s[n - 2] == 'p' && s[n - 1] == 'm' {
        (n - 2, Some(true))
    } else {
        (n, None)
    };
    proof {
        assert(s@.take(n as int) =~= s@);
        assert(s@.subrange(0, end as int) =~= strip_meridiem(s@).0);
    }
    let (h, m) = split_integers(&s, 0, end, ':', '.', I8_MIN, I8_MAX);
    match (h, m) {
        (Some(h), Some(m)) => {
            let hour: Option<i64> = match meridiem {
                Some(pm) => if 1 <= h && h <= HALF_DAY {
                    Some(
                        h % HALF_DAY + if pm {
                            HALF_DAY
                        } else {
                            0
                        },
                    )
                } else {
                    None
                },
                None => Some(h),
            };
            match hour {
                Some(hour) => if 0 <= hour && hour <= LAST_HOUR as i64 && 0 <= m && m
                    <= LAST_MINUTE as i64 {
                    Some(
                        CivilTime {
                            hour: hour as i8,
                            minute: m as i8,
                            second: 0,
                            subsec_nanosecond: 0,
                        },
                    )
                } else {
                    None
                },
                None => None,
            }
        },
        _ => None,
    }
}

/// Parses `8.30 pm`, `8:30pm`, `8pm` or `20:30`, in any case.
///
/// # Errors
///
/// Returns [Error::Time] for anything that is not a clock time.
pub fn parse_time(input: &str) -> (res: Result<CivilTime, Error>)
    ensures
        match time_of(input@) {
            Some(t) => res == Ok::<CivilTime, Error>(t),
            None => res matches Err(Error::Time(s)) && s@ == input@,
        },
{
    let lower = to_lowercase(input);
    match parse_clock(lower.as_str()) {
        Some(t) => Ok(t),
        None => Err(Error::Time(String::from_str(input))),
    }
}

/// Parses `YYYY-MM-DD`.
///
/// # Errors
///
/// Returns [Error::Date] for anything that is not a calendar date.
pub fn parse_date(input: &str) -> (res: Result<CivilDate, Error>)
    ensures
        match date_of(input@) {
            Some(d) => res == Ok::<CivilDate, Error>(d),
            None => res matches Err(Error::Date(s)) && s@ == input@,
        },
{
    match read_date(input) {
        Some(d) => Ok(d),
        None => Err(Error::Date(String::from_str(input))),
    }
}

/// Reads an offset in seconds east of UTC from uppercase text: `GMT+4`,
/// `UTC+5:30`, `+04:00`, or `UTC` alone.
pub fn parse_offset_upper(up: &str) -> (res: Option<i32>)
    ensures
        match offset_of(up@) {
            Some(v) => res == Some(v as i32),
            None => res is None,
        },
{
    let s = chars_of(up);
    let n = s.len();
    let stripped = n >= 3 && ((s[0] == 'G' && s[1] == 'M' && s[2] == 'T') || (s[0] == 'U' && s[1]
        == 'T' && s[2] == 'C'));
    let start: usize = if stripped {
        3
    } else {
        0
    };
    proof {
        assert(s@.subrange(start as int, n as int) =~= if stripped {
            up@.skip(3)
        } else {
            up@
        });
    }
    if start == n {
        return if stripped {
            Some(0)
        } else {
            None
        };
    }
    let sign = s[start];
    if sign != '+' && sign != '-' {
        return None;
    }
    proof {
        assert(s@.subrange(start + 1, n as int) =~= s@.subrange(start as int, n as int).drop_first());
    }
    let (h, m) = split_integers(&s, start + 1, n, ':', ':', I32_MIN, I32_MAX);
    match (h, m) {
        (Some(h), Some(m)) => {
            let magnitude = h * SECS_PER_HOUR + m * SECS_PER_MIN;
            let seconds = if sign == '-' {
                -magnitude
            } else {
                magnitude
            };
            if -(MAX_OFFSET_SECONDS as i64) <= seconds && seconds <= MAX_OFFSET_SECONDS as i64 {
                Some(seconds as i32)
            } else {
                None
            }
        },
        _ => None,
    }
}

/// Parses `GMT+4`, `UTC+5:30`, `+04:00` or `UTC`, in any case, into an
/// offset in seconds east of UTC.
///
/// `None` means the input is not an offset, so the caller should try an IANA
/// name. Parsed by hand on purpose: IANA `Etc/GMT+4` means UTC-4 (POSIX sign
/// inversion), while a person typing `GMT+4` means UTC+4.
pub fn parse_offset(s: &str) -> (res: Option<i32>)
    ensures
        match zone_offset_of(s@) {
            Some(v) => res == Some(v as i32),
            None => res is None,
        },
{
    let up = to_uppercase(s);
    parse_offset_upper(up.as_str())
}

} // verus!
