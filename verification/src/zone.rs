//! The calls into `jiff`: zones, the clock and the calendar.
use jiff::{civil, tz, Timestamp, Zoned};
use jiff::Error as JiffError;
use vstd::prelude::*;
use crate::moment::{
    CivilDate,
    CivilTime,
    Moment,
    civil_nanos,
    date_triple,
    days_from_civil,
    instant_of,
    is_date,
    is_first_day,
    is_instant,
    is_last_day,
    is_moment,
    is_offset,
    is_time,
    FIRST_YEAR,
    LAST_YEAR,
};

verus! {

/// A time zone of `jiff`, carried through the library unopened.
#[verifier::external_type_specification]
#[verifier::external_body]
pub struct ExTimeZone(jiff::tz::TimeZone);

/// An error of `jiff`.
#[verifier::external_type_specification]
#[verifier::external_body]
pub struct ExJiffError(JiffError);

/// What `jiff::civil::Date::from_str` reads from a text: the year, month
/// and day of the date, or nothing where the text is not a date.
pub uninterp spec fn jiff_date(text: Seq<char>) -> Option<(int, int, int)>;

/// What a zone was asked for under: UTC, the system's zone, a fixed offset
/// in seconds east of UTC, or an IANA name.
#[derive(Debug, PartialEq, Eq)]
pub enum ZoneName {
    Utc,
    System,
    Offset(i32),
    Iana(String),
}

/// A time zone of `jiff` with the name it was asked for under. Only the calls
/// into `jiff` below build one, so the name speaks for the zone.
#[derive(Debug)]
pub struct Zone {
    name: ZoneName,
    tz: tz::TimeZone,
}

impl Zone {
    /// What the zone was asked for under.
    pub closed spec fn tag(self) -> ZoneName {
        self.name
    }

    /// The zone of `jiff` it holds.
    pub closed spec fn inner(self) -> tz::TimeZone {
        self.tz
    }

    /// What the zone was asked for under.
    pub fn name(&self) -> (res: &ZoneName)
        ensures
            *res == self.tag(),
    {
        &self.name
    }

    /// The zone of `jiff` it holds.
    pub fn time_zone(&self) -> (res: &tz::TimeZone)
        ensures
            *res == self.inner(),
    {
        &self.tz
    }
}

impl Clone for ZoneName {
    fn clone(&self) -> (res: Self)
        ensures
            res == *self,
    {
        match self {
            ZoneName::Utc => ZoneName::Utc,
            ZoneName::System => ZoneName::System,
            ZoneName::Offset(seconds) => ZoneName::Offset(*seconds),
            ZoneName::Iana(name) => ZoneName::Iana(name.clone()),
        }
    }
}

impl Clone for Zone {
    fn clone(&self) -> (res: Self)
        ensures
            res == *self,
    {
        Zone { name: self.name.clone(), tz: self.tz.clone() }
    }
}

/// Whether a zone was asked for under the IANA name `name`.
pub open spec fn is_named(zone: Zone, name: Seq<char>) -> bool {
    zone.tag() matches ZoneName::Iana(s) && s@ == name
}

/// Whether two zones keep the same time: `jiff` compares zones by content.
pub open spec fn same_tz(a: Zone, b: Zone) -> bool {
    a.inner() == b.inner()
}

/// The offset in seconds east of UTC that a zone keeps at every instant,
/// where its name fixes one: none for UTC, the offset for an offset zone.
pub open spec fn fixed_offset(zone: Zone) -> Option<int> {
    match zone.tag() {
        ZoneName::Utc => Some(0),
        ZoneName::Offset(seconds) => Some(seconds as int),
        _ => None,
    }
}

/// `jiff::tz::TimeZone::get`: a lookup in the time zone database, tagged
/// with the name asked for. Whether the name is found depends on the
/// database, so that is left unsaid.
#[verifier::external_body]
pub(crate) fn lookup_zone(name: &str) -> (res: Result<Zone, JiffError>)
    ensures
        res matches Ok(zone) ==> is_named(zone, name@),
{
    let tz = tz::TimeZone::get(name)?;
    Ok(Zone { name: ZoneName::Iana(name.to_string()), tz })
}

/// `jiff::tz::TimeZone::UTC`: the zone of UTC.
#[verifier::external_body]
pub(crate) fn utc_zone() -> (res: Zone)
    ensures
        res.tag() == ZoneName::Utc,
{
    Zone { name: ZoneName::Utc, tz: tz::TimeZone::UTC }
}

/// `jiff::tz::TimeZone::system`: the zone the system is configured for.
/// Which zone that is depends on the environment, so that is left unsaid.
#[verifier::external_body]
pub(crate) fn system_zone() -> (res: Zone)
    ensures
        res.tag() == ZoneName::System,
{
    Zone { name: ZoneName::System, tz: tz::TimeZone::system() }
}

/// `jiff::tz::TimeZone::fixed`: a zone that always keeps `seconds` east of
/// UTC. The offset is built with `jiff::tz::Offset::from_seconds`, which
/// accepts exactly the offsets that `requires` admits.
#[verifier::external_body]
pub(crate) fn fixed_zone(seconds: i32) -> (res: Zone)
    requires
        is_offset(seconds as int),
    ensures
        res.tag() == ZoneName::Offset(seconds),
{
    let tz = tz::TimeZone::fixed(tz::Offset::from_seconds(seconds).unwrap());
    Zone { name: ZoneName::Offset(seconds), tz }
}

/// `PartialEq::eq` on `jiff::tz::TimeZone`. Its source derives `PartialEq`
/// and `Eq` over the zone's contents, an equivalence; the contract takes that
/// equivalence as what it means for two zones to be the same zone.
#[verifier::external_body]
pub(crate) fn same_zone(a: &Zone, b: &Zone) -> (res: bool)
    ensures
        res == same_tz(*a, *b),
{
    a.tz == b.tz
}

/// `Clone::clone` on `jiff::tz::TimeZone`, which its source derives: the
/// copy is the same zone.
pub assume_specification[ <jiff::tz::TimeZone as Clone>::clone ](zone: &jiff::tz::TimeZone) -> (res: jiff::tz::TimeZone)
    ensures
        res == *zone,
;

/// `jiff::Zoned::now`: the current instant, in nanoseconds since the Unix
/// epoch. It panics only where the system clock is outside the range of
/// instants `jiff` holds, so what comes back is in that range.
#[verifier::external_body]
pub(crate) fn now() -> (res: i128)
    ensures
        is_instant(res as int),
{
    Zoned::now().timestamp().as_nanosecond()
}

/// `jiff::Timestamp::to_zoned` and the getters of `jiff::Zoned`: how `zone`
/// reads an instant. The reading is a date of the calendar and a clock time
/// whose value less the zone's offset is the instant itself. UTC and a fixed
/// offset keep their offset at every instant; which offset a zone of the
/// time zone database keeps depends on the database and is left unsaid.
#[verifier::external_body]
pub(crate) fn moment_in(instant: i128, zone: &Zone) -> (res: Moment)
    requires
        is_instant(instant as int),
    ensures
        is_moment(res),
        instant_of(res) == instant,
        fixed_offset(*zone) matches Some(offset) ==> res.offset_seconds == offset,
{
    let at = Timestamp::from_nanosecond(instant).unwrap().to_zoned(zone.tz.clone());
    let date = CivilDate { year: at.year(), month: at.month(), day: at.day() };
    let (hour, minute, second) = (at.hour(), at.minute(), at.second());
    let time = CivilTime { hour, minute, second, subsec_nanosecond: at.subsec_nanosecond() };
    Moment { date, time, offset_seconds: at.offset().seconds() }
}

/// `jiff::civil::DateTime::to_zoned`: the instant at which a zone's clocks
/// show `date` and `time`, and how the zone reads it. Gaps and folds are
/// resolved by `jiff`'s compatible rule: in a fold the earlier instant, in a
/// gap the one after it, so the zone reads the time asked for or a later one.
/// UTC and a fixed offset have neither, so they read the time asked for. The
/// call fails only where the instant falls outside the range `jiff` holds,
/// which a valid date and time away from the first and last year of the
/// calendar never do, for an offset is less than two days. By how much a gap
/// moves the time depends on the time zone database and is left unsaid.
#[verifier::external_body]
pub(crate) fn zoned_at(date: CivilDate, time: CivilTime, zone: &Zone) -> (res: Result<
    (i128, Moment),
    JiffError,
>)
    ensures
        res matches Ok((instant, reading)) ==> {
            &&& is_instant(instant as int)
            &&& is_moment(reading)
            &&& instant_of(reading) == instant
            &&& civil_nanos(reading.date, reading.time) >= civil_nanos(date, time)
            &&& fixed_offset(*zone) matches Some(offset) ==> reading.offset_seconds == offset
                && reading.date == date && reading.time == time
        },
        is_date(date) && is_time(time) && FIRST_YEAR < date.year < LAST_YEAR ==> res is Ok,
{
    let (d, t) = (date, time);
    let dt = civil::DateTime::new(d.year, d.month, d.day, t.hour, t.minute, t.second, t.subsec_nanosecond)?;
    let at = dt.to_zoned(zone.tz.clone())?;
    let date = CivilDate { year: at.year(), month: at.month(), day: at.day() };
    let (hour, minute, second) = (at.hour(), at.minute(), at.second());
    let time = CivilTime { hour, minute, second, subsec_nanosecond: at.subsec_nanosecond() };
    Ok((at.timestamp().as_nanosecond(), Moment { date, time, offset_seconds: at.offset().seconds() }))
}

/// `jiff::civil::Date::until`: the days from one date to another. Both
/// dates are built with `jiff::civil::Date::new`, which accepts exactly the
/// days of the calendar; between two of them `until` counts whole days.
#[verifier::external_body]
pub(crate) fn days_between(from: CivilDate, to: CivilDate) -> (res: Result<i32, JiffError>)
    ensures
        match res {
            Ok(days) => is_date(from) && is_date(to) && days == days_from_civil(to)
                - days_from_civil(from),
            Err(_) => !(is_date(from) && is_date(to)),
        },
{
    let from = civil::Date::new(from.year, from.month, from.day)?;
    let to = civil::Date::new(to.year, to.month, to.day)?;
    Ok(from.until(to)?.get_days())
}

/// `jiff::civil::Date::yesterday`: the day before a date. The date is built
/// with `jiff::civil::Date::new`, which accepts exactly the days of the
/// calendar, and `yesterday` fails only on its first day.
#[verifier::external_body]
pub(crate) fn day_before(date: CivilDate) -> (res: Option<CivilDate>)
    ensures
        match res {
            Some(before) => is_date(date) && is_date(before) && days_from_civil(before)
                == days_from_civil(date) - 1,
            None => !is_date(date) || is_first_day(date),
        },
{
    let d = civil::Date::new(date.year, date.month, date.day).ok()?;
    match d.yesterday() {
        Ok(d) => Some(CivilDate { year: d.year(), month: d.month(), day: d.day() }),
        Err(_) => None,
    }
}

/// `jiff::civil::Date::tomorrow`: the day after a date. The date is built
/// with `jiff::civil::Date::new`, which accepts exactly the days of the
/// calendar, and `tomorrow` fails only on its last day.
#[verifier::external_body]
pub(crate) fn day_after(date: CivilDate) -> (res: Option<CivilDate>)
    ensures
        match res {
            Some(after) => is_date(date) && is_date(after) && days_from_civil(after)
                == days_from_civil(date) + 1,
            None => !is_date(date) || is_last_day(date),
        },
{
    let d = civil::Date::new(date.year, date.month, date.day).ok()?;
    match d.tomorrow() {
        Ok(d) => Some(CivilDate { year: d.year(), month: d.month(), day: d.day() }),
        Err(_) => None,
    }
}

/// `jiff::civil::Date::from_str`: a date read from text, which is a day of
/// the calendar.
#[verifier::external_body]
pub(crate) fn read_date(text: &str) -> (res: Option<CivilDate>)
    ensures
        match res {
            Some(d) => jiff_date(text@) == Some(date_triple(d)) && is_date(d),
            None => jiff_date(text@) is None,
        },
{
    match text.parse::<civil::Date>() {
        Ok(d) => Some(CivilDate { year: d.year(), month: d.month(), day: d.day() }),
        Err(_) => None,
    }
}

} // verus!
