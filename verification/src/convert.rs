//! The conversion itself: one moment in a source zone, read in every place.
use vstd::prelude::*;
use crate::band::{Band, band_of_hour};
use crate::error::Error;
use crate::moment::{
    CivilDate,
    CivilTime,
    Moment,
    civil_nanos,
    civil_seconds,
    days_from_civil,
    instant_of,
    is_instant,
    is_moment,
    NANOS_PER_SECOND,
    FIRST_YEAR,
    LAST_YEAR,
};
use crate::parse::{date_of, parse_date, parse_offset, parse_time, time_of, zone_offset_of};
use crate::places::Place;
use crate::text::{chars_eq_ignore_ascii_case, chars_of, eq_ignore_ascii_case};
use crate::zone::{
    Zone,
    ZoneName,
    days_between,
    fixed_offset,
    fixed_zone,
    is_named,
    lookup_zone,
    moment_in,
    now,
    same_tz,
    same_zone,
    system_zone,
    zoned_at,
};

verus! {

/// One place at the requested moment.
#[derive(Clone, Debug)]
pub struct Row {
    /// Name of the place.
    pub label: String,
    /// Zone the place keeps time in.
    pub zone: Zone,
    /// The moment, as this place reads it.
    pub at: Moment,
    /// Part of the day the local hour falls in.
    pub band: Band,
    /// Whether this place keeps the source zone.
    pub is_source: bool,
    /// Days from the source date to this place's date. Two offsets differ
    /// by less than three days, so this is one of -3 to 3.
    pub day_shift: i32,
}

/// The moment to convert, as typed by the user.
///
/// Every field is optional and falls back to now in the system zone.
#[derive(Clone, Copy, Debug, Default)]
pub struct Query<'a> {
    /// Clock time such as `20:30`, `8.30pm` or `8pm`.
    pub time: Option<&'a str>,
    /// Calendar date as `YYYY-MM-DD`.
    pub date: Option<&'a str>,
    /// Source zone: a place label, an offset such as `GMT+4`, or an IANA name.
    pub zone: Option<&'a str>,
}

/// Whether a place is labelled `input`, but for the case of ASCII letters.
pub open spec fn label_matches(place: Place, input: Seq<char>) -> bool {
    eq_ignore_ascii_case(place.label@, input)
}

/// Whether place `k` is the first one labelled `input`.
pub open spec fn is_first_match(places: Seq<Place>, input: Seq<char>, k: int) -> bool {
    &&& 0 <= k < places.len()
    &&& label_matches(places[k], input)
    &&& forall|j: int| 0 <= j < k ==> !label_matches(#[trigger] places[j], input)
}

/// Whether some place is labelled `input`.
pub open spec fn has_label(places: Seq<Place>, input: Seq<char>) -> bool {
    exists|k: int| 0 <= k < places.len() && label_matches(#[trigger] places[k], input)
}

/// Whether `input` names a zone without the time zone database: a label of
/// one of the places, or an offset.
pub open spec fn zone_known(places: Seq<Place>, input: Seq<char>) -> bool {
    has_label(places, input) || zone_offset_of(input) is Some
}

/// Whether the query's zone is found without the time zone database, or is
/// not given at all.
pub open spec fn query_zone_known(query: Query, places: Seq<Place>) -> bool {
    match query.zone {
        Some(z) => zone_known(places, z@),
        None => true,
    }
}

/// Whether the query's time is a clock time, or is not given.
pub open spec fn query_time_ok(query: Query) -> bool {
    match query.time {
        Some(t) => time_of(t@) is Some,
        None => true,
    }
}

/// Whether the query's date is a date, or is not given.
pub open spec fn query_date_ok(query: Query) -> bool {
    match query.date {
        Some(d) => date_of(d@) is Some,
        None => true,
    }
}

/// The label of the source zone's row: what the user typed, or `local`
/// for the system zone.
pub open spec fn source_label(query: Query) -> Seq<char> {
    match query.zone {
        Some(z) => z@,
        None => "local"@,
    }
}

/// Whether a row's band is that of its local hour, and its moment is in range.
pub open spec fn row_ok(row: Row) -> bool {
    row.band == band_of_hour(row.at.time.hour as int) && is_moment(row.at)
}

/// Whether `zone` is what `input` names among `places`: the zone of the
/// first place labelled `input`, else the offset that `input` spells, else
/// the IANA zone of that name.
pub open spec fn found_for(places: Seq<Place>, input: Seq<char>, zone: Zone) -> bool {
    if has_label(places, input) {
        exists|k: int| is_first_match(places, input, k) && zone == #[trigger] places[k].zone
    } else {
        match zone_offset_of(input) {
            Some(seconds) => zone.tag() matches ZoneName::Offset(o) && o == seconds,
            None => is_named(zone, input),
        }
    }
}

/// Whether `zone` is the source zone of a query: the one its zone names, or
/// the system's zone where it names none.
pub open spec fn source_of(query: Query, places: Seq<Place>, zone: Zone) -> bool {
    match query.zone {
        Some(z) => found_for(places, z@, zone),
        None => zone.tag() == ZoneName::System,
    }
}

/// Whether one of the places keeps the time of `zone`.
pub open spec fn keeps(places: Seq<Place>, zone: Zone) -> bool {
    exists|k: int| 0 <= k < places.len() && same_tz(#[trigger] places[k].zone, zone)
}

/// Whether `row` reads the instant of `at`, the source zone's reading: its
/// band and moment are in order, its instant is that of `at`, its day shift
/// counts the days from the date of `at`, a row of the source zone reads
/// `at` itself, and any other row keeps the offset its zone fixes, if any.
pub open spec fn reads_source(row: Row, at: Moment) -> bool {
    &&& row_ok(row)
    &&& instant_of(row.at) == instant_of(at)
    &&& row.day_shift == days_from_civil(row.at.date) - days_from_civil(at.date)
    &&& -3 <= row.day_shift <= 3
    &&& row.is_source ==> row.at == at
    &&& !row.is_source ==> (fixed_offset(row.zone) matches Some(offset)
        ==> row.at.offset_seconds == offset)
}

/// Whether a date lies between the first and the last year of the calendar,
/// where a moment can be read in any zone.
pub open spec fn inner_date(d: CivilDate) -> bool {
    FIRST_YEAR < d.year < LAST_YEAR
}

/// What a successful conversion gives: for the source zone `source`, read
/// as `at` at the moment asked for when the source zone read the current
/// instant as `now`, a leading row for the source zone unless a place keeps
/// it, then one row per place in the place's zone, each reading the same
/// instant. The source zone reads the date and time asked for, or a later
/// time where they fall in a gap; UTC and a fixed offset read them exactly.
#[verifier::opaque]
pub open spec fn converted(
    query: Query,
    places: Seq<Place>,
    rows: Seq<Row>,
    source: Zone,
    at: Moment,
    now: Moment,
) -> bool {
    let n = places.len();
    let lead: int = if keeps(places, source) {
        0
    } else {
        1
    };
    &&& source_of(query, places, source)
    &&& query_time_ok(query)
    &&& query_date_ok(query)
    &&& is_moment(now)
    &&& is_moment(at)
    &&& civil_nanos(at.date, at.time) >= civil_nanos(
        chosen_date(query, now),
        chosen_time(query, now),
    )
    &&& fixed_offset(source) matches Some(offset) ==> {
        &&& now.offset_seconds == offset
        &&& at.offset_seconds == offset
        &&& at.date == chosen_date(query, now)
        &&& at.time == chosen_time(query, now)
    }
    &&& rows.len() == n + lead
    &&& lead == 1 ==> rows[0].label@ == source_label(query) && rows[0].is_source && rows[0].zone
        == source
    &&& forall|i: int|
        0 <= i < n ==> {
            &&& (#[trigger] rows[i + lead]).label@ == places[i].label@
            &&& rows[i + lead].zone == places[i].zone
            &&& rows[i + lead].is_source == same_tz(places[i].zone, source)
        }
    &&& forall|j: int| 0 <= j < rows.len() ==> reads_source(#[trigger] rows[j], at)
}

/// Seconds and their nanoseconds are read back from a count of nanoseconds.
proof fn lemma_nanos_unique(x: int, a: int, y: int, b: int)
    by (nonlinear_arith)
    requires
        x * NANOS_PER_SECOND + a == y * NANOS_PER_SECOND + b,
        0 <= a < NANOS_PER_SECOND,
        0 <= b < NANOS_PER_SECOND,
    ensures
        x == y,
        a == b,
{
}

/// Two day numbers whose midnights are less than four days apart are at
/// most three days apart.
proof fn lemma_days_within(from: int, to: int)
    by (nonlinear_arith)
    requires
        -345600 < to * 86400 - from * 86400 < 345600,
    ensures
        -3 <= to - from <= 3,
{
}

/// Two readings of one instant are at most three days apart: their clocks
/// differ by their offsets, each under 26 hours.
proof fn lemma_one_instant(a: Moment, b: Moment)
    requires
        is_moment(a),
        is_moment(b),
        instant_of(a) == instant_of(b),
    ensures
        -3 <= days_from_civil(b.date) - days_from_civil(a.date) <= 3,
{
    let sa = civil_seconds(a.date, a.time) - a.offset_seconds;
    let sb = civil_seconds(b.date, b.time) - b.offset_seconds;
    lemma_nanos_unique(sa, a.time.subsec_nanosecond as int, sb, b.time.subsec_nanosecond as int);
    lemma_days_within(days_from_civil(a.date), days_from_civil(b.date));
}

/// Resolves a source zone. The order matters: label, then offset, then IANA.
///
/// # Errors
///
/// Returns [Error::Zone] when the input is none of them.
pub fn source_zone(input: &str, places: &[Place]) -> (res: Result<Zone, Error>)
    ensures
        match res {
            Ok(zone) => found_for(places@, input@, zone),
            Err(e) => e matches Error::Zone(s, _) && s@ == input@ && !zone_known(places@, input@),
        },
        zone_known(places@, input@) ==> res is Ok,
{
    let wanted = chars_of(input);
    let mut i: usize = 0;
    while i < places.len()
        invariant
            i <= places@.len(),
            wanted@ == input@,
            forall|j: int| 0 <= j < i ==> !label_matches(#[trigger] places@[j], input@),
        decreases places@.len() - i,
    {
        let label = chars_of(places[i].label.as_str());
        if chars_eq_ignore_ascii_case(&label, &wanted) {
            let zone = places[i].zone.clone();
            assert(is_first_match(places@, input@, i as int));
            return Ok(zone);
        }
        i += 1;
    }
    assert(!has_label(places@, input@));
    match parse_offset(input) {
        Some(seconds) => Ok(fixed_zone(seconds)),
        None => match lookup_zone(input) {
            Ok(zone) => Ok(zone),
            Err(e) => Err(Error::Zone(String::from_str(input), e)),
        },
    }
}

/// Whether one of the places keeps the time of `zone`.
fn keeps_zone(places: &[Place], zone: &Zone) -> (res: bool)
    ensures
        res == keeps(places@, *zone),
{
    let mut i: usize = 0;
    while i < places.len()
        invariant
            i <= places@.len(),
            forall|j: int| 0 <= j < i ==> !same_tz(#[trigger] places@[j].zone, *zone),
        decreases places@.len() - i,
    {
        if same_zone(&places[i].zone, zone) {
            return true;
        }
        i += 1;
    }
    false
}

/// The row of one place, labelled `label` and keeping `zone`: how it reads
/// the instant `instant`, whose reading in the source zone `source` is `at`.
fn place_row(instant: i128, at: Moment, zone: &Zone, source: &Zone, label: String) -> (row: Row)
    requires
        is_instant(instant as int),
        is_moment(at),
        instant_of(at) == instant,
    ensures
        row.label == label,
        row.zone == *zone,
        row.is_source == same_tz(*zone, *source),
        reads_source(row, at),
{
    let is_source = same_zone(zone, source);
    let local = if is_source {
        at
    } else {
        moment_in(instant, zone)
    };
    proof {
        lemma_one_instant(at, local);
    }
    let day_shift = match days_between(at.date, local.date) {
        Ok(days) => days,
        Err(_) => {
            assert(false);
            0
        },
    };
    let zone = zone.clone();
    Row { label, zone, at: local, band: Band::of_hour(local.time.hour), is_source, day_shift }
}

/// The time the query asks for: the one typed, or the current one.
pub open spec fn chosen_time(query: Query, now: Moment) -> CivilTime {
    match query.time {
        Some(t) => time_of(t@).unwrap(),
        None => now.time,
    }
}

/// The date the query asks for: the one typed, or the current one.
pub open spec fn chosen_date(query: Query, now: Moment) -> CivilDate {
    match query.date {
        Some(d) => date_of(d@).unwrap(),
        None => now.date,
    }
}

/// The date and time a query asks for, where `now` is the current moment in
/// the source zone: what was typed, and now for what was not.
///
/// # Errors
///
/// Returns [Error::Time] for a time that is not a clock time, and then
/// [Error::Date] for a date that is not a date.
pub fn requested(query: Query<'_>, now: Moment) -> (res: Result<(CivilDate, CivilTime), Error>)
    ensures
        !query_time_ok(query) ==> (res matches Err(Error::Time(s)) && query.time matches Some(t)
            && s@ == t@),
        query_time_ok(query) && !query_date_ok(query) ==> (res matches Err(Error::Date(s))
            && query.date matches Some(d) && s@ == d@),
        query_time_ok(query) && query_date_ok(query) ==> res == Ok::<(CivilDate, CivilTime), Error>(
            (chosen_date(query, now), chosen_time(query, now)),
        ),
{
    let time = match query.time {
        None => now.time,
        Some(t) => match parse_time(t) {
            Ok(t) => t,
            Err(e) => return Err(e),
        },
    };
    let date = match query.date {
        None => now.date,
        Some(d) => match parse_date(d) {
            Ok(d) => d,
            Err(e) => return Err(e),
        },
    };
    Ok((date, time))
}

/// Reads the queried moment in every place.
///
/// The source zone leads the rows unless one of `places` already keeps it.
///
/// # Errors
///
/// Returns [Error::Time], [Error::Date] or [Error::Zone] for input that does
/// not parse, and [Error::Moment] if the date is out of range for the zone.
#[verifier::loop_isolation(false)]
pub fn convert(query: Query<'_>, places: &[Place]) -> (res: Result<Vec<Row>, Error>)
    ensures
        match res {
            Ok(rows) => exists|source: Zone, at: Moment, current: Moment|
                #[trigger] converted(query, places@, rows@, source, at, current),
            Err(Error::Zone(s, _)) => query.zone matches Some(z) && s@ == z@ && !zone_known(
                places@,
                z@,
            ),
            Err(Error::Time(s)) => query.time matches Some(t) && s@ == t@ && time_of(t@) is None,
            Err(Error::Date(s)) => query.date matches Some(d) && s@ == d@ && date_of(d@) is None
                && query_time_ok(query),
            Err(Error::Place(_, _)) => false,
            Err(Error::Moment(_)) => query_time_ok(query) && query_date_ok(query) && exists|
                now: Moment,
            | is_moment(now) && !inner_date(#[trigger] chosen_date(query, now)),
        },
        query_time_ok(query) && query_date_ok(query) && query_zone_known(query, places@) ==> (
        res is Ok || res matches Err(Error::Moment(_))),
        query_time_ok(query) && query_zone_known(query, places@) && (query.date matches Some(d)
            && date_of(d@) matches Some(day) && inner_date(day)) ==> res is Ok,
        !query_time_ok(query) ==> (res matches Err(e) && (e is Zone || e is Time)),
        query_time_ok(query) && !query_date_ok(query) ==> (res matches Err(e) && (e is Zone
            || e is Date)),
        query_zone_known(query, places@) ==> !(res matches Err(Error::Zone(_, _))),
{
    let (source, label) = match query.zone {
        None => (system_zone(), String::from_str("local")),
        Some(input) => match source_zone(input, places) {
            Ok(zone) => (zone, String::from_str(input)),
            Err(e) => return Err(e),
        },
    };
    let now = moment_in(now(), &source);
    let (date, time) = match requested(query, now) {
        Ok(asked) => asked,
        Err(e) => return Err(e),
    };
    let (instant, at) = match zoned_at(date, time, &source) {
        Ok(found) => found,
        Err(e) => return Err(Error::Moment(e)),
    };
    let kept = keeps_zone(places, &source);
    let mut rows: Vec<Row> = Vec::new();
    if !kept {
        let lead = source.clone();
        rows.push(place_row(instant, at, &lead, &source, label));
    }
    let ghost lead: int = if kept {
        0
    } else {
        1
    };
    let mut i: usize = 0;
    while i < places.len()
        invariant
            i <= places@.len(),
            rows@.len() == lead + i,
            lead == 1 ==> rows@[0].label@ == source_label(query) && rows@[0].is_source,
            lead == 1 ==> rows@[0].zone == source,
            forall|j: int|
                0 <= j < i ==> {
                    &&& (#[trigger] rows@[j + lead]).label@ == places@[j].label@
                    &&& rows@[j + lead].zone == places@[j].zone
                    &&& rows@[j + lead].is_source == same_tz(places@[j].zone, source)
                },
            forall|j: int| 0 <= j < rows@.len() ==> reads_source(#[trigger] rows@[j], at),
        decreases places@.len() - i,
    {
        rows.push(place_row(instant, at, &places[i].zone, &source, places[i].label.clone()));
        i += 1;
    }
    let ghost current = now;
    let res: Result<Vec<Row>, Error> = Ok(rows);
    assert(converted(query, places@, res->Ok_0@, source, at, current)) by {
        reveal(converted);
    }
    res
}

} // verus!
