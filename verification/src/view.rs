//! The decisions behind the table and the dial: column widths, form input,
//! markers that places share, angles on the dial, and what a request is
//! answered with.
use vstd::prelude::*;
use crate::convert::Row;
use crate::error::Error;
use crate::moment::{CivilDate, CivilTime, days_from_civil, is_date, is_first_day, is_last_day};
use crate::zone::{day_after, day_before};
use crate::text::{same_text, trim, trim_str};

verus! {

/// The narrowest the place column gets.
pub const MIN_PLACE_WIDTH: usize = 5;

/// Minutes in a day.
pub const MINUTES_PER_DAY: i64 = 1440;

/// Quarter degrees from midnight to noon on the dial: it turns a quarter
/// degree per minute, with noon at the top.
pub const NOON_QUARTER_DEGREES: i64 = 720;

/// The zone name that stands for an unknown system zone.
pub const UNKNOWN_ZONE: &'static str = "Etc/Unknown";

/// The zone shown when the system zone is unknown.
pub const FALLBACK_ZONE: &'static str = "UTC";

/// The text an optional string holds.
pub open spec fn text_of(value: Option<String>) -> Option<Seq<char>> {
    match value {
        Some(v) => Some(v@),
        None => None,
    }
}

/// What a form value counts as: its text trimmed, or absent where nothing
/// but whitespace is left.
pub open spec fn form_value(value: Option<Seq<char>>) -> Option<Seq<char>> {
    match value {
        Some(v) => if trim(v).len() > 0 {
            Some(trim(v))
        } else {
            None
        },
        None => None,
    }
}

/// A form value with its surrounding whitespace trimmed; empty values count
/// as absent, as HTML forms send them.
pub fn given(value: Option<String>) -> (res: Option<String>)
    ensures
        text_of(res) == form_value(text_of(value)),
{
    match value {
        Some(v) => {
            let t = trim_str(v.as_str());
            if t.as_str().unicode_len() > 0 {
                Some(t)
            } else {
                None
            }
        },
        None => None,
    }
}

/// The longest label among `rows`, in chars.
pub open spec fn widest_label(rows: Seq<Row>) -> int
    decreases rows.len(),
{
    if rows.len() == 0 {
        0
    } else {
        let rest = widest_label(rows.drop_last());
        let here = rows.last().label@.len() as int;
        if here > rest {
            here
        } else {
            rest
        }
    }
}

/// The width of the place column: the longest label, and at least
/// `MIN_PLACE_WIDTH`.
pub fn place_width(rows: &[Row]) -> (width: usize)
    ensures
        width as int == if widest_label(rows@) > MIN_PLACE_WIDTH {
            widest_label(rows@)
        } else {
            MIN_PLACE_WIDTH as int
        },
{
    let mut widest: usize = 0;
    let mut i: usize = 0;
    while i < rows.len()
        invariant
            i <= rows@.len(),
            widest as int == widest_label(rows@.take(i as int)),
        decreases rows@.len() - i,
    {
        proof {
            assert(rows@.take(i + 1).drop_last() =~= rows@.take(i as int));
        }
        let here = rows[i].label.as_str().unicode_len();
        if here > widest {
            widest = here;
        }
        i += 1;
    }
    proof {
        assert(rows@.take(rows@.len() as int) =~= rows@);
    }
    if widest > MIN_PLACE_WIDTH {
        widest
    } else {
        MIN_PLACE_WIDTH
    }
}

/// Minutes since midnight of a clock time: the slider position.
pub fn minutes(time: CivilTime) -> (res: i32)
    ensures
        res == time.hour * 60 + time.minute,
{
    time.hour as i32 * 60 + time.minute as i32
}

/// The angle on the dial, in quarter degrees clockwise from noon, of a time
/// `minutes` past midnight on a day `day_shift` days from the source date.
/// It is not wrapped to a turn, so that a place on another date keeps a
/// continuous path when the dial is turned.
pub fn dial_angle(minutes: i32, day_shift: i32) -> (quarters: i64)
    ensures
        quarters == minutes + MINUTES_PER_DAY * day_shift - NOON_QUARTER_DEGREES,
{
    minutes as i64 + MINUTES_PER_DAY * day_shift as i64 - NOON_QUARTER_DEGREES
}

/// The index of the first row that keeps the source zone.
pub fn source_row(rows: &[Row]) -> (res: Option<usize>)
    ensures
        match res {
            Some(i) => i < rows@.len() && rows@[i as int].is_source && forall|j: int|
                0 <= j < i ==> !(#[trigger] rows@[j]).is_source,
            None => forall|j: int| 0 <= j < rows@.len() ==> !(#[trigger] rows@[j]).is_source,
        },
{
    let mut i: usize = 0;
    while i < rows.len()
        invariant
            i <= rows@.len(),
            forall|j: int| 0 <= j < i ==> !(#[trigger] rows@[j]).is_source,
        decreases rows@.len() - i,
    {
        if rows[i].is_source {
            return Some(i);
        }
        i += 1;
    }
    None
}

/// The days the dial names: the day before the source date, the source date
/// and the day after. There are none where the source date has no day
/// before or after it in the calendar.
pub fn dial_days(source: CivilDate) -> (res: Option<(CivilDate, CivilDate, CivilDate)>)
    ensures
        match res {
            Some((before, day, after)) => {
                &&& day == source
                &&& is_date(before) && is_date(after)
                &&& days_from_civil(before) == days_from_civil(source) - 1
                &&& days_from_civil(after) == days_from_civil(source) + 1
            },
            None => !is_date(source) || is_first_day(source) || is_last_day(source),
        },
{
    let before = day_before(source)?;
    let after = day_after(source)?;
    Some((before, source, after))
}

/// One marker on the ring of the dial. Places that share an offset share a
/// marker.
#[derive(Clone, Debug)]
pub struct Mark {
    /// The offset the places keep, in seconds east of UTC.
    pub offset: i32,
    /// The first row with this offset: the marker shows its time, date,
    /// band and angle.
    pub first: usize,
    /// Every row with this offset, in order.
    pub rows: Vec<usize>,
    /// Whether one of the rows keeps the source zone.
    pub is_source: bool,
    /// Label lines beyond the usual two, so the label clears the ring: one
    /// per further place, and one where the first place is on another date.
    pub extra_lines: usize,
}

/// Whether row `j` is the first with its offset.
pub open spec fn opens_group(rows: Seq<Row>, j: int) -> bool {
    &&& 0 <= j < rows.len()
    &&& forall|i: int|
        0 <= i < j ==> (#[trigger] rows[i]).at.offset_seconds != rows[j].at.offset_seconds
}

/// The indices of the rows that keep `offset`, in order.
pub open spec fn rows_with_offset(rows: Seq<Row>, offset: i32) -> Seq<usize>
    decreases rows.len(),
{
    if rows.len() == 0 {
        Seq::empty()
    } else {
        let rest = rows_with_offset(rows.drop_last(), offset);
        if rows.last().at.offset_seconds == offset {
            rest.push((rows.len() - 1) as usize)
        } else {
            rest
        }
    }
}

/// Whether one of the rows at `indices` keeps the source zone.
pub open spec fn any_source(rows: Seq<Row>, indices: Seq<usize>) -> bool {
    exists|t: int| 0 <= t < indices.len() && (#[trigger] rows[indices[t] as int]).is_source
}

/// Whether `mark` is the marker of the rows that share the offset of row
/// `mark.first`, the first of them.
pub open spec fn is_mark_of(rows: Seq<Row>, mark: Mark) -> bool {
    &&& opens_group(rows, mark.first as int)
    &&& mark.offset == rows[mark.first as int].at.offset_seconds
    &&& mark.rows@ == rows_with_offset(rows, mark.offset)
    &&& mark.is_source == any_source(rows, mark.rows@)
    &&& mark.extra_lines == mark.rows@.len() - 1 + if rows[mark.first as int].day_shift != 0 {
        1int
    } else {
        0int
    }
}

/// `rows_with_offset` lists rows that keep the offset, and every such row.
pub proof fn lemma_rows_with_offset_bounds(rows: Seq<Row>, offset: i32)
    requires
        rows.len() <= usize::MAX,
    ensures
        forall|t: int|
            0 <= t < rows_with_offset(rows, offset).len() ==> {
                let j = #[trigger] rows_with_offset(rows, offset)[t];
                &&& j < rows.len()
                &&& rows[j as int].at.offset_seconds == offset
            },
        forall|j: int|
            0 <= j < rows.len() && rows[j].at.offset_seconds == offset ==> exists|t: int|
                0 <= t < rows_with_offset(rows, offset).len() && #[trigger] rows_with_offset(
                    rows,
                    offset,
                )[t] == j,
    decreases rows.len(),
{
    if rows.len() > 0 {
        let front = rows.drop_last();
        lemma_rows_with_offset_bounds(front, offset);
        assert forall|t: int| 0 <= t < rows_with_offset(front, offset).len() implies {
            let j = #[trigger] rows_with_offset(front, offset)[t];
            rows[j as int] == front[j as int]
        } by {}
        assert forall|j: int|
            0 <= j < rows.len() && rows[j].at.offset_seconds == offset implies exists|t: int|
                0 <= t < rows_with_offset(rows, offset).len() && #[trigger] rows_with_offset(
                    rows,
                    offset,
                )[t] == j by {
            if j < rows.len() - 1 {
                assert(front[j] == rows[j]);
                let t = choose|t: int|
                    0 <= t < rows_with_offset(front, offset).len() && #[trigger] rows_with_offset(
                        front,
                        offset,
                    )[t] == j;
                let r = rows_with_offset(front, offset);
                assert(0 <= t < r.len());
                assert(r[t] == j);
                if rows.last().at.offset_seconds == offset {
                    assert(rows_with_offset(rows, offset) == r.push((rows.len() - 1) as usize));
                } else {
                    assert(rows_with_offset(rows, offset) == r);
                }
                assert(rows_with_offset(rows, offset)[t] == j);
            } else {
                let r = rows_with_offset(front, offset);
                let t = r.len() as int;
                assert(rows.last() == rows[j]);
                assert(rows_with_offset(rows, offset) == r.push((rows.len() - 1) as usize));
                assert(rows_with_offset(rows, offset)[t] == j);
            }
        }
    }
}

/// Whether `marks` are the markers of `rows`: one per offset, in the order
/// in which the offsets first appear.
pub open spec fn is_marking(rows: Seq<Row>, marks: Seq<Mark>) -> bool {
    &&& forall|m: int| 0 <= m < marks.len() ==> is_mark_of(rows, #[trigger] marks[m])
    &&& forall|m1: int, m2: int|
        0 <= m1 < m2 < marks.len() ==> (#[trigger] marks[m1]).first < (#[trigger] marks[m2]).first
    &&& forall|j: int|
        opens_group(rows, j) ==> exists|m: int| 0 <= m < marks.len() && (#[trigger] marks[m]).first == j
}

/// The markers of the rows: one per offset, in the order in which the
/// offsets first appear.
pub fn marks(rows: &[Row]) -> (res: Vec<Mark>)
    ensures
        is_marking(rows@, res@),
{
    let n = rows.len();
    let mut out: Vec<Mark> = Vec::new();
    let mut j: usize = 0;
    while j < n
        invariant
            j <= n,
            n == rows@.len(),
            forall|m: int| 0 <= m < out@.len() ==> is_mark_of(rows@, #[trigger] out@[m]),
            forall|m: int| 0 <= m < out@.len() ==> (#[trigger] out@[m]).first < j,
            forall|m1: int, m2: int|
                0 <= m1 < m2 < out@.len() ==> (#[trigger] out@[m1]).first < (
                #[trigger] out@[m2]).first,
            forall|k: int|
                0 <= k < j && opens_group(rows@, k) ==> exists|m: int|
                    0 <= m < out@.len() && (#[trigger] out@[m]).first == k,
        decreases n - j,
    {
        let offset = rows[j].at.offset_seconds;
        let mut seen = false;
        let mut i: usize = 0;
        while i < j
            invariant
                i <= j < n,
                n == rows@.len(),
                offset == rows@[j as int].at.offset_seconds,
                seen ==> !opens_group(rows@, j as int),
                !seen ==> forall|p: int|
                    0 <= p < i ==> (#[trigger] rows@[p]).at.offset_seconds != offset,
            decreases j - i,
        {
            if rows[i].at.offset_seconds == offset {
                seen = true;
            }
            i += 1;
        }
        if !seen {
            let mut members: Vec<usize> = Vec::new();
            let mut is_source = false;
            let mut k: usize = 0;
            while k < n
                invariant
                    k <= n,
                    n == rows@.len(),
                    members@ == rows_with_offset(rows@.take(k as int), offset),
                    is_source == any_source(rows@, members@),
                    forall|t: int| 0 <= t < members@.len() ==> #[trigger] members@[t] < k,
                decreases n - k,
            {
                let ghost before = members@;
                proof {
                    assert(rows@.take(k + 1).drop_last() =~= rows@.take(k as int));
                    assert(rows@.take(k + 1).last() == rows@[k as int]);
                }
                if rows[k].at.offset_seconds == offset {
                    members.push(k);
                    proof {
                        assert(members@[before.len() as int] == k);
                        if is_source {
                            let t = choose|t: int|
                                0 <= t < before.len() && (#[trigger] rows@[before[t] as int]).is_source;
                            assert(members@[t] == before[t]);
                        }
                        if any_source(rows@, members@) && !is_source {
                            let t = choose|t: int|
                                0 <= t < members@.len() && (#[trigger] rows@[members@[t] as int]).is_source;
                            if t < before.len() {
                                assert(members@[t] == before[t]);
                            }
                        }
                    }
                    is_source = is_source || rows[k].is_source;
                }
                k += 1;
            }
            proof {
                assert(rows@.take(n as int) =~= rows@);
                lemma_rows_with_offset_bounds(rows@, offset);
                assert(rows@[j as int].at.offset_seconds == offset);
            }
            let extra = members.len() - 1 + if rows[j].day_shift != 0 {
                1
            } else {
                0
            };
            let ghost old_out = out@;
            out.push(Mark { offset, first: j, rows: members, is_source, extra_lines: extra });
            proof {
                assert(out@[old_out.len() as int].first == j);
                assert forall|m: int| 0 <= m < out@.len() implies is_mark_of(rows@, #[trigger] out@[m]) by {
                    if m < old_out.len() {
                        assert(out@[m] == old_out[m]);
                    }
                }
                assert forall|k2: int|
                    0 <= k2 < j + 1 && opens_group(rows@, k2) implies exists|m: int|
                        0 <= m < out@.len() && (#[trigger] out@[m]).first == k2 by {
                    if k2 < j {
                        let m = choose|m: int| 0 <= m < old_out.len() && (#[trigger] old_out[m]).first == k2;
                        assert(out@[m] == old_out[m]);
                    } else {
                        assert(out@[old_out.len() as int].first == k2);
                    }
                }
                assert forall|m: int| 0 <= m < out@.len() implies (#[trigger] out@[m]).first < j + 1 by {
                    if m < old_out.len() {
                        assert(out@[m] == old_out[m]);
                    }
                }
                assert forall|m1: int, m2: int|
                    0 <= m1 < m2 < out@.len() implies (#[trigger] out@[m1]).first < (#[trigger] out@[m2]).first by {
                    assert(out@[m1] == old_out[m1]);
                    if m2 < old_out.len() {
                        assert(out@[m2] == old_out[m2]);
                    }
                }
            }
        } else {
            proof {
                assert forall|k2: int|
                    0 <= k2 < j + 1 && opens_group(rows@, k2) implies exists|m: int|
                        0 <= m < out@.len() && (#[trigger] out@[m]).first == k2 by {
                    if k2 == j {
                        assert(false);
                    }
                }
            }
        }
        j += 1;
    }
    out
}

/// The form field an error belongs to: `time`, `date` or `zone`, or empty
/// where it belongs to none.
pub open spec fn field_of(error: Error) -> Seq<char> {
    match error {
        Error::Time(_) => "time"@,
        Error::Date(_) => "date"@,
        Error::Moment(_) => "date"@,
        Error::Zone(_, _) => "zone"@,
        Error::Place(_, _) => ""@,
    }
}

/// The form field an error belongs to: `time`, `date` or `zone`, or empty
/// where it belongs to none.
pub fn invalid_field(error: &Error) -> (res: &'static str)
    ensures
        res@ == field_of(*error),
{
    match error {
        Error::Time(_) => "time",
        Error::Date(_) => "date",
        Error::Moment(_) => "date",
        Error::Zone(_, _) => "zone",
        Error::Place(_, _) => "",
    }
}

/// The status of a page that `htmx` asked for or not, with an error on it or
/// not: `400` for an error, except to `htmx`, which ignores the bodies of
/// `4xx` answers, and `200` otherwise.
pub fn response_status(has_error: bool, htmx: bool) -> (status: u16)
    ensures
        status == if has_error && !htmx {
            400u16
        } else {
            200u16
        },
{
    if has_error && !htmx {
        400
    } else {
        200
    }
}

/// Whether a page follows the clock: no time and no date were asked for.
pub fn is_live(time: &Option<String>, date: &Option<String>) -> (live: bool)
    ensures
        live == (time is None && date is None),
{
    time.is_none() && date.is_none()
}

/// The zone to show when none is asked for: the system zone's name, unless
/// it is unknown, then `UTC`.
pub fn default_zone_name(system: Option<&str>) -> (res: String)
    ensures
        res@ == match system {
            Some(name) => if name@ != UNKNOWN_ZONE@ {
                name@
            } else {
                FALLBACK_ZONE@
            },
            None => FALLBACK_ZONE@,
        },
{
    match system {
        Some(name) => if !same_text(name, UNKNOWN_ZONE) {
            String::from_str(name)
        } else {
            String::from_str(FALLBACK_ZONE)
        },
        None => String::from_str(FALLBACK_ZONE),
    }
}

/// The index of the asset served under `path`.
pub fn find_asset(names: &[&str], path: &str) -> (res: Option<usize>)
    ensures
        match res {
            Some(i) => i < names@.len() && names@[i as int]@ == path@ && forall|j: int|
                0 <= j < i ==> (#[trigger] names@[j])@ != path@,
            None => forall|j: int| 0 <= j < names@.len() ==> (#[trigger] names@[j])@ != path@,
        },
{
    let mut i: usize = 0;
    while i < names.len()
        invariant
            i <= names@.len(),
            forall|j: int| 0 <= j < i ==> (#[trigger] names@[j])@ != path@,
        decreases names@.len() - i,
    {
        if same_text(names[i], path) {
            return Some(i);
        }
        i += 1;
    }
    None
}

} // verus!
