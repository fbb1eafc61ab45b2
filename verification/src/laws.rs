//! What holds of the parsers and the dial for every input.
use vstd::prelude::*;
use crate::band::{Band, band_of_hour};
use crate::convert::{Query, Row, chosen_date, chosen_time, converted, keeps, source_label};
use crate::moment::{CivilTime, Moment, days_from_civil, instant_of};
use crate::text::{ascii_fold, eq_ignore_ascii_case};
use crate::zone::{Zone, same_tz};
use crate::parse::{clock_of, offset_of, strip_meridiem, without_spaces};
use crate::places::{
    entries,
    entry_label,
    entry_zone,
    find_white,
    is_entry,
    is_separator,
    kept,
    lemma_find_white,
    lemma_pieces_len,
    parsed_places,
    pieces,
};
use crate::error::Error;
use crate::places::Place;
use crate::text::{is_white_space, trim, trim_end, trim_start};
use crate::view::{Mark, form_value, is_mark_of, is_marking, widest_label, lemma_rows_with_offset_bounds, opens_group, rows_with_offset};

verus! {

/// A sign read after `GMT`, `UTC` or nothing means east for `+` and west
/// for `-`, by the same amount: `-h:m` is the opposite of `+h:m`, and one is
/// an offset exactly when the other is.
pub proof fn law_offset_sign(body: Seq<char>)
    ensures
        match offset_of(seq!['+'] + body) {
            Some(east) => offset_of(seq!['-'] + body) == Some(-east),
            None => offset_of(seq!['-'] + body) is None,
        },
{
    let p = seq!['+'] + body;
    let q = seq!['-'] + body;
    assert(p[0] == '+');
    assert(q[0] == '-');
    assert(p.drop_first() =~= body);
    assert(q.drop_first() =~= body);
}

/// `GMT` and `UTC` in front of a signed offset change nothing: `GMT+4`,
/// `UTC+4` and `+4` are the same offset.
pub proof fn law_zone_prefix_optional(rest: Seq<char>)
    requires
        rest.len() > 0,
        rest[0] == '+' || rest[0] == '-',
    ensures
        offset_of(seq!['G', 'M', 'T'] + rest) == offset_of(rest),
        offset_of(seq!['U', 'T', 'C'] + rest) == offset_of(rest),
{
    let g = seq!['G', 'M', 'T'] + rest;
    let u = seq!['U', 'T', 'C'] + rest;
    assert(g.skip(3) =~= rest);
    assert(u.skip(3) =~= rest);
    assert(g[0] == 'G' && g[1] == 'M' && g[2] == 'T');
    assert(u[0] == 'U' && u[1] == 'T' && u[2] == 'C');
}

proof fn lemma_without_spaces_concat(s: Seq<char>, t: Seq<char>)
    ensures
        without_spaces(s + t) == without_spaces(s) + without_spaces(t),
    decreases t.len(),
{
    if t.len() == 0 {
        assert(s + t =~= s);
        assert(without_spaces(s) + without_spaces(t) =~= without_spaces(s));
    } else {
        lemma_without_spaces_concat(s, t.drop_last());
        assert((s + t).drop_last() =~= s + t.drop_last());
        assert((s + t).last() == t.last());
        if t.last() != ' ' {
            assert(without_spaces(s) + without_spaces(t.drop_last()).push(t.last()) =~= (
            without_spaces(s) + without_spaces(t.drop_last())).push(t.last()));
        }
    }
}

proof fn lemma_without_spaces_suffix(s: Seq<char>, x: char)
    requires
        x != ' ',
    ensures
        without_spaces(s + seq![x, 'm']) == without_spaces(s) + seq![x, 'm'],
{
    let suffix = seq![x, 'm'];
    lemma_without_spaces_concat(s, suffix);
    assert(suffix.drop_last() =~= seq![x]);
    assert(seq![x].drop_last() =~= Seq::<char>::empty());
    assert(without_spaces(Seq::<char>::empty()) =~= Seq::<char>::empty());
    assert(without_spaces(seq![x]) =~= seq![x]);
    assert(without_spaces(suffix) =~= suffix);
}

/// A space anywhere in a lowercase clock changes nothing: `8:30 pm` is
/// `8:30pm`, and one is a time exactly when the other is.
pub proof fn law_spaces_are_ignored(before: Seq<char>, after: Seq<char>)
    ensures
        clock_of(before + seq![' '] + after) == clock_of(before + after),
{
    let space = seq![' '];
    lemma_without_spaces_concat(before + space, after);
    lemma_without_spaces_concat(before, space);
    lemma_without_spaces_concat(before, after);
    assert(space.drop_last() =~= Seq::<char>::empty());
    assert(space.last() == ' ');
    assert(without_spaces(space.drop_last()) =~= Seq::<char>::empty());
    assert(without_spaces(space) =~= Seq::<char>::empty());
    assert(without_spaces(before) + without_spaces(space) =~= without_spaces(before));
}

/// A clock followed by `pm` is the same clock followed by `am`, twelve hours
/// later: `8:30pm` is `8:30am` plus twelve hours, `12pm` is noon as `12am` is
/// midnight, and one is a time exactly when the other is.
pub proof fn law_pm_is_twelve_hours_after_am(clock: Seq<char>)
    ensures
        match clock_of(clock + seq!['a', 'm']) {
            Some(am) => clock_of(clock + seq!['p', 'm']) == Some(
                CivilTime {
                    hour: (am.hour + 12) as i8,
                    minute: am.minute,
                    second: am.second,
                    subsec_nanosecond: am.subsec_nanosecond,
                },
            ),
            None => clock_of(clock + seq!['p', 'm']) is None,
        },
{
    let c = without_spaces(clock);
    lemma_without_spaces_suffix(clock, 'a');
    lemma_without_spaces_suffix(clock, 'p');
    let a = c + seq!['a', 'm'];
    let p = c + seq!['p', 'm'];
    assert(a.take(a.len() - 2) =~= c);
    assert(p.take(p.len() - 2) =~= c);
    assert(a[a.len() - 2] == 'a' && a[a.len() - 1] == 'm');
    assert(p[p.len() - 2] == 'p' && p[p.len() - 1] == 'm');
    assert(strip_meridiem(a) == (c, Some(false)));
    assert(strip_meridiem(p) == (c, Some(true)));
}

/// The first row with the offset of row `j`.
proof fn lemma_group_opener(rows: Seq<Row>, j: int) -> (f: int)
    requires
        0 <= j < rows.len(),
    ensures
        0 <= f <= j,
        opens_group(rows, f),
        rows[f].at.offset_seconds == rows[j].at.offset_seconds,
    decreases j,
{
    if opens_group(rows, j) {
        j
    } else {
        let i = choose|i: int|
            0 <= i < j && (#[trigger] rows[i]).at.offset_seconds == rows[j].at.offset_seconds;
        lemma_group_opener(rows, i)
    }
}

/// Places that share an offset share a marker: every row is on exactly one
/// marker of the dial, the one of its offset.
pub proof fn law_each_row_on_one_mark(rows: Seq<Row>, marks: Seq<Mark>)
    requires
        rows.len() <= usize::MAX,
        is_marking(rows, marks),
    ensures
        forall|j: int|
            #![trigger rows[j]]
            0 <= j < rows.len() ==> exists|m: int|
                0 <= m < marks.len() && (#[trigger] marks[m]).rows@.contains(j as usize)
                    && marks[m].offset == rows[j].at.offset_seconds,
        forall|j: usize, m1: int, m2: int|
            #![trigger marks[m1].rows@.contains(j), marks[m2].rows@.contains(j)]
            0 <= m1 < marks.len() && 0 <= m2 < marks.len() && marks[m1].rows@.contains(j)
                && marks[m2].rows@.contains(j) ==> m1 == m2,
{
    assert forall|j: int| #![trigger rows[j]] 0 <= j < rows.len() implies exists|m: int|
        0 <= m < marks.len() && (#[trigger] marks[m]).rows@.contains(j as usize)
            && marks[m].offset == rows[j].at.offset_seconds by {
        let f = lemma_group_opener(rows, j);
        let m = choose|m: int| 0 <= m < marks.len() && (#[trigger] marks[m]).first == f;
        let o = marks[m].offset;
        lemma_rows_with_offset_bounds(rows, o);
        let t = choose|t: int|
            0 <= t < rows_with_offset(rows, o).len() && #[trigger] rows_with_offset(rows, o)[t]
                == j;
        assert(marks[m].rows@[t] == j as usize);
    }
    assert forall|j: usize, m1: int, m2: int|
        #![trigger marks[m1].rows@.contains(j), marks[m2].rows@.contains(j)]
        0 <= m1 < marks.len() && 0 <= m2 < marks.len() && marks[m1].rows@.contains(j)
            && marks[m2].rows@.contains(j) implies m1 == m2 by {
        let a = marks[m1];
        let b = marks[m2];
        lemma_rows_with_offset_bounds(rows, a.offset);
        lemma_rows_with_offset_bounds(rows, b.offset);
        let ta = choose|t: int| 0 <= t < a.rows@.len() && a.rows@[t] == j;
        let tb = choose|t: int| 0 <= t < b.rows@.len() && b.rows@[t] == j;
        assert(rows_with_offset(rows, a.offset)[ta] == j);
        assert(rows_with_offset(rows, b.offset)[tb] == j);
        assert(a.offset == b.offset);
        if a.first < b.first {
            assert(rows[a.first as int].at.offset_seconds == rows[b.first as int].at.offset_seconds);
        } else if b.first < a.first {
            assert(rows[a.first as int].at.offset_seconds == rows[b.first as int].at.offset_seconds);
        }
        if m1 < m2 {
            assert(a.first < b.first);
        } else if m2 < m1 {
            assert(b.first < a.first);
        }
    }
}

/// Every entry of a places list is a real entry: not empty and not a `#`
/// comment.
pub proof fn law_entries_are_not_comments(text: Seq<char>)
    ensures
        forall|i: int| 0 <= i < entries(text).len() ==> is_entry(#[trigger] entries(text)[i]),
{
    lemma_kept_entries(crate::places::pieces(text));
}

proof fn lemma_kept_entries(ps: Seq<Seq<char>>)
    ensures
        forall|i: int| 0 <= i < kept(ps).len() ==> is_entry(#[trigger] kept(ps)[i]),
    decreases ps.len(),
{
    if ps.len() > 0 {
        lemma_kept_entries(ps.drop_last());
        let rest = kept(ps.drop_last());
        assert forall|i: int| 0 <= i < kept(ps).len() implies is_entry(#[trigger] kept(ps)[i]) by {
            if i < rest.len() {
                assert(kept(ps)[i] == rest[i]);
            }
        }
    }
}

/// An entry without a label is labelled with its zone name.
pub proof fn law_label_defaults_to_zone(text: Seq<char>, i: int)
    requires
        0 <= i < entries(text).len(),
        find_white(entries(text)[i]) is None,
    ensures
        entry_label(entries(text)[i]) == entry_zone(entries(text)[i]),
{
    let e = entries(text)[i];
    lemma_find_white(e);
    if e.len() > 0 {
        assert(!is_white_space(e[0]));
        assert(trim_start(e) == e);
        assert(!is_white_space(e.last()));
        assert(trim_end(e) == e);
    }
    assert(trim(e) == e);
}

/// A places text with every `;` written as a newline.
pub open spec fn semicolons_as_newlines(text: Seq<char>) -> Seq<char> {
    text.map_values(|c: char| if c == ';' { '\n' } else { c })
}

proof fn lemma_pieces_of_newlines(s: Seq<char>)
    ensures
        pieces(semicolons_as_newlines(s)) == pieces(s),
    decreases s.len(),
{
    let t = semicolons_as_newlines(s);
    if s.len() > 0 {
        lemma_pieces_of_newlines(s.drop_last());
        assert(t.drop_last() =~= semicolons_as_newlines(s.drop_last()));
        assert(is_separator(t.last()) == is_separator(s.last()));
        assert(!is_separator(s.last()) ==> t.last() == s.last());
    }
}

/// `;` and a newline part entries alike: writing every `;` of a places text
/// as a newline leaves its entries, and so what parsing it gives, as they
/// are.
pub proof fn law_semicolon_is_newline(text: Seq<char>, res: Result<Vec<Place>, Error>)
    ensures
        entries(semicolons_as_newlines(text)) == entries(text),
        parsed_places(semicolons_as_newlines(text), res) == parsed_places(text, res),
{
    lemma_pieces_of_newlines(text);
    assert(entries(semicolons_as_newlines(text)) == entries(text));
}

proof fn lemma_pieces_concat(a: Seq<char>, b: Seq<char>)
    ensures
        pieces(a + seq!['\n'] + b) == pieces(a) + pieces(b),
    decreases b.len(),
{
    let x = a + seq!['\n'] + b;
    lemma_pieces_len(a);
    if b.len() == 0 {
        assert(x =~= a.push('\n'));
        assert(x.drop_last() =~= a);
        assert(pieces(b) =~= seq![Seq::<char>::empty()]);
        assert(pieces(a) + pieces(b) =~= pieces(a).push(Seq::empty()));
    } else {
        lemma_pieces_concat(a, b.drop_last());
        lemma_pieces_len(b.drop_last());
        assert(x.drop_last() =~= a + seq!['\n'] + b.drop_last());
        assert(x.last() == b.last());
        let pa = pieces(a);
        let pb = pieces(b.drop_last());
        if is_separator(b.last()) {
            assert((pa + pb).push(Seq::empty()) =~= pa + pb.push(Seq::empty()));
        } else {
            let c = b.last();
            assert((pa + pb).last() == pb.last());
            assert((pa + pb).update((pa + pb).len() - 1, pb.last().push(c)) =~= pa + pb.update(
                pb.len() - 1,
                pb.last().push(c),
            ));
        }
    }
}

proof fn lemma_kept_concat(ps: Seq<Seq<char>>, qs: Seq<Seq<char>>)
    ensures
        kept(ps + qs) == kept(ps) + kept(qs),
    decreases qs.len(),
{
    if qs.len() == 0 {
        assert(ps + qs =~= ps);
        assert(kept(ps) + kept(qs) =~= kept(ps));
    } else {
        lemma_kept_concat(ps, qs.drop_last());
        assert((ps + qs).drop_last() =~= ps + qs.drop_last());
        assert((ps + qs).last() == qs.last());
        let k = kept(ps) + kept(qs.drop_last());
        assert(k.push(trim(qs.last())) =~= kept(ps) + kept(qs.drop_last()).push(trim(qs.last())));
    }
}

/// Two places texts joined by a newline hold the entries of the first,
/// then those of the second.
pub proof fn law_texts_concatenate(a: Seq<char>, b: Seq<char>)
    ensures
        entries(a + seq!['\n'] + b) == entries(a) + entries(b),
{
    lemma_pieces_concat(a, b);
    lemma_kept_concat(pieces(a), pieces(b));
}

proof fn lemma_trim_start_shape(s: Seq<char>)
    ensures
        trim_start(s).len() == 0 || !is_white_space(trim_start(s)[0]),
    decreases s.len(),
{
    if s.len() > 0 && is_white_space(s[0]) {
        lemma_trim_start_shape(s.drop_first());
    }
}

proof fn lemma_trim_end_shape(s: Seq<char>)
    ensures
        trim_end(s).len() <= s.len(),
        trim_end(s) == s.take(trim_end(s).len() as int),
        trim_end(s).len() == 0 || !is_white_space(trim_end(s).last()),
    decreases s.len(),
{
    if s.len() > 0 && is_white_space(s.last()) {
        lemma_trim_end_shape(s.drop_last());
        let n = trim_end(s).len() as int;
        assert(s.drop_last().take(n) =~= s.take(n));
    } else {
        assert(s.take(s.len() as int) =~= s);
    }
}

proof fn lemma_trim_twice(s: Seq<char>)
    ensures
        trim(trim(s)) == trim(s),
{
    let x = trim_start(s);
    let t = trim_end(x);
    lemma_trim_start_shape(s);
    lemma_trim_end_shape(x);
    if t.len() > 0 {
        assert(t[0] == x[0]);
        assert(trim_start(t) == t);
        assert(trim_end(t) == t);
    } else {
        assert(trim_start(t) == t);
        assert(trim_end(t) == t);
    }
}

/// A form value of nothing but whitespace counts as absent, as a field left
/// out does.
pub proof fn law_blank_is_absent(value: Seq<char>)
    requires
        trim(value).len() == 0,
    ensures
        form_value(Some(value)) == form_value(None),
{
}

/// A form value counts as its trimmed text: `" Tokyo "` as `"Tokyo"`.
pub proof fn law_value_is_trimmed(value: Seq<char>)
    ensures
        form_value(Some(value)) == form_value(Some(trim(value))),
{
    lemma_trim_twice(value);
}

/// The bands of the day: office hours from 09:00 up to 17:00, awake from
/// 07:00 up to 09:00 and from 17:00 up to 22:00, night from 22:00 up to
/// 07:00.
pub proof fn law_bands_of_the_day(hour: int)
    requires
        0 <= hour < 24,
    ensures
        9 <= hour < 17 ==> band_of_hour(hour) == Band::Work,
        (7 <= hour < 9 || 17 <= hour < 22) ==> band_of_hour(hour) == Band::Awake,
        (hour < 7 || 22 <= hour) ==> band_of_hour(hour) == Band::Night,
{
}

/// Whether two chars are the same, or the same ASCII letter in its two cases.
pub open spec fn same_but_ascii_case(c: char, d: char) -> bool {
    ||| c == d
    ||| 'A' <= c <= 'Z' && d as int == c as int + 32
    ||| 'A' <= d <= 'Z' && c as int == d as int + 32
}

/// Label matching ignores the case of ASCII letters and nothing else: two
/// texts match exactly when they have the same length and each pair of chars
/// is the same char, or an ASCII letter in upper and in lower case.
pub proof fn law_labels_ignore_ascii_case(a: Seq<char>, b: Seq<char>)
    ensures
        eq_ignore_ascii_case(a, b) <==> (a.len() == b.len() && forall|i: int|
            0 <= i < a.len() ==> same_but_ascii_case(#[trigger] a[i], b[i])),
{
    if eq_ignore_ascii_case(a, b) {
        assert forall|i: int| 0 <= i < a.len() implies same_but_ascii_case(#[trigger] a[i], b[i]) by {
            assert(ascii_fold(a[i]) == ascii_fold(b[i]));
        }
    }
    if a.len() == b.len() && forall|i: int| 0 <= i < a.len() ==> same_but_ascii_case(#[trigger] a[i], b[i]) {
        assert forall|i: int| 0 <= i < a.len() implies ascii_fold(a[i]) == ascii_fold(b[i]) by {
            assert(same_but_ascii_case(a[i], b[i]));
        }
    }
}

/// A place keeps a zone's time when any of the places does, wherever it
/// stands in the list.
pub proof fn law_any_place_keeps(places: Seq<Place>, zone: Zone, k: int)
    requires
        0 <= k < places.len(),
        same_tz(places[k].zone, zone),
    ensures
        keeps(places, zone),
{
}

/// A conversion leads with a row for the source zone exactly when no place,
/// at any position, keeps the source zone: with such a place there is one
/// row per place and nothing more; without one, a leading source row comes
/// first, labelled as typed.
pub proof fn law_lead_row_only_without_a_source_place(
    query: Query,
    places: Seq<Place>,
    rows: Seq<Row>,
    source: Zone,
    at: Moment,
    now: Moment,
)
    requires
        converted(query, places, rows, source, at, now),
    ensures
        (exists|k: int| 0 <= k < places.len() && same_tz(#[trigger] places[k].zone, source))
            ==> rows.len() == places.len(),
        (forall|k: int| 0 <= k < places.len() ==> !same_tz(#[trigger] places[k].zone, source))
            ==> rows.len() == places.len() + 1 && rows[0].is_source && rows[0].label@
            == source_label(query),
{
    reveal(converted);
}

/// A dial marker stands for the source zone whenever any row it lists keeps
/// the source zone, wherever that row stands among its rows.
pub proof fn law_source_mark_from_any_row(rows: Seq<Row>, marks: Seq<Mark>, m: int, t: int)
    requires
        is_marking(rows, marks),
        0 <= m < marks.len(),
        0 <= t < marks[m].rows@.len(),
        rows[marks[m].rows@[t] as int].is_source,
    ensures
        marks[m].is_source,
{
    assert(is_mark_of(rows, marks[m]));
}

/// What is not typed falls back to now in the source zone, each field on its
/// own: with no time typed the time is now's, whatever the date field holds,
/// and with no date typed the date is now's, whatever the time field holds.
pub proof fn law_missing_fields_are_now(query: Query, now: Moment)
    ensures
        query.time is None ==> chosen_time(query, now) == now.time,
        query.date is None ==> chosen_date(query, now) == now.date,
{
}

/// Every row of a conversion reads one instant, and the day shifts of two
/// rows differ by the days between their dates; a row of the source zone is
/// on the source date.
pub proof fn law_rows_read_one_instant(
    query: Query,
    places: Seq<Place>,
    rows: Seq<Row>,
    source: Zone,
    at: Moment,
    now: Moment,
    i: int,
    j: int,
)
    requires
        converted(query, places, rows, source, at, now),
        0 <= i < rows.len(),
        0 <= j < rows.len(),
    ensures
        instant_of(rows[i].at) == instant_of(rows[j].at),
        rows[i].day_shift - rows[j].day_shift == days_from_civil(rows[i].at.date)
            - days_from_civil(rows[j].at.date),
        rows[i].is_source ==> rows[i].day_shift == 0,
{
    reveal(converted);
    assert(crate::convert::reads_source(rows[i], at));
    assert(crate::convert::reads_source(rows[j], at));
}

/// The widest label is as long as the longest label: no label is longer,
/// and one label is that long where there is any.
pub proof fn law_widest_label(rows: Seq<Row>)
    ensures
        forall|j: int| 0 <= j < rows.len() ==> (#[trigger] rows[j]).label@.len() <= widest_label(rows),
        rows.len() > 0 ==> exists|j: int|
            0 <= j < rows.len() && (#[trigger] rows[j]).label@.len() == widest_label(rows),
        rows.len() == 0 ==> widest_label(rows) == 0,
    decreases rows.len(),
{
    if rows.len() > 0 {
        let front = rows.drop_last();
        law_widest_label(front);
        assert forall|j: int| 0 <= j < rows.len() implies (#[trigger] rows[j]).label@.len()
            <= widest_label(rows) by {
            if j < rows.len() - 1 {
                assert(rows[j] == front[j]);
            }
        }
        if rows.last().label@.len() > widest_label(front) {
            assert(rows[rows.len() - 1].label@.len() == widest_label(rows));
        } else if front.len() > 0 {
            let k = choose|k: int| 0 <= k < front.len() && (#[trigger] front[k]).label@.len()
                == widest_label(front);
            assert(rows[k] == front[k]);
        } else {
            assert(rows[0].label@.len() == widest_label(rows));
        }
    }
}

proof fn lemma_rows_with_offset_increasing(rows: Seq<Row>, offset: i32)
    requires
        rows.len() <= usize::MAX,
    ensures
        forall|s: int, t: int|
            0 <= s < t < rows_with_offset(rows, offset).len() ==> (#[trigger] rows_with_offset(
                rows,
                offset,
            )[s]) < (#[trigger] rows_with_offset(rows, offset)[t]),
        forall|t: int|
            0 <= t < rows_with_offset(rows, offset).len() ==> (#[trigger] rows_with_offset(
                rows,
                offset,
            )[t]) < rows.len(),
    decreases rows.len(),
{
    if rows.len() > 0 {
        let front = rows.drop_last();
        lemma_rows_with_offset_increasing(front, offset);
        let r = rows_with_offset(front, offset);
        if rows.last().at.offset_seconds == offset {
            assert(rows_with_offset(rows, offset) == r.push((rows.len() - 1) as usize));
        } else {
            assert(rows_with_offset(rows, offset) == r);
        }
    }
}

/// A dial marker lists exactly the rows that keep its offset, each once and
/// in the order of the rows, and its first row is the first of them.
pub proof fn law_mark_lists_its_offset(rows: Seq<Row>, marks: Seq<Mark>, m: int)
    requires
        is_marking(rows, marks),
        0 <= m < marks.len(),
        rows.len() <= usize::MAX,
    ensures
        forall|t: int|
            0 <= t < marks[m].rows@.len() ==> {
                &&& (#[trigger] marks[m].rows@[t]) < rows.len()
                &&& rows[marks[m].rows@[t] as int].at.offset_seconds == marks[m].offset
            },
        forall|j: int|
            0 <= j < rows.len() && rows[j].at.offset_seconds == marks[m].offset ==> exists|t: int|
                0 <= t < marks[m].rows@.len() && #[trigger] marks[m].rows@[t] == j,
        forall|s: int, t: int|
            0 <= s < t < marks[m].rows@.len() ==> (#[trigger] marks[m].rows@[s])
                < (#[trigger] marks[m].rows@[t]),
        rows[marks[m].first as int].at.offset_seconds == marks[m].offset,
        forall|j: int| 0 <= j < marks[m].first ==> (#[trigger] rows[j]).at.offset_seconds
            != marks[m].offset,
{
    assert(is_mark_of(rows, marks[m]));
    crate::view::lemma_rows_with_offset_bounds(rows, marks[m].offset);
    lemma_rows_with_offset_increasing(rows, marks[m].offset);
}

} // verus!
