//! The configured places and how they are written.
use vstd::prelude::*;
use crate::error::Error;
use crate::text::{chars_of, is_white_space, is_whitespace, substring, trim, trim_range, trim_str};
use crate::zone::{Zone, ZoneName, is_named, lookup_zone, utc_zone};
use jiff::Error as JiffError;

verus! {

/// A configured zone and the label it is shown under.
#[derive(Clone, Debug)]
pub struct Place {
    /// Zone the place keeps time in.
    pub zone: Zone,
    /// Name shown to the user, also accepted as a source zone.
    pub label: String,
}

/// One entry of a places list: its text, the zone name it starts with and
/// the label that follows.
#[derive(Clone, Debug)]
pub struct Entry {
    /// The whole entry, trimmed.
    pub text: String,
    /// The IANA zone name: the entry up to its first whitespace.
    pub zone: String,
    /// The label: the rest of the entry, or the zone name where there is none.
    pub label: String,
}

/// Whether `c` ends an entry: a newline or a `;`.
pub open spec fn is_separator(c: char) -> bool {
    c == '\n' || c == ';'
}

/// The pieces of `s` between separators, as `str::split` cuts them: one
/// more than there are separators, empty ones included.
pub open spec fn pieces(s: Seq<char>) -> Seq<Seq<char>>
    decreases s.len(),
{
    if s.len() == 0 {
        seq![Seq::empty()]
    } else {
        let p = pieces(s.drop_last());
        if is_separator(s.last()) {
            p.push(Seq::empty())
        } else {
            p.update(p.len() - 1, p.last().push(s.last()))
        }
    }
}

/// Whether a trimmed piece is an entry: neither empty nor a `#` comment.
pub open spec fn is_entry(t: Seq<char>) -> bool {
    t.len() > 0 && t[0] != '#'
}

/// The trimmed pieces that are entries, in order.
pub open spec fn kept(ps: Seq<Seq<char>>) -> Seq<Seq<char>>
    decreases ps.len(),
{
    if ps.len() == 0 {
        Seq::empty()
    } else {
        let rest = kept(ps.drop_last());
        let t = trim(ps.last());
        if is_entry(t) {
            rest.push(t)
        } else {
            rest
        }
    }
}

/// The entries of a places text: its pieces, trimmed, without the empty
/// ones and the comments.
pub open spec fn entries(text: Seq<char>) -> Seq<Seq<char>> {
    kept(pieces(text))
}

/// The index of the first whitespace char of `s`.
pub open spec fn find_white(s: Seq<char>) -> Option<int>
    decreases s.len(),
{
    if s.len() == 0 {
        None
    } else if is_white_space(s[0]) {
        Some(0)
    } else {
        match find_white(s.drop_first()) {
            Some(i) => Some(i + 1),
            None => None,
        }
    }
}

/// The zone name of an entry: the text up to its first whitespace.
pub open spec fn entry_zone(e: Seq<char>) -> Seq<char> {
    match find_white(e) {
        Some(i) => e.take(i),
        None => e,
    }
}

/// The label of an entry: the trimmed text after its first whitespace, or
/// the whole entry where it has none.
pub open spec fn entry_label(e: Seq<char>) -> Seq<char> {
    match find_white(e) {
        Some(i) => trim(e.skip(i + 1)),
        None => trim(e),
    }
}

/// Every piece of a text has a place in `pieces`.
pub proof fn lemma_pieces_len(s: Seq<char>)
    ensures
        pieces(s).len() >= 1,
    decreases s.len(),
{
    if s.len() > 0 {
        lemma_pieces_len(s.drop_last());
    }
}

/// What `find_white` finds: the first whitespace, or none at all.
pub proof fn lemma_find_white(s: Seq<char>)
    ensures
        match find_white(s) {
            Some(i) => 0 <= i < s.len() && is_white_space(s[i]) && forall|j: int|
                0 <= j < i ==> !is_white_space(s[j]),
            None => forall|j: int| 0 <= j < s.len() ==> !is_white_space(#[trigger] s[j]),
        },
    decreases s.len(),
{
    if s.len() > 0 {
        let t = s.drop_first();
        lemma_find_white(t);
        if !is_white_space(s[0]) {
            match find_white(t) {
                Some(i) => {
                    assert forall|j: int| 0 <= j < i + 1 implies !is_white_space(s[j]) by {
                        if j > 0 {
                            assert(s[j] == t[j - 1]);
                        }
                    }
                },
                None => {
                    assert forall|j: int| 0 <= j < s.len() implies !is_white_space(s[j]) by {
                        if j > 0 {
                            assert(s[j] == t[j - 1]);
                        }
                    }
                },
            }
        }
    }
}

/// The index in `s[lo..hi]`, counted from `lo`, of its first whitespace.
#[verifier::loop_isolation(false)]
fn find_white_in(s: &Vec<char>, lo: usize, hi: usize) -> (r: Option<usize>)
    requires
        lo <= hi <= s@.len(),
    ensures
        match r {
            Some(i) => i < hi - lo && find_white(s@.subrange(lo as int, hi as int)) == Some(i as int),
            None => find_white(s@.subrange(lo as int, hi as int)) is None,
        },
{
    let ghost t = s@.subrange(lo as int, hi as int);
    let mut i = lo;
    while i < hi
        invariant
            lo <= i <= hi,
            forall|j: int| 0 <= j < i - lo ==> !is_white_space(t[j]),
        decreases hi - i,
    {
        assert(t[i - lo] == s@[i as int]);
        if is_whitespace(s[i]) {
            proof {
                lemma_find_white(t);
                match find_white(t) {
                    Some(k) => {
                        if k < i - lo {
                            assert(!is_white_space(t[k]));
                        }
                        if k > i - lo {
                            assert(!is_white_space(t[i - lo]));
                        }
                    },
                    None => {
                        assert(!is_white_space(t[i - lo]));
                    },
                }
            }
            return Some(i - lo);
        }
        i += 1;
    }
    proof {
        lemma_find_white(t);
        match find_white(t) {
            Some(k) => {
                assert(!is_white_space(t[k]));
            },
            None => {},
        }
    }
    None
}

/// The bounds of the pieces of `s`, as `pieces` cuts them.
fn piece_bounds(s: &Vec<char>) -> (r: Vec<(usize, usize)>)
    ensures
        r@.len() == pieces(s@).len(),
        forall|j: int|
            #![trigger r@[j]]
            0 <= j < r@.len() ==> {
                &&& r@[j].0 <= r@[j].1 <= s@.len()
                &&& pieces(s@)[j] == s@.subrange(r@[j].0 as int, r@[j].1 as int)
            },
{
    let mut bounds: Vec<(usize, usize)> = Vec::new();
    let mut start: usize = 0;
    let mut i: usize = 0;
    proof {
        assert(s@.take(0) =~= Seq::<char>::empty());
        assert(s@.subrange(0, 0) =~= Seq::<char>::empty());
    }
    while i < s.len()
        invariant
            start <= i <= s@.len(),
            bounds@.len() + 1 == pieces(s@.take(i as int)).len(),
            forall|j: int|
                #![trigger bounds@[j]]
                0 <= j < bounds@.len() ==> {
                    &&& bounds@[j].0 <= bounds@[j].1 <= s@.len()
                    &&& pieces(s@.take(i as int))[j] == s@.subrange(
                        bounds@[j].0 as int,
                        bounds@[j].1 as int,
                    )
                },
            pieces(s@.take(i as int)).last() == s@.subrange(start as int, i as int),
        decreases s.len() - i,
    {
        let ghost before = pieces(s@.take(i as int));
        let ghost old_bounds = bounds@;
        let ghost next = s@.take(i + 1);
        proof {
            assert(next.drop_last() =~= s@.take(i as int));
            assert(next.last() == s@[i as int]);
            lemma_pieces_len(s@.take(i as int));
        }
        if s[i] == '\n' || s[i] == ';' {
            bounds.push((start, i));
            start = i + 1;
            proof {
                assert(pieces(next) == before.push(Seq::empty()));
                assert(s@.subrange(start as int, i + 1) =~= Seq::<char>::empty());
                assert forall|j: int| #![trigger bounds@[j]] 0 <= j < bounds@.len() implies {
                    &&& bounds@[j].0 <= bounds@[j].1 <= s@.len()
                    &&& pieces(next)[j] == s@.subrange(bounds@[j].0 as int, bounds@[j].1 as int)
                } by {
                    if j < old_bounds.len() {
                        assert(bounds@[j] == old_bounds[j]);
                        assert(pieces(next)[j] == before[j]);
                    } else {
                        assert(pieces(next)[j] == before.last());
                    }
                }
            }
        } else {
            proof {
                assert(pieces(next) == before.update(before.len() - 1, before.last().push(s@[i as int])));
                assert(s@.subrange(start as int, i + 1) =~= s@.subrange(start as int, i as int).push(s@[i as int]));
                assert forall|j: int| #![trigger bounds@[j]] 0 <= j < bounds@.len() implies {
                    &&& bounds@[j].0 <= bounds@[j].1 <= s@.len()
                    &&& pieces(next)[j] == s@.subrange(bounds@[j].0 as int, bounds@[j].1 as int)
                } by {
                    assert(pieces(next)[j] == before[j]);
                }
            }
        }
        i += 1;
    }
    proof {
        assert(s@.take(s@.len() as int) =~= s@);
        lemma_pieces_len(s@);
    }
    let ghost old_bounds = bounds@;
    bounds.push((start, s.len()));
    proof {
        assert forall|j: int| #![trigger bounds@[j]] 0 <= j < bounds@.len() implies {
            &&& bounds@[j].0 <= bounds@[j].1 <= s@.len()
            &&& pieces(s@)[j] == s@.subrange(bounds@[j].0 as int, bounds@[j].1 as int)
        } by {
            if j < old_bounds.len() {
                assert(bounds@[j] == old_bounds[j]);
            }
        }
    }
    bounds
}

/// Splits a places text into its entries: one per line or per `;`, trimmed,
/// without empty ones and `#` comments. Each entry is `<IANA zone> <label>`,
/// where the label is the rest of the entry and defaults to the zone name.
pub fn place_entries(text: &str) -> (res: Vec<Entry>)
    ensures
        res@.len() == entries(text@).len(),
        forall|i: int|
            0 <= i < res@.len() ==> {
                &&& (#[trigger] res@[i]).text@ == entries(text@)[i]
                &&& res@[i].zone@ == entry_zone(entries(text@)[i])
                &&& res@[i].label@ == entry_label(entries(text@)[i])
            },
{
    let s = chars_of(text);
    let bounds = piece_bounds(&s);
    let ghost ps = pieces(s@);
    let mut out: Vec<Entry> = Vec::new();
    let mut j: usize = 0;
    while j < bounds.len()
        invariant
            j <= bounds@.len(),
            s@ == text@,
            ps == pieces(s@),
            bounds@.len() == ps.len(),
            forall|k: int|
                #![trigger bounds@[k]]
                0 <= k < bounds@.len() ==> {
                    &&& bounds@[k].0 <= bounds@[k].1 <= s@.len()
                    &&& ps[k] == s@.subrange(bounds@[k].0 as int, bounds@[k].1 as int)
                },
            out@.len() == kept(ps.take(j as int)).len(),
            forall|i: int|
                0 <= i < out@.len() ==> {
                    &&& (#[trigger] out@[i]).text@ == kept(ps.take(j as int))[i]
                    &&& out@[i].zone@ == entry_zone(kept(ps.take(j as int))[i])
                    &&& out@[i].label@ == entry_label(kept(ps.take(j as int))[i])
                },
        decreases bounds@.len() - j,
    {
        let (lo, hi) = bounds[j];
        assert(lo <= hi <= s@.len() && ps[j as int] == s@.subrange(lo as int, hi as int));
        let (a, b) = trim_range(&s, lo, hi);
        let ghost t = s@.subrange(a as int, b as int);
        proof {
            assert(ps.take(j + 1).drop_last() =~= ps.take(j as int));
            assert(ps.take(j + 1).last() == ps[j as int]);
            assert(t == trim(ps[j as int]));
        }
        if a < b && s[a] != '#' {
            let entry = substring(text, a, b);
            let (zone, label) = match find_white_in(&s, a, b) {
                Some(k) => {
                    let (la, lb) = trim_range(&s, a + k + 1, b);
                    proof {
                        assert(t.take(k as int) =~= s@.subrange(a as int, a + k));
                        assert(t.skip(k + 1) =~= s@.subrange(a + k + 1, b as int));
                    }
                    (substring(text, a, a + k), substring(text, la, lb))
                },
                None => {
                    let (la, lb) = trim_range(&s, a, b);
                    (substring(text, a, b), substring(text, la, lb))
                },
            };
            out.push(Entry { text: entry, zone, label });
        }
        j += 1;
    }
    proof {
        assert(ps.take(ps.len() as int) =~= ps);
    }
    out
}

/// What parsing a places text gives: one place per entry, in order, under
/// the entry's label; or, where the zone of an entry is not found, an error
/// that names the entry.
pub open spec fn parsed_places(text: Seq<char>, res: Result<Vec<Place>, Error>) -> bool {
    match res {
        Ok(places) => {
            &&& places@.len() == entries(text).len()
            &&& forall|i: int|
                0 <= i < places@.len() ==> {
                    &&& (#[trigger] places@[i]).label@ == entry_label(entries(text)[i])
                    &&& is_named(places@[i].zone, entry_zone(entries(text)[i]))
                }
        },
        Err(Error::Place(entry, _)) => exists|i: int|
            0 <= i < entries(text).len() && entry@ == #[trigger] entries(text)[i],
        Err(_) => false,
    }
}

/// The places text that the environment variable gives, where it holds more
/// than whitespace.
pub open spec fn env_text(from_env: Option<&str>) -> Option<Seq<char>> {
    match from_env {
        Some(v) => if trim(v@).len() > 0 {
            Some(v@)
        } else {
            None
        },
        None => None,
    }
}

/// Loads the configured places from what the `ZONERS_ZONES` environment
/// variable and the config file hold.
///
/// The variable wins where it holds more than whitespace, then the file.
/// With neither, UTC is the only place.
///
/// # Errors
///
/// Returns [Error::Place] if an entry does not start with an IANA zone.
pub fn load_places(from_env: Option<&str>, from_file: Option<&str>) -> (res: Result<Vec<Place>, Error>)
    ensures
        match env_text(from_env) {
            Some(text) => parsed_places(text, res),
            None => match from_file {
                Some(text) => parsed_places(text@, res),
                None => res matches Ok(places) && places@.len() == 1 && places@[0].label@ == "UTC"@
                    && places@[0].zone.tag() == ZoneName::Utc,
            },
        },
{
    if let Some(text) = from_env {
        let trimmed = trim_str(text);
        if trimmed.as_str().unicode_len() > 0 {
            return parse_places(text);
        }
    }
    match from_file {
        Some(text) => parse_places(text),
        None => {
            let mut places: Vec<Place> = Vec::new();
            places.push(Place { zone: utc_zone(), label: String::from_str("UTC") });
            Ok(places)
        },
    }
}

/// Whether entry `j` is the first whose zone was not found, and `error`
/// names that entry and tells why.
pub open spec fn first_missing(
    found: Seq<Result<Zone, JiffError>>,
    entries: Seq<Entry>,
    j: int,
    error: Error,
) -> bool {
    &&& 0 <= j < found.len()
    &&& j < entries.len()
    &&& forall|k: int| 0 <= k < j ==> (#[trigger] found[k]) is Ok
    &&& error matches Error::Place(entry, cause) && entry@ == entries[j].text@ && found[j]
        == Err::<Zone, JiffError>(cause)
}

/// The places of a list of entries, given what looking up each entry's zone
/// found: one place per entry under its label, if every zone was found; else
/// the error of the first entry whose zone was not, naming that entry.
///
/// # Errors
///
/// Returns [Error::Place] for the first entry whose zone was not found.
#[verifier::loop_isolation(false)]
pub fn places_from(entries: &[Entry], mut found: Vec<Result<Zone, JiffError>>) -> (res: Result<
    Vec<Place>,
    Error,
>)
    requires
        found@.len() == entries@.len(),
    ensures
        match res {
            Ok(places) => {
                &&& forall|k: int| 0 <= k < found@.len() ==> found@[k] is Ok
                &&& places@.len() == entries@.len()
                &&& forall|k: int|
                    0 <= k < places@.len() ==> {
                        &&& (#[trigger] places@[k]).label@ == entries@[k].label@
                        &&& found@[k] == Ok::<Zone, JiffError>(places@[k].zone)
                    }
            },
            Err(e) => exists|j: int| #[trigger] first_missing(found@, entries@, j, e),
        },
{
    let ghost all = found@;
    let mut places: Vec<Place> = Vec::new();
    let mut i: usize = 0;
    while i < entries.len()
        invariant
            i <= entries@.len(),
            all.len() == entries@.len(),
            found@ == all.subrange(i as int, all.len() as int),
            places@.len() == i,
            forall|k: int| 0 <= k < i ==> all[k] is Ok,
            forall|k: int|
                0 <= k < i ==> {
                    &&& (#[trigger] places@[k]).label@ == entries@[k].label@
                    &&& all[k] == Ok::<Zone, JiffError>(places@[k].zone)
                },
        decreases entries@.len() - i,
    {
        let next = found.remove(0);
        assert(next == all[i as int]);
        match next {
            Ok(zone) => {
                places.push(Place { zone, label: entries[i].label.clone() });
            },
            Err(cause) => {
                let entry = entries[i].text.clone();
                let error = Error::Place(entry, cause);
                assert(error matches Error::Place(entry, cause) && entry@ == entries@[i as int].text@
                    && all[i as int] == Err::<Zone, JiffError>(cause));
                assert(first_missing(all, entries@, i as int, error));
                return Err(error);
            },
        }
        i += 1;
    }
    Ok(places)
}

/// Parses places written one per line or separated by `;`.
///
/// Each entry is `<IANA zone> <label>`, where the label is the rest of the
/// entry and defaults to the zone name. Entries starting with `#` are
/// comments.
///
/// # Errors
///
/// Returns [Error::Place] if an entry does not start with an IANA zone: the
/// first such entry.
pub fn parse_places(text: &str) -> (res: Result<Vec<Place>, Error>)
    ensures
        parsed_places(text@, res),
{
    let list = place_entries(text);
    let mut found: Vec<Result<Zone, JiffError>> = Vec::new();
    let mut i: usize = 0;
    while i < list.len()
        invariant
            i <= list@.len(),
            found@.len() == i,
            forall|k: int|
                0 <= k < i ==> ((#[trigger] found@[k]) matches Ok(zone) ==> is_named(
                    zone,
                    list@[k].zone@,
                )),
        decreases list@.len() - i,
    {
        found.push(lookup_zone(list[i].zone.as_str()));
        i += 1;
    }
    places_from(list.as_slice(), found)
}

} // verus!
