use jiff::civil;
use zoners::{parse_clock, parse_date, parse_offset, parse_offset_upper, parse_time, CivilDate, CivilTime, Error};

fn to_time(t: CivilTime) -> civil::Time {
    civil::time(t.hour, t.minute, t.second, t.subsec_nanosecond)
}

fn to_date(d: CivilDate) -> civil::Date {
    civil::date(d.year, d.month, d.day)
}

#[test]
fn times() {
    let t = |s| to_time(parse_time(s).unwrap());
    assert_eq!(t("8.30pm"), civil::time(20, 30, 0, 0));
    assert_eq!(t("8:30 PM"), civil::time(20, 30, 0, 0));
    assert_eq!(t("8pm"), civil::time(20, 0, 0, 0));
    assert_eq!(t("12am"), civil::time(0, 0, 0, 0));
    assert_eq!(t("12pm"), civil::time(12, 0, 0, 0));
    assert_eq!(t("20:30"), civil::time(20, 30, 0, 0));
    for bad in ["13pm", "0am", "25:00", "8:60", "soon"] {
        assert!(parse_time(bad).is_err(), "{bad}");
    }
}

#[test]
fn dates() {
    assert_eq!(to_date(parse_date("2026-09-22").unwrap()), civil::date(2026, 9, 22));
    for bad in ["22/09/2026", "2026-13-01", "tomorrow"] {
        assert!(parse_date(bad).is_err(), "{bad}");
    }
}

#[test]
fn offsets() {
    let secs = |s| parse_offset(s).unwrap();
    assert_eq!(secs("GMT+4"), 4 * 3600); // east of Greenwich, not POSIX-inverted
    assert_eq!(secs("utc+5:30"), 5 * 3600 + 1800);
    assert_eq!(secs("-04:00"), -4 * 3600);
    assert_eq!(secs("UTC"), 0);
    assert!(parse_offset("Asia/Kolkata").is_none());
    assert!(parse_offset("GMT+99").is_none());
}

#[test]
fn time_errors_keep_the_input() {
    match parse_time("8:60") {
        Err(Error::Time(input)) => assert_eq!(input, "8:60"),
        other => panic!("unexpected {other:?}"),
    }
    match parse_date("soon") {
        Err(Error::Date(input)) => assert_eq!(input, "soon"),
        other => panic!("unexpected {other:?}"),
    }
}

#[test]
fn clock_forms() {
    let hm = |s: &str| parse_clock(s).map(|t| (t.hour, t.minute));
    assert_eq!(hm("8.30"), Some((8, 30)));
    assert_eq!(hm("08:05"), Some((8, 5)));
    assert_eq!(hm("0"), Some((0, 0)));
    assert_eq!(hm("11 : 59 pm"), Some((23, 59)));
    assert_eq!(hm("12:15am"), Some((0, 15)));
    assert_eq!(hm("+7"), Some((7, 0)));
    assert_eq!(hm("7:-5"), None);
    assert_eq!(hm("am"), None);
    assert_eq!(hm("8:30:00"), None);
    assert_eq!(hm("128"), None);
    assert_eq!(hm("8PM"), None, "uppercase is read by parse_time only");
    assert_eq!(to_time(parse_time("8PM").unwrap()), civil::time(20, 0, 0, 0));
}

#[test]
fn offset_forms() {
    assert_eq!(parse_offset_upper("GMT"), Some(0));
    assert_eq!(parse_offset_upper("GMT-0:30"), Some(-1800));
    assert_eq!(parse_offset_upper("+25:59"), Some(25 * 3600 + 59 * 60));
    assert_eq!(parse_offset_upper("+26"), None);
    assert_eq!(parse_offset_upper(""), None);
    assert_eq!(parse_offset_upper("GMT4"), None);
    assert_eq!(parse_offset_upper("gmt+4"), None, "lowercase is read by parse_offset only");
    assert_eq!(parse_offset("gmt-3"), Some(-3 * 3600));
    assert_eq!(parse_offset("+1:-30"), Some(1800));
    assert_eq!(parse_offset("GMT+99999999999"), None);
}

#[test]
fn spaces_in_a_clock_are_ignored() {
    let hm = |s: &str| parse_clock(s).map(|t| (t.hour, t.minute));
    assert_eq!(hm("8:30 pm"), hm("8:30pm"));
    assert_eq!(hm(" 2 0 : 3 0 "), Some((20, 30)));
    assert_eq!(hm("25 :00"), None);
}
