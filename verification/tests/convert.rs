use jiff::civil;
use zoners::{convert, parse_places, source_zone, Band, Error, Moment, Query, Row, ZoneName};

const EVENING: Query = Query {
    time: Some("20:30"),
    date: Some("2026-09-22"),
    zone: Some("GMT+4"),
};

fn strftime(at: &Moment, format: &str) -> String {
    civil::date(at.date.year, at.date.month, at.date.day)
        .at(at.time.hour, at.time.minute, at.time.second, at.time.subsec_nanosecond)
        .strftime(format)
        .to_string()
}

#[test]
fn rows() {
    let places = parse_places("Asia/Tokyo Tokyo; America/New_York New York").unwrap();
    let rows = convert(EVENING, &places).unwrap();
    let tokyo = &rows[1];
    assert_eq!(rows[0].label, "GMT+4");
    assert!(rows[0].is_source && !tokyo.is_source);
    assert_eq!(strftime(&tokyo.at, "%H:%M %d"), "01:30 23");
    assert_eq!((tokyo.band, tokyo.day_shift), (Band::Night, 1));
    assert_eq!((rows[2].band, rows[2].day_shift), (Band::Work, 0));
}

#[test]
fn label_is_a_source() {
    let places = parse_places("Asia/Tokyo Tokyo").unwrap();
    let query = Query {
        zone: Some("tokyo"),
        ..EVENING
    };
    let rows = convert(query, &places).unwrap();
    assert_eq!(rows.len(), 1);
    assert!(rows[0].is_source);
}

#[test]
fn bad_input() {
    let bad = |query| convert(query, &[]).unwrap_err();
    assert!(matches!(
        bad(Query {
            time: Some("25:00"),
            ..EVENING
        }),
        Error::Time(_)
    ));
    assert!(matches!(
        bad(Query {
            date: Some("soon"),
            ..EVENING
        }),
        Error::Date(_)
    ));
    assert!(matches!(
        bad(Query {
            zone: Some("Mars/Olympus"),
            ..EVENING
        }),
        Error::Zone(..)
    ));
}

#[test]
fn source_row_details() {
    let places = parse_places("Asia/Tokyo Tokyo; America/New_York New York").unwrap();
    let rows: Vec<Row> = convert(EVENING, &places).unwrap();
    let source = &rows[0].at;
    assert_eq!(strftime(source, "%Y-%m-%d %H:%M"), "2026-09-22 20:30");
    assert_eq!(source.offset_seconds, 4 * 3600);
    assert_eq!(rows[1].at.offset_seconds, 9 * 3600);
    assert_eq!(rows[2].at.offset_seconds, -4 * 3600);
    assert_eq!(strftime(&rows[2].at, "%H:%M %d"), "12:30 22");
    assert_eq!(rows[0].day_shift, 0);
    assert_eq!(rows[1].label, "Tokyo");
    assert_eq!(rows[2].label, "New York");
}

#[test]
fn iana_source_and_order_of_errors() {
    let rows = convert(
        Query {
            zone: Some("Europe/Paris"),
            ..EVENING
        },
        &[],
    )
    .unwrap();
    assert_eq!(rows.len(), 1);
    assert_eq!(rows[0].label, "Europe/Paris");
    assert_eq!(rows[0].at.offset_seconds, 2 * 3600);
    // The zone is resolved before the time is read.
    let err = convert(
        Query {
            time: Some("soon"),
            zone: Some("Mars"),
            ..EVENING
        },
        &[],
    )
    .unwrap_err();
    assert!(matches!(err, Error::Zone(..)));
    // The time is read before the date.
    let err = convert(
        Query {
            time: Some("soon"),
            date: Some("later"),
            ..EVENING
        },
        &[],
    )
    .unwrap_err();
    assert!(matches!(err, Error::Time(_)));
}

#[test]
fn utc_place_keeps_the_utc_source() {
    let places = parse_places("UTC Greenwich; Asia/Tokyo Tokyo").unwrap();
    let rows = convert(
        Query {
            zone: Some("utc"),
            ..EVENING
        },
        &places,
    )
    .unwrap();
    assert_eq!(rows.len(), 2);
    assert!(rows[0].is_source && rows[0].label == "Greenwich");
}

#[test]
fn zone_lookup_order() {
    let places = parse_places("Asia/Tokyo GMT+4").unwrap();
    assert_eq!(source_zone("gmt+4", &places).unwrap().time_zone(), places[0].zone.time_zone());
    assert_eq!(*source_zone("gmt+4", &places).unwrap().name(), ZoneName::Iana("Asia/Tokyo".to_string()));
    assert!(matches!(source_zone("Nowhere", &places), Err(Error::Zone(..))));
}

#[test]
fn error_messages() {
    let e = convert(Query { time: Some("25:00"), ..EVENING }, &[]).unwrap_err();
    assert_eq!(e.message(), "time must look like 20:30, 8.30pm or 8pm, got \"25:00\"");
    let e = convert(Query { date: Some("soon"), ..EVENING }, &[]).unwrap_err();
    assert_eq!(e.message(), "date must look like 2026-09-22, got \"soon\"");
    let e = convert(Query { zone: Some("<b>Mars"), ..EVENING }, &[]).unwrap_err();
    assert_eq!(
        e.message(),
        "zone must be a config label, an offset like GMT+4 or an IANA name, got \"<b>Mars\""
    );
    let e = parse_places("Mars/Olympus").unwrap_err();
    assert_eq!(e.message(), "config entry must start with an IANA zone, got \"Mars/Olympus\"");
    assert_eq!(e.message_with("«x»"), "config entry must start with an IANA zone, got «x»");
}

fn noon() -> Moment {
    Moment {
        date: zoners::CivilDate { year: 2026, month: 1, day: 2 },
        time: zoners::CivilTime { hour: 12, minute: 0, second: 7, subsec_nanosecond: 9 },
        offset_seconds: 3600,
    }
}

#[test]
fn every_row_reads_one_instant() {
    let places = parse_places("Asia/Tokyo Tokyo; America/New_York New York; Pacific/Kiritimati Line").unwrap();
    let rows = convert(EVENING, &places).unwrap();
    let instant = |m: &Moment| {
        let d = civil::Date::new(m.date.year, m.date.month, m.date.day).unwrap();
        let t = civil::Time::new(m.time.hour, m.time.minute, m.time.second, m.time.subsec_nanosecond).unwrap();
        let offset = jiff::tz::Offset::from_seconds(m.offset_seconds).unwrap();
        offset.to_timestamp(d.to_datetime(t)).unwrap()
    };
    let first = instant(&rows[0].at);
    assert!(rows.iter().all(|row| instant(&row.at) == first));
    assert_eq!((rows[0].at.time.hour, rows[0].at.time.minute), (20, 30));
    assert_eq!(rows[0].at.offset_seconds, 4 * 3600);
    assert_eq!(rows[3].day_shift, 1);
    assert!(rows.iter().filter(|row| row.is_source).all(|row| row.at == rows[0].at));
}

#[test]
fn offsets_keep_their_sign() {
    let places = parse_places("Asia/Tokyo Tokyo").unwrap();
    let zone = source_zone("GMT+4", &places).unwrap();
    assert_eq!(*zone.name(), ZoneName::Offset(4 * 3600));
    assert_eq!(zone.time_zone(), &jiff::tz::TimeZone::fixed(jiff::tz::offset(4)));
    let zone = source_zone("utc-2:30", &places).unwrap();
    assert_eq!(*zone.name(), ZoneName::Offset(-(2 * 3600 + 30 * 60)));
    let zone = source_zone("Etc/GMT+4", &places).unwrap();
    assert_eq!(*zone.name(), ZoneName::Iana("Etc/GMT+4".to_string()));
    assert_eq!(zone.time_zone(), &jiff::tz::TimeZone::get("Etc/GMT+4").unwrap());
}

#[test]
fn far_apart_zones_shift_two_days() {
    let places = parse_places("Pacific/Kiritimati Line; Etc/GMT+12 Baker").unwrap();
    let query = Query { time: Some("00:30"), date: Some("2026-09-22"), zone: Some("line") };
    let rows = convert(query, &places).unwrap();
    assert_eq!(rows.len(), 2);
    assert_eq!((rows[0].day_shift, rows[1].day_shift), (0, -2));
    assert!(rows[0].is_source && !rows[1].is_source);
}

#[test]
fn requested_moment() {
    let asked = zoners::requested(EVENING, noon()).unwrap();
    assert_eq!((asked.0.year, asked.0.month, asked.0.day), (2026, 9, 22));
    assert_eq!((asked.1.hour, asked.1.minute, asked.1.second), (20, 30, 0));
    let now = zoners::requested(Query { time: None, date: None, zone: None }, noon()).unwrap();
    assert_eq!(now, (noon().date, noon().time));
    assert!(matches!(
        zoners::requested(Query { time: Some("x"), date: Some("y"), zone: None }, noon()),
        Err(Error::Time(_))
    ));
    assert!(matches!(
        zoners::requested(Query { time: None, date: Some("y"), zone: None }, noon()),
        Err(Error::Date(_))
    ));
}

#[test]
fn rows_keep_their_zones() {
    let places = parse_places("Asia/Tokyo Tokyo; America/New_York New York").unwrap();
    let rows = convert(EVENING, &places).unwrap();
    assert_eq!(*rows[0].zone.name(), ZoneName::Offset(4 * 3600));
    assert_eq!(rows[1].zone.time_zone(), places[0].zone.time_zone());
    assert_eq!(rows[2].zone.time_zone(), places[1].zone.time_zone());
    assert_eq!((rows[0].at.time.hour, rows[0].at.time.minute, rows[0].at.offset_seconds), (20, 30, 4 * 3600));
    assert_eq!((rows[0].at.date.year, rows[0].at.date.month, rows[0].at.date.day), (2026, 9, 22));
}

#[test]
fn the_first_day_of_the_calendar_has_no_instant_east_of_utc() {
    let query = Query { time: Some("00:30"), date: Some("-009999-01-01"), zone: Some("GMT+4") };
    assert!(matches!(convert(query, &[]), Err(Error::Moment(_))));
    let query = Query { time: Some("00:30"), date: Some("-009998-01-01"), zone: Some("GMT+4") };
    assert_eq!(convert(query, &[]).unwrap().len(), 1);
}
