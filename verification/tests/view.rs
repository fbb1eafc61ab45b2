use zoners::{
    convert, default_zone_name, dial_angle, find_asset, given, invalid_field, is_live, marks,
    minutes, parse_places, place_width, response_status, source_row, Error, Query,
};

const EVENING: Query = Query {
    time: Some("8.30pm"),
    date: Some("2026-09-22"),
    zone: Some("GMT+4"),
};

#[test]
fn given_values() {
    assert_eq!(given(Some("  20:30 ".to_string())), Some("20:30".to_string()));
    assert_eq!(given(Some(" \t ".to_string())), None);
    assert_eq!(given(Some(String::new())), None);
    assert_eq!(given(None), None);
}

#[test]
fn dial_angles() {
    // 01:30 on the next day: (90 + 1440) / 4 - 180 = 202.5 degrees.
    assert_eq!(dial_angle(90, 1), 810);
    assert_eq!(dial_angle(90, 1) as f64 / 4.0, 202.5);
    assert_eq!(dial_angle(12 * 60, 0), 0);
    assert_eq!(dial_angle(0, -1), -2160);
}

#[test]
fn page_rows() {
    let places = parse_places("Asia/Tokyo Tokyo; America/New_York New York; Asia/Seoul Seoul").unwrap();
    let rows = convert(EVENING, &places).unwrap();
    assert_eq!(source_row(&rows), Some(0));
    assert_eq!(minutes(rows[0].at.time), 20 * 60 + 30);
    assert_eq!(minutes(rows[1].at.time), 90);
    let marks = marks(&rows);
    assert_eq!(marks.len(), 3);
    assert_eq!(marks[1].rows, [1, 3]);
    assert_eq!(marks[1].first, 1);
    assert_eq!(marks[1].offset, 9 * 3600);
    assert_eq!(marks[1].extra_lines, 2);
    assert!(marks[0].is_source && !marks[1].is_source);
    assert_eq!(marks[2].rows, [2]);
    assert_eq!(marks[2].extra_lines, 0);
    assert_eq!(place_width(&rows), 8);
    assert_eq!(place_width(&rows[..1]), 5);
}

#[test]
fn request_answers() {
    assert_eq!(response_status(true, false), 400);
    assert_eq!(response_status(true, true), 200);
    assert_eq!(response_status(false, false), 200);
    assert!(is_live(&None, &None));
    assert!(!is_live(&Some("20:30".to_string()), &None));
    let e = convert(Query { zone: Some("Mars"), ..EVENING }, &[]).unwrap_err();
    assert_eq!(invalid_field(&e), "zone");
    let e = convert(Query { time: Some("x"), ..EVENING }, &[]).unwrap_err();
    assert_eq!(invalid_field(&e), "time");
    let e = convert(Query { date: Some("x"), ..EVENING }, &[]).unwrap_err();
    assert!(matches!(e, Error::Date(_)));
    assert_eq!(invalid_field(&e), "date");
}

#[test]
fn zone_defaults_and_assets() {
    assert_eq!(default_zone_name(Some("Asia/Tokyo")), "Asia/Tokyo");
    assert_eq!(default_zone_name(Some("Etc/Unknown")), "UTC");
    assert_eq!(default_zone_name(None), "UTC");
    let names = ["app.css", "app.js", "fonts/a.woff2"];
    assert_eq!(find_asset(&names, "app.js"), Some(1));
    assert_eq!(find_asset(&names, "../Cargo.toml"), None);
}

#[test]
fn dial_days_around_the_source_date() {
    let d = |year, month, day| zoners::CivilDate { year, month, day };
    assert_eq!(zoners::dial_days(d(2024, 3, 1)), Some((d(2024, 2, 29), d(2024, 3, 1), d(2024, 3, 2))));
    assert_eq!(zoners::dial_days(d(2026, 12, 31)), Some((d(2026, 12, 30), d(2026, 12, 31), d(2027, 1, 1))));
    assert_eq!(zoners::dial_days(d(-9999, 1, 1)), None);
    assert_eq!(zoners::dial_days(d(9999, 12, 31)), None);
    assert_eq!(zoners::dial_days(d(2026, 2, 30)), None);
}

#[test]
fn blank_and_padded_form_values() {
    assert_eq!(given(Some("   ".to_string())), given(None));
    assert_eq!(given(Some(" Asia/Tokyo ".to_string())), given(Some("Asia/Tokyo".to_string())));
}
