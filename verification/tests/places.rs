use zoners::{load_places, parse_places, place_entries, Error};

#[test]
fn entries() {
    let places = parse_places("# team\nUTC Greenwich mean; UTC\n\n").unwrap();
    let labels: Vec<_> = places.iter().map(|p| p.label.as_str()).collect();
    assert_eq!(labels, ["Greenwich mean", "UTC"]);
    assert!(parse_places("Mars/Olympus Base").is_err());
}

#[test]
fn entry_parts() {
    let list = place_entries("  Asia/Kolkata\tDelhi  \n#x\n;America/New_York New York;Europe/Paris");
    let parts: Vec<_> = list
        .iter()
        .map(|e| (e.text.as_str(), e.zone.as_str(), e.label.as_str()))
        .collect();
    assert_eq!(
        parts,
        [
            ("Asia/Kolkata\tDelhi", "Asia/Kolkata", "Delhi"),
            ("America/New_York New York", "America/New_York", "New York"),
            ("Europe/Paris", "Europe/Paris", "Europe/Paris"),
        ]
    );
    assert!(place_entries("").is_empty());
    assert!(place_entries(" ; \n # only a comment").is_empty());
}

#[test]
fn bad_place_names_the_entry() {
    match parse_places("UTC; Mars/Olympus  Base ;Asia/Tokyo") {
        Err(Error::Place(entry, _)) => assert_eq!(entry, "Mars/Olympus  Base"),
        other => panic!("unexpected {other:?}"),
    }
}

#[test]
fn load_order() {
    let labels = |places: Vec<zoners::Place>| places.into_iter().map(|p| p.label).collect::<Vec<_>>();
    assert_eq!(labels(load_places(Some("Asia/Tokyo Tokyo"), Some("UTC Home")).unwrap()), ["Tokyo"]);
    assert_eq!(labels(load_places(Some(" \n "), Some("UTC Home")).unwrap()), ["Home"]);
    assert_eq!(labels(load_places(None, Some("UTC Home")).unwrap()), ["Home"]);
    let only = load_places(None, None).unwrap();
    assert_eq!(only.len(), 1);
    assert_eq!(only[0].label, "UTC");
    assert!(*only[0].zone.time_zone() == jiff::tz::TimeZone::UTC);
    assert_eq!(*only[0].zone.name(), zoners::ZoneName::Utc);
    assert!(load_places(Some("Nowhere/Else"), None).is_err());
}

#[test]
fn places_keep_the_zone_of_their_first_word() {
    let places = parse_places("Asia/Tokyo; America/New_York   New  York ").unwrap();
    assert_eq!(*places[0].zone.name(), zoners::ZoneName::Iana("Asia/Tokyo".to_string()));
    assert!(*places[0].zone.time_zone() == jiff::tz::TimeZone::get("Asia/Tokyo").unwrap());
    assert_eq!(*places[1].zone.name(), zoners::ZoneName::Iana("America/New_York".to_string()));
    assert_eq!(places[1].label, "New  York");
}

#[test]
fn semicolons_and_newlines_part_entries_alike() {
    let labels = |text: &str| parse_places(text).unwrap().into_iter().map(|p| p.label).collect::<Vec<_>>();
    assert_eq!(labels("Asia/Tokyo Tokyo; UTC Home"), labels("Asia/Tokyo Tokyo\n UTC Home"));
    assert_eq!(labels("Asia/Tokyo Tokyo; UTC Home"), ["Tokyo", "Home"]);
}

#[test]
fn joined_texts_keep_their_entries() {
    let texts = |e: Vec<zoners::Entry>| e.into_iter().map(|e| e.text).collect::<Vec<_>>();
    let a = "Asia/Tokyo Tokyo; # later";
    let b = "UTC Home;America/New_York";
    let mut both = texts(place_entries(a));
    both.extend(texts(place_entries(b)));
    assert_eq!(texts(place_entries(&format!("{a}\n{b}"))), both);
    assert_eq!(both, ["Asia/Tokyo Tokyo", "UTC Home", "America/New_York"]);
}

#[test]
fn places_from_names_the_first_entry_not_found() {
    let tokyo = parse_places("Asia/Tokyo").unwrap().remove(0).zone;
    let missing = || jiff::tz::TimeZone::get("Mars/Olympus").unwrap_err();
    let entries = place_entries("Asia/Tokyo Tokyo; Mars/Olympus Mars; Nowhere/Else X");
    let found = vec![Ok(tokyo.clone()), Err(missing()), Err(missing())];
    match zoners::places_from(&entries, found) {
        Err(Error::Place(entry, _)) => assert_eq!(entry, "Mars/Olympus Mars"),
        other => panic!("expected the second entry, got {other:?}"),
    }
    let entries = place_entries("Asia/Tokyo Tokyo; Asia/Tokyo Home");
    let places = zoners::places_from(&entries, vec![Ok(tokyo.clone()), Ok(tokyo)]).unwrap();
    assert_eq!(places.iter().map(|p| p.label.as_str()).collect::<Vec<_>>(), ["Tokyo", "Home"]);
    let e = parse_places("Asia/Tokyo; Mars/Olympus; Nowhere/Else").unwrap_err();
    assert!(matches!(e, Error::Place(entry, _) if entry == "Mars/Olympus"));
}

#[test]
fn unicode_whitespace_parts_zone_and_label() {
    let places = parse_places("\u{3000}Asia/Tokyo\u{a0}Tokyo\u{2003}").unwrap();
    assert_eq!(places[0].label, "Tokyo");
    assert_eq!(*places[0].zone.name(), zoners::ZoneName::Iana("Asia/Tokyo".to_string()));
}
