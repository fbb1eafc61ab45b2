use zoners::Band;

#[test]
fn hours() {
    for (hour, want) in [
        (6, Band::Night),
        (7, Band::Awake),
        (9, Band::Work),
        (16, Band::Work),
        (17, Band::Awake),
        (22, Band::Night),
    ] {
        assert_eq!(Band::of_hour(hour), want, "{hour}");
    }
}

#[test]
fn band_edges() {
    assert_eq!(Band::of_hour(0), Band::Night);
    assert_eq!(Band::of_hour(8), Band::Awake);
    assert_eq!(Band::of_hour(21), Band::Awake);
    assert_eq!(Band::of_hour(23), Band::Night);
    assert_eq!(Band::of_hour(-1), Band::Night);
    assert_eq!(Band::of_hour(100), Band::Night);
}

#[test]
fn band_names() {
    assert_eq!(Band::Work.name(), "work");
    assert_eq!(Band::Awake.name(), "awake");
    assert_eq!(Band::Night.name(), "night");
}
