use tickit_sync::timestamp::{
    after_mark, denotes_instant, instant_of, later, later_instant, opt_denotes_instant,
};

#[test]
fn instants_of_texts() {
    assert_eq!(instant_of("1970-01-01T00:00:10Z"), Some((10, 0)));
    assert_eq!(instant_of("1970-01-01T00:00:00+00:00"), Some((0, 0)));
    assert_eq!(instant_of("1970-01-01T01:00:00+01:00"), Some((0, 0)));
    assert_eq!(instant_of("1969-12-31T23:59:59Z"), Some((-1, 0)));
    assert_eq!(instant_of("2001-09-09T01:46:40.5Z"), Some((1_000_000_000, 500_000_000)));
    assert_eq!(instant_of("2001-09-09T01:46:40.000000001Z"), Some((1_000_000_000, 1)));
}

#[test]
fn texts_that_denote_no_instant() {
    for text in ["", "10", "2024-01-01", "2024-01-01 00:00:00", "2024-13-01T00:00:00Z", "now"] {
        assert_eq!(instant_of(text), None, "{}", text);
        assert!(!denotes_instant(text));
    }
    assert!(denotes_instant("2024-01-01T00:00:00Z"));
    assert!(opt_denotes_instant(&None));
    assert!(opt_denotes_instant(&Some("2024-01-01T00:00:00Z".to_string())));
    assert!(!opt_denotes_instant(&Some("x".to_string())));
}

#[test]
fn seconds_decide_then_nanoseconds() {
    assert!(later_instant((2, 0), (1, 999)));
    assert!(later_instant((1, 5), (1, 4)));
    assert!(!later_instant((1, 4), (1, 4)));
    assert!(!later_instant((1, 4), (1, 5)));
    assert!(!later_instant((-1, 0), (0, 0)));
    assert!(later_instant((0, 0), (-1, 999_999_999)));
}

#[test]
fn later_compares_instants() {
    assert!(later("2024-01-01T00:00:01Z", "2024-01-01T00:00:00Z"));
    assert!(!later("2024-01-01T00:00:00Z", "2024-01-01T00:00:00Z"));
    assert!(!later("2024-01-01T00:00:00Z", "2024-01-01T00:00:01Z"));
    assert!(later("2024-01-01T00:00:00.001Z", "2024-01-01T00:00:00Z"));
    // The same instant in two spellings.
    assert!(!later("2024-01-01T02:00:00+02:00", "2024-01-01T00:00:00Z"));
    assert!(!later("2024-01-01T00:00:00Z", "2024-01-01T02:00:00+02:00"));
    // A text that denotes no instant is later than nothing, and nothing is later than it.
    assert!(!later("x", "2024-01-01T00:00:00Z"));
    assert!(!later("2024-01-01T00:00:00Z", "x"));
}

#[test]
fn after_a_watermark() {
    assert!(after_mark("1970-01-01T00:00:10Z", None));
    assert!(after_mark("anything", None));
    assert!(after_mark("1970-01-01T00:00:10Z", Some((9, 999_999_999))));
    assert!(!after_mark("1970-01-01T00:00:10Z", Some((10, 0))));
    assert!(!after_mark("anything", Some((0, 0))));
}
