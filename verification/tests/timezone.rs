use croniq::timezone::{is_valid, parse};

#[test]
fn known_zones_parse() {
    assert_eq!(parse("UTC").unwrap(), chrono_tz::Tz::UTC);
    assert_eq!(parse("Europe/Vienna").unwrap(), chrono_tz::Tz::Europe__Vienna);
    assert!(is_valid("America/New_York"));
}

#[test]
fn typo_suggests_the_intended_zone() {
    let err = parse("Europe/Berln").unwrap_err();
    assert_eq!(err.suggestion, Some("Europe/Berlin"));
    assert!(
        err.message().contains("did you mean 'Europe/Berlin'?"),
        "got: {}",
        err.message()
    );
}

#[test]
fn wrong_case_suggests_the_canonical_spelling() {
    // chrono-tz parses zone names case-sensitively, so this is invalid —
    // but it is one of the most likely mistakes, and the fix is a spelling.
    let err = parse("europe/vienna").unwrap_err();
    assert_eq!(err.suggestion, Some("Europe/Vienna"));
}

#[test]
fn nonsense_lists_the_expected_shape_instead_of_guessing() {
    let err = parse("not-a-timezone-at-all").unwrap_err();
    assert_eq!(err.suggestion, None);
    assert!(err.message().contains("IANA zone name"), "got: {}", err.message());
}

#[test]
fn empty_value_is_invalid() {
    assert!(!is_valid(""));
}

#[test]
fn error_message_quotes_the_value() {
    let err = parse("Europe/Berln").unwrap_err();
    assert_eq!(err.value, "Europe/Berln");
    assert_eq!(err.message(), "unknown timezone 'Europe/Berln' — did you mean 'Europe/Berlin'?");
}
