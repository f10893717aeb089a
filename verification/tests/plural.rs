use croniq::plural::interval_phrase;

#[test]
fn count_of_one_is_singular() {
    assert_eq!(interval_phrase(1, "minute"), "1 minute");
    assert_eq!(interval_phrase(1, "hour"), "1 hour");
    assert_eq!(interval_phrase(1, "second"), "1 second");
}

#[test]
fn other_counts_are_plural() {
    assert_eq!(interval_phrase(5, "minute"), "5 minutes");
    assert_eq!(interval_phrase(2, "hour"), "2 hours");
    // Zero pluralises, matching English usage.
    assert_eq!(interval_phrase(0, "second"), "0 seconds");
}
