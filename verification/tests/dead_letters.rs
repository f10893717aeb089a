use croniq::dead_letters::{dead_letter_details, dead_letters_listing, DeadLetterDetails, DeadLetterRow};

fn row(id: &str, error: &str) -> DeadLetterRow {
    DeadLetterRow { id: id.into(), job_key: "etl:sync".into(), attempt: 3, error: error.into() }
}

#[test]
fn an_empty_queue_says_so() {
    assert_eq!(dead_letters_listing(None, &[]), "Dead letter queue is empty.\n");
    assert_eq!(dead_letters_listing(Some("etl:sync"), &[]), "No dead letters for job 'etl:sync'.\n");
}

#[test]
fn the_listing_previews_errors_and_points_at_the_first() {
    let long = "x".repeat(45);
    let out = dead_letters_listing(None, &[row("d-1", "boom"), row("d-2", &long)]);
    let lines: Vec<&str> = out.lines().collect();
    assert_eq!(lines[0], format!("{:<38} {:<32} {:>7} ERROR", "DEAD LETTER ID", "JOB KEY", "ATTEMPT"));
    assert_eq!(lines[1], "-".repeat(100));
    assert_eq!(lines[2], format!("{:<38} {:<32} {:>7} {}", "d-1", "etl:sync", 3, "boom"));
    assert_eq!(
        lines[3],
        format!("{:<38} {:<32} {:>7} {}…", "d-2", "etl:sync", 3, "x".repeat(40))
    );
    assert_eq!(lines[4], "");
    assert_eq!(lines[5], "Total: 2 dead letter(s)");
    assert_eq!(lines[6], "");
    assert_eq!(
        lines[7],
        "Run `croniq dead-letters-inspect d-1 --data-dir <path>` for full details."
    );
}

#[test]
fn a_forty_character_error_is_shown_whole_unless_it_is_longer_in_bytes() {
    let ascii = "y".repeat(40);
    let out = dead_letters_listing(None, &[row("d", &ascii)]);
    assert!(out.lines().nth(2).unwrap().ends_with(&ascii));
    let wide = "é".repeat(40);
    let out = dead_letters_listing(None, &[row("d", &wide)]);
    assert!(out.lines().nth(2).unwrap().ends_with(&format!("{wide}…")));
}

#[test]
fn details_show_every_field_and_the_metadata() {
    let d = DeadLetterDetails {
        id: "d-1".into(),
        execution_id: "e-1".into(),
        job_key: "etl:sync".into(),
        fire_at: "2026-08-20T09:00:00Z".into(),
        attempt: 3,
        dead_reason: "max_attempts".into(),
        created_at: "2026-08-20T09:01:00Z".into(),
        expires_at: Some("2026-09-20T09:01:00Z".into()),
        error: "boom".into(),
        metadata: vec![("team".into(), "data".into())],
    };
    assert_eq!(
        dead_letter_details(&d),
        format!(
            "Dead Letter Details\n{}\nID:            d-1\nExecution ID:  e-1\nJob Key:       etl:sync\n\
             Fire At:       2026-08-20T09:00:00Z\nAttempt:       3\nDead Reason:   max_attempts\n\
             Created At:    2026-08-20T09:01:00Z\nExpires At:    2026-09-20T09:01:00Z\n\nError:\nboom\n\n\
             Metadata:\n  team: data\n",
            "=".repeat(60)
        )
    );
    let bare = DeadLetterDetails { expires_at: None, metadata: vec![], ..d };
    assert!(dead_letter_details(&bare).ends_with("Created At:    2026-08-20T09:01:00Z\n\nError:\nboom\n"));
}
