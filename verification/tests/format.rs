use croniq::ast::{Item, ScheduleKind, Weekday};
use croniq::format::{format_weekday_list, weekday_short};
use croniq::parser::Parser;

#[test]
fn format_roundtrip() {
    let src = r#"server {
  listen :9090
  db sqlite
}

job etl:sync {
  every 15 minutes
  timeout 10m
}
"#;
    let ast = Parser::parse(src).unwrap();
    let formatted = croniq::format::format(&ast);
    // Should parse back without error
    Parser::parse(&formatted).unwrap();
}

#[test]
fn format_job_with_runner() {
    let ast = Parser::parse(
        r#"job ops:check {
  every 5 minutes
  runner { require health-check; require eu-west }
  timeout 30s
}"#,
    )
    .unwrap();
    let formatted = croniq::format::format(&ast);
    assert!(formatted.contains("runner"));
    assert!(formatted.contains("require health-check"));
}

#[test]
fn weekday_list_aliases_take_priority() {
    assert_eq!(
        format_weekday_list(&[
            Weekday::Monday,
            Weekday::Tuesday,
            Weekday::Wednesday,
            Weekday::Thursday,
            Weekday::Friday,
        ]),
        "weekday"
    );
    assert_eq!(
        format_weekday_list(&[Weekday::Saturday, Weekday::Sunday]),
        "weekend"
    );
    // Order of input doesn't matter.
    assert_eq!(
        format_weekday_list(&[Weekday::Sunday, Weekday::Saturday]),
        "weekend"
    );
}

#[test]
fn weekday_list_collapses_runs_of_three_or_more() {
    // Three-day run → range.
    assert_eq!(
        format_weekday_list(&[Weekday::Monday, Weekday::Tuesday, Weekday::Wednesday]),
        "Mon..Wed"
    );
    // Two-day run stays uncollapsed.
    assert_eq!(
        format_weekday_list(&[Weekday::Monday, Weekday::Tuesday]),
        "Mon Tue"
    );
    // Singleton.
    assert_eq!(format_weekday_list(&[Weekday::Wednesday]), "Wed");
}

#[test]
fn weekday_list_mixed_runs_and_singletons() {
    // `Mon Wed Thu Fri` → singleton + 3-run.
    assert_eq!(
        format_weekday_list(&[
            Weekday::Monday,
            Weekday::Wednesday,
            Weekday::Thursday,
            Weekday::Friday,
        ]),
        "Mon Wed..Fri"
    );
}

#[test]
fn weekday_list_dedupes() {
    assert_eq!(
        format_weekday_list(&[Weekday::Monday, Weekday::Monday, Weekday::Tuesday]),
        "Mon Tue"
    );
}

#[test]
fn schedule_weekdays_round_trip_to_short_form() {
    // Long-form input parses correctly, the formatter emits the
    // canonical short form, and a second parse pass yields the
    // same Weekdays list.
    let src = "job demo:k { every monday tuesday wednesday at 09:00 }";
    let ast = Parser::parse(src).unwrap();
    let formatted = croniq::format::format(&ast);
    assert!(formatted.contains("every Mon..Wed at 09:00"));
    // Re-parse to confirm the new short form is a valid input.
    let ast2 = Parser::parse(&formatted).unwrap();
    if let Item::Job(ref j) = ast2.items[0] {
        if let ScheduleKind::Weekdays { ref days, .. } = j.schedule.as_ref().unwrap().kind {
            assert_eq!(
                *days,
                vec![Weekday::Monday, Weekday::Tuesday, Weekday::Wednesday]
            );
        } else {
            panic!("expected Weekdays after round-trip");
        }
    }
}

#[test]
fn calendar_weekly_round_trip_to_short_form() {
    let src = r#"calendar biz { include weekly "Mon".."Fri" }"#;
    let ast = Parser::parse(src).unwrap();
    let formatted = croniq::format::format(&ast);
    // "weekday" alias since Mon..Fri is the full business week.
    assert!(formatted.contains("include weekly weekday"));
    Parser::parse(&formatted).unwrap();
}

#[test]
fn calendar_weekly_three_days_collapses_to_range() {
    let src = "calendar biz { include weekly Mon Tue Wed }";
    let ast = Parser::parse(src).unwrap();
    let formatted = croniq::format::format(&ast);
    assert!(formatted.contains("include weekly Mon..Wed"));
}

#[test]
fn weekday_short_names_are_capitalised() {
    assert_eq!(weekday_short(Weekday::Monday), "Mon");
    assert_eq!(weekday_short(Weekday::Sunday), "Sun");
}

#[test]
fn weekday_list_does_not_wrap_around() {
    assert_eq!(
        format_weekday_list(&[Weekday::Friday, Weekday::Saturday, Weekday::Sunday, Weekday::Monday]),
        "Mon Fri..Sun"
    );
    assert_eq!(format_weekday_list(&[]), "");
}

#[test]
fn format_layout_is_canonical() {
    let src = "# top\nserver { listen :9090 }\njob a:b {\n  timeout 5s\n  description \"hi \\\"x\\\"\"\n  every 1 minutes\n  env { A 1 }\n}\n";
    let ast = Parser::parse(src).unwrap();
    let formatted = croniq::format::format(&ast);
    assert_eq!(
        formatted,
        "# top\n\nserver {\n  listen :9090\n}\n\njob a:b {\n  description \"hi \\\"x\\\"\"\n\n  every 1 minute\n  timeout 5s\n  env { A 1 }\n}\n"
    );
}

#[test]
fn format_empty_file_is_one_line_break() {
    let ast = Parser::parse("").unwrap();
    assert_eq!(croniq::format::format(&ast), "\n");
}

#[test]
fn format_monthly_ordinals() {
    let ast = Parser::parse("job a:b { every 1st 22nd last of month at 10:00 }").unwrap();
    assert!(croniq::format::format(&ast).contains("every 1st 22nd last of month at 10:00"));
}

#[test]
fn format_writes_a_bare_description() {
    let ast = Parser::parse("job a:b { description\n every 1 minutes }").unwrap();
    let out = croniq::format::format(&ast);
    assert_eq!(out, "job a:b {\n  description\n\n  every 1 minute\n}\n");
    let again = croniq::format::format(&Parser::parse(&out).unwrap());
    assert_eq!(again, out);
}

#[test]
fn format_keeps_comments_inside_block_bodies() {
    let src = "server {\n  # keep me\n  listen :9090\n  # trailing\n}\ncalendar biz {\n  # holidays\n  exclude dates 2026-12-25\n}\n";
    let ast = Parser::parse(src).unwrap();
    let out = croniq::format::format(&ast);
    assert!(out.contains("# keep me"), "{out}");
    assert!(out.contains("listen :9090"), "{out}");
    assert!(out.contains("# trailing"), "{out}");
    assert!(out.contains("# holidays"), "{out}");
    assert!(out.starts_with("server {\n  # keep me\n  listen :9090\n  # trailing\n}\n"), "{out}");
    let again = croniq::format::format(&Parser::parse(&out).unwrap());
    assert_eq!(again, out);
}

#[test]
fn format_keeps_a_quoted_job_key_quoted() {
    let ast = Parser::parse("job \"a:b c\" { disabled }").unwrap();
    let out = croniq::format::format(&ast);
    assert!(out.starts_with("job \"a:b c\" {"), "{out}");
    let again = Parser::parse(&out).unwrap();
    assert_eq!(croniq::format::format(&again), out);
}

#[test]
fn format_keeps_comments_in_schedule_options() {
    let ast = Parser::parse("job a:b {\n  every 5 minutes {\n    # why\n    timezone UTC\n  }\n}\n").unwrap();
    let out = croniq::format::format(&ast);
    assert!(out.contains("# why"), "{out}");
    assert_eq!(croniq::format::format(&Parser::parse(&out).unwrap()), out);
}

#[test]
fn comments_among_sub_blocks_are_kept() {
    let src = "observability {\n  # metrics first\n  metrics { listen :9100 }\n  # then tracing\n}\n";
    let ast = Parser::parse(src).unwrap();
    let out = croniq::format::format(&ast);
    assert!(out.contains("# metrics first"));
    assert!(out.contains("# then tracing"));
    assert!(out.find("# metrics first").unwrap() < out.find("metrics {").unwrap());
    assert!(out.find("metrics {").unwrap() < out.find("# then tracing").unwrap());
    let again = croniq::format::format(&Parser::parse(&out).unwrap());
    assert_eq!(again, out);
}

#[test]
fn comments_among_alert_blocks_are_kept() {
    let src = "alerts {\n  # paging\n  channel \"ops\" { type webhook; url \"https://example.com/hook\" }\n}\n";
    let ast = Parser::parse(src).unwrap();
    let out = croniq::format::format(&ast);
    assert!(out.contains("# paging"));
    assert!(out.contains("channel \"ops\""));
}
