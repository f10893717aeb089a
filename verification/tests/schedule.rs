use croniq::ast::{MonthOrdinal, Weekday};
use croniq::parser::parse_schedule_expr;
use croniq::schedule::CompiledSchedule;

#[test]
fn interval_singular_pluralisation() {
    // Pin the n=1 fix — previously rendered "every 1 minutes".
    assert_eq!(
        CompiledSchedule::Interval { seconds: 60 }.summary(),
        "every 1 minute"
    );
    assert_eq!(
        CompiledSchedule::Interval { seconds: 3600 }.summary(),
        "every 1 hour"
    );
    assert_eq!(
        CompiledSchedule::Interval { seconds: 1 }.summary(),
        "every 1 second"
    );
}

#[test]
fn interval_plural_unchanged() {
    assert_eq!(
        CompiledSchedule::Interval { seconds: 300 }.summary(),
        "every 5 minutes"
    );
    assert_eq!(
        CompiledSchedule::Interval { seconds: 7200 }.summary(),
        "every 2 hours"
    );
}

#[test]
fn to_dsl_roundtrips_through_parser() {
    // One case per schedule shape, including the ones whose `summary()`
    // form (comma-joined weekdays/ordinals) does NOT re-parse.
    let cases = [
        CompiledSchedule::Interval { seconds: 300 },
        CompiledSchedule::Interval { seconds: 60 },
        CompiledSchedule::Interval { seconds: 90 },
        CompiledSchedule::Interval { seconds: 3600 },
        CompiledSchedule::Daily { hour: 2, minute: 0 },
        CompiledSchedule::Weekdays {
            days: vec![Weekday::Monday, Weekday::Friday],
            hour: 9,
            minute: 0,
        },
        CompiledSchedule::Monthly {
            ordinals: vec![MonthOrdinal::Day(1), MonthOrdinal::Day(15)],
            hour: 10,
            minute: 0,
        },
        CompiledSchedule::Monthly {
            ordinals: vec![MonthOrdinal::Last],
            hour: 23,
            minute: 59,
        },
        CompiledSchedule::Once {
            at: "2026-04-01T03:00:00+00:00".to_string(),
        },
    ];

    for sched in cases {
        let dsl = sched.to_dsl();
        let kind = parse_schedule_expr(&dsl)
            .unwrap_or_else(|e| panic!("to_dsl output {dsl:?} did not re-parse: {}", e.message()));
        // Re-emitting the re-parsed schedule must be a fixed point.
        let round = CompiledSchedule::from_ast(&kind).to_dsl();
        assert_eq!(round, dsl, "round-trip changed the canonical form");
    }
}

#[test]
fn summary_of_each_shape() {
    assert_eq!(CompiledSchedule::Interval { seconds: 90 }.summary(), "every 90 seconds");
    assert_eq!(CompiledSchedule::Daily { hour: 2, minute: 5 }.summary(), "every day at 02:05");
    assert_eq!(
        CompiledSchedule::Weekdays { days: vec![Weekday::Monday, Weekday::Friday], hour: 9, minute: 0 }
            .summary(),
        "every monday, friday at 09:00"
    );
    assert_eq!(
        CompiledSchedule::Monthly {
            ordinals: vec![MonthOrdinal::Day(1), MonthOrdinal::Last],
            hour: 10,
            minute: 30
        }
        .summary(),
        "every 1, last of month at 10:30"
    );
    assert_eq!(CompiledSchedule::Once { at: "x".to_string() }.summary(), "once at x");
    assert_eq!(CompiledSchedule::Disabled.summary(), "disabled");
}

#[test]
fn to_dsl_of_each_shape() {
    assert_eq!(CompiledSchedule::Interval { seconds: 7200 }.to_dsl(), "every 2 hours");
    assert_eq!(CompiledSchedule::Interval { seconds: 60 }.to_dsl(), "every 1 minute");
    assert_eq!(
        CompiledSchedule::Weekdays { days: vec![Weekday::Monday, Weekday::Friday], hour: 9, minute: 0 }
            .to_dsl(),
        "every Mon Fri at 09:00"
    );
    assert_eq!(
        CompiledSchedule::Monthly { ordinals: vec![MonthOrdinal::Day(1), MonthOrdinal::Day(15)], hour: 10, minute: 0 }
            .to_dsl(),
        "every 1st 15th of month at 10:00"
    );
    assert_eq!(
        CompiledSchedule::Once { at: "2026-04-01".to_string() }.to_dsl(),
        "once at \"2026-04-01\""
    );
}
