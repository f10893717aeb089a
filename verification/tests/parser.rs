use croniq::ast::{DirectiveOrBlock, IntervalUnit, Item, MonthOrdinal, ScheduleKind, Weekday};
use croniq::parser::{ParseError, Parser};


    #[test]
    fn parse_empty() {
        let ast = Parser::parse("").unwrap();
        assert!(ast.items.is_empty());
    }

    #[test]
    fn parse_server_block() {
        let ast = Parser::parse("server { listen :9090; db sqlite }").unwrap();
        assert!(matches!(ast.items[0], Item::Server(_)));
        if let Item::Server(ref s) = ast.items[0] {
            assert_eq!(s.directives.len(), 2);
            assert_eq!(s.directives[0].key.value, "listen");
            assert_eq!(s.directives[0].args[0].value, ":9090");
        }
    }

    #[test]
    fn parse_smtp_block() {
        let ast = Parser::parse(r#"smtp { host "mail.example.com"; port 587; security starttls }"#)
            .unwrap();
        assert!(matches!(ast.items[0], Item::Smtp(_)));
        if let Item::Smtp(ref s) = ast.items[0] {
            assert_eq!(s.directives.len(), 3);
            assert_eq!(s.directives[0].key.value, "host");
            assert_eq!(s.directives[0].args[0].value, "mail.example.com");
            assert_eq!(s.directives[1].key.value, "port");
        }
    }

    #[test]
    fn parse_job_with_interval() {
        let ast = Parser::parse("job etl:sync { every 15 minutes; timeout 10m }").unwrap();
        if let Item::Job(ref j) = ast.items[0] {
            assert_eq!(j.key.namespace, "etl");
            assert_eq!(j.key.name, "sync");
            let sched = j.schedule.as_ref().unwrap();
            assert!(matches!(
                sched.kind,
                ScheduleKind::Interval {
                    count: 15,
                    unit: IntervalUnit::Minutes
                }
            ));
        } else {
            panic!("expected Job");
        }
    }

    #[test]
    fn parse_job_with_compact_interval() {
        for (src, want_count, want_unit) in [
            ("job a:b { every 1m }", 1u32, IntervalUnit::Minutes),
            ("job a:b { every 30s }", 30, IntervalUnit::Seconds),
            ("job a:b { every 2h }", 2, IntervalUnit::Hours),
        ] {
            let ast = Parser::parse(src).unwrap_or_else(|e| panic!("{src}: {e:?}"));
            if let Item::Job(ref j) = ast.items[0] {
                let sched = j.schedule.as_ref().unwrap();
                match sched.kind {
                    ScheduleKind::Interval { count, unit } => {
                        assert_eq!(count, want_count, "src={src}");
                        assert_eq!(unit, want_unit, "src={src}");
                    }
                    _ => panic!("expected Interval for {src}"),
                }
            } else {
                panic!("expected Job for {src}");
            }
        }
    }

    #[test]
    fn parse_job_with_weekday_schedule() {
        let ast = Parser::parse(
            r#"job billing:invoice {
                every weekday at 02:00
                timeout 15m
            }"#,
        )
        .unwrap();
        if let Item::Job(ref j) = ast.items[0] {
            let sched = j.schedule.as_ref().unwrap();
            if let ScheduleKind::Weekdays { ref days, ref time } = sched.kind {
                assert_eq!(days.len(), 5);
                assert_eq!(time.hour, 2);
                assert_eq!(time.minute, 0);
            } else {
                panic!("expected Weekdays schedule");
            }
        }
    }

    #[test]
    fn parse_schedule_weekdays_3letter_case_insensitive() {
        // 3-letter forms — same days as the full-name version. Mixing
        // cases on purpose to lock the case-insensitive path.
        let ast = Parser::parse("job demo:k { every Mon TUE wed at 09:00 }").unwrap();
        if let Item::Job(ref j) = ast.items[0] {
            if let ScheduleKind::Weekdays { ref days, .. } = j.schedule.as_ref().unwrap().kind {
                assert_eq!(
                    *days,
                    vec![Weekday::Monday, Weekday::Tuesday, Weekday::Wednesday]
                );
            } else {
                panic!("expected Weekdays");
            }
        }
    }

    #[test]
    fn parse_schedule_weekdays_range() {
        // `Mon..Fri` should expand to all five business days.
        let ast = Parser::parse("job demo:k { every Mon..Fri at 09:00 }").unwrap();
        if let Item::Job(ref j) = ast.items[0] {
            if let ScheduleKind::Weekdays { ref days, .. } = j.schedule.as_ref().unwrap().kind {
                assert_eq!(
                    *days,
                    vec![
                        Weekday::Monday,
                        Weekday::Tuesday,
                        Weekday::Wednesday,
                        Weekday::Thursday,
                        Weekday::Friday,
                    ]
                );
            } else {
                panic!("expected Weekdays");
            }
        }
    }

    #[test]
    fn parse_schedule_weekdays_range_wraps_sunday() {
        // `Fri..Mon` covers a long-weekend duty rotation. Wrap-around
        // through Sunday is the expected behaviour.
        let ast = Parser::parse("job demo:k { every Fri..Mon at 09:00 }").unwrap();
        if let Item::Job(ref j) = ast.items[0] {
            if let ScheduleKind::Weekdays { ref days, .. } = j.schedule.as_ref().unwrap().kind {
                assert_eq!(
                    *days,
                    vec![
                        Weekday::Friday,
                        Weekday::Saturday,
                        Weekday::Sunday,
                        Weekday::Monday,
                    ]
                );
            } else {
                panic!("expected Weekdays");
            }
        }
    }

    #[test]
    fn parse_schedule_weekdays_mixed_singletons_and_range() {
        // Day list + range chained together. Resulting vec preserves
        // order, including any duplicates the user produced.
        let ast = Parser::parse("job demo:k { every Mon Wed..Fri Sun at 09:00 }").unwrap();
        if let Item::Job(ref j) = ast.items[0] {
            if let ScheduleKind::Weekdays { ref days, .. } = j.schedule.as_ref().unwrap().kind {
                assert_eq!(
                    *days,
                    vec![
                        Weekday::Monday,
                        Weekday::Wednesday,
                        Weekday::Thursday,
                        Weekday::Friday,
                        Weekday::Sunday,
                    ]
                );
            } else {
                panic!("expected Weekdays");
            }
        }
    }

    #[test]
    fn parse_job_with_daily_schedule_and_options() {
        let ast = Parser::parse(
            r#"job billing:invoice {
                every day at 02:00 {
                    calendar business-days
                    not_before 2026-01-01T00:00:00Z
                }
                timeout 15m
            }"#,
        )
        .unwrap();
        if let Item::Job(ref j) = ast.items[0] {
            let sched = j.schedule.as_ref().unwrap();
            assert!(matches!(sched.kind, ScheduleKind::Daily { .. }));
            assert_eq!(sched.options.len(), 2);
            assert_eq!(sched.options[0].key.value, "calendar");
        }
    }

    #[test]
    fn parse_job_with_monthly_schedule() {
        let ast =
            Parser::parse("job reports:summary { every 1st 15th of month at 06:00; timeout 1h }")
                .unwrap();
        if let Item::Job(ref j) = ast.items[0] {
            let sched = j.schedule.as_ref().unwrap();
            if let ScheduleKind::Monthly {
                ref ordinals,
                ref time,
            } = sched.kind
            {
                assert_eq!(ordinals.len(), 2);
                assert!(matches!(ordinals[0], MonthOrdinal::Day(1)));
                assert!(matches!(ordinals[1], MonthOrdinal::Day(15)));
                assert_eq!(time.hour, 6);
            } else {
                panic!("expected Monthly schedule");
            }
        }
    }

    #[test]
    fn parse_job_once() {
        let ast = Parser::parse("job migration:v2 { once at 2026-04-01T03:00:00Z; timeout 30m }")
            .unwrap();
        if let Item::Job(ref j) = ast.items[0] {
            let sched = j.schedule.as_ref().unwrap();
            if let ScheduleKind::Once { ref at } = sched.kind {
                assert_eq!(at.value, "2026-04-01T03:00:00Z");
            } else {
                panic!("expected Once schedule");
            }
        }
    }

    #[test]
    fn parse_job_disabled() {
        let ast = Parser::parse("job legacy:old { disabled; timeout 5m }").unwrap();
        if let Item::Job(ref j) = ast.items[0] {
            let sched = j.schedule.as_ref().unwrap();
            assert!(matches!(sched.kind, ScheduleKind::Disabled));
        }
    }

    #[test]
    fn parse_calendar() {
        let ast = Parser::parse(
            r#"calendar business-days {
                timezone "Europe/Vienna"
                include weekly monday tuesday wednesday thursday friday
                exclude annual 01-01 12-25 12-26
            }"#,
        )
        .unwrap();
        if let Item::Calendar(ref c) = ast.items[0] {
            assert_eq!(c.name.value, "business-days");
            // timezone + include + exclude = 3 rules
            assert_eq!(c.rules.len(), 3);
        }
    }

    #[test]
    fn parse_calendar_weekly_range_expands() {
        // `Mon..Fri` should expand to all five days at parse time.
        // Pre-PR-D this lost Tue/Wed/Thu silently.
        let ast = Parser::parse(r#"calendar biz { include weekly "Mon".."Fri" }"#).unwrap();
        let Item::Calendar(ref c) = ast.items[0] else {
            panic!("expected calendar")
        };
        // Find the include rule — the timezone synthetic Include is
        // skipped here since this calendar has no timezone directive.
        let rule = c
            .rules
            .iter()
            .find(|r| r.rule_type.value == "weekly")
            .expect("weekly rule");
        let arg_values: Vec<&str> = rule.args.iter().map(|a| a.value.as_str()).collect();
        assert_eq!(
            arg_values,
            vec!["monday", "tuesday", "wednesday", "thursday", "friday"]
        );
    }

    #[test]
    fn parse_calendar_weekly_3letter_unquoted() {
        // 3-letter unquoted forms accepted now that Weekday::parse is
        // case-insensitive and the calendar parser stores raw idents.
        let ast = Parser::parse(r#"calendar biz { include weekly Mon Wed Fri }"#).unwrap();
        let Item::Calendar(ref c) = ast.items[0] else {
            panic!()
        };
        let rule = c
            .rules
            .iter()
            .find(|r| r.rule_type.value == "weekly")
            .unwrap();
        // Args are the raw tokens — the runtime compiler does the
        // `parse_weekday` step. We only check round-trip through the
        // parser here.
        assert_eq!(rule.args.len(), 3);
    }

    #[test]
    fn parse_calendar_monthly_range_expands() {
        // `monthly 1..5` → individual integer days.
        let ast = Parser::parse(r#"calendar biz { include monthly 1..5 }"#).unwrap();
        let Item::Calendar(ref c) = ast.items[0] else {
            panic!()
        };
        let rule = c
            .rules
            .iter()
            .find(|r| r.rule_type.value == "monthly")
            .unwrap();
        let values: Vec<&str> = rule.args.iter().map(|a| a.value.as_str()).collect();
        assert_eq!(values, vec!["1", "2", "3", "4", "5"]);
    }

    #[test]
    fn parse_calendar_window_keeps_endpoints() {
        // `window` rules are time-of-day; the runtime expects the two
        // endpoints, so the parser must NOT expand them.
        let ast = Parser::parse(r#"calendar biz { include window "08:00".."18:00" }"#).unwrap();
        let Item::Calendar(ref c) = ast.items[0] else {
            panic!()
        };
        let rule = c
            .rules
            .iter()
            .find(|r| r.rule_type.value == "window")
            .unwrap();
        let values: Vec<&str> = rule.args.iter().map(|a| a.value.as_str()).collect();
        assert_eq!(values, vec!["08:00", "18:00"]);
    }

    fn weekly_rule_args(src: &str) -> Vec<String> {
        let ast = Parser::parse(src).unwrap();
        let Item::Calendar(ref c) = ast.items[0] else {
            panic!("expected calendar")
        };
        c.rules
            .iter()
            .find(|r| r.rule_type.value == "weekly")
            .expect("weekly rule")
            .args
            .iter()
            .map(|a| a.value.clone())
            .collect()
    }

    #[test]
    fn parse_calendar_weekly_weekday_alias_expands() {
        // #356: `fmt` and the cron converter emit the `weekday` alias;
        // it must expand to concrete days like ranges do, or the
        // runtime compiler rejects the calendar.
        assert_eq!(
            weekly_rule_args("calendar biz { include weekly weekday }"),
            vec!["monday", "tuesday", "wednesday", "thursday", "friday"]
        );

        // Every expanded arg carries the alias token's span.
        let ast = Parser::parse("calendar biz { include weekly weekday }").unwrap();
        let Item::Calendar(ref c) = ast.items[0] else {
            panic!()
        };
        let rule = c
            .rules
            .iter()
            .find(|r| r.rule_type.value == "weekly")
            .unwrap();
        assert!(rule.args.iter().all(|a| a.span == rule.args[0].span));
    }

    #[test]
    fn parse_calendar_weekly_weekend_alias_expands() {
        assert_eq!(
            weekly_rule_args("calendar biz { include weekly weekend }"),
            vec!["saturday", "sunday"]
        );
    }

    #[test]
    fn parse_calendar_weekly_quoted_alias_expands() {
        // Quoted form, consistent with the quoted range path.
        assert_eq!(
            weekly_rule_args(r#"calendar biz { include weekly "weekday" }"#),
            vec!["monday", "tuesday", "wednesday", "thursday", "friday"]
        );
    }

    #[test]
    fn parse_calendar_weekly_placeholder_not_expanded() {
        // Placeholders resolve at compile time — the parser must not
        // touch them (the runtime compiler expands aliases itself).
        let ast = Parser::parse("calendar biz { include weekly {vars.days} }").unwrap();
        let Item::Calendar(ref c) = ast.items[0] else {
            panic!()
        };
        let rule = c
            .rules
            .iter()
            .find(|r| r.rule_type.value == "weekly")
            .unwrap();
        assert_eq!(rule.args.len(), 1);
        assert!(rule.args[0].is_placeholder);
        assert_eq!(rule.args[0].value, "vars.days");
    }

    #[test]
    fn parse_calendar_alias_only_for_weekly() {
        // No cross-rule expansion: `monthly weekday` is nonsense and
        // stays verbatim for the runtime compiler to reject.
        let ast = Parser::parse("calendar biz { include monthly weekday }").unwrap();
        let Item::Calendar(ref c) = ast.items[0] else {
            panic!()
        };
        let rule = c
            .rules
            .iter()
            .find(|r| r.rule_type.value == "monthly")
            .unwrap();
        let values: Vec<&str> = rule.args.iter().map(|a| a.value.as_str()).collect();
        assert_eq!(values, vec!["weekday"]);
    }

    #[test]
    fn parse_schedule_weekday_alias_expands() {
        // Regression guard for the parse_schedule_weekdays refactor.
        let ast =
            Parser::parse("job a:b {\n  every weekday at 09:00\n  runner { require default }\n}")
                .unwrap();
        let Item::Job(ref job) = ast.items[0] else {
            panic!("expected job")
        };
        let ScheduleKind::Weekdays { ref days, .. } = job.schedule.as_ref().unwrap().kind else {
            panic!("expected weekdays schedule")
        };
        assert_eq!(days.len(), 5);
        assert_eq!(days[0], Weekday::Monday);
        assert_eq!(days[4], Weekday::Friday);
    }

    #[test]
    fn parse_defaults() {
        let ast = Parser::parse(
            r#"defaults {
                timezone Europe/Vienna
                retry exponential { max_attempts 3; base 2s; cap 30s; jitter 0.25 }
                timeout 5m
            }"#,
        )
        .unwrap();
        assert!(matches!(ast.items[0], Item::Defaults(_)));
    }

    #[test]
    fn parse_import() {
        let ast = Parser::parse("import ./jobs/*.croniq").unwrap();
        if let Item::Import(ref i) = ast.items[0] {
            assert_eq!(i.path.value, "./jobs/*.croniq");
        }
    }

    #[test]
    fn parse_job_with_window() {
        let ast = Parser::parse(
            r#"job etl:heavy {
                every day at 02:00
                window 02:00..06:00
                timeout 3h
            }"#,
        )
        .unwrap();
        if let Item::Job(ref j) = ast.items[0] {
            // window should be in directives
            let window = j
                .directives
                .iter()
                .find(|d| matches!(d, DirectiveOrBlock::Directive(d) if d.key.value == "window"));
            assert!(window.is_some());
        }
    }

    #[test]
    fn parse_job_with_runner_block() {
        let ast = Parser::parse(
            r#"job ops:check {
                every 5 minutes
                runner { require health-check; require eu-west }
                timeout 30s
            }"#,
        )
        .unwrap();
        if let Item::Job(ref j) = ast.items[0] {
            let runner = j
                .directives
                .iter()
                .find(|d| matches!(d, DirectiveOrBlock::Block(b) if b.name.value == "runner"));
            assert!(runner.is_some());
        }
    }

    #[test]
    fn parse_job_key_with_variant() {
        let ast = Parser::parse("job ops:health:eu-west { every 5 minutes; timeout 30s }").unwrap();
        if let Item::Job(ref j) = ast.items[0] {
            assert_eq!(j.key.namespace, "ops");
            assert_eq!(j.key.name, "health");
            assert_eq!(j.key.variant.as_deref(), Some("eu-west"));
        }
    }

    #[test]
    fn invalid_job_key() {
        let err = Parser::parse("job nocolon { disabled }").unwrap_err();
        assert!(matches!(err, ParseError::InvalidJobKey { .. }));
    }

    #[test]
    fn parse_full_croniqfile() {
        let src = r#"
# Croniqfile

import ./calendars.croniq

server {
  listen :9090
  data_dir /var/lib/croniq
  db sqlite
}

vars {
  default_tz Europe/Vienna
}

defaults {
  timezone {vars.default_tz}
  timeout 5m
}

calendar business-days {
  timezone "Europe/Vienna"
  include weekly monday tuesday wednesday thursday friday
  exclude annual 01-01 12-25 12-26
}

job billing:invoice {
  every weekday at 02:00 {
    calendar business-days
  }
  timeout 15m
  metadata { team billing; priority high }
}

job etl:sync {
  every 15 minutes
  timeout 10m
}
"#;
        let ast = Parser::parse(src).unwrap();
        // Count non-comment items
        let significant: Vec<_> = ast
            .items
            .iter()
            .filter(|i| !matches!(i, Item::Comment(_)))
            .collect();
        assert_eq!(significant.len(), 7); // import, server, vars, defaults, calendar, 2 jobs
    }

    #[test]
    fn parse_concurrency_group_block() {
        let ast = Parser::parse("concurrency_group api-x { max_concurrent 1 }").unwrap();
        let Item::ConcurrencyGroup(ref g) = ast.items[0] else {
            panic!("expected a concurrency_group item, got {:?}", ast.items[0]);
        };
        assert_eq!(g.name.value, "api-x");
        assert_eq!(g.directives.len(), 1);
        assert_eq!(g.directives[0].key.value, "max_concurrent");
        assert_eq!(g.directives[0].args[0].value, "1");
    }

    #[test]
    fn parse_concurrency_group_accepts_a_quoted_name() {
        let ast = Parser::parse(r#"concurrency_group "billing api" { max_concurrent 2 }"#).unwrap();
        let Item::ConcurrencyGroup(ref g) = ast.items[0] else {
            panic!("expected a concurrency_group item");
        };
        assert_eq!(g.name.value, "billing api");
    }

    #[test]
    fn parse_job_with_concurrency_group_directive() {
        let ast =
            Parser::parse("job sync:tickets { every day at 03:00\n concurrency_group api-x }")
                .unwrap();
        let Item::Job(ref job) = ast.items[0] else {
            panic!("expected a job");
        };
        let has_group = job.directives.iter().any(|dob| {
            matches!(dob, DirectiveOrBlock::Directive(d)
                if d.key.value == "concurrency_group" && d.args[0].value == "api-x")
        });
        assert!(has_group, "job must carry the concurrency_group directive");
    }

#[test]
fn refusals_carry_their_own_diagnostics() {
    match Parser::parse("job a:b:c:d { disabled }").unwrap_err() {
        ParseError::InvalidJobKey { key, span } => {
            assert_eq!(key, "a:b:c:d");
            assert_eq!(span.offset, 4);
        }
        other => panic!("unexpected error {:?}", other),
    }
    match Parser::parse("job a:b { every day at 24:00 }").unwrap_err() {
        ParseError::InvalidTime { value, .. } => assert_eq!(value, "24:00"),
        other => panic!("unexpected error {:?}", other),
    }
    match Parser::parse("job a:b { every 32nd of month at 10:00 }").unwrap_err() {
        ParseError::InvalidOrdinal { value, .. } => assert_eq!(value, "32nd"),
        other => panic!("unexpected error {:?}", other),
    }
    match Parser::parse("job a:b { every 5 fortnights }").unwrap_err() {
        ParseError::General { message, .. } => {
            assert_eq!(message, "expected 'seconds', 'minutes', or 'hours', got 'fortnights'")
        }
        other => panic!("unexpected error {:?}", other),
    }
    match Parser::parse("widget { }").unwrap_err() {
        ParseError::General { message, .. } => {
            assert_eq!(message, "unknown top-level block: 'widget'")
        }
        other => panic!("unexpected error {:?}", other),
    }
    match Parser::parse("job a:b { every day at 02:00").unwrap_err() {
        ParseError::Unexpected { expected, .. } => assert_eq!(expected, "'}'"),
        other => panic!("unexpected error {:?}", other),
    }
}

#[test]
fn a_schedule_expression_without_a_schedule_is_refused_by_message() {
    match croniq::parser::parse_schedule_expr("timeout 5m").unwrap_err() {
        ParseError::General { message, .. } => {
            assert_eq!(message, "expression did not contain a schedule")
        }
        other => panic!("unexpected error {:?}", other),
    }
}

#[test]
fn calendar_refusals_carry_their_own_diagnostics() {
    match Parser::parse("calendar holidays { bogus weekly Mon }").unwrap_err() {
        ParseError::General { message, .. } => {
            assert_eq!(message, "expected 'include', 'exclude', or 'timezone', got 'bogus'")
        }
        other => panic!("unexpected error {:?}", other),
    }
    match Parser::parse("calendar holidays { include }").unwrap_err() {
        ParseError::Unexpected { expected, .. } => {
            assert_eq!(expected, "identifier, string, or placeholder")
        }
        other => panic!("unexpected error {:?}", other),
    }
}

#[test]
fn directive_block_refusals_carry_their_own_diagnostics() {
    match Parser::parse("server { listen a .. }").unwrap_err() {
        ParseError::Unexpected { expected, .. } => {
            assert_eq!(expected, "identifier, string, or placeholder")
        }
        other => panic!("unexpected error {:?}", other),
    }
    match Parser::parse("server listen").unwrap_err() {
        ParseError::Unexpected { expected, .. } => assert_eq!(expected, "'{'"),
        other => panic!("unexpected error {:?}", other),
    }
    match Parser::parse("vars { region eu").unwrap_err() {
        ParseError::Unexpected { expected, .. } => assert_eq!(expected, "'}'"),
        other => panic!("unexpected error {:?}", other),
    }
}

#[test]
fn schedule_option_refusals_carry_their_own_diagnostics() {
    match Parser::parse("job a:b { every 5m { timeout 30s .. } }").unwrap_err() {
        ParseError::Unexpected { expected, .. } => {
            assert_eq!(expected, "identifier, string, or placeholder")
        }
        other => panic!("unexpected error {:?}", other),
    }
}

#[test]
fn import_and_group_refusals_carry_their_own_diagnostics() {
    match Parser::parse("import {").unwrap_err() {
        ParseError::Unexpected { expected, .. } => {
            assert_eq!(expected, "identifier, string, or placeholder")
        }
        other => panic!("unexpected error {:?}", other),
    }
    match Parser::parse("concurrency_group etl max_concurrent 2").unwrap_err() {
        ParseError::Unexpected { expected, .. } => assert_eq!(expected, "'{'"),
        other => panic!("unexpected error {:?}", other),
    }
}
