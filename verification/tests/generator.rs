use croniq::generator::{
    format_job_block, format_schedule, format_schedule_block, format_top_level_block, next_fires,
    parse_calendar_rules, parse_schedule, placeholder_token, quote_if_needed, DeadLetterPayload,
    DirectivePayload, EnvPair, JobOptions, RetryPayload, RunnerExecPayload, SchedulePayload,
};
use croniq::parser::Parser;

#[test]
fn parse_interval() {
    let r = parse_schedule("every 5 minutes");
    assert!(r.ok, "{:?}", r.error);
    match r.schedule.unwrap() {
        SchedulePayload::Interval { count, unit } => {
            assert_eq!(count, 5);
            assert_eq!(unit, "minutes");
        }
        other => panic!("expected interval, got {other:?}"),
    }
}

#[test]
fn parse_daily() {
    let r = parse_schedule("every day at 09:30");
    assert!(r.ok, "{:?}", r.error);
    match r.schedule.unwrap() {
        SchedulePayload::Daily { hour, minute } => {
            assert_eq!(hour, 9);
            assert_eq!(minute, 30);
        }
        other => panic!("expected daily, got {other:?}"),
    }
}

#[test]
fn round_trip_interval() {
    let p = SchedulePayload::Interval {
        count: 15,
        unit: "minutes".into(),
    };
    assert_eq!(format_schedule(&p), "every 15 minutes");
}

#[test]
fn round_trip_weekday_collapse() {
    let p = SchedulePayload::Weekdays {
        days: vec![
            "monday".into(),
            "tuesday".into(),
            "wednesday".into(),
            "thursday".into(),
            "friday".into(),
        ],
        hour: 9,
        minute: 0,
    };
    assert_eq!(format_schedule(&p), "every weekday at 09:00");
}

#[test]
fn parse_garbage_returns_error() {
    let r = parse_schedule("not a schedule");
    assert!(!r.ok);
    assert!(r.error.is_some());
}

#[test]
fn parse_calendar_rules_empty_ok() {
    let r = parse_calendar_rules("");
    assert!(r.ok);
    assert!(r.rules.is_empty());
}

#[test]
fn next_fires_interval_steps_correctly() {
    let r = next_fires("every 5 minutes", "2026-04-25T18:00:00Z", 3);
    assert!(r.ok, "{:?}", r.error);
    assert_eq!(
        r.fires,
        vec![
            "2026-04-25T18:05:00Z".to_string(),
            "2026-04-25T18:10:00Z".to_string(),
            "2026-04-25T18:15:00Z".to_string(),
        ]
    );
}

#[test]
fn next_fires_daily_rolls_to_tomorrow_when_past() {
    let r = next_fires("every day at 09:00", "2026-04-25T18:00:00Z", 2);
    assert!(r.ok);
    // 09:00 today is past 18:00, so first fire is tomorrow.
    assert_eq!(
        r.fires,
        vec![
            "2026-04-26T09:00:00Z".to_string(),
            "2026-04-27T09:00:00Z".to_string(),
        ]
    );
}

#[test]
fn format_weekday_collapses_three_to_range() {
    let p = SchedulePayload::Weekdays {
        days: vec!["monday".into(), "tuesday".into(), "wednesday".into()],
        hour: 9,
        minute: 0,
    };
    assert_eq!(format_schedule(&p), "every Mon..Wed at 09:00");
}

#[test]
fn next_fires_weekdays_picks_next_match() {
    // 2026-04-25 is a Saturday. Asking for Mon/Wed/Fri should land
    // on Monday 2026-04-27.
    let r = next_fires(
        "every monday wednesday friday at 09:00",
        "2026-04-25T18:00:00Z",
        1,
    );
    assert!(r.ok, "{:?}", r.error);
    assert_eq!(r.fires, vec!["2026-04-27T09:00:00Z".to_string()]);
}

#[test]
fn schedule_once_line_is_unquoted() {
    // Bug #1: the bridge used to force-quote the datetime.
    let p = SchedulePayload::Once {
        at: "2026-12-31T23:00:00Z".into(),
    };
    assert_eq!(format_schedule(&p), "once at 2026-12-31T23:00:00Z");
}

#[test]
fn schedule_interval_singular_count_emits_singular() {
    // Issue #336: a count of 1 uses the grammatical singular
    // (`every 1 minute`), matching `croniq fmt`. The unit is pluralised
    // only for counts other than 1. Both forms parse, so this round-trips.
    let p = SchedulePayload::Interval {
        count: 1,
        unit: "minutes".into(),
    };
    assert_eq!(format_schedule(&p), "every 1 minute");
}

#[test]
fn schedule_block_wraps_in_job() {
    let p = SchedulePayload::Interval {
        count: 5,
        unit: "minutes".into(),
    };
    let out = format_schedule_block(&p, "reports:daily").unwrap();
    assert_eq!(out, "job reports:daily {\n  every 5 minutes\n}\n");
    // And it must be re-parseable at top level.
    Parser::parse(&out).unwrap();
}

#[test]
fn schedule_block_once_unquoted_and_valid() {
    let p = SchedulePayload::Once {
        at: "2026-12-31T23:00:00Z".into(),
    };
    let out = format_schedule_block(&p, "migration:v2").unwrap();
    assert!(out.contains("once at 2026-12-31T23:00:00Z"), "{out}");
    assert!(!out.contains('"'), "once should be unquoted: {out}");
    Parser::parse(&out).unwrap();
}

#[test]
fn schedule_block_rejects_invalid_key() {
    let p = SchedulePayload::Interval {
        count: 5,
        unit: "minutes".into(),
    };
    // Missing namespace separator — the parser rejects it.
    assert!(format_schedule_block(&p, "not-a-valid-key").is_err());
}


// ── Job options (Phase 1) ──────────────────────────────────────

fn interval5() -> SchedulePayload {
    SchedulePayload::Interval {
        count: 5,
        unit: "minutes".into(),
    }
}

#[test]
fn job_block_empty_options_equals_schedule_only() {
    let out =
        format_job_block(&interval5(), "reports:daily", &JobOptions::default()).unwrap();
    assert_eq!(out, "job reports:daily {\n  every 5 minutes\n}\n");
}

#[test]
fn job_block_description_floats_to_top_and_quotes() {
    let o = JobOptions {
        description: Some("Nightly ETL".into()),
        timeout: Some("15m".into()),
        ..Default::default()
    };
    let out = format_job_block(&interval5(), "etl:sync", &o).unwrap();
    assert_eq!(
        out,
        "job etl:sync {\n  description \"Nightly ETL\"\n\n  every 5 minutes\n  timeout 15m\n}\n"
    );
    Parser::parse(&out).unwrap();
}

#[test]
fn job_block_retry_exponential_inline() {
    let o = JobOptions {
        retry: Some(RetryPayload {
            strategy: "exponential".into(),
            max_attempts: Some(5),
            base: Some("5s".into()),
            cap: Some("2m".into()),
            jitter: Some("0.3".into()),
            delay: None,
        }),
        ..Default::default()
    };
    let out = format_job_block(&interval5(), "ops:check", &o).unwrap();
    assert!(
        out.contains("retry exponential { max_attempts 5; base 5s; cap 2m; jitter 0.3 }"),
        "{out}"
    );
    Parser::parse(&out).unwrap();
}

#[test]
fn job_block_retry_fixed_uses_delay_not_base() {
    let o = JobOptions {
        retry: Some(RetryPayload {
            strategy: "fixed".into(),
            max_attempts: Some(2),
            delay: Some("10s".into()),
            base: Some("SHOULD_BE_IGNORED".into()),
            ..Default::default()
        }),
        ..Default::default()
    };
    let out = format_job_block(&interval5(), "ops:check", &o).unwrap();
    assert!(
        out.contains("retry fixed { max_attempts 2; delay 10s }"),
        "{out}"
    );
    assert!(!out.contains("SHOULD_BE_IGNORED"), "{out}");
    Parser::parse(&out).unwrap();
}

#[test]
fn job_block_runner_require_prefer() {
    let o = JobOptions {
        runner_require: vec!["health-check".into(), "eu-west".into()],
        runner_prefer: vec!["gpu".into()],
        ..Default::default()
    };
    let out = format_job_block(&interval5(), "ops:check", &o).unwrap();
    assert!(
        out.contains("runner { require health-check; require eu-west; prefer gpu }"),
        "{out}"
    );
    Parser::parse(&out).unwrap();
}

#[test]
fn job_block_tags_are_quoted_because_of_equals() {
    let o = JobOptions {
        tags: vec!["env=prod".into(), "team=billing".into()],
        ..Default::default()
    };
    let out = format_job_block(&interval5(), "billing:run", &o).unwrap();
    assert!(out.contains("tags \"env=prod\" \"team=billing\""), "{out}");
    Parser::parse(&out).unwrap();
}

#[test]
fn job_block_singleton_and_max_concurrent() {
    let o1 = JobOptions {
        concurrency: Some("singleton".into()),
        ..Default::default()
    };
    let out1 = format_job_block(&interval5(), "a:b", &o1).unwrap();
    assert!(out1.contains("\n  singleton\n"), "{out1}");
    Parser::parse(&out1).unwrap();

    let o2 = JobOptions {
        concurrency: Some("3".into()),
        ..Default::default()
    };
    let out2 = format_job_block(&interval5(), "a:b", &o2).unwrap();
    assert!(out2.contains("max_concurrent 3"), "{out2}");
    Parser::parse(&out2).unwrap();
}

#[test]
fn job_block_dead_letter_enabled_false() {
    let o = JobOptions {
        dead_letter: Some(DeadLetterPayload {
            enabled: Some(false),
            ..Default::default()
        }),
        ..Default::default()
    };
    let out = format_job_block(&interval5(), "ops:sweep", &o).unwrap();
    assert!(out.contains("dead_letter { enabled false }"), "{out}");
    Parser::parse(&out).unwrap();
}

#[test]
fn job_block_dead_letter_full() {
    let o = JobOptions {
        dead_letter: Some(DeadLetterPayload {
            enabled: Some(true),
            retention: Some("60d".into()),
            operator_hint: Some("check billing db".into()),
            replay_max_age: Some("7d".into()),
        }),
        ..Default::default()
    };
    let out = format_job_block(&interval5(), "billing:invoice", &o).unwrap();
    assert!(
        out.contains(
            "dead_letter { enabled true; retention 60d; operator_hint \"check billing db\"; replay_max_age 7d }"
        ),
        "{out}"
    );
    Parser::parse(&out).unwrap();
}

#[test]
fn job_block_no_dead_letter_omits_block() {
    let out = format_job_block(&interval5(), "a:b", &JobOptions::default()).unwrap();
    assert!(!out.contains("dead_letter"), "{out}");
}

#[test]
fn job_block_rejects_invalid_key() {
    assert!(format_job_block(&interval5(), "nokey", &JobOptions::default()).is_err());
}

#[test]
fn job_block_full_house_round_trips() {
    let o = JobOptions {
        description: Some("Full example".into()),
        timeout: Some("30m".into()),
        retry: Some(RetryPayload {
            strategy: "exponential".into(),
            max_attempts: Some(3),
            base: Some("2s".into()),
            ..Default::default()
        }),
        runner_require: vec!["billing".into()],
        runner_prefer: vec![],
        tags: vec!["env=prod".into()],
        concurrency: Some("singleton".into()),
        ..Default::default()
    };
    let out = format_job_block(&interval5(), "billing:invoice", &o).unwrap();
    // Must round-trip through the parser cleanly.
    Parser::parse(&out).unwrap();
}

// ── Schedule-options + scheduling directives (Phase 2) ─────────

#[test]
fn job_block_schedule_options_attach_to_every() {
    let o = JobOptions {
        schedule_calendar: Some("business-days".into()),
        schedule_timezone: Some("Europe/Vienna".into()),
        not_before: Some("2026-01-01T00:00:00Z".into()),
        ..Default::default()
    };
    let out = format_job_block(&interval5(), "reports:daily", &o).unwrap();
    // The block canonicalises to a multi-line schedule block.
    assert!(out.contains("every 5 minutes {"), "{out}");
    assert!(out.contains("calendar business-days"), "{out}");
    assert!(out.contains("timezone Europe/Vienna"), "{out}");
    assert!(out.contains("not_before 2026-01-01T00:00:00Z"), "{out}");
    Parser::parse(&out).unwrap();
}

#[test]
fn job_block_schedule_options_dropped_on_once() {
    // `once` schedules can't carry a schedule-options block.
    let once = SchedulePayload::Once {
        at: "2026-12-31T23:00:00Z".into(),
    };
    let o = JobOptions {
        schedule_calendar: Some("business-days".into()),
        ..Default::default()
    };
    let out = format_job_block(&once, "migration:v2", &o).unwrap();
    assert!(
        !out.contains("calendar"),
        "options must be dropped on once: {out}"
    );
    assert!(out.contains("once at 2026-12-31T23:00:00Z"), "{out}");
    Parser::parse(&out).unwrap();
}

#[test]
fn job_block_window_and_execution_mode() {
    let o = JobOptions {
        window: Some("02:00..06:00".into()),
        execution_mode: Some("ephemeral".into()),
        catch_up: Some("latest".into()),
        max_queue_depth: Some(100),
        ..Default::default()
    };
    let out = format_job_block(&interval5(), "ops:sweep", &o).unwrap();
    assert!(out.contains("window 02:00..06:00"), "{out}");
    assert!(out.contains("execution_mode ephemeral"), "{out}");
    assert!(out.contains("catch_up latest"), "{out}");
    assert!(out.contains("max_queue_depth 100"), "{out}");
    Parser::parse(&out).unwrap();
}

#[test]
fn job_block_queue_ttl_none() {
    let o = JobOptions {
        queue_ttl: Some("none".into()),
        ..Default::default()
    };
    let out = format_job_block(&interval5(), "a:b", &o).unwrap();
    assert!(out.contains("queue_ttl none"), "{out}");
    Parser::parse(&out).unwrap();
}

// ── Top-level config blocks (Phase 3a) ─────────────────────────

fn dir(key: &str, args: &[&str]) -> DirectivePayload {
    DirectivePayload {
        key: key.into(),
        args: args.iter().map(|s| s.to_string()).collect(),
        qualifier: None,
        quote_qualifier: false,
        children: vec![],
    }
}

fn block(
    key: &str,
    qualifier: Option<&str>,
    children: Vec<DirectivePayload>,
) -> DirectivePayload {
    DirectivePayload {
        key: key.into(),
        args: vec![],
        qualifier: qualifier.map(|s| s.to_string()),
        quote_qualifier: false,
        children,
    }
}

/// Sub-block with a force-quoted qualifier (alerts channel/rule name).
fn qblock(key: &str, name: &str, children: Vec<DirectivePayload>) -> DirectivePayload {
    DirectivePayload {
        key: key.into(),
        args: vec![],
        qualifier: Some(name.into()),
        quote_qualifier: true,
        children,
    }
}

#[test]
fn alerts_channels_and_rules() {
    let dirs = vec![
        qblock(
            "channel",
            "oncall",
            vec![dir("shell", &["/usr/bin/page-oncall.sh"])],
        ),
        qblock(
            "rule",
            "prod-failures",
            vec![
                dir("when", &["job_failed"]),
                dir("job_key", &["billing:*"]),
                dir("channels", &["oncall"]),
            ],
        ),
    ];
    let out = format_top_level_block("alerts", &dirs).unwrap();
    assert!(out.contains("channel \"oncall\" {"), "{out}");
    assert!(out.contains("rule \"prod-failures\" {"), "{out}");
    assert!(out.contains("when job_failed"), "{out}");
    assert!(out.contains("job_key billing:*"), "{out}");
    assert!(out.contains("channels oncall"), "{out}");
    Parser::parse(&out).unwrap();
}

#[test]
fn alerts_webhook_channel_email_channel() {
    let dirs = vec![
        qblock(
            "channel",
            "hook",
            vec![
                dir("webhook", &["https://hooks.example.com/x"]),
                dir("timeout", &["10s"]),
            ],
        ),
        qblock(
            "channel",
            "team",
            vec![dir("email", &["a@example.com", "b@example.com"])],
        ),
    ];
    let out = format_top_level_block("alerts", &dirs).unwrap();
    assert!(out.contains("channel \"hook\" {"), "{out}");
    assert!(out.contains("webhook https://hooks.example.com/x"), "{out}");
    assert!(out.contains("channel \"team\" {"), "{out}");
    assert!(out.contains("email a@example.com b@example.com"), "{out}");
    Parser::parse(&out).unwrap();
}

#[test]
fn top_level_server_block() {
    let dirs = vec![
        dir("listen", &[":4000"]),
        dir("data_dir", &["/var/lib/croniq"]),
        dir("db", &["sqlite"]),
    ];
    let out = format_top_level_block("server", &dirs).unwrap();
    assert_eq!(
        out,
        "server {\n  listen :4000\n  data_dir /var/lib/croniq\n  db sqlite\n}\n"
    );
    Parser::parse(&out).unwrap();
}

#[test]
fn top_level_smtp_from_is_quoted() {
    // `from` has spaces + <> → must be quoted.
    let dirs = vec![
        dir("host", &["smtp.example.com"]),
        dir("port", &["587"]),
        dir("security", &["starttls"]),
        dir("from", &["Croniq <noreply@example.com>"]),
    ];
    let out = format_top_level_block("smtp", &dirs).unwrap();
    assert!(
        out.contains("from \"Croniq <noreply@example.com>\""),
        "{out}"
    );
    Parser::parse(&out).unwrap();
}

#[test]
fn top_level_mcp_multi_arg_and_bool() {
    let dirs = vec![
        dir("enabled", &["true"]),
        dir("allowed_hosts", &["localhost:8443", "[::1]:8443"]),
    ];
    let out = format_top_level_block("mcp", &dirs).unwrap();
    // `[::1]:8443` contains `[` `]` → quoted; the plain host stays bare.
    assert!(
        out.contains("allowed_hosts localhost:8443 \"[::1]:8443\""),
        "{out}"
    );
    Parser::parse(&out).unwrap();
}

#[test]
fn top_level_vars_arbitrary_entries() {
    let dirs = vec![
        dir("default_tz", &["Europe/Vienna"]),
        dir("region", &["eu"]),
    ];
    let out = format_top_level_block("vars", &dirs).unwrap();
    assert!(out.contains("default_tz Europe/Vienna"), "{out}");
    assert!(out.contains("region eu"), "{out}");
    Parser::parse(&out).unwrap();
}

#[test]
fn top_level_skips_empty_and_errors_when_all_empty() {
    // Empty keys/args are skipped.
    let dirs = vec![
        dir("listen", &[":4000"]),
        dir("", &["ignored"]),
        dir("db", &[""]),
    ];
    let out = format_top_level_block("server", &dirs).unwrap();
    assert_eq!(out, "server {\n  listen :4000\n}\n");
    // Nothing set at all → error (the UI shows a hint instead).
    assert!(format_top_level_block("server", &Vec::new()).is_err());
}

#[test]
fn top_level_rejects_unknown_block() {
    assert!(format_top_level_block("not_a_block", &vec![dir("x", &["y"])]).is_err());
}

// ── Nested config blocks (Phase 3b) ────────────────────────────

#[test]
fn observability_nested_sub_blocks() {
    let dirs = vec![
        block(
            "log",
            None,
            vec![
                dir("level", &["info"]),
                dir("format", &["json"]),
                dir("output", &["stderr"]),
            ],
        ),
        block(
            "metrics",
            None,
            vec![dir("listen", &[":9900"]), dir("path", &["/metrics"])],
        ),
    ];
    let out = format_top_level_block("observability", &dirs).unwrap();
    assert!(
        out.contains("log { level info; format json; output stderr }"),
        "{out}"
    );
    assert!(
        out.contains("metrics { listen :9900; path /metrics }"),
        "{out}"
    );
    Parser::parse(&out).unwrap();
}

#[test]
fn observability_empty_sub_block_is_skipped() {
    // A sub-block whose children are all blank must not emit an empty `{}`.
    let dirs = vec![
        block("log", None, vec![dir("level", &["info"])]),
        block("metrics", None, vec![dir("listen", &[""])]),
    ];
    let out = format_top_level_block("observability", &dirs).unwrap();
    assert!(out.contains("log {"), "{out}");
    assert!(
        !out.contains("metrics"),
        "empty metrics sub-block must be skipped: {out}"
    );
    Parser::parse(&out).unwrap();
}

#[test]
fn defaults_flat_plus_nested_retry() {
    let dirs = vec![
        dir("timezone", &["Europe/Vienna"]),
        dir("timeout", &["5m"]),
        block(
            "retry",
            Some("exponential"),
            vec![dir("max_attempts", &["3"]), dir("base", &["2s"])],
        ),
        block("dead_letter", None, vec![dir("retention", &["30d"])]),
    ];
    let out = format_top_level_block("defaults", &dirs).unwrap();
    assert!(out.contains("timezone Europe/Vienna"), "{out}");
    assert!(
        out.contains("retry exponential { max_attempts 3; base 2s }"),
        "{out}"
    );
    assert!(out.contains("dead_letter { retention 30d }"), "{out}");
    Parser::parse(&out).unwrap();
}

#[test]
fn oidc_flat_block_quotes_urls_only_when_needed() {
    let dirs = vec![
        dir("issuer", &["https://id.example.com"]),
        dir("client_id", &["croniq"]),
        dir("default_role", &["viewer"]),
    ];
    let out = format_top_level_block("oidc", &dirs).unwrap();
    assert!(out.contains("issuer https://id.example.com"), "{out}");
    assert!(out.contains("client_id croniq"), "{out}");
    Parser::parse(&out).unwrap();
}

// ── Placeholder quoting + runner shell/exec (Phase 3c) ─────────

#[test]
fn placeholders_stay_bare() {
    assert!(placeholder_token("{env.X}"));
    assert!(placeholder_token("{vars.default_tz}"));
    assert!(!placeholder_token("plain"));
    assert!(!placeholder_token("{a}{b}"));
    // A placeholder arg must NOT be quoted (else it becomes a literal).
    assert_eq!(
        quote_if_needed("{env.CRONIQ_JWT_SECRET}"),
        "{env.CRONIQ_JWT_SECRET}"
    );
    // A pull_api directive with a placeholder arg round-trips as a placeholder.
    let dirs = vec![dir("listen", &["{env.CRONIQ_PULL_LISTEN}"])];
    let out = format_top_level_block("pull_api", &dirs).unwrap();
    assert!(out.contains("listen {env.CRONIQ_PULL_LISTEN}"), "{out}");
    assert!(
        !out.contains("\"{env"),
        "placeholder must not be quoted: {out}"
    );
    Parser::parse(&out).unwrap();
}

#[test]
fn runner_exec_shell_with_env_placeholder() {
    let o = JobOptions {
        runner_exec: Some(RunnerExecPayload {
            mode: "shell".into(),
            command: Some("pg_dump -U app app > /backups/app.sql".into()),
            workdir: Some("/opt".into()),
            env: vec![EnvPair {
                key: "PGPASSWORD".into(),
                value: "{env.PGPASSWORD}".into(),
            }],
            ..Default::default()
        }),
        ..Default::default()
    };
    let out = format_job_block(&interval5(), "db:backup", &o).unwrap();
    assert!(out.contains("runner shell {"), "{out}");
    assert!(
        out.contains("command \"pg_dump -U app app > /backups/app.sql\""),
        "{out}"
    );
    assert!(out.contains("workdir /opt"), "{out}");
    // env placeholder stays bare inside the env sub-block.
    assert!(out.contains("env { PGPASSWORD {env.PGPASSWORD} }"), "{out}");
    Parser::parse(&out).unwrap();
}

#[test]
fn runner_exec_exec_args() {
    let o = JobOptions {
        runner_exec: Some(RunnerExecPayload {
            mode: "exec".into(),
            args: vec!["/usr/sbin/logrotate".into(), "/etc/logrotate.conf".into()],
            ..Default::default()
        }),
        ..Default::default()
    };
    let out = format_job_block(&interval5(), "ops:logrotate", &o).unwrap();
    assert!(
        out.contains("runner exec { args /usr/sbin/logrotate /etc/logrotate.conf }"),
        "{out}"
    );
    Parser::parse(&out).unwrap();
}

#[test]
fn runner_exec_shell_without_command_is_omitted() {
    let o = JobOptions {
        runner_exec: Some(RunnerExecPayload {
            mode: "shell".into(),
            workdir: Some("/opt".into()),
            ..Default::default()
        }),
        ..Default::default()
    };
    let out = format_job_block(&interval5(), "a:b", &o).unwrap();
    assert!(
        !out.contains("runner"),
        "no command → no runner block: {out}"
    );
    Parser::parse(&out).unwrap();
}

#[test]
fn next_fires_monthly_last_day_and_leap_february() {
    let r = next_fires("every last of month at 12:00", "2028-02-10T00:00:00Z", 2);
    assert!(r.ok, "{:?}", r.error);
    assert_eq!(r.fires, vec!["2028-02-29T12:00:00Z".to_string(), "2028-03-31T12:00:00Z".to_string()]);
}

#[test]
fn next_fires_once_fires_only_when_ahead() {
    let ahead = next_fires("once at 2030-01-01T00:00:00Z", "2026-04-25T18:00:00Z", 3);
    assert!(ahead.ok);
    assert_eq!(ahead.fires, vec!["2030-01-01T00:00:00Z".to_string()]);
    let past = next_fires("once at 2020-01-01T00:00:00Z", "2026-04-25T18:00:00Z", 3);
    assert!(past.ok);
    assert!(past.fires.is_empty());
}

#[test]
fn next_fires_rejects_bad_now_and_empty_line() {
    let r = next_fires("every 5 minutes", "yesterday", 1);
    assert!(!r.ok);
    assert!(r.error.unwrap().starts_with("invalid now_iso: "));
    let e = next_fires("   ", "2026-04-25T18:00:00Z", 1);
    assert!(!e.ok);
    assert_eq!(e.error.as_deref(), Some("schedule is empty"));
}

#[test]
fn next_fires_keeps_sub_second_cursor_for_intervals() {
    let r = next_fires("every 30 seconds", "2026-04-25T18:00:00.500Z", 2);
    assert_eq!(r.fires, vec!["2026-04-25T18:00:30Z".to_string(), "2026-04-25T18:01:00Z".to_string()]);
}

#[test]
fn top_level_refuses_unknown_names_with_their_name() {
    let err = format_top_level_block(" nope ", &Vec::new()).unwrap_err();
    assert_eq!(err, "unsupported top-level block: 'nope'");
    let err = format_top_level_block("server", &Vec::new()).unwrap_err();
    assert_eq!(err, "no settings — fill at least one field");
}

#[test]
fn quoting_escapes_backslashes_and_quotes() {
    assert_eq!(quote_if_needed("a b"), "\"a b\"");
    assert_eq!(quote_if_needed("say \"hi\"\\"), "\"say \\\"hi\\\"\\\\\"");
    assert_eq!(quote_if_needed(""), "\"\"");
    assert_eq!(quote_if_needed("plain-word_1.2"), "plain-word_1.2");
}

#[test]
fn parse_schedule_reports_ordinals_and_days_by_name() {
    let r = parse_schedule("every 1st 22nd last of month at 06:00");
    match r.schedule.expect("monthly reads") {
        SchedulePayload::Monthly { ordinals, hour, minute } => {
            assert_eq!(ordinals, vec!["1st", "22nd", "last"]);
            assert_eq!((hour, minute), (6, 0));
        }
        other => panic!("expected monthly, got {other:?}"),
    }
    let w = parse_schedule("every weekend at 10:30");
    match w.schedule.expect("weekdays read") {
        SchedulePayload::Weekdays { days, .. } => assert_eq!(days, vec!["saturday", "sunday"]),
        other => panic!("expected weekdays, got {other:?}"),
    }
}

#[test]
fn next_fires_monthly_takes_the_earliest_listed_day() {
    let r = next_fires("every 15th 1st of month at 00:00", "2026-01-16T00:00:00Z", 2);
    assert!(r.ok, "{:?}", r.error);
    assert_eq!(r.fires, vec!["2026-02-01T00:00:00Z".to_string(), "2026-02-15T00:00:00Z".to_string()]);
}

#[test]
fn calendar_block_from_rule_lines_is_canonical() {
    let lines = vec!["include weekly Mon..Fri".to_string(), "exclude annual 12-25".to_string()];
    let out = croniq::generator::format_calendar_block_inner(&lines, "  holidays ").unwrap();
    let expected = croniq::format::format(
        &croniq::parser::Parser::parse(
            "calendar holidays {\n  include weekly Mon..Fri\n  exclude annual 12-25\n}\n",
        )
        .unwrap(),
    );
    assert_eq!(out, expected);
    assert!(out.starts_with("calendar holidays {"));
    let unnamed = croniq::generator::format_calendar_block_inner(&lines, "   ").unwrap();
    assert!(unnamed.starts_with("calendar calendar-name {"));
    let err = croniq::generator::format_calendar_block_inner(&vec!["bogus weekly Mon".to_string()], "c")
        .unwrap_err();
    assert!(err.contains("expected 'include', 'exclude', or 'timezone', got 'bogus'"));
}
