use croniq::parser::Parser;
use croniq::validate::{validate, Diagnostic, Severity};


fn validate_src(src: &str) -> Vec<Diagnostic> {
    let ast = Parser::parse(src).unwrap();
    validate(&ast)
}

#[test]
fn valid_croniqfile() {
    let diags = validate_src(
        r#"
        calendar biz {
            include weekly monday tuesday wednesday thursday friday
        }
        job billing:invoice {
            every weekday at 09:00 { calendar biz }
            timeout 5m
        }
    "#,
    );
    let errors: Vec<_> = diags
        .iter()
        .filter(|d| d.severity == Severity::Error)
        .collect();
    assert!(errors.is_empty(), "unexpected errors: {errors:?}");
}

fn errors(diags: &[Diagnostic]) -> Vec<&Diagnostic> {
    diags
        .iter()
        .filter(|d| d.severity == Severity::Error)
        .collect()
}

fn warnings(diags: &[Diagnostic]) -> Vec<&Diagnostic> {
    diags
        .iter()
        .filter(|d| d.severity == Severity::Warning)
        .collect()
}

#[test]
fn calendar_weekly_alias_no_errors() {
    // #356: `weekday`/`weekend` are first-class — validate must
    // agree with the loader, which now compiles them.
    let diags = validate_src(
        r#"
        calendar biz { include weekly weekday }
        calendar off { include weekly weekend }
    "#,
    );
    assert!(errors(&diags).is_empty(), "unexpected: {diags:?}");
}

#[test]
fn calendar_weekly_bad_day_errors() {
    let diags = validate_src("calendar biz { include weekly funday }");
    assert!(
        errors(&diags)
            .iter()
            .any(|d| d.message == "unknown weekday: funday"),
        "got: {diags:?}"
    );
}

#[test]
fn calendar_window_bad_time_errors() {
    let diags = validate_src(r#"calendar biz { include window "25:00".."26:00" }"#);
    assert!(
        errors(&diags)
            .iter()
            .any(|d| d.message == "invalid time: 25:00"),
        "got: {diags:?}"
    );
}

#[test]
fn calendar_window_valid_ok() {
    let diags = validate_src(r#"calendar biz { include window "08:00".."18:00" }"#);
    assert!(errors(&diags).is_empty(), "unexpected: {diags:?}");
}

#[test]
fn calendar_monthly_non_numeric_errors() {
    let diags = validate_src("calendar biz { include monthly foo }");
    assert!(
        errors(&diags)
            .iter()
            .any(|d| d.message == "invalid day: foo"),
        "got: {diags:?}"
    );
}

#[test]
fn calendar_monthly_out_of_range_warns() {
    // The loader accepts `monthly 45` (the rule is inert), so this
    // must stay a Warning — validate may not be stricter.
    let diags = validate_src("calendar biz { include monthly 45 }");
    assert!(errors(&diags).is_empty(), "unexpected errors: {diags:?}");
    assert!(
        warnings(&diags)
            .iter()
            .any(|d| d.message.contains("can never match")),
        "got: {diags:?}"
    );
}

#[test]
fn calendar_annual_bad_format_errors() {
    let diags = validate_src(
        r#"
        calendar biz {
            exclude annual notadate
            exclude annual 2026-02-30
        }
    "#,
    );
    let errs = errors(&diags);
    assert!(
        errs.iter()
            .any(|d| d.message.contains("invalid annual date format"))
    );
    assert!(errs.iter().any(|d| d.message == "invalid date: 2026-02-30"));
}

#[test]
fn calendar_annual_implausible_warns() {
    // `13-45` parses at load time and simply never matches.
    let diags = validate_src("calendar biz { exclude annual 13-45 }");
    assert!(errors(&diags).is_empty(), "unexpected errors: {diags:?}");
    assert!(
        warnings(&diags)
            .iter()
            .any(|d| d.message == "date 13-45 can never match"),
        "got: {diags:?}"
    );
}

#[test]
fn calendar_annual_ignored_arg_warns() {
    // Len-5 args with too many dashes are silently skipped by the
    // loader — surface that as a Warning, not an Error.
    let diags = validate_src("calendar biz { exclude annual 1-2-3 }");
    assert!(errors(&diags).is_empty(), "unexpected errors: {diags:?}");
    assert!(
        warnings(&diags)
            .iter()
            .any(|d| d.message.contains("is ignored by the scheduler")),
        "got: {diags:?}"
    );
}

#[test]
fn calendar_weekly_placeholder_skipped() {
    // Placeholders resolve at compile time — no diagnostics.
    let diags = validate_src(
        r#"
        vars { days "weekday" }
        calendar biz { include weekly {vars.days} }
    "#,
    );
    assert!(errors(&diags).is_empty(), "unexpected: {diags:?}");
}

#[test]
fn duplicate_job_key() {
    let diags = validate_src(
        r#"
        job etl:sync { every 5 minutes; timeout 5m }
        job etl:sync { every 10 minutes; timeout 5m }
    "#,
    );
    assert!(
        diags
            .iter()
            .any(|d| d.message.contains("duplicate job key"))
    );
}

#[test]
fn undefined_calendar_ref() {
    let diags = validate_src(
        r#"
        job etl:sync {
            every day at 02:00 { calendar nonexistent }
            timeout 5m
        }
    "#,
    );
    assert!(diags.iter().any(|d| d.message.contains("not defined")));
}

#[test]
fn conflicting_runner_constraints() {
    let diags = validate_src(
        r#"
        job etl:sync {
            every 5 minutes
            runner { require billing; exclude billing }
            timeout 5m
        }
    "#,
    );
    assert!(
        diags
            .iter()
            .any(|d| d.message.contains("required and excluded"))
    );
}

// ── Sub-30s interval warnings ─────────────────────────────────────────────

#[test]
fn interval_10_seconds_emits_warning() {
    let diags = validate_src(r#"job ops:ping { every 10 seconds; timeout 30s }"#);
    assert!(
        diags
            .iter()
            .any(|d| d.severity == Severity::Warning && d.message.contains("10s")),
        "expected a sub-30s warning, got: {diags:?}"
    );
}

#[test]
fn interval_29_seconds_emits_warning() {
    let diags = validate_src(r#"job ops:ping { every 29 seconds; timeout 30s }"#);
    assert!(
        diags.iter().any(|d| d.severity == Severity::Warning),
        "expected a warning for 29s interval"
    );
}

#[test]
fn interval_30_seconds_no_warning() {
    let diags = validate_src(r#"job ops:ping { every 30 seconds; timeout 30s }"#);
    let warnings: Vec<_> = diags
        .iter()
        .filter(|d| d.severity == Severity::Warning && d.message.contains("poll cycle"))
        .collect();
    assert!(
        warnings.is_empty(),
        "unexpected poll-cycle warning for 30s: {warnings:?}"
    );
}

#[test]
fn interval_5_minutes_no_warning() {
    let diags = validate_src(r#"job etl:sync { every 5 minutes; timeout 5m }"#);
    let errors: Vec<_> = diags
        .iter()
        .filter(|d| d.severity == Severity::Error)
        .collect();
    assert!(errors.is_empty(), "unexpected errors: {errors:?}");
    let poll_warns: Vec<_> = diags
        .iter()
        .filter(|d| d.severity == Severity::Warning && d.message.contains("poll cycle"))
        .collect();
    assert!(
        poll_warns.is_empty(),
        "unexpected poll-cycle warning for 5m"
    );
}

#[test]
fn interval_1_hour_no_warning() {
    let diags = validate_src(r#"job reports:daily { every 1 hours; timeout 30m }"#);
    assert!(
        !diags.iter().any(|d| d.message.contains("poll cycle")),
        "should not warn for hourly intervals"
    );
}

#[test]
fn interval_1_second_emits_warning() {
    let diags = validate_src(r#"job debug:tick { every 1 seconds; timeout 5s }"#);
    assert!(
        diags
            .iter()
            .any(|d| d.severity == Severity::Warning && d.message.contains("1s")),
        "expected a sub-30s warning for 1s interval"
    );
}

// ── runner shell / runner exec ────────────────────────────────────────────

#[test]
fn runner_shell_with_command_validates() {
    let diags = validate_src(
        r#"
        job ops:dump {
            every day at 03:00
            runner shell { command "echo hi" }
        }
    "#,
    );
    let errs: Vec<_> = diags
        .iter()
        .filter(|d| d.severity == Severity::Error)
        .collect();
    assert!(errs.is_empty(), "unexpected errors: {errs:?}");
}

#[test]
fn runner_shell_without_command_errors() {
    let diags = validate_src(
        r#"
        job ops:dump {
            every day at 03:00
            runner shell { workdir /opt }
        }
    "#,
    );
    assert!(
        diags
            .iter()
            .any(|d| d.severity == Severity::Error && d.message.contains("requires `command")),
        "expected `requires command` error, got: {diags:?}"
    );
}

#[test]
fn runner_exec_without_args_errors() {
    let diags = validate_src(
        r#"
        job ops:rotate {
            every 1 hour
            runner exec { workdir /opt }
        }
    "#,
    );
    assert!(
        diags
            .iter()
            .any(|d| d.severity == Severity::Error && d.message.contains("requires `args")),
        "expected `requires args` error, got: {diags:?}"
    );
}

#[test]
fn runner_shell_rejects_args_directive() {
    let diags = validate_src(
        r#"
        job ops:dump {
            every 1 hour
            runner shell {
                command "echo hi"
                args /bin/echo
            }
        }
    "#,
    );
    assert!(
        diags.iter().any(|d| d.severity == Severity::Error
            && d.message.contains("only valid in `runner exec`")),
        "expected mutually-exclusive error, got: {diags:?}"
    );
}

#[test]
fn unknown_runner_qualifier_errors() {
    let diags = validate_src(
        r#"
        job ops:weird {
            every 1 hour
            runner http { url "https://example.com" }
        }
    "#,
    );
    assert!(
        diags.iter().any(|d| d.severity == Severity::Error
            && d.message.contains("unknown runner type 'http'")),
        "expected unknown-qualifier error, got: {diags:?}"
    );
}

#[test]
fn duplicate_runner_exec_blocks_error() {
    let diags = validate_src(
        r#"
        job ops:dump {
            every 1 hour
            runner shell { command "echo a" }
            runner exec { args /bin/echo b }
        }
    "#,
    );
    assert!(
        diags
            .iter()
            .any(|d| d.severity == Severity::Error && d.message.contains("more than one")),
        "expected duplicate-exec error, got: {diags:?}"
    );
}

// ── singleton / max_concurrent (issue #278) ───────────────────────────────

#[test]
fn singleton_alone_is_valid() {
    let diags = validate_src(r#"job etl:sync { every 5 minutes; singleton }"#);
    let errors: Vec<_> = diags
        .iter()
        .filter(|d| d.severity == Severity::Error)
        .collect();
    assert!(errors.is_empty(), "unexpected errors: {errors:?}");
}

#[test]
fn max_concurrent_alone_is_valid() {
    let diags = validate_src(r#"job etl:sync { every 5 minutes; max_concurrent 3 }"#);
    let errors: Vec<_> = diags
        .iter()
        .filter(|d| d.severity == Severity::Error)
        .collect();
    assert!(errors.is_empty(), "unexpected errors: {errors:?}");
}

#[test]
fn singleton_and_max_concurrent_are_mutually_exclusive() {
    let diags = validate_src(
        r#"
        job etl:sync {
            every 5 minutes
            singleton
            max_concurrent 3
        }
    "#,
    );
    assert!(
        diags
            .iter()
            .any(|d| d.severity == Severity::Error && d.message.contains("mutually exclusive")),
        "expected mutual-exclusion error, got: {diags:?}"
    );
}

#[test]
fn max_concurrent_zero_errors() {
    let diags = validate_src(r#"job etl:sync { every 5 minutes; max_concurrent 0 }"#);
    assert!(
        diags
            .iter()
            .any(|d| d.severity == Severity::Error && d.message.contains("greater than zero")),
        "expected zero-value error, got: {diags:?}"
    );
}

#[test]
fn max_concurrent_non_numeric_errors() {
    let diags = validate_src(r#"job etl:sync { every 5 minutes; max_concurrent many }"#);
    assert!(
        diags
            .iter()
            .any(|d| d.severity == Severity::Error && d.message.contains("positive integer")),
        "expected non-numeric error, got: {diags:?}"
    );
}

#[test]
fn max_concurrent_without_argument_errors() {
    let diags = validate_src(r#"job etl:sync { every 5 minutes; max_concurrent }"#);
    assert!(
        diags.iter().any(|d| d.severity == Severity::Error
            && d.message.contains("requires a positive integer argument")),
        "expected missing-argument error, got: {diags:?}"
    );
}

// ── ephemeral + concurrency guard (issue #302) ────────────────────────────

/// True when any diagnostic is the ephemeral/guard-combo rejection.
fn has_ephemeral_guard_error(diags: &[Diagnostic]) -> bool {
    diags.iter().any(|d| {
        d.severity == Severity::Error && d.message.contains("no effect on the `ephemeral` job")
    })
}

#[test]
fn ephemeral_prefix_with_singleton_errors() {
    let diags = validate_src(r#"job beat:tick { ephemeral every 1 minute; singleton }"#);
    assert!(
        has_ephemeral_guard_error(&diags),
        "singleton on an ephemeral job must be rejected, got: {diags:?}"
    );
}

#[test]
fn ephemeral_prefix_with_max_concurrent_errors() {
    let diags = validate_src(r#"job beat:tick { ephemeral every 1 minute; max_concurrent 3 }"#);
    assert!(
        has_ephemeral_guard_error(&diags),
        "max_concurrent on an ephemeral job must be rejected, got: {diags:?}"
    );
}

#[test]
fn ephemeral_directive_with_singleton_errors() {
    let diags = validate_src(
        r#"job beat:tick { every 1 minute; execution_mode ephemeral; singleton }"#,
    );
    assert!(
        has_ephemeral_guard_error(&diags),
        "execution_mode ephemeral + singleton must be rejected, got: {diags:?}"
    );
}

#[test]
fn ephemeral_default_with_singleton_errors() {
    // Ephemeral inherited from a `defaults` block declared before the job.
    let diags = validate_src(
        r#"
        defaults { execution_mode ephemeral }
        job beat:tick { every 1 minute; singleton }
    "#,
    );
    assert!(
        has_ephemeral_guard_error(&diags),
        "singleton on a defaults-ephemeral job must be rejected, got: {diags:?}"
    );
}

#[test]
fn ephemeral_without_guard_is_valid() {
    let diags = validate_src(r#"job beat:tick { ephemeral every 1 minute }"#);
    assert!(
        !has_ephemeral_guard_error(&diags),
        "a plain ephemeral job must not be rejected, got: {diags:?}"
    );
}

#[test]
fn queued_with_singleton_has_no_ephemeral_error() {
    // The default (queued) job keeps the guard — no ephemeral rejection.
    let diags = validate_src(r#"job etl:sync { every 1 minute; singleton }"#);
    assert!(
        !has_ephemeral_guard_error(&diags),
        "queued + singleton must not trigger the ephemeral rejection, got: {diags:?}"
    );
}

#[test]
fn queued_prefix_overrides_ephemeral_default_no_error() {
    // A `queued` schedule prefix overrides an ephemeral default, so the
    // guard is valid again — mirrors compile_job's precedence.
    let diags = validate_src(
        r#"
        defaults { execution_mode ephemeral }
        job etl:sync { queued every 1 minute; singleton }
    "#,
    );
    assert!(
        !has_ephemeral_guard_error(&diags),
        "queued prefix must un-reject the guard, got: {diags:?}"
    );
}

#[test]
fn execution_mode_queued_directive_overrides_ephemeral_default_no_error() {
    let diags = validate_src(
        r#"
        defaults { execution_mode ephemeral }
        job etl:sync { every 1 minute; execution_mode queued; singleton }
    "#,
    );
    assert!(
        !has_ephemeral_guard_error(&diags),
        "execution_mode queued must un-reject the guard, got: {diags:?}"
    );
}

#[test]
fn defaults_after_job_does_not_reject_earlier_job() {
    // A defaults block declared *after* a job does not apply to it, matching
    // compile_job's in-order handling — so no false-positive rejection.
    let diags = validate_src(
        r#"
        job etl:sync { every 1 minute; singleton }
        defaults { execution_mode ephemeral }
    "#,
    );
    assert!(
        !has_ephemeral_guard_error(&diags),
        "a later defaults block must not retroactively reject an earlier job, got: {diags:?}"
    );
}
