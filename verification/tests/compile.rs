use croniq::compile::{
    compile, parse_duration_secs, runner_exec_json, ChannelConfig, ChannelKind, ExecutionMode, RuleTrigger, RunnerExec, RuntimeConfig,
    MAX_CONCURRENT_METADATA_KEY, RUNNER_EXEC_METADATA_KEY,
};
use croniq::ast::Croniqfile;
use croniq::parser::Parser;
use croniq::placeholders::HostInputs;

/// Compiles with no environment variables and no files.
fn compile_no_host(ast: &Croniqfile) -> RuntimeConfig {
    compile(ast, &HostInputs { env: Vec::new(), files: Vec::new() })
}

/// Map-style lookups on a list of `(key, value)` entries.
trait Entries {
    fn get(&self, key: &str) -> Option<&String>;
    fn contains_key(&self, key: &str) -> bool;
}

impl Entries for Vec<(String, String)> {
    fn get(&self, key: &str) -> Option<&String> {
        self.iter().find(|(k, _)| k == key).map(|(_, v)| v)
    }
    fn contains_key(&self, key: &str) -> bool {
        self.iter().any(|(k, _)| k == key)
    }
}

/// Name lookups on the channel list.
trait Channels {
    fn get(&self, name: &str) -> Option<&ChannelConfig>;
    fn contains_key(&self, name: &str) -> bool;
}

impl Channels for Vec<ChannelConfig> {
    fn get(&self, name: &str) -> Option<&ChannelConfig> {
        self.iter().find(|c| c.name == name)
    }
    fn contains_key(&self, name: &str) -> bool {
        self.iter().any(|c| c.name == name)
    }
}

/// Reads the JSON of a runner payload back into a `RunnerExec`.
fn decode_exec(raw: &str) -> RunnerExec {
    let v: serde_json::Value = serde_json::from_str(raw).expect("metadata is valid JSON");
    let obj = v.as_object().expect("payload is an object");
    let text = |k: &str| obj.get(k).and_then(|x| x.as_str()).map(|s| s.to_string());
    let env: Vec<(String, String)> = match obj.get("env") {
        Some(e) => e
            .as_object()
            .expect("env is an object")
            .iter()
            .map(|(k, v)| (k.clone(), v.as_str().expect("env value is a string").to_string()))
            .collect(),
        None => Vec::new(),
    };
    match obj.get("kind").and_then(|k| k.as_str()) {
        Some("shell") => RunnerExec::Shell {
            command: text("command").expect("shell payload has a command"),
            workdir: text("workdir"),
            user: text("user"),
            env,
        },
        Some("exec") => RunnerExec::Exec {
            argv: obj
                .get("argv")
                .and_then(|a| a.as_array())
                .expect("exec payload has argv")
                .iter()
                .map(|x| x.as_str().expect("argv item is a string").to_string())
                .collect(),
            workdir: text("workdir"),
            user: text("user"),
            env,
        },
        other => panic!("unknown payload kind {other:?}"),
    }
}

#[test]
fn compile_basic() {
    let ast = Parser::parse(
        r#"
        server { listen :4000; db sqlite }
        job etl:sync { every 15 minutes; timeout 10m }
    "#,
    )
    .unwrap();
    let cfg = compile_no_host(&ast);
    assert_eq!(cfg.server.listen, ":4000");
    assert_eq!(cfg.jobs.len(), 1);
    assert_eq!(cfg.jobs[0].key, "etl:sync");
    assert_eq!(cfg.jobs[0].schedule_summary, "every 15 minutes");
}

#[test]
fn strict_calendars_defaults_true() {
    // No policy block → fail closed by default (issue #361).
    let ast = Parser::parse("job a:b { every 1 hours }").unwrap();
    assert!(compile_no_host(&ast).policy.strict_calendars);
}

#[test]
fn strict_calendars_explicit_false() {
    let ast = Parser::parse("policy { strict_calendars false }").unwrap();
    assert!(!compile_no_host(&ast).policy.strict_calendars);
}

#[test]
fn strict_calendars_accepts_bool_synonyms() {
    for v in ["true", "yes", "on", "1"] {
        let ast = Parser::parse(&format!("policy {{ strict_calendars {v} }}")).unwrap();
        assert!(compile_no_host(&ast).policy.strict_calendars, "value {v}");
    }
    for v in ["false", "no", "off", "0"] {
        let ast = Parser::parse(&format!("policy {{ strict_calendars {v} }}")).unwrap();
        assert!(!compile_no_host(&ast).policy.strict_calendars, "value {v}");
    }
}

#[test]
fn compile_server_app_url() {
    // URLs must be quoted — an unquoted `//` would start a line comment.
    let ast = Parser::parse(r#"server { listen :4000; app_url "https://cron.example.com" }"#)
        .unwrap();
    let cfg = compile_no_host(&ast);
    assert_eq!(
        cfg.server.app_url.as_deref(),
        Some("https://cron.example.com")
    );
}

#[test]
fn compile_server_without_app_url_is_none() {
    let ast = Parser::parse("server { listen :4000 }").unwrap();
    assert_eq!(compile_no_host(&ast).server.app_url, None);
}

#[test]
fn compile_server_execution_retention() {
    let ast = Parser::parse("server { listen :4000; execution_retention 30d }").unwrap();
    assert_eq!(
        compile_no_host(&ast).server.execution_retention.as_deref(),
        Some("30d")
    );
    // Absent ⇒ None (pruning disabled, history kept).
    let ast = Parser::parse("server { listen :4000 }").unwrap();
    assert_eq!(compile_no_host(&ast).server.execution_retention, None);
}

#[test]
fn compile_keep_last_default_and_job_override() {
    let ast = Parser::parse(
        r#"
        defaults { keep_last 100 }
        job a:one { every 1 minute }
        job b:two { every 1 minute; keep_last 5 }
        job c:eph { ephemeral every 1 minute; keep_last 5 }
    "#,
    )
    .unwrap();
    let cfg = compile_no_host(&ast);
    let job = |k: &str| cfg.jobs.iter().find(|j| j.key == k).unwrap();
    // Inherits the defaults value.
    assert_eq!(job("a:one").keep_last, Some(100));
    // Job-level directive overrides the default.
    assert_eq!(job("b:two").keep_last, Some(5));
    // Ephemeral jobs never persist executions ⇒ keep_last forced off.
    assert_eq!(job("c:eph").keep_last, None);
}

#[test]
fn compile_pull_api_trigger_dedup_window() {
    let ast = Parser::parse(
        r#"
        pull_api {
            lease_ttl 60s
            trigger_dedup_window 30m
        }
    "#,
    )
    .unwrap();
    let cfg = compile_no_host(&ast);
    let pull_api = cfg.pull_api.expect("pull_api block must compile");
    assert_eq!(pull_api.lease_ttl, "60s");
    assert_eq!(pull_api.trigger_dedup_window, "30m");
}

#[test]
fn compile_pull_api_trigger_dedup_window_defaults_to_10m() {
    let ast = Parser::parse("pull_api { lease_ttl 60s }").unwrap();
    let cfg = compile_no_host(&ast);
    assert_eq!(
        cfg.pull_api.expect("pull_api block").trigger_dedup_window,
        "10m"
    );
}

#[test]
fn compile_with_defaults() {
    let ast = Parser::parse(
        r#"
        defaults {
            timezone Europe/Vienna
            timeout 5m
        }
        job etl:sync { every 15 minutes }
    "#,
    )
    .unwrap();
    let cfg = compile_no_host(&ast);
    assert_eq!(cfg.jobs[0].timezone.as_deref(), Some("Europe/Vienna"));
    assert_eq!(cfg.jobs[0].timeout.as_deref(), Some("5m"));
}

#[test]
fn compile_job_overrides_defaults() {
    let ast = Parser::parse(
        r#"
        defaults { timeout 5m }
        job etl:sync { every 15 minutes; timeout 10m }
    "#,
    )
    .unwrap();
    let cfg = compile_no_host(&ast);
    assert_eq!(cfg.jobs[0].timeout.as_deref(), Some("10m"));
}

// ── dead_letter `enabled` + block field-merge (issue #348) ────────────────

#[test]
fn dead_letter_enabled_false_parses() {
    let ast =
        Parser::parse(r#"job x:y { every 5 minutes; dead_letter { enabled false } }"#).unwrap();
    let cfg = compile_no_host(&ast);
    assert!(
        !cfg.jobs[0].dead_letter.enabled,
        "`dead_letter {{ enabled false }}` must turn dead-lettering off"
    );
}

#[test]
fn dead_letter_enabled_unknown_value_keeps_inherited() {
    // Default is enabled; an unrecognised value must not silently flip it.
    let ast =
        Parser::parse(r#"job x:y { every 5 minutes; dead_letter { enabled maybe } }"#).unwrap();
    let cfg = compile_no_host(&ast);
    assert!(cfg.jobs[0].dead_letter.enabled);
}

#[test]
fn defaults_dead_letter_enabled_false_is_inherited() {
    let ast = Parser::parse(
        r#"
        defaults { dead_letter { enabled false } }
        job x:y { every 5 minutes }
    "#,
    )
    .unwrap();
    let cfg = compile_no_host(&ast);
    assert!(
        !cfg.jobs[0].dead_letter.enabled,
        "a job with no dead_letter block must inherit the defaults `enabled false`"
    );
}

#[test]
fn job_dead_letter_block_merges_over_defaults_enabled() {
    // The sharp case from #348: a job that sets only `retention` must
    // keep the inherited `enabled false` rather than resetting it to the
    // built-in `true`.
    let ast = Parser::parse(
        r#"
        defaults { dead_letter { enabled false } }
        job x:y { every 5 minutes; dead_letter { retention 7d } }
    "#,
    )
    .unwrap();
    let cfg = compile_no_host(&ast);
    assert!(
        !cfg.jobs[0].dead_letter.enabled,
        "field-merge: a job dead_letter block must not reset inherited `enabled`"
    );
    assert_eq!(cfg.jobs[0].dead_letter.retention.as_deref(), Some("7d"));
}

#[test]
fn defaults_dead_letter_retention_survives_job_operator_hint() {
    // Pre-existing footgun fixed by the field-merge: setting a job's
    // operator_hint no longer silently reverts retention to the built-in
    // 30d default.
    let ast = Parser::parse(
        r#"
        defaults { dead_letter { retention 60d } }
        job x:y { every 5 minutes; dead_letter { operator_hint "check db" } }
    "#,
    )
    .unwrap();
    let cfg = compile_no_host(&ast);
    assert_eq!(cfg.jobs[0].dead_letter.retention.as_deref(), Some("60d"));
    assert_eq!(
        cfg.jobs[0].dead_letter.operator_hint.as_deref(),
        Some("check db")
    );
    assert!(cfg.jobs[0].dead_letter.enabled);
}

#[test]
fn dead_letter_replay_max_age_parses() {
    let ast =
        Parser::parse(r#"job x:y { every 5 minutes; dead_letter { replay_max_age 7d } }"#)
            .unwrap();
    let cfg = compile_no_host(&ast);
    assert_eq!(
        cfg.jobs[0].dead_letter.replay_max_age.as_deref(),
        Some("7d")
    );
}

#[test]
fn dead_letter_replay_max_age_defaults_to_none() {
    let ast =
        Parser::parse(r#"job x:y { every 5 minutes; dead_letter { retention 30d } }"#).unwrap();
    let cfg = compile_no_host(&ast);
    assert!(cfg.jobs[0].dead_letter.replay_max_age.is_none());
}

#[test]
fn dead_letter_replay_max_age_inherits_from_defaults() {
    // Field-merge: a job that sets only operator_hint still inherits the
    // fleet-wide replay_max_age from defaults {}.
    let ast = Parser::parse(
        r#"
        defaults { dead_letter { replay_max_age 14d } }
        job x:y { every 5 minutes; dead_letter { operator_hint "check db" } }
    "#,
    )
    .unwrap();
    let cfg = compile_no_host(&ast);
    assert_eq!(
        cfg.jobs[0].dead_letter.replay_max_age.as_deref(),
        Some("14d")
    );
}

#[test]
fn dead_letter_replay_max_age_job_overrides_defaults() {
    let ast = Parser::parse(
        r#"
        defaults { dead_letter { replay_max_age 14d } }
        job x:y { every 5 minutes; dead_letter { replay_max_age 2d } }
    "#,
    )
    .unwrap();
    let cfg = compile_no_host(&ast);
    assert_eq!(
        cfg.jobs[0].dead_letter.replay_max_age.as_deref(),
        Some("2d")
    );
}

#[test]
fn job_retry_block_merges_over_defaults() {
    // Same field-merge for retry: the job block overrides only what it
    // names. A missing strategy qualifier keeps the inherited strategy;
    // an explicit one overrides it, while unnamed fields still inherit.
    let ast = Parser::parse(
        r#"
        defaults { retry exponential { max_attempts 5; base 2s } }
        job keep:strategy   { every 5 minutes; retry { cap 90s } }
        job switch:strategy { every 5 minutes; retry fixed { delay 3s } }
    "#,
    )
    .unwrap();
    let cfg = compile_no_host(&ast);

    let keep = cfg.jobs.iter().find(|j| j.key == "keep:strategy").unwrap();
    assert_eq!(
        keep.retry.strategy, "exponential",
        "no qualifier keeps inherited strategy"
    );
    assert_eq!(keep.retry.max_attempts, 5, "unnamed field inherits");
    assert_eq!(
        keep.retry.base.as_deref(),
        Some("2s"),
        "unnamed field inherits"
    );
    assert_eq!(
        keep.retry.cap.as_deref(),
        Some("90s"),
        "named field overrides"
    );

    let switch = cfg
        .jobs
        .iter()
        .find(|j| j.key == "switch:strategy")
        .unwrap();
    assert_eq!(
        switch.retry.strategy, "fixed",
        "qualifier overrides strategy"
    );
    assert_eq!(switch.retry.max_attempts, 5, "other fields still inherit");
    assert_eq!(switch.retry.delay.as_deref(), Some("3s"));
}

#[test]
fn compile_job_tags_directive_populates_tags() {
    let ast = Parser::parse(
        r#"
        job billing:invoice {
            every 15 minutes
            tags "env=prod" "team=ops"
        }
    "#,
    )
    .unwrap();
    let cfg = compile_no_host(&ast);
    assert_eq!(cfg.jobs.len(), 1);
    assert_eq!(
        cfg.jobs[0].tags,
        vec!["env=prod".to_string(), "team=ops".to_string()],
        "DSL `tags` args must populate JobConfig.tags in order"
    );
}

#[test]
fn compile_job_tags_dedupes_preserving_first_occurrence() {
    let ast = Parser::parse(
        r#"
        job etl:sync {
            every 15 minutes
            tags "env=prod" "team=ops" "env=prod"
        }
    "#,
    )
    .unwrap();
    let cfg = compile_no_host(&ast);
    assert_eq!(
        cfg.jobs[0].tags,
        vec!["env=prod".to_string(), "team=ops".to_string()],
        "duplicate tag values collapse, keeping first-seen order"
    );
}

#[test]
fn compile_job_without_tags_directive_has_empty_tags() {
    let ast = Parser::parse(r#"job etl:sync { every 15 minutes }"#).unwrap();
    let cfg = compile_no_host(&ast);
    assert!(cfg.jobs[0].tags.is_empty());
}

// ── singleton / max_concurrent (issue #278) ──────────────────────────────

#[test]
fn compile_singleton_sets_max_concurrent_one() {
    let ast = Parser::parse(r#"job etl:sync { every 15 minutes; singleton }"#).unwrap();
    let cfg = compile_no_host(&ast);
    assert_eq!(cfg.jobs[0].max_concurrent, Some(1));
    assert_eq!(
        cfg.jobs[0]
            .metadata
            .get(MAX_CONCURRENT_METADATA_KEY)
            .map(String::as_str),
        Some("1"),
        "`singleton` must stamp __max_concurrent=1 into the job metadata"
    );
}

#[test]
fn compile_max_concurrent_sets_limit() {
    let ast = Parser::parse(r#"job etl:sync { every 15 minutes; max_concurrent 3 }"#).unwrap();
    let cfg = compile_no_host(&ast);
    assert_eq!(cfg.jobs[0].max_concurrent, Some(3));
    assert_eq!(
        cfg.jobs[0]
            .metadata
            .get(MAX_CONCURRENT_METADATA_KEY)
            .map(String::as_str),
        Some("3")
    );
}

#[test]
fn compile_max_concurrent_zero_is_ignored() {
    // Lenient compile: zero is invalid (validate.rs errors on it) and
    // must not compile into a limit that would block the job entirely.
    let ast = Parser::parse(r#"job etl:sync { every 15 minutes; max_concurrent 0 }"#).unwrap();
    let cfg = compile_no_host(&ast);
    assert_eq!(cfg.jobs[0].max_concurrent, None);
    assert!(
        !cfg.jobs[0]
            .metadata
            .contains_key(MAX_CONCURRENT_METADATA_KEY)
    );
}

#[test]
fn compile_max_concurrent_non_numeric_is_ignored() {
    let ast =
        Parser::parse(r#"job etl:sync { every 15 minutes; max_concurrent many }"#).unwrap();
    let cfg = compile_no_host(&ast);
    assert_eq!(cfg.jobs[0].max_concurrent, None);
    assert!(
        !cfg.jobs[0]
            .metadata
            .contains_key(MAX_CONCURRENT_METADATA_KEY)
    );
}

#[test]
fn compile_without_concurrency_directive_is_unlimited() {
    let ast = Parser::parse(r#"job etl:sync { every 15 minutes }"#).unwrap();
    let cfg = compile_no_host(&ast);
    assert_eq!(cfg.jobs[0].max_concurrent, None);
    assert!(
        !cfg.jobs[0]
            .metadata
            .contains_key(MAX_CONCURRENT_METADATA_KEY)
    );
}

#[test]
fn compile_ephemeral_drops_singleton_guard() {
    // Issue #302: the concurrency guard can't be enforced for ephemeral
    // jobs (executions aren't persisted), so compile must not stamp an
    // inert `__max_concurrent`. `ephemeral` schedule prefix here.
    let ast =
        Parser::parse(r#"job beat:tick { ephemeral every 1 minute; singleton }"#).unwrap();
    let cfg = compile_no_host(&ast);
    assert_eq!(cfg.jobs[0].execution_mode, ExecutionMode::Ephemeral);
    assert_eq!(cfg.jobs[0].max_concurrent, None);
    assert!(
        !cfg.jobs[0]
            .metadata
            .contains_key(MAX_CONCURRENT_METADATA_KEY),
        "ephemeral job must not carry an inert __max_concurrent"
    );
}

#[test]
fn compile_ephemeral_directive_drops_max_concurrent_guard() {
    // Same, but ephemeral comes from the `execution_mode` directive and
    // the guard from `max_concurrent N`.
    let ast = Parser::parse(
        r#"job beat:tick { every 1 minute; execution_mode ephemeral; max_concurrent 3 }"#,
    )
    .unwrap();
    let cfg = compile_no_host(&ast);
    assert_eq!(cfg.jobs[0].execution_mode, ExecutionMode::Ephemeral);
    assert_eq!(cfg.jobs[0].max_concurrent, None);
    assert!(
        !cfg.jobs[0]
            .metadata
            .contains_key(MAX_CONCURRENT_METADATA_KEY)
    );
}

#[test]
fn compile_ephemeral_default_drops_singleton_guard() {
    // Ephemeral inherited from a `defaults` block still drops the guard.
    let ast = Parser::parse(
        r#"
        defaults { execution_mode ephemeral }
        job beat:tick { every 1 minute; singleton }
    "#,
    )
    .unwrap();
    let cfg = compile_no_host(&ast);
    assert_eq!(cfg.jobs[0].execution_mode, ExecutionMode::Ephemeral);
    assert_eq!(cfg.jobs[0].max_concurrent, None);
    assert!(
        !cfg.jobs[0]
            .metadata
            .contains_key(MAX_CONCURRENT_METADATA_KEY)
    );
}

#[test]
fn compile_queued_keeps_singleton_guard() {
    // A queued job (the default) keeps the guard — only ephemeral drops it.
    let ast = Parser::parse(r#"job etl:sync { every 1 minute; singleton }"#).unwrap();
    let cfg = compile_no_host(&ast);
    assert_eq!(cfg.jobs[0].max_concurrent, Some(1));
    assert_eq!(
        cfg.jobs[0]
            .metadata
            .get(MAX_CONCURRENT_METADATA_KEY)
            .map(String::as_str),
        Some("1")
    );
}

#[test]
fn vars_placeholder_resolves_in_calendar_timezone() {
    let ast = Parser::parse(
        r#"
        vars { default_tz Europe/Vienna }
        calendar business-days {
            timezone {vars.default_tz}
            include weekly monday tuesday wednesday thursday friday
        }
    "#,
    )
    .unwrap();
    let cfg = compile_no_host(&ast);
    assert_eq!(cfg.calendars.len(), 1);
    assert_eq!(
        cfg.calendars[0].timezone.as_deref(),
        Some("Europe/Vienna"),
        "calendar timezone must resolve {{vars.default_tz}} to its value"
    );
}

#[test]
fn vars_placeholder_resolves_in_defaults_and_job_timezone() {
    let ast = Parser::parse(
        r#"
        vars { default_tz Europe/Vienna; alt_tz UTC }
        defaults { timezone {vars.default_tz} }
        job etl:sync { every 15 minutes { timezone {vars.alt_tz} } }
        job etl:report { every 1 hours }
    "#,
    )
    .unwrap();
    let cfg = compile_no_host(&ast);
    // Job with explicit schedule timezone option uses its own var.
    let sync = cfg.jobs.iter().find(|j| j.key == "etl:sync").unwrap();
    assert_eq!(sync.timezone.as_deref(), Some("UTC"));
    // Job without override inherits the resolved defaults timezone.
    let report = cfg.jobs.iter().find(|j| j.key == "etl:report").unwrap();
    assert_eq!(report.timezone.as_deref(), Some("Europe/Vienna"));
}

#[test]
fn vars_resolution_works_when_vars_block_is_after_consumer() {
    // collect_vars runs as a pre-pass, so block ordering must not matter.
    let ast = Parser::parse(
        r#"
        calendar business-days { timezone {vars.default_tz} }
        vars { default_tz Europe/Vienna }
    "#,
    )
    .unwrap();
    let cfg = compile_no_host(&ast);
    assert_eq!(cfg.calendars[0].timezone.as_deref(), Some("Europe/Vienna"));
}

#[test]
fn unresolved_vars_placeholder_falls_back_to_raw_value() {
    // Missing var → raw `vars.X` is preserved (does not panic).
    let ast = Parser::parse(
        r#"
        calendar holidays { timezone {vars.missing} }
    "#,
    )
    .unwrap();
    let cfg = compile_no_host(&ast);
    assert_eq!(cfg.calendars[0].timezone.as_deref(), Some("vars.missing"));
}

fn exec_payload(cfg: &RuntimeConfig, key: &str) -> RunnerExec {
    let job = cfg.jobs.iter().find(|j| j.key == key).expect("job present");
    let raw = job
        .metadata
        .get(RUNNER_EXEC_METADATA_KEY)
        .expect("__runner_exec metadata stamped");
    decode_exec(raw)
}

#[test]
fn runner_shell_block_compiles_to_metadata_stamp() {
    let ast = Parser::parse(
        r#"
        job ops:dump {
            every day at 03:00
            runner shell {
                command "pg_dump -U app app > /backups/app.sql"
                workdir /opt
                user 0
                env { PGPASSWORD secret-stuff; LANG en_US.UTF-8 }
            }
        }
    "#,
    )
    .unwrap();
    let cfg = compile_no_host(&ast);
    let exec = exec_payload(&cfg, "ops:dump");
    match exec {
        RunnerExec::Shell {
            command,
            workdir,
            user,
            env,
        } => {
            assert_eq!(command, "pg_dump -U app app > /backups/app.sql");
            assert_eq!(workdir.as_deref(), Some("/opt"));
            assert_eq!(user.as_deref(), Some("0"));
            assert_eq!(
                env.get("PGPASSWORD").map(String::as_str),
                Some("secret-stuff")
            );
            assert_eq!(env.get("LANG").map(String::as_str), Some("en_US.UTF-8"));
        }
        other => panic!("expected Shell, got {other:?}"),
    }
}

#[test]
fn runner_exec_block_compiles_argv() {
    let ast = Parser::parse(
        r#"
        job ops:rotate {
            every 1 hour
            runner exec {
                args /usr/local/bin/logrotate /etc/logrotate.conf
            }
        }
    "#,
    )
    .unwrap();
    let cfg = compile_no_host(&ast);
    let exec = exec_payload(&cfg, "ops:rotate");
    match exec {
        RunnerExec::Exec { argv, env, .. } => {
            assert_eq!(
                argv,
                vec!["/usr/local/bin/logrotate", "/etc/logrotate.conf"]
            );
            assert!(env.is_empty());
        }
        other => panic!("expected Exec, got {other:?}"),
    }
}

#[test]
fn runner_placement_and_exec_blocks_coexist() {
    let ast = Parser::parse(
        r#"
        job ops:dump {
            every day at 03:00
            runner { require shell-runner; sticky }
            runner shell { command "echo hello" }
        }
    "#,
    )
    .unwrap();
    let cfg = compile_no_host(&ast);
    let job = cfg.jobs.iter().find(|j| j.key == "ops:dump").unwrap();
    assert!(job.runner.require.contains(&"shell-runner".to_string()));
    assert!(job.runner.sticky);
    assert!(job.metadata.contains_key(RUNNER_EXEC_METADATA_KEY));
}

#[test]
fn runner_shell_without_command_does_not_stamp() {
    // Compile is best-effort; validate.rs surfaces the error. We just
    // need to make sure we do not stamp a half-baked payload.
    let ast = Parser::parse(
        r#"
        job ops:broken {
            every 1 hour
            runner shell { workdir /opt }
        }
    "#,
    )
    .unwrap();
    let cfg = compile_no_host(&ast);
    let job = cfg.jobs.iter().find(|j| j.key == "ops:broken").unwrap();
    assert!(!job.metadata.contains_key(RUNNER_EXEC_METADATA_KEY));
}

#[test]
fn runner_exec_resolves_placeholders_in_argv_and_env() {
    let ast = Parser::parse(
        r#"
        vars { backup_dir /var/backups }
        job ops:dump {
            every 1 hour
            runner exec {
                args /usr/bin/pg_dump -f {vars.backup_dir} app
                env { TARGET {vars.backup_dir} }
            }
        }
    "#,
    )
    .unwrap();
    let cfg = compile_no_host(&ast);
    let exec = exec_payload(&cfg, "ops:dump");
    match exec {
        RunnerExec::Exec { argv, env, .. } => {
            assert_eq!(
                argv,
                vec!["/usr/bin/pg_dump", "-f", "/var/backups", "app"],
                "argv should resolve isolated {{vars.X}} placeholders"
            );
            assert_eq!(env.get("TARGET").map(String::as_str), Some("/var/backups"));
        }
        other => panic!("expected Exec, got {other:?}"),
    }
}

#[test]
fn runner_shell_command_with_double_braces_is_stamped() {
    // Reproducer for issue #89: {{...}} inside a quoted command string
    // (Docker/Go-template format) must be passed verbatim to the runner
    // and must not confuse the block tokenizer into dropping the command.
    let ast = Parser::parse(
        r#"
        job test:docker-format-string {
            every 1 hour
            runner { require shell-runner }
            runner shell {
                command "docker ps --format '{{.Image}}'"
            }
        }
    "#,
    )
    .unwrap();
    let cfg = compile_no_host(&ast);
    let exec = exec_payload(&cfg, "test:docker-format-string");
    match exec {
        RunnerExec::Shell { command, .. } => {
            assert_eq!(
                command, "docker ps --format '{{.Image}}'",
                "{{...}} must survive the DSL round-trip verbatim"
            );
        }
        other => panic!("expected Shell, got {other:?}"),
    }
}

// ─── mcp { allowed_hosts ... } (issue #114) ───

#[test]
fn compile_mcp_block_without_allowed_hosts_yields_empty_vec() {
    let ast = Parser::parse("mcp { enabled true }").unwrap();
    let cfg = compile_no_host(&ast);
    let mcp = cfg.mcp.expect("mcp block compiled");
    assert!(mcp.enabled);
    assert!(
        mcp.allowed_hosts.is_empty(),
        "absent `allowed_hosts` directive must leave the Vec empty so the server \
         falls through to rmcp's loopback default"
    );
}

#[test]
fn compile_mcp_allowed_hosts_collects_all_args() {
    // Includes the IPv6 literal `::1` to lock its lexing as a single
    // bare ident — `:` is part of `is_ident_char` (lexer.rs).
    let ast = Parser::parse(
        r#"mcp {
            enabled true
            allowed_hosts cron.internal admin.example.com 127.0.0.1 ::1
        }"#,
    )
    .unwrap();
    let cfg = compile_no_host(&ast);
    let mcp = cfg.mcp.expect("mcp block compiled");
    assert!(mcp.enabled);
    assert_eq!(
        mcp.allowed_hosts,
        vec![
            "cron.internal".to_string(),
            "admin.example.com".to_string(),
            "127.0.0.1".to_string(),
            "::1".to_string(),
        ]
    );
}

#[test]
fn compile_mcp_allowed_hosts_resolves_placeholders() {
    let ast = Parser::parse(
        r#"
        vars { proxy_host edge.internal }
        mcp {
            allowed_hosts {vars.proxy_host} localhost
        }
        "#,
    )
    .unwrap();
    let cfg = compile_no_host(&ast);
    let mcp = cfg.mcp.expect("mcp block compiled");
    assert_eq!(
        mcp.allowed_hosts,
        vec!["edge.internal".to_string(), "localhost".to_string()]
    );
}

#[test]
fn compile_mcp_duplicate_allowed_hosts_last_wins() {
    let ast = Parser::parse(
        r#"mcp {
            allowed_hosts first.example.com
            allowed_hosts second.example.com third.example.com
        }"#,
    )
    .unwrap();
    let cfg = compile_no_host(&ast);
    let mcp = cfg.mcp.expect("mcp block compiled");
    assert_eq!(
        mcp.allowed_hosts,
        vec![
            "second.example.com".to_string(),
            "third.example.com".to_string(),
        ],
        "second `allowed_hosts` directive must replace the first — matches \
         the `enabled` directive behaviour in the same block"
    );
}

// ─── #138 auth block ─────────────────────────────────────────

#[test]
fn compile_auth_block_default_unset() {
    let ast = Parser::parse("server { listen :4000 }").unwrap();
    let cfg = compile_no_host(&ast);
    assert_eq!(cfg.auth.password.enabled, None);
}

#[test]
fn compile_auth_password_disabled() {
    let ast = Parser::parse(
        r#"
        auth {
            password { enabled false }
        }
        "#,
    )
    .unwrap();
    let cfg = compile_no_host(&ast);
    assert_eq!(cfg.auth.password.enabled, Some(false));
}

#[test]
fn compile_auth_password_explicit_true() {
    let ast = Parser::parse(
        r#"
        auth {
            password { enabled true }
        }
        "#,
    )
    .unwrap();
    let cfg = compile_no_host(&ast);
    assert_eq!(cfg.auth.password.enabled, Some(true));
}

#[test]
fn compile_auth_password_accepts_aliases() {
    // Mirror the policy block — accept the same loose boolean syntax.
    for (value, want) in [
        ("yes", true),
        ("on", true),
        ("1", true),
        ("no", false),
        ("off", false),
        ("0", false),
    ] {
        let src = format!("auth {{ password {{ enabled {value} }} }}");
        let ast = Parser::parse(&src).unwrap();
        let cfg = compile_no_host(&ast);
        assert_eq!(
            cfg.auth.password.enabled,
            Some(want),
            "value {value:?} should map to {want}"
        );
    }
}

#[test]
fn compile_auth_totp_required_defaults_unset() {
    let ast = Parser::parse("auth { password { enabled true } }").unwrap();
    let cfg = compile_no_host(&ast);
    assert_eq!(cfg.auth.totp.required, None);
}

#[test]
fn compile_auth_totp_required_true() {
    let ast = Parser::parse(
        r#"
        auth {
            totp { required true }
        }
        "#,
    )
    .unwrap();
    let cfg = compile_no_host(&ast);
    assert_eq!(cfg.auth.totp.required, Some(true));
}

#[test]
fn compile_auth_totp_required_accepts_aliases() {
    for (value, want) in [("yes", true), ("on", true), ("1", true), ("off", false)] {
        let src = format!("auth {{ totp {{ required {value} }} }}");
        let ast = Parser::parse(&src).unwrap();
        let cfg = compile_no_host(&ast);
        assert_eq!(
            cfg.auth.totp.required,
            Some(want),
            "value {value:?} should map to {want}"
        );
    }
}

// ─── #140 alerts block ─────────────────────────────────────────

#[test]
fn compile_alerts_empty_when_absent() {
    let ast = Parser::parse("server { listen :4000 }").unwrap();
    let cfg = compile_no_host(&ast);
    assert!(cfg.alerts.channels.is_empty());
    assert!(cfg.alerts.rules.is_empty());
}

#[test]
fn compile_alerts_shell_channel_and_rule() {
    let ast = Parser::parse(
        r#"
        alerts {
            channel "ops-paging" {
                shell "/usr/local/bin/page-oncall.sh"
            }
            rule "billing-fail" {
                when job_failed
                job_key "billing:*"
                min_attempts 2
                dead_letter true
                throttle 10m
                channels "ops-paging"
            }
        }
        "#,
    )
    .unwrap();
    let cfg = compile_no_host(&ast);
    let ch = cfg
        .alerts
        .channels
        .get("ops-paging")
        .expect("channel parsed");
    assert_eq!(ch.name, "ops-paging");
    match &ch.kind {
        ChannelKind::Shell { command } => {
            assert_eq!(command, "/usr/local/bin/page-oncall.sh");
        }
        other => panic!("expected Shell, got {other:?}"),
    }

    assert_eq!(cfg.alerts.rules.len(), 1);
    let rule = &cfg.alerts.rules[0];
    assert_eq!(rule.name, "billing-fail");
    assert!(matches!(rule.trigger, RuleTrigger::JobFailed));
    assert_eq!(rule.job_key_glob, "billing:*");
    assert_eq!(rule.min_attempts, 2);
    assert!(rule.dead_letter_only);
    assert_eq!(rule.throttle.as_deref(), Some("10m"));
    assert_eq!(rule.channels, vec!["ops-paging"]);
}

#[test]
fn compile_alerts_rule_defaults() {
    // No `job_key`, `min_attempts`, `dead_letter`, or `throttle`
    // directives — defaults must apply.
    let ast = Parser::parse(
        r#"
        alerts {
            channel "anything" { shell "/bin/true" }
            rule "any-failure" {
                when job_failed
                channels "anything"
            }
        }
        "#,
    )
    .unwrap();
    let cfg = compile_no_host(&ast);
    let rule = &cfg.alerts.rules[0];
    assert_eq!(rule.job_key_glob, "*");
    assert_eq!(rule.min_attempts, 1);
    assert!(!rule.dead_letter_only);
    assert!(rule.throttle.is_none());
}

#[test]
fn compile_alerts_unknown_trigger_drops_rule() {
    // `when garbage_value` silently drops the rule — a typo must
    // not turn into "fire on every job_failed" by default.
    let ast = Parser::parse(
        r#"
        alerts {
            channel "x" { shell "/bin/true" }
            rule "future-rule" {
                when typo_or_future_trigger
                channels "x"
            }
        }
        "#,
    )
    .unwrap();
    let cfg = compile_no_host(&ast);
    assert!(
        cfg.alerts.rules.is_empty(),
        "unsupported trigger drops the rule"
    );
    // Channel still compiles — rule references aren't a hard error.
    assert!(cfg.alerts.channels.contains_key("x"));
}

// ─── #140 PR-4 SLA-miss trigger ─────────────────────────────────

#[test]
fn compile_alerts_sla_miss_without_expected_within_drops() {
    // `when job_sla_missed` without `expected_within` is
    // meaningless — must drop, not fire on every claimed
    // execution.
    let ast = Parser::parse(
        r#"
        alerts {
            channel "x" { shell "/bin/true" }
            rule "broken-sla" {
                when job_sla_missed
                channels "x"
            }
        }
        "#,
    )
    .unwrap();
    let cfg = compile_no_host(&ast);
    assert!(
        cfg.alerts.rules.is_empty(),
        "SLA rule without expected_within must drop"
    );
}

#[test]
fn compile_alerts_sla_miss_with_expected_within() {
    let ast = Parser::parse(
        r#"
        alerts {
            channel "ops" { shell "/bin/true" }
            rule "slow-billing" {
                when job_sla_missed
                job_key "billing:*"
                expected_within 15m
                throttle 1h
                channels "ops"
            }
        }
        "#,
    )
    .unwrap();
    let cfg = compile_no_host(&ast);
    assert_eq!(cfg.alerts.rules.len(), 1);
    let rule = &cfg.alerts.rules[0];
    assert!(matches!(rule.trigger, RuleTrigger::JobSlaMissed));
    assert_eq!(rule.job_key_glob, "billing:*");
    assert_eq!(rule.expected_within.as_deref(), Some("15m"));
    assert_eq!(rule.throttle.as_deref(), Some("1h"));
}

// ─── #250 missed-fire trigger ───────────────────────────────────

#[test]
fn compile_alerts_missed_fire_without_expected_within_drops() {
    // `when job_missed_fire` without `expected_within` (grace) is
    // meaningless — must drop, not fire the moment a job is late.
    let ast = Parser::parse(
        r#"
        alerts {
            channel "x" { shell "/bin/true" }
            rule "broken-liveness" {
                when job_missed_fire
                channels "x"
            }
        }
        "#,
    )
    .unwrap();
    let cfg = compile_no_host(&ast);
    assert!(
        cfg.alerts.rules.is_empty(),
        "missed-fire rule without expected_within must drop"
    );
}

#[test]
fn compile_alerts_missed_fire_with_grace() {
    let ast = Parser::parse(
        r#"
        alerts {
            channel "ops" { shell "/bin/true" }
            rule "backup-liveness" {
                when job_missed_fire
                job_key "billing:*"
                expected_within 10m
                throttle 1h
                channels "ops"
            }
        }
        "#,
    )
    .unwrap();
    let cfg = compile_no_host(&ast);
    assert_eq!(cfg.alerts.rules.len(), 1);
    let rule = &cfg.alerts.rules[0];
    assert!(matches!(rule.trigger, RuleTrigger::JobMissedFire));
    assert_eq!(rule.job_key_glob, "billing:*");
    assert_eq!(rule.expected_within.as_deref(), Some("10m"));
    assert_eq!(rule.throttle.as_deref(), Some("1h"));
}

// ─── #140 PR-3 email channel ───────────────────────────────────

#[test]
fn compile_alerts_email_single_recipient() {
    let ast = Parser::parse(
        r#"
        alerts {
            channel "ops-email" {
                email ops@example.com
            }
        }
        "#,
    )
    .unwrap();
    let cfg = compile_no_host(&ast);
    let ch = cfg
        .alerts
        .channels
        .get("ops-email")
        .expect("channel parsed");
    match &ch.kind {
        ChannelKind::Email { recipients } => {
            assert_eq!(recipients, &vec!["ops@example.com".to_string()]);
        }
        other => panic!("expected Email, got {other:?}"),
    }
}

#[test]
fn compile_alerts_email_multiple_recipients() {
    let ast = Parser::parse(
        r#"
        alerts {
            channel "ops-team" {
                email "ops@example.com" "oncall@example.com" "leads@example.com"
            }
        }
        "#,
    )
    .unwrap();
    let cfg = compile_no_host(&ast);
    let ch = cfg.alerts.channels.get("ops-team").expect("channel parsed");
    match &ch.kind {
        ChannelKind::Email { recipients } => {
            assert_eq!(
                recipients,
                &vec![
                    "ops@example.com".to_string(),
                    "oncall@example.com".to_string(),
                    "leads@example.com".to_string(),
                ]
            );
        }
        other => panic!("expected Email, got {other:?}"),
    }
}

#[test]
fn compile_alerts_email_with_placeholder() {
    // The `{vars.X}` placeholder resolution path must work for
    // each recipient — useful when ops mailbox is per-environment.
    let ast = Parser::parse(
        r#"
        vars {
            ops_mailbox "ops-prod@example.com"
        }
        alerts {
            channel "ops" {
                email {vars.ops_mailbox}
            }
        }
        "#,
    )
    .unwrap();
    let cfg = compile_no_host(&ast);
    let ch = cfg.alerts.channels.get("ops").expect("channel parsed");
    match &ch.kind {
        ChannelKind::Email { recipients } => {
            assert_eq!(recipients, &vec!["ops-prod@example.com".to_string()]);
        }
        other => panic!("expected Email, got {other:?}"),
    }
}

// ─── #140 PR-2 webhook channel ─────────────────────────────────

#[test]
fn compile_alerts_webhook_minimal() {
    let ast = Parser::parse(
        r#"
        alerts {
            channel "internal-hook" {
                webhook http://internal.svc/hook
            }
        }
        "#,
    )
    .unwrap();
    let cfg = compile_no_host(&ast);
    let ch = cfg
        .alerts
        .channels
        .get("internal-hook")
        .expect("channel parsed");
    match &ch.kind {
        ChannelKind::Webhook {
            url,
            signing_key,
            timeout_secs,
        } => {
            assert_eq!(url, "http://internal.svc/hook");
            assert!(signing_key.is_none(), "no `sign hmac` ⇒ unsigned");
            assert_eq!(*timeout_secs, 5, "default timeout is 5s");
        }
        other => panic!("expected Webhook, got {other:?}"),
    }
}

#[test]
fn compile_alerts_webhook_with_hmac_and_timeout() {
    let ast = Parser::parse(
        r#"
        vars {
            slack_secret "shh-do-not-leak"
        }
        alerts {
            channel "slack" {
                webhook https://hooks.slack.com/services/xxx
                sign hmac {vars.slack_secret}
                timeout 10s
            }
        }
        "#,
    )
    .unwrap();
    let cfg = compile_no_host(&ast);
    let ch = cfg.alerts.channels.get("slack").expect("channel parsed");
    match &ch.kind {
        ChannelKind::Webhook {
            url,
            signing_key,
            timeout_secs,
        } => {
            assert_eq!(url, "https://hooks.slack.com/services/xxx");
            assert_eq!(signing_key.as_deref(), Some("shh-do-not-leak"));
            assert_eq!(*timeout_secs, 10);
        }
        other => panic!("expected Webhook, got {other:?}"),
    }
}

#[test]
fn compile_alerts_format_roundtrip() {
    // The formatter must preserve channel + rule blocks so an
    // operator's editor format-on-save doesn't churn the file.
    let src = r#"alerts {
channel "ops" {
    shell "/bin/true"
}
rule "fail" {
    when job_failed
    channels "ops"
}
}
"#;
    let ast = Parser::parse(src).unwrap();
    let formatted = croniq::format::format(&ast);
    let ast2 = Parser::parse(&formatted).unwrap();
    let cfg2 = compile_no_host(&ast2);
    assert!(cfg2.alerts.channels.contains_key("ops"));
    assert_eq!(cfg2.alerts.rules.len(), 1);
    assert_eq!(cfg2.alerts.rules[0].name, "fail");
}

// ─── #230 smtp block ─────────────────────────────────────────

#[test]
fn compile_smtp_absent_is_none() {
    let cfg = compile_no_host(&Parser::parse("server { listen :4000 }").unwrap());
    assert!(cfg.smtp.is_none());
}

#[test]
fn compile_smtp_block() {
    let ast = Parser::parse(
        r#"
        smtp {
            host "in-v3.mailjet.com"
            port 587
            security starttls
            from "Croniq <noreply@example.com>"
        }
        "#,
    )
    .unwrap();
    let smtp = compile_no_host(&ast).smtp.expect("smtp block compiled");
    assert_eq!(smtp.host.as_deref(), Some("in-v3.mailjet.com"));
    assert_eq!(smtp.port, Some(587));
    assert_eq!(smtp.security.as_deref(), Some("starttls"));
    assert_eq!(smtp.from.as_deref(), Some("Croniq <noreply@example.com>"));
}

#[test]
fn compile_smtp_security_lowercased_and_partial() {
    // Only host + security set; port/from left for env fallback at boot.
    let ast = Parser::parse(
        r#"
        smtp {
            host "smtp.example.com"
            security TLS
        }
        "#,
    )
    .unwrap();
    let smtp = compile_no_host(&ast).smtp.expect("smtp block compiled");
    assert_eq!(smtp.host.as_deref(), Some("smtp.example.com"));
    assert_eq!(smtp.security.as_deref(), Some("tls"));
    assert_eq!(smtp.port, None);
    assert_eq!(smtp.from, None);
}

#[test]
fn compile_smtp_roundtrips_through_formatter() {
    let src = "smtp {\n    host \"smtp.example.com\"\n    port 2525\n    security none\n}\n";
    let ast = Parser::parse(src).unwrap();
    let formatted = croniq::format::format(&ast);
    let smtp = compile_no_host(&Parser::parse(&formatted).unwrap())
        .smtp
        .expect("smtp survives format round-trip");
    assert_eq!(smtp.port, Some(2525));
    assert_eq!(smtp.security.as_deref(), Some("none"));
}

#[test]
fn runner_exec_json_is_tagged_and_skips_unset_fields() {
    let shell = RunnerExec::Shell { command: "echo \"hi\"".to_string(), workdir: None, user: None, env: Vec::new() };
    assert_eq!(runner_exec_json(&shell), r#"{"kind":"shell","command":"echo \"hi\""}"#);
    let exec = RunnerExec::Exec {
        argv: vec!["/bin/ls".to_string(), "-l".to_string()],
        workdir: Some("/tmp".to_string()),
        user: Some("1000".to_string()),
        env: vec![("A".to_string(), "1\n".to_string())],
    };
    assert_eq!(
        runner_exec_json(&exec),
        r#"{"kind":"exec","argv":["/bin/ls","-l"],"workdir":"/tmp","user":"1000","env":{"A":"1\n"}}"#
    );
}

#[test]
fn defaults_after_a_job_do_not_reach_it() {
    let ast = Parser::parse(
        r#"
        job a:first { every 1 hour }
        defaults { timeout 5m }
        job b:second { every 1 hour }
    "#,
    )
    .unwrap();
    let cfg = compile_no_host(&ast);
    assert_eq!(cfg.jobs[0].timeout, None);
    assert_eq!(cfg.jobs[1].timeout.as_deref(), Some("5m"));
}

#[test]
fn later_channel_of_the_same_name_replaces_the_earlier() {
    let ast = Parser::parse(
        r#"
        alerts {
            channel "ops" { shell "/bin/a" }
            channel "mail" { email a@example.com }
            channel "ops" { shell "/bin/b" }
        }
    "#,
    )
    .unwrap();
    let cfg = compile_no_host(&ast);
    assert_eq!(cfg.alerts.channels.len(), 2);
    assert_eq!(cfg.alerts.channels[0].name, "ops");
    match &cfg.alerts.channels[0].kind {
        ChannelKind::Shell { command } => assert_eq!(command, "/bin/b"),
        other => panic!("expected Shell, got {other:?}"),
    }
}

#[test]
fn channel_without_kind_is_unknown_and_timeout_has_a_floor() {
    let ast = Parser::parse(
        r#"
        alerts {
            channel "empty" { timeout 3s }
            channel "hook" { webhook http://x/y; timeout 0s }
        }
    "#,
    )
    .unwrap();
    let cfg = compile_no_host(&ast);
    match &cfg.alerts.channels.get("empty").unwrap().kind {
        ChannelKind::Unknown { reason } => {
            assert_eq!(reason, "no channel kind directive (expected `shell`, `webhook`, or `email`)")
        }
        other => panic!("expected Unknown, got {other:?}"),
    }
    match &cfg.alerts.channels.get("hook").unwrap().kind {
        ChannelKind::Webhook { timeout_secs, .. } => assert_eq!(*timeout_secs, 1),
        other => panic!("expected Webhook, got {other:?}"),
    }
}

#[test]
fn parse_duration_secs_reads_suffixes() {
    assert_eq!(parse_duration_secs(" 5s "), Some(5));
    assert_eq!(parse_duration_secs("2m"), Some(120));
    assert_eq!(parse_duration_secs("1h"), Some(3600));
    assert_eq!(parse_duration_secs("42"), Some(42));
    assert_eq!(parse_duration_secs("5d"), None);
    assert_eq!(parse_duration_secs(""), None);
    assert_eq!(parse_duration_secs("18446744073709551615h"), None);
}

#[test]
fn placeholders_resolve_against_host_inputs() {
    let ast = Parser::parse(
        r#"
        server { listen {$LISTEN:8080}; data_dir {file./etc/dir} }
    "#,
    )
    .unwrap();
    let host = HostInputs {
        env: vec![("LISTEN".to_string(), ":5000".to_string())],
        files: vec![("/etc/dir".to_string(), Ok("/srv/data\n".to_string()))],
    };
    let cfg = compile(&ast, &host);
    assert_eq!(cfg.server.listen, ":5000");
    assert_eq!(cfg.server.data_dir, "/srv/data");
}

#[test]
fn catch_up_none_and_queue_ttl_none() {
    let ast = Parser::parse(
        r#"
        job a:b { every 1 hour; catch_up none; queue_ttl none; max_queue_depth 7 }
    "#,
    )
    .unwrap();
    let cfg = compile_no_host(&ast);
    assert_eq!(cfg.jobs[0].catch_up, croniq::compile::CatchUpPolicy::Discard);
    assert_eq!(cfg.jobs[0].queue_ttl, None);
    assert_eq!(cfg.jobs[0].max_queue_depth, Some(7));
}

#[test]
fn job_level_timezone_directive_sets_the_zone() {
    let ast = Parser::parse(
        r#"
        defaults { timezone Europe/Vienna }
        job a:b { every day at 04:20; timezone UTC }
        job c:d { every day at 04:20 }
    "#,
    )
    .unwrap();
    let cfg = compile_no_host(&ast);
    assert_eq!(cfg.jobs[0].timezone.as_deref(), Some("UTC"));
    assert_eq!(cfg.jobs[1].timezone.as_deref(), Some("Europe/Vienna"));
}

/// The job blocks of a parsed file, in order.
fn job_blocks(ast: &Croniqfile) -> Vec<&croniq::ast::JobBlock> {
    ast.items
        .iter()
        .filter_map(|it| match it {
            croniq::ast::Item::Job(j) => Some(j),
            _ => None,
        })
        .collect()
}

#[test]
fn validator_and_compiler_agree_on_ephemeral_jobs() {
    let ast = Parser::parse(
        "job beat:tick { ephemeral every 1 minute }\n\
         defaults { execution_mode ephemeral }\n\
         job etl:sync { queued every 1 minute }\n\
         job etl:pull { every 1 minute }\n",
    )
    .unwrap();
    let jobs = job_blocks(&ast);
    let cfg = compile_no_host(&ast);
    assert!(croniq::validate::job_is_ephemeral(jobs[0], false));
    assert_eq!(cfg.jobs[0].execution_mode, ExecutionMode::Ephemeral);
    assert!(!croniq::validate::job_is_ephemeral(jobs[1], true));
    assert_eq!(cfg.jobs[1].execution_mode, ExecutionMode::Queued);
    assert!(croniq::validate::job_is_ephemeral(jobs[2], true));
    assert_eq!(cfg.jobs[2].execution_mode, ExecutionMode::Ephemeral);
}

#[test]
fn a_job_without_a_limit_gets_no_concurrency_stamp() {
    let ast = Parser::parse("job etl:sync { every 1 minute; metadata { owner data } }").unwrap();
    let cfg = compile_no_host(&ast);
    assert_eq!(cfg.jobs[0].max_concurrent, None);
    assert!(!cfg.jobs[0].metadata.contains_key(MAX_CONCURRENT_METADATA_KEY));
    assert_eq!(cfg.jobs[0].metadata.get("owner").map(|s| s.as_str()), Some("data"));
}
