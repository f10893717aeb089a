use croniq::block_directives::{closest, edit_distance, hint, server_table};
use croniq::parser::Parser;
use croniq::validate::{validate, Severity};


#[test]
fn edit_distance_basics() {
    assert_eq!(edit_distance("", ""), 0);
    assert_eq!(edit_distance("listen", "listen"), 0);
    assert_eq!(edit_distance("listen", "listenn"), 1);
    assert_eq!(edit_distance("lsiten", "listen"), 2);
    assert_eq!(edit_distance("db", "from"), 4);
}

#[test]
fn closest_ignores_far_keys() {
    let server = server_table();
    assert_eq!(closest("listenn", &server), Some("listen"));
    assert_eq!(closest("frobnicate", &server), None);
    // Short keys must not collapse into each other.
    assert_eq!(closest("on", &server), None);
}

#[test]
fn edit_distance_is_symmetric_on_examples() {
    assert_eq!(edit_distance("kitten", "sitting"), 3);
    assert_eq!(edit_distance("sitting", "kitten"), 3);
    assert_eq!(edit_distance("", "abc"), 3);
    assert_eq!(edit_distance("äbc", "abc"), 1);
}

#[test]
fn closest_prefers_the_shorter_key_on_a_tie() {
    assert_eq!(closest("ab", &["abc", "ab_"]), Some("abc"));
    assert_eq!(closest("lis", &["lisxx", "lix"]), Some("lix"));
}

#[test]
fn hint_suggests_or_lists_sorted_keys() {
    assert_eq!(hint("listenn", &server_table()), " — did you mean 'listen'?");
    assert_eq!(
        hint("frobnicate", &["listen", "lease_ttl", "trigger_dedup_window", "runner_identity_binding"]),
        " (known: lease_ttl, listen, runner_identity_binding, trigger_dedup_window)"
    );
}



fn errors(src: &str) -> Vec<String> {
    let ast = Parser::parse(src).unwrap();
    validate(&ast)
        .into_iter()
        .filter(|d| d.severity == Severity::Error)
        .map(|d| d.message)
        .collect()
}

#[test]
fn typo_in_server_block_errors_with_suggestion() {
    let msgs = errors("server { listen :4000\n execution_retentionn 90d }");
    assert_eq!(msgs.len(), 1, "got: {msgs:?}");
    assert_eq!(
        msgs[0],
        "unknown directive 'execution_retentionn' in `server { }` — \
         did you mean 'execution_retention'?"
    );
}

#[test]
fn unrelated_key_lists_the_known_set() {
    let msgs = errors("pull_api { frobnicate yes }");
    assert_eq!(
        msgs,
        vec![
            "unknown directive 'frobnicate' in `pull_api { }` \
             (known: lease_ttl, listen, runner_identity_binding, trigger_dedup_window)"
        ]
    );
}

#[test]
fn known_directives_are_silent() {
    let msgs = errors(
        r#"
        server { listen :4000; data_dir /var/lib/croniq; db sqlite
                 app_url "https://x.test"; execution_retention 30d }
        pull_api { listen :9443; lease_ttl 60s; trigger_dedup_window 10m }
        mcp { enabled true; allowed_hosts a.test b.test }
        policy { dsl_adopt_on_mutate true; strict_calendars false }
        oidc { issuer "https://i.test"; client_id cid; redirect_url "https://r.test"
               default_role viewer; provider_name authentik; post_login_redirect "/" }
        smtp { host smtp.test; port 587; security starttls; from "C <n@test>" }
        observability { log { level info; format json; output stderr }
                        metrics { listen :9900; path /metrics } }
        auth { password { enabled true } totp { required false } }
        defaults {
          timezone UTC; timeout 5m; execution_mode queued; catch_up all
          queue_ttl 1h; max_queue_depth 10; keep_last 50
          retry exponential { max_attempts 3; base 2s; cap 30s; delay 1s; step 2s; jitter 0.25 }
          dead_letter { enabled true; retention 30d; operator_hint "page oncall"
                        replay_max_age 7d }
        }
    "#,
    );
    assert!(msgs.is_empty(), "unexpected errors: {msgs:?}");
}

#[test]
fn typo_in_defaults_and_its_sub_blocks_errors() {
    let msgs = errors("defaults { timeoutt 5m\n retry { max_attemptss 3 } }");
    assert_eq!(msgs.len(), 2, "got: {msgs:?}");
    assert!(msgs[0].contains("unknown directive 'timeoutt' in `defaults { }`"));
    assert!(
        msgs[1].contains("unknown directive 'max_attemptss' in `defaults.retry { }`"),
        "got: {}",
        msgs[1]
    );
}

#[test]
fn unknown_sub_block_name_errors() {
    let msgs = errors("observability { logs { level info } }");
    assert_eq!(
        msgs,
        vec!["unknown block 'logs { }' in `observability { }` — did you mean 'log'?"]
    );
}

#[test]
fn unknown_auth_sub_block_errors() {
    let msgs = errors("auth { totpp { required true } }");
    assert_eq!(msgs.len(), 1, "got: {msgs:?}");
    assert!(msgs[0].contains("unknown block 'totpp { }' in `auth { }`"));
}

#[test]
fn removed_pull_api_auth_names_the_migration() {
    let msgs = errors("pull_api { auth some-secret-value }");
    assert_eq!(msgs.len(), 1, "got: {msgs:?}");
    assert!(msgs[0].contains("CRONIQ_JWT_SECRET"), "got: {}", msgs[0]);
    assert!(msgs[0].contains("TOTP"), "got: {}", msgs[0]);
    // Must not read as a typo — the value has to be migrated, not fixed.
    assert!(!msgs[0].contains("did you mean"), "got: {}", msgs[0]);
}

// ── job { } bodies (issue #426) ───────────────────────────────────────────

#[test]
fn job_level_timezone_is_accepted() {
    // The spelling issue #426 made real: bare `timezone` in a job body.
    let msgs = errors("job a:b { every day at 02:00\n timezone Europe/Vienna }");
    assert!(msgs.is_empty(), "unexpected errors: {msgs:?}");
}

#[test]
fn run_on_register_is_accepted_as_a_bare_job_directive() {
    // Issue #555. Bare like `singleton` — presence is the whole signal.
    let msgs = errors("job a:b { every day at 04:20\n run_on_register }");
    assert!(msgs.is_empty(), "unexpected errors: {msgs:?}");
}

#[test]
fn typo_in_job_body_errors_with_suggestion() {
    let msgs = errors("job a:b { every day at 02:00\n timezon Europe/Vienna }");
    assert_eq!(msgs.len(), 1, "got: {msgs:?}");
    assert_eq!(
        msgs[0],
        "unknown directive 'timezon' in `job a:b { }` — did you mean 'timezone'?"
    );
}

#[test]
fn unrelated_job_directive_lists_the_known_set() {
    let msgs = errors("job a:b { every 5 minutes\n frobnicate yes }");
    assert_eq!(msgs.len(), 1, "got: {msgs:?}");
    assert!(
        msgs[0].contains("(known: catch_up, concurrency_group, description,"),
        "got: {}",
        msgs[0]
    );
}

#[test]
fn schedule_option_written_as_a_job_directive_says_where_it_belongs() {
    // `calendar biz` in the body is a no-op, and reads like a typo of
    // nothing — the fix is to move it, so the message says so.
    let msgs = errors("job a:b { every day at 02:00 { timezone UTC }\n calendar biz }");
    assert_eq!(msgs.len(), 1, "got: {msgs:?}");
    assert!(
        msgs[0].contains("is a schedule option, not a job directive"),
        "got: {}",
        msgs[0]
    );
    assert!(
        msgs[0].contains("every day at 02:00 { calendar"),
        "got: {}",
        msgs[0]
    );
}

#[test]
fn known_job_directives_and_blocks_are_silent() {
    let msgs = errors(
        r#"
        calendar biz { include weekly monday }
        job billing:invoice {
          description "…"; timezone Europe/Vienna; timeout 15m
          every weekday at 02:00 { calendar biz; not_before 2026-01-01T00:00:00Z
                                   not_after 2027-01-01T00:00:00Z }
          window 02:00..06:00
          execution_mode queued; catch_up all; queue_ttl 1h
          max_queue_depth 10; keep_last 500; max_concurrent 2
          tags billing nightly
          runner { require billing; prefer eu-central; sticky }
          retry exponential { max_attempts 3; base 2s; cap 30s; delay 1s; step 2s; jitter 0.25 }
          dead_letter { enabled true; retention 30d; operator_hint "page"; replay_max_age 7d }
          metadata { team billing; priority high }
        }
    "#,
    );
    assert!(msgs.is_empty(), "unexpected errors: {msgs:?}");
}

#[test]
fn unknown_job_sub_block_errors() {
    let msgs = errors("job a:b { every 5 minutes\n runners { require x } }");
    assert_eq!(msgs.len(), 1, "got: {msgs:?}");
    assert!(
        msgs[0].contains("unknown block 'runners { }' in `job a:b { }`"),
        "got: {}",
        msgs[0]
    );
}

#[test]
fn typo_inside_a_job_retry_block_errors() {
    // `retry` / `dead_letter` share their key sets with `defaults { }`.
    let msgs = errors("job a:b { every 5 minutes\n retry { max_attemptss 3 } }");
    assert_eq!(msgs.len(), 1, "got: {msgs:?}");
    assert!(
        msgs[0].contains("unknown directive 'max_attemptss' in `job a:b.retry { }`"),
        "got: {}",
        msgs[0]
    );
}

#[test]
fn metadata_keys_are_operator_chosen_and_not_checked() {
    let msgs = errors("job a:b { every 5 minutes\n metadata { anything goes } }");
    assert!(msgs.is_empty(), "unexpected errors: {msgs:?}");
}
