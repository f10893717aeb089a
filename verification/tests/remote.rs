use croniq::remote::{authorization_value, base_url, failure_message};

/// What the command line makes of a failed answer: the server's `message`
/// field when the body is JSON that has one, then the library's wording.
fn check(has_key: bool, path: &str, status: u16, status_text: &str, body: &str) -> String {
    let server_message = serde_json::from_str::<serde_json::Value>(body)
        .ok()
        .and_then(|v| v["message"].as_str().map(str::to_string));
    failure_message(path, status, status_text, has_key, body, server_message.as_deref())
}

#[test]
fn trailing_slash_does_not_double_up() {
    assert_eq!(base_url("http://localhost:4000/"), "http://localhost:4000");
}

#[test]
fn an_unauthenticated_401_names_the_flag_to_use() {
    let err = check(false, "/v1/trigger", 401, "401 Unauthorized", "");
    assert!(err.contains("--api-key"), "{err}");
    assert!(err.contains("CRONIQ_API_KEY"), "{err}");
}

#[test]
fn a_401_with_a_credential_points_at_revocation_and_expiry() {
    let err = check(true, "/v1/trigger", 401, "401 Unauthorized", "");
    assert!(err.contains("api-keys list"), "{err}");
    assert!(!err.contains("--api-key croniq_"), "{err}");
}

#[test]
fn a_server_message_survives_verbatim() {
    let err = check(
        true,
        "/v1/api-clients/runner",
        409,
        "409 Conflict",
        r#"{"error":"env_managed","message":"declared by CRONIQ_API_CLIENT_RUNNER_KEY"}"#,
    );
    assert!(err.contains("CRONIQ_API_CLIENT_RUNNER_KEY"), "{err}");
}

#[test]
fn a_bodyless_failure_still_reports_the_status() {
    let err = check(false, "/v1/runners", 500, "500 Internal Server Error", "");
    assert!(err.contains("500"), "{err}");
}

#[test]
fn failure_messages_read_exactly() {
    assert_eq!(
        check(false, "/v1/x", 401, "401 Unauthorized", ""),
        "/v1/x requires authentication and no credential was given.\nPass --api-key croniq_… or set CRONIQ_API_KEY."
    );
    assert_eq!(
        check(true, "/v1/x", 403, "403 Forbidden", r#"{"message":"needs jobs:write"}"#),
        "/v1/x refused the credential's scopes (403). needs jobs:write"
    );
    assert_eq!(
        check(true, "/v1/x", 403, "403 Forbidden", ""),
        "/v1/x refused the credential's scopes (403)."
    );
    assert_eq!(
        check(true, "/v1/x", 502, "502 Bad Gateway", "  upstream down \n"),
        "/v1/x failed (502 Bad Gateway): upstream down"
    );
    assert_eq!(check(true, "/v1/x", 500, "500 Internal Server Error", "  "), "/v1/x failed (500 Internal Server Error)");
}

#[test]
fn every_trailing_slash_goes_and_nothing_else() {
    assert_eq!(base_url("http://h:1///"), "http://h:1");
    assert_eq!(base_url("http://h:1/api"), "http://h:1/api");
    assert_eq!(base_url(""), "");
}

#[test]
fn the_key_travels_in_the_apikey_scheme() {
    assert_eq!(authorization_value("croniq_abc"), "ApiKey croniq_abc");
}

use croniq::remote::{health_text, runners_listing, triggered_text, Health, RunnerStatus, RunnerSummary};

#[test]
fn status_lists_the_health_figures() {
    let h = Health {
        status: "ok".into(),
        queued: 3,
        runners_online: 2,
        runners_stale: 1,
        runners_dead: 0,
    };
    assert_eq!(
        health_text(&h),
        "Status:          ok\nQueue depth:     3\nRunners online:  2\nRunners stale:   1\nRunners dead:    0\n"
    );
}

#[test]
fn runners_are_listed_in_a_padded_table() {
    assert_eq!(runners_listing(&[]), "No runners connected.\n");
    let rs = vec![
        RunnerSummary {
            runner_id: "r-1".into(),
            status: RunnerStatus::Online,
            inflight: 2,
            max_inflight: 8,
            capabilities: vec!["gpu".into(), "eu-west".into()],
        },
        RunnerSummary {
            runner_id: "r-2".into(),
            status: RunnerStatus::Dead,
            inflight: 0,
            max_inflight: 1,
            capabilities: vec![],
        },
    ];
    let out = runners_listing(&rs);
    let lines: Vec<&str> = out.lines().collect();
    assert_eq!(
        lines[0],
        format!("{:<24} {:<8} {:<10} {:<12} CAPABILITIES", "RUNNER ID", "STATUS", "INFLIGHT", "CAPACITY")
    );
    assert_eq!(lines[1], "-".repeat(72));
    assert_eq!(lines[2], format!("{:<24} {:<8} {:<10} {:<12} {}", "r-1", "online", 2, 8, "gpu, eu-west"));
    assert_eq!(lines[3], format!("{:<24} {:<8} {:<10} {:<12} {}", "r-2", "dead", 0, 1, "(any)"));
}

#[test]
fn a_trigger_reports_the_execution_and_queue() {
    assert_eq!(
        triggered_text("etl:sync", "e-42", 7),
        "Triggered job 'etl:sync'\n  execution_id: e-42\n  queue depth:  7\n"
    );
}
