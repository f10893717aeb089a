use croniq::credentials::{
    check_client_scopes, check_client_update, clients_listing, created_client_text, created_key_text,
    init_seed_request, key_state, keys_listing, updated_client_text, ApiClient, ApiKeySummary,
    CreatedApiClient, CreatedApiKey, CredentialSink,
};

fn client(managed_by: Option<&str>) -> ApiClient {
    ApiClient {
        client_id: "c1".into(),
        name: "runner".into(),
        scopes: vec!["work:poll".into()],
        is_active: true,
        managed_by: managed_by.map(str::to_string),
    }
}

#[test]
fn a_server_without_the_ownership_field_reads_as_api_managed() {
    // Older servers omit `managed_by`; defaulting to "env" would tell the
    // operator their client is uneditable when it is not.
    assert_eq!(client(None).owner(), "api");
    assert_eq!(client(Some("env")).owner(), "env");
}

#[test]
fn file_body_holds_secrets_and_usage() {
    let mut sink = CredentialSink::with_reveal(false);
    sink.add_with_usage(
        "API Key",
        "croniq_secret123",
        "Authorization: ApiKey croniq_secret123",
    );
    assert!(!sink.is_revealing());
    let body = sink.file_body();
    assert!(body.contains("croniq_secret123"));
    assert!(body.contains("Authorization: ApiKey croniq_secret123"));
    assert_eq!(
        body,
        "# Croniq initial credentials — generated once during init.\n# Copy these into your secret store, then delete this file.\n\nAPI Key: croniq_secret123\n  Authorization: ApiKey croniq_secret123\n"
    );
}

#[test]
fn inline_text_lists_each_secret() {
    let mut sink = CredentialSink::with_reveal(true);
    sink.add("Admin login", "admin / hunter2");
    assert!(sink.is_revealing());
    assert_eq!(
        sink.inline_text(),
        "\n=== Credentials (save these — they won't be shown again) ===\n\nAdmin login:\n  admin / hunter2\n\n"
    );
}

#[test]
fn empty_sink_has_nothing_to_emit() {
    let sink = CredentialSink::with_reveal(false);
    assert!(sink.is_empty());
}

#[test]
fn no_api_key_seeds_nothing() {
    assert_eq!(init_seed_request(None, Some(vec![])), Ok(None));
}

#[test]
fn a_seeded_key_gets_the_admin_scope_by_default() {
    assert_eq!(
        init_seed_request(Some("croniq_abc"), None),
        Ok(Some(("croniq_abc".to_string(), vec!["admin".to_string()])))
    );
}

#[test]
fn a_key_without_the_prefix_is_refused_naming_its_start() {
    assert_eq!(
        init_seed_request(Some("secret-value"), None),
        Err("--api-key must start with 'croniq_' (got prefix 'secret…'); \
             e.g. CRONIQ_INIT_API_KEY=croniq_$(openssl rand -hex 32)"
            .to_string())
    );
    assert!(init_seed_request(Some("cro"), None).unwrap_err().contains("(got prefix 'cro…')"));
}

#[test]
fn an_empty_scope_list_is_refused() {
    assert_eq!(
        init_seed_request(Some("croniq_x"), Some(vec![])),
        Err("--scopes must list at least one scope".to_string())
    );
}

fn key(expires_at: Option<&str>, revoked_at: Option<&str>) -> ApiKeySummary {
    ApiKeySummary {
        key_id: "k1".into(),
        key_prefix: "croniq_ab".into(),
        created_at: "2026-08-20T00:00:00Z".into(),
        expires_at: expires_at.map(str::to_string),
        revoked_at: revoked_at.map(str::to_string),
    }
}

/// An RFC 3339 instant as Unix seconds and nanoseconds.
fn at(raw: &str) -> (i64, u32) {
    let t = chrono::DateTime::parse_from_rfc3339(raw).expect("test timestamp must parse");
    (t.timestamp(), t.timestamp_subsec_nanos())
}

fn state(k: &ApiKeySummary, now: (i64, u32)) -> &'static str {
    key_state(k, now.0, now.1)
}

#[test]
fn an_elapsed_grace_window_reads_as_expired_not_retiring() {
    let k = key(Some("2026-08-20T09:15:00Z"), None);
    assert_eq!(state(&k, at("2026-08-20T10:00:00Z")), "expired");
    assert_eq!(state(&k, at("2026-08-20T09:10:00Z")), "retiring");
    // The deadline instant itself still works: the server rejects only on
    // `now > expires`.
    assert_eq!(state(&k, at("2026-08-20T09:15:00Z")), "retiring");
    assert_eq!(state(&k, at("2026-08-20T09:15:01Z")), "expired");
}

#[test]
fn revocation_outranks_any_expiry() {
    let k = key(Some("2026-08-20T09:15:00Z"), Some("2026-08-20T09:01:00Z"));
    assert_eq!(state(&k, at("2026-08-20T09:05:00Z")), "revoked");
    assert_eq!(state(&k, at("2026-08-20T23:00:00Z")), "revoked");
}

#[test]
fn a_key_with_no_deadline_is_active() {
    assert_eq!(state(&key(None, None), at("2026-08-20T10:00:00Z")), "active");
}

#[test]
fn an_unparsable_expiry_keeps_the_deadline_visible() {
    assert_eq!(
        state(&key(Some("not-a-timestamp"), None), at("2026-08-20T10:00:00Z")),
        "retiring"
    );
}

#[test]
fn a_fraction_of_a_second_past_the_deadline_is_expired() {
    let k = key(Some("2026-08-20T09:15:00Z"), None);
    assert_eq!(state(&k, at("2026-08-20T09:15:00.000000001Z")), "expired");
    let k = key(Some("2026-08-20T11:15:00+02:00"), None);
    assert_eq!(state(&k, at("2026-08-20T09:15:00.5Z")), "expired");
}

#[test]
fn an_empty_client_list_says_so() {
    assert_eq!(clients_listing(&[]), "No API clients.\n");
}

#[test]
fn the_client_listing_is_a_padded_table_with_the_env_note() {
    let out = clients_listing(&[client(None), client(Some("env"))]);
    let lines: Vec<&str> = out.lines().collect();
    assert_eq!(
        lines[0],
        format!("{:<38} {:<20} {:<8} {:<8} SCOPES", "CLIENT ID", "NAME", "OWNER", "ACTIVE")
    );
    assert_eq!(lines[1], "-".repeat(96));
    assert_eq!(lines[2], format!("{:<38} {:<20} {:<8} {:<8} {}", "c1", "runner", "api", "yes", "work:poll"));
    assert_eq!(lines[3], format!("{:<38} {:<20} {:<8} {:<8} {}", "c1", "runner", "env", "yes", "work:poll"));
    assert_eq!(lines[4], "");
    assert!(lines[5].starts_with("Clients owned by 'env' are declared with CRONIQ_API_CLIENT_<NAME>_KEY."));
}

#[test]
fn a_listing_without_env_clients_has_no_note() {
    let out = clients_listing(&[client(None)]);
    assert_eq!(out.lines().count(), 3);
}

#[test]
fn the_key_listing_marks_states_and_adds_their_notes() {
    let now = at("2026-08-20T10:00:00Z");
    let keys = vec![
        key(None, None),
        key(Some("2026-08-21T00:00:00Z"), None),
        key(Some("2026-08-19T00:00:00Z"), None),
    ];
    let out = keys_listing("c1", &keys, now.0, now.1);
    let lines: Vec<&str> = out.lines().collect();
    assert_eq!(
        lines[0],
        format!("{:<38} {:<14} {:<10} {:<26} CREATED", "KEY ID", "PREFIX", "STATE", "EXPIRES")
    );
    assert_eq!(lines[1], "-".repeat(110));
    assert_eq!(
        lines[2],
        format!("{:<38} {:<14} {:<10} {:<26} {}", "k1", "croniq_ab", "active", "-", "2026-08-20T00:00:00Z")
    );
    assert!(lines[3].contains(" retiring "));
    assert!(lines[4].contains(" expired "));
    assert!(out.contains("A 'retiring' key was replaced by a rotation"));
    assert!(out.contains("An 'expired' key's rotation grace window has already elapsed"));
    assert_eq!(keys_listing("c9", &[], now.0, now.1), "No API keys for client c9.\n");
}

#[test]
fn client_commands_refuse_empty_requests() {
    assert_eq!(
        check_client_scopes(&[]),
        Err("--scopes is required: a client with no scopes can authorise nothing".to_string())
    );
    assert_eq!(check_client_scopes(&["jobs:read".to_string()]), Ok(()));
    assert_eq!(
        check_client_update(None, None, None),
        Err("nothing to change — pass --name, --scopes, --active or --inactive".to_string())
    );
    assert_eq!(check_client_update(None, None, Some(false)), Ok(()));
}

#[test]
fn created_and_updated_texts_name_the_client() {
    let created = CreatedApiClient {
        client_id: "c7".into(),
        name: "reporting".into(),
        scopes: vec!["jobs:read".into(), "runners:read".into()],
    };
    assert_eq!(
        created_client_text(&created),
        "Created API client 'reporting'\n  client_id: c7\n  scopes:    jobs:read,runners:read\n\nMint a key for it with:  croniq api-keys create --client c7\n"
    );
    let mut c = client(None);
    c.is_active = false;
    assert_eq!(updated_client_text(&c), "Updated API client 'runner'\n  scopes: work:poll\n  active: no\n");
    let k = CreatedApiKey {
        raw_key: "croniq_secret".into(),
        key_id: "k9".into(),
        key_prefix: "croniq_secr".into(),
        client_id: "c7".into(),
    };
    assert_eq!(
        created_key_text(&k),
        "Created API key for client c7\n\n  croniq_secret\n\nThis is the only time the key is shown. key_id: k9\n"
    );
}
