use croniq::auth::{parse_role, AuthMethod, CallerContext, CallerType, Claims, JwtConfig, Role};
use croniq::jwt::{
    claims_to_json, context_from_claims, issue_mfa_token, issue_step_up_token_at, issue_token_pair,
    issue_token_pair_at,
    issue_totp_enroll_token, mfa_claims_to_json, mfa_subject, totp_enroll_subject, MfaClaims,
};

/// Fixed secret for the tests that need two configs to agree on the key
/// while differing in some other field.
const SHARED_SECRET: &str = "unit-test-secret";

fn random_config() -> JwtConfig {
    JwtConfig::for_tests()
}

/// Signature, issuer and expiry checks, then the claims as JSON.
fn decode(config: &JwtConfig, token: &str) -> Result<serde_json::Value, String> {
    let mut validation = jsonwebtoken::Validation::default();
    validation.set_issuer(&[&config.issuer]);
    jsonwebtoken::decode::<serde_json::Value>(
        token,
        &jsonwebtoken::DecodingKey::from_secret(config.secret.as_bytes()),
        &validation,
    )
    .map(|d| d.claims)
    .map_err(|e| e.to_string())
}

fn text(v: &serde_json::Value, key: &str) -> Option<String> {
    v.get(key).and_then(|x| x.as_str()).map(|s| s.to_string())
}

/// What the server does with an access token: validate it, then read the
/// caller from its claims.
fn validate_token(config: &JwtConfig, token: &str) -> Result<CallerContext, String> {
    let c = decode(config, token)?;
    let claims = Claims {
        sub: text(&c, "sub").unwrap(),
        client_id: text(&c, "client_id").unwrap(),
        caller_type: text(&c, "caller_type").unwrap(),
        user_id: text(&c, "user_id"),
        role: text(&c, "role"),
        auth_method: text(&c, "auth_method").unwrap(),
        scopes: c["scopes"]
            .as_array()
            .unwrap()
            .iter()
            .map(|s| s.as_str().unwrap().to_string())
            .collect(),
        token_generation: c.get("token_generation").and_then(|x| x.as_i64()),
        iss: text(&c, "iss").unwrap(),
        exp: c["exp"].as_i64().unwrap(),
        iat: c["iat"].as_i64().unwrap(),
    };
    Ok(context_from_claims(claims))
}

fn validate_mfa_token(config: &JwtConfig, token: &str) -> Result<String, String> {
    let c = decode(config, token)?;
    mfa_subject(MfaClaims {
        sub: text(&c, "sub").unwrap(),
        purpose: text(&c, "purpose").unwrap(),
        iss: text(&c, "iss").unwrap(),
        exp: c["exp"].as_i64().unwrap(),
        iat: c["iat"].as_i64().unwrap(),
        jti: text(&c, "jti").unwrap_or_default(),
    })
    .map_err(|e| e.message())
}

#[test]
fn every_mfa_token_is_unique_and_still_validates() {
    let cfg = random_config();
    let (a, ttl) = issue_mfa_token(&cfg, "u-1").unwrap();
    let (b, _) = issue_mfa_token(&cfg, "u-1").unwrap();
    assert_ne!(a, b, "mfa tokens must differ per issuance");
    assert_eq!(ttl, 300);
    assert_eq!(validate_mfa_token(&cfg, &a).unwrap(), "u-1");
    assert_eq!(validate_mfa_token(&cfg, &b).unwrap(), "u-1");
}

#[test]
fn issue_and_validate_round_trip_for_user() {
    let config = random_config();
    let pair = issue_token_pair(
        &config,
        "user-1",
        "user-1",
        CallerType::User,
        Some("user-1"),
        Some(Role::Operator),
        AuthMethod::Password,
        &["jobs:read".into(), "runners:read".into()],
        None,
    )
    .unwrap();

    let ctx = validate_token(&config, &pair.access_token).unwrap();
    assert_eq!(ctx.caller_id, "user-1");
    assert_eq!(ctx.user_id.as_deref(), Some("user-1"));
    assert_eq!(ctx.role, Some(Role::Operator));
    assert_eq!(ctx.auth_method, AuthMethod::Password);
    assert_eq!(ctx.caller_type, CallerType::User);
    assert!(ctx.has_scope("jobs:read"));
    assert!(!ctx.has_scope("admin"));
}

#[test]
fn issue_and_validate_round_trip_for_api_key() {
    let config = random_config();
    let pair = issue_token_pair(
        &config,
        "key-1",
        "client-1",
        CallerType::ApiKey,
        None,
        None,
        AuthMethod::ApiKey,
        &["jobs:read".into()],
        None,
    )
    .unwrap();

    let ctx = validate_token(&config, &pair.access_token).unwrap();
    assert_eq!(ctx.caller_id, "key-1");
    assert!(ctx.user_id.is_none());
    assert!(ctx.role.is_none());
    assert_eq!(ctx.auth_method, AuthMethod::ApiKey);
    assert_eq!(ctx.caller_type, CallerType::ApiKey);
}

#[test]
fn invalid_token_rejected() {
    let config = random_config();
    let result = validate_token(&config, "not.a.valid.token");
    assert!(result.is_err());
}

#[test]
fn wrong_secret_rejected() {
    let config1 = JwtConfig::new("secret-1");
    let config2 = JwtConfig::new("secret-2");

    let pair = issue_token_pair(
        &config1,
        "u",
        "c",
        CallerType::User,
        Some("u"),
        Some(Role::Admin),
        AuthMethod::Password,
        &[],
        None,
    )
    .unwrap();
    let result = validate_token(&config2, &pair.access_token);
    assert!(result.is_err());
}

#[test]
fn old_issuer_rejected_as_hard_cut() {
    let legacy = JwtConfig { issuer: "croniq".into(), ..JwtConfig::new(SHARED_SECRET) };
    let pair = issue_token_pair(
        &legacy,
        "u",
        "c",
        CallerType::User,
        Some("u"),
        Some(Role::Admin),
        AuthMethod::Password,
        &["admin".into()],
        None,
    )
    .unwrap();

    // The current config uses "croniq-v1": the old issuer must be rejected.
    let current = JwtConfig::new(SHARED_SECRET);
    assert!(validate_token(&current, &pair.access_token).is_err());
}

#[test]
fn claims_are_framed_as_compact_json_in_field_order() {
    let claims = Claims {
        sub: "u\"1".into(),
        client_id: "c".into(),
        caller_type: "user".into(),
        user_id: Some("u".into()),
        role: None,
        auth_method: "password".into(),
        scopes: vec!["jobs:read".into(), "a\\b".into()],
        token_generation: Some(-3),
        iss: "croniq-v1".into(),
        exp: 1700003600,
        iat: 1700000000,
    };
    assert_eq!(
        claims_to_json(&claims),
        "{\"sub\":\"u\\\"1\",\"client_id\":\"c\",\"caller_type\":\"user\",\"user_id\":\"u\",\
         \"auth_method\":\"password\",\"scopes\":[\"jobs:read\",\"a\\\\b\"],\
         \"token_generation\":-3,\"iss\":\"croniq-v1\",\"exp\":1700003600,\"iat\":1700000000}"
    );
}

#[test]
fn framed_claims_parse_back_to_the_same_values() {
    let claims = Claims {
        sub: "k\u{1}\n".into(),
        client_id: "c".into(),
        caller_type: "apikey".into(),
        user_id: None,
        role: None,
        auth_method: "apikey".into(),
        scopes: vec![],
        token_generation: None,
        iss: "croniq-v1".into(),
        exp: i64::MAX,
        iat: i64::MIN,
    };
    let v: serde_json::Value = serde_json::from_str(&claims_to_json(&claims)).unwrap();
    assert_eq!(v["sub"].as_str(), Some("k\u{1}\n"));
    assert!(v.get("user_id").is_none());
    assert!(v.get("token_generation").is_none());
    assert_eq!(v["exp"].as_i64(), Some(i64::MAX));
    assert_eq!(v["iat"].as_i64(), Some(i64::MIN));
}

#[test]
fn step_up_claims_are_framed_in_field_order() {
    let c = MfaClaims {
        sub: "u-1".into(),
        purpose: "mfa".into(),
        iss: "croniq-v1".into(),
        exp: 300,
        iat: 0,
        jti: "j".into(),
    };
    assert_eq!(
        mfa_claims_to_json(&c),
        "{\"sub\":\"u-1\",\"purpose\":\"mfa\",\"iss\":\"croniq-v1\",\"exp\":300,\"iat\":0,\"jti\":\"j\"}"
    );
}

#[test]
fn step_up_tokens_are_refused_for_the_other_purpose() {
    let cfg = random_config();
    let (t, ttl) = issue_totp_enroll_token(&cfg, "u-2").unwrap();
    assert_eq!(ttl, 600);
    let c = decode(&cfg, &t).unwrap();
    let claims = || MfaClaims {
        sub: text(&c, "sub").unwrap(),
        purpose: text(&c, "purpose").unwrap(),
        iss: text(&c, "iss").unwrap(),
        exp: c["exp"].as_i64().unwrap(),
        iat: c["iat"].as_i64().unwrap(),
        jti: text(&c, "jti").unwrap(),
    };
    assert_eq!(totp_enroll_subject(claims()).unwrap(), "u-2");
    assert_eq!(mfa_subject(claims()).unwrap_err().message(), "token error: not an MFA token");
    let (m, _) = issue_mfa_token(&cfg, "u-2").unwrap();
    assert!(validate_mfa_token(&cfg, &m).is_ok());
}

#[test]
fn a_step_up_token_names_its_purpose_in_the_error() {
    let c = MfaClaims {
        sub: "u".into(),
        purpose: "mfa".into(),
        iss: "croniq-v1".into(),
        exp: 0,
        iat: 0,
        jti: String::new(),
    };
    assert_eq!(
        totp_enroll_subject(c).unwrap_err().message(),
        "token error: not a TOTP-enrolment token"
    );
}

#[test]
fn access_token_expiries_follow_the_configured_lifetimes() {
    let config = random_config();
    let pair = issue_token_pair(
        &config, "u", "u", CallerType::User, Some("u"), Some(Role::Viewer),
        AuthMethod::Password, &[], Some(4),
    )
    .unwrap();
    assert_eq!(pair.refresh_expires_at - pair.access_expires_at, 604_800 - 3_600);
    assert_eq!(pair.refresh_token.len(), 36);
    let c = decode(&config, &pair.access_token).unwrap();
    assert_eq!(c["exp"].as_i64(), Some(pair.access_expires_at));
    assert_eq!(c["exp"].as_i64().unwrap() - c["iat"].as_i64().unwrap(), 3_600);
    assert_eq!(c["role"].as_str(), Some("viewer"));
    assert_eq!(c["token_generation"].as_i64(), Some(4));
}

#[test]
fn an_expiry_past_the_calendar_is_a_token_error() {
    let config = JwtConfig { access_ttl_secs: 9_000_000_000_000, ..random_config() };
    let r = issue_token_pair(
        &config, "u", "u", CallerType::User, None, None, AuthMethod::Password, &[], None,
    );
    assert!(r.unwrap_err().message().starts_with("token error: "));
}

#[test]
fn unknown_claim_texts_read_as_defaults() {
    let claims = Claims {
        sub: "s".into(),
        client_id: "c".into(),
        caller_type: "robot".into(),
        user_id: None,
        role: Some("owner".into()),
        auth_method: "sms".into(),
        scopes: vec!["x".into()],
        token_generation: None,
        iss: "i".into(),
        exp: 0,
        iat: 0,
    };
    let ctx = context_from_claims(claims);
    assert_eq!(ctx.caller_type, CallerType::User);
    assert_eq!(ctx.role, None);
    assert_eq!(ctx.auth_method, AuthMethod::ApiKey);
    assert_eq!(ctx.scopes, vec!["x".to_string()]);
}

#[test]
fn role_texts_round_trip() {
    for r in [Role::Admin, Role::Operator, Role::Viewer] {
        assert_eq!(parse_role(r.as_str()), Some(r));
    }
    assert_eq!(parse_role("Admin"), None);
}

#[test]
fn test_configs_get_distinct_random_secrets() {
    let a = JwtConfig::for_tests();
    let b = JwtConfig::for_tests();
    assert_ne!(a.secret, b.secret);
    assert_eq!(a.secret.len(), 36);
    assert_eq!(a.issuer, "croniq-v1");
    assert_eq!(a.access_ttl_secs, 3600);
}

/// Signature and issuer checks without the expiry check, then the claims.
fn decode_at_any_time(config: &JwtConfig, token: &str) -> serde_json::Value {
    let mut validation = jsonwebtoken::Validation::default();
    validation.set_issuer(&[&config.issuer]);
    validation.validate_exp = false;
    jsonwebtoken::decode::<serde_json::Value>(
        token,
        &jsonwebtoken::DecodingKey::from_secret(config.secret.as_bytes()),
        &validation,
    )
    .unwrap()
    .claims
}

#[test]
fn a_pair_issued_at_a_given_instant_carries_it() {
    let config = JwtConfig::new(SHARED_SECRET);
    let pair = issue_token_pair_at(
        &config, "key-1", "cli", CallerType::ApiKey, None, None, AuthMethod::ApiKey,
        &["jobs:read".to_string()], None, 1_700_000_000, "refresh-1".to_string(),
    )
    .unwrap();
    assert_eq!(pair.access_expires_at, 1_700_003_600);
    assert_eq!(pair.refresh_expires_at, 1_700_604_800);
    assert_eq!(pair.refresh_token, "refresh-1");
    let c = decode_at_any_time(&config, &pair.access_token);
    assert_eq!(c["iat"].as_i64(), Some(1_700_000_000));
    assert_eq!(c["exp"].as_i64(), Some(1_700_003_600));
    assert_eq!(text(&c, "sub").as_deref(), Some("key-1"));
    assert_eq!(text(&c, "caller_type").as_deref(), Some("apikey"));
    assert_eq!(c["scopes"][0].as_str(), Some("jobs:read"));
    assert!(c.get("role").is_none());
}

#[test]
fn a_pair_whose_refresh_expiry_leaves_the_calendar_is_refused() {
    let config = JwtConfig::new(SHARED_SECRET);
    let r = issue_token_pair_at(
        &config, "u", "u", CallerType::User, None, None, AuthMethod::Password, &[], None,
        8_210_266_876_799 - 3_600, "r".to_string(),
    );
    assert_eq!(r.unwrap_err().message(), "token error: token expiry is out of range");
}

#[test]
fn a_step_up_token_at_a_given_instant_carries_its_jti() {
    let config = JwtConfig::new(SHARED_SECRET);
    let (token, ttl) =
        issue_step_up_token_at(&config, "user-9", "mfa", 300, 1_000_000, "jti-1".to_string())
            .unwrap();
    assert_eq!(ttl, 300);
    let c = decode_at_any_time(&config, &token);
    assert_eq!(c["exp"].as_i64(), Some(1_000_300));
    assert_eq!(text(&c, "jti").as_deref(), Some("jti-1"));
    assert_eq!(text(&c, "purpose").as_deref(), Some("mfa"));
    let late = issue_step_up_token_at(&config, "user-9", "mfa", 300, 8_210_266_876_700, "j".into());
    assert!(late.is_err());
}
