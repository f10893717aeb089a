use croniq::auth::{
    auth_method_to_str, caller_type_to_str, dummy_verify, generate_api_key, generate_recovery_codes,
    generate_token, hash_api_key, hash_password, hash_token, parse_auth_method, validate_password,
    verify_password, AuthError, AuthMethod, CallerType, JwtConfig, Scope, DEFAULT_ACCESS_TTL_SECS,
    DEFAULT_REFRESH_TTL_SECS, DUMMY_HASH, JWT_ISSUER, RECOVERY_CODE_COUNT, RECOVERY_CODE_LEN,
};

#[test]
fn validate_password_enforces_shared_bounds() {
    assert!(
        validate_password("1234567").is_err(),
        "7 chars is too short"
    );
    assert!(
        validate_password("12345678").is_ok(),
        "8 chars is the minimum"
    );
    assert!(
        validate_password(&"x".repeat(72)).is_ok(),
        "72 bytes is the maximum"
    );
    let err = validate_password(&"x".repeat(73)).unwrap_err();
    assert!(err.contains("72"), "message names the limit: {err}");
    // Multi-byte input counts in bytes, matching what bcrypt truncates.
    assert!(
        validate_password(&"ä".repeat(37)).is_err(),
        "74 bytes via 2-byte chars"
    );
}

#[test]
fn hash_and_verify_round_trip() {
    let hash = hash_password("my-secret-password").unwrap();
    assert!(verify_password("my-secret-password", &hash).unwrap());
    assert!(!verify_password("wrong-password", &hash).unwrap());
}

#[test]
fn dummy_hash_is_a_valid_cost_12_bcrypt_hash() {
    assert!(DUMMY_HASH.starts_with("$2b$12$"));
    assert!(verify_password("any-password", DUMMY_HASH).is_ok());
    dummy_verify("any-password"); // must not panic
}

#[test]
fn malformed_hash_is_a_store_error() {
    assert!(matches!(verify_password("x", "not-a-hash"), Err(AuthError::Store(_))));
}

#[test]
fn generate_produces_valid_key() {
    let (raw, hash, prefix) = generate_api_key();
    assert!(raw.starts_with("croniq_"));
    assert_eq!(hash.len(), 64); // SHA-256 hex
    assert_eq!(prefix.len(), 12);
    assert_eq!(hash, hash_api_key(&raw));
}

#[test]
fn hash_is_deterministic() {
    let key = "croniq_test123";
    assert_eq!(hash_api_key(key), hash_api_key(key));
}

#[test]
fn hash_token_is_sha256_hex() {
    assert_eq!(
        hash_token("abc"),
        "ba7816bf8f01cfea414140de5dae2223b00361a396177a9cb410ff61f20015ad"
    );
    assert_eq!(hash_token("abc"), hash_api_key("abc"));
}

#[test]
fn generated_tokens_carry_their_prefix() {
    let (raw, hash) = generate_token("croniq_inv");
    assert!(raw.starts_with("croniq_inv_"));
    assert_eq!(raw.len(), "croniq_inv_".len() + 32);
    assert_eq!(hash, hash_token(&raw));
}

#[test]
fn recovery_codes_use_the_restricted_alphabet() {
    let codes = generate_recovery_codes();
    assert_eq!(codes.len(), RECOVERY_CODE_COUNT);
    for code in &codes {
        assert_eq!(code.len(), RECOVERY_CODE_LEN);
        assert!(code.chars().all(|c| "abcdefghjkmnpqrstuvwxyz23456789".contains(c)));
    }
}

#[test]
fn jwt_config_new_uses_the_shipped_defaults() {
    let c = JwtConfig::new("s3cret");
    assert_eq!(c.secret, "s3cret");
    assert_eq!(c.access_ttl_secs, DEFAULT_ACCESS_TTL_SECS);
    assert_eq!(c.refresh_ttl_secs, DEFAULT_REFRESH_TTL_SECS);
    assert_eq!(c.issuer, JWT_ISSUER);
    assert_eq!(DEFAULT_ACCESS_TTL_SECS, 3600);
    assert_eq!(DEFAULT_REFRESH_TTL_SECS, 604_800);
}

#[test]
fn claim_texts_round_trip() {
    for m in [AuthMethod::Password, AuthMethod::ApiKey, AuthMethod::Pat, AuthMethod::Oidc] {
        assert_eq!(parse_auth_method(auth_method_to_str(m)), m);
    }
    assert_eq!(parse_auth_method("something-else"), AuthMethod::ApiKey);
    assert_eq!(caller_type_to_str(CallerType::User), "user");
    assert_eq!(caller_type_to_str(CallerType::ApiKey), "apikey");
    assert_eq!(Scope::ADMIN, "admin");
    assert_eq!(Scope::JOBS_READ, "jobs:read");
}

#[test]
fn hash_password_uses_the_stored_cost() {
    let h = croniq::auth::hash_password("s3cret-pass").unwrap();
    assert_eq!(h.len(), 60);
    assert!(h.starts_with("$2b$12$"), "{h}");
}
