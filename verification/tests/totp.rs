use croniq::auth::{hash_api_key, TotpError, RECOVERY_CODE_COUNT, RECOVERY_CODE_LEN};
use croniq::totp::{enroll_user, hash_recovery_code, verify_code, verify_code_at};
use totp_rs::{Algorithm, Secret, TOTP};

const RECOVERY_CHARSET: &str = "abcdefghjkmnpqrstuvwxyz23456789";

#[test]
fn enrolment_emits_otpauth_url_with_seed() {
    let e = enroll_user("alex@example.org").unwrap();
    assert!(e.otpauth_url.starts_with("otpauth://totp/Croniq:"));
    assert!(e.otpauth_url.contains(&format!("secret={}", e.secret_b32)));
    assert!(e.otpauth_url.contains("issuer=Croniq"));
}

#[test]
fn enrolment_mints_ten_recovery_codes() {
    let e = enroll_user("alex").unwrap();
    assert_eq!(e.recovery_codes.len(), RECOVERY_CODE_COUNT);
    for code in &e.recovery_codes {
        assert_eq!(code.len(), RECOVERY_CODE_LEN);
        assert!(code.chars().all(|c| RECOVERY_CHARSET.contains(c)));
    }
    // No duplicates (very unlikely, but worth catching).
    let mut sorted = e.recovery_codes.clone();
    sorted.sort();
    sorted.dedup();
    assert_eq!(sorted.len(), RECOVERY_CODE_COUNT);
}

#[test]
fn verify_rejects_wrong_format() {
    let e = enroll_user("a").unwrap();
    assert!(!verify_code(&e.secret_b32, "12345").unwrap()); // too short
    assert!(!verify_code(&e.secret_b32, "1234567").unwrap()); // too long
    assert!(!verify_code(&e.secret_b32, "abcdef").unwrap()); // not digits
}

#[test]
fn verify_accepts_current_code() {
    let e = enroll_user("a").unwrap();
    let secret = Secret::Encoded(e.secret_b32.clone()).to_bytes().unwrap();
    let totp = TOTP::new(Algorithm::SHA1, 6, 1, 30, secret).unwrap();
    let code = totp.generate_current().unwrap();
    assert!(verify_code(&e.secret_b32, &code).unwrap());
}

#[test]
fn hash_recovery_code_is_case_insensitive() {
    assert_eq!(hash_recovery_code("ABC123de"), hash_recovery_code("abc123de"));
    assert_eq!(hash_recovery_code(" abc123de "), hash_recovery_code("abc123de"));
}

#[test]
fn otpauth_url_percent_encodes_the_account() {
    let e = enroll_user("alex@example.org").unwrap();
    assert_eq!(
        e.otpauth_url,
        format!(
            "otpauth://totp/Croniq:alex%40example.org?secret={}&issuer=Croniq&algorithm=SHA1&digits=6&period=30",
            e.secret_b32
        )
    );
}

#[test]
fn enrolment_seed_is_160_bits_of_base32() {
    let e = enroll_user("a").unwrap();
    assert_eq!(e.secret_b32.len(), 32);
    assert_eq!(Secret::Encoded(e.secret_b32.clone()).to_bytes().unwrap().len(), 20);
}

#[test]
fn a_seed_that_is_not_base32_is_an_invalid_secret() {
    assert!(matches!(verify_code("not base32!", "123456"), Err(TotpError::InvalidSecret)));
}

#[test]
fn a_short_seed_names_its_size() {
    // "MFRGGZDF" is the base32 of the five bytes "abcde".
    match verify_code("MFRGGZDF", "123456") {
        Err(TotpError::Construct(m)) => assert_eq!(
            m,
            "The length of the shared secret MUST be at least 128 bits. 40 bits is not enough"
        ),
        _ => panic!("a 40-bit seed must be refused"),
    }
}

#[test]
fn a_malformed_code_is_refused_before_the_seed_is_read() {
    assert!(!verify_code("not base32!", "12a456").unwrap());
}

#[test]
fn recovery_hash_is_the_api_key_hash_of_the_normalised_code() {
    assert_eq!(hash_recovery_code("  XYZ123AB\n"), hash_api_key("xyz123ab"));
}

#[test]
fn totp_errors_have_their_texts() {
    assert_eq!(TotpError::InvalidSecret.message(), "invalid base32 secret");
    assert_eq!(
        TotpError::Construct("x".to_string()).message(),
        "TOTP construction failed: x"
    );
}

#[test]
fn verify_at_a_given_time_checks_the_code_of_that_step() {
    // RFC 6238's SHA-1 seed, "12345678901234567890", in base32.
    let b32 = "GEZDGNBVGY3TQOJQGEZDGNBVGY3TQOJQ";
    let seed = Secret::Encoded(b32.to_string()).to_bytes().unwrap();
    let totp = TOTP::new(Algorithm::SHA1, 6, 1, 30, seed).unwrap();
    let t: u64 = 1_111_111_109;
    let code = totp.generate(t);
    assert_eq!(code, "081804");
    assert!(verify_code_at(b32, &code, t).unwrap());
    // One step either side is within the skew; two steps are not.
    assert!(verify_code_at(b32, &code, t + 30).unwrap());
    assert!(!verify_code_at(b32, &code, t + 90).unwrap());
    let other = if code == "000000" { "111111" } else { "000000" };
    assert_eq!(verify_code_at(b32, other, t).unwrap(), totp.check(other, t));
    assert!(matches!(verify_code_at("not base32!", "123456", t), Err(TotpError::InvalidSecret)));
}
