use base64::Engine;
use croniq::auth::{CryptoError, WrappedUnder};
use croniq::crypto::{unwrap_totp_secret, unwrap_totp_secret_with_previous, wrap_totp_secret};

#[test]
fn wrap_unwrap_round_trip() {
    let plaintext = b"JBSWY3DPEHPK3PXP"; // example TOTP seed
    let wrapped = wrap_totp_secret("jwt-secret", plaintext).unwrap();
    let unwrapped = unwrap_totp_secret("jwt-secret", &wrapped).unwrap();
    assert_eq!(unwrapped, plaintext);
}

#[test]
fn different_secret_fails_to_decrypt() {
    let wrapped = wrap_totp_secret("secret-a", b"plaintext").unwrap();
    let result = unwrap_totp_secret("secret-b", &wrapped);
    assert_eq!(result, Err(CryptoError::Decrypt));
}

#[test]
fn tampered_ciphertext_fails_to_decrypt() {
    let mut wrapped = wrap_totp_secret("secret", b"plaintext").unwrap();
    // Flip a bit late in the b64 string: it lands in the ciphertext or tag.
    let last = wrapped.pop().unwrap();
    let flipped = ((last as u8) ^ 1) as char;
    wrapped.push(flipped);
    // Either Decrypt (tag mismatch) or InvalidFormat (b64 error); it must
    // not silently succeed.
    let result = unwrap_totp_secret("secret", &wrapped);
    assert!(result.is_err());
}

#[test]
fn truncated_ciphertext_is_invalid_format() {
    let result = unwrap_totp_secret("secret", "Y3Jvbmlx"); // 6 bytes, < 12 + 16
    assert_eq!(result, Err(CryptoError::InvalidFormat));
}

#[test]
fn previous_key_unwraps_a_row_written_before_a_rotation() {
    let wrapped = wrap_totp_secret("old-secret", b"JBSWY3DPEHPK3PXP").unwrap();
    let (pt, under) =
        unwrap_totp_secret_with_previous("new-secret", Some("old-secret"), &wrapped).unwrap();
    assert_eq!(pt, b"JBSWY3DPEHPK3PXP");
    assert_eq!(under, WrappedUnder::Previous);
}

#[test]
fn current_key_is_tried_first_and_reported_as_such() {
    let wrapped = wrap_totp_secret("new-secret", b"seed").unwrap();
    let (pt, under) =
        unwrap_totp_secret_with_previous("new-secret", Some("old-secret"), &wrapped).unwrap();
    assert_eq!(pt, b"seed");
    assert_eq!(under, WrappedUnder::Current);
}

#[test]
fn a_row_under_neither_key_reports_the_current_keys_error() {
    let wrapped = wrap_totp_secret("third-secret", b"seed").unwrap();
    let result = unwrap_totp_secret_with_previous("new-secret", Some("old-secret"), &wrapped);
    assert_eq!(result.map(|(pt, _)| pt), Err(CryptoError::Decrypt));
}

#[test]
fn no_previous_key_behaves_exactly_like_the_plain_unwrap() {
    let wrapped = wrap_totp_secret("old-secret", b"seed").unwrap();
    assert_eq!(
        unwrap_totp_secret_with_previous("new-secret", None, &wrapped).map(|(pt, _)| pt),
        Err(CryptoError::Decrypt)
    );
}

#[test]
fn malformed_input_is_a_format_error_under_either_key() {
    let result = unwrap_totp_secret_with_previous("new", Some("old"), "Y3Jvbmlx");
    assert_eq!(result.map(|(pt, _)| pt), Err(CryptoError::InvalidFormat));
}

#[test]
fn wrapping_never_uses_the_previous_key() {
    let wrapped = wrap_totp_secret("new-secret", b"seed").unwrap();
    assert_eq!(unwrap_totp_secret("new-secret", &wrapped).unwrap(), b"seed");
    assert_eq!(unwrap_totp_secret("old-secret", &wrapped), Err(CryptoError::Decrypt));
}

#[test]
fn each_wrap_produces_different_ciphertext() {
    let a = wrap_totp_secret("secret", b"same-plaintext").unwrap();
    let b = wrap_totp_secret("secret", b"same-plaintext").unwrap();
    assert_ne!(a, b);
}

#[test]
fn wrapped_form_is_nonce_then_ciphertext_and_tag() {
    let wrapped = wrap_totp_secret("secret", b"123456789").unwrap();
    let raw = base64::engine::general_purpose::STANDARD.decode(&wrapped).unwrap();
    assert_eq!(raw.len(), 12 + 9 + 16);
    assert_ne!(&raw[12..21], b"123456789");
}

#[test]
fn text_that_is_not_base64_is_a_format_error() {
    assert_eq!(unwrap_totp_secret("secret", "not base64!"), Err(CryptoError::InvalidFormat));
}

#[test]
fn an_empty_plaintext_round_trips() {
    let wrapped = wrap_totp_secret("secret", b"").unwrap();
    assert_eq!(unwrap_totp_secret("secret", &wrapped).unwrap(), Vec::<u8>::new());
}

#[test]
fn crypto_errors_have_their_texts() {
    assert_eq!(CryptoError::Encrypt.message(), "encryption failed");
    assert_eq!(
        CryptoError::Decrypt.message(),
        "decryption failed (key change or tampered ciphertext)"
    );
    assert_eq!(CryptoError::InvalidFormat.message(), "invalid wrapped format");
}
