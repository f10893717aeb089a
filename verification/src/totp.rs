//! TOTP second factor: enrolment, code verification and recovery-code
//! hashing. Authenticator-compatible settings: SHA-1, six digits, a 30 s
//! step and one step of clock skew either way.

use vstd::prelude::*;
use crate::auth::{
    TotpEnrolment, TotpError, RECOVERY_CODE_COUNT, generate_recovery_codes, hash_api_key,
    is_recovery_code, spec_secret_hash,
};
use crate::convert::{trim, unicode_lowercase};
use crate::text::{chars_of, decimal, push_char, push_str, string_of, utf8_len};

verus! {

#[verifier::external_type_specification]
#[verifier::external_body]
pub struct ExTotp(totp_rs::TOTP);

/// Digits in a TOTP code.
pub const TOTP_DIGITS: usize = 6;

/// Length of a TOTP step, in seconds.
pub const TOTP_STEP_SECS: u64 = 30;

/// Steps before and after the current one that are accepted for clock skew.
pub const TOTP_SKEW: u8 = 1;

/// Issuer label of the `otpauth://` URL.
pub const TOTP_ISSUER: &'static str = "Croniq";

/// Bytes of a freshly generated TOTP seed (160 bits).
pub const SECRET_BYTES: usize = 20;

// ─── Percent-encoding ────────────────────────────────────────────────────────

/// The bytes that percent-encoding leaves as they are: ASCII letters and
/// digits and `-`, `.`, `_`, `~`.
pub open spec fn url_safe(b: u8) -> bool {
    (48 <= b <= 57) || (65 <= b <= 90) || (97 <= b <= 122) || b == 45 || b == 46 || b == 95
        || b == 126
}

/// An upper-case hex digit for a value below sixteen.
pub open spec fn hex_upper(v: u8) -> char {
    if v < 10 {
        ((v + 48) as u8) as char
    } else {
        ((v + 55) as u8) as char
    }
}

/// One byte, percent-encoded.
pub open spec fn percent_byte(b: u8) -> Seq<char> {
    if url_safe(b) {
        seq![b as char]
    } else {
        seq!['%', hex_upper(b / 16), hex_upper(b % 16)]
    }
}

/// Percent-encoding of some bytes.
pub open spec fn percent_encode(bytes: Seq<u8>) -> Seq<char>
    decreases bytes.len(),
{
    if bytes.len() == 0 {
        Seq::empty()
    } else {
        percent_encode(bytes.drop_last()) + percent_byte(bytes.last())
    }
}

/// `urlencoding::encode(s)`: every byte of the UTF-8 text percent-encoded
/// (`%` and two upper-case hex digits) except ASCII letters, digits and
/// `-`, `.`, `_`, `~`, as the crate documents.
#[verifier::external_body]
fn url_encode(s: &str) -> (r: String)
    ensures
        r@ == percent_encode(vstd::utf8::encode_utf8(s@)),
{
    urlencoding::encode(s).into_owned()
}

// ─── Seeds ───────────────────────────────────────────────────────────────────

/// RFC 4648 base32 text of some bytes, without padding.
pub uninterp spec fn base32_text(bytes: Seq<u8>) -> Seq<char>;

/// The bytes that unpadded RFC 4648 base32 text decodes to, or `None` when
/// it is not such text.
pub uninterp spec fn base32_bytes(text: Seq<char>) -> Option<Seq<u8>>;

/// `Secret::generate_secret()`: a raw seed of 160 random bits. Nothing
/// more is stated: the bytes come from the random generator.
#[verifier::external_body]
fn generate_secret_bytes() -> (b: Vec<u8>)
    ensures
        b@.len() == SECRET_BYTES,
{
    match totp_rs::Secret::generate_secret() {
        totp_rs::Secret::Raw(bytes) => bytes,
        totp_rs::Secret::Encoded(text) => text.into_bytes(),
    }
}

/// `Secret::Raw(bytes).to_encoded().to_string()`: the bytes as unpadded
/// base32, stated as the named result `base32_text`.
#[verifier::external_body]
fn base32_encode(bytes: &[u8]) -> (r: String)
    ensures
        r@ == base32_text(bytes@),
{
    totp_rs::Secret::Raw(bytes.to_vec()).to_encoded().to_string()
}

/// `Secret::Encoded(text).to_bytes()`: the decoded seed, stated as the
/// named result `base32_bytes`. Decoding what was encoded gives the bytes
/// back.
#[verifier::external_body]
fn base32_decode(text: &str) -> (r: Option<Vec<u8>>)
    ensures
        match r {
            Some(b) => base32_bytes(text@) == Some(b@),
            None => base32_bytes(text@) is None,
        },
        forall|b: Seq<u8>| #[trigger] base32_text(b) == text@ ==> (r is Some && r->Some_0@ == b),
{
    totp_rs::Secret::Encoded(text.to_string()).to_bytes().ok()
}

/// The text of the error for a seed that is too short.
pub open spec fn secret_size_message(bits: nat) -> Seq<char> {
    "The length of the shared secret MUST be at least 128 bits. "@ + decimal(bits)
        + " bits is not enough"@
}

/// `TOTP::new(Algorithm::SHA1, digits, skew, step, secret)`: succeeds
/// exactly for six to eight digits and a seed of at least 16 bytes; the
/// error is given as its `Display` text, which for a short seed names its
/// size in bits. A zero step is refused here: the TOTP would divide by it
/// when checking a code.
#[verifier::external_body]
fn sha1_totp(digits: usize, skew: u8, step: u64, secret: Vec<u8>) -> (r: Result<totp_rs::TOTP, String>)
    requires
        step > 0,
    ensures
        r is Ok <==> (6 <= digits <= 8 && secret@.len() >= 16),
        6 <= digits <= 8 && secret@.len() < 16 ==> (r is Err && r->Err_0@ == secret_size_message(
            (secret@.len() * 8) as nat,
        )),
{
    totp_rs::TOTP::new(totp_rs::Algorithm::SHA1, digits, skew, step, secret).map_err(|e| e.to_string())
}

/// Whether `code` is accepted for the seed at Unix time `time`: it equals
/// the six-digit SHA-1 TOTP of the 30-second step of `time` or of a step
/// within the skew.
pub uninterp spec fn totp_sha1_accepts(seed: Seq<u8>, code: Seq<char>, time: u64) -> bool;

/// The earliest time a code can be checked at: `check` subtracts the skew
/// from the step number.
pub const TOTP_EARLIEST_CHECK_SECS: u64 = 30;

/// The latest time a code can be checked at: the last step within the
/// skew must still be representable in seconds.
pub const TOTP_LATEST_CHECK_SECS: u64 = 18446744073709551585;

/// `TOTP::new(Algorithm::SHA1, TOTP_DIGITS, TOTP_SKEW, TOTP_STEP_SECS,
/// secret)` followed by `check(code, time)`. Building fails exactly for a
/// seed under 16 bytes, with the error's text naming its size in bits;
/// otherwise the answer is the named result `totp_sha1_accepts`. The time
/// is kept where `check` neither underflows the step number nor overflows
/// the step's seconds.
#[verifier::external_body]
fn totp_check_at(secret: Vec<u8>, code: &str, time: u64) -> (r: Result<bool, String>)
    requires
        TOTP_EARLIEST_CHECK_SECS <= time <= TOTP_LATEST_CHECK_SECS,
    ensures
        secret@.len() < 16 ==> (r is Err && r->Err_0@ == secret_size_message((secret@.len() * 8) as nat)),
        secret@.len() >= 16 ==> (r is Ok && r->Ok_0 == totp_sha1_accepts(secret@, code@, time)),
{
    let totp = totp_rs::TOTP::new(totp_rs::Algorithm::SHA1, TOTP_DIGITS, TOTP_SKEW, TOTP_STEP_SECS, secret)
        .map_err(|e| e.to_string())?;
    Ok(totp.check(code, time))
}

/// `SystemTime::now().duration_since(UNIX_EPOCH)` in whole seconds, the
/// error given as its text (a clock before the epoch). Nothing is stated of
/// the value: it is the clock.
#[verifier::external_body]
fn unix_time_secs() -> (r: Result<u64, String>)
{
    match std::time::SystemTime::now().duration_since(std::time::UNIX_EPOCH) {
        Ok(d) => Ok(d.as_secs()),
        Err(e) => Err(e.to_string()),
    }
}

// ─── Enrolment ───────────────────────────────────────────────────────────────

/// The `otpauth://` URL of an enrolment.
pub open spec fn otpauth_url(account: Seq<char>, secret_b32: Seq<char>) -> Seq<char> {
    let issuer = percent_encode(vstd::utf8::encode_utf8(TOTP_ISSUER@));
    "otpauth://totp/"@ + issuer + ":"@ + percent_encode(vstd::utf8::encode_utf8(account))
        + "?secret="@ + secret_b32 + "&issuer="@ + issuer
        + "&algorithm=SHA1&digits=6&period=30"@
}

/// Generate a new TOTP enrolment for `account`: a fresh 160-bit seed as
/// base32, its `otpauth://` URL, and `RECOVERY_CODE_COUNT` recovery codes.
/// It always succeeds: a generated seed is long enough.
pub fn enroll_user(account: &str) -> (r: Result<TotpEnrolment, TotpError>)
    ensures
        match r {
            Ok(e) => {
                &&& e.otpauth_url@ == otpauth_url(account@, e.secret_b32@)
                &&& exists|b: Seq<u8>| b.len() == SECRET_BYTES && #[trigger] base32_text(b) == e.secret_b32@
                &&& e.recovery_codes@.len() == RECOVERY_CODE_COUNT
                &&& forall|i: int|
                    0 <= i < e.recovery_codes@.len() ==> is_recovery_code(#[trigger] e.recovery_codes@[i]@)
            },
            Err(_) => false,
        },
{
    let raw = generate_secret_bytes();
    let secret_b32 = base32_encode(raw.as_slice());
    let totp = match sha1_totp(TOTP_DIGITS, TOTP_SKEW, TOTP_STEP_SECS, raw) {
        Ok(t) => t,
        Err(m) => return Err(TotpError::Construct(m)),
    };
    let issuer = url_encode(TOTP_ISSUER);
    let acct = url_encode(account);
    let mut url = String::new();
    push_str(&mut url, "otpauth://totp/");
    push_str(&mut url, issuer.as_str());
    push_char(&mut url, ':');
    push_str(&mut url, acct.as_str());
    push_str(&mut url, "?secret=");
    push_str(&mut url, secret_b32.as_str());
    push_str(&mut url, "&issuer=");
    push_str(&mut url, issuer.as_str());
    push_str(&mut url, "&algorithm=SHA1&digits=6&period=30");
    proof {
        reveal_strlit(":");
        assert(url@ =~= otpauth_url(account@, secret_b32@));
    }
    let _ = totp;
    let recovery_codes = generate_recovery_codes();
    Ok(TotpEnrolment { secret_b32, otpauth_url: url, recovery_codes })
}

// ─── Verification ────────────────────────────────────────────────────────────

/// A well-formed code: exactly six bytes, all ASCII digits.
pub open spec fn well_formed_code(code: Seq<char>) -> bool {
    &&& utf8_len(code) == TOTP_DIGITS
    &&& forall|i: int| 0 <= i < code.len() ==> crate::text::is_digit(#[trigger] code[i])
}

/// Whether `code` is well formed, as `well_formed_code` says.
fn code_is_well_formed(code: &str) -> (b: bool)
    ensures
        b == well_formed_code(code@),
{
    proof {
        crate::text::lemma_str_len(code);
    }
    let cs = chars_of(code);
    let n = code.as_bytes().len();
    let mut all_digits = true;
    let mut i: usize = 0;
    while i < cs.len()
        invariant
            i <= cs@.len(),
            cs@ == code@,
            all_digits == forall|k: int| 0 <= k < i ==> crate::text::is_digit(#[trigger] cs@[k]),
        decreases cs@.len() - i,
    {
        let c = cs[i];
        if !('0' <= c && c <= '9') {
            all_digits = false;
        }
        i = i + 1;
    }
    n == TOTP_DIGITS && all_digits
}

/// Verify a six-digit code against a base32 seed at Unix time `now`. A
/// malformed code is refused without looking at the seed; a seed that is
/// not base32 is `InvalidSecret`; a seed under 128 bits cannot build a
/// TOTP; otherwise the answer is whether the code is the seed's TOTP at
/// `now` or within the skew.
pub fn verify_code_at(secret_b32: &str, code: &str, now: u64) -> (r: Result<bool, TotpError>)
    requires
        TOTP_EARLIEST_CHECK_SECS <= now <= TOTP_LATEST_CHECK_SECS,
    ensures
        !well_formed_code(code@) ==> r matches Ok(false),
        well_formed_code(code@) ==> match base32_bytes(secret_b32@) {
            None => r matches Err(TotpError::InvalidSecret),
            Some(b) => if b.len() < 16 {
                r matches Err(TotpError::Construct(m)) && m@ == secret_size_message((b.len() * 8) as nat)
            } else {
                r == Ok::<bool, TotpError>(totp_sha1_accepts(b, code@, now))
            },
        },
{
    if !code_is_well_formed(code) {
        return Ok(false);
    }
    let secret = match base32_decode(secret_b32) {
        Some(b) => b,
        None => return Err(TotpError::InvalidSecret),
    };
    match totp_check_at(secret, code, now) {
        Ok(b) => Ok(b),
        Err(m) => Err(TotpError::Construct(m)),
    }
}

/// Verify a six-digit code against a base32 seed by the system clock: as
/// `verify_code_at` at the current time. A clock before the Unix epoch, or
/// outside the times a code can be checked at, is a `Construct` error.
pub fn verify_code(secret_b32: &str, code: &str) -> (r: Result<bool, TotpError>)
    ensures
        !well_formed_code(code@) ==> r matches Ok(false),
        well_formed_code(code@) ==> match base32_bytes(secret_b32@) {
            None => r matches Err(TotpError::InvalidSecret),
            Some(b) => if b.len() < 16 {
                r matches Err(TotpError::Construct(m)) && m@ == secret_size_message((b.len() * 8) as nat)
            } else {
                &&& r matches Ok(v) ==> exists|t: u64| TOTP_EARLIEST_CHECK_SECS <= t <= TOTP_LATEST_CHECK_SECS
                    && v == #[trigger] totp_sha1_accepts(b, code@, t)
                &&& r is Ok || r is Err && r->Err_0 is Construct
            },
        },
{
    if !code_is_well_formed(code) {
        return Ok(false);
    }
    let secret = match base32_decode(secret_b32) {
        Some(b) => b,
        None => return Err(TotpError::InvalidSecret),
    };
    if secret.len() < 16 {
        return match sha1_totp(TOTP_DIGITS, TOTP_SKEW, TOTP_STEP_SECS, secret) {
            Ok(_) => Ok(false),
            Err(m) => Err(TotpError::Construct(m)),
        };
    }
    let now = match unix_time_secs() {
        Ok(t) => t,
        Err(m) => return Err(TotpError::Construct(m)),
    };
    if now < TOTP_EARLIEST_CHECK_SECS || now > TOTP_LATEST_CHECK_SECS {
        let mut m = String::new();
        push_str(&mut m, "system clock is out of range");
        return Err(TotpError::Construct(m));
    }
    verify_code_at(secret_b32, code, now)
}

// ─── Recovery codes ──────────────────────────────────────────────────────────

/// The stored hash of a recovery code: trimmed, lower-cased, then hashed
/// like an API key.
pub open spec fn recovery_code_hash(raw: Seq<char>) -> Seq<char> {
    spec_secret_hash(unicode_lowercase(trim(raw)))
}

/// Hash a recovery code for storage. Surrounding white space and case do
/// not matter, so a pasted code still matches.
pub fn hash_recovery_code(raw: &str) -> (h: String)
    ensures
        h@ == recovery_code_hash(raw@),
{
    let cs = chars_of(raw);
    let t = crate::convert::trim_chars(cs.as_slice());
    let trimmed = string_of(t.as_slice());
    let lowered = crate::convert::to_lowercase(trimmed.as_str());
    hash_api_key(lowered.as_str())
}

/// A code and the same code with white space around it hash alike.
pub proof fn lemma_recovery_hash_ignores_padding(raw: Seq<char>)
    ensures
        recovery_code_hash(trim(raw)) == recovery_code_hash(raw),
{
    crate::convert::lemma_trim_idempotent(raw);
}

} // verus!
