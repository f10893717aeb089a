//! At-rest encryption of TOTP seeds: AES-256-GCM under a 32-byte key that
//! HKDF-SHA256 derives from the JWT secret. The stored form is
//! `base64(nonce || ciphertext || tag)`, with a 12-byte nonce and the
//! 16-byte tag that GCM appends. There is no key identifier in it: the key
//! is found by trial decryption, which GCM's authentication makes sound.

use vstd::prelude::*;
use crate::auth::{CryptoError, WrappedUnder};
use aes_gcm::aead::{Aead, AeadCore, KeyInit};
use base64::Engine;

verus! {

/// The HKDF `info` string that binds the derived key to its purpose.
pub const TOTP_KEY_INFO: &'static str = "croniq-totp-v1";

/// Bytes in an AES-GCM nonce.
pub const NONCE_LEN: usize = 12;

/// Bytes in the tag that AES-GCM appends to the ciphertext.
pub const TAG_LEN: usize = 16;

/// The longest plaintext AES-GCM accepts, in bytes.
pub const PLAINTEXT_MAX: u64 = 68719476736;

// ─── Names for what the outside functions compute ────────────────────────────

/// The 32 output bytes of HKDF-SHA256 with no salt over `ikm` and `info`.
pub uninterp spec fn hkdf_sha256_okm(ikm: Seq<u8>, info: Seq<u8>) -> Seq<u8>;

/// The AES-256-GCM ciphertext followed by its tag, for `plaintext` under
/// `key` and `nonce` with no associated data.
pub uninterp spec fn aes256_gcm_seal(key: Seq<u8>, nonce: Seq<u8>, plaintext: Seq<u8>) -> Seq<u8>;

/// AES-256-GCM decryption of a ciphertext-and-tag: the plaintext, or
/// `None` when the tag does not verify.
pub uninterp spec fn aes256_gcm_open(key: Seq<u8>, nonce: Seq<u8>, sealed: Seq<u8>) -> Option<Seq<u8>>;

/// Standard base64 (with padding) of some bytes.
pub uninterp spec fn base64_text(bytes: Seq<u8>) -> Seq<char>;

/// The bytes that standard base64 text decodes to, or `None` when it is not
/// canonical padded base64.
pub uninterp spec fn base64_bytes(text: Seq<char>) -> Option<Seq<u8>>;

// ─── Trusted items ───────────────────────────────────────────────────────────

/// `Hkdf::<Sha256>::new(None, ikm)` then `expand(info, &mut [0u8; 32])`:
/// 32 bytes of key material, stated as the named result `hkdf_sha256_okm`.
/// The expansion fails only for more than 255 hash lengths of output, so
/// never here.
#[verifier::external_body]
fn hkdf_sha256(ikm: &[u8], info: &[u8]) -> (okm: Vec<u8>)
    ensures
        okm@ == hkdf_sha256_okm(ikm@, info@),
        okm@.len() == 32,
{
    let hk = hkdf::Hkdf::<sha2::Sha256>::new(None, ikm);
    let mut okm = [0u8; 32];
    hk.expand(info, &mut okm).expect("HKDF expand for 32 bytes never fails");
    okm.to_vec()
}

/// `Aes256Gcm::generate_nonce(&mut OsRng)`: twelve random bytes. Nothing
/// more is stated: the bytes come from the operating system.
#[verifier::external_body]
fn random_nonce() -> (n: Vec<u8>)
    ensures
        n@.len() == NONCE_LEN,
{
    aes_gcm::Aes256Gcm::generate_nonce(&mut aes_gcm::aead::OsRng).to_vec()
}

/// `Aes256Gcm::new(key).encrypt(nonce, plaintext)`: the ciphertext with
/// the 16-byte tag appended, stated as the named result `aes256_gcm_seal`;
/// the crate refuses a plaintext longer than 2^36 bytes. `key` and `nonce`
/// must have their exact sizes, or building the cipher panics.
#[verifier::external_body]
fn aes256_gcm_encrypt(key: &[u8], nonce: &[u8], plaintext: &[u8]) -> (r: Result<Vec<u8>, ()>)
    requires
        key@.len() == 32,
        nonce@.len() == NONCE_LEN,
    ensures
        match r {
            Ok(ct) => {
                &&& plaintext@.len() <= PLAINTEXT_MAX
                &&& ct@ == aes256_gcm_seal(key@, nonce@, plaintext@)
                &&& ct@.len() == plaintext@.len() + TAG_LEN
            },
            Err(()) => plaintext@.len() > PLAINTEXT_MAX,
        },
{
    let cipher = aes_gcm::Aes256Gcm::new(aes_gcm::Key::<aes_gcm::Aes256Gcm>::from_slice(key));
    cipher.encrypt(aes_gcm::Nonce::from_slice(nonce), plaintext).map_err(|_| ())
}

/// `Aes256Gcm::new(key).decrypt(nonce, sealed)`: the plaintext when the tag
/// verifies, stated as the named result `aes256_gcm_open`. Decrypting what
/// the same key and nonce sealed gives the plaintext back.
#[verifier::external_body]
fn aes256_gcm_decrypt(key: &[u8], nonce: &[u8], sealed: &[u8]) -> (r: Result<Vec<u8>, ()>)
    requires
        key@.len() == 32,
        nonce@.len() == NONCE_LEN,
    ensures
        match r {
            Ok(pt) => aes256_gcm_open(key@, nonce@, sealed@) == Some(pt@),
            Err(()) => aes256_gcm_open(key@, nonce@, sealed@) is None,
        },
        forall|p: Seq<u8>|
            p.len() <= PLAINTEXT_MAX && #[trigger] aes256_gcm_seal(key@, nonce@, p) == sealed@
                ==> (r is Ok && r->Ok_0@ == p),
{
    let cipher = aes_gcm::Aes256Gcm::new(aes_gcm::Key::<aes_gcm::Aes256Gcm>::from_slice(key));
    cipher.decrypt(aes_gcm::Nonce::from_slice(nonce), sealed).map_err(|_| ())
}

/// `base64::engine::general_purpose::STANDARD.encode(bytes)`, stated as the
/// named result `base64_text`.
#[verifier::external_body]
fn b64_encode(bytes: &[u8]) -> (r: String)
    ensures
        r@ == base64_text(bytes@),
{
    base64::engine::general_purpose::STANDARD.encode(bytes)
}

/// `base64::engine::general_purpose::STANDARD.decode(text)`, stated as the
/// named result `base64_bytes`. Decoding what the engine encoded gives the
/// bytes back.
#[verifier::external_body]
fn b64_decode(text: &str) -> (r: Option<Vec<u8>>)
    ensures
        match r {
            Some(b) => base64_bytes(text@) == Some(b@),
            None => base64_bytes(text@) is None,
        },
        forall|b: Seq<u8>| #[trigger] base64_text(b) == text@ ==> (r is Some && r->Some_0@ == b),
{
    base64::engine::general_purpose::STANDARD.decode(text).ok()
}

// ─── Wrapping ────────────────────────────────────────────────────────────────

/// The wrap key derived from a JWT secret.
pub open spec fn totp_key(jwt_secret: Seq<char>) -> Seq<u8> {
    hkdf_sha256_okm(vstd::utf8::encode_utf8(jwt_secret), vstd::utf8::encode_utf8(TOTP_KEY_INFO@))
}

/// The stored form of `plaintext` sealed under `jwt_secret`'s key with
/// `nonce`.
pub open spec fn wrapped_text(jwt_secret: Seq<char>, nonce: Seq<u8>, plaintext: Seq<u8>) -> Seq<char> {
    base64_text(nonce + aes256_gcm_seal(totp_key(jwt_secret), nonce, plaintext))
}

/// What unwrapping `wrapped` under `jwt_secret` gives: `InvalidFormat` when
/// it is not base64 of at least a nonce and a tag, `Decrypt` when the tag
/// does not verify under this key.
pub open spec fn spec_unwrap(jwt_secret: Seq<char>, wrapped: Seq<char>) -> Result<Seq<u8>, CryptoError> {
    match base64_bytes(wrapped) {
        None => Err(CryptoError::InvalidFormat),
        Some(raw) => if raw.len() < NONCE_LEN + TAG_LEN {
            Err(CryptoError::InvalidFormat)
        } else {
            match aes256_gcm_open(totp_key(jwt_secret), raw.take(NONCE_LEN as int), raw.skip(NONCE_LEN as int)) {
                Some(p) => Ok(p),
                None => Err(CryptoError::Decrypt),
            }
        },
    }
}

/// The wrap key for a JWT secret.
fn derive_totp_key(jwt_secret: &str) -> (k: Vec<u8>)
    ensures
        k@ == totp_key(jwt_secret@),
        k@.len() == 32,
{
    hkdf_sha256(jwt_secret.as_bytes(), TOTP_KEY_INFO.as_bytes())
}

/// Wrap a TOTP seed (or any short secret) with AES-256-GCM under a fresh
/// random nonce. The result is `wrapped_text` of some twelve-byte nonce,
/// and its sealed part is a tag longer than the plaintext.
pub fn wrap_totp_secret(jwt_secret: &str, plaintext: &[u8]) -> (r: Result<String, CryptoError>)
    ensures
        match r {
            Ok(w) => exists|n: Seq<u8>|
                n.len() == NONCE_LEN
                && w@ == #[trigger] wrapped_text(jwt_secret@, n, plaintext@)
                && aes256_gcm_seal(totp_key(jwt_secret@), n, plaintext@).len() == plaintext@.len() + TAG_LEN,
            Err(e) => e == CryptoError::Encrypt && plaintext@.len() > PLAINTEXT_MAX,
        },
{
    let key = derive_totp_key(jwt_secret);
    let nonce = random_nonce();
    let ct = match aes256_gcm_encrypt(key.as_slice(), nonce.as_slice(), plaintext) {
        Ok(ct) => ct,
        Err(()) => return Err(CryptoError::Encrypt),
    };
    let mut out: Vec<u8> = Vec::new();
    let mut i: usize = 0;
    while i < nonce.len()
        invariant
            i <= nonce@.len(),
            out@ == nonce@.take(i as int),
        decreases nonce@.len() - i,
    {
        out.push(nonce[i]);
        i = i + 1;
        assert(out@ =~= nonce@.take(i as int));
    }
    let mut j: usize = 0;
    while j < ct.len()
        invariant
            j <= ct@.len(),
            nonce@.len() == NONCE_LEN,
            out@ == nonce@ + ct@.take(j as int),
        decreases ct@.len() - j,
    {
        out.push(ct[j]);
        j = j + 1;
        assert(out@ =~= nonce@ + ct@.take(j as int));
    }
    assert(ct@.take(ct@.len() as int) =~= ct@);
    let w = b64_encode(out.as_slice());
    assert(w@ == wrapped_text(jwt_secret@, nonce@, plaintext@));
    Ok(w)
}

/// The bytes of `raw` from `from` up to `to`.
fn copy_range(raw: &[u8], from: usize, to: usize) -> (r: Vec<u8>)
    requires
        from <= to <= raw@.len(),
    ensures
        r@ == raw@.subrange(from as int, to as int),
{
    let mut out: Vec<u8> = Vec::new();
    let mut i: usize = from;
    while i < to
        invariant
            from <= i <= to,
            to <= raw@.len(),
            out@ == raw@.subrange(from as int, i as int),
        decreases to - i,
    {
        out.push(raw[i]);
        i = i + 1;
        assert(out@ =~= raw@.subrange(from as int, i as int));
    }
    out
}

/// Inverse of `wrap_totp_secret`: the plaintext bytes, `InvalidFormat` for
/// input that is not base64 of at least a nonce and a tag, `Decrypt` when
/// the tag does not verify (another key, or tampered data). Unwrapping what
/// `wrap_totp_secret` produced under the same secret gives the plaintext
/// back.
pub fn unwrap_totp_secret(jwt_secret: &str, wrapped: &str) -> (r: Result<Vec<u8>, CryptoError>)
    ensures
        match r {
            Ok(v) => spec_unwrap(jwt_secret@, wrapped@) == Ok::<Seq<u8>, CryptoError>(v@),
            Err(e) => spec_unwrap(jwt_secret@, wrapped@) == Err::<Seq<u8>, CryptoError>(e),
        },
        forall|n: Seq<u8>, p: Seq<u8>|
            n.len() == NONCE_LEN && p.len() <= PLAINTEXT_MAX
                && aes256_gcm_seal(totp_key(jwt_secret@), n, p).len() == p.len() + TAG_LEN
                && #[trigger] wrapped_text(jwt_secret@, n, p) == wrapped@
                ==> (r matches Ok(v) && v@ == p),
{
    let raw = match b64_decode(wrapped) {
        Some(raw) => raw,
        None => {
            proof {
                assert forall|n: Seq<u8>, p: Seq<u8>|
                    #[trigger] wrapped_text(jwt_secret@, n, p) == wrapped@ implies false by {
                    let b = n + aes256_gcm_seal(totp_key(jwt_secret@), n, p);
                    assert(base64_text(b) == wrapped@);
                }
            }
            return Err(CryptoError::InvalidFormat);
        },
    };
    if raw.len() < NONCE_LEN + TAG_LEN {
        proof {
            assert forall|n: Seq<u8>, p: Seq<u8>|
                n.len() == NONCE_LEN && p.len() <= PLAINTEXT_MAX
                    && aes256_gcm_seal(totp_key(jwt_secret@), n, p).len() == p.len() + TAG_LEN
                    && #[trigger] wrapped_text(jwt_secret@, n, p) == wrapped@ implies false by {
                let b = n + aes256_gcm_seal(totp_key(jwt_secret@), n, p);
                assert(base64_text(b) == wrapped@);
            }
        }
        return Err(CryptoError::InvalidFormat);
    }
    let nonce = copy_range(raw.as_slice(), 0, NONCE_LEN);
    let sealed = copy_range(raw.as_slice(), NONCE_LEN, raw.len());
    assert(nonce@ =~= raw@.take(NONCE_LEN as int));
    assert(sealed@ =~= raw@.skip(NONCE_LEN as int));
    let key = derive_totp_key(jwt_secret);
    let r = match aes256_gcm_decrypt(key.as_slice(), nonce.as_slice(), sealed.as_slice()) {
        Ok(pt) => Ok(pt),
        Err(()) => Err(CryptoError::Decrypt),
    };
    proof {
        assert forall|n: Seq<u8>, p: Seq<u8>|
            n.len() == NONCE_LEN && p.len() <= PLAINTEXT_MAX
                && aes256_gcm_seal(totp_key(jwt_secret@), n, p).len() == p.len() + TAG_LEN
                && #[trigger] wrapped_text(jwt_secret@, n, p) == wrapped@
                implies (r matches Ok(v) && v@ == p) by {
            let s = aes256_gcm_seal(totp_key(jwt_secret@), n, p);
            let b = n + s;
            assert(base64_text(b) == wrapped@);
            assert(raw@ == b);
            assert(raw@.take(NONCE_LEN as int) =~= n);
            assert(raw@.skip(NONCE_LEN as int) =~= s);
            assert(aes256_gcm_seal(key@, nonce@, p) == sealed@);
        }
    }
    r
}

/// An optional string as an optional character sequence.
pub open spec fn opt_str_view(s: Option<&str>) -> Option<Seq<char>> {
    match s {
        Some(t) => Some(t@),
        None => None,
    }
}

/// What unwrapping with a fallback key gives: the current key first; a
/// format error at once; on a failed tag the previous key, if any, and else
/// the current key's error.
pub open spec fn spec_unwrap_with_previous(
    current: Seq<char>,
    previous: Option<Seq<char>>,
    wrapped: Seq<char>,
) -> Result<(Seq<u8>, WrappedUnder), CryptoError> {
    match spec_unwrap(current, wrapped) {
        Ok(p) => Ok((p, WrappedUnder::Current)),
        Err(CryptoError::InvalidFormat) => Err(CryptoError::InvalidFormat),
        Err(e) => match previous {
            Some(prev) => match spec_unwrap(prev, wrapped) {
                Ok(p) => Ok((p, WrappedUnder::Previous)),
                Err(_) => Err(e),
            },
            None => Err(e),
        },
    }
}

/// `unwrap_totp_secret` with a second key to fall back on, reporting which
/// key the secret was under. The previous key is only ever tried for
/// unwrapping, and only after the current key failed its tag check.
pub fn unwrap_totp_secret_with_previous(
    current: &str,
    previous: Option<&str>,
    wrapped: &str,
) -> (r: Result<(Vec<u8>, WrappedUnder), CryptoError>)
    ensures
        match r {
            Ok((v, under)) => spec_unwrap_with_previous(current@, opt_str_view(previous), wrapped@)
                == Ok::<(Seq<u8>, WrappedUnder), CryptoError>((v@, under)),
            Err(e) => spec_unwrap_with_previous(current@, opt_str_view(previous), wrapped@)
                == Err::<(Seq<u8>, WrappedUnder), CryptoError>(e),
        },
        spec_unwrap(current@, wrapped@) matches Ok(p) ==> (r matches Ok((v, u)) && v@ == p
            && u == WrappedUnder::Current),
        spec_unwrap(current@, wrapped@) == Err::<Seq<u8>, CryptoError>(CryptoError::InvalidFormat)
            ==> r matches Err(CryptoError::InvalidFormat),
        previous is None ==> match r {
            Ok((v, u)) => spec_unwrap(current@, wrapped@) == Ok::<Seq<u8>, CryptoError>(v@)
                && u == WrappedUnder::Current,
            Err(e) => spec_unwrap(current@, wrapped@) == Err::<Seq<u8>, CryptoError>(e),
        },
{
    match unwrap_totp_secret(current, wrapped) {
        Ok(pt) => Ok((pt, WrappedUnder::Current)),
        Err(CryptoError::InvalidFormat) => Err(CryptoError::InvalidFormat),
        Err(e) => match previous {
            Some(prev) => match unwrap_totp_secret(prev, wrapped) {
                Ok(pt) => Ok((pt, WrappedUnder::Previous)),
                Err(_) => Err(e),
            },
            None => Err(e),
        },
    }
}

} // verus!
