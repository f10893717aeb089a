//! JWT issuance, and the checks applied to the claims of a token that
//! signature validation has accepted. The claims are framed here as the
//! compact JSON that a token carries and signed with HS256; turning a
//! token's JSON back into claims is done by the caller.

use vstd::prelude::*;
use crate::auth::{
    AuthError, AuthMethod, CallerContext, CallerType, Claims, JwtConfig, Role, caller_type_to_str,
    auth_method_to_str, parse_auth_method, parse_role, spec_auth_method_str, spec_caller_type_str,
    spec_parse_auth_method, spec_parse_role, spec_role_str,
};
use crate::compile::{json_list, json_str, push_json_list, push_json_str, strings_view};
use crate::text::{decimal, push_char, push_decimal, push_str, str_eq};

verus! {

/// The earliest instant that chrono represents, in Unix seconds
/// (1 January of year -262143).
pub const MIN_UTC_TIMESTAMP: i64 = -8334601315200;

/// The latest instant that chrono represents, in Unix seconds
/// (31 December of year 262142, 23:59:59).
pub const MAX_UTC_TIMESTAMP: i64 = 8210266876799;

/// The largest token lifetime, in seconds, that a chrono `TimeDelta` holds.
pub const MAX_TTL_SECS: i64 = 9223372036854775;

/// Lifetime of an MFA step-up token, in seconds.
pub const MFA_TOKEN_TTL_SECS: i64 = 300;

/// Lifetime of a TOTP-enrolment token, in seconds.
pub const TOTP_ENROLL_TOKEN_TTL_SECS: i64 = 600;

/// An access token and a refresh token, with their expiry instants in Unix
/// seconds.
#[derive(Debug)]
pub struct TokenPair {
    pub access_token: String,
    pub refresh_token: String,
    pub access_expires_at: i64,
    pub refresh_expires_at: i64,
}

/// Claims of the short-lived step-up tokens (MFA and TOTP enrolment): no
/// scopes and no role, and a `purpose` that names what the token is for.
/// `jti` is unique per issuance.
#[derive(Debug)]
pub struct MfaClaims {
    pub sub: String,
    pub purpose: String,
    pub iss: String,
    pub exp: i64,
    pub iat: i64,
    pub jti: String,
}

// ─── Trusted items ───────────────────────────────────────────────────────────

/// The compact HS256 JWT (default header) whose payload is the given JSON
/// text, signed with `secret`.
pub uninterp spec fn jwt_hs256(claims_json: Seq<char>, secret: Seq<u8>) -> Seq<char>;

/// `jsonwebtoken::encode(&Header::default(), claims, &EncodingKey::from_secret(secret))`
/// with the claims handed over as raw JSON text, which is written into the
/// token as it stands; stated as the named result `jwt_hs256`. The error,
/// if any, is given as its text. `serde_json::value::RawValue::from_string`
/// fails only on text that is not JSON, and `encode` only when the key's
/// family differs from the header's algorithm (both are HMAC here), so the
/// call is stated to succeed on the claim objects this module frames.
#[verifier::external_body]
fn sign_hs256(claims_json: &str, secret: &[u8]) -> (r: Result<String, String>)
    ensures
        r matches Ok(t) ==> t@ == jwt_hs256(claims_json@, secret@),
        framed_claims(claims_json@) ==> r is Ok,
{
    let claims = serde_json::value::RawValue::from_string(claims_json.to_string()).map_err(
        |e| e.to_string(),
    )?;
    jsonwebtoken::encode(
        &jsonwebtoken::Header::default(),
        &claims,
        &jsonwebtoken::EncodingKey::from_secret(secret),
    ).map_err(|e| e.to_string())
}

/// `Utc::now().timestamp()`: the current time in Unix seconds. Only its
/// range is stated: every chrono instant lies between `MIN_UTC` and
/// `MAX_UTC`.
#[verifier::external_body]
fn utc_now_timestamp() -> (t: i64)
    ensures
        MIN_UTC_TIMESTAMP <= t <= MAX_UTC_TIMESTAMP,
{
    chrono::Utc::now().timestamp()
}

/// `uuid::Uuid::new_v4().to_string()`: a random UUID in its hyphenated
/// form, 36 characters. Nothing more is stated: it is random.
#[verifier::external_body]
fn new_uuid_text() -> (r: String)
    ensures
        r@.len() == 36,
{
    uuid::Uuid::new_v4().to_string()
}

impl JwtConfig {
    /// A config with a freshly generated random secret (a UUID), for tests:
    /// a misuse fails closed, since tokens stop validating across restarts.
    pub fn for_tests() -> (c: Self)
        ensures
            c.secret@.len() == 36,
            c.access_ttl_secs == crate::auth::DEFAULT_ACCESS_TTL_SECS,
            c.refresh_ttl_secs == crate::auth::DEFAULT_REFRESH_TTL_SECS,
            c.issuer@ == crate::auth::JWT_ISSUER@,
    {
        let secret = new_uuid_text();
        JwtConfig::new(secret.as_str())
    }
}

// ─── JSON framing of claims ──────────────────────────────────────────────────

/// An integer as JSON writes it.
pub open spec fn int_text(n: int) -> Seq<char> {
    if n < 0 {
        seq!['-'] + decimal((-n) as nat)
    } else {
        decimal(n as nat)
    }
}

/// A string member after others, or nothing when the value is absent.
pub open spec fn opt_str_member(key: Seq<char>, v: Option<Seq<char>>) -> Seq<char> {
    match v {
        Some(s) => seq![','] + json_str(key) + seq![':'] + json_str(s),
        None => Seq::empty(),
    }
}

/// The access-token claims as plain values.
pub struct ClaimsView {
    pub sub: Seq<char>,
    pub client_id: Seq<char>,
    pub caller_type: Seq<char>,
    pub user_id: Option<Seq<char>>,
    pub role: Option<Seq<char>>,
    pub auth_method: Seq<char>,
    pub scopes: Seq<Seq<char>>,
    pub token_generation: Option<i64>,
    pub iss: Seq<char>,
    pub exp: i64,
    pub iat: i64,
}

/// An optional string as an optional character sequence.
pub open spec fn opt_view(s: Option<String>) -> Option<Seq<char>> {
    match s {
        Some(t) => Some(t@),
        None => None,
    }
}

/// The claims as plain values.
pub open spec fn claims_view(c: Claims) -> ClaimsView {
    ClaimsView {
        sub: c.sub@,
        client_id: c.client_id@,
        caller_type: c.caller_type@,
        user_id: opt_view(c.user_id),
        role: opt_view(c.role),
        auth_method: c.auth_method@,
        scopes: strings_view(c.scopes@),
        token_generation: c.token_generation,
        iss: c.iss@,
        exp: c.exp,
        iat: c.iat,
    }
}

/// The claims as compact JSON, members in declaration order, absent
/// optional members left out.
pub open spec fn claims_json(c: ClaimsView) -> Seq<char> {
    "{\"sub\":"@ + json_str(c.sub) + ",\"client_id\":"@ + json_str(c.client_id)
        + ",\"caller_type\":"@ + json_str(c.caller_type) + opt_str_member("user_id"@, c.user_id)
        + opt_str_member("role"@, c.role) + ",\"auth_method\":"@ + json_str(c.auth_method)
        + ",\"scopes\":["@ + json_list(c.scopes, c.scopes.len() as int) + "]"@
        + match c.token_generation {
        Some(g) => ",\"token_generation\":"@ + int_text(g as int),
        None => Seq::empty(),
    } + ",\"iss\":"@ + json_str(c.iss) + ",\"exp\":"@ + int_text(c.exp as int) + ",\"iat\":"@
        + int_text(c.iat as int) + "}"@
}

/// The step-up claims as compact JSON.
pub open spec fn mfa_claims_json(sub: Seq<char>, purpose: Seq<char>, iss: Seq<char>, exp: int, iat: int, jti: Seq<char>) -> Seq<char> {
    "{\"sub\":"@ + json_str(sub) + ",\"purpose\":"@ + json_str(purpose) + ",\"iss\":"@ + json_str(iss)
        + ",\"exp\":"@ + int_text(exp) + ",\"iat\":"@ + int_text(iat) + ",\"jti\":"@ + json_str(jti)
        + "}"@
}

/// Text that is one of the two claim objects framed above: a JSON object
/// whose strings are escaped by `json_str` and whose numbers are decimal
/// integers, so valid JSON.
pub open spec fn framed_claims(s: Seq<char>) -> bool {
    (exists|c: ClaimsView| s == #[trigger] claims_json(c)) || (exists|
        sub: Seq<char>,
        purpose: Seq<char>,
        iss: Seq<char>,
        exp: int,
        iat: int,
        jti: Seq<char>,
    | s == #[trigger] mfa_claims_json(sub, purpose, iss, exp, iat, jti))
}

/// Appends an integer as JSON writes it.
fn push_int(out: &mut String, n: i64)
    ensures
        final(out)@ == old(out)@ + int_text(n as int),
{
    if n < 0 {
        push_char(out, '-');
        let wide: i128 = n as i128;
        let m: u64 = (0 - wide) as u64;
        push_decimal(out, m);
        assert(final(out)@ =~= old(out)@ + int_text(n as int));
    } else {
        push_decimal(out, n as u64);
    }
}

/// Appends a string member after others, if present.
fn push_opt_str_member(out: &mut String, key: &str, v: &Option<String>)
    ensures
        final(out)@ == old(out)@ + opt_str_member(key@, opt_view(*v)),
{
    match v {
        Some(s) => {
            push_char(out, ',');
            push_json_str(out, key);
            push_char(out, ':');
            push_json_str(out, s.as_str());
            assert(final(out)@ =~= old(out)@ + opt_str_member(key@, opt_view(*v)));
        },
        None => {
            assert(final(out)@ =~= old(out)@ + opt_str_member(key@, opt_view(*v)));
        },
    }
}

/// The claims as the compact JSON a token carries.
pub fn claims_to_json(c: &Claims) -> (s: String)
    ensures
        s@ == claims_json(claims_view(*c)),
{
    let mut s = String::new();
    push_str(&mut s, "{\"sub\":");
    push_json_str(&mut s, c.sub.as_str());
    push_str(&mut s, ",\"client_id\":");
    push_json_str(&mut s, c.client_id.as_str());
    push_str(&mut s, ",\"caller_type\":");
    push_json_str(&mut s, c.caller_type.as_str());
    push_opt_str_member(&mut s, "user_id", &c.user_id);
    push_opt_str_member(&mut s, "role", &c.role);
    push_str(&mut s, ",\"auth_method\":");
    push_json_str(&mut s, c.auth_method.as_str());
    push_str(&mut s, ",\"scopes\":[");
    push_json_list(&mut s, c.scopes.as_slice());
    push_str(&mut s, "]");
    match c.token_generation {
        Some(g) => {
            push_str(&mut s, ",\"token_generation\":");
            push_int(&mut s, g);
        },
        None => {},
    }
    push_str(&mut s, ",\"iss\":");
    push_json_str(&mut s, c.iss.as_str());
    push_str(&mut s, ",\"exp\":");
    push_int(&mut s, c.exp);
    push_str(&mut s, ",\"iat\":");
    push_int(&mut s, c.iat);
    push_str(&mut s, "}");
    assert(s@ =~= claims_json(claims_view(*c)));
    s
}

/// The step-up claims as the compact JSON a token carries.
pub fn mfa_claims_to_json(c: &MfaClaims) -> (s: String)
    ensures
        s@ == mfa_claims_json(c.sub@, c.purpose@, c.iss@, c.exp as int, c.iat as int, c.jti@),
{
    let mut s = String::new();
    push_str(&mut s, "{\"sub\":");
    push_json_str(&mut s, c.sub.as_str());
    push_str(&mut s, ",\"purpose\":");
    push_json_str(&mut s, c.purpose.as_str());
    push_str(&mut s, ",\"iss\":");
    push_json_str(&mut s, c.iss.as_str());
    push_str(&mut s, ",\"exp\":");
    push_int(&mut s, c.exp);
    push_str(&mut s, ",\"iat\":");
    push_int(&mut s, c.iat);
    push_str(&mut s, ",\"jti\":");
    push_json_str(&mut s, c.jti.as_str());
    push_str(&mut s, "}");
    assert(s@ =~= mfa_claims_json(c.sub@, c.purpose@, c.iss@, c.exp as int, c.iat as int, c.jti@));
    s
}

// ─── Issuance ────────────────────────────────────────────────────────────────

/// A copy of a string.
fn copy_string(s: &str) -> (r: String)
    ensures
        r@ == s@,
{
    let mut r = String::new();
    push_str(&mut r, s);
    r
}

/// A copy of a list of strings.
fn copy_strings(v: &[String]) -> (r: Vec<String>)
    ensures
        strings_view(r@) == strings_view(v@),
{
    let mut r: Vec<String> = Vec::new();
    let mut i: usize = 0;
    while i < v.len()
        invariant
            i <= v@.len(),
            r@.len() == i,
            forall|k: int| 0 <= k < i ==> #[trigger] r@[k]@ == v@[k]@,
        decreases v@.len() - i,
    {
        r.push(copy_string(v[i].as_str()));
        i = i + 1;
    }
    assert(strings_view(r@) =~= strings_view(v@));
    r
}

/// The instant `ttl` seconds after `now`, or the error that chrono's range
/// would otherwise turn into a panic.
fn expiry_after(now: i64, ttl: i64) -> (r: Result<i64, AuthError>)
    requires
        MIN_UTC_TIMESTAMP <= now <= MAX_UTC_TIMESTAMP,
        -MAX_TTL_SECS <= ttl <= MAX_TTL_SECS,
    ensures
        match r {
            Ok(t) => t == now + ttl && MIN_UTC_TIMESTAMP <= t <= MAX_UTC_TIMESTAMP,
            Err(e) => !(MIN_UTC_TIMESTAMP <= now + ttl <= MAX_UTC_TIMESTAMP)
                && (e matches AuthError::TokenError(m) && m@ == "token expiry is out of range"@),
        },
{
    let t = now + ttl;
    if t < MIN_UTC_TIMESTAMP || t > MAX_UTC_TIMESTAMP {
        Err(AuthError::TokenError(copy_string("token expiry is out of range")))
    } else {
        Ok(t)
    }
}

/// The access claims that `issue_token_pair` signs at time `now`.
pub open spec fn access_claims(
    config: JwtConfig,
    caller_id: Seq<char>,
    client_id: Seq<char>,
    caller_type: CallerType,
    user_id: Option<Seq<char>>,
    role: Option<Role>,
    auth_method: AuthMethod,
    scopes: Seq<Seq<char>>,
    token_generation: Option<i64>,
    now: int,
) -> ClaimsView {
    ClaimsView {
        sub: caller_id,
        client_id,
        caller_type: spec_caller_type_str(caller_type),
        user_id,
        role: match role {
            Some(r) => Some(spec_role_str(r)),
            None => None,
        },
        auth_method: spec_auth_method_str(auth_method),
        scopes,
        token_generation,
        iss: config.issuer@,
        exp: (now + config.access_ttl_secs) as i64,
        iat: now as i64,
    }
}

/// An optional string slice as an optional character sequence.
pub open spec fn opt_str_view(s: Option<&str>) -> Option<Seq<char>> {
    match s {
        Some(t) => Some(t@),
        None => None,
    }
}

/// Issue an access and refresh token pair at instant `now` (Unix seconds),
/// with the given refresh token. Users pass their user id and role; API
/// keys pass neither and carry their scopes. The access token is the signed
/// claims at `now`. An expiry beyond chrono's range is a token error.
pub fn issue_token_pair_at(
    config: &JwtConfig,
    caller_id: &str,
    client_id: &str,
    caller_type: CallerType,
    user_id: Option<&str>,
    role: Option<Role>,
    auth_method: AuthMethod,
    scopes: &[String],
    token_generation: Option<i64>,
    now: i64,
    refresh_token: String,
) -> (r: Result<TokenPair, AuthError>)
    requires
        MIN_UTC_TIMESTAMP <= now <= MAX_UTC_TIMESTAMP,
        -MAX_TTL_SECS <= config.access_ttl_secs <= MAX_TTL_SECS,
        -MAX_TTL_SECS <= config.refresh_ttl_secs <= MAX_TTL_SECS,
    ensures
        r is Ok <==> (MIN_UTC_TIMESTAMP <= now + config.access_ttl_secs <= MAX_UTC_TIMESTAMP
            && MIN_UTC_TIMESTAMP <= now + config.refresh_ttl_secs <= MAX_UTC_TIMESTAMP),
        r matches Ok(p) ==> p.access_expires_at == now + config.access_ttl_secs
            && p.refresh_expires_at == now + config.refresh_ttl_secs
            && p.access_token@ == jwt_hs256(
                claims_json(access_claims(*config, caller_id@, client_id@, caller_type,
                    opt_str_view(user_id), role, auth_method, strings_view(scopes@),
                    token_generation, now as int)),
                vstd::utf8::encode_utf8(config.secret@),
            )
            && p.refresh_token@ == refresh_token@,
        r matches Err(e) ==> (e matches AuthError::TokenError(m) && m@ == "token expiry is out of range"@),
{
    let access_exp = match expiry_after(now, config.access_ttl_secs) {
        Ok(t) => t,
        Err(e) => return Err(e),
    };
    let refresh_exp = match expiry_after(now, config.refresh_ttl_secs) {
        Ok(t) => t,
        Err(e) => return Err(e),
    };
    let claims = Claims {
        sub: copy_string(caller_id),
        client_id: copy_string(client_id),
        caller_type: copy_string(caller_type_to_str(caller_type)),
        user_id: match user_id {
            Some(u) => Some(copy_string(u)),
            None => None,
        },
        role: match role {
            Some(ro) => Some(copy_string(ro.as_str())),
            None => None,
        },
        auth_method: copy_string(auth_method_to_str(auth_method)),
        scopes: copy_strings(scopes),
        token_generation,
        iss: copy_string(config.issuer.as_str()),
        exp: access_exp,
        iat: now,
    };
    let json = claims_to_json(&claims);
    proof {
        let cv = access_claims(*config, caller_id@, client_id@, caller_type,
            opt_str_view(user_id), role, auth_method, strings_view(scopes@), token_generation,
            now as int);
        assert(claims_view(claims) == cv);
        assert(framed_claims(json@));
    }
    let access_token = match sign_hs256(json.as_str(), config.secret.as_str().as_bytes()) {
        Ok(t) => t,
        Err(m) => return Err(AuthError::TokenError(m)),
    };
    Ok(TokenPair {
        access_token,
        refresh_token,
        access_expires_at: access_exp,
        refresh_expires_at: refresh_exp,
    })
}

/// Issue an access and refresh token pair at the current time. The refresh
/// token is a random UUID (stored hashed, not a JWT); the rest is
/// `issue_token_pair_at` at the instant the clock gives.
pub fn issue_token_pair(
    config: &JwtConfig,
    caller_id: &str,
    client_id: &str,
    caller_type: CallerType,
    user_id: Option<&str>,
    role: Option<Role>,
    auth_method: AuthMethod,
    scopes: &[String],
    token_generation: Option<i64>,
) -> (r: Result<TokenPair, AuthError>)
    requires
        -MAX_TTL_SECS <= config.access_ttl_secs <= MAX_TTL_SECS,
        -MAX_TTL_SECS <= config.refresh_ttl_secs <= MAX_TTL_SECS,
    ensures
        match r {
            Ok(p) => exists|now: int|
                MIN_UTC_TIMESTAMP <= now <= MAX_UTC_TIMESTAMP
                && p.access_expires_at == now + config.access_ttl_secs
                && p.refresh_expires_at == now + config.refresh_ttl_secs
                && p.access_token@ == jwt_hs256(
                    #[trigger] claims_json(access_claims(*config, caller_id@, client_id@, caller_type,
                        opt_str_view(user_id), role, auth_method, strings_view(scopes@),
                        token_generation, now)),
                    vstd::utf8::encode_utf8(config.secret@),
                )
                && p.refresh_token@.len() == 36,
            Err(e) => (e matches AuthError::TokenError(m) && m@ == "token expiry is out of range"@),
        },
{
    let now = utc_now_timestamp();
    let refresh_token = new_uuid_text();
    let r = issue_token_pair_at(config, caller_id, client_id, caller_type, user_id, role,
        auth_method, scopes, token_generation, now, refresh_token);
    proof {
        if r is Ok {
            let w = now as int;
            assert(claims_json(access_claims(*config, caller_id@, client_id@, caller_type,
                opt_str_view(user_id), role, auth_method, strings_view(scopes@),
                token_generation, w)) == claims_json(access_claims(*config, caller_id@, client_id@, caller_type,
                opt_str_view(user_id), role, auth_method, strings_view(scopes@),
                token_generation, now as int)));
        }
    }
    r
}

/// Mint a step-up token for `user_id` with the given purpose and lifetime,
/// at instant `now` and with the given unique `jti`: the token and its
/// lifetime in seconds. An expiry beyond chrono's range is a token error.
pub fn issue_step_up_token_at(
    config: &JwtConfig,
    user_id: &str,
    purpose: &str,
    ttl: i64,
    now: i64,
    jti: String,
) -> (r: Result<(String, i64), AuthError>)
    requires
        -MAX_TTL_SECS <= ttl <= MAX_TTL_SECS,
        MIN_UTC_TIMESTAMP <= now <= MAX_UTC_TIMESTAMP,
    ensures
        r is Ok <==> MIN_UTC_TIMESTAMP <= now + ttl <= MAX_UTC_TIMESTAMP,
        r matches Ok((t, n)) ==> n == ttl && t@ == jwt_hs256(
            mfa_claims_json(user_id@, purpose@, config.issuer@, now + ttl, now as int, jti@),
            vstd::utf8::encode_utf8(config.secret@),
        ),
        r matches Err(e) ==> (e matches AuthError::TokenError(m) && m@ == "token expiry is out of range"@),
{
    let exp = match expiry_after(now, ttl) {
        Ok(t) => t,
        Err(e) => return Err(e),
    };
    let claims = MfaClaims {
        sub: copy_string(user_id),
        purpose: copy_string(purpose),
        iss: copy_string(config.issuer.as_str()),
        exp,
        iat: now,
        jti,
    };
    let json = mfa_claims_to_json(&claims);
    proof {
        assert(framed_claims(json@));
    }
    let token = match sign_hs256(json.as_str(), config.secret.as_str().as_bytes()) {
        Ok(t) => t,
        Err(m) => return Err(AuthError::TokenError(m)),
    };
    Ok((token, ttl))
}

/// Mint a step-up token for `user_id` with the given purpose and lifetime
/// at the current time, with a random UUID as its `jti`.
fn issue_step_up_token(config: &JwtConfig, user_id: &str, purpose: &str, ttl: i64) -> (r: Result<(String, i64), AuthError>)
    requires
        0 < ttl <= MAX_TTL_SECS,
    ensures
        match r {
            Ok((t, n)) => n == ttl && exists|now: int, jti: Seq<char>|
                MIN_UTC_TIMESTAMP <= now <= MAX_UTC_TIMESTAMP - ttl && jti.len() == 36
                && t@ == jwt_hs256(
                    #[trigger] mfa_claims_json(user_id@, purpose@, config.issuer@, now + ttl, now, jti),
                    vstd::utf8::encode_utf8(config.secret@),
                ),
            Err(e) => (e matches AuthError::TokenError(m) && m@ == "token expiry is out of range"@),
        },
{
    let now = utc_now_timestamp();
    let jti = new_uuid_text();
    let ghost jv = jti@;
    let r = issue_step_up_token_at(config, user_id, purpose, ttl, now, jti);
    proof {
        if r is Ok {
            assert(mfa_claims_json(user_id@, purpose@, config.issuer@, now + ttl, now as int, jv)
                == mfa_claims_json(user_id@, purpose@, config.issuer@, now + ttl, now as int, jv));
        }
    }
    r
}

/// Mint an MFA step-up token for `user_id`, valid for five minutes: the
/// token and its lifetime. Its purpose is `mfa`, and its unique `jti` makes
/// two tokens for the same user in the same second differ.
pub fn issue_mfa_token(config: &JwtConfig, user_id: &str) -> (r: Result<(String, i64), AuthError>)
    ensures
        match r {
            Ok((t, n)) => n == MFA_TOKEN_TTL_SECS && exists|now: int, jti: Seq<char>|
                MIN_UTC_TIMESTAMP <= now && jti.len() == 36
                && t@ == jwt_hs256(
                    #[trigger] mfa_claims_json(user_id@, "mfa"@, config.issuer@, now + MFA_TOKEN_TTL_SECS, now, jti),
                    vstd::utf8::encode_utf8(config.secret@),
                ),
            Err(e) => (e matches AuthError::TokenError(m) && m@ == "token expiry is out of range"@),
        },
{
    issue_step_up_token(config, user_id, "mfa", MFA_TOKEN_TTL_SECS)
}

/// Mint a TOTP-enrolment token for `user_id`, valid for ten minutes: the
/// token and its lifetime. Its purpose is `totp_enroll`.
pub fn issue_totp_enroll_token(config: &JwtConfig, user_id: &str) -> (r: Result<(String, i64), AuthError>)
    ensures
        match r {
            Ok((t, n)) => n == TOTP_ENROLL_TOKEN_TTL_SECS && exists|now: int, jti: Seq<char>|
                MIN_UTC_TIMESTAMP <= now && jti.len() == 36
                && t@ == jwt_hs256(
                    #[trigger] mfa_claims_json(user_id@, "totp_enroll"@, config.issuer@, now + TOTP_ENROLL_TOKEN_TTL_SECS, now, jti),
                    vstd::utf8::encode_utf8(config.secret@),
                ),
            Err(e) => (e matches AuthError::TokenError(m) && m@ == "token expiry is out of range"@),
        },
{
    issue_step_up_token(config, user_id, "totp_enroll", TOTP_ENROLL_TOKEN_TTL_SECS)
}

// ─── Checks on validated claims ──────────────────────────────────────────────

/// A caller context as plain values.
pub struct ContextView {
    pub caller_type: CallerType,
    pub caller_id: Seq<char>,
    pub client_id: Seq<char>,
    pub user_id: Option<Seq<char>>,
    pub role: Option<Role>,
    pub auth_method: AuthMethod,
    pub scopes: Seq<Seq<char>>,
}

/// The caller context as plain values.
pub open spec fn context_view(c: CallerContext) -> ContextView {
    ContextView {
        caller_type: c.caller_type,
        caller_id: c.caller_id@,
        client_id: c.client_id@,
        user_id: opt_view(c.user_id),
        role: c.role,
        auth_method: c.auth_method,
        scopes: strings_view(c.scopes@),
    }
}

/// The caller that claims describe: `apikey` names an API key and any
/// other caller type a user; an unknown role is dropped; an unknown
/// authentication method reads as an API key.
pub open spec fn spec_context(c: ClaimsView) -> ContextView {
    ContextView {
        caller_type: if c.caller_type == "apikey"@ {
            CallerType::ApiKey
        } else {
            CallerType::User
        },
        caller_id: c.sub,
        client_id: c.client_id,
        user_id: c.user_id,
        role: match c.role {
            Some(s) => spec_parse_role(s),
            None => None,
        },
        auth_method: spec_parse_auth_method(c.auth_method),
        scopes: c.scopes,
    }
}

/// The caller a token's claims describe (see `spec_context`).
pub fn context_from_claims(claims: Claims) -> (ctx: CallerContext)
    ensures
        context_view(ctx) == spec_context(claims_view(claims)),
{
    let ghost cv = claims_view(claims);
    let caller_type = if str_eq(claims.caller_type.as_str(), "apikey") {
        CallerType::ApiKey
    } else {
        CallerType::User
    };
    let role = match &claims.role {
        Some(s) => parse_role(s.as_str()),
        None => None,
    };
    let auth_method = parse_auth_method(claims.auth_method.as_str());
    let ctx = CallerContext {
        caller_type,
        caller_id: claims.sub,
        client_id: claims.client_id,
        user_id: claims.user_id,
        role,
        auth_method,
        scopes: claims.scopes,
    };
    assert(context_view(ctx) == spec_context(cv));
    ctx
}

/// Reading back the claims that `issue_token_pair` signs gives the caller
/// it was issued for: the same ids, caller type, role, authentication
/// method and scopes.
pub proof fn lemma_issued_claims_read_back(
    config: JwtConfig,
    caller_id: Seq<char>,
    client_id: Seq<char>,
    caller_type: CallerType,
    user_id: Option<Seq<char>>,
    role: Option<Role>,
    auth_method: AuthMethod,
    scopes: Seq<Seq<char>>,
    token_generation: Option<i64>,
    now: int,
)
    ensures
        spec_context(
            access_claims(config, caller_id, client_id, caller_type, user_id, role, auth_method, scopes, token_generation, now),
        ) == (ContextView { caller_type, caller_id, client_id, user_id, role, auth_method, scopes }),
{
    reveal_strlit("apikey");
    reveal_strlit("user");
    assert("apikey"@.len() != "user"@.len());
    crate::auth::lemma_auth_method_round_trip(auth_method);
    if let Some(r) = role {
        crate::auth::lemma_role_round_trip(r);
    }
}

/// The subject of validated MFA step-up claims; claims with another purpose
/// are refused.
pub fn mfa_subject(claims: MfaClaims) -> (r: Result<String, AuthError>)
    ensures
        claims.purpose@ == "mfa"@ ==> (r is Ok && r->Ok_0@ == claims.sub@),
        claims.purpose@ != "mfa"@ ==> (r matches Err(AuthError::TokenError(m)) && m@ == "not an MFA token"@),
{
    if str_eq(claims.purpose.as_str(), "mfa") {
        Ok(claims.sub)
    } else {
        Err(AuthError::TokenError(copy_string("not an MFA token")))
    }
}

/// The subject of validated TOTP-enrolment claims; claims with another
/// purpose are refused.
pub fn totp_enroll_subject(claims: MfaClaims) -> (r: Result<String, AuthError>)
    ensures
        claims.purpose@ == "totp_enroll"@ ==> (r is Ok && r->Ok_0@ == claims.sub@),
        claims.purpose@ != "totp_enroll"@ ==> (r matches Err(AuthError::TokenError(m)) && m@ == "not a TOTP-enrolment token"@),
{
    if str_eq(claims.purpose.as_str(), "totp_enroll") {
        Ok(claims.sub)
    } else {
        Err(AuthError::TokenError(copy_string("not a TOTP-enrolment token")))
    }
}

} // verus!
