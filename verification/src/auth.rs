//! Authentication helpers: the caller and scope model, the JWT
//! configuration and claims, password policy and hashing, API-key and
//! secret-token hashing, and TOTP recovery codes.

use vstd::prelude::*;
use crate::text::{chars_of, push_char, push_str, str_eq, utf8_len};
use vstd::string::*;
use rand::Rng;
use sha2::Digest;

verus! {

#[verifier::external_type_specification]
#[verifier::external_body]
pub struct ExBcryptError(bcrypt::BcryptError);

#[verifier::external_type_specification]
#[verifier::external_body]
pub struct ExIoError(std::io::Error);

// ─── Caller model ────────────────────────────────────────────────────────────

/// Type of authenticated caller.
#[derive(Debug, Clone, Copy, PartialEq, Eq, Structural)]
pub enum CallerType {
    ApiKey,
    User,
}

/// How the caller authenticated: independent of the caller type, so that a
/// user can log in with a password, a personal access token or OIDC.
#[derive(Debug, Clone, Copy, PartialEq, Eq, Structural)]
pub enum AuthMethod {
    /// Username + password (with optional TOTP step-up).
    Password,
    /// Service API key.
    ApiKey,
    /// Personal access token.
    Pat,
    /// OIDC SSO redirect.
    Oidc,
}

/// Known scopes. `admin` is a wildcard that grants every scope.
pub struct Scope;

impl Scope {
    pub const ADMIN: &'static str = "admin";
    pub const JOBS_READ: &'static str = "jobs:read";
    pub const JOBS_WRITE: &'static str = "jobs:write";
    pub const JOBS_REGISTER: &'static str = "jobs:register";
    pub const JOBS_TRIGGER: &'static str = "jobs:trigger";
    pub const SCHEDULES_READ: &'static str = "schedules:read";
    pub const SCHEDULES_WRITE: &'static str = "schedules:write";
    pub const EXECUTIONS_READ: &'static str = "executions:read";
    /// Cancel an inflight or queued execution.
    pub const EXECUTIONS_CANCEL: &'static str = "executions:cancel";
    pub const DEAD_LETTERS_READ: &'static str = "dead-letters:read";
    pub const DEAD_LETTERS_WRITE: &'static str = "dead-letters:write";
    pub const CALENDARS_READ: &'static str = "calendars:read";
    pub const CALENDARS_WRITE: &'static str = "calendars:write";
    pub const WORK_POLL: &'static str = "work:poll";
    pub const WORK_RENEW: &'static str = "work:renew";
    pub const WORK_ACK: &'static str = "work:ack";
    pub const WORK_EVENTS: &'static str = "work:events";
    pub const RUNNERS_READ: &'static str = "runners:read";
    pub const RUNNERS_WRITE: &'static str = "runners:write";
    pub const RUNNERS_HEARTBEAT: &'static str = "runners:heartbeat";
    pub const API_CLIENTS_ADMIN: &'static str = "api-clients:admin";
    pub const API_KEYS_ADMIN: &'static str = "api-keys:admin";
    /// User management; implied by the `admin` wildcard only.
    pub const USERS_ADMIN: &'static str = "users:admin";
    pub const MCP_READ: &'static str = "mcp:read";
    pub const MCP_WRITE: &'static str = "mcp:write";
    pub const ALERTS_READ: &'static str = "alerts:read";
    /// Operational overrides for DSL-managed alert rules.
    pub const ALERTS_WRITE: &'static str = "alerts:write";
}

/// A user's role, as the user store records it.
#[derive(Debug, Clone, Copy, PartialEq, Eq, Structural)]
pub enum Role {
    Admin,
    Operator,
    Viewer,
}

/// The text of a role, as tokens carry it.
pub open spec fn spec_role_str(r: Role) -> Seq<char> {
    match r {
        Role::Admin => "admin"@,
        Role::Operator => "operator"@,
        Role::Viewer => "viewer"@,
    }
}

/// The role a text names, if any.
pub open spec fn spec_parse_role(s: Seq<char>) -> Option<Role> {
    if s == "admin"@ {
        Some(Role::Admin)
    } else if s == "operator"@ {
        Some(Role::Operator)
    } else if s == "viewer"@ {
        Some(Role::Viewer)
    } else {
        None
    }
}

impl Role {
    /// The role's text.
    pub fn as_str(&self) -> (r: &'static str)
        ensures
            r@ == spec_role_str(*self),
    {
        match self {
            Role::Admin => "admin",
            Role::Operator => "operator",
            Role::Viewer => "viewer",
        }
    }
}

/// The role a text names, or `None` for any other text.
pub fn parse_role(s: &str) -> (r: Option<Role>)
    ensures
        r == spec_parse_role(s@),
{
    if str_eq(s, "admin") {
        Some(Role::Admin)
    } else if str_eq(s, "operator") {
        Some(Role::Operator)
    } else if str_eq(s, "viewer") {
        Some(Role::Viewer)
    } else {
        None
    }
}

/// Writing a role as text and reading it back gives the same role.
pub proof fn lemma_role_round_trip(r: Role)
    ensures
        spec_parse_role(spec_role_str(r)) == Some(r),
{
    reveal_strlit("admin");
    reveal_strlit("operator");
    reveal_strlit("viewer");
    assert("admin"@.len() == 5 && "operator"@.len() == 8 && "viewer"@.len() == 6);
}

/// The authenticated caller's identity and permissions.
#[derive(Debug, Clone)]
pub struct CallerContext {
    pub caller_type: CallerType,
    /// `user_id` for users, `key_id` for API keys.
    pub caller_id: String,
    /// The API client the caller belongs to (the user id for user logins).
    pub client_id: String,
    /// Set for users, not for API keys.
    pub user_id: Option<String>,
    /// The user's role; API keys carry scopes instead.
    pub role: Option<Role>,
    pub auth_method: AuthMethod,
    pub scopes: Vec<String>,
}

/// The scopes as plain values.
pub open spec fn scopes_view(v: Seq<String>) -> Seq<Seq<char>> {
    v.map_values(|s: String| s@)
}

/// A scope list grants `scope` when it holds it or the `admin` wildcard.
pub open spec fn grants(scopes: Seq<Seq<char>>, scope: Seq<char>) -> bool {
    exists|i: int| 0 <= i < scopes.len() && (scopes[i] == "admin"@ || scopes[i] == scope)
}

impl CallerContext {
    /// Whether the caller has `scope`, directly or through `admin`.
    pub fn has_scope(&self, scope: &str) -> (r: bool)
        ensures
            r == grants(scopes_view(self.scopes@), scope@),
    {
        let ghost sv = scopes_view(self.scopes@);
        let mut i: usize = 0;
        while i < self.scopes.len()
            invariant
                i <= self.scopes@.len(),
                sv == scopes_view(self.scopes@),
                forall|j: int| 0 <= j < i ==> !(sv[j] == "admin"@ || sv[j] == scope@),
            decreases self.scopes@.len() - i,
        {
            let s = self.scopes[i].as_str();
            assert(sv[i as int] == s@);
            if str_eq(s, "admin") || str_eq(s, scope) {
                return true;
            }
            i = i + 1;
        }
        false
    }

    /// Whether the caller has any of `scopes`.
    pub fn has_any_scope(&self, scopes: &[&str]) -> (r: bool)
        ensures
            r == exists|j: int| 0 <= j < scopes@.len() && grants(scopes_view(self.scopes@), #[trigger] scopes@[j]@),
    {
        let mut j: usize = 0;
        while j < scopes.len()
            invariant
                j <= scopes@.len(),
                forall|k: int| 0 <= k < j ==> !grants(scopes_view(self.scopes@), #[trigger] scopes@[k]@),
            decreases scopes@.len() - j,
        {
            if self.has_scope(scopes[j]) {
                return true;
            }
            j = j + 1;
        }
        false
    }

    /// Whether the caller carries the `admin` wildcard.
    pub fn is_admin(&self) -> (r: bool)
        ensures
            r == scopes_view(self.scopes@).contains("admin"@),
    {
        let ghost sv = scopes_view(self.scopes@);
        let mut i: usize = 0;
        while i < self.scopes.len()
            invariant
                i <= self.scopes@.len(),
                sv == scopes_view(self.scopes@),
                forall|j: int| 0 <= j < i ==> sv[j] != "admin"@,
            decreases self.scopes@.len() - i,
        {
            assert(sv[i as int] == self.scopes@[i as int]@);
            if str_eq(self.scopes[i].as_str(), "admin") {
                return true;
            }
            i = i + 1;
        }
        false
    }
}

/// The scopes a role is given by default: the wildcard for admins; read
/// and write on jobs, schedules, calendars and dead letters, trigger and
/// cancel, and read on executions, runners and alerts for operators; read
/// only for viewers.
pub open spec fn spec_default_scopes(role: Role) -> Seq<Seq<char>> {
    match role {
        Role::Admin => seq!["admin"@],
        Role::Operator => seq![
            "jobs:read"@,
            "jobs:write"@,
            "jobs:trigger"@,
            "schedules:read"@,
            "schedules:write"@,
            "calendars:read"@,
            "calendars:write"@,
            "executions:read"@,
            "executions:cancel"@,
            "dead-letters:read"@,
            "dead-letters:write"@,
            "runners:read"@,
            "alerts:read"@,
        ],
        Role::Viewer => seq![
            "jobs:read"@,
            "schedules:read"@,
            "calendars:read"@,
            "executions:read"@,
            "dead-letters:read"@,
            "runners:read"@,
            "alerts:read"@,
        ],
    }
}

fn push_scope(v: &mut Vec<String>, s: &str)
    ensures
        scopes_view(final(v)@) == scopes_view(old(v)@).push(s@),
{
    let ghost before = v@;
    v.push(s.to_string());
    assert(scopes_view(v@) =~= scopes_view(before).push(s@));
}

/// Default scope set for a user role, embedded in the tokens issued at login.
pub fn default_scopes_for_role(role: Role) -> (r: Vec<String>)
    ensures
        scopes_view(r@) == spec_default_scopes(role),
{
    let mut v: Vec<String> = Vec::new();
    assert(scopes_view(v@) =~= Seq::<Seq<char>>::empty());
    match role {
        Role::Admin => {
            push_scope(&mut v, Scope::ADMIN);
        },
        Role::Operator => {
            push_scope(&mut v, Scope::JOBS_READ);
            push_scope(&mut v, Scope::JOBS_WRITE);
            push_scope(&mut v, Scope::JOBS_TRIGGER);
            push_scope(&mut v, Scope::SCHEDULES_READ);
            push_scope(&mut v, Scope::SCHEDULES_WRITE);
            push_scope(&mut v, Scope::CALENDARS_READ);
            push_scope(&mut v, Scope::CALENDARS_WRITE);
            push_scope(&mut v, Scope::EXECUTIONS_READ);
            push_scope(&mut v, Scope::EXECUTIONS_CANCEL);
            push_scope(&mut v, Scope::DEAD_LETTERS_READ);
            push_scope(&mut v, Scope::DEAD_LETTERS_WRITE);
            push_scope(&mut v, Scope::RUNNERS_READ);
            push_scope(&mut v, Scope::ALERTS_READ);
        },
        Role::Viewer => {
            push_scope(&mut v, Scope::JOBS_READ);
            push_scope(&mut v, Scope::SCHEDULES_READ);
            push_scope(&mut v, Scope::CALENDARS_READ);
            push_scope(&mut v, Scope::EXECUTIONS_READ);
            push_scope(&mut v, Scope::DEAD_LETTERS_READ);
            push_scope(&mut v, Scope::RUNNERS_READ);
            push_scope(&mut v, Scope::ALERTS_READ);
        },
    }
    assert(scopes_view(v@) =~= spec_default_scopes(role));
    v
}

/// An admin caller is granted every scope.
pub proof fn lemma_admin_grants_everything(scopes: Seq<Seq<char>>, scope: Seq<char>)
    requires
        scopes.contains("admin"@),
    ensures
        grants(scopes, scope),
{
    let i = choose|i: int| 0 <= i < scopes.len() && scopes[i] == "admin"@;
    assert(scopes[i] == "admin"@);
}

/// The claim text of a caller type.
pub open spec fn spec_caller_type_str(t: CallerType) -> Seq<char> {
    match t {
        CallerType::ApiKey => "apikey"@,
        CallerType::User => "user"@,
    }
}

/// The claim text of an authentication method.
pub open spec fn spec_auth_method_str(m: AuthMethod) -> Seq<char> {
    match m {
        AuthMethod::Password => "password"@,
        AuthMethod::ApiKey => "apikey"@,
        AuthMethod::Pat => "pat"@,
        AuthMethod::Oidc => "oidc"@,
    }
}

/// The authentication method a claim names; anything unknown reads as an
/// API key.
pub open spec fn spec_parse_auth_method(s: Seq<char>) -> AuthMethod {
    if s == "password"@ {
        AuthMethod::Password
    } else if s == "pat"@ {
        AuthMethod::Pat
    } else if s == "oidc"@ {
        AuthMethod::Oidc
    } else {
        AuthMethod::ApiKey
    }
}

/// The claim text of a caller type.
pub fn caller_type_to_str(t: CallerType) -> (r: &'static str)
    ensures
        r@ == spec_caller_type_str(t),
{
    match t {
        CallerType::ApiKey => "apikey",
        CallerType::User => "user",
    }
}

/// The claim text of an authentication method.
pub fn auth_method_to_str(m: AuthMethod) -> (r: &'static str)
    ensures
        r@ == spec_auth_method_str(m),
{
    match m {
        AuthMethod::Password => "password",
        AuthMethod::ApiKey => "apikey",
        AuthMethod::Pat => "pat",
        AuthMethod::Oidc => "oidc",
    }
}

/// The authentication method a claim names (unknown text reads as an API
/// key).
pub fn parse_auth_method(s: &str) -> (r: AuthMethod)
    ensures
        r == spec_parse_auth_method(s@),
{
    if crate::text::str_eq(s, "password") {
        AuthMethod::Password
    } else if crate::text::str_eq(s, "pat") {
        AuthMethod::Pat
    } else if crate::text::str_eq(s, "oidc") {
        AuthMethod::Oidc
    } else {
        AuthMethod::ApiKey
    }
}

/// Writing a method as claim text and reading it back gives the same method.
pub proof fn lemma_auth_method_round_trip(m: AuthMethod)
    ensures
        spec_parse_auth_method(spec_auth_method_str(m)) == m,
{
    reveal_strlit("password");
    reveal_strlit("apikey");
    reveal_strlit("pat");
    reveal_strlit("oidc");
    assert("apikey"@.len() == 6 && "password"@.len() == 8 && "pat"@.len() == 3 && "oidc"@.len() == 4);
}

// ─── JWT configuration and claims ────────────────────────────────────────────

/// Issuer of every JWT the server mints; tokens with another issuer are
/// rejected.
pub const JWT_ISSUER: &'static str = "croniq-v1";

/// Default access-token validity: 1 hour.
pub const DEFAULT_ACCESS_TTL_SECS: i64 = 3600;

/// Default refresh-token validity: 7 days.
pub const DEFAULT_REFRESH_TTL_SECS: i64 = 604800;

/// JWT configuration.
#[derive(Debug, Clone)]
pub struct JwtConfig {
    /// Secret key for HS256 signing.
    pub secret: String,
    /// Token validity in seconds.
    pub access_ttl_secs: i64,
    /// Refresh token validity in seconds.
    pub refresh_ttl_secs: i64,
    /// Issuer claim.
    pub issuer: String,
}

impl JwtConfig {
    /// A config around `secret`, with the shipped TTLs and issuer. There is
    /// deliberately no default: the secret must always be given.
    pub fn new(secret: &str) -> (c: Self)
        ensures
            c.secret@ == secret@,
            c.access_ttl_secs == DEFAULT_ACCESS_TTL_SECS,
            c.refresh_ttl_secs == DEFAULT_REFRESH_TTL_SECS,
            c.issuer@ == JWT_ISSUER@,
    {
        let mut s = String::new();
        push_str(&mut s, secret);
        let mut issuer = String::new();
        push_str(&mut issuer, JWT_ISSUER);
        JwtConfig {
            secret: s,
            access_ttl_secs: DEFAULT_ACCESS_TTL_SECS,
            refresh_ttl_secs: DEFAULT_REFRESH_TTL_SECS,
            issuer,
        }
    }
}

/// Claims embedded in the JWT. `user_id` and `role` are absent for API-key
/// callers; `token_generation` absent reads as generation 0.
#[derive(Debug)]
pub struct Claims {
    pub sub: String,
    pub client_id: String,
    pub caller_type: String,
    pub user_id: Option<String>,
    pub role: Option<String>,
    /// Authentication method used to mint this token.
    pub auth_method: String,
    pub scopes: Vec<String>,
    /// Credential generation this token was minted under.
    pub token_generation: Option<i64>,
    pub iss: String,
    pub exp: i64,
    pub iat: i64,
}

/// Authentication failures.
#[derive(Debug)]
pub enum AuthError {
    TokenError(String),
    InvalidCredentials,
    AccountLocked,
    Expired,
    Store(String),
}

impl AuthError {
    /// The error as text.
    pub fn message(&self) -> (s: String)
        ensures
            s@ == match *self {
                AuthError::TokenError(m) => "token error: "@ + m@,
                AuthError::InvalidCredentials => "invalid credentials"@,
                AuthError::AccountLocked => "account locked"@,
                AuthError::Expired => "expired"@,
                AuthError::Store(m) => "store error: "@ + m@,
            },
    {
        let mut s = String::new();
        match self {
            AuthError::TokenError(m) => {
                push_str(&mut s, "token error: ");
                push_str(&mut s, m.as_str());
            },
            AuthError::InvalidCredentials => push_str(&mut s, "invalid credentials"),
            AuthError::AccountLocked => push_str(&mut s, "account locked"),
            AuthError::Expired => push_str(&mut s, "expired"),
            AuthError::Store(m) => {
                push_str(&mut s, "store error: ");
                push_str(&mut s, m.as_str());
            },
        }
        s
    }
}

/// Failures of wrapping a TOTP secret at rest.
#[derive(Debug, Clone, Copy, PartialEq, Eq, Structural)]
pub enum CryptoError {
    Encrypt,
    Decrypt,
    InvalidFormat,
}

impl CryptoError {
    /// The error as text.
    pub fn message(&self) -> (s: &'static str)
        ensures
            s@ == match *self {
                CryptoError::Encrypt => "encryption failed"@,
                CryptoError::Decrypt => "decryption failed (key change or tampered ciphertext)"@,
                CryptoError::InvalidFormat => "invalid wrapped format"@,
            },
    {
        match self {
            CryptoError::Encrypt => "encryption failed",
            CryptoError::Decrypt => "decryption failed (key change or tampered ciphertext)",
            CryptoError::InvalidFormat => "invalid wrapped format",
        }
    }
}

/// Which key a stored TOTP secret was wrapped under.
#[derive(Debug, Clone, Copy, PartialEq, Eq, Structural)]
pub enum WrappedUnder {
    /// The key derived from the current JWT secret.
    Current,
    /// The key derived from the previous JWT secret; the row predates a
    /// rotation and has not been re-wrapped yet.
    Previous,
}

/// Failure to read or create the JWT secret file.
#[derive(Debug)]
pub enum JwtSecretError {
    Io(std::io::Error),
}

/// Failures of TOTP setup and verification.
#[derive(Debug)]
pub enum TotpError {
    InvalidSecret,
    Construct(String),
}

impl TotpError {
    /// The error as text.
    pub fn message(&self) -> (s: String)
        ensures
            s@ == match *self {
                TotpError::InvalidSecret => "invalid base32 secret"@,
                TotpError::Construct(m) => "TOTP construction failed: "@ + m@,
            },
    {
        let mut s = String::new();
        match self {
            TotpError::InvalidSecret => push_str(&mut s, "invalid base32 secret"),
            TotpError::Construct(m) => {
                push_str(&mut s, "TOTP construction failed: ");
                push_str(&mut s, m.as_str());
            },
        }
        s
    }
}

/// A fresh TOTP enrolment package, shown to the user once.
pub struct TotpEnrolment {
    /// Base32-encoded TOTP seed.
    pub secret_b32: String,
    /// `otpauth://totp/<issuer>:<account>?secret=...&issuer=...`
    pub otpauth_url: String,
    /// Raw codes for break-glass recovery; only their hashes are stored.
    pub recovery_codes: Vec<String>,
}

// ─── Passwords ───────────────────────────────────────────────────────────────

/// Minimum accepted password length in bytes.
pub const PASSWORD_MIN_LEN: usize = 8;

/// Maximum accepted password length in bytes: bcrypt ignores anything past
/// 72 bytes, so longer input is refused rather than silently truncated.
pub const PASSWORD_MAX_BYTES: usize = 72;

/// The shared password length policy, in bytes: at least
/// `PASSWORD_MIN_LEN`, at most `PASSWORD_MAX_BYTES`.
pub fn validate_password(password: &str) -> (r: Result<(), String>)
    ensures
        match r {
            Ok(()) => PASSWORD_MIN_LEN <= utf8_len(password@) <= PASSWORD_MAX_BYTES,
            Err(e) => if utf8_len(password@) < PASSWORD_MIN_LEN {
                e@ == "password must be at least 8 characters"@
            } else {
                utf8_len(password@) > PASSWORD_MAX_BYTES
                    && e@ == "password must be at most 72 bytes — bcrypt ignores anything longer"@
            },
        },
{
    proof {
        crate::text::lemma_str_len(password);
    }
    let n = password.as_bytes().len();
    if n < PASSWORD_MIN_LEN {
        let mut e = String::new();
        push_str(&mut e, "password must be at least 8 characters");
        return Err(e);
    }
    if n > PASSWORD_MAX_BYTES {
        let mut e = String::new();
        push_str(&mut e, "password must be at most 72 bytes — bcrypt ignores anything longer");
        return Err(e);
    }
    Ok(())
}

/// The bcrypt cost of stored credentials.
pub const BCRYPT_COST: u32 = 12;

/// A constant bcrypt hash at the same cost as real credentials, verified
/// against when no credential exists so that an unknown user costs the same
/// time as a wrong password.
pub const DUMMY_HASH: &'static str = "$2b$12$YXBntkEkvH.iUqbB0dvGWu0jI.OucauI6J6sQtQdopM1sNckRKPoi";

/// Whether bcrypt accepts `password` against `hash` (`None` when the hash
/// is malformed).
pub uninterp spec fn bcrypt_check(password: Seq<char>, hash: Seq<char>) -> Option<bool>;

/// `bcrypt::hash(password, cost)`: a salted hash in the `$2b$` format,
/// `$2b$`, the cost in two digits, `$`, then 22 characters of salt and 31
/// of hash (60 in all). The salt is random, so the rest of the text is not
/// stated; what is stated is that `bcrypt::verify` accepts the password
/// against it. It fails on a cost outside `4..=31`, or when the system
/// gives no random salt.
#[verifier::external_body]
fn bcrypt_hash(password: &str, cost: u32) -> (r: Result<String, bcrypt::BcryptError>)
    ensures
        r matches Ok(h) ==> bcrypt_check(password@, h@) == Some(true),
        r matches Ok(h) ==> h@.len() == 60 && h@.subrange(0, 7) == "$2b$"@ + crate::text::pad2(cost as nat) + "$"@,
        !(4 <= cost <= 31) ==> r is Err,
{
    bcrypt::hash(password, cost)
}

/// `bcrypt::verify(password, hash)`: whether the password matches the
/// hash, or the error for a malformed hash; stated as the named result
/// `bcrypt_check`.
#[verifier::external_body]
fn bcrypt_verify(password: &str, hash: &str) -> (r: Result<bool, bcrypt::BcryptError>)
    ensures
        match r {
            Ok(b) => bcrypt_check(password@, hash@) == Some(b),
            Err(_) => bcrypt_check(password@, hash@) is None,
        },
{
    bcrypt::verify(password, hash)
}

/// `BcryptError`'s `Display` text; nothing is stated of it.
#[verifier::external_body]
fn bcrypt_error_text(e: &bcrypt::BcryptError) -> String {
    e.to_string()
}

/// Hash a password with bcrypt at `BCRYPT_COST`.
pub fn hash_password(password: &str) -> (r: Result<String, AuthError>)
    ensures
        r matches Err(e) ==> e is Store,
        r matches Ok(h) ==> bcrypt_check(password@, h@) == Some(true),
        r matches Ok(h) ==> h@.len() == 60 && h@.subrange(0, 7) == "$2b$12$"@,
{
    proof {
        reveal_strlit("$2b$");
        reveal_strlit("$");
        reveal_strlit("$2b$12$");
        assert(crate::text::decimal(12) =~= seq!['1', '2']) by {
            reveal_with_fuel(crate::text::decimal, 3);
        }
        assert("$2b$"@ + crate::text::pad2(12) + "$"@ =~= "$2b$12$"@);
    }
    match bcrypt_hash(password, BCRYPT_COST) {
        Ok(h) => Ok(h),
        Err(e) => Err(AuthError::Store(bcrypt_error_text(&e))),
    }
}

/// Verify a password against a bcrypt hash.
pub fn verify_password(password: &str, hash: &str) -> (r: Result<bool, AuthError>)
    ensures
        match r {
            Ok(b) => bcrypt_check(password@, hash@) == Some(b),
            Err(e) => bcrypt_check(password@, hash@) is None && e is Store,
        },
{
    match bcrypt_verify(password, hash) {
        Ok(b) => Ok(b),
        Err(e) => Err(AuthError::Store(bcrypt_error_text(&e))),
    }
}

/// Burns one bcrypt verification against `DUMMY_HASH` and discards the
/// result, so that paths without a credential take as long as a wrong
/// password.
pub fn dummy_verify(password: &str) {
    let _ = bcrypt_verify(password, DUMMY_HASH);
}

// ─── API keys and secret tokens ──────────────────────────────────────────────

/// The SHA-256 digest of some bytes.
pub uninterp spec fn sha256(bytes: Seq<u8>) -> Seq<u8>;

/// `<sha2::Sha256 as Digest>::digest(bytes)`: the 32-byte SHA-256 digest,
/// stated as the named result `sha256`.
#[verifier::external_body]
pub(crate) fn sha256_digest(bytes: &[u8]) -> (r: Vec<u8>)
    ensures
        r@ == sha256(bytes@),
        r@.len() == 32,
{
    sha2::Sha256::digest(bytes).to_vec()
}

/// The lower-case hex digit for a value below sixteen.
pub open spec fn hex_digit(v: u8) -> char {
    if v < 10 {
        ((v + 48) as u8) as char
    } else {
        ((v + 87) as u8) as char
    }
}

/// Lower-case hex encoding: two digits per byte, high nibble first.
pub open spec fn hex_lower(bytes: Seq<u8>) -> Seq<char>
    decreases bytes.len(),
{
    if bytes.len() == 0 {
        Seq::empty()
    } else {
        hex_lower(bytes.drop_last()) + seq![
            hex_digit(bytes.last() / 16),
            hex_digit(bytes.last() % 16),
        ]
    }
}

/// `hex::encode(bytes)`: every byte as two lower-case hex digits, high
/// nibble first, as the crate documents.
#[verifier::external_body]
pub(crate) fn hex_encode(bytes: &[u8]) -> (r: String)
    ensures
        r@ == hex_lower(bytes@),
{
    hex::encode(bytes)
}

/// The stored form of a secret: SHA-256 of its UTF-8 bytes, hex-encoded.
pub open spec fn spec_secret_hash(raw: Seq<char>) -> Seq<char> {
    hex_lower(sha256(vstd::utf8::encode_utf8(raw)))
}

/// Hash an API key with SHA-256 (hex-encoded).
pub fn hash_api_key(raw_key: &str) -> (h: String)
    ensures
        h@ == spec_secret_hash(raw_key@),
        h@.len() == 64,
        forall|i: int| 0 <= i < h@.len() ==> is_hex_lower(#[trigger] h@[i]),
{
    let digest = sha256_digest(raw_key.as_bytes());
    proof {
        lemma_hex_lower_shape(digest@);
    }
    hex_encode(digest.as_slice())
}

/// Hex encoding writes two lower-case hex digits per byte.
pub proof fn lemma_hex_lower_shape(b: Seq<u8>)
    ensures
        hex_lower(b).len() == 2 * b.len(),
        forall|i: int| 0 <= i < hex_lower(b).len() ==> is_hex_lower(#[trigger] hex_lower(b)[i]),
    decreases b.len(),
{
    if b.len() > 0 {
        lemma_hex_lower_shape(b.drop_last());
        let x = b.last();
        assert(is_hex_lower(hex_digit(x / 16)));
        assert(is_hex_lower(hex_digit(x % 16)));
        let prev = hex_lower(b.drop_last());
        assert forall|i: int| 0 <= i < hex_lower(b).len() implies is_hex_lower(#[trigger] hex_lower(b)[i]) by {
            if i < prev.len() {
                assert(hex_lower(b)[i] == prev[i]);
            }
        }
    }
}

/// Hash any secret token (API key, invitation, password reset): the same
/// SHA-256 mechanism as API keys: 64 lower-case hex digits.
pub fn hash_token(raw: &str) -> (h: String)
    ensures
        h@ == spec_secret_hash(raw@),
        h@.len() == 64,
        forall|i: int| 0 <= i < h@.len() ==> is_hex_lower(#[trigger] h@[i]),
{
    hash_api_key(raw)
}

/// A lower-case hex digit.
pub open spec fn is_hex_lower(c: char) -> bool {
    ('0' <= c && c <= '9') || ('a' <= c && c <= 'f')
}

/// `uuid::Uuid::new_v4().as_simple()` as text: a random version-4 UUID in
/// its simple form, 32 lower-case hex digits without hyphens.
#[verifier::external_body]
fn new_uuid_simple() -> (r: String)
    ensures
        r@.len() == 32,
        forall|i: int| 0 <= i < 32 ==> is_hex_lower(#[trigger] r@[i]),
{
    uuid::Uuid::new_v4().as_simple().to_string()
}

/// Generate a new random API key: `(raw_key, sha256_hash, prefix)`, the raw
/// key being `croniq_` and a random simple UUID, the prefix its first
/// twelve characters.
pub fn generate_api_key() -> (r: (String, String, String))
    ensures
        r.0@.len() == 39,
        r.0@.take(7) == "croniq_"@,
        r.1@ == spec_secret_hash(r.0@),
        r.2@ == r.0@.take(12),
{
    let mut raw = String::new();
    push_str(&mut raw, "croniq_");
    let id = new_uuid_simple();
    push_str(&mut raw, id.as_str());
    proof {
        reveal_strlit("croniq_");
        assert(raw@.take(7) =~= "croniq_"@);
    }
    let hash = hash_api_key(raw.as_str());
    let cs = chars_of(raw.as_str());
    let prefix = crate::text::string_of_range(cs.as_slice(), 0, 12);
    assert(prefix@ =~= raw@.take(12));
    (raw, hash, prefix)
}

/// Generate a secret token with the given prefix: `(raw, sha256_hash)`,
/// the raw token being `<prefix>_` and a random simple UUID.
pub fn generate_token(prefix: &str) -> (r: (String, String))
    ensures
        r.0@.len() == prefix@.len() + 33,
        r.0@.take(prefix@.len() + 1 as int) == prefix@.push('_'),
        r.1@ == spec_secret_hash(r.0@),
{
    let mut raw = String::new();
    push_str(&mut raw, prefix);
    push_char(&mut raw, '_');
    let id = new_uuid_simple();
    push_str(&mut raw, id.as_str());
    assert(raw@.take(prefix@.len() + 1 as int) =~= prefix@.push('_'));
    let hash = hash_api_key(raw.as_str());
    (raw, hash)
}

// ─── Recovery codes ──────────────────────────────────────────────────────────

/// Number of recovery codes minted per setup or regeneration.
pub const RECOVERY_CODE_COUNT: usize = 10;

/// Characters in each recovery code.
pub const RECOVERY_CODE_LEN: usize = 8;

/// The alphabet of recovery codes: lower-case letters and digits without
/// the easily confused `0`, `o`, `1`, `i` and `l`.
pub open spec fn recovery_charset() -> Seq<char> {
    "abcdefghjkmnpqrstuvwxyz23456789"@
}

/// `rand::rng().random_range(0..n)`: a uniformly random index below `n`
/// (the range must not be empty, or rand panics).
#[verifier::external_body]
fn random_below(n: usize) -> (r: usize)
    requires
        n > 0,
    ensures
        r < n,
{
    rand::rng().random_range(0..n)
}

/// A recovery code: `RECOVERY_CODE_LEN` characters drawn from the recovery
/// alphabet.
pub open spec fn is_recovery_code(code: Seq<char>) -> bool {
    &&& code.len() == RECOVERY_CODE_LEN
    &&& forall|i: int| 0 <= i < code.len() ==> recovery_charset().contains(#[trigger] code[i])
}

/// Generate a single recovery code.
pub fn generate_recovery_code() -> (code: String)
    ensures
        is_recovery_code(code@),
{
    let charset = chars_of("abcdefghjkmnpqrstuvwxyz23456789");
    proof {
        reveal_strlit("abcdefghjkmnpqrstuvwxyz23456789");
    }
    let mut code = String::new();
    let mut i: usize = 0;
    while i < RECOVERY_CODE_LEN
        invariant
            i <= RECOVERY_CODE_LEN,
            charset@ == recovery_charset(),
            charset@.len() == 31,
            code@.len() == i,
            forall|k: int| 0 <= k < i ==> recovery_charset().contains(#[trigger] code@[k]),
        decreases RECOVERY_CODE_LEN - i,
    {
        let idx = random_below(charset.len());
        let c = charset[idx];
        assert(recovery_charset()[idx as int] == c);
        push_char(&mut code, c);
        i = i + 1;
    }
    code
}

/// Generate a fresh set of `RECOVERY_CODE_COUNT` recovery codes.
pub fn generate_recovery_codes() -> (codes: Vec<String>)
    ensures
        codes@.len() == RECOVERY_CODE_COUNT,
        forall|i: int| 0 <= i < codes@.len() ==> is_recovery_code(#[trigger] codes@[i]@),
{
    let mut codes: Vec<String> = Vec::new();
    let mut i: usize = 0;
    while i < RECOVERY_CODE_COUNT
        invariant
            i <= RECOVERY_CODE_COUNT,
            codes@.len() == i,
            forall|k: int| 0 <= k < i ==> is_recovery_code(#[trigger] codes@[k]@),
        decreases RECOVERY_CODE_COUNT - i,
    {
        codes.push(generate_recovery_code());
        i = i + 1;
    }
    codes
}

} // verus!
