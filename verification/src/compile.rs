//! Compiles a Croniqfile syntax tree into the runtime configuration: every
//! block with its defaults applied and its placeholders resolved.
//!
//! Maps of the configuration (`vars`, job metadata, runner environment,
//! alert channels) are kept as lists of entries with map semantics: an
//! insert replaces the entry with the same key, or appends.

use vstd::prelude::*;
use crate::ast::{
    CalendarBlock, CalendarRuleKind, Croniqfile, Directive, DirectiveOrBlock, Item, StringValue,
};
use crate::convert::trim;
use crate::schedule::{compiled_from, spec_summary, CompiledSchedule};
use crate::placeholders::{
    index_of_key, insert_pair, lookup, pairs_view, resolve, spec_resolve, table_insert, HostInputs,
};
use crate::text::{chars_of, decimal, lower, lower_chars, push_str, str_eq};

verus! {

// ─── Resolution ──────────────────────────────────────────────────────────────

/// A vars table as plain values.
pub type VarTable = Seq<(Seq<char>, Seq<char>)>;

/// What a value resolves to: a placeholder through the resolver, falling
/// back to its raw text when it cannot be resolved; anything else as
/// written.
pub open spec fn spec_resolve_str(v: StringValue, vars: VarTable, host: HostInputs) -> Seq<char> {
    if v.is_placeholder {
        match spec_resolve(v.value@, vars, host) {
            Ok(x) => x,
            Err(_) => v.value@,
        }
    } else {
        v.value@
    }
}

/// The resolved first argument of a directive, if it has one.
pub open spec fn spec_first_arg(d: Directive, vars: VarTable, host: HostInputs) -> Option<Seq<char>> {
    if d.args@.len() > 0 {
        Some(spec_resolve_str(d.args@[0], vars, host))
    } else {
        None
    }
}

/// Resolves a value against the vars table and the host's inputs.
pub fn resolve_str(val: &StringValue, vars: &Vec<(String, String)>, host: &HostInputs) -> (s: String)
    ensures
        s@ == spec_resolve_str(*val, pairs_view(vars@), *host),
{
    if val.is_placeholder {
        match resolve(val.value.as_str(), vars, host) {
            Ok(v) => v,
            Err(_) => val.value.clone(),
        }
    } else {
        val.value.clone()
    }
}

/// The resolved first argument of a directive.
pub fn first_arg(d: &Directive, vars: &Vec<(String, String)>, host: &HostInputs) -> (r: Option<String>)
    ensures
        match r {
            Some(s) => spec_first_arg(*d, pairs_view(vars@), *host) == Some(s@),
            None => spec_first_arg(*d, pairs_view(vars@), *host) is None,
        },
{
    if d.args.len() > 0 {
        Some(resolve_str(&d.args[0], vars, host))
    } else {
        None
    }
}

/// The entries of a `vars { }` block folded into a table: on the literal
/// pass the entries whose first argument is written out, on the second
/// pass the placeholder entries, resolved against the table so far.
pub open spec fn vars_entries_fold(
    ds: Seq<Directive>,
    n: int,
    acc: VarTable,
    literal: bool,
    host: HostInputs,
) -> VarTable
    decreases n,
{
    if n <= 0 {
        acc
    } else {
        let t = vars_entries_fold(ds, n - 1, acc, literal, host);
        let d = ds[n - 1];
        if d.args@.len() > 0 && d.args@[0].is_placeholder != literal {
            table_insert(
                t,
                d.key.value@,
                if literal {
                    d.args@[0].value@
                } else {
                    spec_resolve_str(d.args@[0], t, host)
                },
            )
        } else {
            t
        }
    }
}

/// One pass of vars collection over the first `n` items.
pub open spec fn vars_items_fold(items: Seq<Item>, n: int, acc: VarTable, literal: bool, host: HostInputs) -> VarTable
    decreases n,
{
    if n <= 0 {
        acc
    } else {
        let t = vars_items_fold(items, n - 1, acc, literal, host);
        match items[n - 1] {
            Item::Vars(v) => vars_entries_fold(v.entries@, v.entries@.len() as int, t, literal, host),
            _ => t,
        }
    }
}

/// Every `vars { }` entry of the file: first the literal values, then the
/// placeholder values resolved against them (one pass, in file order), so
/// that the order of the blocks does not matter.
pub open spec fn spec_collect_vars(ast: Croniqfile, host: HostInputs) -> VarTable {
    let items = ast.items@;
    let literals = vars_items_fold(items, items.len() as int, Seq::empty(), true, host);
    vars_items_fold(items, items.len() as int, literals, false, host)
}

fn collect_vars_pass(ast: &Croniqfile, vars: &mut Vec<(String, String)>, literal: bool, host: &HostInputs)
    ensures
        pairs_view(final(vars)@) == vars_items_fold(
            ast.items@,
            ast.items@.len() as int,
            pairs_view(old(vars)@),
            literal,
            *host,
        ),
{
    let ghost start = pairs_view(vars@);
    let mut i: usize = 0;
    while i < ast.items.len()
        invariant
            i <= ast.items@.len(),
            pairs_view(vars@) == vars_items_fold(ast.items@, i as int, start, literal, *host),
        decreases ast.items@.len() - i,
    {
        match &ast.items[i] {
            Item::Vars(v) => {
                let ghost t0 = pairs_view(vars@);
                let mut j: usize = 0;
                while j < v.entries.len()
                    invariant
                        j <= v.entries@.len(),
                        pairs_view(vars@) == vars_entries_fold(v.entries@, j as int, t0, literal, *host),
                    decreases v.entries@.len() - j,
                {
                    let d = &v.entries[j];
                    if d.args.len() > 0 && d.args[0].is_placeholder != literal {
                        let val = if literal {
                            d.args[0].value.clone()
                        } else {
                            resolve_str(&d.args[0], vars, host)
                        };
                        insert_pair(vars, d.key.value.clone(), val);
                    }
                    j = j + 1;
                }
            },
            _ => {},
        }
        i = i + 1;
    }
}

/// Collects every `vars { }` entry of the file up front, so that
/// placeholder resolution does not depend on where the blocks stand.
pub fn collect_vars(ast: &Croniqfile, host: &HostInputs) -> (vars: Vec<(String, String)>)
    ensures
        pairs_view(vars@) == spec_collect_vars(*ast, *host),
{
    let mut vars: Vec<(String, String)> = Vec::new();
    assert(pairs_view(vars@) =~= Seq::<(Seq<char>, Seq<char>)>::empty());
    collect_vars_pass(ast, &mut vars, true, host);
    collect_vars_pass(ast, &mut vars, false, host);
    vars
}

// ─── Small value parsers ─────────────────────────────────────────────────────

/// A DSL boolean, ASCII case-insensitive: `true|yes|on|1` or
/// `false|no|off|0`; anything else is no answer.
pub open spec fn spec_parse_bool(s: Seq<char>) -> Option<bool> {
    let l = lower(s);
    if l == "true"@ || l == "yes"@ || l == "on"@ || l == "1"@ {
        Some(true)
    } else if l == "false"@ || l == "no"@ || l == "off"@ || l == "0"@ {
        Some(false)
    } else {
        None
    }
}

/// Parse a DSL boolean argument.
pub fn parse_bool(s: &str) -> (r: Option<bool>)
    ensures
        r == spec_parse_bool(s@),
{
    let l = lower_chars(chars_of(s).as_slice());
    let ls = l.as_slice();
    if crate::text::chars_is(ls, "true") || crate::text::chars_is(ls, "yes") || crate::text::chars_is(ls, "on")
        || crate::text::chars_is(ls, "1") {
        Some(true)
    } else if crate::text::chars_is(ls, "false") || crate::text::chars_is(ls, "no")
        || crate::text::chars_is(ls, "off") || crate::text::chars_is(ls, "0") {
        Some(false)
    } else {
        None
    }
}

/// The flag spellings that switch a flag on (case-sensitive): `true`,
/// `yes`, `1`, `on`.
pub open spec fn spec_is_truthy(s: Seq<char>) -> bool {
    s == "true"@ || s == "yes"@ || s == "1"@ || s == "on"@
}

fn is_truthy(s: &str) -> (r: bool)
    ensures
        r == spec_is_truthy(s@),
{
    str_eq(s, "true") || str_eq(s, "yes") || str_eq(s, "1") || str_eq(s, "on")
}

/// A `u64` in decimal, as `str::parse` reads it.
pub open spec fn spec_parse_u64(s: Seq<char>) -> Option<u64> {
    match crate::text::spec_parse_uint(s) {
        Some(v) => if v <= u64::MAX {
            Some(v as u64)
        } else {
            None
        },
        None => None,
    }
}

/// A duration in seconds: digits with an optional `s`, `m` or `h` suffix,
/// after trimming; `None` on anything else or on overflow.
pub open spec fn spec_parse_duration_secs(s0: Seq<char>) -> Option<u64> {
    let s = trim(s0);
    if s.len() == 0 {
        None
    } else {
        let c = s.last();
        let (digits, mult): (Seq<char>, nat) = if c == 's' {
            (s.drop_last(), 1)
        } else if c == 'm' {
            (s.drop_last(), 60)
        } else if c == 'h' {
            (s.drop_last(), 3600)
        } else {
            (s, 1)
        };
        if !(c == 's' || c == 'm' || c == 'h' || crate::text::is_digit(c)) {
            None
        } else {
            match spec_parse_u64(digits) {
                Some(n) => if n * mult <= u64::MAX {
                    Some((n * mult) as u64)
                } else {
                    None
                },
                None => None,
            }
        }
    }
}

/// Reads a `u64` the way `str::parse` does: an optional `+`, then one or
/// more digits, with the value fitting a `u64`.
fn parse_u64(s: &[char]) -> (r: Option<u64>)
    ensures
        r == spec_parse_u64(s@),
{
    let start: usize = if s.len() > 0 && s[0] == '+' { 1 } else { 0 };
    let ghost body = if s@.len() > 0 && s@[0] == '+' { s@.drop_first() } else { s@ };
    assert(body == s@.subrange(start as int, s@.len() as int));
    if start >= s.len() {
        return None;
    }
    let mut acc: u128 = 0;
    let mut i: usize = start;
    while i < s.len()
        invariant
            start <= i <= s.len(),
            body == s@.subrange(start as int, s@.len() as int),
            body == (if s@.len() > 0 && s@[0] == '+' { s@.drop_first() } else { s@ }),
            crate::text::all_digits(s@.subrange(start as int, i as int)),
            acc as nat == crate::text::digits_value(s@.subrange(start as int, i as int)),
            acc <= u64::MAX,
        decreases s.len() - i,
    {
        let c = s[i];
        let ghost pre = s@.subrange(start as int, i as int);
        let ghost next = s@.subrange(start as int, i + 1);
        assert(next.drop_last() == pre);
        if !('0' <= c && c <= '9') {
            proof {
                assert(body[i - start] == c);
                assert(!crate::text::is_digit(body[i - start]));
                assert(!crate::text::all_digits(body));
            }
            return None;
        }
        let d = (c as u32 - '0' as u32) as u128;
        let nv = acc * 10 + d;
        if nv > u64::MAX as u128 {
            proof {
                if crate::text::all_digits(body) {
                    crate::text::lemma_digits_value_prefix_mono(body, (i + 1 - start) as int);
                    assert(body.subrange(0, (i + 1 - start) as int) == next);
                }
            }
            return None;
        }
        acc = nv;
        i = i + 1;
        assert(crate::text::all_digits(next)) by {
            assert forall|j: int| 0 <= j < next.len() implies #[trigger] crate::text::is_digit(next[j]) by {
                if j < pre.len() {
                    assert(next[j] == pre[j]);
                }
            }
        }
    }
    assert(s@.subrange(start as int, s@.len() as int) == body);
    Some(acc as u64)
}

/// Parse a duration in seconds (`5s`, `2m`, `1h`, bare seconds).
pub fn parse_duration_secs(s: &str) -> (r: Option<u64>)
    ensures
        r == spec_parse_duration_secs(s@),
{
    let raw = chars_of(s);
    let t = crate::convert::trim_chars(raw.as_slice());
    if t.len() == 0 {
        return None;
    }
    let c = t[t.len() - 1];
    let mult: u64 = if c == 's' {
        1
    } else if c == 'm' {
        60
    } else if c == 'h' {
        3600
    } else if '0' <= c && c <= '9' {
        1
    } else {
        return None;
    };
    let digits = if c == 's' || c == 'm' || c == 'h' {
        crate::text::slice_chars(t.as_slice(), 0, t.len() - 1)
    } else {
        crate::text::slice_chars(t.as_slice(), 0, t.len())
    };
    assert(t@.subrange(0, t@.len() - 1) =~= t@.drop_last());
    assert(t@.subrange(0, t@.len() as int) =~= t@);
    match parse_u64(digits.as_slice()) {
        Some(n) => n.checked_mul(mult),
        None => None,
    }
}

// ─── Configuration types ─────────────────────────────────────────────────────

/// `server { }`.
#[derive(Debug, Clone)]
pub struct ServerConfig {
    pub listen: String,
    pub data_dir: String,
    pub db: String,
    /// Public base URL for links sent to users.
    pub app_url: Option<String>,
    /// Age-based retention for finished executions; `None` keeps history.
    pub execution_retention: Option<String>,
}

/// `pull_api { }`.
#[derive(Debug, Clone)]
pub struct PullApiConfig {
    pub listen: String,
    pub lease_ttl: String,
    /// Window within which a repeated trigger with the same idempotency
    /// key coalesces.
    pub trigger_dedup_window: String,
    /// `strict` binds a runner id to the credential that first used it;
    /// `off` trusts the runner id in the request.
    pub runner_identity_binding: String,
}

/// `observability { }`.
#[derive(Debug, Clone)]
pub struct ObservabilityConfig {
    pub log: Option<LogConfig>,
    pub metrics: Option<MetricsConfig>,
}

/// `observability { log { } }`.
#[derive(Debug, Clone)]
pub struct LogConfig {
    pub level: String,
    pub format: String,
    pub output: String,
}

/// `observability { metrics { } }`.
#[derive(Debug, Clone)]
pub struct MetricsConfig {
    pub listen: String,
    pub path: String,
}

/// `mcp { }`; an absent block means enabled with no extra hosts.
#[derive(Debug, Clone)]
pub struct McpConfig {
    pub enabled: bool,
    /// Host-header values accepted on top of the loopback defaults.
    pub allowed_hosts: Vec<String>,
}

impl Default for McpConfig {
    fn default() -> (c: Self)
        ensures
            c.enabled,
            c.allowed_hosts@.len() == 0,
    {
        McpConfig { enabled: true, allowed_hosts: Vec::new() }
    }
}

/// `oidc { }`; the client secret stays in the environment.
#[derive(Debug, Clone)]
pub struct OidcDslConfig {
    pub issuer: Option<String>,
    pub client_id: Option<String>,
    pub redirect_url: Option<String>,
    pub default_role: Option<String>,
    pub provider_name: Option<String>,
    pub post_login_redirect: Option<String>,
}

/// `smtp { }`; credentials stay in the environment.
#[derive(Debug, Clone)]
pub struct SmtpDslConfig {
    pub host: Option<String>,
    pub port: Option<u16>,
    /// `starttls` | `tls` | `none`, lower-cased; checked at boot.
    pub security: Option<String>,
    pub from: Option<String>,
}

/// `auth { }` sign-in gates.
#[derive(Debug, Clone)]
pub struct AuthDslConfig {
    pub password: PasswordAuthConfig,
    pub totp: TotpAuthConfig,
}

/// `auth { password { enabled … } }`; `None` when the file does not say.
#[derive(Debug, Clone)]
pub struct PasswordAuthConfig {
    pub enabled: Option<bool>,
}

/// `auth { totp { required … } }`; `None` when the file does not say.
#[derive(Debug, Clone)]
pub struct TotpAuthConfig {
    pub required: Option<bool>,
}

/// `policy { }`: adoption of DSL-managed resources is off by default,
/// strict calendars on (an unresolved calendar gate pauses the job).
#[derive(Debug, Clone)]
pub struct PolicyConfig {
    pub dsl_adopt_on_mutate: bool,
    pub strict_calendars: bool,
}

impl Default for PolicyConfig {
    fn default() -> (c: Self)
        ensures
            !c.dsl_adopt_on_mutate,
            c.strict_calendars,
    {
        PolicyConfig { dsl_adopt_on_mutate: false, strict_calendars: true }
    }
}

/// `alerts { }`: named channels and the rules that use them.
#[derive(Debug, Clone)]
pub struct AlertsConfig {
    /// Channels, one per name (a later channel of the same name replaces
    /// the earlier one in place).
    pub channels: Vec<ChannelConfig>,
    /// Rules in declaration order.
    pub rules: Vec<RuleConfig>,
}

/// A named delivery target.
#[derive(Debug, Clone)]
pub struct ChannelConfig {
    pub name: String,
    pub kind: ChannelKind,
}

/// How a channel delivers.
#[derive(Debug, Clone)]
pub enum ChannelKind {
    /// A command run with the failure context in its environment.
    Shell { command: String },
    /// A JSON POST, signed with HMAC-SHA256 when a key is set.
    Webhook { url: String, signing_key: Option<String>, timeout_secs: u64 },
    /// Plain-text mail to each recipient.
    Email { recipients: Vec<String> },
    /// No recognised kind directive; rules still resolve the name.
    Unknown { reason: String },
}

/// A rule: a trigger, the jobs it watches, and the channels it notifies.
#[derive(Debug, Clone)]
pub struct RuleConfig {
    pub name: String,
    pub trigger: RuleTrigger,
    /// Glob matched against the job key.
    pub job_key_glob: String,
    /// Attempts that must have been made before `job_failed` fires.
    pub min_attempts: u32,
    /// Fire only on dead-letter (`job_failed` only).
    pub dead_letter_only: bool,
    /// Per-(rule, job) suppression window, as written.
    pub throttle: Option<String>,
    /// Runtime limit (`job_sla_missed`) or grace period (`job_missed_fire`).
    pub expected_within: Option<String>,
    pub channels: Vec<String>,
}

/// What a rule fires on.
#[derive(Debug, Clone, Copy, PartialEq, Eq, Structural)]
pub enum RuleTrigger {
    JobFailed,
    JobSlaMissed,
    JobMissedFire,
}

/// How a job's executions are tracked.
#[derive(Debug, Clone, Copy, PartialEq, Eq, Structural)]
pub enum ExecutionMode {
    /// Persisted before dispatch; survives restarts, retries, dead-letters.
    Queued,
    /// Not persisted; no catch-up after a restart.
    Ephemeral,
}

/// What happens to fires missed while the server was down.
#[derive(Debug, Clone, Copy, PartialEq, Eq, Structural)]
pub enum CatchUpPolicy {
    /// Replay every missed fire.
    All,
    /// Coalesce the missed fires into one execution.
    Latest,
    /// Discard missed fires (written `none` in the file).
    Discard,
}

/// `runner { }` placement constraints.
#[derive(Debug, Clone)]
pub struct RunnerConfig {
    pub require: Vec<String>,
    pub prefer: Vec<String>,
    pub exclude: Vec<String>,
    pub sticky: bool,
}

/// The execution payload of a `runner shell { }` / `runner exec { }` block.
#[derive(Debug, Clone)]
pub enum RunnerExec {
    /// `sh -c "<command>"`.
    Shell { command: String, workdir: Option<String>, user: Option<String>, env: Vec<(String, String)> },
    /// Direct exec of an argv, no shell.
    Exec { argv: Vec<String>, workdir: Option<String>, user: Option<String>, env: Vec<(String, String)> },
}

/// Metadata key under which a job's execution payload travels, as JSON.
pub const RUNNER_EXEC_METADATA_KEY: &'static str = "__runner_exec";

/// Metadata key carrying a job's concurrency limit.
pub const MAX_CONCURRENT_METADATA_KEY: &'static str = "__max_concurrent";

/// `retry [strategy] { }`. The jitter is kept as written; it is a fraction
/// where it reads as a floating-point number.
#[derive(Debug, Clone)]
pub struct RetryConfig {
    pub strategy: String,
    pub max_attempts: u32,
    pub base: Option<String>,
    pub cap: Option<String>,
    pub delay: Option<String>,
    pub step: Option<String>,
    pub jitter: Option<String>,
}

/// `dead_letter { }`.
#[derive(Debug, Clone)]
pub struct DeadLetterConfig {
    pub enabled: bool,
    pub retention: Option<String>,
    pub operator_hint: Option<String>,
    /// Replays of dead letters older than this are refused unless forced.
    pub replay_max_age: Option<String>,
}

/// `calendar <name> { }`.
#[derive(Debug, Clone)]
pub struct CalendarConfig {
    pub name: String,
    pub timezone: Option<String>,
    pub rules: Vec<CalendarRuleConfig>,
}

/// One calendar rule, its arguments resolved.
#[derive(Debug, Clone)]
pub struct CalendarRuleConfig {
    /// `include` or `exclude`.
    pub kind: String,
    pub rule_type: String,
    pub args: Vec<String>,
}

// ─── Plain-value views ───────────────────────────────────────────────────────

/// An optional string as plain values.
pub open spec fn opt_view(o: Option<String>) -> Option<Seq<char>> {
    match o {
        Some(s) => Some(s@),
        None => None,
    }
}

/// A list of strings as plain values.
pub open spec fn strings_view(v: Seq<String>) -> Seq<Seq<char>> {
    v.map_values(|s: String| s@)
}

/// `RetryConfig` as plain values.
#[verifier::ext_equal]
pub struct RetryView {
    pub strategy: Seq<char>,
    pub max_attempts: u32,
    pub base: Option<Seq<char>>,
    pub cap: Option<Seq<char>>,
    pub delay: Option<Seq<char>>,
    pub step: Option<Seq<char>>,
    pub jitter: Option<Seq<char>>,
}

pub open spec fn retry_view(c: RetryConfig) -> RetryView {
    RetryView {
        strategy: c.strategy@,
        max_attempts: c.max_attempts,
        base: opt_view(c.base),
        cap: opt_view(c.cap),
        delay: opt_view(c.delay),
        step: opt_view(c.step),
        jitter: opt_view(c.jitter),
    }
}

/// `DeadLetterConfig` as plain values.
#[verifier::ext_equal]
pub struct DeadLetterView {
    pub enabled: bool,
    pub retention: Option<Seq<char>>,
    pub operator_hint: Option<Seq<char>>,
    pub replay_max_age: Option<Seq<char>>,
}

pub open spec fn dead_letter_view(c: DeadLetterConfig) -> DeadLetterView {
    DeadLetterView {
        enabled: c.enabled,
        retention: opt_view(c.retention),
        operator_hint: opt_view(c.operator_hint),
        replay_max_age: opt_view(c.replay_max_age),
    }
}

impl Default for RetryConfig {
    /// Exponential backoff, three attempts, from 2s capped at 30s, jitter
    /// 0.25.
    fn default() -> (c: Self)
        ensures
            retry_view(c) == (RetryView {
                strategy: "exponential"@,
                max_attempts: 3,
                base: Some("2s"@),
                cap: Some("30s"@),
                delay: None,
                step: None,
                jitter: Some("0.25"@),
            }),
    {
        RetryConfig {
            strategy: owned("exponential"),
            max_attempts: 3,
            base: Some(owned("2s")),
            cap: Some(owned("30s")),
            delay: None,
            step: None,
            jitter: Some(owned("0.25")),
        }
    }
}

impl Default for DeadLetterConfig {
    /// Enabled, kept thirty days.
    fn default() -> (c: Self)
        ensures
            dead_letter_view(c) == (DeadLetterView {
                enabled: true,
                retention: Some("30d"@),
                operator_hint: None,
                replay_max_age: None,
            }),
    {
        DeadLetterConfig { enabled: true, retention: Some(owned("30d")), operator_hint: None, replay_max_age: None }
    }
}

/// A copy of an optional string.
fn clone_opt(o: &Option<String>) -> (r: Option<String>)
    ensures
        opt_view(r) == opt_view(*o),
{
    match o {
        Some(v) => Some(v.clone()),
        None => None,
    }
}

impl RetryConfig {
    /// A field-by-field copy.
    fn duplicate(&self) -> (c: Self)
        ensures
            retry_view(c) == retry_view(*self),
    {
        RetryConfig {
            strategy: self.strategy.clone(),
            max_attempts: self.max_attempts,
            base: clone_opt(&self.base),
            cap: clone_opt(&self.cap),
            delay: clone_opt(&self.delay),
            step: clone_opt(&self.step),
            jitter: clone_opt(&self.jitter),
        }
    }
}

impl DeadLetterConfig {
    /// A field-by-field copy.
    fn duplicate(&self) -> (c: Self)
        ensures
            dead_letter_view(c) == dead_letter_view(*self),
    {
        DeadLetterConfig {
            enabled: self.enabled,
            retention: clone_opt(&self.retention),
            operator_hint: clone_opt(&self.operator_hint),
            replay_max_age: clone_opt(&self.replay_max_age),
        }
    }
}

/// A `String` holding a literal.
fn owned(s: &str) -> (r: String)
    ensures
        r@ == s@,
{
    let mut r = String::new();
    push_str(&mut r, s);
    r
}

// ─── Retry, dead-letter, calendar and runner blocks ──────────────────────────

/// One directive of a `retry` block applied to the config so far; a
/// missing argument reads as empty.
pub open spec fn retry_step(c: RetryView, d: Directive, vars: VarTable, host: HostInputs) -> RetryView {
    let val = match spec_first_arg(d, vars, host) {
        Some(v) => v,
        None => Seq::empty(),
    };
    let key = d.key.value@;
    if key == "max_attempts"@ {
        match crate::calendar_args::parse_u32_spec(val) {
            Some(n) => RetryView { max_attempts: n, ..c },
            None => c,
        }
    } else if key == "base"@ {
        RetryView { base: Some(val), ..c }
    } else if key == "cap"@ {
        RetryView { cap: Some(val), ..c }
    } else if key == "delay"@ {
        RetryView { delay: Some(val), ..c }
    } else if key == "step"@ {
        RetryView { step: Some(val), ..c }
    } else if key == "jitter"@ {
        RetryView { jitter: Some(val), ..c }
    } else {
        c
    }
}

/// The first `n` entries of a `retry` block applied to `c`.
pub open spec fn retry_fold(c: RetryView, items: Seq<DirectiveOrBlock>, n: int, vars: VarTable, host: HostInputs) -> RetryView
    decreases n,
{
    if n <= 0 {
        c
    } else {
        let prev = retry_fold(c, items, n - 1, vars, host);
        match items[n - 1] {
            DirectiveOrBlock::Directive(d) => retry_step(prev, d, vars, host),
            _ => prev,
        }
    }
}

/// A `retry [strategy] { }` block layered over the inherited config: the
/// qualifier replaces the strategy, each directive the field it names.
pub open spec fn spec_retry_block(block: crate::ast::NamedBlock, vars: VarTable, host: HostInputs, base: RetryView) -> RetryView {
    let c = match block.qualifier {
        Some(q) => RetryView { strategy: q.value@, ..base },
        None => base,
    };
    retry_fold(c, block.directives@, block.directives@.len() as int, vars, host)
}

/// Whether `key` is a `retry` setting written as text: `base`, `cap`,
/// `delay`, `step` or `jitter`.
pub open spec fn is_retry_text_key(key: Seq<char>) -> bool {
    key == "base"@ || key == "cap"@ || key == "delay"@ || key == "step"@ || key == "jitter"@
}

/// The retry setting that a text key names.
pub open spec fn retry_setting(r: RetryView, key: Seq<char>) -> Option<Seq<char>> {
    if key == "base"@ {
        r.base
    } else if key == "cap"@ {
        r.cap
    } else if key == "delay"@ {
        r.delay
    } else if key == "step"@ {
        r.step
    } else {
        r.jitter
    }
}

/// Whether an entry is a directive with the key `key`.
pub open spec fn sets_key(e: DirectiveOrBlock, key: Seq<char>) -> bool {
    e matches DirectiveOrBlock::Directive(d) && d.key.value@ == key
}

proof fn lemma_retry_keys_differ()
    ensures
        "max_attempts"@ != "base"@ && "max_attempts"@ != "cap"@ && "max_attempts"@ != "delay"@
            && "max_attempts"@ != "step"@ && "max_attempts"@ != "jitter"@,
        "base"@ != "cap"@ && "base"@ != "delay"@ && "base"@ != "step"@ && "base"@ != "jitter"@,
        "cap"@ != "delay"@ && "cap"@ != "step"@ && "cap"@ != "jitter"@,
        "delay"@ != "step"@ && "delay"@ != "jitter"@,
        "step"@ != "jitter"@,
{
    reveal_strlit("max_attempts");
    reveal_strlit("base");
    reveal_strlit("cap");
    reveal_strlit("delay");
    reveal_strlit("step");
    reveal_strlit("jitter");
    assert("max_attempts"@.len() == 12 && "base"@.len() == 4 && "cap"@.len() == 3);
    assert("delay"@.len() == 5 && "step"@.len() == 4 && "jitter"@.len() == 6);
    assert("base"@[0] == 'b' && "step"@[0] == 's');
}

/// One directive of a `retry` block sets the text setting it names to its
/// argument and leaves every other setting, the strategy and the attempt
/// count as they were.
pub proof fn lemma_retry_directive_sets_only_its_setting(c: RetryView, d: Directive, vars: VarTable, host: HostInputs, key: Seq<char>)
    requires
        is_retry_text_key(key),
        d.args@.len() > 0,
        !d.args@[0].is_placeholder,
    ensures
        ({
            let r = retry_step(c, d, vars, host);
            &&& d.key.value@ == key ==> retry_setting(r, key) == Some(d.args@[0].value@)
            &&& d.key.value@ != key ==> retry_setting(r, key) == retry_setting(c, key)
            &&& is_retry_text_key(d.key.value@) ==> r.strategy == c.strategy && r.max_attempts == c.max_attempts
        }),
{
    lemma_retry_keys_differ();
}

/// A `max_attempts` directive whose argument is a number sets the attempt
/// count to it, and one whose argument is not leaves it; either way the
/// strategy and every text setting stay as they were.
pub proof fn lemma_retry_max_attempts(c: RetryView, d: Directive, vars: VarTable, host: HostInputs)
    requires
        d.key.value@ == "max_attempts"@,
        d.args@.len() > 0,
        !d.args@[0].is_placeholder,
    ensures
        ({
            let r = retry_step(c, d, vars, host);
            &&& r.max_attempts == match crate::calendar_args::parse_u32_spec(d.args@[0].value@) {
                Some(n) => n,
                None => c.max_attempts,
            }
            &&& r.strategy == c.strategy && r.base == c.base && r.cap == c.cap
            &&& r.delay == c.delay && r.step == c.step && r.jitter == c.jitter
        }),
{
}

proof fn lemma_retry_fold_setting(c: RetryView, items: Seq<DirectiveOrBlock>, n: int, vars: VarTable, host: HostInputs, key: Seq<char>)
    requires
        is_retry_text_key(key),
        0 <= n <= items.len(),
    ensures
        (forall|m: int| 0 <= m < n ==> !sets_key(#[trigger] items[m], key)) ==> retry_setting(retry_fold(c, items, n, vars, host), key)
            == retry_setting(c, key),
        forall|j: int| 0 <= j < n && (#[trigger] items[j] matches DirectiveOrBlock::Directive(d) && d.key.value@ == key
            && d.args@.len() > 0 && !d.args@[0].is_placeholder) && (forall|m: int| j < m < n ==> !sets_key(#[trigger] items[m], key))
            ==> retry_setting(retry_fold(c, items, n, vars, host), key) == Some(items[j]->Directive_0.args@[0].value@),
    decreases n,
{
    lemma_retry_keys_differ();
    if n > 0 {
        lemma_retry_fold_setting(c, items, n - 1, vars, host, key);
        let prev = retry_fold(c, items, n - 1, vars, host);
        match items[n - 1] {
            DirectiveOrBlock::Directive(d) => {
                let r = retry_step(prev, d, vars, host);
                if d.key.value@ != key {
                    assert(retry_setting(r, key) == retry_setting(prev, key));
                } else {
                    let val = match spec_first_arg(d, vars, host) {
                        Some(v) => v,
                        None => Seq::<char>::empty(),
                    };
                    assert(retry_setting(r, key) == Some(val));
                }
            },
            _ => {},
        }
        assert forall|j: int| 0 <= j < n && (#[trigger] items[j] matches DirectiveOrBlock::Directive(d) && d.key.value@ == key
            && d.args@.len() > 0 && !d.args@[0].is_placeholder) && (forall|m: int| j < m < n ==> !sets_key(#[trigger] items[m], key))
            implies retry_setting(retry_fold(c, items, n, vars, host), key) == Some(items[j]->Directive_0.args@[0].value@) by {
            if j < n - 1 {
                assert(!sets_key(items[n - 1], key));
                assert forall|m: int| j < m < n - 1 implies !sets_key(#[trigger] items[m], key) by {
                    assert(j < m < n);
                }
            }
        }
        if forall|m: int| 0 <= m < n ==> !sets_key(#[trigger] items[m], key) {
            assert(!sets_key(items[n - 1], key));
            assert forall|m: int| 0 <= m < n - 1 implies !sets_key(#[trigger] items[m], key) by {
                assert(0 <= m < n);
            }
        }
    }
}

/// In a compiled `retry` block each text setting (`base`, `cap`, `delay`,
/// `step`, `jitter`) is the argument of the last directive that names it,
/// and is inherited when no directive names it; the strategy is the
/// block's qualifier, or inherited when it has none.
pub proof fn lemma_retry_block_settings(block: crate::ast::NamedBlock, vars: VarTable, host: HostInputs, base: RetryView, key: Seq<char>)
    requires
        is_retry_text_key(key),
    ensures
        ({
            let r = spec_retry_block(block, vars, host, base);
            let ds = block.directives@;
            &&& (forall|m: int| 0 <= m < ds.len() ==> !sets_key(#[trigger] ds[m], key)) ==> retry_setting(r, key)
                == retry_setting(base, key)
            &&& forall|j: int| 0 <= j < ds.len() && (#[trigger] ds[j] matches DirectiveOrBlock::Directive(d) && d.key.value@ == key
                && d.args@.len() > 0 && !d.args@[0].is_placeholder) && (forall|m: int| j < m < ds.len() ==> !sets_key(#[trigger] ds[m], key))
                ==> retry_setting(r, key) == Some(ds[j]->Directive_0.args@[0].value@)
            &&& r.strategy == match block.qualifier {
                Some(q) => q.value@,
                None => base.strategy,
            }
        }),
{
    let c = match block.qualifier {
        Some(q) => RetryView { strategy: q.value@, ..base },
        None => base,
    };
    lemma_retry_fold_setting(c, block.directives@, block.directives@.len() as int, vars, host, key);
    lemma_retry_fold_strategy(c, block.directives@, block.directives@.len() as int, vars, host);
}

proof fn lemma_retry_fold_strategy(c: RetryView, items: Seq<DirectiveOrBlock>, n: int, vars: VarTable, host: HostInputs)
    requires
        0 <= n <= items.len(),
    ensures
        retry_fold(c, items, n, vars, host).strategy == c.strategy,
    decreases n,
{
    if n > 0 {
        lemma_retry_fold_strategy(c, items, n - 1, vars, host);
    }
}

/// Compile a `retry [strategy] { }` block over the inherited value.
pub fn compile_retry_block(
    block: &crate::ast::NamedBlock,
    vars: &Vec<(String, String)>,
    host: &HostInputs,
    base: RetryConfig,
) -> (c: RetryConfig)
    ensures
        retry_view(c) == spec_retry_block(*block, pairs_view(vars@), *host, retry_view(base)),
{
    let mut cfg = base;
    match &block.qualifier {
        Some(q) => {
            cfg.strategy = q.value.clone();
        },
        None => {},
    }
    let ghost c0 = retry_view(cfg);
    let mut i: usize = 0;
    while i < block.directives.len()
        invariant
            i <= block.directives@.len(),
            retry_view(cfg) == retry_fold(c0, block.directives@, i as int, pairs_view(vars@), *host),
        decreases block.directives@.len() - i,
    {
        match &block.directives[i] {
            DirectiveOrBlock::Directive(d) => {
                let val = match first_arg(d, vars, host) {
                    Some(v) => v,
                    None => String::new(),
                };
                let key = d.key.value.as_str();
                if str_eq(key, "max_attempts") {
                    let vc = chars_of(val.as_str());
                    match crate::text::parse_u32(vc.as_slice()) {
                        Some(n) => {
                            cfg.max_attempts = n;
                        },
                        None => {},
                    }
                } else if str_eq(key, "base") {
                    cfg.base = Some(val);
                } else if str_eq(key, "cap") {
                    cfg.cap = Some(val);
                } else if str_eq(key, "delay") {
                    cfg.delay = Some(val);
                } else if str_eq(key, "step") {
                    cfg.step = Some(val);
                } else if str_eq(key, "jitter") {
                    cfg.jitter = Some(val);
                }
            },
            _ => {},
        }
        i = i + 1;
    }
    cfg
}

/// One directive of a `dead_letter` block applied to the config so far.
pub open spec fn dead_letter_step(c: DeadLetterView, d: Directive, vars: VarTable, host: HostInputs) -> DeadLetterView {
    let key = d.key.value@;
    let a = spec_first_arg(d, vars, host);
    if key == "enabled"@ {
        match a {
            Some(v) => match spec_parse_bool(v) {
                Some(b) => DeadLetterView { enabled: b, ..c },
                None => c,
            },
            None => c,
        }
    } else if key == "retention"@ {
        DeadLetterView { retention: a, ..c }
    } else if key == "operator_hint"@ {
        DeadLetterView { operator_hint: a, ..c }
    } else if key == "replay_max_age"@ {
        DeadLetterView { replay_max_age: a, ..c }
    } else {
        c
    }
}

/// The first `n` entries of a `dead_letter` block applied to `c`.
pub open spec fn dead_letter_fold(c: DeadLetterView, items: Seq<DirectiveOrBlock>, n: int, vars: VarTable, host: HostInputs) -> DeadLetterView
    decreases n,
{
    if n <= 0 {
        c
    } else {
        let prev = dead_letter_fold(c, items, n - 1, vars, host);
        match items[n - 1] {
            DirectiveOrBlock::Directive(d) => dead_letter_step(prev, d, vars, host),
            _ => prev,
        }
    }
}

/// Compile a `dead_letter { }` block over the inherited value: each
/// directive replaces the field it names (an unrecognised `enabled` value
/// keeps the inherited flag).
pub fn compile_dead_letter_block(
    block: &crate::ast::NamedBlock,
    vars: &Vec<(String, String)>,
    host: &HostInputs,
    base: DeadLetterConfig,
) -> (c: DeadLetterConfig)
    ensures
        dead_letter_view(c) == dead_letter_fold(
            dead_letter_view(base),
            block.directives@,
            block.directives@.len() as int,
            pairs_view(vars@),
            *host,
        ),
{
    let mut cfg = base;
    let ghost c0 = dead_letter_view(cfg);
    let mut i: usize = 0;
    while i < block.directives.len()
        invariant
            i <= block.directives@.len(),
            dead_letter_view(cfg) == dead_letter_fold(c0, block.directives@, i as int, pairs_view(vars@), *host),
        decreases block.directives@.len() - i,
    {
        match &block.directives[i] {
            DirectiveOrBlock::Directive(d) => {
                let key = d.key.value.as_str();
                if str_eq(key, "enabled") {
                    match first_arg(d, vars, host) {
                        Some(v) => match parse_bool(v.as_str()) {
                            Some(b) => {
                                cfg.enabled = b;
                            },
                            None => {},
                        },
                        None => {},
                    }
                } else if str_eq(key, "retention") {
                    cfg.retention = first_arg(d, vars, host);
                } else if str_eq(key, "operator_hint") {
                    cfg.operator_hint = first_arg(d, vars, host);
                } else if str_eq(key, "replay_max_age") {
                    cfg.replay_max_age = first_arg(d, vars, host);
                }
            },
            _ => {},
        }
        i = i + 1;
    }
    cfg
}

/// `CalendarConfig` as plain values: name, time zone, and each rule as
/// kind, type and resolved arguments.
#[verifier::ext_equal]
pub struct CalendarView {
    pub name: Seq<char>,
    pub timezone: Option<Seq<char>>,
    pub rules: Seq<(Seq<char>, Seq<char>, Seq<Seq<char>>)>,
}

pub open spec fn calendar_view(c: CalendarConfig) -> CalendarView {
    CalendarView {
        name: c.name@,
        timezone: opt_view(c.timezone),
        rules: c.rules@.map_values(
            |r: CalendarRuleConfig| (r.kind@, r.rule_type@, strings_view(r.args@)),
        ),
    }
}

/// The resolved values of the first `n` arguments.
pub open spec fn resolved_args(args: Seq<StringValue>, n: int, vars: VarTable, host: HostInputs) -> Seq<Seq<char>>
    decreases n,
{
    if n <= 0 {
        Seq::empty()
    } else {
        resolved_args(args, n - 1, vars, host).push(spec_resolve_str(args[n - 1], vars, host))
    }
}

/// The first `n` rules of a calendar compiled: a `timezone` rule sets the
/// zone from its first argument (or clears it), every other rule is kept
/// with its arguments resolved.
pub open spec fn calendar_fold(rules: Seq<crate::ast::CalendarRule>, n: int, vars: VarTable, host: HostInputs) -> (
    Option<Seq<char>>,
    Seq<(Seq<char>, Seq<char>, Seq<Seq<char>>)>,
)
    decreases n,
{
    if n <= 0 {
        (None, Seq::empty())
    } else {
        let (tz, rs) = calendar_fold(rules, n - 1, vars, host);
        let r = rules[n - 1];
        if r.rule_type.value@ == "timezone"@ {
            (if r.args@.len() > 0 {
                Some(spec_resolve_str(r.args@[0], vars, host))
            } else {
                None
            }, rs)
        } else {
            (
                tz,
                rs.push(
                    (
                        match r.kind {
                            CalendarRuleKind::Include => "include"@,
                            CalendarRuleKind::Exclude => "exclude"@,
                        },
                        r.rule_type.value@,
                        resolved_args(r.args@, r.args@.len() as int, vars, host),
                    ),
                ),
            )
        }
    }
}

/// A compiled calendar.
pub open spec fn spec_calendar(cal: CalendarBlock, vars: VarTable, host: HostInputs) -> CalendarView {
    let (tz, rs) = calendar_fold(cal.rules@, cal.rules@.len() as int, vars, host);
    CalendarView { name: cal.name.value@, timezone: tz, rules: rs }
}

/// The resolved values of a list of arguments.
fn resolve_all(args: &Vec<StringValue>, vars: &Vec<(String, String)>, host: &HostInputs) -> (r: Vec<String>)
    ensures
        strings_view(r@) == resolved_args(args@, args@.len() as int, pairs_view(vars@), *host),
{
    let mut r: Vec<String> = Vec::new();
    let mut i: usize = 0;
    assert(strings_view(r@) =~= Seq::<Seq<char>>::empty());
    while i < args.len()
        invariant
            i <= args@.len(),
            strings_view(r@) == resolved_args(args@, i as int, pairs_view(vars@), *host),
        decreases args@.len() - i,
    {
        let v = resolve_str(&args[i], vars, host);
        let ghost before = r@;
        let ghost vv = v@;
        r.push(v);
        assert(strings_view(r@) =~= strings_view(before).push(vv));
        i = i + 1;
    }
    r
}

/// Compile a calendar block.
pub fn compile_calendar(cal: &CalendarBlock, vars: &Vec<(String, String)>, host: &HostInputs) -> (c: CalendarConfig)
    ensures
        calendar_view(c) == spec_calendar(*cal, pairs_view(vars@), *host),
{
    let mut timezone: Option<String> = None;
    let mut rules: Vec<CalendarRuleConfig> = Vec::new();
    let ghost rv = |r: CalendarRuleConfig| (r.kind@, r.rule_type@, strings_view(r.args@));
    let mut i: usize = 0;
    assert(rules@.map_values(rv) =~= Seq::<(Seq<char>, Seq<char>, Seq<Seq<char>>)>::empty());
    while i < cal.rules.len()
        invariant
            i <= cal.rules@.len(),
            rv == (|r: CalendarRuleConfig| (r.kind@, r.rule_type@, strings_view(r.args@))),
            (opt_view(timezone), rules@.map_values(rv)) == calendar_fold(
                cal.rules@,
                i as int,
                pairs_view(vars@),
                *host,
            ),
        decreases cal.rules@.len() - i,
    {
        let rule = &cal.rules[i];
        if str_eq(rule.rule_type.value.as_str(), "timezone") {
            timezone = if rule.args.len() > 0 {
                Some(resolve_str(&rule.args[0], vars, host))
            } else {
                None
            };
        } else {
            let kind = match rule.kind {
                CalendarRuleKind::Include => owned("include"),
                CalendarRuleKind::Exclude => owned("exclude"),
            };
            let args = resolve_all(&rule.args, vars, host);
            let ghost before = rules@;
            let rc = CalendarRuleConfig { kind, rule_type: rule.rule_type.value.clone(), args };
            let ghost rcv = rv(rc);
            rules.push(rc);
            assert(rules@.map_values(rv) =~= before.map_values(rv).push(rcv));
        }
        i = i + 1;
    }
    CalendarConfig { name: cal.name.value.clone(), timezone, rules }
}

/// `RunnerConfig` as plain values.
#[verifier::ext_equal]
pub struct RunnerView {
    pub require: Seq<Seq<char>>,
    pub prefer: Seq<Seq<char>>,
    pub exclude: Seq<Seq<char>>,
    pub sticky: bool,
}

pub open spec fn runner_view(c: RunnerConfig) -> RunnerView {
    RunnerView {
        require: strings_view(c.require@),
        prefer: strings_view(c.prefer@),
        exclude: strings_view(c.exclude@),
        sticky: c.sticky,
    }
}

/// The first `n` entries of a `runner { }` block: each `require`,
/// `prefer` and `exclude` adds its first argument (empty when missing),
/// `sticky` sets the flag.
pub open spec fn runner_fold(items: Seq<DirectiveOrBlock>, n: int, vars: VarTable, host: HostInputs) -> RunnerView
    decreases n,
{
    if n <= 0 {
        RunnerView { require: Seq::empty(), prefer: Seq::empty(), exclude: Seq::empty(), sticky: false }
    } else {
        let c = runner_fold(items, n - 1, vars, host);
        match items[n - 1] {
            DirectiveOrBlock::Directive(d) => {
                let val = match spec_first_arg(d, vars, host) {
                    Some(v) => v,
                    None => Seq::empty(),
                };
                let key = d.key.value@;
                if key == "require"@ {
                    RunnerView { require: c.require.push(val), ..c }
                } else if key == "prefer"@ {
                    RunnerView { prefer: c.prefer.push(val), ..c }
                } else if key == "exclude"@ {
                    RunnerView { exclude: c.exclude.push(val), ..c }
                } else if key == "sticky"@ {
                    RunnerView { sticky: true, ..c }
                } else {
                    c
                }
            },
            _ => c,
        }
    }
}

/// Compile an unqualified `runner { }` block.
pub fn compile_runner_block(block: &crate::ast::NamedBlock, vars: &Vec<(String, String)>, host: &HostInputs) -> (c: RunnerConfig)
    ensures
        runner_view(c) == runner_fold(block.directives@, block.directives@.len() as int, pairs_view(vars@), *host),
{
    let mut cfg = RunnerConfig { require: Vec::new(), prefer: Vec::new(), exclude: Vec::new(), sticky: false };
    assert(runner_view(cfg) =~= runner_fold(block.directives@, 0, pairs_view(vars@), *host));
    let mut i: usize = 0;
    while i < block.directives.len()
        invariant
            i <= block.directives@.len(),
            runner_view(cfg) == runner_fold(block.directives@, i as int, pairs_view(vars@), *host),
        decreases block.directives@.len() - i,
    {
        match &block.directives[i] {
            DirectiveOrBlock::Directive(d) => {
                let val = match first_arg(d, vars, host) {
                    Some(v) => v,
                    None => String::new(),
                };
                let ghost vv = val@;
                let key = d.key.value.as_str();
                if str_eq(key, "require") {
                    let ghost b = cfg.require@;
                    cfg.require.push(val);
                    assert(strings_view(cfg.require@) =~= strings_view(b).push(vv));
                } else if str_eq(key, "prefer") {
                    let ghost b = cfg.prefer@;
                    cfg.prefer.push(val);
                    assert(strings_view(cfg.prefer@) =~= strings_view(b).push(vv));
                } else if str_eq(key, "exclude") {
                    let ghost b = cfg.exclude@;
                    cfg.exclude.push(val);
                    assert(strings_view(cfg.exclude@) =~= strings_view(b).push(vv));
                } else if str_eq(key, "sticky") {
                    cfg.sticky = true;
                }
            },
            _ => {},
        }
        i = i + 1;
        assert(runner_view(cfg) =~= runner_fold(block.directives@, i as int, pairs_view(vars@), *host));
    }
    cfg
}

// ─── Runner execution payloads ───────────────────────────────────────────────

/// `RunnerExec` as plain values: a shell command, or an argv for direct
/// exec, with the working directory, user and environment.
#[verifier::ext_equal]
pub struct ExecView {
    pub shell: bool,
    pub command: Seq<char>,
    pub argv: Seq<Seq<char>>,
    pub workdir: Option<Seq<char>>,
    pub user: Option<Seq<char>>,
    pub env: VarTable,
}

pub open spec fn exec_view(e: RunnerExec) -> ExecView {
    match e {
        RunnerExec::Shell { command, workdir, user, env } => ExecView {
            shell: true,
            command: command@,
            argv: Seq::empty(),
            workdir: opt_view(workdir),
            user: opt_view(user),
            env: pairs_view(env@),
        },
        RunnerExec::Exec { argv, workdir, user, env } => ExecView {
            shell: false,
            command: Seq::empty(),
            argv: strings_view(argv@),
            workdir: opt_view(workdir),
            user: opt_view(user),
            env: pairs_view(env@),
        },
    }
}

/// What the walk over a `runner shell|exec` block has collected.
#[verifier::ext_equal]
pub struct ExecParts {
    pub command: Option<Seq<char>>,
    pub argv: Seq<Seq<char>>,
    pub workdir: Option<Seq<char>>,
    pub user: Option<Seq<char>>,
    pub env: VarTable,
}

/// The entries of an `env { }` block put into the environment table (an
/// entry without a value is skipped).
pub open spec fn env_fold(items: Seq<DirectiveOrBlock>, n: int, env: VarTable, vars: VarTable, host: HostInputs) -> VarTable
    decreases n,
{
    if n <= 0 {
        env
    } else {
        let e = env_fold(items, n - 1, env, vars, host);
        match items[n - 1] {
            DirectiveOrBlock::Directive(d) => match spec_first_arg(d, vars, host) {
                Some(v) => table_insert(e, d.key.value@, v),
                None => e,
            },
            _ => e,
        }
    }
}

/// The walk over the first `n` entries of a `runner shell|exec` block:
/// `command`, `workdir` and `user` take their first argument (or none),
/// `args` takes all its arguments, `env { }` blocks fill the environment.
pub open spec fn exec_parts(items: Seq<DirectiveOrBlock>, n: int, vars: VarTable, host: HostInputs) -> ExecParts
    decreases n,
{
    if n <= 0 {
        ExecParts { command: None, argv: Seq::empty(), workdir: None, user: None, env: Seq::empty() }
    } else {
        let p = exec_parts(items, n - 1, vars, host);
        match items[n - 1] {
            DirectiveOrBlock::Directive(d) => {
                let key = d.key.value@;
                if key == "command"@ {
                    ExecParts { command: spec_first_arg(d, vars, host), ..p }
                } else if key == "args"@ {
                    ExecParts { argv: resolved_args(d.args@, d.args@.len() as int, vars, host), ..p }
                } else if key == "workdir"@ {
                    ExecParts { workdir: spec_first_arg(d, vars, host), ..p }
                } else if key == "user"@ {
                    ExecParts { user: spec_first_arg(d, vars, host), ..p }
                } else {
                    p
                }
            },
            DirectiveOrBlock::Block(inner) => if inner.name.value@ == "env"@ {
                ExecParts {
                    env: env_fold(inner.directives@, inner.directives@.len() as int, p.env, vars, host),
                    ..p
                }
            } else {
                p
            },
            _ => p,
        }
    }
}

/// The payload of a qualified runner block: a shell command when the block
/// is `runner shell` and has `command`, an argv when it is `runner exec`
/// and has a non-empty `args`, nothing otherwise.
pub open spec fn spec_runner_exec(block: crate::ast::NamedBlock, vars: VarTable, host: HostInputs) -> Option<ExecView> {
    match block.qualifier {
        None => None,
        Some(q) => {
            let p = exec_parts(block.directives@, block.directives@.len() as int, vars, host);
            if q.value@ == "shell"@ {
                match p.command {
                    Some(c) => Some(
                        ExecView { shell: true, command: c, argv: Seq::empty(), workdir: p.workdir, user: p.user, env: p.env },
                    ),
                    None => None,
                }
            } else if q.value@ == "exec"@ {
                if p.argv.len() == 0 {
                    None
                } else {
                    Some(
                        ExecView { shell: false, command: Seq::empty(), argv: p.argv, workdir: p.workdir, user: p.user, env: p.env },
                    )
                }
            } else {
                None
            }
        },
    }
}

/// Compile a qualified `runner shell { }` or `runner exec { }` block into
/// its payload; `None` when the directive its kind needs is missing.
pub fn compile_runner_exec_block(
    block: &crate::ast::NamedBlock,
    vars: &Vec<(String, String)>,
    host: &HostInputs,
) -> (r: Option<RunnerExec>)
    ensures
        match r {
            Some(e) => spec_runner_exec(*block, pairs_view(vars@), *host) == Some(exec_view(e)),
            None => spec_runner_exec(*block, pairs_view(vars@), *host) is None,
        },
{
    let kind = match &block.qualifier {
        Some(q) => q.value.as_str(),
        None => {
            return None;
        },
    };
    let mut command: Option<String> = None;
    let mut argv: Vec<String> = Vec::new();
    let mut workdir: Option<String> = None;
    let mut user: Option<String> = None;
    let mut env: Vec<(String, String)> = Vec::new();
    assert(strings_view(argv@) =~= Seq::<Seq<char>>::empty());
    assert(pairs_view(env@) =~= Seq::<(Seq<char>, Seq<char>)>::empty());
    let mut i: usize = 0;
    while i < block.directives.len()
        invariant
            i <= block.directives@.len(),
            (ExecParts {
                command: opt_view(command),
                argv: strings_view(argv@),
                workdir: opt_view(workdir),
                user: opt_view(user),
                env: pairs_view(env@),
            }) == exec_parts(block.directives@, i as int, pairs_view(vars@), *host),
        decreases block.directives@.len() - i,
    {
        match &block.directives[i] {
            DirectiveOrBlock::Directive(d) => {
                let key = d.key.value.as_str();
                if str_eq(key, "command") {
                    command = first_arg(d, vars, host);
                } else if str_eq(key, "args") {
                    argv = resolve_all(&d.args, vars, host);
                } else if str_eq(key, "workdir") {
                    workdir = first_arg(d, vars, host);
                } else if str_eq(key, "user") {
                    user = first_arg(d, vars, host);
                }
            },
            DirectiveOrBlock::Block(inner) => {
                if str_eq(inner.name.value.as_str(), "env") {
                    let ghost e0 = pairs_view(env@);
                    let mut j: usize = 0;
                    while j < inner.directives.len()
                        invariant
                            j <= inner.directives@.len(),
                            pairs_view(env@) == env_fold(inner.directives@, j as int, e0, pairs_view(vars@), *host),
                        decreases inner.directives@.len() - j,
                    {
                        match &inner.directives[j] {
                            DirectiveOrBlock::Directive(d) => match first_arg(d, vars, host) {
                                Some(v) => insert_pair(&mut env, d.key.value.clone(), v),
                                None => {},
                            },
                            _ => {},
                        }
                        j = j + 1;
                    }
                }
            },
            _ => {},
        }
        i = i + 1;
        assert((ExecParts {
            command: opt_view(command),
            argv: strings_view(argv@),
            workdir: opt_view(workdir),
            user: opt_view(user),
            env: pairs_view(env@),
        }) =~= exec_parts(block.directives@, i as int, pairs_view(vars@), *host));
    }
    if str_eq(kind, "shell") {
        match command {
            Some(command) => Some(RunnerExec::Shell { command, workdir, user, env }),
            None => None,
        }
    } else if str_eq(kind, "exec") {
        if argv.len() == 0 {
            None
        } else {
            let r = RunnerExec::Exec { argv, workdir, user, env };
            assert(exec_view(r) =~= (ExecView {
                shell: false,
                command: Seq::empty(),
                argv: exec_parts(block.directives@, block.directives@.len() as int, pairs_view(vars@), *host).argv,
                workdir: exec_parts(block.directives@, block.directives@.len() as int, pairs_view(vars@), *host).workdir,
                user: exec_parts(block.directives@, block.directives@.len() as int, pairs_view(vars@), *host).user,
                env: exec_parts(block.directives@, block.directives@.len() as int, pairs_view(vars@), *host).env,
            }));
            Some(r)
        }
    } else {
        None
    }
}

// ─── JSON encoding of the payload ────────────────────────────────────────────

/// A character inside a JSON string: quote and backslash escaped, the
/// control characters as `\b \t \n \f \r` or `\u00xx`, everything else
/// as it is.
pub open spec fn json_char(c: char) -> Seq<char> {
    if c == '"' {
        seq!['\\', '"']
    } else if c == '\\' {
        seq!['\\', '\\']
    } else if c == '\u{8}' {
        seq!['\\', 'b']
    } else if c == '\t' {
        seq!['\\', 't']
    } else if c == '\n' {
        seq!['\\', 'n']
    } else if c == '\u{c}' {
        seq!['\\', 'f']
    } else if c == '\r' {
        seq!['\\', 'r']
    } else if (c as u32) < 0x20 {
        seq!['\\', 'u', '0', '0', crate::auth::hex_digit(((c as u32) / 16) as u8), crate::auth::hex_digit(((c as u32) % 16) as u8)]
    } else {
        seq![c]
    }
}

/// The escaped characters of a JSON string body.
pub open spec fn json_escape(s: Seq<char>) -> Seq<char>
    decreases s.len(),
{
    if s.len() == 0 {
        Seq::empty()
    } else {
        json_escape(s.drop_last()) + json_char(s.last())
    }
}

/// A JSON string literal.
pub open spec fn json_str(s: Seq<char>) -> Seq<char> {
    seq!['"'] + json_escape(s) + seq!['"']
}

/// The first `n` strings as JSON string literals separated by commas.
pub open spec fn json_list(v: Seq<Seq<char>>, n: int) -> Seq<char>
    decreases n,
{
    if n <= 0 {
        Seq::empty()
    } else {
        json_list(v, n - 1) + (if n > 1 {
            seq![',']
        } else {
            Seq::empty()
        }) + json_str(v[n - 1])
    }
}

/// The first `n` table entries as JSON members separated by commas.
pub open spec fn json_members(t: VarTable, n: int) -> Seq<char>
    decreases n,
{
    if n <= 0 {
        Seq::empty()
    } else {
        json_members(t, n - 1) + (if n > 1 {
            seq![',']
        } else {
            Seq::empty()
        }) + json_str(t[n - 1].0) + seq![':'] + json_str(t[n - 1].1)
    }
}

/// The JSON form of a payload: an object tagged by `kind`, then `command`
/// or `argv`, then `workdir`, `user` and `env` where they are set.
pub open spec fn exec_json(e: ExecView) -> Seq<char> {
    "{\"kind\":"@ + (if e.shell {
        "\"shell\",\"command\":"@ + json_str(e.command)
    } else {
        "\"exec\",\"argv\":["@ + json_list(e.argv, e.argv.len() as int) + "]"@
    }) + (match e.workdir {
        Some(w) => ",\"workdir\":"@ + json_str(w),
        None => Seq::empty(),
    }) + (match e.user {
        Some(u) => ",\"user\":"@ + json_str(u),
        None => Seq::empty(),
    }) + (if e.env.len() > 0 {
        ",\"env\":{"@ + json_members(e.env, e.env.len() as int) + "}"@
    } else {
        Seq::empty()
    }) + "}"@
}

/// Appends `s` as a JSON string literal.
pub(crate) fn push_json_str(out: &mut String, s: &str)
    ensures
        final(out)@ == old(out)@ + json_str(s@),
{
    let cs = chars_of(s);
    crate::text::push_char(out, '"');
    let ghost base = out@;
    let mut i: usize = 0;
    while i < cs.len()
        invariant
            i <= cs@.len(),
            cs@ == s@,
            out@ == base + json_escape(cs@.take(i as int)),
        decreases cs@.len() - i,
    {
        let c = cs[i];
        if c == '"' {
            crate::text::push_char(out, '\\');
            crate::text::push_char(out, '"');
        } else if c == '\\' {
            crate::text::push_char(out, '\\');
            crate::text::push_char(out, '\\');
        } else if c == '\u{8}' {
            crate::text::push_char(out, '\\');
            crate::text::push_char(out, 'b');
        } else if c == '\t' {
            crate::text::push_char(out, '\\');
            crate::text::push_char(out, 't');
        } else if c == '\n' {
            crate::text::push_char(out, '\\');
            crate::text::push_char(out, 'n');
        } else if c == '\u{c}' {
            crate::text::push_char(out, '\\');
            crate::text::push_char(out, 'f');
        } else if c == '\r' {
            crate::text::push_char(out, '\\');
            crate::text::push_char(out, 'r');
        } else if (c as u32) < 0x20 {
            let v = c as u32;
            crate::text::push_char(out, '\\');
            crate::text::push_char(out, 'u');
            crate::text::push_char(out, '0');
            crate::text::push_char(out, '0');
            crate::text::push_char(out, hex_char((v / 16) as u8));
            crate::text::push_char(out, hex_char((v % 16) as u8));
        } else {
            crate::text::push_char(out, c);
        }
        i = i + 1;
        assert(cs@.take(i as int).drop_last() =~= cs@.take((i - 1) as int));
        assert(out@ =~= base + json_escape(cs@.take(i as int)));
    }
    assert(cs@.take(cs@.len() as int) =~= cs@);
    crate::text::push_char(out, '"');
    assert(final(out)@ =~= old(out)@ + json_str(s@));
}

/// The lower-case hex digit of a value below sixteen.
fn hex_char(v: u8) -> (c: char)
    requires
        v < 16,
    ensures
        c == crate::auth::hex_digit(v),
{
    if v < 10 {
        ((v + 48) as u8) as char
    } else {
        ((v + 87) as u8) as char
    }
}

/// Appends the strings as JSON string literals separated by commas.
pub(crate) fn push_json_list(out: &mut String, v: &[String])
    ensures
        final(out)@ == old(out)@ + json_list(strings_view(v@), v@.len() as int),
{
    let ghost base = out@;
    let mut i: usize = 0;
    while i < v.len()
        invariant
            i <= v@.len(),
            out@ == base + json_list(strings_view(v@), i as int),
        decreases v@.len() - i,
    {
        if i > 0 {
            crate::text::push_char(out, ',');
        }
        push_json_str(out, v[i].as_str());
        i = i + 1;
        assert(out@ =~= base + json_list(strings_view(v@), i as int));
    }
}

/// Appends the entries as JSON members separated by commas.
pub(crate) fn push_json_members(out: &mut String, t: &Vec<(String, String)>)
    ensures
        final(out)@ == old(out)@ + json_members(pairs_view(t@), t@.len() as int),
{
    let ghost base = out@;
    let mut i: usize = 0;
    while i < t.len()
        invariant
            i <= t@.len(),
            out@ == base + json_members(pairs_view(t@), i as int),
        decreases t@.len() - i,
    {
        if i > 0 {
            crate::text::push_char(out, ',');
        }
        push_json_str(out, t[i].0.as_str());
        crate::text::push_char(out, ':');
        push_json_str(out, t[i].1.as_str());
        i = i + 1;
        assert(out@ =~= base + json_members(pairs_view(t@), i as int));
    }
}

/// Appends the optional `workdir`, `user` and `env` members.
fn push_exec_tail(out: &mut String, workdir: &Option<String>, user: &Option<String>, env: &Vec<(String, String)>)
    ensures
        final(out)@ == old(out)@ + (match opt_view(*workdir) {
            Some(w) => ",\"workdir\":"@ + json_str(w),
            None => Seq::empty(),
        }) + (match opt_view(*user) {
            Some(u) => ",\"user\":"@ + json_str(u),
            None => Seq::empty(),
        }) + (if env@.len() > 0 {
            ",\"env\":{"@ + json_members(pairs_view(env@), env@.len() as int) + "}"@
        } else {
            Seq::empty()
        }),
{
    let ghost s0 = out@;
    match workdir {
        Some(w) => {
            push_str(out, ",\"workdir\":");
            push_json_str(out, w.as_str());
        },
        None => {},
    }
    let ghost s1 = out@;
    match user {
        Some(u) => {
            push_str(out, ",\"user\":");
            push_json_str(out, u.as_str());
        },
        None => {},
    }
    let ghost s2 = out@;
    if env.len() > 0 {
        push_str(out, ",\"env\":{");
        push_json_members(out, env);
        push_str(out, "}");
    }
    assert(out@ =~= s0 + (s1.subrange(s0.len() as int, s1.len() as int)) + (s2.subrange(s1.len() as int, s2.len() as int)) + out@.subrange(s2.len() as int, out@.len() as int));
}

/// The JSON form of a payload, as carried in job metadata.
pub fn runner_exec_json(e: &RunnerExec) -> (s: String)
    ensures
        s@ == exec_json(exec_view(*e)),
{
    let mut s = String::new();
    push_str(&mut s, "{\"kind\":");
    match e {
        RunnerExec::Shell { command, workdir, user, env } => {
            push_str(&mut s, "\"shell\",\"command\":");
            push_json_str(&mut s, command.as_str());
            push_exec_tail(&mut s, workdir, user, env);
        },
        RunnerExec::Exec { argv, workdir, user, env } => {
            push_str(&mut s, "\"exec\",\"argv\":[");
            push_json_list(&mut s, argv.as_slice());
            push_str(&mut s, "]");
            push_exec_tail(&mut s, workdir, user, env);
        },
    }
    push_str(&mut s, "}");
    assert(s@ =~= exec_json(exec_view(*e)));
    s
}

// ─── Alerts ──────────────────────────────────────────────────────────────────

/// `ChannelKind` as plain values.
pub enum KindView {
    Shell(Seq<char>),
    Webhook(Seq<char>, Option<Seq<char>>, u64),
    Email(Seq<Seq<char>>),
    Unknown(Seq<char>),
}

pub open spec fn kind_view(k: ChannelKind) -> KindView {
    match k {
        ChannelKind::Shell { command } => KindView::Shell(command@),
        ChannelKind::Webhook { url, signing_key, timeout_secs } => KindView::Webhook(
            url@,
            opt_view(signing_key),
            timeout_secs,
        ),
        ChannelKind::Email { recipients } => KindView::Email(strings_view(recipients@)),
        ChannelKind::Unknown { reason } => KindView::Unknown(reason@),
    }
}

/// The channels of an alerts configuration, each as its name and kind.
pub open spec fn channels_view(cs: Seq<ChannelConfig>) -> Seq<(Seq<char>, KindView)> {
    cs.map_values(|c: ChannelConfig| (c.name@, kind_view(c.kind)))
}

/// The resolved values of the first `n` arguments that are not blank.
pub open spec fn nonblank_args(args: Seq<StringValue>, n: int, vars: VarTable, host: HostInputs) -> Seq<Seq<char>>
    decreases n,
{
    if n <= 0 {
        Seq::empty()
    } else {
        let p = nonblank_args(args, n - 1, vars, host);
        let v = spec_resolve_str(args[n - 1], vars, host);
        if trim(v).len() > 0 {
            p.push(v)
        } else {
            p
        }
    }
}

/// The resolved values of the first `n` arguments that are not empty.
pub open spec fn nonempty_args(args: Seq<StringValue>, n: int, vars: VarTable, host: HostInputs) -> Seq<Seq<char>>
    decreases n,
{
    if n <= 0 {
        Seq::empty()
    } else {
        let p = nonempty_args(args, n - 1, vars, host);
        let v = spec_resolve_str(args[n - 1], vars, host);
        if v.len() > 0 {
            p.push(v)
        } else {
            p
        }
    }
}

/// What the walk over a channel block has collected.
#[verifier::ext_equal]
pub struct ChannelParts {
    pub shell: Option<Seq<char>>,
    pub url: Option<Seq<char>>,
    pub signing_key: Option<Seq<char>>,
    pub timeout_secs: u64,
    pub emails: Seq<Seq<char>>,
}

/// One directive of a channel block: `shell` and `webhook` take their
/// first argument, `sign hmac <key>` a non-empty key, `timeout` a
/// duration of at least one second, `email` every non-blank argument.
pub open spec fn channel_step(p: ChannelParts, d: Directive, vars: VarTable, host: HostInputs) -> ChannelParts {
    let key = d.key.value@;
    if key == "shell"@ {
        match spec_first_arg(d, vars, host) {
            Some(v) => ChannelParts { shell: Some(v), ..p },
            None => p,
        }
    } else if key == "webhook"@ {
        match spec_first_arg(d, vars, host) {
            Some(v) => ChannelParts { url: Some(v), ..p },
            None => p,
        }
    } else if key == "sign"@ {
        if d.args@.len() >= 2 && spec_resolve_str(d.args@[0], vars, host) == "hmac"@ && spec_resolve_str(
            d.args@[1],
            vars,
            host,
        ).len() > 0 {
            ChannelParts { signing_key: Some(spec_resolve_str(d.args@[1], vars, host)), ..p }
        } else {
            p
        }
    } else if key == "timeout"@ {
        match spec_first_arg(d, vars, host) {
            Some(v) => match spec_parse_duration_secs(v) {
                Some(secs) => ChannelParts { timeout_secs: if secs < 1 { 1 } else { secs }, ..p },
                None => p,
            },
            None => p,
        }
    } else if key == "email"@ {
        ChannelParts { emails: p.emails + nonblank_args(d.args@, d.args@.len() as int, vars, host), ..p }
    } else {
        p
    }
}

/// The first `n` entries of a channel block.
pub open spec fn channel_fold(items: Seq<DirectiveOrBlock>, n: int, vars: VarTable, host: HostInputs) -> ChannelParts
    decreases n,
{
    if n <= 0 {
        ChannelParts { shell: None, url: None, signing_key: None, timeout_secs: 5, emails: Seq::empty() }
    } else {
        let p = channel_fold(items, n - 1, vars, host);
        match items[n - 1] {
            DirectiveOrBlock::Directive(d) => channel_step(p, d, vars, host),
            _ => p,
        }
    }
}

/// Why a channel has no kind.
pub open spec fn no_kind_reason() -> Seq<char> {
    "no channel kind directive (expected `shell`, `webhook`, or `email`)"@
}

/// A channel's kind: `shell` first, then `webhook`, then `email` with at
/// least one recipient, else unknown.
pub open spec fn spec_channel_kind(block: crate::ast::NamedBlock, vars: VarTable, host: HostInputs) -> KindView {
    let p = channel_fold(block.directives@, block.directives@.len() as int, vars, host);
    match p.shell {
        Some(c) => KindView::Shell(c),
        None => match p.url {
            Some(u) => KindView::Webhook(u, p.signing_key, p.timeout_secs),
            None => if p.emails.len() > 0 {
                KindView::Email(p.emails)
            } else {
                KindView::Unknown(no_kind_reason())
            },
        },
    }
}

/// Appends the resolved arguments that are not blank.
fn push_nonblank(out: &mut Vec<String>, args: &Vec<StringValue>, vars: &Vec<(String, String)>, host: &HostInputs)
    ensures
        strings_view(final(out)@) == strings_view(old(out)@) + nonblank_args(
            args@,
            args@.len() as int,
            pairs_view(vars@),
            *host,
        ),
{
    let ghost base = strings_view(out@);
    let mut i: usize = 0;
    while i < args.len()
        invariant
            i <= args@.len(),
            strings_view(out@) == base + nonblank_args(args@, i as int, pairs_view(vars@), *host),
        decreases args@.len() - i,
    {
        let v = resolve_str(&args[i], vars, host);
        let vc = chars_of(v.as_str());
        let t = crate::convert::trim_chars(vc.as_slice());
        if t.len() > 0 {
            let ghost before = out@;
            let ghost vv = v@;
            out.push(v);
            assert(strings_view(out@) =~= strings_view(before).push(vv));
        }
        i = i + 1;
        assert(strings_view(out@) =~= base + nonblank_args(args@, i as int, pairs_view(vars@), *host));
    }
}

/// Appends the resolved arguments that are not empty.
fn push_nonempty(out: &mut Vec<String>, args: &Vec<StringValue>, vars: &Vec<(String, String)>, host: &HostInputs)
    ensures
        strings_view(final(out)@) == strings_view(old(out)@) + nonempty_args(
            args@,
            args@.len() as int,
            pairs_view(vars@),
            *host,
        ),
{
    let ghost base = strings_view(out@);
    let mut i: usize = 0;
    while i < args.len()
        invariant
            i <= args@.len(),
            strings_view(out@) == base + nonempty_args(args@, i as int, pairs_view(vars@), *host),
        decreases args@.len() - i,
    {
        let v = resolve_str(&args[i], vars, host);
        let vc = chars_of(v.as_str());
        if vc.len() > 0 {
            let ghost before = out@;
            let ghost vv = v@;
            out.push(v);
            assert(strings_view(out@) =~= strings_view(before).push(vv));
        }
        i = i + 1;
        assert(strings_view(out@) =~= base + nonempty_args(args@, i as int, pairs_view(vars@), *host));
    }
}

/// Compile a channel block into its kind.
pub fn compile_channel_kind(block: &crate::ast::NamedBlock, vars: &Vec<(String, String)>, host: &HostInputs) -> (k: ChannelKind)
    ensures
        kind_view(k) == spec_channel_kind(*block, pairs_view(vars@), *host),
{
    let mut shell_cmd: Option<String> = None;
    let mut webhook_url: Option<String> = None;
    let mut signing_key: Option<String> = None;
    let mut timeout_secs: u64 = 5;
    let mut emails: Vec<String> = Vec::new();
    assert(strings_view(emails@) =~= Seq::<Seq<char>>::empty());
    let mut i: usize = 0;
    while i < block.directives.len()
        invariant
            i <= block.directives@.len(),
            (ChannelParts {
                shell: opt_view(shell_cmd),
                url: opt_view(webhook_url),
                signing_key: opt_view(signing_key),
                timeout_secs: timeout_secs,
                emails: strings_view(emails@),
            }) == channel_fold(block.directives@, i as int, pairs_view(vars@), *host),
        decreases block.directives@.len() - i,
    {
        match &block.directives[i] {
            DirectiveOrBlock::Directive(d) => {
                let key = d.key.value.as_str();
                if str_eq(key, "shell") {
                    match first_arg(d, vars, host) {
                        Some(v) => {
                            shell_cmd = Some(v);
                        },
                        None => {},
                    }
                } else if str_eq(key, "webhook") {
                    match first_arg(d, vars, host) {
                        Some(v) => {
                            webhook_url = Some(v);
                        },
                        None => {},
                    }
                } else if str_eq(key, "sign") {
                    if d.args.len() >= 2 {
                        let scheme = resolve_str(&d.args[0], vars, host);
                        if str_eq(scheme.as_str(), "hmac") {
                            let v = resolve_str(&d.args[1], vars, host);
                            let vc = chars_of(v.as_str());
                            if vc.len() > 0 {
                                signing_key = Some(v);
                            }
                        }
                    }
                } else if str_eq(key, "timeout") {
                    match first_arg(d, vars, host) {
                        Some(v) => match parse_duration_secs(v.as_str()) {
                            Some(secs) => {
                                timeout_secs = if secs < 1 { 1 } else { secs };
                            },
                            None => {},
                        },
                        None => {},
                    }
                } else if str_eq(key, "email") {
                    push_nonblank(&mut emails, &d.args, vars, host);
                }
            },
            _ => {},
        }
        i = i + 1;
        assert((ChannelParts {
            shell: opt_view(shell_cmd),
            url: opt_view(webhook_url),
            signing_key: opt_view(signing_key),
            timeout_secs: timeout_secs,
            emails: strings_view(emails@),
        }) =~= channel_fold(block.directives@, i as int, pairs_view(vars@), *host));
    }
    match shell_cmd {
        Some(command) => ChannelKind::Shell { command },
        None => match webhook_url {
            Some(url) => ChannelKind::Webhook { url, signing_key, timeout_secs },
            None => if emails.len() > 0 {
                ChannelKind::Email { recipients: emails }
            } else {
                ChannelKind::Unknown {
                    reason: owned("no channel kind directive (expected `shell`, `webhook`, or `email`)"),
                }
            },
        },
    }
}

/// `RuleConfig` as plain values.
#[verifier::ext_equal]
pub struct RuleView {
    pub name: Seq<char>,
    pub trigger: RuleTrigger,
    pub job_key_glob: Seq<char>,
    pub min_attempts: u32,
    pub dead_letter_only: bool,
    pub throttle: Option<Seq<char>>,
    pub expected_within: Option<Seq<char>>,
    pub channels: Seq<Seq<char>>,
}

pub open spec fn rule_view(r: RuleConfig) -> RuleView {
    RuleView {
        name: r.name@,
        trigger: r.trigger,
        job_key_glob: r.job_key_glob@,
        min_attempts: r.min_attempts,
        dead_letter_only: r.dead_letter_only,
        throttle: opt_view(r.throttle),
        expected_within: opt_view(r.expected_within),
        channels: strings_view(r.channels@),
    }
}

/// What the walk over a rule block has collected.
#[verifier::ext_equal]
pub struct RuleParts {
    pub trigger: Option<RuleTrigger>,
    pub job_key_glob: Seq<char>,
    pub min_attempts: u32,
    pub dead_letter_only: bool,
    pub throttle: Option<Seq<char>>,
    pub expected_within: Option<Seq<char>>,
    pub channels: Seq<Seq<char>>,
}

/// The trigger a `when` value names.
pub open spec fn spec_trigger(v: Seq<char>) -> Option<RuleTrigger> {
    if v == "job_failed"@ {
        Some(RuleTrigger::JobFailed)
    } else if v == "job_sla_missed"@ {
        Some(RuleTrigger::JobSlaMissed)
    } else if v == "job_missed_fire"@ {
        Some(RuleTrigger::JobMissedFire)
    } else {
        None
    }
}

/// One directive of a rule block: `when` names the trigger (an unknown
/// value clears it), `job_key`, `throttle` and `expected_within` take
/// their first argument, `min_attempts` a `u32` raised to at least one,
/// `dead_letter` a truthy flag, `channels` every non-empty argument.
pub open spec fn rule_step(p: RuleParts, d: Directive, vars: VarTable, host: HostInputs) -> RuleParts {
    let key = d.key.value@;
    if key == "channels"@ {
        RuleParts { channels: p.channels + nonempty_args(d.args@, d.args@.len() as int, vars, host), ..p }
    } else {
        match spec_first_arg(d, vars, host) {
            None => p,
            Some(v) => if key == "when"@ {
                RuleParts { trigger: spec_trigger(v), ..p }
            } else if key == "job_key"@ {
                RuleParts { job_key_glob: v, ..p }
            } else if key == "min_attempts"@ {
                match crate::calendar_args::parse_u32_spec(v) {
                    Some(n) => RuleParts { min_attempts: if n < 1 { 1 } else { n }, ..p },
                    None => p,
                }
            } else if key == "dead_letter"@ {
                RuleParts { dead_letter_only: spec_is_truthy(v), ..p }
            } else if key == "throttle"@ {
                RuleParts { throttle: Some(v), ..p }
            } else if key == "expected_within"@ {
                RuleParts { expected_within: Some(v), ..p }
            } else {
                p
            },
        }
    }
}

/// The first `n` entries of a rule block.
pub open spec fn rule_fold(items: Seq<DirectiveOrBlock>, n: int, vars: VarTable, host: HostInputs) -> RuleParts
    decreases n,
{
    if n <= 0 {
        RuleParts {
            trigger: None,
            job_key_glob: "*"@,
            min_attempts: 1,
            dead_letter_only: false,
            throttle: None,
            expected_within: None,
            channels: Seq::empty(),
        }
    } else {
        let p = rule_fold(items, n - 1, vars, host);
        match items[n - 1] {
            DirectiveOrBlock::Directive(d) => rule_step(p, d, vars, host),
            _ => p,
        }
    }
}

/// A compiled rule: none without a known trigger, and none for an
/// SLA-miss or missed-fire trigger without `expected_within`.
pub open spec fn spec_rule(name: Seq<char>, block: crate::ast::NamedBlock, vars: VarTable, host: HostInputs) -> Option<RuleView> {
    let p = rule_fold(block.directives@, block.directives@.len() as int, vars, host);
    match p.trigger {
        None => None,
        Some(t) => if t != RuleTrigger::JobFailed && p.expected_within is None {
            None
        } else {
            Some(
                RuleView {
                    name: name,
                    trigger: t,
                    job_key_glob: p.job_key_glob,
                    min_attempts: p.min_attempts,
                    dead_letter_only: p.dead_letter_only,
                    throttle: p.throttle,
                    expected_within: p.expected_within,
                    channels: p.channels,
                },
            )
        },
    }
}

/// Compile a rule block named `name`.
pub fn compile_rule(name: &str, block: &crate::ast::NamedBlock, vars: &Vec<(String, String)>, host: &HostInputs) -> (r: Option<RuleConfig>)
    ensures
        match r {
            Some(c) => spec_rule(name@, *block, pairs_view(vars@), *host) == Some(rule_view(c)),
            None => spec_rule(name@, *block, pairs_view(vars@), *host) is None,
        },
{
    let mut trigger: Option<RuleTrigger> = None;
    let mut job_key_glob = owned("*");
    let mut min_attempts: u32 = 1;
    let mut dead_letter_only = false;
    let mut throttle: Option<String> = None;
    let mut expected_within: Option<String> = None;
    let mut channels: Vec<String> = Vec::new();
    assert(strings_view(channels@) =~= Seq::<Seq<char>>::empty());
    let mut i: usize = 0;
    while i < block.directives.len()
        invariant
            i <= block.directives@.len(),
            (RuleParts {
                trigger: trigger,
                job_key_glob: job_key_glob@,
                min_attempts: min_attempts,
                dead_letter_only: dead_letter_only,
                throttle: opt_view(throttle),
                expected_within: opt_view(expected_within),
                channels: strings_view(channels@),
            }) == rule_fold(block.directives@, i as int, pairs_view(vars@), *host),
        decreases block.directives@.len() - i,
    {
        match &block.directives[i] {
            DirectiveOrBlock::Directive(d) => {
                let key = d.key.value.as_str();
                if str_eq(key, "channels") {
                    push_nonempty(&mut channels, &d.args, vars, host);
                } else {
                    match first_arg(d, vars, host) {
                        Some(v) => {
                            if str_eq(key, "when") {
                                let vs = v.as_str();
                                trigger = if str_eq(vs, "job_failed") {
                                    Some(RuleTrigger::JobFailed)
                                } else if str_eq(vs, "job_sla_missed") {
                                    Some(RuleTrigger::JobSlaMissed)
                                } else if str_eq(vs, "job_missed_fire") {
                                    Some(RuleTrigger::JobMissedFire)
                                } else {
                                    None
                                };
                            } else if str_eq(key, "job_key") {
                                job_key_glob = v;
                            } else if str_eq(key, "min_attempts") {
                                let vc = chars_of(v.as_str());
                                match crate::text::parse_u32(vc.as_slice()) {
                                    Some(n) => {
                                        min_attempts = if n < 1 { 1 } else { n };
                                    },
                                    None => {},
                                }
                            } else if str_eq(key, "dead_letter") {
                                dead_letter_only = is_truthy(v.as_str());
                            } else if str_eq(key, "throttle") {
                                throttle = Some(v);
                            } else if str_eq(key, "expected_within") {
                                expected_within = Some(v);
                            }
                        },
                        None => {},
                    }
                }
            },
            _ => {},
        }
        i = i + 1;
        assert((RuleParts {
            trigger: trigger,
            job_key_glob: job_key_glob@,
            min_attempts: min_attempts,
            dead_letter_only: dead_letter_only,
            throttle: opt_view(throttle),
            expected_within: opt_view(expected_within),
            channels: strings_view(channels@),
        }) =~= rule_fold(block.directives@, i as int, pairs_view(vars@), *host));
    }
    let t = match trigger {
        Some(t) => t,
        None => {
            return None;
        },
    };
    let needs_window = match t {
        RuleTrigger::JobFailed => false,
        _ => true,
    };
    if needs_window && expected_within.is_none() {
        return None;
    }
    Some(
        RuleConfig {
            name: name.to_string(),
            trigger: t,
            job_key_glob,
            min_attempts,
            dead_letter_only,
            throttle,
            expected_within,
            channels,
        },
    )
}

/// `AlertsConfig` as plain values.
#[verifier::ext_equal]
pub struct AlertsView {
    pub channels: Seq<(Seq<char>, KindView)>,
    pub rules: Seq<RuleView>,
}

pub open spec fn alerts_view(a: AlertsConfig) -> AlertsView {
    AlertsView { channels: channels_view(a.channels@), rules: a.rules@.map_values(|r: RuleConfig| rule_view(r)) }
}

/// A sub-block's qualifier resolved, or empty.
pub open spec fn spec_qualifier(sub: crate::ast::NamedBlock, vars: VarTable, host: HostInputs) -> Seq<char> {
    match sub.qualifier {
        Some(q) => spec_resolve_str(q, vars, host),
        None => Seq::empty(),
    }
}

/// The first `n` sub-blocks of `alerts { }`: a named `channel` is put in
/// the channel table (replacing one of the same name), a named `rule`
/// that compiles is appended; anything else is skipped.
pub open spec fn alerts_fold(subs: Seq<crate::ast::NamedBlock>, n: int, vars: VarTable, host: HostInputs) -> AlertsView
    decreases n,
{
    if n <= 0 {
        AlertsView { channels: Seq::empty(), rules: Seq::empty() }
    } else {
        let a = alerts_fold(subs, n - 1, vars, host);
        let sub = subs[n - 1];
        let q = spec_qualifier(sub, vars, host);
        if sub.name.value@ == "channel"@ {
            if q.len() > 0 {
                AlertsView { channels: table_insert(a.channels, q, spec_channel_kind(sub, vars, host)), ..a }
            } else {
                a
            }
        } else if sub.name.value@ == "rule"@ {
            if q.len() > 0 {
                match spec_rule(q, sub, vars, host) {
                    Some(r) => AlertsView { rules: a.rules.push(r), ..a },
                    None => a,
                }
            } else {
                a
            }
        } else {
            a
        }
    }
}

/// Puts a channel into the table, replacing the first one of its name.
fn insert_channel(chs: &mut Vec<ChannelConfig>, c: ChannelConfig)
    ensures
        channels_view(final(chs)@) == table_insert(channels_view(old(chs)@), c.name@, kind_view(c.kind)),
{
    let ghost cv = channels_view(chs@);
    let ghost entry = (c.name@, kind_view(c.kind));
    proof {
        crate::placeholders::lemma_index_of_key(cv, c.name@);
    }
    let mut i: usize = 0;
    while i < chs.len()
        invariant
            i <= chs@.len(),
            cv == channels_view(chs@),
            chs@ == old(chs)@,
            cv.len() == chs@.len(),
            entry == (c.name@, kind_view(c.kind)),
            forall|j: int| 0 <= j < i ==> cv[j].0 != c.name@,
        decreases chs@.len() - i,
    {
        if str_eq(chs[i].name.as_str(), c.name.as_str()) {
            proof {
                crate::placeholders::lemma_first_key_index(cv, c.name@, i as int);
            }
            let ghost before = chs@;
            let ghost cc = c;
            chs.set(i, c);
            assert(chs@ == before.update(i as int, cc));
            assert forall|j: int| 0 <= j < cv.len() implies #[trigger] channels_view(chs@)[j] == cv.update(i as int, entry)[j] by {
                if j == i {
                    assert(chs@[j] == cc);
                } else {
                    assert(chs@[j] == before[j]);
                }
            }
            assert(channels_view(chs@) =~= cv.update(i as int, entry));
            return;
        }
        i = i + 1;
    }
    proof {
        if index_of_key(cv, c.name@) is Some {
            let j = index_of_key(cv, c.name@)->0;
            assert(cv[j].0 == c.name@);
        }
    }
    chs.push(c);
    assert(channels_view(chs@) =~= cv.push(entry));
}

/// Compile an `alerts { }` block.
pub fn compile_alerts(block: &crate::ast::AlertsBlock, vars: &Vec<(String, String)>, host: &HostInputs) -> (a: AlertsConfig)
    ensures
        alerts_view(a) == alerts_fold(block.sub_blocks@, block.sub_blocks@.len() as int, pairs_view(vars@), *host),
{
    let mut cfg = AlertsConfig { channels: Vec::new(), rules: Vec::new() };
    assert(alerts_view(cfg) =~= alerts_fold(block.sub_blocks@, 0, pairs_view(vars@), *host));
    let mut i: usize = 0;
    while i < block.sub_blocks.len()
        invariant
            i <= block.sub_blocks@.len(),
            alerts_view(cfg) == alerts_fold(block.sub_blocks@, i as int, pairs_view(vars@), *host),
        decreases block.sub_blocks@.len() - i,
    {
        let sub = &block.sub_blocks[i];
        let qualifier = match &sub.qualifier {
            Some(q) => resolve_str(q, vars, host),
            None => String::new(),
        };
        let qc = chars_of(qualifier.as_str());
        let name = sub.name.value.as_str();
        if str_eq(name, "channel") {
            if qc.len() > 0 {
                let kind = compile_channel_kind(sub, vars, host);
                insert_channel(&mut cfg.channels, ChannelConfig { name: qualifier, kind });
            }
        } else if str_eq(name, "rule") {
            if qc.len() > 0 {
                match compile_rule(qualifier.as_str(), sub, vars, host) {
                    Some(r) => {
                        let ghost before = cfg.rules@;
                        cfg.rules.push(r);
                        assert(cfg.rules@.map_values(|r: RuleConfig| rule_view(r)) =~= before.map_values(
                            |r: RuleConfig| rule_view(r),
                        ).push(rule_view(r)));
                    },
                    None => {},
                }
            }
        }
        i = i + 1;
        assert(alerts_view(cfg) =~= alerts_fold(block.sub_blocks@, i as int, pairs_view(vars@), *host));
    }
    cfg
}

// ─── Jobs ────────────────────────────────────────────────────────────────────

/// An execution mode as written: `ephemeral`, anything else queued.
pub open spec fn spec_mode(v: Seq<char>) -> ExecutionMode {
    if v == "ephemeral"@ {
        ExecutionMode::Ephemeral
    } else {
        ExecutionMode::Queued
    }
}

/// A catch-up policy as written: `latest`, `none`, anything else all.
pub open spec fn spec_catch_up(v: Seq<char>) -> CatchUpPolicy {
    if v == "latest"@ {
        CatchUpPolicy::Latest
    } else if v == "none"@ {
        CatchUpPolicy::Discard
    } else {
        CatchUpPolicy::All
    }
}

/// A queue TTL argument: `none` means no limit.
pub open spec fn spec_ttl(a: Option<Seq<char>>) -> Option<Seq<char>> {
    match a {
        Some(v) => if v == "none"@ {
            None
        } else {
            Some(v)
        },
        None => None,
    }
}

/// An optional argument read as a `u32`.
pub open spec fn spec_opt_u32(a: Option<Seq<char>>) -> Option<u32> {
    match a {
        Some(v) => crate::calendar_args::parse_u32_spec(v),
        None => None,
    }
}

fn mode_of(v: &str) -> (m: ExecutionMode)
    ensures
        m == spec_mode(v@),
{
    if str_eq(v, "ephemeral") {
        ExecutionMode::Ephemeral
    } else {
        ExecutionMode::Queued
    }
}

fn catch_up_of(v: &str) -> (c: CatchUpPolicy)
    ensures
        c == spec_catch_up(v@),
{
    if str_eq(v, "latest") {
        CatchUpPolicy::Latest
    } else if str_eq(v, "none") {
        CatchUpPolicy::Discard
    } else {
        CatchUpPolicy::All
    }
}

fn ttl_of(a: Option<String>) -> (r: Option<String>)
    ensures
        opt_view(r) == spec_ttl(opt_view(a)),
{
    match a {
        Some(v) => if str_eq(v.as_str(), "none") {
            None
        } else {
            Some(v)
        },
        None => None,
    }
}

fn opt_u32(a: &Option<String>) -> (r: Option<u32>)
    ensures
        r == spec_opt_u32(opt_view(*a)),
{
    match a {
        Some(v) => {
            let vc = chars_of(v.as_str());
            crate::text::parse_u32(vc.as_slice())
        },
        None => None,
    }
}

/// What a job inherits from the `defaults { }` blocks before it.
#[derive(Debug, Clone)]
pub struct JobDefaults {
    pub timezone: Option<String>,
    pub timeout: Option<String>,
    pub retry: RetryConfig,
    pub dead_letter: DeadLetterConfig,
    pub execution_mode: ExecutionMode,
    pub catch_up: CatchUpPolicy,
    pub queue_ttl: Option<String>,
    pub max_queue_depth: Option<u32>,
    pub keep_last: Option<u32>,
}

/// `JobDefaults` as plain values.
#[verifier::ext_equal]
pub struct DefaultsView {
    pub timezone: Option<Seq<char>>,
    pub timeout: Option<Seq<char>>,
    pub retry: RetryView,
    pub dead_letter: DeadLetterView,
    pub execution_mode: ExecutionMode,
    pub catch_up: CatchUpPolicy,
    pub queue_ttl: Option<Seq<char>>,
    pub max_queue_depth: Option<u32>,
    pub keep_last: Option<u32>,
}

pub open spec fn defaults_view(d: JobDefaults) -> DefaultsView {
    DefaultsView {
        timezone: opt_view(d.timezone),
        timeout: opt_view(d.timeout),
        retry: retry_view(d.retry),
        dead_letter: dead_letter_view(d.dead_letter),
        execution_mode: d.execution_mode,
        catch_up: d.catch_up,
        queue_ttl: opt_view(d.queue_ttl),
        max_queue_depth: d.max_queue_depth,
        keep_last: d.keep_last,
    }
}

/// The defaults before any `defaults { }` block.
pub open spec fn initial_defaults() -> DefaultsView {
    DefaultsView {
        timezone: None,
        timeout: None,
        retry: RetryView {
            strategy: "exponential"@,
            max_attempts: 3,
            base: Some("2s"@),
            cap: Some("30s"@),
            delay: None,
            step: None,
            jitter: Some("0.25"@),
        },
        dead_letter: DeadLetterView { enabled: true, retention: Some("30d"@), operator_hint: None, replay_max_age: None },
        execution_mode: ExecutionMode::Queued,
        catch_up: CatchUpPolicy::All,
        queue_ttl: None,
        max_queue_depth: None,
        keep_last: None,
    }
}

/// One entry of a `defaults { }` block applied to the defaults so far.
pub open spec fn defaults_step(dv: DefaultsView, e: DirectiveOrBlock, vars: VarTable, host: HostInputs) -> DefaultsView {
    match e {
        DirectiveOrBlock::Directive(d) => {
            let key = d.key.value@;
            let a = spec_first_arg(d, vars, host);
            if key == "timezone"@ {
                DefaultsView { timezone: a, ..dv }
            } else if key == "timeout"@ {
                DefaultsView { timeout: a, ..dv }
            } else if key == "execution_mode"@ {
                match a {
                    Some(v) => DefaultsView { execution_mode: spec_mode(v), ..dv },
                    None => dv,
                }
            } else if key == "catch_up"@ {
                match a {
                    Some(v) => DefaultsView { catch_up: spec_catch_up(v), ..dv },
                    None => dv,
                }
            } else if key == "queue_ttl"@ {
                DefaultsView { queue_ttl: spec_ttl(a), ..dv }
            } else if key == "max_queue_depth"@ {
                DefaultsView { max_queue_depth: spec_opt_u32(a), ..dv }
            } else if key == "keep_last"@ {
                DefaultsView { keep_last: spec_opt_u32(a), ..dv }
            } else {
                dv
            }
        },
        DirectiveOrBlock::Block(b) => if b.name.value@ == "retry"@ {
            DefaultsView { retry: spec_retry_block(b, vars, host, dv.retry), ..dv }
        } else if b.name.value@ == "dead_letter"@ {
            DefaultsView {
                dead_letter: dead_letter_fold(dv.dead_letter, b.directives@, b.directives@.len() as int, vars, host),
                ..dv
            }
        } else {
            dv
        },
        _ => dv,
    }
}

/// The first `n` entries of a `defaults { }` block applied to `dv`.
pub open spec fn defaults_block_fold(dv: DefaultsView, items: Seq<DirectiveOrBlock>, n: int, vars: VarTable, host: HostInputs) -> DefaultsView
    decreases n,
{
    if n <= 0 {
        dv
    } else {
        defaults_step(defaults_block_fold(dv, items, n - 1, vars, host), items[n - 1], vars, host)
    }
}

/// The defaults in force after the first `n` items of the file.
pub open spec fn defaults_fold(items: Seq<Item>, n: int, vars: VarTable, host: HostInputs) -> DefaultsView
    decreases n,
{
    if n <= 0 {
        initial_defaults()
    } else {
        let dv = defaults_fold(items, n - 1, vars, host);
        match items[n - 1] {
            Item::Defaults(d) => defaults_block_fold(dv, d.directives@, d.directives@.len() as int, vars, host),
            _ => dv,
        }
    }
}

/// Applies a `defaults { }` block.
fn apply_defaults_block(dst: &mut JobDefaults, block: &crate::ast::DefaultsBlock, vars: &Vec<(String, String)>, host: &HostInputs)
    ensures
        defaults_view(*final(dst)) == defaults_block_fold(
            defaults_view(*old(dst)),
            block.directives@,
            block.directives@.len() as int,
            pairs_view(vars@),
            *host,
        ),
{
    let ghost d0 = defaults_view(*dst);
    let mut i: usize = 0;
    while i < block.directives.len()
        invariant
            i <= block.directives@.len(),
            d0 == defaults_view(*old(dst)),
            defaults_view(*dst) == defaults_block_fold(d0, block.directives@, i as int, pairs_view(vars@), *host),
        decreases block.directives@.len() - i,
    {
        match &block.directives[i] {
            DirectiveOrBlock::Directive(d) => {
                let key = d.key.value.as_str();
                let a = first_arg(d, vars, host);
                if str_eq(key, "timezone") {
                    dst.timezone = a;
                } else if str_eq(key, "timeout") {
                    dst.timeout = a;
                } else if str_eq(key, "execution_mode") {
                    match a {
                        Some(v) => {
                            dst.execution_mode = mode_of(v.as_str());
                        },
                        None => {},
                    }
                } else if str_eq(key, "catch_up") {
                    match a {
                        Some(v) => {
                            dst.catch_up = catch_up_of(v.as_str());
                        },
                        None => {},
                    }
                } else if str_eq(key, "queue_ttl") {
                    dst.queue_ttl = ttl_of(a);
                } else if str_eq(key, "max_queue_depth") {
                    dst.max_queue_depth = opt_u32(&a);
                } else if str_eq(key, "keep_last") {
                    dst.keep_last = opt_u32(&a);
                }
            },
            DirectiveOrBlock::Block(b) => {
                let name = b.name.value.as_str();
                if str_eq(name, "retry") {
                    let r = dst.retry.duplicate();
                    dst.retry = compile_retry_block(b, vars, host, r);
                } else if str_eq(name, "dead_letter") {
                    let dl = dst.dead_letter.duplicate();
                    dst.dead_letter = compile_dead_letter_block(b, vars, host, dl);
                }
            },
            _ => {},
        }
        i = i + 1;
        assert(defaults_view(*dst) =~= defaults_block_fold(d0, block.directives@, i as int, pairs_view(vars@), *host));
    }
}

/// What the walk over a job's entries has collected.
#[verifier::ext_equal]
pub struct JobParts {
    pub timezone: Option<Seq<char>>,
    pub description: Option<Seq<char>>,
    pub window: Option<Seq<char>>,
    pub runner: RunnerView,
    pub retry: RetryView,
    pub timeout: Option<Seq<char>>,
    pub dead_letter: DeadLetterView,
    pub metadata: VarTable,
    pub execution_mode: ExecutionMode,
    pub catch_up: CatchUpPolicy,
    pub queue_ttl: Option<Seq<char>>,
    pub max_queue_depth: Option<u32>,
    pub keep_last: Option<u32>,
    pub max_concurrent: Option<u32>,
    pub tags: Seq<Seq<char>>,
}

/// The first `n` tag arguments added to `tags`: each resolved value that
/// is not empty and not there yet.
pub open spec fn tags_fold(args: Seq<StringValue>, n: int, tags: Seq<Seq<char>>, vars: VarTable, host: HostInputs) -> Seq<Seq<char>>
    decreases n,
{
    if n <= 0 {
        tags
    } else {
        let p = tags_fold(args, n - 1, tags, vars, host);
        let v = spec_resolve_str(args[n - 1], vars, host);
        if v.len() > 0 && !p.contains(v) {
            p.push(v)
        } else {
            p
        }
    }
}

/// The first `n` entries of a `metadata { }` block put into `md`.
pub open spec fn metadata_fold(items: Seq<DirectiveOrBlock>, n: int, md: VarTable, vars: VarTable, host: HostInputs) -> VarTable
    decreases n,
{
    if n <= 0 {
        md
    } else {
        let m = metadata_fold(items, n - 1, md, vars, host);
        match items[n - 1] {
            DirectiveOrBlock::Directive(d) => match spec_first_arg(d, vars, host) {
                Some(v) => table_insert(m, d.key.value@, v),
                None => m,
            },
            _ => m,
        }
    }
}

/// One directive of a job.
pub open spec fn job_directive_step(p: JobParts, d: Directive, vars: VarTable, host: HostInputs) -> JobParts {
    let key = d.key.value@;
    let a = spec_first_arg(d, vars, host);
    if key == "timezone"@ {
        JobParts { timezone: a, ..p }
    } else if key == "description"@ {
        JobParts { description: a, ..p }
    } else if key == "timeout"@ {
        JobParts { timeout: a, ..p }
    } else if key == "window"@ {
        JobParts { window: a, ..p }
    } else if key == "execution_mode"@ {
        match a {
            Some(v) => JobParts { execution_mode: spec_mode(v), ..p },
            None => p,
        }
    } else if key == "catch_up"@ {
        match a {
            Some(v) => JobParts { catch_up: spec_catch_up(v), ..p },
            None => p,
        }
    } else if key == "queue_ttl"@ {
        JobParts { queue_ttl: spec_ttl(a), ..p }
    } else if key == "max_queue_depth"@ {
        JobParts { max_queue_depth: spec_opt_u32(a), ..p }
    } else if key == "keep_last"@ {
        JobParts { keep_last: spec_opt_u32(a), ..p }
    } else if key == "singleton"@ {
        JobParts { max_concurrent: Some(1), ..p }
    } else if key == "max_concurrent"@ {
        JobParts {
            max_concurrent: match spec_opt_u32(a) {
                Some(n) => if n > 0 {
                    Some(n)
                } else {
                    None
                },
                None => None,
            },
            ..p
        }
    } else if key == "tags"@ {
        JobParts { tags: tags_fold(d.args@, d.args@.len() as int, p.tags, vars, host), ..p }
    } else {
        p
    }
}

/// One block of a job: an unqualified `runner` replaces the placement
/// constraints, `runner shell|exec` stamps its payload into the metadata
/// as JSON, `retry` and `dead_letter` layer over the inherited values,
/// `metadata` puts its entries into the metadata.
pub open spec fn job_block_step(p: JobParts, b: crate::ast::NamedBlock, vars: VarTable, host: HostInputs) -> JobParts {
    let name = b.name.value@;
    if name == "runner"@ {
        match b.qualifier {
            None => JobParts { runner: runner_fold(b.directives@, b.directives@.len() as int, vars, host), ..p },
            Some(q) => if q.value@ == "shell"@ || q.value@ == "exec"@ {
                match spec_runner_exec(b, vars, host) {
                    Some(e) => JobParts { metadata: table_insert(p.metadata, "__runner_exec"@, exec_json(e)), ..p },
                    None => p,
                }
            } else {
                p
            },
        }
    } else if name == "retry"@ {
        JobParts { retry: spec_retry_block(b, vars, host, p.retry), ..p }
    } else if name == "dead_letter"@ {
        JobParts { dead_letter: dead_letter_fold(p.dead_letter, b.directives@, b.directives@.len() as int, vars, host), ..p }
    } else if name == "metadata"@ {
        JobParts { metadata: metadata_fold(b.directives@, b.directives@.len() as int, p.metadata, vars, host), ..p }
    } else {
        p
    }
}

/// The first `n` entries of a job applied to `p`.
pub open spec fn job_fold(items: Seq<DirectiveOrBlock>, n: int, p: JobParts, vars: VarTable, host: HostInputs) -> JobParts
    decreases n,
{
    if n <= 0 {
        p
    } else {
        let q = job_fold(items, n - 1, p, vars, host);
        match items[n - 1] {
            DirectiveOrBlock::Directive(d) => job_directive_step(q, d, vars, host),
            DirectiveOrBlock::Block(b) => job_block_step(q, b, vars, host),
            _ => q,
        }
    }
}

/// Where the walk over a job starts: the time zone its schedule options
/// leave, the inherited values, the execution mode of the schedule prefix
/// taking precedence.
pub open spec fn job_start(job: crate::ast::JobBlock, dv: DefaultsView, tz: Option<Seq<char>>) -> JobParts {
    JobParts {
        timezone: tz,
        description: None,
        window: None,
        runner: RunnerView { require: Seq::empty(), prefer: Seq::empty(), exclude: Seq::empty(), sticky: false },
        retry: dv.retry,
        timeout: dv.timeout,
        dead_letter: dv.dead_letter,
        metadata: Seq::empty(),
        execution_mode: match job.schedule {
            Some(s) => match s.mode {
                Some(crate::ast::ScheduleMode::Ephemeral) => ExecutionMode::Ephemeral,
                Some(crate::ast::ScheduleMode::Queued) => ExecutionMode::Queued,
                None => dv.execution_mode,
            },
            None => dv.execution_mode,
        },
        catch_up: dv.catch_up,
        queue_ttl: dv.queue_ttl,
        max_queue_depth: dv.max_queue_depth,
        keep_last: dv.keep_last,
        max_concurrent: None,
        tags: Seq::empty(),
    }
}

/// The last step of a job: an ephemeral job has no catch-up, no queue
/// TTL, a queue depth of one, no run-history cap and no concurrency
/// limit; a concurrency limit is stamped into the metadata.
pub open spec fn job_finish(p: JobParts) -> JobParts {
    let q = if p.execution_mode == ExecutionMode::Ephemeral {
        JobParts {
            catch_up: CatchUpPolicy::Discard,
            queue_ttl: None,
            max_queue_depth: Some(1),
            keep_last: None,
            max_concurrent: None,
            ..p
        }
    } else {
        p
    };
    match q.max_concurrent {
        Some(n) => JobParts { metadata: table_insert(q.metadata, "__max_concurrent"@, decimal(n as nat)), ..q },
        None => q,
    }
}

/// The schedule options of a job: `timezone` (starting from the
/// inherited zone), `calendar`, `not_before` and `not_after`, each set to
/// its first argument or cleared.
pub open spec fn options_fold(
    opts: Seq<Directive>,
    n: int,
    tz: Option<Seq<char>>,
    vars: VarTable,
    host: HostInputs,
) -> (Option<Seq<char>>, Option<Seq<char>>, Option<Seq<char>>, Option<Seq<char>>)
    decreases n,
{
    if n <= 0 {
        (tz, None, None, None)
    } else {
        let (t, c, b, a) = options_fold(opts, n - 1, tz, vars, host);
        let d = opts[n - 1];
        let v = spec_first_arg(d, vars, host);
        let key = d.key.value@;
        if key == "timezone"@ {
            (v, c, b, a)
        } else if key == "calendar"@ {
            (t, v, b, a)
        } else if key == "not_before"@ {
            (t, c, v, a)
        } else if key == "not_after"@ {
            (t, c, b, v)
        } else {
            (t, c, b, a)
        }
    }
}

/// The mutable state of the walk over a job.
struct JobState {
    timezone: Option<String>,
    description: Option<String>,
    window: Option<String>,
    runner: RunnerConfig,
    retry: RetryConfig,
    timeout: Option<String>,
    dead_letter: DeadLetterConfig,
    metadata: Vec<(String, String)>,
    execution_mode: ExecutionMode,
    catch_up: CatchUpPolicy,
    queue_ttl: Option<String>,
    max_queue_depth: Option<u32>,
    keep_last: Option<u32>,
    max_concurrent: Option<u32>,
    tags: Vec<String>,
}

spec fn state_view(st: JobState) -> JobParts {
    JobParts {
        timezone: opt_view(st.timezone),
        description: opt_view(st.description),
        window: opt_view(st.window),
        runner: runner_view(st.runner),
        retry: retry_view(st.retry),
        timeout: opt_view(st.timeout),
        dead_letter: dead_letter_view(st.dead_letter),
        metadata: pairs_view(st.metadata@),
        execution_mode: st.execution_mode,
        catch_up: st.catch_up,
        queue_ttl: opt_view(st.queue_ttl),
        max_queue_depth: st.max_queue_depth,
        keep_last: st.keep_last,
        max_concurrent: st.max_concurrent,
        tags: strings_view(st.tags@),
    }
}

/// Whether `s` is among `v`.
fn contains_str(v: &Vec<String>, s: &str) -> (r: bool)
    ensures
        r == strings_view(v@).contains(s@),
{
    let mut i: usize = 0;
    while i < v.len()
        invariant
            i <= v@.len(),
            forall|j: int| 0 <= j < i ==> strings_view(v@)[j] != s@,
        decreases v@.len() - i,
    {
        if str_eq(v[i].as_str(), s) {
            assert(strings_view(v@)[i as int] == s@);
            return true;
        }
        i = i + 1;
    }
    false
}

/// Adds the tag arguments of a `tags` directive.
fn add_tags(tags: &mut Vec<String>, args: &Vec<StringValue>, vars: &Vec<(String, String)>, host: &HostInputs)
    ensures
        strings_view(final(tags)@) == tags_fold(args@, args@.len() as int, strings_view(old(tags)@), pairs_view(vars@), *host),
{
    let ghost t0 = strings_view(tags@);
    let mut i: usize = 0;
    while i < args.len()
        invariant
            i <= args@.len(),
            t0 == strings_view(old(tags)@),
            strings_view(tags@) == tags_fold(args@, i as int, t0, pairs_view(vars@), *host),
        decreases args@.len() - i,
    {
        let v = resolve_str(&args[i], vars, host);
        let vc = chars_of(v.as_str());
        if vc.len() > 0 && !contains_str(tags, v.as_str()) {
            let ghost before = tags@;
            let ghost vv = v@;
            tags.push(v);
            assert(strings_view(tags@) =~= strings_view(before).push(vv));
        }
        i = i + 1;
    }
}

/// Applies one directive of a job.
fn apply_job_directive(st: &mut JobState, d: &Directive, vars: &Vec<(String, String)>, host: &HostInputs)
    ensures
        state_view(*final(st)) == job_directive_step(state_view(*old(st)), *d, pairs_view(vars@), *host),
{
    let key = d.key.value.as_str();
    let a = first_arg(d, vars, host);
    if str_eq(key, "timezone") {
        st.timezone = a;
    } else if str_eq(key, "description") {
        st.description = a;
    } else if str_eq(key, "timeout") {
        st.timeout = a;
    } else if str_eq(key, "window") {
        st.window = a;
    } else if str_eq(key, "execution_mode") {
        match a {
            Some(v) => {
                st.execution_mode = mode_of(v.as_str());
            },
            None => {},
        }
    } else if str_eq(key, "catch_up") {
        match a {
            Some(v) => {
                st.catch_up = catch_up_of(v.as_str());
            },
            None => {},
        }
    } else if str_eq(key, "queue_ttl") {
        st.queue_ttl = ttl_of(a);
    } else if str_eq(key, "max_queue_depth") {
        st.max_queue_depth = opt_u32(&a);
    } else if str_eq(key, "keep_last") {
        st.keep_last = opt_u32(&a);
    } else if str_eq(key, "singleton") {
        st.max_concurrent = Some(1);
    } else if str_eq(key, "max_concurrent") {
        st.max_concurrent = match opt_u32(&a) {
            Some(n) => if n > 0 {
                Some(n)
            } else {
                None
            },
            None => None,
        };
    } else if str_eq(key, "tags") {
        add_tags(&mut st.tags, &d.args, vars, host);
    }
    assert(state_view(*st) =~= job_directive_step(state_view(*old(st)), *d, pairs_view(vars@), *host));
}

/// Puts the entries of a `metadata { }` block into the metadata.
fn add_metadata(md: &mut Vec<(String, String)>, items: &Vec<DirectiveOrBlock>, vars: &Vec<(String, String)>, host: &HostInputs)
    ensures
        pairs_view(final(md)@) == metadata_fold(items@, items@.len() as int, pairs_view(old(md)@), pairs_view(vars@), *host),
{
    let ghost m0 = pairs_view(md@);
    let mut i: usize = 0;
    while i < items.len()
        invariant
            i <= items@.len(),
            m0 == pairs_view(old(md)@),
            pairs_view(md@) == metadata_fold(items@, i as int, m0, pairs_view(vars@), *host),
        decreases items@.len() - i,
    {
        match &items[i] {
            DirectiveOrBlock::Directive(d) => match first_arg(d, vars, host) {
                Some(v) => insert_pair(md, d.key.value.clone(), v),
                None => {},
            },
            _ => {},
        }
        i = i + 1;
    }
}

/// Applies one block of a job.
fn apply_job_block(st: &mut JobState, b: &crate::ast::NamedBlock, vars: &Vec<(String, String)>, host: &HostInputs)
    ensures
        state_view(*final(st)) == job_block_step(state_view(*old(st)), *b, pairs_view(vars@), *host),
{
    let name = b.name.value.as_str();
    if str_eq(name, "runner") {
        match &b.qualifier {
            None => {
                st.runner = compile_runner_block(b, vars, host);
            },
            Some(q) => {
                if str_eq(q.value.as_str(), "shell") || str_eq(q.value.as_str(), "exec") {
                    match compile_runner_exec_block(b, vars, host) {
                        Some(e) => {
                            let json = runner_exec_json(&e);
                            insert_pair(&mut st.metadata, owned(RUNNER_EXEC_METADATA_KEY), json);
                        },
                        None => {},
                    }
                }
            },
        }
    } else if str_eq(name, "retry") {
        let r = st.retry.duplicate();
        st.retry = compile_retry_block(b, vars, host, r);
    } else if str_eq(name, "dead_letter") {
        let dl = st.dead_letter.duplicate();
        st.dead_letter = compile_dead_letter_block(b, vars, host, dl);
    } else if str_eq(name, "metadata") {
        add_metadata(&mut st.metadata, &b.directives, vars, host);
    }
    assert(state_view(*st) =~= job_block_step(state_view(*old(st)), *b, pairs_view(vars@), *host));
}

/// A compiled job.
#[derive(Debug)]
pub struct JobConfig {
    pub key: String,
    pub namespace: String,
    pub name: String,
    pub variant: Option<String>,
    pub description: Option<String>,
    pub schedule: CompiledSchedule,
    pub schedule_summary: String,
    pub timezone: Option<String>,
    pub calendar: Option<String>,
    pub window: Option<String>,
    pub not_before: Option<String>,
    pub not_after: Option<String>,
    pub runner: RunnerConfig,
    pub retry: RetryConfig,
    pub timeout: Option<String>,
    pub dead_letter: DeadLetterConfig,
    /// Entries with map semantics, one per key.
    pub metadata: Vec<(String, String)>,
    /// `queued` (persistent) or `ephemeral` (fire-and-forget).
    pub execution_mode: ExecutionMode,
    /// What happens to fires missed while the server was down.
    pub catch_up: CatchUpPolicy,
    /// Longest wait in the queue before an execution is cancelled.
    pub queue_ttl: Option<String>,
    /// Queued executions per job before new fires are skipped.
    pub max_queue_depth: Option<u32>,
    /// Terminal executions kept per job.
    pub keep_last: Option<u32>,
    /// Executions of this job in flight at once; `None` is unlimited.
    pub max_concurrent: Option<u32>,
    /// Free-form tags for filtering, first occurrence kept.
    pub tags: Vec<String>,
}

/// A compiled job as plain values, its schedule aside.
#[verifier::ext_equal]
pub struct JobView {
    pub key: Seq<char>,
    pub namespace: Seq<char>,
    pub name: Seq<char>,
    pub variant: Option<Seq<char>>,
    pub calendar: Option<Seq<char>>,
    pub not_before: Option<Seq<char>>,
    pub not_after: Option<Seq<char>>,
    pub parts: JobParts,
}

pub open spec fn job_view(c: JobConfig) -> JobView {
    JobView {
        key: c.key@,
        namespace: c.namespace@,
        name: c.name@,
        variant: opt_view(c.variant),
        calendar: opt_view(c.calendar),
        not_before: opt_view(c.not_before),
        not_after: opt_view(c.not_after),
        parts: JobParts {
            timezone: opt_view(c.timezone),
            description: opt_view(c.description),
            window: opt_view(c.window),
            runner: runner_view(c.runner),
            retry: retry_view(c.retry),
            timeout: opt_view(c.timeout),
            dead_letter: dead_letter_view(c.dead_letter),
            metadata: pairs_view(c.metadata@),
            execution_mode: c.execution_mode,
            catch_up: c.catch_up,
            queue_ttl: opt_view(c.queue_ttl),
            max_queue_depth: c.max_queue_depth,
            keep_last: c.keep_last,
            max_concurrent: c.max_concurrent,
            tags: strings_view(c.tags@),
        },
    }
}

/// A job compiled under the defaults `dv`: its key, its schedule options,
/// and its entries walked from the inherited values (a `timezone`
/// directive in the body replaces the zone of the schedule options).
pub open spec fn spec_job(job: crate::ast::JobBlock, dv: DefaultsView, vars: VarTable, host: HostInputs) -> JobView {
    let (tz, cal, nb, na) = job_options(job, dv, vars, host);
    JobView {
        key: job.key.raw@,
        namespace: job.key.namespace@,
        name: job.key.name@,
        variant: opt_view(job.key.variant),
        calendar: cal,
        not_before: nb,
        not_after: na,
        parts: job_finish(job_fold(job.directives@, job.directives@.len() as int, job_start(job, dv, tz), vars, host)),
    }
}

/// The schedule options of a job, over the inherited time zone.
pub open spec fn job_options(job: crate::ast::JobBlock, dv: DefaultsView, vars: VarTable, host: HostInputs) -> (
    Option<Seq<char>>,
    Option<Seq<char>>,
    Option<Seq<char>>,
    Option<Seq<char>>,
) {
    match job.schedule {
        Some(s) => options_fold(s.options@, s.options@.len() as int, dv.timezone, vars, host),
        None => (dv.timezone, None, None, None),
    }
}

/// `c` is `job` compiled under `dv`: the plain values as `spec_job` says,
/// the schedule compiled from the job's schedule (disabled without one),
/// and the summary that schedule's.
pub open spec fn job_compiled(c: JobConfig, job: crate::ast::JobBlock, dv: DefaultsView, vars: VarTable, host: HostInputs) -> bool {
    &&& job_view(c) == spec_job(job, dv, vars, host)
    &&& match job.schedule {
        Some(s) => compiled_from(s.kind, c.schedule),
        None => c.schedule is Disabled,
    }
    &&& c.schedule_summary@ == spec_summary(c.schedule)
}

/// Compile a job under the given defaults.
pub fn compile_job(job: &crate::ast::JobBlock, defaults: &JobDefaults, vars: &Vec<(String, String)>, host: &HostInputs) -> (c: JobConfig)
    ensures
        job_compiled(c, *job, defaults_view(*defaults), pairs_view(vars@), *host),
{
    let schedule = match &job.schedule {
        Some(s) => CompiledSchedule::from_ast(&s.kind),
        None => CompiledSchedule::Disabled,
    };
    let schedule_summary = schedule.summary();
    let mut timezone = clone_opt(&defaults.timezone);
    let mut calendar: Option<String> = None;
    let mut not_before: Option<String> = None;
    let mut not_after: Option<String> = None;
    match &job.schedule {
        Some(sched) => {
            let mut i: usize = 0;
            while i < sched.options.len()
                invariant
                    i <= sched.options@.len(),
                    (opt_view(timezone), opt_view(calendar), opt_view(not_before), opt_view(not_after))
                        == options_fold(sched.options@, i as int, opt_view(defaults.timezone), pairs_view(vars@), *host),
                decreases sched.options@.len() - i,
            {
                let opt = &sched.options[i];
                let key = opt.key.value.as_str();
                if str_eq(key, "timezone") {
                    timezone = first_arg(opt, vars, host);
                } else if str_eq(key, "calendar") {
                    calendar = first_arg(opt, vars, host);
                } else if str_eq(key, "not_before") {
                    not_before = first_arg(opt, vars, host);
                } else if str_eq(key, "not_after") {
                    not_after = first_arg(opt, vars, host);
                }
                i = i + 1;
            }
        },
        None => {},
    }
    let execution_mode = match &job.schedule {
        Some(s) => match s.mode {
            Some(crate::ast::ScheduleMode::Ephemeral) => ExecutionMode::Ephemeral,
            Some(crate::ast::ScheduleMode::Queued) => ExecutionMode::Queued,
            None => defaults.execution_mode,
        },
        None => defaults.execution_mode,
    };
    let ghost tz0 = opt_view(timezone);
    let mut st = JobState {
        timezone,
        description: None,
        window: None,
        runner: RunnerConfig { require: Vec::new(), prefer: Vec::new(), exclude: Vec::new(), sticky: false },
        retry: defaults.retry.duplicate(),
        timeout: clone_opt(&defaults.timeout),
        dead_letter: defaults.dead_letter.duplicate(),
        metadata: Vec::new(),
        execution_mode,
        catch_up: defaults.catch_up,
        queue_ttl: clone_opt(&defaults.queue_ttl),
        max_queue_depth: defaults.max_queue_depth,
        keep_last: defaults.keep_last,
        max_concurrent: None,
        tags: Vec::new(),
    };
    let ghost start = job_start(*job, defaults_view(*defaults), tz0);
    assert(state_view(st) =~= start);
    let mut i: usize = 0;
    while i < job.directives.len()
        invariant
            i <= job.directives@.len(),
            start == job_start(*job, defaults_view(*defaults), tz0),
            state_view(st) == job_fold(job.directives@, i as int, start, pairs_view(vars@), *host),
        decreases job.directives@.len() - i,
    {
        match &job.directives[i] {
            DirectiveOrBlock::Directive(d) => apply_job_directive(&mut st, d, vars, host),
            DirectiveOrBlock::Block(b) => apply_job_block(&mut st, b, vars, host),
            _ => {},
        }
        i = i + 1;
    }
    if st.execution_mode == ExecutionMode::Ephemeral {
        st.catch_up = CatchUpPolicy::Discard;
        st.queue_ttl = None;
        st.max_queue_depth = Some(1);
        st.keep_last = None;
        st.max_concurrent = None;
    }
    match st.max_concurrent {
        Some(n) => {
            let v = crate::text::decimal_string(n as u64);
            insert_pair(&mut st.metadata, owned(MAX_CONCURRENT_METADATA_KEY), v);
        },
        None => {},
    }
    let ghost finished = job_finish(job_fold(job.directives@, job.directives@.len() as int, start, pairs_view(vars@), *host));
    assert(state_view(st) =~= finished);
    let c = JobConfig {
        key: job.key.raw.clone(),
        namespace: job.key.namespace.clone(),
        name: job.key.name.clone(),
        variant: clone_opt(&job.key.variant),
        description: st.description,
        schedule,
        schedule_summary,
        timezone: st.timezone,
        calendar,
        window: st.window,
        not_before,
        not_after,
        runner: st.runner,
        retry: st.retry,
        timeout: st.timeout,
        dead_letter: st.dead_letter,
        metadata: st.metadata,
        execution_mode: st.execution_mode,
        catch_up: st.catch_up,
        queue_ttl: st.queue_ttl,
        max_queue_depth: st.max_queue_depth,
        keep_last: st.keep_last,
        max_concurrent: st.max_concurrent,
        tags: st.tags,
    };
    assert(job_view(c) =~= spec_job(*job, defaults_view(*defaults), pairs_view(vars@), *host));
    c
}

// ─── Top-level blocks ────────────────────────────────────────────────────────

/// `ServerConfig` as plain values.
#[verifier::ext_equal]
pub struct ServerView {
    pub listen: Seq<char>,
    pub data_dir: Seq<char>,
    pub db: Seq<char>,
    pub app_url: Option<Seq<char>>,
    pub execution_retention: Option<Seq<char>>,
}

pub open spec fn server_view(c: ServerConfig) -> ServerView {
    ServerView {
        listen: c.listen@,
        data_dir: c.data_dir@,
        db: c.db@,
        app_url: opt_view(c.app_url),
        execution_retention: opt_view(c.execution_retention),
    }
}

/// The first `n` directives of a `server { }` block applied to `sv`: each
/// known key with an argument sets its field.
pub open spec fn server_block_fold(ds: Seq<Directive>, n: int, sv: ServerView, vars: VarTable, host: HostInputs) -> ServerView
    decreases n,
{
    if n <= 0 {
        sv
    } else {
        let c = server_block_fold(ds, n - 1, sv, vars, host);
        let d = ds[n - 1];
        let key = d.key.value@;
        match spec_first_arg(d, vars, host) {
            Some(v) => if key == "listen"@ {
                ServerView { listen: v, ..c }
            } else if key == "data_dir"@ {
                ServerView { data_dir: v, ..c }
            } else if key == "db"@ {
                ServerView { db: v, ..c }
            } else if key == "app_url"@ {
                ServerView { app_url: Some(v), ..c }
            } else if key == "execution_retention"@ {
                ServerView { execution_retention: Some(v), ..c }
            } else {
                c
            },
            None => c,
        }
    }
}

/// Applies a `server { }` block.
fn apply_server_block(cfg: &mut ServerConfig, ds: &Vec<Directive>, vars: &Vec<(String, String)>, host: &HostInputs)
    ensures
        server_view(*final(cfg)) == server_block_fold(ds@, ds@.len() as int, server_view(*old(cfg)), pairs_view(vars@), *host),
{
    let ghost s0 = server_view(*cfg);
    let mut i: usize = 0;
    while i < ds.len()
        invariant
            i <= ds@.len(),
            s0 == server_view(*old(cfg)),
            server_view(*cfg) == server_block_fold(ds@, i as int, s0, pairs_view(vars@), *host),
        decreases ds@.len() - i,
    {
        let d = &ds[i];
        let key = d.key.value.as_str();
        match first_arg(d, vars, host) {
            Some(v) => {
                if str_eq(key, "listen") {
                    cfg.listen = v;
                } else if str_eq(key, "data_dir") {
                    cfg.data_dir = v;
                } else if str_eq(key, "db") {
                    cfg.db = v;
                } else if str_eq(key, "app_url") {
                    cfg.app_url = Some(v);
                } else if str_eq(key, "execution_retention") {
                    cfg.execution_retention = Some(v);
                }
            },
            None => {},
        }
        i = i + 1;
        assert(server_view(*cfg) =~= server_block_fold(ds@, i as int, s0, pairs_view(vars@), *host));
    }
}

/// `PullApiConfig` as plain values.
#[verifier::ext_equal]
pub struct PullApiView {
    pub listen: Seq<char>,
    pub lease_ttl: Seq<char>,
    pub trigger_dedup_window: Seq<char>,
    pub runner_identity_binding: Seq<char>,
}

pub open spec fn pull_api_view(c: PullApiConfig) -> PullApiView {
    PullApiView {
        listen: c.listen@,
        lease_ttl: c.lease_ttl@,
        trigger_dedup_window: c.trigger_dedup_window@,
        runner_identity_binding: c.runner_identity_binding@,
    }
}

/// The first `n` directives of a `pull_api { }` block over the defaults.
pub open spec fn pull_api_fold(ds: Seq<Directive>, n: int, vars: VarTable, host: HostInputs) -> PullApiView
    decreases n,
{
    if n <= 0 {
        PullApiView { listen: ":9443"@, lease_ttl: "60s"@, trigger_dedup_window: "10m"@, runner_identity_binding: "strict"@ }
    } else {
        let c = pull_api_fold(ds, n - 1, vars, host);
        let d = ds[n - 1];
        let key = d.key.value@;
        match spec_first_arg(d, vars, host) {
            Some(v) => if key == "listen"@ {
                PullApiView { listen: v, ..c }
            } else if key == "lease_ttl"@ {
                PullApiView { lease_ttl: v, ..c }
            } else if key == "trigger_dedup_window"@ {
                PullApiView { trigger_dedup_window: v, ..c }
            } else if key == "runner_identity_binding"@ {
                PullApiView { runner_identity_binding: v, ..c }
            } else {
                c
            },
            None => c,
        }
    }
}

/// Compile a `pull_api { }` block.
fn compile_pull_api(ds: &Vec<Directive>, vars: &Vec<(String, String)>, host: &HostInputs) -> (c: PullApiConfig)
    ensures
        pull_api_view(c) == pull_api_fold(ds@, ds@.len() as int, pairs_view(vars@), *host),
{
    let mut cfg = PullApiConfig {
        listen: owned(":9443"),
        lease_ttl: owned("60s"),
        trigger_dedup_window: owned("10m"),
        runner_identity_binding: owned("strict"),
    };
    let mut i: usize = 0;
    assert(pull_api_view(cfg) =~= pull_api_fold(ds@, 0, pairs_view(vars@), *host));
    while i < ds.len()
        invariant
            i <= ds@.len(),
            pull_api_view(cfg) == pull_api_fold(ds@, i as int, pairs_view(vars@), *host),
        decreases ds@.len() - i,
    {
        let d = &ds[i];
        let key = d.key.value.as_str();
        match first_arg(d, vars, host) {
            Some(v) => {
                if str_eq(key, "listen") {
                    cfg.listen = v;
                } else if str_eq(key, "lease_ttl") {
                    cfg.lease_ttl = v;
                } else if str_eq(key, "trigger_dedup_window") {
                    cfg.trigger_dedup_window = v;
                } else if str_eq(key, "runner_identity_binding") {
                    cfg.runner_identity_binding = v;
                }
            },
            None => {},
        }
        i = i + 1;
        assert(pull_api_view(cfg) =~= pull_api_fold(ds@, i as int, pairs_view(vars@), *host));
    }
    cfg
}

/// `ObservabilityConfig` as plain values: the log settings (level,
/// format, output) and the metrics settings (listen, path).
#[verifier::ext_equal]
pub struct ObservabilityView {
    pub log: Option<(Seq<char>, Seq<char>, Seq<char>)>,
    pub metrics: Option<(Seq<char>, Seq<char>)>,
}

pub open spec fn observability_view(c: ObservabilityConfig) -> ObservabilityView {
    ObservabilityView {
        log: match c.log {
            Some(l) => Some((l.level@, l.format@, l.output@)),
            None => None,
        },
        metrics: match c.metrics {
            Some(m) => Some((m.listen@, m.path@)),
            None => None,
        },
    }
}

/// The first `n` entries of a `log { }` block over `info`, `text`, `stderr`.
pub open spec fn log_fold(items: Seq<DirectiveOrBlock>, n: int, vars: VarTable, host: HostInputs) -> (Seq<char>, Seq<char>, Seq<char>)
    decreases n,
{
    if n <= 0 {
        ("info"@, "text"@, "stderr"@)
    } else {
        let (level, format, output) = log_fold(items, n - 1, vars, host);
        match items[n - 1] {
            DirectiveOrBlock::Directive(d) => match spec_first_arg(d, vars, host) {
                Some(v) => if d.key.value@ == "level"@ {
                    (v, format, output)
                } else if d.key.value@ == "format"@ {
                    (level, v, output)
                } else if d.key.value@ == "output"@ {
                    (level, format, v)
                } else {
                    (level, format, output)
                },
                None => (level, format, output),
            },
            _ => (level, format, output),
        }
    }
}

/// The first `n` entries of a `metrics { }` block over `:9900`, `/metrics`.
pub open spec fn metrics_fold(items: Seq<DirectiveOrBlock>, n: int, vars: VarTable, host: HostInputs) -> (Seq<char>, Seq<char>)
    decreases n,
{
    if n <= 0 {
        (":9900"@, "/metrics"@)
    } else {
        let (listen, path) = metrics_fold(items, n - 1, vars, host);
        match items[n - 1] {
            DirectiveOrBlock::Directive(d) => match spec_first_arg(d, vars, host) {
                Some(v) => if d.key.value@ == "listen"@ {
                    (v, path)
                } else if d.key.value@ == "path"@ {
                    (listen, v)
                } else {
                    (listen, path)
                },
                None => (listen, path),
            },
            _ => (listen, path),
        }
    }
}

/// The first `n` sub-blocks of `observability { }`.
pub open spec fn observability_fold(subs: Seq<crate::ast::NamedBlock>, n: int, vars: VarTable, host: HostInputs) -> ObservabilityView
    decreases n,
{
    if n <= 0 {
        ObservabilityView { log: None, metrics: None }
    } else {
        let o = observability_fold(subs, n - 1, vars, host);
        let b = subs[n - 1];
        if b.name.value@ == "log"@ {
            ObservabilityView { log: Some(log_fold(b.directives@, b.directives@.len() as int, vars, host)), ..o }
        } else if b.name.value@ == "metrics"@ {
            ObservabilityView { metrics: Some(metrics_fold(b.directives@, b.directives@.len() as int, vars, host)), ..o }
        } else {
            o
        }
    }
}

fn compile_log(items: &Vec<DirectiveOrBlock>, vars: &Vec<(String, String)>, host: &HostInputs) -> (c: LogConfig)
    ensures
        (c.level@, c.format@, c.output@) == log_fold(items@, items@.len() as int, pairs_view(vars@), *host),
{
    let mut log = LogConfig { level: owned("info"), format: owned("text"), output: owned("stderr") };
    let mut i: usize = 0;
    while i < items.len()
        invariant
            i <= items@.len(),
            (log.level@, log.format@, log.output@) == log_fold(items@, i as int, pairs_view(vars@), *host),
        decreases items@.len() - i,
    {
        match &items[i] {
            DirectiveOrBlock::Directive(d) => match first_arg(d, vars, host) {
                Some(v) => {
                    let key = d.key.value.as_str();
                    if str_eq(key, "level") {
                        log.level = v;
                    } else if str_eq(key, "format") {
                        log.format = v;
                    } else if str_eq(key, "output") {
                        log.output = v;
                    }
                },
                None => {},
            },
            _ => {},
        }
        i = i + 1;
    }
    log
}

fn compile_metrics(items: &Vec<DirectiveOrBlock>, vars: &Vec<(String, String)>, host: &HostInputs) -> (c: MetricsConfig)
    ensures
        (c.listen@, c.path@) == metrics_fold(items@, items@.len() as int, pairs_view(vars@), *host),
{
    let mut m = MetricsConfig { listen: owned(":9900"), path: owned("/metrics") };
    let mut i: usize = 0;
    while i < items.len()
        invariant
            i <= items@.len(),
            (m.listen@, m.path@) == metrics_fold(items@, i as int, pairs_view(vars@), *host),
        decreases items@.len() - i,
    {
        match &items[i] {
            DirectiveOrBlock::Directive(d) => match first_arg(d, vars, host) {
                Some(v) => {
                    let key = d.key.value.as_str();
                    if str_eq(key, "listen") {
                        m.listen = v;
                    } else if str_eq(key, "path") {
                        m.path = v;
                    }
                },
                None => {},
            },
            _ => {},
        }
        i = i + 1;
    }
    m
}

/// Compile an `observability { }` block.
fn compile_observability(subs: &Vec<crate::ast::NamedBlock>, vars: &Vec<(String, String)>, host: &HostInputs) -> (c: ObservabilityConfig)
    ensures
        observability_view(c) == observability_fold(subs@, subs@.len() as int, pairs_view(vars@), *host),
{
    let mut o = ObservabilityConfig { log: None, metrics: None };
    let mut i: usize = 0;
    while i < subs.len()
        invariant
            i <= subs@.len(),
            observability_view(o) == observability_fold(subs@, i as int, pairs_view(vars@), *host),
        decreases subs@.len() - i,
    {
        let b = &subs[i];
        if str_eq(b.name.value.as_str(), "log") {
            o.log = Some(compile_log(&b.directives, vars, host));
        } else if str_eq(b.name.value.as_str(), "metrics") {
            o.metrics = Some(compile_metrics(&b.directives, vars, host));
        }
        i = i + 1;
        assert(observability_view(o) =~= observability_fold(subs@, i as int, pairs_view(vars@), *host));
    }
    o
}

/// `McpConfig` as plain values.
#[verifier::ext_equal]
pub struct McpView {
    pub enabled: bool,
    pub allowed_hosts: Seq<Seq<char>>,
}

pub open spec fn mcp_view(c: McpConfig) -> McpView {
    McpView { enabled: c.enabled, allowed_hosts: strings_view(c.allowed_hosts@) }
}

/// The first `n` directives of `mcp { }` over enabled with no hosts:
/// `enabled` reads its first argument as written (a truthy spelling turns
/// it on, anything else off), `allowed_hosts` replaces the list with its
/// non-empty resolved arguments.
pub open spec fn mcp_fold(ds: Seq<Directive>, n: int, vars: VarTable, host: HostInputs) -> McpView
    decreases n,
{
    if n <= 0 {
        McpView { enabled: true, allowed_hosts: Seq::empty() }
    } else {
        let c = mcp_fold(ds, n - 1, vars, host);
        let d = ds[n - 1];
        if d.key.value@ == "enabled"@ {
            if d.args@.len() > 0 {
                McpView { enabled: spec_is_truthy(d.args@[0].value@), ..c }
            } else {
                c
            }
        } else if d.key.value@ == "allowed_hosts"@ {
            McpView { allowed_hosts: nonempty_args(d.args@, d.args@.len() as int, vars, host), ..c }
        } else {
            c
        }
    }
}

/// Compile an `mcp { }` block.
fn compile_mcp(ds: &Vec<Directive>, vars: &Vec<(String, String)>, host: &HostInputs) -> (c: McpConfig)
    ensures
        mcp_view(c) == mcp_fold(ds@, ds@.len() as int, pairs_view(vars@), *host),
{
    let mut cfg = McpConfig::default();
    assert(mcp_view(cfg) =~= mcp_fold(ds@, 0, pairs_view(vars@), *host));
    let mut i: usize = 0;
    while i < ds.len()
        invariant
            i <= ds@.len(),
            mcp_view(cfg) == mcp_fold(ds@, i as int, pairs_view(vars@), *host),
        decreases ds@.len() - i,
    {
        let d = &ds[i];
        if str_eq(d.key.value.as_str(), "enabled") {
            if d.args.len() > 0 {
                cfg.enabled = is_truthy(d.args[0].value.as_str());
            }
        } else if str_eq(d.key.value.as_str(), "allowed_hosts") {
            let mut hosts: Vec<String> = Vec::new();
            assert(strings_view(hosts@) =~= Seq::<Seq<char>>::empty());
            push_nonempty(&mut hosts, &d.args, vars, host);
            cfg.allowed_hosts = hosts;
        }
        i = i + 1;
        assert(mcp_view(cfg) =~= mcp_fold(ds@, i as int, pairs_view(vars@), *host));
    }
    cfg
}

/// The first `n` directives of a `policy { }` block applied to the flags
/// `(dsl_adopt_on_mutate, strict_calendars)`: the first reads its raw
/// first argument as a truthy spelling, the second as a boolean (an
/// unrecognised value keeps it).
pub open spec fn policy_fold(ds: Seq<Directive>, n: int, p: (bool, bool)) -> (bool, bool)
    decreases n,
{
    if n <= 0 {
        p
    } else {
        let (adopt, strict) = policy_fold(ds, n - 1, p);
        let d = ds[n - 1];
        if d.args@.len() == 0 {
            (adopt, strict)
        } else if d.key.value@ == "dsl_adopt_on_mutate"@ {
            (spec_is_truthy(d.args@[0].value@), strict)
        } else if d.key.value@ == "strict_calendars"@ {
            match spec_parse_bool(d.args@[0].value@) {
                Some(b) => (adopt, b),
                None => (adopt, strict),
            }
        } else {
            (adopt, strict)
        }
    }
}

/// Applies a `policy { }` block.
fn apply_policy(cfg: &mut PolicyConfig, ds: &Vec<Directive>)
    ensures
        (final(cfg).dsl_adopt_on_mutate, final(cfg).strict_calendars) == policy_fold(
            ds@,
            ds@.len() as int,
            (old(cfg).dsl_adopt_on_mutate, old(cfg).strict_calendars),
        ),
{
    let ghost p0 = (cfg.dsl_adopt_on_mutate, cfg.strict_calendars);
    let mut i: usize = 0;
    while i < ds.len()
        invariant
            i <= ds@.len(),
            p0 == (old(cfg).dsl_adopt_on_mutate, old(cfg).strict_calendars),
            (cfg.dsl_adopt_on_mutate, cfg.strict_calendars) == policy_fold(ds@, i as int, p0),
        decreases ds@.len() - i,
    {
        let d = &ds[i];
        if d.args.len() > 0 {
            if str_eq(d.key.value.as_str(), "dsl_adopt_on_mutate") {
                cfg.dsl_adopt_on_mutate = is_truthy(d.args[0].value.as_str());
            } else if str_eq(d.key.value.as_str(), "strict_calendars") {
                match parse_bool(d.args[0].value.as_str()) {
                    Some(b) => {
                        cfg.strict_calendars = b;
                    },
                    None => {},
                }
            }
        }
        i = i + 1;
    }
}

/// `OidcDslConfig` as plain values.
#[verifier::ext_equal]
pub struct OidcView {
    pub issuer: Option<Seq<char>>,
    pub client_id: Option<Seq<char>>,
    pub redirect_url: Option<Seq<char>>,
    pub default_role: Option<Seq<char>>,
    pub provider_name: Option<Seq<char>>,
    pub post_login_redirect: Option<Seq<char>>,
}

pub open spec fn oidc_view(c: OidcDslConfig) -> OidcView {
    OidcView {
        issuer: opt_view(c.issuer),
        client_id: opt_view(c.client_id),
        redirect_url: opt_view(c.redirect_url),
        default_role: opt_view(c.default_role),
        provider_name: opt_view(c.provider_name),
        post_login_redirect: opt_view(c.post_login_redirect),
    }
}

/// The first `n` directives of an `oidc { }` block: each known key with an
/// argument sets its field to the resolved argument.
pub open spec fn oidc_fold(ds: Seq<Directive>, n: int, vars: VarTable, host: HostInputs) -> OidcView
    decreases n,
{
    if n <= 0 {
        OidcView {
            issuer: None,
            client_id: None,
            redirect_url: None,
            default_role: None,
            provider_name: None,
            post_login_redirect: None,
        }
    } else {
        let c = oidc_fold(ds, n - 1, vars, host);
        let d = ds[n - 1];
        let key = d.key.value@;
        match spec_first_arg(d, vars, host) {
            Some(v) => if key == "issuer"@ {
                OidcView { issuer: Some(v), ..c }
            } else if key == "client_id"@ {
                OidcView { client_id: Some(v), ..c }
            } else if key == "redirect_url"@ {
                OidcView { redirect_url: Some(v), ..c }
            } else if key == "default_role"@ {
                OidcView { default_role: Some(v), ..c }
            } else if key == "provider_name"@ {
                OidcView { provider_name: Some(v), ..c }
            } else if key == "post_login_redirect"@ {
                OidcView { post_login_redirect: Some(v), ..c }
            } else {
                c
            },
            None => c,
        }
    }
}

/// Compile an `oidc { }` block.
fn compile_oidc(ds: &Vec<Directive>, vars: &Vec<(String, String)>, host: &HostInputs) -> (c: OidcDslConfig)
    ensures
        oidc_view(c) == oidc_fold(ds@, ds@.len() as int, pairs_view(vars@), *host),
{
    let mut cfg = OidcDslConfig {
        issuer: None,
        client_id: None,
        redirect_url: None,
        default_role: None,
        provider_name: None,
        post_login_redirect: None,
    };
    let mut i: usize = 0;
    while i < ds.len()
        invariant
            i <= ds@.len(),
            oidc_view(cfg) == oidc_fold(ds@, i as int, pairs_view(vars@), *host),
        decreases ds@.len() - i,
    {
        let d = &ds[i];
        let key = d.key.value.as_str();
        match first_arg(d, vars, host) {
            Some(v) => {
                if str_eq(key, "issuer") {
                    cfg.issuer = Some(v);
                } else if str_eq(key, "client_id") {
                    cfg.client_id = Some(v);
                } else if str_eq(key, "redirect_url") {
                    cfg.redirect_url = Some(v);
                } else if str_eq(key, "default_role") {
                    cfg.default_role = Some(v);
                } else if str_eq(key, "provider_name") {
                    cfg.provider_name = Some(v);
                } else if str_eq(key, "post_login_redirect") {
                    cfg.post_login_redirect = Some(v);
                }
            },
            None => {},
        }
        i = i + 1;
        assert(oidc_view(cfg) =~= oidc_fold(ds@, i as int, pairs_view(vars@), *host));
    }
    cfg
}

/// `SmtpDslConfig` as plain values.
#[verifier::ext_equal]
pub struct SmtpView {
    pub host: Option<Seq<char>>,
    pub port: Option<u16>,
    pub security: Option<Seq<char>>,
    pub from: Option<Seq<char>>,
}

pub open spec fn smtp_view(c: SmtpDslConfig) -> SmtpView {
    SmtpView { host: opt_view(c.host), port: c.port, security: opt_view(c.security), from: opt_view(c.from) }
}

/// A port number: the trimmed value read as a `u16`.
pub open spec fn spec_port(v: Seq<char>) -> Option<u16> {
    match crate::text::spec_parse_uint(trim(v)) {
        Some(n) => if n <= 65535 {
            Some(n as u16)
        } else {
            None
        },
        None => None,
    }
}

/// The first `n` directives of an `smtp { }` block: `host` and `from` as
/// resolved, `port` as a number (cleared when it is not one), `security`
/// trimmed and lower-cased.
pub open spec fn smtp_fold(ds: Seq<Directive>, n: int, vars: VarTable, host: HostInputs) -> SmtpView
    decreases n,
{
    if n <= 0 {
        SmtpView { host: None, port: None, security: None, from: None }
    } else {
        let c = smtp_fold(ds, n - 1, vars, host);
        let d = ds[n - 1];
        let key = d.key.value@;
        match spec_first_arg(d, vars, host) {
            Some(v) => if key == "host"@ {
                SmtpView { host: Some(v), ..c }
            } else if key == "port"@ {
                SmtpView { port: spec_port(v), ..c }
            } else if key == "security"@ {
                SmtpView { security: Some(lower(trim(v))), ..c }
            } else if key == "from"@ {
                SmtpView { from: Some(v), ..c }
            } else {
                c
            },
            None => c,
        }
    }
}

fn port_of(v: &str) -> (r: Option<u16>)
    ensures
        r == spec_port(v@),
{
    let vc = chars_of(v);
    let t = crate::convert::trim_chars(vc.as_slice());
    match crate::text::parse_u32(t.as_slice()) {
        Some(n) => if n <= 65535 {
            Some(n as u16)
        } else {
            None
        },
        None => None,
    }
}

/// Compile an `smtp { }` block.
fn compile_smtp(ds: &Vec<Directive>, vars: &Vec<(String, String)>, host: &HostInputs) -> (c: SmtpDslConfig)
    ensures
        smtp_view(c) == smtp_fold(ds@, ds@.len() as int, pairs_view(vars@), *host),
{
    let mut cfg = SmtpDslConfig { host: None, port: None, security: None, from: None };
    let mut i: usize = 0;
    while i < ds.len()
        invariant
            i <= ds@.len(),
            smtp_view(cfg) == smtp_fold(ds@, i as int, pairs_view(vars@), *host),
        decreases ds@.len() - i,
    {
        let d = &ds[i];
        let key = d.key.value.as_str();
        match first_arg(d, vars, host) {
            Some(v) => {
                if str_eq(key, "host") {
                    cfg.host = Some(v);
                } else if str_eq(key, "port") {
                    cfg.port = port_of(v.as_str());
                } else if str_eq(key, "security") {
                    let vc = chars_of(v.as_str());
                    let t = crate::convert::trim_chars(vc.as_slice());
                    let l = lower_chars(t.as_slice());
                    cfg.security = Some(crate::text::string_of(l.as_slice()));
                } else if str_eq(key, "from") {
                    cfg.from = Some(v);
                }
            },
            None => {},
        }
        i = i + 1;
        assert(smtp_view(cfg) =~= smtp_fold(ds@, i as int, pairs_view(vars@), *host));
    }
    cfg
}

/// The first `n` entries of an auth sub-block applied to `cur`: each
/// directive named `key` with an argument sets the flag to that argument
/// read as a boolean (none when it is not one).
pub open spec fn flag_fold(items: Seq<DirectiveOrBlock>, n: int, key: Seq<char>, cur: Option<bool>, vars: VarTable, host: HostInputs) -> Option<bool>
    decreases n,
{
    if n <= 0 {
        cur
    } else {
        let f = flag_fold(items, n - 1, key, cur, vars, host);
        match items[n - 1] {
            DirectiveOrBlock::Directive(d) => if d.key.value@ == key && d.args@.len() > 0 {
                spec_parse_bool(spec_resolve_str(d.args@[0], vars, host))
            } else {
                f
            },
            _ => f,
        }
    }
}

/// The first `n` sub-blocks of an `auth { }` block applied to the gates
/// `(password enabled, totp required)`.
pub open spec fn auth_fold(subs: Seq<crate::ast::NamedBlock>, n: int, a: (Option<bool>, Option<bool>), vars: VarTable, host: HostInputs) -> (
    Option<bool>,
    Option<bool>,
)
    decreases n,
{
    if n <= 0 {
        a
    } else {
        let (pw, totp) = auth_fold(subs, n - 1, a, vars, host);
        let b = subs[n - 1];
        if b.name.value@ == "password"@ {
            (flag_fold(b.directives@, b.directives@.len() as int, "enabled"@, pw, vars, host), totp)
        } else if b.name.value@ == "totp"@ {
            (pw, flag_fold(b.directives@, b.directives@.len() as int, "required"@, totp, vars, host))
        } else {
            (pw, totp)
        }
    }
}

fn apply_flag(cur: &mut Option<bool>, items: &Vec<DirectiveOrBlock>, key: &str, vars: &Vec<(String, String)>, host: &HostInputs)
    ensures
        *final(cur) == flag_fold(items@, items@.len() as int, key@, *old(cur), pairs_view(vars@), *host),
{
    let ghost c0 = *cur;
    let mut i: usize = 0;
    while i < items.len()
        invariant
            i <= items@.len(),
            c0 == *old(cur),
            *cur == flag_fold(items@, i as int, key@, c0, pairs_view(vars@), *host),
        decreases items@.len() - i,
    {
        match &items[i] {
            DirectiveOrBlock::Directive(d) => {
                if str_eq(d.key.value.as_str(), key) && d.args.len() > 0 {
                    let v = resolve_str(&d.args[0], vars, host);
                    *cur = parse_bool(v.as_str());
                }
            },
            _ => {},
        }
        i = i + 1;
    }
}

/// Applies an `auth { }` block.
fn apply_auth(cfg: &mut AuthDslConfig, subs: &Vec<crate::ast::NamedBlock>, vars: &Vec<(String, String)>, host: &HostInputs)
    ensures
        (final(cfg).password.enabled, final(cfg).totp.required) == auth_fold(
            subs@,
            subs@.len() as int,
            (old(cfg).password.enabled, old(cfg).totp.required),
            pairs_view(vars@),
            *host,
        ),
{
    let ghost a0 = (cfg.password.enabled, cfg.totp.required);
    let mut i: usize = 0;
    while i < subs.len()
        invariant
            i <= subs@.len(),
            a0 == (old(cfg).password.enabled, old(cfg).totp.required),
            (cfg.password.enabled, cfg.totp.required) == auth_fold(subs@, i as int, a0, pairs_view(vars@), *host),
        decreases subs@.len() - i,
    {
        let b = &subs[i];
        if str_eq(b.name.value.as_str(), "password") {
            apply_flag(&mut cfg.password.enabled, &b.directives, "enabled", vars, host);
        } else if str_eq(b.name.value.as_str(), "totp") {
            apply_flag(&mut cfg.totp.required, &b.directives, "required", vars, host);
        }
        i = i + 1;
    }
}

// ─── The whole file ──────────────────────────────────────────────────────────

/// Fully resolved runtime configuration.
#[derive(Debug)]
pub struct RuntimeConfig {
    pub server: ServerConfig,
    pub pull_api: Option<PullApiConfig>,
    pub observability: Option<ObservabilityConfig>,
    pub mcp: Option<McpConfig>,
    /// Present when the file has an `oidc { }` block.
    pub oidc: Option<OidcDslConfig>,
    /// Present when the file has an `smtp { }` block.
    pub smtp: Option<SmtpDslConfig>,
    pub auth: AuthDslConfig,
    pub policy: PolicyConfig,
    pub alerts: AlertsConfig,
    pub jobs: Vec<JobConfig>,
    pub calendars: Vec<CalendarConfig>,
}

/// A runtime configuration as plain values, its jobs aside.
#[verifier::ext_equal]
pub struct RuntimeView {
    pub server: ServerView,
    pub pull_api: Option<PullApiView>,
    pub observability: Option<ObservabilityView>,
    pub mcp: Option<McpView>,
    pub oidc: Option<OidcView>,
    pub smtp: Option<SmtpView>,
    /// Password sign-in enabled, TOTP required.
    pub auth: (Option<bool>, Option<bool>),
    /// Adoption on mutate, strict calendars.
    pub policy: (bool, bool),
    pub alerts: AlertsView,
    pub calendars: Seq<CalendarView>,
}

pub open spec fn runtime_view(c: RuntimeConfig) -> RuntimeView {
    RuntimeView {
        server: server_view(c.server),
        pull_api: match c.pull_api {
            Some(p) => Some(pull_api_view(p)),
            None => None,
        },
        observability: match c.observability {
            Some(o) => Some(observability_view(o)),
            None => None,
        },
        mcp: match c.mcp {
            Some(m) => Some(mcp_view(m)),
            None => None,
        },
        oidc: match c.oidc {
            Some(o) => Some(oidc_view(o)),
            None => None,
        },
        smtp: match c.smtp {
            Some(s) => Some(smtp_view(s)),
            None => None,
        },
        auth: (c.auth.password.enabled, c.auth.totp.required),
        policy: (c.policy.dsl_adopt_on_mutate, c.policy.strict_calendars),
        alerts: alerts_view(c.alerts),
        calendars: c.calendars@.map_values(|k: CalendarConfig| calendar_view(k)),
    }
}

/// The configuration before any item.
pub open spec fn initial_runtime() -> RuntimeView {
    RuntimeView {
        server: ServerView {
            listen: ":4000"@,
            data_dir: "./.data"@,
            db: "sqlite"@,
            app_url: None,
            execution_retention: None,
        },
        pull_api: None,
        observability: None,
        mcp: None,
        oidc: None,
        smtp: None,
        auth: (None, None),
        policy: (false, true),
        alerts: AlertsView { channels: Seq::empty(), rules: Seq::empty() },
        calendars: Seq::empty(),
    }
}

/// One item of the file applied to the configuration so far: `server`,
/// `auth` and `policy` blocks layer over what is there, `pull_api`,
/// `observability`, `mcp`, `oidc`, `smtp` and `alerts` blocks replace it,
/// calendars are appended. Jobs and defaults are followed apart.
pub open spec fn runtime_step(r: RuntimeView, item: Item, vars: VarTable, host: HostInputs) -> RuntimeView {
    match item {
        Item::Server(s) => RuntimeView {
            server: server_block_fold(s.directives@, s.directives@.len() as int, r.server, vars, host),
            ..r
        },
        Item::PullApi(p) => RuntimeView {
            pull_api: Some(pull_api_fold(p.directives@, p.directives@.len() as int, vars, host)),
            ..r
        },
        Item::Observability(o) => RuntimeView {
            observability: Some(observability_fold(o.sub_blocks@, o.sub_blocks@.len() as int, vars, host)),
            ..r
        },
        Item::Mcp(m) => RuntimeView { mcp: Some(mcp_fold(m.directives@, m.directives@.len() as int, vars, host)), ..r },
        Item::Policy(p) => RuntimeView { policy: policy_fold(p.directives@, p.directives@.len() as int, r.policy), ..r },
        Item::Oidc(o) => RuntimeView { oidc: Some(oidc_fold(o.directives@, o.directives@.len() as int, vars, host)), ..r },
        Item::Smtp(s) => RuntimeView { smtp: Some(smtp_fold(s.directives@, s.directives@.len() as int, vars, host)), ..r },
        Item::Auth(a) => RuntimeView {
            auth: auth_fold(a.sub_blocks@, a.sub_blocks@.len() as int, r.auth, vars, host),
            ..r
        },
        Item::Alerts(a) => RuntimeView {
            alerts: alerts_fold(a.sub_blocks@, a.sub_blocks@.len() as int, vars, host),
            ..r
        },
        Item::Calendar(c) => RuntimeView { calendars: r.calendars.push(spec_calendar(c, vars, host)), ..r },
        _ => r,
    }
}

/// The configuration after the first `n` items.
pub open spec fn runtime_fold(items: Seq<Item>, n: int, vars: VarTable, host: HostInputs) -> RuntimeView
    decreases n,
{
    if n <= 0 {
        initial_runtime()
    } else {
        runtime_step(runtime_fold(items, n - 1, vars, host), items[n - 1], vars, host)
    }
}

/// `jobs` are the jobs among the first `n` items, in order, each compiled
/// under the defaults in force where it stands.
pub open spec fn jobs_match(items: Seq<Item>, n: int, jobs: Seq<JobConfig>, vars: VarTable, host: HostInputs) -> bool
    decreases n,
{
    if n <= 0 {
        jobs.len() == 0
    } else {
        match items[n - 1] {
            Item::Job(j) => jobs.len() > 0 && job_compiled(jobs.last(), j, defaults_fold(items, n - 1, vars, host), vars, host)
                && jobs_match(items, n - 1, jobs.drop_last(), vars, host),
            _ => jobs_match(items, n - 1, jobs, vars, host),
        }
    }
}

/// The runtime configuration of a file, its jobs aside.
pub open spec fn spec_compile(ast: Croniqfile, host: HostInputs) -> RuntimeView {
    runtime_fold(ast.items@, ast.items@.len() as int, spec_collect_vars(ast, host), host)
}

fn initial_job_defaults() -> (d: JobDefaults)
    ensures
        defaults_view(d) == initial_defaults(),
{
    let d = JobDefaults {
        timezone: None,
        timeout: None,
        retry: RetryConfig::default(),
        dead_letter: DeadLetterConfig::default(),
        execution_mode: ExecutionMode::Queued,
        catch_up: CatchUpPolicy::All,
        queue_ttl: None,
        max_queue_depth: None,
        keep_last: None,
    };
    assert(defaults_view(d) =~= initial_defaults());
    d
}

/// Compile a Croniqfile into its runtime configuration, `vars { }`
/// collected up front and placeholders resolved against them and the
/// host's inputs.
#[verifier::rlimit(40)]
pub fn compile(ast: &Croniqfile, host: &HostInputs) -> (r: RuntimeConfig)
    ensures
        runtime_view(r) == spec_compile(*ast, *host),
        jobs_match(ast.items@, ast.items@.len() as int, r.jobs@, spec_collect_vars(*ast, *host), *host),
{
    let vars = collect_vars(ast, host);
    let ghost vt = pairs_view(vars@);
    let mut rc = RuntimeConfig {
        server: ServerConfig {
            listen: owned(":4000"),
            data_dir: owned("./.data"),
            db: owned("sqlite"),
            app_url: None,
            execution_retention: None,
        },
        pull_api: None,
        observability: None,
        mcp: None,
        oidc: None,
        smtp: None,
        auth: AuthDslConfig { password: PasswordAuthConfig { enabled: None }, totp: TotpAuthConfig { required: None } },
        policy: PolicyConfig::default(),
        alerts: AlertsConfig { channels: Vec::new(), rules: Vec::new() },
        jobs: Vec::new(),
        calendars: Vec::new(),
    };
    let mut defaults = initial_job_defaults();
    assert(runtime_view(rc) =~= runtime_fold(ast.items@, 0, vt, *host));
    let mut i: usize = 0;
    while i < ast.items.len()
        invariant
            i <= ast.items@.len(),
            vt == pairs_view(vars@),
            runtime_view(rc) == runtime_fold(ast.items@, i as int, vt, *host),
            defaults_view(defaults) == defaults_fold(ast.items@, i as int, vt, *host),
            jobs_match(ast.items@, i as int, rc.jobs@, vt, *host),
        decreases ast.items@.len() - i,
    {
        let ghost before = rc.jobs@;
        match &ast.items[i] {
            Item::Server(s) => apply_server_block(&mut rc.server, &s.directives, &vars, host),
            Item::PullApi(p) => {
                rc.pull_api = Some(compile_pull_api(&p.directives, &vars, host));
            },
            Item::Defaults(d) => apply_defaults_block(&mut defaults, d, &vars, host),
            Item::Calendar(cal) => {
                let c = compile_calendar(cal, &vars, host);
                let ghost cb = rc.calendars@;
                let ghost cv = calendar_view(c);
                rc.calendars.push(c);
                assert(rc.calendars@.map_values(|k: CalendarConfig| calendar_view(k)) =~= cb.map_values(
                    |k: CalendarConfig| calendar_view(k),
                ).push(cv));
            },
            Item::Job(job) => {
                let c = compile_job(job, &defaults, &vars, host);
                rc.jobs.push(c);
                assert(rc.jobs@.drop_last() =~= before);
            },
            Item::Observability(o) => {
                rc.observability = Some(compile_observability(&o.sub_blocks, &vars, host));
            },
            Item::Mcp(m) => {
                rc.mcp = Some(compile_mcp(&m.directives, &vars, host));
            },
            Item::Policy(p) => apply_policy(&mut rc.policy, &p.directives),
            Item::Oidc(o) => {
                rc.oidc = Some(compile_oidc(&o.directives, &vars, host));
            },
            Item::Smtp(s) => {
                rc.smtp = Some(compile_smtp(&s.directives, &vars, host));
            },
            Item::Auth(a) => apply_auth(&mut rc.auth, &a.sub_blocks, &vars, host),
            Item::Alerts(a) => {
                rc.alerts = compile_alerts(a, &vars, host);
            },
            _ => {},
        }
        i = i + 1;
        assert(runtime_view(rc) =~= runtime_fold(ast.items@, i as int, vt, *host));
    }
    rc
}

// ─── Laws ────────────────────────────────────────────────────────────────────

/// An ephemeral job keeps nothing that only a persisted queue could honour:
/// no catch-up, no queue TTL, a queue depth of one, no run-history cap and
/// no concurrency limit.
pub proof fn lemma_ephemeral_job_drops_queue_settings(
    job: crate::ast::JobBlock,
    dv: DefaultsView,
    vars: VarTable,
    host: HostInputs,
)
    ensures
        ({
            let p = spec_job(job, dv, vars, host).parts;
            p.execution_mode == ExecutionMode::Ephemeral ==> {
                &&& p.catch_up == CatchUpPolicy::Discard
                &&& p.queue_ttl is None
                &&& p.max_queue_depth == Some(1u32)
                &&& p.keep_last is None
                &&& p.max_concurrent is None
            }
        }),
{
}

/// The value a table gives for a key just put into it.
proof fn lemma_lookup_after_insert<V>(t: Seq<(Seq<char>, V)>, k: Seq<char>, v: V)
    ensures
        lookup(table_insert(t, k, v), k) == Some(v),
{
    crate::placeholders::lemma_index_of_key(t, k);
    let t2 = table_insert(t, k, v);
    match index_of_key(t, k) {
        Some(i) => {
            assert forall|j: int| 0 <= j < i implies t2[j].0 != k by {
                assert(t2[j] == t[j]);
            }
            crate::placeholders::lemma_first_key_index(t2, k, i);
        },
        None => {
            assert forall|j: int| 0 <= j < t.len() implies t2[j].0 != k by {
                assert(t2[j] == t[j]);
            }
            crate::placeholders::lemma_first_key_index(t2, k, t.len() as int);
        },
    }
    crate::placeholders::lemma_index_of_key(t2, k);
}

/// A job's concurrency limit travels in its metadata: where the compiled

/// A job's concurrency limit, when it has one, is positive: `max_concurrent
/// 0` sets none, and `singleton` sets one.
pub proof fn lemma_concurrency_limit_positive(job: crate::ast::JobBlock, dv: DefaultsView, vars: VarTable, host: HostInputs)
    ensures
        spec_job(job, dv, vars, host).parts.max_concurrent matches Some(n) ==> n > 0,
{
    let start = job_start(job, dv, job_options(job, dv, vars, host).0);
    lemma_fold_keeps_limit_positive(job.directives@, job.directives@.len() as int, start, vars, host);
}

#[verifier::spinoff_prover]
#[verifier::rlimit(40)]
proof fn lemma_fold_keeps_limit_positive(items: Seq<DirectiveOrBlock>, n: int, p: JobParts, vars: VarTable, host: HostInputs)
    requires
        p.max_concurrent matches Some(k) ==> k > 0,
    ensures
        job_fold(items, n, p, vars, host).max_concurrent matches Some(k) ==> k > 0,
    decreases n,
{
    if n > 0 {
        lemma_fold_keeps_limit_positive(items, n - 1, p, vars, host);
        let q = job_fold(items, n - 1, p, vars, host);
        match items[n - 1] {
            DirectiveOrBlock::Directive(d) => {
                let r = job_directive_step(q, d, vars, host);
                assert(r.max_concurrent matches Some(k) ==> k > 0);
            },
            DirectiveOrBlock::Block(b) => {
                assert(job_block_step(q, b, vars, host).max_concurrent == q.max_concurrent);
            },
            _ => {},
        }
    }
}

/// job has a limit, the metadata maps `__max_concurrent` to it in decimal.
pub proof fn lemma_concurrency_limit_is_stamped(job: crate::ast::JobBlock, dv: DefaultsView, vars: VarTable, host: HostInputs)
    ensures
        ({
            let p = spec_job(job, dv, vars, host).parts;
            p.max_concurrent matches Some(n) ==> lookup(p.metadata, "__max_concurrent"@) == Some(decimal(n as nat))
        }),
{
    let raw = job_fold(job.directives@, job.directives@.len() as int, job_start(job, dv, job_options(job, dv, vars, host).0), vars, host);
    let q = if raw.execution_mode == ExecutionMode::Ephemeral {
        JobParts {
            catch_up: CatchUpPolicy::Discard,
            queue_ttl: None,
            max_queue_depth: Some(1),
            keep_last: None,
            max_concurrent: None,
            ..raw
        }
    } else {
        raw
    };
    match q.max_concurrent {
        Some(n) => lemma_lookup_after_insert(q.metadata, "__max_concurrent"@, decimal(n as nat)),
        None => {},
    }
}

/// The metadata a job declares itself, before a concurrency limit is
/// stamped into it.
pub open spec fn declared_metadata(job: crate::ast::JobBlock, dv: DefaultsView, vars: VarTable, host: HostInputs) -> Seq<(Seq<char>, Seq<char>)> {
    job_fold(job.directives@, job.directives@.len() as int, job_start(job, dv, job_options(job, dv, vars, host).0), vars, host).metadata
}

/// Nothing is stamped without a limit: where a job's own metadata does not
/// set `__max_concurrent`, the compiled metadata holds that key exactly
/// when the job has a concurrency limit, and then holds the limit, which
/// is positive.
pub proof fn lemma_stamp_only_with_limit(job: crate::ast::JobBlock, dv: DefaultsView, vars: VarTable, host: HostInputs)
    requires
        lookup(declared_metadata(job, dv, vars, host), "__max_concurrent"@) is None,
    ensures
        ({
            let p = spec_job(job, dv, vars, host).parts;
            &&& lookup(p.metadata, "__max_concurrent"@) == match p.max_concurrent {
                Some(n) => Some(decimal(n as nat)),
                None => None,
            }
            &&& p.max_concurrent matches Some(n) ==> n > 0
        }),
{
    lemma_concurrency_limit_is_stamped(job, dv, vars, host);
    lemma_concurrency_limit_positive(job, dv, vars, host);
}

proof fn lemma_insert_keeps_keys_distinct(t: VarTable, k: Seq<char>, v: Seq<char>)
    requires
        crate::fingerprint::distinct_keys(t),
    ensures
        crate::fingerprint::distinct_keys(table_insert(t, k, v)),
{
    crate::placeholders::lemma_index_of_key(t, k);
    let t2 = table_insert(t, k, v);
    assert forall|i: int, j: int| 0 <= i < t2.len() && 0 <= j < t2.len() && i != j implies #[trigger] t2[i].0
        != #[trigger] t2[j].0 by {
        match index_of_key(t, k) {
            Some(x) => {
                if i != x && j != x {
                    assert(t2[i] == t[i] && t2[j] == t[j]);
                } else if i == x {
                    assert(t2[j] == t[j]);
                    assert(t[x].0 == k);
                } else {
                    assert(t2[i] == t[i]);
                    assert(t[x].0 == k);
                }
            },
            None => {
                if i < t.len() && j < t.len() {
                    assert(t2[i] == t[i] && t2[j] == t[j]);
                } else if i < t.len() {
                    assert(t2[i] == t[i]);
                } else {
                    assert(t2[j] == t[j]);
                }
            },
        }
    }
}

#[verifier::spinoff_prover]
#[verifier::rlimit(40)]
proof fn lemma_metadata_fold_keys_distinct(items: Seq<DirectiveOrBlock>, n: int, md: VarTable, vars: VarTable, host: HostInputs)
    requires
        crate::fingerprint::distinct_keys(md),
    ensures
        crate::fingerprint::distinct_keys(metadata_fold(items, n, md, vars, host)),
    decreases n,
{
    if n > 0 {
        lemma_metadata_fold_keys_distinct(items, n - 1, md, vars, host);
        let m = metadata_fold(items, n - 1, md, vars, host);
        match items[n - 1] {
            DirectiveOrBlock::Directive(d) => match spec_first_arg(d, vars, host) {
                Some(v) => lemma_insert_keeps_keys_distinct(m, d.key.value@, v),
                None => {},
            },
            _ => {},
        }
    }
}

#[verifier::spinoff_prover]
#[verifier::rlimit(40)]
proof fn lemma_job_fold_keys_distinct(items: Seq<DirectiveOrBlock>, n: int, p: JobParts, vars: VarTable, host: HostInputs)
    requires
        crate::fingerprint::distinct_keys(p.metadata),
    ensures
        crate::fingerprint::distinct_keys(job_fold(items, n, p, vars, host).metadata),
    decreases n,
{
    if n > 0 {
        lemma_job_fold_keys_distinct(items, n - 1, p, vars, host);
        let q = job_fold(items, n - 1, p, vars, host);
        match items[n - 1] {
            DirectiveOrBlock::Directive(d) => {
                assert(job_directive_step(q, d, vars, host).metadata == q.metadata);
            },
            DirectiveOrBlock::Block(b) => {
                let name = b.name.value@;
                if name == "runner"@ {
                    match b.qualifier {
                        Some(qu) => if qu.value@ == "shell"@ || qu.value@ == "exec"@ {
                            match spec_runner_exec(b, vars, host) {
                                Some(e) => lemma_insert_keeps_keys_distinct(q.metadata, "__runner_exec"@, exec_json(e)),
                                None => {},
                            }
                        },
                        None => {},
                    }
                } else if name == "metadata"@ {
                    lemma_metadata_fold_keys_distinct(b.directives@, b.directives@.len() as int, q.metadata, vars, host);
                }
            },
            _ => {},
        }
    }
}

/// A compiled job's metadata is a map: no key occurs in it twice.
pub proof fn lemma_job_metadata_keys_distinct(job: crate::ast::JobBlock, dv: DefaultsView, vars: VarTable, host: HostInputs)
    ensures
        crate::fingerprint::distinct_keys(spec_job(job, dv, vars, host).parts.metadata),
{
    let start = job_start(job, dv, job_options(job, dv, vars, host).0);
    lemma_job_fold_keys_distinct(job.directives@, job.directives@.len() as int, start, vars, host);
    let raw = job_fold(job.directives@, job.directives@.len() as int, start, vars, host);
    let q = if raw.execution_mode == ExecutionMode::Ephemeral {
        JobParts {
            catch_up: CatchUpPolicy::Discard,
            queue_ttl: None,
            max_queue_depth: Some(1),
            keep_last: None,
            max_concurrent: None,
            ..raw
        }
    } else {
        raw
    };
    match q.max_concurrent {
        Some(n) => lemma_insert_keeps_keys_distinct(q.metadata, "__max_concurrent"@, decimal(n as nat)),
        None => {},
    }
}

/// A rule whose trigger is a missed SLA or a missed fire always carries
/// the `expected_within` it is measured against.
pub proof fn lemma_timed_rules_have_a_window(name: Seq<char>, block: crate::ast::NamedBlock, vars: VarTable, host: HostInputs)
    ensures
        spec_rule(name, block, vars, host) matches Some(r) ==> (r.trigger != RuleTrigger::JobFailed ==> r.expected_within is Some),
{
}

/// Tags adding keeps a tag list free of duplicates and of empty tags.
proof fn lemma_tags_fold_distinct(args: Seq<StringValue>, n: int, tags: Seq<Seq<char>>, vars: VarTable, host: HostInputs)
    requires
        tags.no_duplicates(),
        forall|i: int| 0 <= i < tags.len() ==> #[trigger] tags[i].len() > 0,
    ensures
        tags_fold(args, n, tags, vars, host).no_duplicates(),
        forall|i: int|
            0 <= i < tags_fold(args, n, tags, vars, host).len() ==> #[trigger] tags_fold(args, n, tags, vars, host)[i].len() > 0,
    decreases n,
{
    if n > 0 {
        lemma_tags_fold_distinct(args, n - 1, tags, vars, host);
        let p = tags_fold(args, n - 1, tags, vars, host);
        let v = spec_resolve_str(args[n - 1], vars, host);
        if v.len() > 0 && !p.contains(v) {
            let q = p.push(v);
            assert forall|i: int, j: int| 0 <= i < q.len() && 0 <= j < q.len() && i != j implies q[i] != q[j] by {
                if i < p.len() && j < p.len() {
                } else if i == p.len() {
                    assert(q[j] == p[j]);
                } else {
                    assert(q[i] == p[i]);
                }
            }
        }
    }
}

/// The walk over a job keeps its tag list free of duplicates and of empty tags.
proof fn lemma_job_fold_tags_distinct(items: Seq<DirectiveOrBlock>, n: int, p: JobParts, vars: VarTable, host: HostInputs)
    requires
        p.tags.no_duplicates(),
        forall|i: int| 0 <= i < p.tags.len() ==> #[trigger] p.tags[i].len() > 0,
    ensures
        job_fold(items, n, p, vars, host).tags.no_duplicates(),
        forall|i: int|
            0 <= i < job_fold(items, n, p, vars, host).tags.len() ==> #[trigger] job_fold(items, n, p, vars, host).tags[i].len()
                > 0,
    decreases n,
{
    if n > 0 {
        lemma_job_fold_tags_distinct(items, n - 1, p, vars, host);
        let q = job_fold(items, n - 1, p, vars, host);
        match items[n - 1] {
            DirectiveOrBlock::Directive(d) => {
                lemma_tags_fold_distinct(d.args@, d.args@.len() as int, q.tags, vars, host);
            },
            _ => {},
        }
    }
}

/// A compiled job's tags are distinct and none is empty: a repeated tag
/// keeps its first occurrence.
pub proof fn lemma_job_tags_distinct(job: crate::ast::JobBlock, dv: DefaultsView, vars: VarTable, host: HostInputs)
    ensures
        spec_job(job, dv, vars, host).parts.tags.no_duplicates(),
        forall|i: int|
            0 <= i < spec_job(job, dv, vars, host).parts.tags.len() ==> #[trigger] spec_job(job, dv, vars, host).parts.tags[i].len()
                > 0,
{
    lemma_job_fold_tags_distinct(
        job.directives@,
        job.directives@.len() as int,
        job_start(job, dv, job_options(job, dv, vars, host).0),
        vars,
        host,
    );
}

/// The channel walk never sets a webhook timeout below one second.
proof fn lemma_channel_fold_timeout(items: Seq<DirectiveOrBlock>, n: int, vars: VarTable, host: HostInputs)
    ensures
        channel_fold(items, n, vars, host).timeout_secs >= 1,
    decreases n,
{
    if n > 0 {
        lemma_channel_fold_timeout(items, n - 1, vars, host);
    }
}

/// A webhook channel waits at least one second for its endpoint.
pub proof fn lemma_webhook_timeout_at_least_one_second(block: crate::ast::NamedBlock, vars: VarTable, host: HostInputs)
    ensures
        spec_channel_kind(block, vars, host) matches KindView::Webhook(_, _, t) ==> t >= 1,
{
    lemma_channel_fold_timeout(block.directives@, block.directives@.len() as int, vars, host);
}

/// Names of a channel table.
pub open spec fn channel_names(t: Seq<(Seq<char>, KindView)>) -> Seq<Seq<char>> {
    t.map_values(|e: (Seq<char>, KindView)| e.0)
}

/// Putting an entry into a table whose keys are distinct keeps them distinct.
proof fn lemma_table_insert_distinct(t: Seq<(Seq<char>, KindView)>, k: Seq<char>, v: KindView)
    requires
        channel_names(t).no_duplicates(),
    ensures
        channel_names(table_insert(t, k, v)).no_duplicates(),
{
    crate::placeholders::lemma_index_of_key(t, k);
    let t2 = table_insert(t, k, v);
    let n2 = channel_names(t2);
    let n1 = channel_names(t);
    match index_of_key(t, k) {
        Some(i) => {
            assert forall|a: int, b: int| 0 <= a < n2.len() && 0 <= b < n2.len() && a != b implies n2[a] != n2[b] by {
                assert(n2[a] == t2[a].0);
                assert(n2[b] == t2[b].0);
                if a != i && b != i {
                    assert(n1[a] == t[a].0);
                    assert(n1[b] == t[b].0);
                } else if a == i {
                    assert(n1[b] == t[b].0);
                    assert(n1[i] == t[i].0);
                } else {
                    assert(n1[a] == t[a].0);
                    assert(n1[i] == t[i].0);
                }
            }
        },
        None => {
            assert forall|a: int, b: int| 0 <= a < n2.len() && 0 <= b < n2.len() && a != b implies n2[a] != n2[b] by {
                assert(n2[a] == t2[a].0);
                assert(n2[b] == t2[b].0);
                if a < t.len() && b < t.len() {
                    assert(n1[a] == t[a].0);
                    assert(n1[b] == t[b].0);
                }
            }
        },
    }
}

proof fn lemma_alerts_fold_distinct(subs: Seq<crate::ast::NamedBlock>, n: int, vars: VarTable, host: HostInputs)
    ensures
        channel_names(alerts_fold(subs, n, vars, host).channels).no_duplicates(),
    decreases n,
{
    if n <= 0 {
        assert(channel_names(alerts_fold(subs, n, vars, host).channels) =~= Seq::<Seq<char>>::empty());
    } else {
        lemma_alerts_fold_distinct(subs, n - 1, vars, host);
        let a = alerts_fold(subs, n - 1, vars, host);
        let sub = subs[n - 1];
        lemma_table_insert_distinct(a.channels, spec_qualifier(sub, vars, host), spec_channel_kind(sub, vars, host));
    }
}

/// An `alerts { }` block compiles to at most one channel per name.
pub proof fn lemma_channel_names_distinct(block: crate::ast::AlertsBlock, vars: VarTable, host: HostInputs)
    ensures
        channel_names(alerts_fold(block.sub_blocks@, block.sub_blocks@.len() as int, vars, host).channels).no_duplicates(),
{
    lemma_alerts_fold_distinct(block.sub_blocks@, block.sub_blocks@.len() as int, vars, host);
}

} // verus!
