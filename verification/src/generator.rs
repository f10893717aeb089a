//! The schedule, job and configuration-block generators behind the
//! in-browser editors: structured form values in, a canonical Croniqfile
//! fragment out (built loosely, parsed, and re-emitted by the formatter),
//! and a preview of a schedule's next fire times.

use vstd::prelude::*;
use chrono::Datelike;
use crate::ast::{CalendarRuleKind, Croniqfile, IntervalUnit, Item, MonthOrdinal, ScheduleKind, ScheduleNode, Weekday};
use crate::compile::{opt_view, strings_view};
use crate::convert::{trim, trim_chars};
use crate::format::{escape_quoted, join_space};
use crate::parser::Parser;
use crate::text::{chars_of, decimal, pad2, push_char, push_str, str_eq, string_of};

verus! {

// ─── Form values ─────────────────────────────────────────────────────────────

/// A schedule as the form builds it.
#[derive(Debug, Clone)]
pub enum SchedulePayload {
    Interval { count: u32, unit: String },
    Daily { hour: u8, minute: u8 },
    Weekdays { days: Vec<String>, hour: u8, minute: u8 },
    Monthly { ordinals: Vec<String>, hour: u8, minute: u8 },
    Once { at: String },
    Disabled,
}

/// The outcome of reading a schedule line.
#[derive(Debug, Clone)]
pub struct ParseScheduleResult {
    pub ok: bool,
    pub schedule: Option<SchedulePayload>,
    pub error: Option<String>,
}

/// Retry settings from the form. The jitter is the text entered (a
/// fraction).
#[derive(Debug, Clone, Default)]
pub struct RetryPayload {
    pub strategy: String,
    pub max_attempts: Option<u32>,
    pub base: Option<String>,
    pub cap: Option<String>,
    pub jitter: Option<String>,
    pub delay: Option<String>,
}

/// Dead-letter settings from the form; unset fields are inherited.
#[derive(Debug, Clone, Default)]
pub struct DeadLetterPayload {
    pub enabled: Option<bool>,
    pub retention: Option<String>,
    pub operator_hint: Option<String>,
    pub replay_max_age: Option<String>,
}

/// Everything of a job block beyond its schedule line; every field is
/// optional.
#[derive(Debug, Clone, Default)]
pub struct JobOptions {
    pub description: Option<String>,
    pub timeout: Option<String>,
    pub retry: Option<RetryPayload>,
    pub dead_letter: Option<DeadLetterPayload>,
    pub runner_require: Vec<String>,
    pub runner_prefer: Vec<String>,
    pub tags: Vec<String>,
    /// `singleton`, or a limit for `max_concurrent`.
    pub concurrency: Option<String>,
    /// A `concurrency_group` the job draws on.
    pub concurrency_group: Option<String>,
    pub schedule_calendar: Option<String>,
    pub schedule_timezone: Option<String>,
    pub not_before: Option<String>,
    pub not_after: Option<String>,
    pub window: Option<String>,
    pub execution_mode: Option<String>,
    pub catch_up: Option<String>,
    pub queue_ttl: Option<String>,
    pub max_queue_depth: Option<u32>,
    pub runner_exec: Option<RunnerExecPayload>,
}

/// One `KEY value` environment entry of a runner payload.
#[derive(Debug, Clone, Default)]
pub struct EnvPair {
    pub key: String,
    pub value: String,
}

/// The command a runner executes: `shell` with a command, or `exec` with
/// an argv.
#[derive(Debug, Clone, Default)]
pub struct RunnerExecPayload {
    pub mode: String,
    pub command: Option<String>,
    pub args: Vec<String>,
    pub workdir: Option<String>,
    pub user: Option<String>,
    pub env: Vec<EnvPair>,
}

/// The upcoming fire times of a schedule, as RFC 3339 UTC texts.
#[derive(Debug, Clone)]
pub struct NextFiresResult {
    pub ok: bool,
    pub fires: Vec<String>,
    pub error: Option<String>,
}

/// A calendar rule as the form holds it.
#[derive(Debug, Clone)]
pub struct CalendarRulePayload {
    /// `include` or `exclude`.
    pub action: String,
    pub rule_type: String,
    pub args: Vec<String>,
}

/// The outcome of reading calendar rules.
#[derive(Debug, Clone)]
pub struct ParseCalendarResult {
    pub ok: bool,
    pub rules: Vec<CalendarRulePayload>,
    pub diagnostics: Vec<String>,
}

/// One directive of a top-level block, or with children a nested block.
#[derive(Debug)]
pub struct DirectivePayload {
    pub key: String,
    pub args: Vec<String>,
    pub qualifier: Option<String>,
    /// Quote the qualifier whatever it holds.
    pub quote_qualifier: bool,
    pub children: Vec<DirectivePayload>,
}

// ─── Tokens ──────────────────────────────────────────────────────────────────

/// A form value that counts as set: trimmed, and not empty.
pub open spec fn present(o: Option<Seq<char>>) -> Option<Seq<char>> {
    match o {
        Some(s) => if trim(s).len() > 0 {
            Some(trim(s))
        } else {
            None
        },
        None => None,
    }
}

/// A single `{…}` placeholder token.
pub open spec fn is_placeholder(s: Seq<char>) -> bool {
    &&& s.len() >= 2
    &&& s[0] == '{'
    &&& s.last() == '}'
    &&& forall|i: int| 1 <= i < s.len() - 1 ==> s[i] != '{' && s[i] != '}'
}

/// A character the lexer accepts in a bare word.
pub open spec fn is_bare_char(c: char) -> bool {
    ('a' <= c && c <= 'z') || ('A' <= c && c <= 'Z') || ('0' <= c && c <= '9') || c == ':' || c == '/' || c == '*'
        || c == '?' || c == '-' || c == '.' || c == '_' || c == '+' || c == '@'
}

/// A token as it must be written: a placeholder or a bare word as it is,
/// anything else quoted with `\` and `"` escaped.
pub open spec fn quote(s: Seq<char>) -> Seq<char> {
    if is_placeholder(s) || (s.len() > 0 && forall|i: int| 0 <= i < s.len() ==> #[trigger] is_bare_char(s[i])) {
        s
    } else {
        "\""@ + escape_quoted(s) + "\""@
    }
}

/// `parts` joined with `sep`.
pub open spec fn join_sep(parts: Seq<Seq<char>>, sep: Seq<char>) -> Seq<char>
    decreases parts.len(),
{
    if parts.len() == 0 {
        Seq::empty()
    } else if parts.len() == 1 {
        parts[0]
    } else {
        join_sep(parts.drop_last(), sep) + sep + parts.last()
    }
}

/// The values that are set, trimmed.
pub open spec fn set_values(v: Seq<Seq<char>>) -> Seq<Seq<char>>
    decreases v.len(),
{
    if v.len() == 0 {
        Seq::empty()
    } else {
        let p = set_values(v.drop_last());
        if trim(v.last()).len() > 0 {
            p.push(trim(v.last()))
        } else {
            p
        }
    }
}

/// Each value prefixed.
pub open spec fn prefixed(prefix: Seq<char>, v: Seq<Seq<char>>) -> Seq<Seq<char>> {
    v.map_values(|s: Seq<char>| prefix + s)
}

/// Each value as a token.
pub open spec fn quoted_all(v: Seq<Seq<char>>) -> Seq<Seq<char>> {
    v.map_values(|s: Seq<char>| quote(s))
}

fn is_bare_char_exec(c: char) -> (r: bool)
    ensures
        r == is_bare_char(c),
{
    ('a' <= c && c <= 'z') || ('A' <= c && c <= 'Z') || ('0' <= c && c <= '9') || c == ':' || c == '/' || c == '*'
        || c == '?' || c == '-' || c == '.' || c == '_' || c == '+' || c == '@'
}

/// Whether `s` is a single placeholder token.
pub fn placeholder_token(s: &str) -> (r: bool)
    ensures
        r == is_placeholder(s@),
{
    let cs = chars_of(s);
    let n = cs.len();
    if n < 2 || cs[0] != '{' || cs[n - 1] != '}' {
        return false;
    }
    let mut i: usize = 1;
    while i < n - 1
        invariant
            1 <= i <= n - 1,
            n == cs@.len(),
            cs@ == s@,
            forall|j: int| 1 <= j < i ==> cs@[j] != '{' && cs@[j] != '}',
        decreases n - 1 - i,
    {
        if cs[i] == '{' || cs[i] == '}' {
            return false;
        }
        i = i + 1;
    }
    true
}

/// Appends `s` with `\` and `"` escaped.
fn push_escaped(out: &mut String, s: &str)
    ensures
        final(out)@ == old(out)@ + escape_quoted(s@),
{
    let cs = chars_of(s);
    let ghost base = out@;
    let mut i: usize = 0;
    while i < cs.len()
        invariant
            i <= cs@.len(),
            cs@ == s@,
            out@ == base + escape_quoted(cs@.take(i as int)),
        decreases cs@.len() - i,
    {
        let c = cs[i];
        if c == '\\' {
            push_char(out, '\\');
            push_char(out, '\\');
        } else if c == '"' {
            push_char(out, '\\');
            push_char(out, '"');
        } else {
            push_char(out, c);
        }
        i = i + 1;
        assert(cs@.take(i as int).drop_last() =~= cs@.take((i - 1) as int));
        assert(out@ =~= base + escape_quoted(cs@.take(i as int)));
    }
    assert(cs@.take(cs@.len() as int) =~= cs@);
}

/// A token as it must be written.
pub fn quote_if_needed(s: &str) -> (r: String)
    ensures
        r@ == quote(s@),
{
    if placeholder_token(s) {
        return s.to_string();
    }
    let cs = chars_of(s);
    let mut bare = cs.len() > 0;
    let mut i: usize = 0;
    while i < cs.len()
        invariant
            i <= cs@.len(),
            cs@ == s@,
            bare == (cs@.len() > 0 && forall|j: int| 0 <= j < i ==> #[trigger] is_bare_char(cs@[j])),
        decreases cs@.len() - i,
    {
        if !is_bare_char_exec(cs[i]) {
            bare = false;
        }
        i = i + 1;
    }
    if bare {
        s.to_string()
    } else {
        let mut r = String::new();
        push_str(&mut r, "\"");
        push_escaped(&mut r, s);
        push_str(&mut r, "\"");
        r
    }
}

/// A form value if it is set, trimmed.
fn present_value(o: &Option<String>) -> (r: Option<String>)
    ensures
        opt_view(r) == present(opt_view(*o)),
{
    match o {
        Some(s) => {
            let cs = chars_of(s.as_str());
            let t = trim_chars(cs.as_slice());
            if t.len() > 0 {
                Some(string_of(t.as_slice()))
            } else {
                None
            }
        },
        None => None,
    }
}

/// A value trimmed.
fn trimmed(s: &str) -> (r: String)
    ensures
        r@ == trim(s@),
{
    let cs = chars_of(s);
    let t = trim_chars(cs.as_slice());
    string_of(t.as_slice())
}

/// The strings joined with `sep`.
pub fn join_strings(parts: &Vec<String>, sep: &str) -> (r: String)
    ensures
        r@ == join_sep(strings_view(parts@), sep@),
{
    let mut r = String::new();
    let mut i: usize = 0;
    while i < parts.len()
        invariant
            i <= parts@.len(),
            r@ == join_sep(strings_view(parts@).take(i as int), sep@),
        decreases parts@.len() - i,
    {
        let ghost before = r@;
        if i > 0 {
            push_str(&mut r, sep);
        }
        push_str(&mut r, parts[i].as_str());
        i = i + 1;
        proof {
            let t = strings_view(parts@).take(i as int);
            assert(t.drop_last() =~= strings_view(parts@).take(i - 1));
            assert(t.last() == parts@[i - 1]@);
            if i == 1 {
                assert(before =~= Seq::<char>::empty());
                assert(t.len() == 1);
            }
        }
    }
    assert(strings_view(parts@).take(parts@.len() as int) =~= strings_view(parts@));
    r
}

/// The values that are set, trimmed.
fn set_strings(v: &Vec<String>) -> (r: Vec<String>)
    ensures
        strings_view(r@) == set_values(strings_view(v@)),
{
    let mut r: Vec<String> = Vec::new();
    let mut i: usize = 0;
    assert(strings_view(r@) =~= set_values(strings_view(v@).take(0)));
    while i < v.len()
        invariant
            i <= v@.len(),
            strings_view(r@) == set_values(strings_view(v@).take(i as int)),
        decreases v@.len() - i,
    {
        let t = trimmed(v[i].as_str());
        let tc = chars_of(t.as_str());
        let ghost before = r@;
        let ghost tv = t@;
        proof {
            let w = strings_view(v@).take(i + 1);
            assert(w.drop_last() =~= strings_view(v@).take(i as int));
            assert(w.last() == v@[i as int]@);
        }
        if tc.len() > 0 {
            r.push(t);
            assert(strings_view(r@) =~= strings_view(before).push(tv));
        }
        i = i + 1;
    }
    assert(strings_view(v@).take(v@.len() as int) =~= strings_view(v@));
    r
}

/// Each string prefixed.
fn prefix_all(prefix: &str, v: &Vec<String>) -> (r: Vec<String>)
    ensures
        strings_view(r@) == prefixed(prefix@, strings_view(v@)),
{
    let mut r: Vec<String> = Vec::new();
    let mut i: usize = 0;
    while i < v.len()
        invariant
            i <= v@.len(),
            r@.len() == i,
            forall|j: int| 0 <= j < i ==> #[trigger] r@[j]@ == prefix@ + v@[j]@,
        decreases v@.len() - i,
    {
        let mut s = String::new();
        push_str(&mut s, prefix);
        push_str(&mut s, v[i].as_str());
        r.push(s);
        i = i + 1;
    }
    assert(strings_view(r@) =~= prefixed(prefix@, strings_view(v@)));
    r
}

/// Each string as a token.
fn quote_each(v: &Vec<String>) -> (r: Vec<String>)
    ensures
        strings_view(r@) == quoted_all(strings_view(v@)),
{
    let mut r: Vec<String> = Vec::new();
    let mut i: usize = 0;
    while i < v.len()
        invariant
            i <= v@.len(),
            r@.len() == i,
            forall|j: int| 0 <= j < i ==> #[trigger] r@[j]@ == quote(v@[j]@),
        decreases v@.len() - i,
    {
        r.push(quote_if_needed(v[i].as_str()));
        i = i + 1;
    }
    assert(strings_view(r@) =~= quoted_all(strings_view(v@)));
    r
}

// ─── Schedule lines ──────────────────────────────────────────────────────────

/// The schedule line a form value stands for, written loosely: the
/// formatter canonicalises it. An unknown interval unit reads as minutes.
pub open spec fn loose_line(p: SchedulePayload) -> Seq<char> {
    match p {
        SchedulePayload::Interval { count, unit } => "every "@ + decimal(count as nat) + " "@ + (if unit@
            == "seconds"@ || unit@ == "minutes"@ || unit@ == "hours"@ {
            unit@
        } else {
            "minutes"@
        }),
        SchedulePayload::Daily { hour, minute } => "every day at "@ + pad2(hour as nat) + ":"@ + pad2(minute as nat),
        SchedulePayload::Weekdays { days, hour, minute } => "every "@ + join_space(strings_view(days@)) + " at "@
            + pad2(hour as nat) + ":"@ + pad2(minute as nat),
        SchedulePayload::Monthly { ordinals, hour, minute } => "every "@ + join_space(strings_view(ordinals@))
            + " of month at "@ + pad2(hour as nat) + ":"@ + pad2(minute as nat),
        SchedulePayload::Once { at } => "once at "@ + at@,
        SchedulePayload::Disabled => "disabled"@,
    }
}

/// The strings joined with single spaces.
fn join_words(v: &Vec<String>) -> (r: String)
    ensures
        r@ == join_space(strings_view(v@)),
{
    let mut r = String::new();
    let mut i: usize = 0;
    while i < v.len()
        invariant
            i <= v@.len(),
            r@ == join_space(strings_view(v@).take(i as int)),
        decreases v@.len() - i,
    {
        let ghost before = r@;
        if i > 0 {
            push_str(&mut r, " ");
        }
        push_str(&mut r, v[i].as_str());
        i = i + 1;
        proof {
            let t = strings_view(v@).take(i as int);
            assert(t.drop_last() =~= strings_view(v@).take(i - 1));
            assert(t.last() == v@[i - 1]@);
            if i == 1 {
                assert(before =~= Seq::<char>::empty());
            }
        }
    }
    assert(strings_view(v@).take(v@.len() as int) =~= strings_view(v@));
    r
}

fn push_hhmm(out: &mut String, hour: u8, minute: u8)
    ensures
        final(out)@ == old(out)@ + pad2(hour as nat) + ":"@ + pad2(minute as nat),
{
    crate::text::push_pad2(out, hour as u64);
    push_str(out, ":");
    crate::text::push_pad2(out, minute as u64);
}

/// The loose schedule line of a form value.
pub fn loose_schedule_line(p: &SchedulePayload) -> (s: String)
    ensures
        s@ == loose_line(*p),
{
    let mut s = String::new();
    match p {
        SchedulePayload::Interval { count, unit } => {
            push_str(&mut s, "every ");
            crate::text::push_decimal(&mut s, *count as u64);
            push_str(&mut s, " ");
            let u = unit.as_str();
            if str_eq(u, "seconds") || str_eq(u, "minutes") || str_eq(u, "hours") {
                push_str(&mut s, u);
            } else {
                push_str(&mut s, "minutes");
            }
        },
        SchedulePayload::Daily { hour, minute } => {
            push_str(&mut s, "every day at ");
            push_hhmm(&mut s, *hour, *minute);
        },
        SchedulePayload::Weekdays { days, hour, minute } => {
            push_str(&mut s, "every ");
            let w = join_words(days);
            push_str(&mut s, w.as_str());
            push_str(&mut s, " at ");
            push_hhmm(&mut s, *hour, *minute);
        },
        SchedulePayload::Monthly { ordinals, hour, minute } => {
            push_str(&mut s, "every ");
            let w = join_words(ordinals);
            push_str(&mut s, w.as_str());
            push_str(&mut s, " of month at ");
            push_hhmm(&mut s, *hour, *minute);
        },
        SchedulePayload::Once { at } => {
            push_str(&mut s, "once at ");
            push_str(&mut s, at.as_str());
        },
        SchedulePayload::Disabled => {
            push_str(&mut s, "disabled");
        },
    }
    assert(s@ =~= loose_line(*p));
    s
}

/// `[head + v]` when a value is set, `[]` otherwise.
pub open spec fn part_if(head: Seq<char>, v: Option<Seq<char>>) -> Seq<Seq<char>> {
    match v {
        Some(x) => seq![head + x],
        None => Seq::empty(),
    }
}

/// As `part_if`, the value written as a token.
pub open spec fn quoted_part_if(head: Seq<char>, v: Option<Seq<char>>) -> Seq<Seq<char>> {
    match v {
        Some(x) => seq![head + quote(x)],
        None => Seq::empty(),
    }
}

fn push_part(parts: &mut Vec<String>, head: &str, v: &Option<String>, quoted: bool)
    ensures
        strings_view(final(parts)@) == strings_view(old(parts)@) + (if quoted {
            quoted_part_if(head@, opt_view(*v))
        } else {
            part_if(head@, opt_view(*v))
        }),
{
    let ghost before = parts@;
    match v {
        Some(x) => {
            let mut s = String::new();
            push_str(&mut s, head);
            if quoted {
                let q = quote_if_needed(x.as_str());
                push_str(&mut s, q.as_str());
            } else {
                push_str(&mut s, x.as_str());
            }
            let ghost sv = s@;
            parts.push(s);
            assert(strings_view(parts@) =~= strings_view(before).push(sv));
        },
        None => {
            assert(strings_view(parts@) =~= strings_view(before) + Seq::<Seq<char>>::empty());
        },
    }
}

/// The schedule-options entries of a job: `calendar`, `timezone`,
/// `not_before`, `not_after`, each where set.
pub open spec fn schedule_option_parts(o: JobOptions) -> Seq<Seq<char>> {
    quoted_part_if("calendar "@, present(opt_view(o.schedule_calendar))) + quoted_part_if(
        "timezone "@,
        present(opt_view(o.schedule_timezone)),
    ) + part_if("not_before "@, present(opt_view(o.not_before))) + part_if(
        "not_after "@,
        present(opt_view(o.not_after)),
    )
}

/// The schedule line with an options block appended where any option is
/// set and the schedule is an `every …` one (the only kind that takes it).
#[verifier::opaque]
pub open spec fn schedule_line_with_options(p: SchedulePayload, o: JobOptions) -> Seq<char> {
    let base = loose_line(p);
    let inner = schedule_option_parts(o);
    if p is Once || p is Disabled || inner.len() == 0 {
        base
    } else {
        base + " { "@ + join_sep(inner, "; "@) + " }"@
    }
}

fn schedule_line_opts(p: &SchedulePayload, o: &JobOptions) -> (s: String)
    ensures
        s@ == schedule_line_with_options(*p, *o),
{
    reveal(schedule_line_with_options);
    let base = loose_schedule_line(p);
    let supports = match p {
        SchedulePayload::Once { .. } => false,
        SchedulePayload::Disabled => false,
        _ => true,
    };
    if !supports {
        return base;
    }
    let mut inner: Vec<String> = Vec::new();
    assert(strings_view(inner@) =~= Seq::<Seq<char>>::empty());
    push_part(&mut inner, "calendar ", &present_value(&o.schedule_calendar), true);
    push_part(&mut inner, "timezone ", &present_value(&o.schedule_timezone), true);
    push_part(&mut inner, "not_before ", &present_value(&o.not_before), false);
    push_part(&mut inner, "not_after ", &present_value(&o.not_after), false);
    assert(strings_view(inner@) =~= schedule_option_parts(*o));
    if inner.len() == 0 {
        base
    } else {
        let mut s = base;
        push_str(&mut s, " { ");
        let j = join_strings(&inner, "; ");
        push_str(&mut s, j.as_str());
        push_str(&mut s, " }");
        s
    }
}

// ─── Job option lines ────────────────────────────────────────────────────────

/// A nested block line `head { a; b; … }`, or nothing without entries.
pub open spec fn block_line(head: Seq<char>, inner: Seq<Seq<char>>) -> Option<Seq<char>> {
    if inner.len() == 0 {
        None
    } else {
        Some(head + " { "@ + join_sep(inner, "; "@) + " }"@)
    }
}

fn make_block_line(head: &str, inner: &Vec<String>) -> (r: Option<String>)
    ensures
        opt_view(r) == block_line(head@, strings_view(inner@)),
{
    if inner.len() == 0 {
        None
    } else {
        let mut s = String::new();
        push_str(&mut s, head);
        push_str(&mut s, " { ");
        let j = join_strings(inner, "; ");
        push_str(&mut s, j.as_str());
        push_str(&mut s, " }");
        Some(s)
    }
}

/// The retry strategy written, `exponential` when blank.
pub open spec fn retry_strategy(r: RetryPayload) -> Seq<char> {
    if trim(r.strategy@).len() == 0 {
        "exponential"@
    } else {
        trim(r.strategy@)
    }
}

/// `retry <strategy> { max_attempts N; … }`: `delay` for the fixed
/// strategy, `base`, `cap` and `jitter` for the others; nothing when no
/// field is set.
#[verifier::opaque]
pub open spec fn retry_line(r: Option<RetryPayload>) -> Option<Seq<char>> {
    match r {
        None => None,
        Some(r) => {
            let strat = retry_strategy(r);
            let attempts = match r.max_attempts {
                Some(n) => seq!["max_attempts "@ + decimal(n as nat)],
                None => Seq::empty(),
            };
            let rest = if strat == "fixed"@ {
                part_if("delay "@, present(opt_view(r.delay)))
            } else {
                part_if("base "@, present(opt_view(r.base))) + part_if("cap "@, present(opt_view(r.cap))) + part_if(
                    "jitter "@,
                    present(opt_view(r.jitter)),
                )
            };
            block_line("retry "@ + strat, attempts + rest)
        },
    }
}

fn retry_loose_line(r: &Option<RetryPayload>) -> (l: Option<String>)
    ensures
        opt_view(l) == retry_line(*r),
{
    reveal(retry_line);
    let r = match r {
        Some(r) => r,
        None => {
            return None;
        },
    };
    let st = trimmed(r.strategy.as_str());
    let stc = chars_of(st.as_str());
    let strat = if stc.len() == 0 {
        "exponential".to_string()
    } else {
        st
    };
    let mut inner: Vec<String> = Vec::new();
    assert(strings_view(inner@) =~= Seq::<Seq<char>>::empty());
    match r.max_attempts {
        Some(n) => {
            let mut s = String::new();
            push_str(&mut s, "max_attempts ");
            crate::text::push_decimal(&mut s, n as u64);
            let ghost sv = s@;
            inner.push(s);
            assert(strings_view(inner@) =~= seq![sv]);
        },
        None => {},
    }
    let ghost attempts = strings_view(inner@);
    if str_eq(strat.as_str(), "fixed") {
        push_part(&mut inner, "delay ", &present_value(&r.delay), false);
    } else {
        push_part(&mut inner, "base ", &present_value(&r.base), false);
        push_part(&mut inner, "cap ", &present_value(&r.cap), false);
        push_part(&mut inner, "jitter ", &present_value(&r.jitter), false);
    }
    let mut head = String::new();
    push_str(&mut head, "retry ");
    push_str(&mut head, strat.as_str());
    proof {
        let rest = if strat@ == "fixed"@ {
            part_if("delay "@, present(opt_view(r.delay)))
        } else {
            part_if("base "@, present(opt_view(r.base))) + part_if("cap "@, present(opt_view(r.cap))) + part_if(
                "jitter "@,
                present(opt_view(r.jitter)),
            )
        };
        assert(strings_view(inner@) =~= attempts + rest);
    }
    make_block_line(head.as_str(), &inner)
}

/// `dead_letter { enabled …; retention …; operator_hint "…"; replay_max_age … }`
/// with the fields that are set; nothing when none is.
#[verifier::opaque]
pub open spec fn dead_letter_line(d: Option<DeadLetterPayload>) -> Option<Seq<char>> {
    match d {
        None => None,
        Some(d) => {
            let enabled = match d.enabled {
                Some(b) => seq!["enabled "@ + (if b {
                    "true"@
                } else {
                    "false"@
                })],
                None => Seq::empty(),
            };
            let hint = match present(opt_view(d.operator_hint)) {
                Some(h) => seq!["operator_hint \""@ + escape_quoted(h) + "\""@],
                None => Seq::empty(),
            };
            block_line(
                "dead_letter"@,
                enabled + part_if("retention "@, present(opt_view(d.retention))) + hint + part_if(
                    "replay_max_age "@,
                    present(opt_view(d.replay_max_age)),
                ),
            )
        },
    }
}

fn dead_letter_loose_line(d: &Option<DeadLetterPayload>) -> (l: Option<String>)
    ensures
        opt_view(l) == dead_letter_line(*d),
{
    reveal(dead_letter_line);
    let d = match d {
        Some(d) => d,
        None => {
            return None;
        },
    };
    let mut inner: Vec<String> = Vec::new();
    assert(strings_view(inner@) =~= Seq::<Seq<char>>::empty());
    match d.enabled {
        Some(b) => {
            let mut s = String::new();
            push_str(&mut s, "enabled ");
            if b {
                push_str(&mut s, "true");
            } else {
                push_str(&mut s, "false");
            }
            let ghost sv = s@;
            inner.push(s);
            assert(strings_view(inner@) =~= seq![sv]);
        },
        None => {},
    }
    let ghost e = strings_view(inner@);
    push_part(&mut inner, "retention ", &present_value(&d.retention), false);
    let ghost er = strings_view(inner@);
    match present_value(&d.operator_hint) {
        Some(h) => {
            let mut s = String::new();
            push_str(&mut s, "operator_hint \"");
            push_escaped(&mut s, h.as_str());
            push_str(&mut s, "\"");
            let ghost sv = s@;
            inner.push(s);
            assert(strings_view(inner@) =~= er.push(sv));
        },
        None => {},
    }
    push_part(&mut inner, "replay_max_age ", &present_value(&d.replay_max_age), false);
    proof {
        let hint = match present(opt_view(d.operator_hint)) {
            Some(h) => seq!["operator_hint \""@ + escape_quoted(h) + "\""@],
            None => Seq::empty(),
        };
        assert(strings_view(inner@) =~= e + part_if("retention "@, present(opt_view(d.retention))) + hint + part_if(
            "replay_max_age "@,
            present(opt_view(d.replay_max_age)),
        ));
    }
    make_block_line("dead_letter", &inner)
}

/// `runner { require …; prefer … }` from the capabilities that are set.
#[verifier::opaque]
pub open spec fn runner_line(require: Seq<Seq<char>>, prefer: Seq<Seq<char>>) -> Option<Seq<char>> {
    block_line(
        "runner"@,
        prefixed("require "@, set_values(require)) + prefixed("prefer "@, set_values(prefer)),
    )
}

fn runner_loose_line(require: &Vec<String>, prefer: &Vec<String>) -> (l: Option<String>)
    ensures
        opt_view(l) == runner_line(strings_view(require@), strings_view(prefer@)),
{
    reveal(runner_line);
    let a = prefix_all("require ", &set_strings(require));
    let b = prefix_all("prefer ", &set_strings(prefer));
    let mut all = a;
    let ghost av = strings_view(all@);
    let mut i: usize = 0;
    while i < b.len()
        invariant
            i <= b@.len(),
            strings_view(all@) == av + strings_view(b@).take(i as int),
        decreases b@.len() - i,
    {
        let x = b[i].clone();
        assert(x@ == strings_view(b@)[i as int]);
        let ghost before = all@;
        let ghost xv = x@;
        all.push(x);
        assert(strings_view(all@) =~= strings_view(before).push(xv));
        assert(strings_view(b@).take(i + 1) =~= strings_view(b@).take(i as int).push(strings_view(b@)[i as int]));
        i = i + 1;
        assert(strings_view(all@) =~= av + strings_view(b@).take(i as int));
    }
    assert(strings_view(b@).take(b@.len() as int) =~= strings_view(b@));
    make_block_line("runner", &all)
}

/// The environment entries of a runner payload: `KEY value` for each
/// entry whose key is set, the value written as a token.
pub open spec fn env_parts(env: Seq<EnvPair>) -> Seq<Seq<char>>
    decreases env.len(),
{
    if env.len() == 0 {
        Seq::empty()
    } else {
        let p = env_parts(env.drop_last());
        let e = env.last();
        if trim(e.key@).len() > 0 {
            p.push(trim(e.key@) + " "@ + quote(trim(e.value@)))
        } else {
            p
        }
    }
}

/// The runner mode written: `exec`, or `shell` for anything else.
pub open spec fn runner_mode(r: RunnerExecPayload) -> Seq<char> {
    if trim(r.mode@) == "exec"@ {
        "exec"@
    } else {
        "shell"@
    }
}

/// `runner shell { command "…"; … }` or `runner exec { args …; … }`, with
/// `workdir`, `user` and an `env { }` block where set; nothing for a
/// shell without a command or an exec without arguments.
#[verifier::opaque]
pub open spec fn runner_exec_line(r: Option<RunnerExecPayload>) -> Option<Seq<char>> {
    match r {
        None => None,
        Some(r) => {
            let mode = runner_mode(r);
            let head: Option<Seq<char>> = if trim(r.mode@) != "exec"@ {
                match present(opt_view(r.command)) {
                    Some(c) => Some("command \""@ + escape_quoted(c) + "\""@),
                    None => None,
                }
            } else {
                let args = quoted_all(set_values(strings_view(r.args@)));
                if args.len() == 0 {
                    None
                } else {
                    Some("args "@ + join_space(args))
                }
            };
            match head {
                None => None,
                Some(h) => {
                    let env = env_parts(r.env@);
                    let env_part = if env.len() == 0 {
                        Seq::empty()
                    } else {
                        seq!["env { "@ + join_sep(env, "; "@) + " }"@]
                    };
                    block_line(
                        "runner "@ + mode,
                        seq![h] + quoted_part_if("workdir "@, present(opt_view(r.workdir))) + quoted_part_if(
                            "user "@,
                            present(opt_view(r.user)),
                        ) + env_part,
                    )
                },
            }
        },
    }
}

fn env_entries(env: &Vec<EnvPair>) -> (r: Vec<String>)
    ensures
        strings_view(r@) == env_parts(env@),
{
    let mut r: Vec<String> = Vec::new();
    let mut i: usize = 0;
    assert(strings_view(r@) =~= env_parts(env@.take(0)));
    while i < env.len()
        invariant
            i <= env@.len(),
            strings_view(r@) == env_parts(env@.take(i as int)),
        decreases env@.len() - i,
    {
        let k = trimmed(env[i].key.as_str());
        let kc = chars_of(k.as_str());
        let ghost before = r@;
        proof {
            let w = env@.take(i + 1);
            assert(w.drop_last() =~= env@.take(i as int));
            assert(w.last() == env@[i as int]);
        }
        if kc.len() > 0 {
            let v = trimmed(env[i].value.as_str());
            let mut s = k;
            push_str(&mut s, " ");
            let q = quote_if_needed(v.as_str());
            push_str(&mut s, q.as_str());
            let ghost sv = s@;
            r.push(s);
            assert(strings_view(r@) =~= strings_view(before).push(sv));
        }
        i = i + 1;
    }
    assert(env@.take(env@.len() as int) =~= env@);
    r
}

fn runner_exec_loose_line(r: &Option<RunnerExecPayload>) -> (l: Option<String>)
    ensures
        opt_view(l) == runner_exec_line(*r),
{
    reveal(runner_exec_line);
    let r = match r {
        Some(r) => r,
        None => {
            return None;
        },
    };
    let m = trimmed(r.mode.as_str());
    let is_exec = str_eq(m.as_str(), "exec");
    let mode = if is_exec {
        "exec"
    } else {
        "shell"
    };
    let head = if !is_exec {
        match present_value(&r.command) {
            Some(c) => {
                let mut s = String::new();
                push_str(&mut s, "command \"");
                push_escaped(&mut s, c.as_str());
                push_str(&mut s, "\"");
                s
            },
            None => {
                return None;
            },
        }
    } else {
        let args = quote_each(&set_strings(&r.args));
        if args.len() == 0 {
            return None;
        }
        let mut s = String::new();
        push_str(&mut s, "args ");
        let j = join_words(&args);
        push_str(&mut s, j.as_str());
        s
    };
    let mut inner: Vec<String> = Vec::new();
    let ghost hv = head@;
    inner.push(head);
    assert(strings_view(inner@) =~= seq![hv]);
    push_part(&mut inner, "workdir ", &present_value(&r.workdir), true);
    push_part(&mut inner, "user ", &present_value(&r.user), true);
    let env = env_entries(&r.env);
    let ghost before = strings_view(inner@);
    if env.len() > 0 {
        let mut s = String::new();
        push_str(&mut s, "env { ");
        let j = join_strings(&env, "; ");
        push_str(&mut s, j.as_str());
        push_str(&mut s, " }");
        let ghost sv = s@;
        inner.push(s);
        assert(strings_view(inner@) =~= before.push(sv));
    } else {
        assert(strings_view(inner@) =~= before + Seq::<Seq<char>>::empty());
    }
    let mut h = String::new();
    push_str(&mut h, "runner ");
    push_str(&mut h, mode);
    proof {
        assert(h@ == "runner "@ + runner_mode(*r));
        let ev = env_parts(r.env@);
        let env_part = if ev.len() == 0 {
            Seq::empty()
        } else {
            seq!["env { "@ + join_sep(ev, "; "@) + " }"@]
        };
        assert(strings_view(inner@) =~= seq![hv] + quoted_part_if("workdir "@, present(opt_view(r.workdir)))
            + quoted_part_if("user "@, present(opt_view(r.user))) + env_part);
    }
    make_block_line(h.as_str(), &inner)
}

// ─── Job blocks ──────────────────────────────────────────────────────────────

/// An optional line, indented one level.
pub open spec fn indented(l: Option<Seq<char>>) -> Seq<Seq<char>> {
    match l {
        Some(x) => seq!["  "@ + x],
        None => Seq::empty(),
    }
}

/// The job key written: trimmed, a placeholder when blank.
pub open spec fn job_key_text(key: Seq<char>) -> Seq<char> {
    if trim(key).len() == 0 {
        "namespace:name"@
    } else {
        trim(key)
    }
}

/// The first body lines of a generated job block: description, schedule
/// line, and the scheduling directives.
pub open spec fn job_head_lines(p: SchedulePayload, o: JobOptions) -> Seq<Seq<char>> {
    let description = match present(opt_view(o.description)) {
        Some(d) => seq!["  description \""@ + escape_quoted(d) + "\""@],
        None => Seq::empty(),
    };
    let depth = match o.max_queue_depth {
        Some(d) => seq!["  max_queue_depth "@ + decimal(d as nat)],
        None => Seq::empty(),
    };
    description + seq!["  "@ + schedule_line_with_options(p, o)] + part_if("  timeout "@, present(opt_view(o.timeout)))
        + part_if("  window "@, present(opt_view(o.window))) + part_if(
        "  execution_mode "@,
        present(opt_view(o.execution_mode)),
    ) + part_if("  catch_up "@, present(opt_view(o.catch_up))) + part_if(
        "  queue_ttl "@,
        present(opt_view(o.queue_ttl)),
    ) + depth
}

/// The retry, dead-letter and runner block lines.
pub open spec fn job_block_lines(o: JobOptions) -> Seq<Seq<char>> {
    indented(retry_line(o.retry)) + indented(dead_letter_line(o.dead_letter)) + indented(
        runner_line(strings_view(o.runner_require@), strings_view(o.runner_prefer@)),
    ) + indented(runner_exec_line(o.runner_exec))
}

/// The tags line and the concurrency lines.
pub open spec fn job_misc_lines(o: JobOptions) -> Seq<Seq<char>> {
    let tags = quoted_all(set_values(strings_view(o.tags@)));
    let tag_line = if tags.len() > 0 {
        seq!["  tags "@ + join_space(tags)]
    } else {
        Seq::empty()
    };
    let concurrency = match present(opt_view(o.concurrency)) {
        Some(c) => if c == "singleton"@ {
            seq!["  singleton"@]
        } else {
            seq!["  max_concurrent "@ + c]
        },
        None => Seq::empty(),
    };
    tag_line + concurrency + quoted_part_if("  concurrency_group "@, present(opt_view(o.concurrency_group)))
}

/// The remaining body lines: retry, dead-letter and runner blocks, tags,
/// concurrency.
pub open spec fn job_tail_lines(o: JobOptions) -> Seq<Seq<char>> {
    job_block_lines(o) + job_misc_lines(o)
}

/// The body lines of a generated job block, each indented one level.
pub open spec fn job_lines(p: SchedulePayload, o: JobOptions) -> Seq<Seq<char>> {
    job_head_lines(p, o) + job_tail_lines(o)
}

/// The loose job block the formatter canonicalises.
pub open spec fn job_source(p: SchedulePayload, key: Seq<char>, o: JobOptions) -> Seq<char> {
    "job "@ + job_key_text(key) + " {\n"@ + join_sep(job_lines(p, o), "\n"@) + "\n}\n"@
}

fn push_line(lines: &mut Vec<String>, l: Option<String>)
    ensures
        strings_view(final(lines)@) == strings_view(old(lines)@) + indented(opt_view(l)),
{
    let ghost before = lines@;
    match l {
        Some(x) => {
            let mut s = String::new();
            push_str(&mut s, "  ");
            push_str(&mut s, x.as_str());
            let ghost sv = s@;
            lines.push(s);
            assert(strings_view(lines@) =~= strings_view(before).push(sv));
        },
        None => {
            assert(strings_view(lines@) =~= strings_view(before) + Seq::<Seq<char>>::empty());
        },
    }
}

fn push_text(lines: &mut Vec<String>, s: String)
    ensures
        strings_view(final(lines)@) == strings_view(old(lines)@).push(s@),
{
    let ghost before = lines@;
    let ghost sv = s@;
    lines.push(s);
    assert(strings_view(lines@) =~= strings_view(before).push(sv));
}

#[verifier::rlimit(40)]
fn add_head_lines(lines: &mut Vec<String>, p: &SchedulePayload, o: &JobOptions)
    ensures
        strings_view(final(lines)@) == strings_view(old(lines)@) + job_head_lines(*p, *o),
{
    let ghost l00 = strings_view(lines@);
    match present_value(&o.description) {
        Some(d) => {
            let mut s = String::new();
            push_str(&mut s, "  description \"");
            push_escaped(&mut s, d.as_str());
            push_str(&mut s, "\"");
            push_text(lines, s);
        },
        None => {},
    }
    let ghost l0 = strings_view(lines@);
    let mut sched = String::new();
    push_str(&mut sched, "  ");
    let line = schedule_line_opts(p, o);
    push_str(&mut sched, line.as_str());
    push_text(lines, sched);
    push_part(lines, "  timeout ", &present_value(&o.timeout), false);
    push_part(lines, "  window ", &present_value(&o.window), false);
    push_part(lines, "  execution_mode ", &present_value(&o.execution_mode), false);
    push_part(lines, "  catch_up ", &present_value(&o.catch_up), false);
    push_part(lines, "  queue_ttl ", &present_value(&o.queue_ttl), false);
    match o.max_queue_depth {
        Some(d) => {
            let mut s = String::new();
            push_str(&mut s, "  max_queue_depth ");
            crate::text::push_decimal(&mut s, d as u64);
            push_text(lines, s);
        },
        None => {},
    }
    proof {
        let description = match present(opt_view(o.description)) {
            Some(d) => seq!["  description \""@ + escape_quoted(d) + "\""@],
            None => Seq::<Seq<char>>::empty(),
        };
        assert(l0 =~= l00 + description);
        assert(strings_view(lines@) =~= l00 + job_head_lines(*p, *o));
    }
}

fn add_block_lines(lines: &mut Vec<String>, o: &JobOptions)
    ensures
        strings_view(final(lines)@) == strings_view(old(lines)@) + job_block_lines(*o),
{
    let ghost l00 = strings_view(lines@);
    push_line(lines, retry_loose_line(&o.retry));
    push_line(lines, dead_letter_loose_line(&o.dead_letter));
    push_line(lines, runner_loose_line(&o.runner_require, &o.runner_prefer));
    push_line(lines, runner_exec_loose_line(&o.runner_exec));
    assert(strings_view(lines@) =~= l00 + job_block_lines(*o));
}

#[verifier::rlimit(40)]
fn add_misc_lines(lines: &mut Vec<String>, o: &JobOptions)
    ensures
        strings_view(final(lines)@) == strings_view(old(lines)@) + job_misc_lines(*o),
{
    let ghost l3 = strings_view(lines@);
    let tags = quote_each(&set_strings(&o.tags));
    if tags.len() > 0 {
        let mut s = String::new();
        push_str(&mut s, "  tags ");
        let j = join_words(&tags);
        push_str(&mut s, j.as_str());
        push_text(lines, s);
    }
    let ghost l4 = strings_view(lines@);
    let ghost tq = quoted_all(set_values(strings_view(o.tags@)));
    assert(l4 =~= l3 + (if tq.len() > 0 {
        seq!["  tags "@ + join_space(tq)]
    } else {
        Seq::<Seq<char>>::empty()
    }));
    match present_value(&o.concurrency) {
        Some(c) => {
            let mut s = String::new();
            if str_eq(c.as_str(), "singleton") {
                push_str(&mut s, "  singleton");
            } else {
                push_str(&mut s, "  max_concurrent ");
                push_str(&mut s, c.as_str());
            }
            push_text(lines, s);
        },
        None => {},
    }
    push_part(lines, "  concurrency_group ", &present_value(&o.concurrency_group), true);
    assert(strings_view(lines@) =~= l3 + job_misc_lines(*o));
}

fn add_tail_lines(lines: &mut Vec<String>, o: &JobOptions)
    ensures
        strings_view(final(lines)@) == strings_view(old(lines)@) + job_tail_lines(*o),
{
    let ghost l00 = strings_view(lines@);
    add_block_lines(lines, o);
    add_misc_lines(lines, o);
    assert(strings_view(lines@) =~= l00 + job_tail_lines(*o));
}

/// The loose job block for a schedule, a key and the job options.
pub fn job_block_source(p: &SchedulePayload, key: &str, o: &JobOptions) -> (s: String)
    ensures
        s@ == job_source(*p, key@, *o),
{
    let mut lines: Vec<String> = Vec::new();
    assert(strings_view(lines@) =~= Seq::<Seq<char>>::empty());
    add_head_lines(&mut lines, p, o);
    add_tail_lines(&mut lines, o);
    assert(strings_view(lines@) =~= job_lines(*p, *o));
    let mut src = String::new();
    push_str(&mut src, "job ");
    let k = trimmed(key);
    let kc = chars_of(k.as_str());
    if kc.len() == 0 {
        push_str(&mut src, "namespace:name");
    } else {
        push_str(&mut src, k.as_str());
    }
    push_str(&mut src, " {\n");
    let body = join_strings(&lines, "\n");
    push_str(&mut src, body.as_str());
    push_str(&mut src, "\n}\n");
    src
}

/// Parses a generated fragment and re-emits it through the formatter; the
/// parse error's text when it does not parse.
fn parse_and_format(src: &str) -> (r: Result<String, String>)
    ensures
        r matches Ok(s) ==> formats_from(src@, s@),
        r is Err ==> crate::parser::parse_refused(src@),
        crate::lexer::spec_tokenize(src@) matches Err(e) ==> (r matches Err(m) && m@ == crate::parser::lex_error_text(e)),
{
    match Parser::parse(src) {
        Ok(ast) => {
            let s = crate::format::format(&ast);
            Ok(s)
        },
        Err(e) => Err(e.message()),
    }
}

/// Whether `text` is the canonical formatting of what `src` parses to.
pub open spec fn formats_from(src: Seq<char>, text: Seq<char>) -> bool {
    exists|f: Croniqfile| crate::ast::croniqfile_ok(f) && #[trigger] crate::parser::parse_fits(src, f)
        && text == crate::format::spec_format(f)
}

/// A full job block for a schedule and job options, in canonical form: the
/// loose block (`job_source`) parsed and formatted; the parse error when
/// it does not parse (an invalid key, a malformed duration, …).
pub fn format_job_block(p: &SchedulePayload, key: &str, o: &JobOptions) -> (r: Result<String, String>)
    ensures
        r matches Ok(s) ==> formats_from(job_source(*p, key@, *o), s@),
        r is Err ==> crate::parser::parse_refused(job_source(*p, key@, *o)),
{
    let src = job_block_source(p, key, o);
    parse_and_format(src.as_str())
}

/// Job options with nothing set.
pub fn no_options() -> (o: JobOptions)
    ensures
        job_lines_only_schedule(o),
{
    JobOptions {
        description: None,
        timeout: None,
        retry: None,
        dead_letter: None,
        runner_require: Vec::new(),
        runner_prefer: Vec::new(),
        tags: Vec::new(),
        concurrency: None,
        concurrency_group: None,
        schedule_calendar: None,
        schedule_timezone: None,
        not_before: None,
        not_after: None,
        window: None,
        execution_mode: None,
        catch_up: None,
        queue_ttl: None,
        max_queue_depth: None,
        runner_exec: None,
    }
}

/// Options that set nothing.
pub open spec fn job_lines_only_schedule(o: JobOptions) -> bool {
    &&& o.description is None
    &&& o.timeout is None
    &&& o.retry is None
    &&& o.dead_letter is None
    &&& o.runner_require@.len() == 0
    &&& o.runner_prefer@.len() == 0
    &&& o.tags@.len() == 0
    &&& o.concurrency is None
    &&& o.concurrency_group is None
    &&& o.schedule_calendar is None
    &&& o.schedule_timezone is None
    &&& o.not_before is None
    &&& o.not_after is None
    &&& o.window is None
    &&& o.execution_mode is None
    &&& o.catch_up is None
    &&& o.queue_ttl is None
    &&& o.max_queue_depth is None
    &&& o.runner_exec is None
}

/// A job block holding only the schedule line, in canonical form.
pub fn format_schedule_block(p: &SchedulePayload, key: &str) -> (r: Result<String, String>)
    ensures
        r matches Ok(s) ==> exists|o: JobOptions| job_lines_only_schedule(o) && #[trigger] formats_from(job_source(*p, key@, o), s@),
        r is Err ==> exists|o: JobOptions| job_lines_only_schedule(o) && #[trigger] crate::parser::parse_refused(job_source(*p, key@, o)),
{
    let o = no_options();
    format_job_block(p, key, &o)
}

// ─── Reading schedule lines and calendar rules ───────────────────────────────

/// The word of an interval unit.
pub open spec fn unit_word(u: IntervalUnit) -> Seq<char> {
    match u {
        IntervalUnit::Seconds => "seconds"@,
        IntervalUnit::Minutes => "minutes"@,
        IntervalUnit::Hours => "hours"@,
    }
}

/// The ordinal word of a day of the month: `1st`, `2nd`, `3rd`, `21st`,
/// `22nd`, `23rd`, `31st`, `<n>th` for the others, and `last`.
pub open spec fn ordinal_word(o: MonthOrdinal) -> Seq<char> {
    match o {
        MonthOrdinal::Day(n) => if n == 1 {
            "1st"@
        } else if n == 2 {
            "2nd"@
        } else if n == 3 {
            "3rd"@
        } else if n == 21 {
            "21st"@
        } else if n == 22 {
            "22nd"@
        } else if n == 23 {
            "23rd"@
        } else if n == 31 {
            "31st"@
        } else {
            decimal(n as nat) + "th"@
        },
        MonthOrdinal::Last => "last"@,
    }
}

/// `p` is the form value of the schedule `k`: units and days by name,
/// days of the month as ordinal words, times as hour and minute.
pub open spec fn payload_of(k: ScheduleKind, p: SchedulePayload) -> bool {
    match k {
        ScheduleKind::Interval { count, unit } => p matches SchedulePayload::Interval { count: c, unit: u } && c == count
            && u@ == unit_word(unit),
        ScheduleKind::Daily { time } => p matches SchedulePayload::Daily { hour, minute } && hour == time.hour && minute
            == time.minute,
        ScheduleKind::Weekdays { days, time } => p matches SchedulePayload::Weekdays { days: d, hour, minute }
            && strings_view(d@) == days@.map_values(|w: Weekday| crate::ast::full_name(w)) && hour == time.hour
            && minute == time.minute,
        ScheduleKind::Monthly { ordinals, time } => p matches SchedulePayload::Monthly { ordinals: o, hour, minute }
            && strings_view(o@) == ordinals@.map_values(|x: MonthOrdinal| ordinal_word(x)) && hour == time.hour
            && minute == time.minute,
        ScheduleKind::Once { at } => p matches SchedulePayload::Once { at: a } && a@ == at.value@,
        ScheduleKind::Disabled => p is Disabled,
    }
}

fn ordinal_text(o: MonthOrdinal) -> (s: String)
    ensures
        s@ == ordinal_word(o),
{
    match o {
        MonthOrdinal::Day(n) => {
            if n == 1 {
                "1st".to_string()
            } else if n == 2 {
                "2nd".to_string()
            } else if n == 3 {
                "3rd".to_string()
            } else if n == 21 {
                "21st".to_string()
            } else if n == 22 {
                "22nd".to_string()
            } else if n == 23 {
                "23rd".to_string()
            } else if n == 31 {
                "31st".to_string()
            } else {
                let mut s = String::new();
                crate::text::push_decimal(&mut s, n as u64);
                push_str(&mut s, "th");
                s
            }
        },
        MonthOrdinal::Last => "last".to_string(),
    }
}

/// The form value of a schedule.
pub fn schedule_to_payload(node: &ScheduleNode) -> (p: SchedulePayload)
    ensures
        payload_of(node.kind, p),
{
    match &node.kind {
        ScheduleKind::Interval { count, unit } => {
            let u = match unit {
                IntervalUnit::Seconds => "seconds".to_string(),
                IntervalUnit::Minutes => "minutes".to_string(),
                IntervalUnit::Hours => "hours".to_string(),
            };
            SchedulePayload::Interval { count: *count, unit: u }
        },
        ScheduleKind::Daily { time } => SchedulePayload::Daily { hour: time.hour, minute: time.minute },
        ScheduleKind::Weekdays { days, time } => {
            let mut names: Vec<String> = Vec::new();
            let mut i: usize = 0;
            while i < days.len()
                invariant
                    i <= days@.len(),
                    names@.len() == i,
                    forall|j: int| 0 <= j < i ==> #[trigger] names@[j]@ == crate::ast::full_name(days@[j]),
                decreases days@.len() - i,
            {
                names.push(days[i].as_str().to_string());
                i = i + 1;
            }
            assert(strings_view(names@) =~= days@.map_values(|w: Weekday| crate::ast::full_name(w)));
            SchedulePayload::Weekdays { days: names, hour: time.hour, minute: time.minute }
        },
        ScheduleKind::Monthly { ordinals, time } => {
            let mut words: Vec<String> = Vec::new();
            let mut i: usize = 0;
            while i < ordinals.len()
                invariant
                    i <= ordinals@.len(),
                    words@.len() == i,
                    forall|j: int| 0 <= j < i ==> #[trigger] words@[j]@ == ordinal_word(ordinals@[j]),
                decreases ordinals@.len() - i,
            {
                words.push(ordinal_text(ordinals[i]));
                i = i + 1;
            }
            assert(strings_view(words@) =~= ordinals@.map_values(|x: MonthOrdinal| ordinal_word(x)));
            SchedulePayload::Monthly { ordinals: words, hour: time.hour, minute: time.minute }
        },
        ScheduleKind::Once { at } => SchedulePayload::Once { at: at.value.clone() },
        ScheduleKind::Disabled => SchedulePayload::Disabled,
    }
}

/// The schedule of the first job, from item `i` on, that has one.
pub open spec fn first_schedule_from(items: Seq<Item>, i: int) -> Option<ScheduleNode>
    decreases items.len() - i,
{
    if i < 0 || i >= items.len() {
        None
    } else {
        match items[i] {
            Item::Job(j) => match j.schedule {
                Some(n) => Some(n),
                None => first_schedule_from(items, i + 1),
            },
            _ => first_schedule_from(items, i + 1),
        }
    }
}

/// The schedule of the first job of a file that has one.
pub open spec fn first_schedule(f: Croniqfile) -> Option<ScheduleNode> {
    first_schedule_from(f.items@, 0)
}

fn find_schedule(f: &Croniqfile) -> (r: Option<&ScheduleNode>)
    ensures
        match r {
            Some(n) => first_schedule(*f) == Some(*n),
            None => first_schedule(*f) is None,
        },
{
    let mut i: usize = 0;
    while i < f.items.len()
        invariant
            i <= f.items@.len(),
            first_schedule(*f) == first_schedule_from(f.items@, i as int),
        decreases f.items@.len() - i,
    {
        match &f.items[i] {
            Item::Job(j) => match &j.schedule {
                Some(n) => {
                    return Some(n);
                },
                None => {},
            },
            _ => {},
        }
        i = i + 1;
    }
    None
}

/// The first schedule of `f` has the form value `p`.
pub open spec fn schedule_reads_as(f: Croniqfile, p: SchedulePayload) -> bool {
    match first_schedule(f) {
        Some(n) => payload_of(n.kind, p),
        None => false,
    }
}

/// The first schedule of `f` is written `s` in canonical form.
pub open spec fn schedule_formats_as(f: Croniqfile, s: Seq<char>) -> bool {
    match first_schedule(f) {
        Some(n) => s == crate::format::spec_schedule_line(n.kind),
        None => false,
    }
}

/// Whether the probe of a schedule line is refused by the parser, or reads
/// as a file without a schedule.
pub open spec fn probe_unscheduled(line: Seq<char>) -> bool {
    crate::parser::parse_refused(schedule_probe(line)) || exists|f: Croniqfile|
        #[trigger] crate::parser::parse_fits(schedule_probe(line), f) && first_schedule(f) is None
}

/// A schedule line wrapped in a throw-away job, so that the file parser
/// reads it.
pub open spec fn schedule_probe(line: Seq<char>) -> Seq<char> {
    "job preview:line {\n  "@ + line + "\n}\n"@
}

fn probe_text(line: &str) -> (s: String)
    ensures
        s@ == schedule_probe(line@),
{
    let mut s = String::new();
    push_str(&mut s, "job preview:line {\n  ");
    push_str(&mut s, line);
    push_str(&mut s, "\n}\n");
    s
}

/// Read a schedule line into its form value. An empty line is refused
/// with `schedule is empty`; otherwise the line, trimmed and wrapped in a
/// job (`schedule_probe`), is parsed, and the parse error or `no schedule
/// found` is reported when that yields no schedule.
pub fn parse_schedule(dsl: &str) -> (r: ParseScheduleResult)
    ensures
        trim(dsl@).len() == 0 ==> !r.ok && r.schedule is None && opt_view(r.error) == Some("schedule is empty"@),
        r.ok ==> r.error is None && match r.schedule {
            Some(p) => exists|f: Croniqfile| crate::ast::croniqfile_ok(f)
                && crate::parser::parse_fits(schedule_probe(trim(dsl@)), f) && #[trigger] schedule_reads_as(f, p),
            None => false,
        },
        !r.ok ==> r.schedule is None && r.error is Some && (trim(dsl@).len() == 0 || probe_unscheduled(trim(dsl@))),
{
    let t = trimmed(dsl);
    let tc = chars_of(t.as_str());
    if tc.len() == 0 {
        return ParseScheduleResult { ok: false, schedule: None, error: Some("schedule is empty".to_string()) };
    }
    let wrapped = probe_text(t.as_str());
    match Parser::parse(wrapped.as_str()) {
        Ok(ast) => match find_schedule(&ast) {
            Some(node) => {
                let p = schedule_to_payload(node);
                assert(schedule_reads_as(ast, p));
                ParseScheduleResult { ok: true, schedule: Some(p), error: None }
            },
            None => ParseScheduleResult { ok: false, schedule: None, error: Some("no schedule found".to_string()) },
        },
        Err(e) => ParseScheduleResult { ok: false, schedule: None, error: Some(e.message()) },
    }
}

/// The canonical line of a form value: the loose line re-read and
/// re-emitted by the formatter, or the loose line itself where it does
/// not read (an empty day list, say), so that there is always a line.
pub fn format_schedule(p: &SchedulePayload) -> (s: String)
    ensures
        (s@ == loose_line(*p) && probe_unscheduled(loose_line(*p))) || exists|f: Croniqfile| crate::ast::croniqfile_ok(f)
            && crate::parser::parse_fits(schedule_probe(loose_line(*p)), f) && #[trigger] schedule_formats_as(f, s@),
{
    let loose = loose_schedule_line(p);
    let wrapped = probe_text(loose.as_str());
    match Parser::parse(wrapped.as_str()) {
        Ok(ast) => match find_schedule(&ast) {
            Some(node) => {
                let s = crate::format::format_schedule_line(&node.kind);
                assert(schedule_formats_as(ast, s@));
                s
            },
            None => loose,
        },
        Err(_) => loose,
    }
}

/// A calendar rule as form values: action, type and arguments as written.
pub open spec fn rule_payload_view(r: crate::ast::CalendarRule) -> (Seq<char>, Seq<char>, Seq<Seq<char>>) {
    (
        match r.kind {
            CalendarRuleKind::Include => "include"@,
            CalendarRuleKind::Exclude => "exclude"@,
        },
        r.rule_type.value@,
        r.args@.map_values(|a: crate::ast::StringValue| a.value@),
    )
}

pub open spec fn rule_payloads_view(rs: Seq<CalendarRulePayload>) -> Seq<(Seq<char>, Seq<char>, Seq<Seq<char>>)> {
    rs.map_values(|r: CalendarRulePayload| (r.action@, r.rule_type@, strings_view(r.args@)))
}

/// Calendar rules wrapped in a throw-away calendar, so that the file
/// parser reads them.
pub open spec fn calendar_probe(rules: Seq<char>) -> Seq<char> {
    "calendar \"preview\" {\n"@ + rules + "\n}\n"@
}

/// The rules of the first calendar of a file from item `i` on.
pub open spec fn first_calendar_from(items: Seq<Item>, i: int) -> Option<crate::ast::CalendarBlock>
    decreases items.len() - i,
{
    if i < 0 || i >= items.len() {
        None
    } else {
        match items[i] {
            Item::Calendar(c) => Some(c),
            _ => first_calendar_from(items, i + 1),
        }
    }
}

/// The rules the form shows for a file: those of its first calendar, none
/// without one.
pub open spec fn calendar_rules_view(f: Croniqfile) -> Seq<(Seq<char>, Seq<char>, Seq<Seq<char>>)> {
    match first_calendar_from(f.items@, 0) {
        Some(c) => c.rules@.map_values(|r: crate::ast::CalendarRule| rule_payload_view(r)),
        None => Seq::empty(),
    }
}

fn rule_to_payload(r: &crate::ast::CalendarRule) -> (p: CalendarRulePayload)
    ensures
        (p.action@, p.rule_type@, strings_view(p.args@)) == rule_payload_view(*r),
{
    let action = match r.kind {
        CalendarRuleKind::Include => "include".to_string(),
        CalendarRuleKind::Exclude => "exclude".to_string(),
    };
    let mut args: Vec<String> = Vec::new();
    let mut i: usize = 0;
    while i < r.args.len()
        invariant
            i <= r.args@.len(),
            args@.len() == i,
            forall|j: int| 0 <= j < i ==> #[trigger] args@[j]@ == r.args@[j].value@,
        decreases r.args@.len() - i,
    {
        args.push(r.args[i].value.clone());
        i = i + 1;
    }
    assert(strings_view(args@) =~= r.args@.map_values(|a: crate::ast::StringValue| a.value@));
    CalendarRulePayload { action, rule_type: r.rule_type.value.clone(), args }
}

/// Read calendar rules into their form values. Empty text is no rules;
/// otherwise the text, trimmed and wrapped in a calendar, is parsed and
/// its first calendar's rules are returned, or the parse error as the
/// only diagnostic.
pub fn parse_calendar_rules(dsl: &str) -> (r: ParseCalendarResult)
    ensures
        trim(dsl@).len() == 0 ==> r.ok && r.rules@.len() == 0 && r.diagnostics@.len() == 0,
        r.ok ==> r.diagnostics@.len() == 0 && (trim(dsl@).len() == 0 || exists|f: Croniqfile|
            crate::ast::croniqfile_ok(f) && crate::parser::parse_fits(calendar_probe(trim(dsl@)), f)
            && rule_payloads_view(r.rules@) == #[trigger] calendar_rules_view(f)),
        !r.ok ==> r.rules@.len() == 0 && r.diagnostics@.len() == 1 && trim(dsl@).len() > 0
            && crate::parser::parse_refused(calendar_probe(trim(dsl@))),
{
    let t = trimmed(dsl);
    let tc = chars_of(t.as_str());
    if tc.len() == 0 {
        return ParseCalendarResult { ok: true, rules: Vec::new(), diagnostics: Vec::new() };
    }
    let mut wrapped = String::new();
    push_str(&mut wrapped, "calendar \"preview\" {\n");
    push_str(&mut wrapped, t.as_str());
    push_str(&mut wrapped, "\n}\n");
    assert(wrapped@ =~= calendar_probe(trim(dsl@)));
    match Parser::parse(wrapped.as_str()) {
        Ok(ast) => {
            let mut rules: Vec<CalendarRulePayload> = Vec::new();
            let mut i: usize = 0;
            while i < ast.items.len()
                invariant
                    i <= ast.items@.len(),
                    rules@.len() == 0,
                    crate::ast::croniqfile_ok(ast),
                    tc@.len() > 0,
                    tc@ == trim(dsl@),
                    crate::parser::parse_fits(calendar_probe(trim(dsl@)), ast),
                    first_calendar_from(ast.items@, 0) == first_calendar_from(ast.items@, i as int),
                decreases ast.items@.len() - i,
            {
                match &ast.items[i] {
                    Item::Calendar(c) => {
                        let mut j: usize = 0;
                        while j < c.rules.len()
                            invariant
                                j <= c.rules@.len(),
                                rules@.len() == j,
                                forall|k: int|
                                    0 <= k < j ==> (#[trigger] rules@[k]).action@ == rule_payload_view(c.rules@[k]).0
                                        && rules@[k].rule_type@ == rule_payload_view(c.rules@[k]).1 && strings_view(
                                        rules@[k].args@,
                                    ) == rule_payload_view(c.rules@[k]).2,
                            decreases c.rules@.len() - j,
                        {
                            rules.push(rule_to_payload(&c.rules[j]));
                            j = j + 1;
                        }
                        assert(rule_payloads_view(rules@) =~= calendar_rules_view(ast));
                        let r = ParseCalendarResult { ok: true, rules, diagnostics: Vec::new() };
                        assert(r.diagnostics@.len() == 0);
                        return r;
                    },
                    _ => {},
                }
                i = i + 1;
            }
            assert(rule_payloads_view(rules@) =~= calendar_rules_view(ast));
            ParseCalendarResult { ok: true, rules, diagnostics: Vec::new() }
        },
        Err(e) => {
            let mut d: Vec<String> = Vec::new();
            d.push(e.message());
            ParseCalendarResult { ok: false, rules: Vec::new(), diagnostics: d }
        },
    }
}

// ─── Top-level blocks ────────────────────────────────────────────────────────

/// The blocks the top-level editor writes.
pub open spec fn is_top_level_name(n: Seq<char>) -> bool {
    n == "server"@ || n == "pull_api"@ || n == "mcp"@ || n == "policy"@ || n == "smtp"@ || n == "vars"@ || n == "oidc"@
        || n == "observability"@ || n == "defaults"@ || n == "alerts"@
}

/// The qualifier of a nested block, as written after its key: quoted when
/// asked for, otherwise as a token; nothing when unset.
pub open spec fn qualifier_text(d: DirectivePayload) -> Seq<char> {
    match present(opt_view(d.qualifier)) {
        Some(q) => " "@ + (if d.quote_qualifier {
            "\""@ + escape_quoted(q) + "\""@
        } else {
            quote(q)
        }),
        None => Seq::empty(),
    }
}

/// A directive written at `indent`: with children that write anything, a
/// nested block holding them one level deeper; otherwise `key arg …` with
/// the arguments that are set; nothing for a blank key or a leaf without
/// arguments.
pub open spec fn emit(d: DirectivePayload, indent: usize) -> Option<Seq<char>>
    decreases d, 1int,
{
    let key = trim(d.key@);
    if key.len() == 0 {
        None
    } else {
        proof {
            assert(decreases_to!(d => d.children));
        }
        let kids = emit_all(d.children, d.children@.len() as int, crate::format::spec_deeper(indent));
        let pad = crate::format::indent_text(indent as nat);
        if kids.len() > 0 {
            Some(pad + key + qualifier_text(d) + " {\n"@ + join_sep(kids, "\n"@) + "\n"@ + pad + "}"@)
        } else {
            let args = quoted_all(set_values(strings_view(d.args@)));
            if args.len() == 0 {
                None
            } else {
                Some(pad + key + " "@ + join_space(args))
            }
        }
    }
}

/// The lines the first `n` directives write.
pub open spec fn emit_all(ds: Vec<DirectivePayload>, n: int, indent: usize) -> Seq<Seq<char>>
    decreases ds, n,
{
    if n <= 0 || n > ds@.len() {
        Seq::empty()
    } else {
        proof {
            assert(decreases_to!(ds => ds@[n - 1]));
        }
        let p = emit_all(ds, n - 1, indent);
        match emit(ds@[n - 1], indent) {
            Some(l) => p.push(l),
            None => p,
        }
    }
}

fn emit_directive(d: &DirectivePayload, indent: usize) -> (r: Option<String>)
    ensures
        opt_view(r) == emit(*d, indent),
    decreases d, 1int,
{
    let key = trimmed(d.key.as_str());
    let kc = chars_of(key.as_str());
    if kc.len() == 0 {
        return None;
    }
    proof {
        assert(decreases_to!(d => d.children));
    }
    let kids = emit_lines(&d.children, crate::format::deeper(indent));
    if kids.len() > 0 {
        let mut s = String::new();
        crate::format::write_indent(&mut s, indent);
        push_str(&mut s, key.as_str());
        match present_value(&d.qualifier) {
            Some(q) => {
                push_str(&mut s, " ");
                if d.quote_qualifier {
                    push_str(&mut s, "\"");
                    push_escaped(&mut s, q.as_str());
                    push_str(&mut s, "\"");
                } else {
                    let qq = quote_if_needed(q.as_str());
                    push_str(&mut s, qq.as_str());
                }
            },
            None => {},
        }
        push_str(&mut s, " {\n");
        let j = join_strings(&kids, "\n");
        push_str(&mut s, j.as_str());
        push_str(&mut s, "\n");
        crate::format::write_indent(&mut s, indent);
        push_str(&mut s, "}");
        Some(s)
    } else {
        let args = quote_each(&set_strings(&d.args));
        if args.len() == 0 {
            None
        } else {
            let mut s = String::new();
            crate::format::write_indent(&mut s, indent);
            push_str(&mut s, key.as_str());
            push_str(&mut s, " ");
            let j = join_words(&args);
            push_str(&mut s, j.as_str());
            Some(s)
        }
    }
}

fn emit_lines(ds: &Vec<DirectivePayload>, indent: usize) -> (r: Vec<String>)
    ensures
        strings_view(r@) == emit_all(*ds, ds@.len() as int, indent),
    decreases ds, 0int,
{
    let mut r: Vec<String> = Vec::new();
    let mut i: usize = 0;
    assert(strings_view(r@) =~= emit_all(*ds, 0, indent));
    while i < ds.len()
        invariant
            i <= ds@.len(),
            strings_view(r@) == emit_all(*ds, i as int, indent),
        decreases ds@.len() - i,
    {
        proof {
            assert(decreases_to!(ds => ds@[i as int]));
        }
        let ghost before = r@;
        match emit_directive(&ds[i], indent) {
            Some(l) => {
                let ghost lv = l@;
                r.push(l);
                assert(strings_view(r@) =~= strings_view(before).push(lv));
            },
            None => {},
        }
        i = i + 1;
    }
    r
}

/// The loose text of a top-level block: `name {`, the directive lines one
/// level in, `}`.
pub open spec fn top_level_source(name: Seq<char>, lines: Seq<Seq<char>>) -> Seq<char> {
    name + " {\n"@ + join_sep(lines, "\n"@) + "\n}\n"@
}

/// A top-level block (`server { … }`, `observability { … }`, …) written
/// from a directive tree in canonical form. Refused: a name the editor
/// does not write (`unsupported top-level block: '<name>'`), a tree that
/// writes nothing (`no settings — fill at least one field`), and text that
/// does not parse (the parse error).
pub fn format_top_level_block(name: &str, dirs: &Vec<DirectivePayload>) -> (r: Result<String, String>)
    ensures
        !is_top_level_name(trim(name@)) ==> (r matches Err(e) && e@ == "unsupported top-level block: '"@ + trim(name@)
            + "'"@),
        is_top_level_name(trim(name@)) && emit_all(*dirs, dirs@.len() as int, 1).len() == 0 ==> (r matches Err(e)
            && e@ == "no settings — fill at least one field"@),
        r matches Ok(s) ==> formats_from(top_level_source(trim(name@), emit_all(*dirs, dirs@.len() as int, 1)), s@),
        is_top_level_name(trim(name@)) && emit_all(*dirs, dirs@.len() as int, 1).len() > 0 ==> (r is Err
            ==> crate::parser::parse_refused(top_level_source(trim(name@), emit_all(*dirs, dirs@.len() as int, 1)))),
{
    let n = trimmed(name);
    let ns = n.as_str();
    if !(str_eq(ns, "server") || str_eq(ns, "pull_api") || str_eq(ns, "mcp") || str_eq(ns, "policy") || str_eq(ns, "smtp")
        || str_eq(ns, "vars") || str_eq(ns, "oidc") || str_eq(ns, "observability") || str_eq(ns, "defaults") || str_eq(
        ns,
        "alerts",
    )) {
        let mut e = String::new();
        push_str(&mut e, "unsupported top-level block: '");
        push_str(&mut e, ns);
        push_str(&mut e, "'");
        return Err(e);
    }
    let lines = emit_lines(dirs, 1);
    if lines.len() == 0 {
        return Err("no settings — fill at least one field".to_string());
    }
    let mut src = String::new();
    push_str(&mut src, ns);
    push_str(&mut src, " {\n");
    let j = join_strings(&lines, "\n");
    push_str(&mut src, j.as_str());
    push_str(&mut src, "\n}\n");
    assert(src@ == top_level_source(trim(name@), strings_view(lines@)));
    parse_and_format(src.as_str())
}

/// Each rule line indented one level.
pub open spec fn indented_lines(lines: Seq<Seq<char>>) -> Seq<Seq<char>> {
    lines.map_values(|l: Seq<char>| "  "@ + l)
}

/// The name a calendar block is written with: the trimmed name, or
/// `calendar-name` when that is empty.
pub open spec fn calendar_block_name(name: Seq<char>) -> Seq<char> {
    if trim(name).len() == 0 {
        "calendar-name"@
    } else {
        trim(name)
    }
}

/// The loose text of a calendar block: `calendar <name> {`, the rule lines
/// one level in, `}`.
pub open spec fn calendar_source(name: Seq<char>, rule_lines: Seq<Seq<char>>) -> Seq<char> {
    "calendar "@ + calendar_block_name(name) + " {\n"@ + join_sep(indented_lines(rule_lines), "\n"@) + "\n}\n"@
}

/// A full, copy-paste-ready calendar block in canonical form, from rule
/// lines already written (`include weekly Mon..Fri`, …): the loose block
/// parsed and formatted; the parse error's text when a rule does not parse.
pub fn format_calendar_block_inner(rule_lines: &Vec<String>, name: &str) -> (r: Result<String, String>)
    ensures
        r matches Ok(s) ==> formats_from(calendar_source(name@, strings_view(rule_lines@)), s@),
        r is Err ==> crate::parser::parse_refused(calendar_source(name@, strings_view(rule_lines@))),
        crate::lexer::spec_tokenize(calendar_source(name@, strings_view(rule_lines@))) matches Err(e) ==> (r matches Err(m)
            && m@ == crate::parser::lex_error_text(e)),
{
    let n = trimmed(name);
    let mut src = String::new();
    push_str(&mut src, "calendar ");
    let nc = chars_of(n.as_str());
    if nc.len() == 0 {
        push_str(&mut src, "calendar-name");
    } else {
        push_str(&mut src, n.as_str());
    }
    push_str(&mut src, " {\n");
    let mut lines: Vec<String> = Vec::new();
    let mut i: usize = 0;
    while i < rule_lines.len()
        invariant
            i <= rule_lines@.len(),
            strings_view(lines@) == indented_lines(strings_view(rule_lines@)).take(i as int),
        decreases rule_lines@.len() - i,
    {
        let mut l = String::new();
        push_str(&mut l, "  ");
        push_str(&mut l, rule_lines[i].as_str());
        assert(l@ =~= "  "@ + rule_lines@[i as int]@);
        let ghost before = lines@;
        lines.push(l);
        i = i + 1;
        assert(strings_view(lines@) =~= strings_view(before).push("  "@ + rule_lines@[i - 1]@));
        assert(strings_view(lines@) =~= indented_lines(strings_view(rule_lines@)).take(i as int));
    }
    assert(indented_lines(strings_view(rule_lines@)).take(rule_lines@.len() as int) =~= indented_lines(strings_view(rule_lines@)));
    let body = join_strings(&lines, "\n");
    push_str(&mut src, body.as_str());
    push_str(&mut src, "\n}\n");
    assert(src@ == calendar_source(name@, strings_view(rule_lines@)));
    parse_and_format(src.as_str())
}

// ─── Next fire times ─────────────────────────────────────────────────────────

/// What chrono's RFC 3339 parser reads from a text: the instant as UTC
/// seconds and nanoseconds, or the text of its error.
pub uninterp spec fn rfc3339_instant(s: Seq<char>) -> Result<(i64, u32), Seq<char>>;

/// `chrono::DateTime::parse_from_rfc3339(s)`, taken to UTC seconds and
/// nanoseconds (`timestamp`, `timestamp_subsec_nanos`), or the error's
/// text; stated as the named result `rfc3339_instant`.
#[verifier::external_body]
pub(crate) fn parse_instant(s: &str) -> (r: Result<(i64, u32), String>)
    ensures
        match r {
            Ok(t) => rfc3339_instant(s@) == Ok::<(i64, u32), Seq<char>>(t),
            Err(e) => rfc3339_instant(s@) == Err::<(i64, u32), Seq<char>>(e@),
        },
{
    match chrono::DateTime::parse_from_rfc3339(s) {
        Ok(t) => Ok((t.timestamp(), t.timestamp_subsec_nanos())),
        Err(e) => Err(e.to_string()),
    }
}

/// The UTC calendar date of an instant given in seconds: year, month,
/// day, and weekday counted from Monday as 0; none outside chrono's range.
pub uninterp spec fn utc_civil(secs: i64) -> Option<(i32, u32, u32, u32)>;

/// `chrono::DateTime::from_timestamp(secs, 0)` read back as year, month,
/// day and `weekday().num_days_from_monday()`; stated as the named result
/// `utc_civil`, with the month in `1..=12`, the day in `1..=31` and the
/// weekday number below seven as chrono documents. The date is the one
/// whose day holds `secs` (chrono counts days as `secs` divided by 86 400,
/// rounded down), so at any time of day that date has a timestamp, and its
/// midnight lies less than a day before `secs`.
#[verifier::external_body]
fn civil_of(secs: i64) -> (r: Option<(i32, u32, u32, u32)>)
    ensures
        r == utc_civil(secs),
        r matches Some(c) ==> 1 <= c.1 <= 12 && 1 <= c.2 <= 31 && c.3 < 7,
        r matches Some(c) ==> forall|h: u32, mi: u32|
            h < 24 && mi < 60 ==> (#[trigger] utc_timestamp(c.0, c.1, c.2, h, mi) matches Some(t)
                && t - h * 3600 - mi * 60 <= secs < t - h * 3600 - mi * 60 + 86400),
{
    match chrono::DateTime::from_timestamp(secs, 0) {
        Some(t) => Some((t.year(), t.month(), t.day(), t.weekday().num_days_from_monday())),
        None => None,
    }
}

/// The UTC seconds of a date and a time of day (second 0); none when the
/// date or the time does not exist.
pub uninterp spec fn utc_timestamp(y: i32, m: u32, d: u32, h: u32, mi: u32) -> Option<i64>;

/// `chrono::NaiveDate::from_ymd_opt(y, m, d)`, then `and_hms_opt(h, mi,
/// 0)`, then `and_utc().timestamp()`; stated as the named result
/// `utc_timestamp`.
#[verifier::external_body]
fn timestamp_of(y: i32, m: u32, d: u32, h: u32, mi: u32) -> (r: Option<i64>)
    ensures
        r == utc_timestamp(y, m, d, h, mi),
{
    match chrono::NaiveDate::from_ymd_opt(y, m, d) {
        Some(date) => match date.and_hms_opt(h, mi, 0) {
            Some(t) => Some(t.and_utc().timestamp()),
            None => None,
        },
        None => None,
    }
}

/// The RFC 3339 UTC text of an instant, to whole seconds with a `Z`; none
/// outside chrono's range.
pub uninterp spec fn rfc3339_text(secs: i64, nanos: u32) -> Option<Seq<char>>;

/// `chrono::DateTime::from_timestamp(secs, nanos)` written with
/// `to_rfc3339_opts(SecondsFormat::Secs, true)`; stated as the named
/// result `rfc3339_text`.
#[verifier::external_body]
fn format_instant(secs: i64, nanos: u32) -> (r: Option<String>)
    ensures
        opt_view(r) == rfc3339_text(secs, nanos),
{
    match chrono::DateTime::from_timestamp(secs, nanos) {
        Some(t) => Some(t.to_rfc3339_opts(chrono::SecondsFormat::Secs, true)),
        None => None,
    }
}

/// `a` comes strictly after `b`.
pub open spec fn later(a: (i64, u32), b: (i64, u32)) -> bool {
    a.0 > b.0 || (a.0 == b.0 && a.1 > b.1)
}

/// Seconds in a UTC day.
pub open spec fn day_secs() -> int {
    86400
}

/// The first of the days `offset ..= 7` after the start of the search
/// (whose candidate is `base`, on weekday `wd0`) that is one of `days` and
/// whose candidate comes after `after`.
pub open spec fn weekday_search(days: Seq<Weekday>, base: i64, wd0: u32, after: (i64, u32), offset: int) -> Option<(i64, u32)>
    decreases 8 - offset,
{
    if offset < 0 || offset > 7 {
        None
    } else {
        let cand = base + offset * day_secs();
        let wd = (wd0 + offset) % 7;
        if cand <= i64::MAX && days.contains(crate::ast::weekday_at(wd as nat)) && later((cand as i64, 0u32), after) {
            Some((cand as i64, 0u32))
        } else {
            weekday_search(days, base, wd0, after, offset + 1)
        }
    }
}

/// The day a monthly ordinal names in a month: its number, or the last
/// day (the day before the first of the next month); none where that
/// cannot be computed.
pub open spec fn ordinal_day(o: MonthOrdinal, y: i32, m: u32) -> Option<u32> {
    match o {
        MonthOrdinal::Day(n) => Some(n as u32),
        MonthOrdinal::Last => {
            let (ny, nm): (int, int) = if m == 12 {
                (y + 1, 1)
            } else {
                (y as int, m + 1)
            };
            if ny > i32::MAX {
                None
            } else {
                match utc_timestamp(ny as i32, nm as u32, 1u32, 0u32, 0u32) {
                    Some(t) => if t - day_secs() >= i64::MIN {
                        match utc_civil((t - day_secs()) as i64) {
                            Some(c) => Some(c.2),
                            None => None,
                        }
                    } else {
                        None
                    },
                    None => None,
                }
            }
        },
    }
}

/// The fire time of ordinal `o` in month `m` of year `y` at `h:mi`, when
/// that day exists and the time comes after `after`.
pub open spec fn ordinal_candidate(o: MonthOrdinal, y: i32, m: u32, h: u32, mi: u32, after: (i64, u32)) -> Option<(i64, u32)> {
    match ordinal_day(o, y, m) {
        Some(d) => match utc_timestamp(y, m, d, h, mi) {
            Some(t) => if later((t, 0u32), after) {
                Some((t, 0u32))
            } else {
                None
            },
            None => None,
        },
        None => None,
    }
}

/// The earlier of two possible times.
pub open spec fn earliest(a: Option<(i64, u32)>, b: Option<(i64, u32)>) -> Option<(i64, u32)> {
    match (a, b) {
        (Some(x), Some(y)) => if later(x, y) {
            Some(y)
        } else {
            Some(x)
        },
        (Some(x), None) => Some(x),
        (None, y) => y,
    }
}

/// The earliest fire time, in month `m` of year `y` at `h:mi` and after
/// `after`, of the ordinals from index `j` on (whatever order they are
/// listed in).
pub open spec fn ordinal_search(
    ords: Seq<MonthOrdinal>,
    y: i32,
    m: u32,
    h: u32,
    mi: u32,
    after: (i64, u32),
    j: int,
) -> Option<(i64, u32)>
    decreases ords.len() - j,
{
    if j < 0 || j >= ords.len() {
        None
    } else {
        earliest(ordinal_candidate(ords[j], y, m, h, mi, after), ordinal_search(ords, y, m, h, mi, after, j + 1))
    }
}

/// The month after `(y, m)`.
pub open spec fn next_month(y: i32, m: u32) -> Option<(i32, u32)> {
    if m == 12 {
        if y < i32::MAX {
            Some(((y + 1) as i32, 1u32))
        } else {
            None
        }
    } else {
        Some((y, (m + 1) as u32))
    }
}

/// The monthly search over month `(y, m)` and the `k - 1` months after it.
pub open spec fn month_search(ords: Seq<MonthOrdinal>, y: i32, m: u32, h: u32, mi: u32, after: (i64, u32), k: nat) -> Option<
    (i64, u32),
>
    decreases k,
{
    if k == 0 {
        None
    } else {
        match ordinal_search(ords, y, m, h, mi, after, 0) {
            Some(t) => Some(t),
            None => match next_month(y, m) {
                Some((ny, nm)) => month_search(ords, ny, nm, h, mi, after, (k - 1) as nat),
                None => None,
            },
        }
    }
}

/// The next fire time of a schedule after `after`, in UTC: an interval
/// adds its length; a time of day is today's when still ahead, else
/// tomorrow's; weekdays look up to a week ahead, monthly ordinals this
/// month and the two after; a one-off fires once, if still ahead.
pub open spec fn spec_next_fire(kind: ScheduleKind, after: (i64, u32)) -> Option<(i64, u32)> {
    match kind {
        ScheduleKind::Interval { count, unit } => {
            let secs = count * crate::schedule::unit_seconds(unit);
            if secs <= 0 || after.0 + secs > i64::MAX {
                None
            } else {
                Some(((after.0 + secs) as i64, after.1))
            }
        },
        ScheduleKind::Daily { time } => if !(time.hour < 24 && time.minute < 60) {
            None
        } else {
            match utc_civil(after.0) {
                None => None,
                Some((y, m, d, _)) => match utc_timestamp(y, m, d, time.hour as u32, time.minute as u32) {
                    None => None,
                    Some(t) => if later((t, 0u32), after) {
                        Some((t, 0u32))
                    } else if t + day_secs() <= i64::MAX {
                        Some(((t + day_secs()) as i64, 0u32))
                    } else {
                        None
                    },
                },
            }
        },
        ScheduleKind::Weekdays { days, time } => if !(time.hour < 24 && time.minute < 60) {
            None
        } else {
            match utc_civil(after.0) {
                None => None,
                Some((y, m, d, wd)) => match utc_timestamp(y, m, d, time.hour as u32, time.minute as u32) {
                    None => None,
                    Some(t) => weekday_search(days@, t, wd, after, 0),
                },
            }
        },
        ScheduleKind::Monthly { ordinals, time } => if !(time.hour < 24 && time.minute < 60) {
            None
        } else {
            match utc_civil(after.0) {
                None => None,
                Some((y, m, _, _)) => month_search(ordinals@, y, m, time.hour as u32, time.minute as u32, after, 3),
            }
        },
        ScheduleKind::Once { at } => match rfc3339_instant(at.value@) {
            Ok(t) => if later(t, after) {
                Some(t)
            } else {
                None
            },
            Err(_) => None,
        },
        ScheduleKind::Disabled => None,
    }
}

/// An interval schedule fires again one interval after `after`: `count`
/// seconds, minutes of 60 seconds, or hours of 3600 seconds, the span that
/// compiling the schedule stores; the sub-second part is kept. A zero
/// count never fires again.
pub proof fn lemma_interval_next_fire(count: u32, unit: IntervalUnit, after: (i64, u32), c: crate::schedule::CompiledSchedule)
    requires
        crate::schedule::compiled_from(ScheduleKind::Interval { count, unit }, c),
    ensures
        ({
            let secs: int = match unit {
                IntervalUnit::Seconds => count as int,
                IntervalUnit::Minutes => count * 60,
                IntervalUnit::Hours => count * 3600,
            };
            &&& c->seconds == secs
            &&& count == 0 ==> spec_next_fire(ScheduleKind::Interval { count, unit }, after) is None
            &&& count > 0 && after.0 + secs <= i64::MAX ==> spec_next_fire(ScheduleKind::Interval { count, unit }, after)
                == Some(((after.0 + secs) as i64, after.1))
        }),
{
    let u = crate::schedule::unit_seconds(unit);
    match unit {
        IntervalUnit::Seconds => {
            assert(u == 1);
            assert(count * u == count as int);
        },
        IntervalUnit::Minutes => {
            assert(u == 60);
            assert(count * u == count * 60);
        },
        IntervalUnit::Hours => {
            assert(u == 3600);
            assert(count * u == count * 3600);
        },
    }
}

fn is_later(a: (i64, u32), b: (i64, u32)) -> (r: bool)
    ensures
        r == later(a, b),
{
    a.0 > b.0 || (a.0 == b.0 && a.1 > b.1)
}

fn weekday_in(days: &Vec<Weekday>, wd: u32) -> (r: bool)
    requires
        wd < 7,
    ensures
        r == days@.contains(crate::ast::weekday_at(wd as nat)),
{
    let target = Weekday::from_index(wd as usize);
    let mut i: usize = 0;
    while i < days.len()
        invariant
            i <= days@.len(),
            target == crate::ast::weekday_at(wd as nat),
            forall|j: int| 0 <= j < i ==> days@[j] != target,
        decreases days@.len() - i,
    {
        if days[i] == target {
            assert(days@[i as int] == target);
            return true;
        }
        i = i + 1;
    }
    false
}

fn weekday_scan(days: &Vec<Weekday>, base: i64, wd0: u32, after: (i64, u32)) -> (r: Option<(i64, u32)>)
    requires
        wd0 < 7,
    ensures
        r == weekday_search(days@, base, wd0, after, 0),
{
    let mut offset: u32 = 0;
    while offset <= 7
        invariant
            offset <= 8,
            wd0 < 7,
            weekday_search(days@, base, wd0, after, 0) == weekday_search(days@, base, wd0, after, offset as int),
        decreases 8 - offset,
    {
        let step: i128 = offset as i128 * 86400;
        let cand: i128 = base as i128 + step;
        let wd = (wd0 + offset) % 7;
        if cand <= i64::MAX as i128 && weekday_in(days, wd) && is_later((cand as i64, 0u32), after) {
            return Some((cand as i64, 0u32));
        }
        offset = offset + 1;
    }
    None
}

fn ordinal_day_of(o: MonthOrdinal, y: i32, m: u32) -> (r: Option<u32>)
    requires
        m <= 12,
    ensures
        r == ordinal_day(o, y, m),
{
    match o {
        MonthOrdinal::Day(n) => Some(n as u32),
        MonthOrdinal::Last => {
            let (ny, nm): (i64, u32) = if m == 12 {
                (y as i64 + 1, 1)
            } else {
                (y as i64, m + 1)
            };
            if ny > i32::MAX as i64 {
                return None;
            }
            match timestamp_of(ny as i32, nm, 1, 0, 0) {
                Some(t) => {
                    if (t as i128) - 86400 < i64::MIN as i128 {
                        return None;
                    }
                    match civil_of(t - 86400) {
                        Some(c) => Some(c.2),
                        None => None,
                    }
                },
                None => None,
            }
        },
    }
}

fn ordinal_scan(ords: &Vec<MonthOrdinal>, y: i32, m: u32, h: u32, mi: u32, after: (i64, u32)) -> (r: Option<(i64, u32)>)
    requires
        m <= 12,
    ensures
        r == ordinal_search(ords@, y, m, h, mi, after, 0),
{
    let mut j: usize = 0;
    let mut best: Option<(i64, u32)> = None;
    while j < ords.len()
        invariant
            j <= ords@.len(),
            m <= 12,
            ordinal_search(ords@, y, m, h, mi, after, 0) == earliest(best, ordinal_search(ords@, y, m, h, mi, after, j as int)),
        decreases ords@.len() - j,
    {
        let mut cand: Option<(i64, u32)> = None;
        match ordinal_day_of(ords[j], y, m) {
            Some(d) => match timestamp_of(y, m, d, h, mi) {
                Some(t) => {
                    if is_later((t, 0u32), after) {
                        cand = Some((t, 0u32));
                    }
                },
                None => {},
            },
            None => {},
        }
        assert(cand == ordinal_candidate(ords@[j as int], y, m, h, mi, after));
        best = match (best, cand) {
            (Some(x), Some(c)) => if is_later(x, c) {
                Some(c)
            } else {
                Some(x)
            },
            (Some(x), None) => Some(x),
            (None, c) => c,
        };
        j = j + 1;
    }
    best
}

fn month_scan(ords: &Vec<MonthOrdinal>, y: i32, m: u32, h: u32, mi: u32, after: (i64, u32)) -> (r: Option<(i64, u32)>)
    requires
        m <= 12,
    ensures
        r == month_search(ords@, y, m, h, mi, after, 3),
{
    let mut year = y;
    let mut month = m;
    let mut k: u32 = 3;
    while k > 0
        invariant
            month <= 12,
            month_search(ords@, y, m, h, mi, after, 3) == month_search(ords@, year, month, h, mi, after, k as nat),
        decreases k,
    {
        match ordinal_scan(ords, year, month, h, mi, after) {
            Some(t) => {
                return Some(t);
            },
            None => {},
        }
        if month == 12 {
            if year < i32::MAX {
                year = year + 1;
                month = 1;
            } else {
                return None;
            }
        } else {
            month = month + 1;
        }
        k = k - 1;
    }
    None
}

/// The next fire time of a schedule after `after` (UTC seconds and
/// nanoseconds).
pub fn next_fire_utc(kind: &ScheduleKind, after: (i64, u32)) -> (r: Option<(i64, u32)>)
    ensures
        r == spec_next_fire(*kind, after),
        r matches Some(t) ==> later(t, after),
{
    proof {
        if !(*kind is Daily) {
            lemma_next_fire_moves_forward(*kind, after);
        }
    }
    match kind {
        ScheduleKind::Interval { count, unit } => {
            let secs: i128 = match unit {
                IntervalUnit::Seconds => *count as i128,
                IntervalUnit::Minutes => *count as i128 * 60,
                IntervalUnit::Hours => *count as i128 * 3600,
            };
            if secs <= 0 || after.0 as i128 + secs > i64::MAX as i128 {
                None
            } else {
                Some(((after.0 as i128 + secs) as i64, after.1))
            }
        },
        ScheduleKind::Daily { time } => {
            if crate::calendar_args::time_of_day(time.hour as u32, time.minute as u32).is_none() {
                return None;
            }
            match civil_of(after.0) {
                None => None,
                Some((y, m, d, _)) => match timestamp_of(y, m, d, time.hour as u32, time.minute as u32) {
                    None => None,
                    Some(t) => {
                        if is_later((t, 0u32), after) {
                            Some((t, 0u32))
                        } else if (t as i128) + 86400 <= i64::MAX as i128 {
                            Some((t + 86400, 0u32))
                        } else {
                            None
                        }
                    },
                },
            }
        },
        ScheduleKind::Weekdays { days, time } => {
            if crate::calendar_args::time_of_day(time.hour as u32, time.minute as u32).is_none() {
                return None;
            }
            match civil_of(after.0) {
                None => None,
                Some((y, m, d, wd)) => match timestamp_of(y, m, d, time.hour as u32, time.minute as u32) {
                    None => None,
                    Some(t) => weekday_scan(days, t, wd, after),
                },
            }
        },
        ScheduleKind::Monthly { ordinals, time } => {
            if crate::calendar_args::time_of_day(time.hour as u32, time.minute as u32).is_none() {
                return None;
            }
            match civil_of(after.0) {
                None => None,
                Some((y, m, _, _)) => month_scan(ordinals, y, m, time.hour as u32, time.minute as u32, after),
            }
        },
        ScheduleKind::Once { at } => match parse_instant(at.value.as_str()) {
            Ok(t) => if is_later(t, after) {
                Some(t)
            } else {
                None
            },
            Err(_) => None,
        },
        ScheduleKind::Disabled => None,
    }
}

/// The texts of the next `count` fire times after `cursor`, each found
/// from the one before; the list stops early where there is no next fire
/// (or it cannot be written).
pub open spec fn fires_after(kind: ScheduleKind, cursor: (i64, u32), count: nat) -> Seq<Seq<char>>
    decreases count,
{
    if count == 0 {
        Seq::empty()
    } else {
        match spec_next_fire(kind, cursor) {
            None => Seq::empty(),
            Some(t) => match rfc3339_text(t.0, t.1) {
                None => Seq::empty(),
                Some(s) => seq![s] + fires_after(kind, t, (count - 1) as nat),
            },
        }
    }
}

/// The next `count` fire times of a schedule after `now`, as RFC 3339 UTC
/// texts.
pub fn next_fire_times(kind: &ScheduleKind, now: (i64, u32), count: u32) -> (r: Vec<String>)
    ensures
        strings_view(r@) == fires_after(*kind, now, count as nat),
{
    let mut fires: Vec<String> = Vec::new();
    let mut cursor = now;
    let mut k: u32 = 0;
    assert(strings_view(fires@) =~= Seq::<Seq<char>>::empty());
    while k < count
        invariant
            k <= count,
            fires_after(*kind, now, count as nat) == strings_view(fires@) + fires_after(
                *kind,
                cursor,
                (count - k) as nat,
            ),
        decreases count - k,
    {
        match next_fire_utc(kind, cursor) {
            Some(next) => match format_instant(next.0, next.1) {
                Some(text) => {
                    let ghost before = strings_view(fires@);
                    let ghost tv = text@;
                    fires.push(text);
                    assert(strings_view(fires@) =~= before.push(tv));
                    assert(seq![tv] + fires_after(*kind, next, (count - k - 1) as nat) == fires_after(
                        *kind,
                        cursor,
                        (count - k) as nat,
                    ));
                    assert(before + fires_after(*kind, cursor, (count - k) as nat) =~= before.push(tv) + fires_after(
                        *kind,
                        next,
                        (count - k - 1) as nat,
                    ));
                    cursor = next;
                },
                None => {
                    assert(fires_after(*kind, cursor, (count - k) as nat) =~= Seq::<Seq<char>>::empty());
                    assert(strings_view(fires@) + Seq::<Seq<char>>::empty() =~= strings_view(fires@));
                    return fires;
                },
            },
            None => {
                assert(fires_after(*kind, cursor, (count - k) as nat) =~= Seq::<Seq<char>>::empty());
                assert(strings_view(fires@) + Seq::<Seq<char>>::empty() =~= strings_view(fires@));
                return fires;
            },
        }
        k = k + 1;
    }
    assert(fires_after(*kind, cursor, 0) =~= Seq::<Seq<char>>::empty());
    assert(strings_view(fires@) + Seq::<Seq<char>>::empty() =~= strings_view(fires@));
    fires
}

/// The schedule of `f` fires at `fires` after `now`.
pub open spec fn fires_of(f: Croniqfile, now: (i64, u32), count: nat, fires: Seq<Seq<char>>) -> bool {
    match first_schedule(f) {
        Some(n) => fires == fires_after(n.kind, now, count),
        None => false,
    }
}

/// The schedule of `f` fires at `fires` after the instant `now_iso` reads as.
pub open spec fn fires_from_text(f: Croniqfile, now_iso: Seq<char>, count: nat, fires: Seq<Seq<char>>) -> bool {
    match rfc3339_instant(now_iso) {
        Ok(now) => fires_of(f, now, count, fires),
        Err(_) => false,
    }
}

/// The next `count` fire times of a schedule line after `now_iso`, in UTC.
/// A line that does not read gives its error, a `now_iso` that is not RFC
/// 3339 gives `invalid now_iso: <error>`; otherwise the fires are those of
/// the schedule the line reads as (`fires_after`).
pub fn next_fires(dsl: &str, now_iso: &str, count: u32) -> (r: NextFiresResult)
    ensures
        r.ok ==> r.error is None && exists|f: Croniqfile| crate::ast::croniqfile_ok(f)
            && crate::parser::parse_fits(schedule_probe(trim(dsl@)), f)
            && #[trigger] fires_from_text(f, now_iso@, count as nat, strings_view(r.fires@)),
        !r.ok ==> r.fires@.len() == 0 && r.error is Some && (trim(dsl@).len() == 0 || probe_unscheduled(trim(dsl@))
            || rfc3339_instant(now_iso@) is Err),
{
    let parsed = parse_schedule(dsl);
    if !parsed.ok {
        let error = match parsed.error {
            Some(e) => e,
            None => "no schedule found".to_string(),
        };
        return NextFiresResult { ok: false, fires: Vec::new(), error: Some(error) };
    }
    let t = trimmed(dsl);
    let wrapped = probe_text(t.as_str());
    let ast = match Parser::parse(wrapped.as_str()) {
        Ok(a) => a,
        Err(e) => {
            return NextFiresResult { ok: false, fires: Vec::new(), error: Some(e.message()) };
        },
    };
    let node = match find_schedule(&ast) {
        Some(n) => n,
        None => {
            return NextFiresResult { ok: false, fires: Vec::new(), error: Some("no schedule found".to_string()) };
        },
    };
    let now = match parse_instant(now_iso) {
        Ok(t) => t,
        Err(e) => {
            let mut msg = String::new();
            push_str(&mut msg, "invalid now_iso: ");
            push_str(&mut msg, e.as_str());
            return NextFiresResult { ok: false, fires: Vec::new(), error: Some(msg) };
        },
    };
    let fires = next_fire_times(&node.kind, now, count);
    let r = NextFiresResult { ok: true, fires, error: None };
    assert(crate::ast::croniqfile_ok(ast));
    assert(rfc3339_instant(now_iso@) == Ok::<(i64, u32), Seq<char>>(now));
    assert(fires_from_text(ast, now_iso@, count as nat, strings_view(r.fires@)));
    r
}

// ─── Laws ────────────────────────────────────────────────────────────────────

proof fn lemma_weekday_search_later(days: Seq<Weekday>, base: i64, wd0: u32, after: (i64, u32), offset: int)
    ensures
        weekday_search(days, base, wd0, after, offset) matches Some(t) ==> later(t, after),
    decreases 8 - offset,
{
    if 0 <= offset <= 7 {
        lemma_weekday_search_later(days, base, wd0, after, offset + 1);
    }
}

proof fn lemma_ordinal_search_later(ords: Seq<MonthOrdinal>, y: i32, m: u32, h: u32, mi: u32, after: (i64, u32), j: int)
    ensures
        ordinal_search(ords, y, m, h, mi, after, j) matches Some(t) ==> later(t, after),
    decreases ords.len() - j,
{
    if 0 <= j < ords.len() {
        lemma_ordinal_search_later(ords, y, m, h, mi, after, j + 1);
        assert(ordinal_candidate(ords[j], y, m, h, mi, after) matches Some(t) ==> later(t, after));
    }
}

proof fn lemma_month_search_later(ords: Seq<MonthOrdinal>, y: i32, m: u32, h: u32, mi: u32, after: (i64, u32), k: nat)
    ensures
        month_search(ords, y, m, h, mi, after, k) matches Some(t) ==> later(t, after),
    decreases k,
{
    if k > 0 {
        lemma_ordinal_search_later(ords, y, m, h, mi, after, 0);
        match next_month(y, m) {
            Some((ny, nm)) => lemma_month_search_later(ords, ny, nm, h, mi, after, (k - 1) as nat),
            None => {},
        }
    }
}

/// The preview moves forward: for an interval, weekday, monthly or one-off
/// schedule, the next fire time comes strictly after the cursor it was
/// found from, so the listed fires are in increasing order. (For a daily
/// schedule `next_fire_utc` states the same.)
pub proof fn lemma_next_fire_moves_forward(kind: ScheduleKind, after: (i64, u32))
    requires
        !(kind is Daily),
    ensures
        spec_next_fire(kind, after) matches Some(t) ==> later(t, after),
{
    match kind {
        ScheduleKind::Weekdays { days, time } => {
            match utc_civil(after.0) {
                Some((y, m, d, wd)) => match utc_timestamp(y, m, d, time.hour as u32, time.minute as u32) {
                    Some(t) => lemma_weekday_search_later(days@, t, wd, after, 0),
                    None => {},
                },
                None => {},
            }
        },
        ScheduleKind::Monthly { ordinals, time } => {
            match utc_civil(after.0) {
                Some((y, m, _, _)) => lemma_month_search_later(
                    ordinals@,
                    y,
                    m,
                    time.hour as u32,
                    time.minute as u32,
                    after,
                    3,
                ),
                None => {},
            }
        },
        _ => {},
    }
}

} // verus!
