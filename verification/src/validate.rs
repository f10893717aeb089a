//! Semantic validation of a parsed Croniqfile: diagnostics and the checks that produce them.

use vstd::prelude::*;
use crate::ast::{
    spec_parse_token, CalendarBlock, CalendarRuleKind, Croniqfile, DirectiveOrBlock, IntervalUnit,
    Item, JobBlock, NamedBlock, ScheduleKind, ScheduleMode, ScheduleNode, StringValue,
};
use crate::block_directives::{blocks_diags, validate_blocks};
use crate::calendar_args::{
    annual_format_error, chrono_parses_date, count_char, parse_annual_arg, parse_monthly_arg,
    parse_u32_spec, parse_weekly_arg, parse_window_args, spec_window, unknown_weekday_error,
    AnnualArg,
};
use crate::lexer::Span;
use crate::text::{chars_of, decimal, push_decimal, push_str, split_on, str_eq, utf8_len};

verus! {

/// Validation diagnostic severity.
#[derive(Debug, Clone, Copy, PartialEq, Eq, Structural)]
pub enum Severity {
    Error,
    Warning,
}

/// A validation diagnostic: severity, message and the source span it points at.
#[derive(Debug, Clone)]
pub struct Diagnostic {
    pub severity: Severity,
    pub message: String,
    pub span: Span,
}

/// A diagnostic as plain values.
pub open spec fn diag_view(d: Diagnostic) -> (Severity, Seq<char>, Span) {
    (d.severity, d.message@, d.span)
}

/// A list of diagnostics as plain values.
pub open spec fn diags_view(ds: Seq<Diagnostic>) -> Seq<(Severity, Seq<char>, Span)> {
    ds.map_values(|d: Diagnostic| diag_view(d))
}

/// An error diagnostic as plain values.
pub open spec fn error_at(message: Seq<char>, span: Span) -> (Severity, Seq<char>, Span) {
    (Severity::Error, message, span)
}

/// Appends an error diagnostic.
pub fn push_error(diags: &mut Vec<Diagnostic>, message: String, span: Span)
    ensures
        diags_view(final(diags)@) == diags_view(old(diags)@).push(error_at(message@, span)),
{
    let ghost m = message@;
    diags.push(Diagnostic { severity: Severity::Error, message, span });
    assert(diags_view(diags@) =~= diags_view(old(diags)@).push(error_at(m, span)));
}

/// Appends a warning diagnostic.
pub fn push_warning(diags: &mut Vec<Diagnostic>, message: String, span: Span)
    ensures
        diags_view(final(diags)@) == diags_view(old(diags)@).push(
            (Severity::Warning, message@, span),
        ),
{
    let ghost m = message@;
    diags.push(Diagnostic { severity: Severity::Warning, message, span });
    assert(diags_view(diags@) =~= diags_view(old(diags)@).push((Severity::Warning, m, span)));
}

/// Which checks `validate_with` runs. Every check is on by default; a
/// caller only turns one off because it enforces that rule itself.
#[derive(Debug, Clone, Copy)]
pub struct Options {
    /// Check `calendar { }` rule arguments and job `calendar` references.
    /// Duplicate calendar names are checked regardless.
    pub check_calendars: bool,
}

impl Default for Options {
    fn default() -> (o: Self)
        ensures
            o.check_calendars,
    {
        Options { check_calendars: true }
    }
}

/// A diagnostic list as plain values.
pub type DiagSeq = Seq<(Severity, Seq<char>, Span)>;

/// A warning as plain values.
pub open spec fn warning_at(message: Seq<char>, span: Span) -> (Severity, Seq<char>, Span) {
    (Severity::Warning, message, span)
}

/// The views of a list of strings.
pub open spec fn views(v: Seq<String>) -> Seq<Seq<char>> {
    v.map_values(|s: String| s@)
}

/// Whether `s` is among `v`.
fn contains_string(v: &Vec<String>, s: &str) -> (r: bool)
    ensures
        r == views(v@).contains(s@),
{
    let mut i: usize = 0;
    while i < v.len()
        invariant
            i <= v@.len(),
            forall|j: int| 0 <= j < i ==> views(v@)[j] != s@,
        decreases v@.len() - i,
    {
        if str_eq(v[i].as_str(), s) {
            assert(views(v@)[i as int] == s@);
            return true;
        }
        i = i + 1;
    }
    false
}

/// A copy of a string.
fn copied(s: &str) -> (r: String)
    ensures
        r@ == s@,
{
    let mut r = String::new();
    push_str(&mut r, s);
    r
}

/// `x` added to a list used as a set (kept once, in first-insertion order).
pub open spec fn set_add(s: Seq<Seq<char>>, x: Seq<char>) -> Seq<Seq<char>> {
    if s.contains(x) {
        s
    } else {
        s.push(x)
    }
}

/// Adds `x` to a list used as a set.
fn add_to_set(v: &mut Vec<String>, x: &str)
    ensures
        views(final(v)@) == set_add(views(old(v)@), x@),
{
    if !contains_string(v, x) {
        let ghost before = v@;
        v.push(copied(x));
        assert(views(v@) =~= views(before).push(x@));
    }
}

// ─── Schedules ───────────────────────────────────────────────────────────────

/// The interval in seconds, saturating at `u32::MAX`.
pub open spec fn interval_seconds(count: u32, unit: IntervalUnit) -> nat {
    let raw: nat = match unit {
        IntervalUnit::Seconds => count as nat,
        IntervalUnit::Minutes => (count * 60) as nat,
        IntervalUnit::Hours => (count * 3600) as nat,
    };
    if raw > u32::MAX {
        u32::MAX as nat
    } else {
        raw
    }
}

/// The warning for an interval shorter than a runner's poll cycle.
pub open spec fn short_interval_message(seconds: nat) -> Seq<char> {
    "interval of "@ + decimal(seconds)
        + "s is shorter than the default runner poll cycle (30s); executions may be delayed by up to one poll period"@
}

/// What checking a schedule line reports: a warning for an interval under
/// thirty seconds, an error for a zero interval.
pub open spec fn schedule_diags(sched: ScheduleNode) -> DiagSeq {
    match sched.kind {
        ScheduleKind::Interval { count, unit } => {
            let secs = interval_seconds(count, unit);
            (if secs < 30 {
                seq![warning_at(short_interval_message(secs), sched.span)]
            } else {
                Seq::empty()
            }) + if count == 0 {
                seq![error_at("interval count must be greater than zero"@, sched.span)]
            } else {
                Seq::empty()
            }
        },
        _ => Seq::empty(),
    }
}

/// `x * k`, saturating at `u32::MAX`.
fn times_saturating(x: u32, k: u32) -> (r: u32)
    requires
        k > 0,
    ensures
        r == if x * k > u32::MAX { u32::MAX as int } else { x * k },
{
    if x > u32::MAX / k {
        assert(x * k > u32::MAX) by (nonlinear_arith)
            requires
                x > u32::MAX / k,
                k > 0,
        ;
        u32::MAX
    } else {
        assert(x * k <= u32::MAX) by (nonlinear_arith)
            requires
                x <= u32::MAX / k,
                k > 0,
        ;
        x * k
    }
}

fn validate_schedule_kind(sched: &ScheduleNode, diags: &mut Vec<Diagnostic>)
    ensures
        diags_view(final(diags)@) == diags_view(old(diags)@) + schedule_diags(*sched),
{
    match &sched.kind {
        ScheduleKind::Interval { count, unit } => {
            let seconds: u32 = match unit {
                IntervalUnit::Seconds => *count,
                IntervalUnit::Minutes => times_saturating(*count, 60),
                IntervalUnit::Hours => times_saturating(*count, 3600),
            };
            if seconds < 30 {
                let mut m = String::new();
                push_str(&mut m, "interval of ");
                push_decimal(&mut m, seconds as u64);
                push_str(
                    &mut m,
                    "s is shorter than the default runner poll cycle (30s); executions may be delayed by up to one poll period",
                );
                push_warning(diags, m, sched.span);
            }
            if *count == 0 {
                push_error(diags, copied("interval count must be greater than zero"), sched.span);
            }
            assert(diags_view(diags@) =~= diags_view(old(diags)@) + schedule_diags(*sched));
        },
        _ => {
            assert(diags_view(diags@) =~= diags_view(old(diags)@) + schedule_diags(*sched));
        },
    }
}

// ─── Calendars ───────────────────────────────────────────────────────────────

/// What checking one `weekly` argument reports.
pub open spec fn weekly_arg_diags(arg: StringValue) -> DiagSeq {
    if !arg.is_placeholder && spec_parse_token(arg.value@) is None {
        seq![error_at(unknown_weekday_error(arg.value@), arg.span)]
    } else {
        Seq::empty()
    }
}

/// What checking one `monthly` argument reports: an error when it is not a
/// number, a warning when the day can never match.
pub open spec fn monthly_arg_diags(arg: StringValue) -> DiagSeq {
    if arg.is_placeholder {
        Seq::empty()
    } else {
        match parse_u32_spec(arg.value@) {
            None => seq![error_at("invalid day: "@ + arg.value@, arg.span)],
            Some(d) => if d < 1 || d > 31 {
                seq![
                    warning_at(
                        "day "@ + decimal(d as nat) + " can never match (valid days are 1–31)"@,
                        arg.span,
                    ),
                ]
            } else {
                Seq::empty()
            },
        }
    }
}

/// What checking one `annual` / `yearly` argument reports: an error where
/// the loader rejects it, a warning where it is accepted but never matches
/// or is ignored.
pub open spec fn annual_arg_diags(arg: StringValue) -> DiagSeq {
    let v = arg.value@;
    if arg.is_placeholder {
        Seq::empty()
    } else if utf8_len(v) == 5 && v.contains('-') {
        let parts = split_on(v, '-');
        if parts.len() != 2 {
            seq![
                warning_at(
                    "argument '"@ + v
                        + "' is ignored by the scheduler — expected MM-DD or YYYY-MM-DD"@,
                    arg.span,
                ),
            ]
        } else {
            match (parse_u32_spec(parts[0]), parse_u32_spec(parts[1])) {
                (Some(m), Some(d)) => if m < 1 || m > 12 || d < 1 || d > 31 {
                    seq![warning_at("date "@ + v + " can never match"@, arg.span)]
                } else {
                    Seq::empty()
                },
                _ => seq![error_at("invalid date: "@ + v, arg.span)],
            }
        }
    } else if utf8_len(v) == 10 && count_char(v, '-') == 2 {
        if chrono_parses_date(v, "%Y-%m-%d"@) {
            Seq::empty()
        } else {
            seq![error_at("invalid date: "@ + v, arg.span)]
        }
    } else {
        seq![error_at(annual_format_error(v), arg.span)]
    }
}

/// What checking the first `n` arguments of a rule reports, argument by
/// argument, for a rule type.
pub open spec fn args_diags(rule_type: Seq<char>, args: Seq<StringValue>, n: int) -> DiagSeq
    decreases n,
{
    if n <= 0 {
        Seq::empty()
    } else {
        args_diags(rule_type, args, n - 1) + if rule_type == "weekly"@ {
            weekly_arg_diags(args[n - 1])
        } else if rule_type == "monthly"@ {
            monthly_arg_diags(args[n - 1])
        } else {
            annual_arg_diags(args[n - 1])
        }
    }
}

/// The values of a list of arguments.
pub open spec fn arg_values(args: Seq<StringValue>) -> Seq<Seq<char>> {
    args.map_values(|a: StringValue| a.value@)
}

/// What checking one calendar rule reports.
pub open spec fn rule_diags(rule: crate::ast::CalendarRule) -> DiagSeq {
    let t = rule.rule_type.value@;
    let args = rule.args@;
    if t == "weekly"@ || t == "monthly"@ || t == "annual"@ || t == "yearly"@ {
        args_diags(t, args, args.len() as int)
    } else if t == "window"@ {
        if args.len() == 0 {
            seq![error_at("window rule requires start and end times"@, rule.span)]
        } else if forall|i: int| 0 <= i < args.len() ==> !(#[trigger] args[i]).is_placeholder {
            match spec_window(arg_values(args)) {
                Err(m) => seq![error_at(m, rule.span)],
                Ok(_) => Seq::empty(),
            }
        } else {
            Seq::empty()
        }
    } else if t == "timezone"@ {
        Seq::empty()
    } else {
        seq![warning_at("unknown calendar rule type '"@ + t + "'"@, rule.rule_type.span)]
    }
}

/// What checking the first `n` rules of a calendar reports.
pub open spec fn calendar_diags(rules: Seq<crate::ast::CalendarRule>, n: int) -> DiagSeq
    decreases n,
{
    if n <= 0 {
        Seq::empty()
    } else {
        calendar_diags(rules, n - 1) + rule_diags(rules[n - 1])
    }
}

fn check_rule_args(rule: &crate::ast::CalendarRule, diags: &mut Vec<Diagnostic>)
    requires
        rule.rule_type.value@ == "weekly"@ || rule.rule_type.value@ == "monthly"@
            || rule.rule_type.value@ == "annual"@ || rule.rule_type.value@ == "yearly"@,
    ensures
        diags_view(final(diags)@) == diags_view(old(diags)@) + args_diags(
            rule.rule_type.value@,
            rule.args@,
            rule.args@.len() as int,
        ),
{
    let t = rule.rule_type.value.as_str();
    let weekly = str_eq(t, "weekly");
    let monthly = str_eq(t, "monthly");
    let mut i: usize = 0;
    while i < rule.args.len()
        invariant
            i <= rule.args@.len(),
            weekly == (rule.rule_type.value@ == "weekly"@),
            monthly == (rule.rule_type.value@ == "monthly"@),
            diags_view(diags@) == diags_view(old(diags)@) + args_diags(
                rule.rule_type.value@,
                rule.args@,
                i as int,
            ),
        decreases rule.args@.len() - i,
    {
        let arg = &rule.args[i];
        let ghost before = diags@;
        if !arg.is_placeholder {
            if weekly {
                match parse_weekly_arg(arg.value.as_str()) {
                    Err(msg) => push_error(diags, msg, arg.span),
                    Ok(_) => {},
                }
            } else if monthly {
                match parse_monthly_arg(arg.value.as_str()) {
                    Err(msg) => push_error(diags, msg, arg.span),
                    Ok(day) => {
                        if day < 1 || day > 31 {
                            let mut m = String::new();
                            push_str(&mut m, "day ");
                            push_decimal(&mut m, day as u64);
                            push_str(&mut m, " can never match (valid days are 1–31)");
                            push_warning(diags, m, arg.span);
                        }
                    },
                }
            } else {
                match parse_annual_arg(arg.value.as_str()) {
                    Err(msg) => push_error(diags, msg, arg.span),
                    Ok(AnnualArg::Ignored) => {
                        let mut m = String::new();
                        push_str(&mut m, "argument '");
                        push_str(&mut m, arg.value.as_str());
                        push_str(
                            &mut m,
                            "' is ignored by the scheduler — expected MM-DD or YYYY-MM-DD",
                        );
                        push_warning(diags, m, arg.span);
                    },
                    Ok(AnnualArg::MonthDay(month, day)) => {
                        if month < 1 || month > 12 || day < 1 || day > 31 {
                            let mut m = String::new();
                            push_str(&mut m, "date ");
                            push_str(&mut m, arg.value.as_str());
                            push_str(&mut m, " can never match");
                            push_warning(diags, m, arg.span);
                        }
                    },
                    Ok(AnnualArg::Date(_)) => {},
                }
            }
        }
        i = i + 1;
        assert(diags_view(diags@) =~= diags_view(old(diags)@) + args_diags(
            rule.rule_type.value@,
            rule.args@,
            i as int,
        ));
    }
}

fn validate_calendar(cal: &CalendarBlock, diags: &mut Vec<Diagnostic>)
    ensures
        diags_view(final(diags)@) == diags_view(old(diags)@) + calendar_diags(
            cal.rules@,
            cal.rules@.len() as int,
        ),
{
    let mut i: usize = 0;
    while i < cal.rules.len()
        invariant
            i <= cal.rules@.len(),
            diags_view(diags@) == diags_view(old(diags)@) + calendar_diags(cal.rules@, i as int),
        decreases cal.rules@.len() - i,
    {
        let rule = &cal.rules[i];
        let ghost before = diags@;
        let t = rule.rule_type.value.as_str();
        if str_eq(t, "weekly") || str_eq(t, "monthly") || str_eq(t, "annual") || str_eq(t, "yearly") {
            check_rule_args(rule, diags);
        } else if str_eq(t, "window") {
            if rule.args.len() == 0 {
                push_error(diags, copied("window rule requires start and end times"), rule.span);
            } else {
                let mut all_literal = true;
                let mut values: Vec<String> = Vec::new();
                let mut j: usize = 0;
                while j < rule.args.len()
                    invariant
                        j <= rule.args@.len(),
                        views(values@) == arg_values(rule.args@.take(j as int)),
                        all_literal == forall|k: int| 0 <= k < j ==> !(#[trigger] rule.args@[k]).is_placeholder,
                    decreases rule.args@.len() - j,
                {
                    if rule.args[j].is_placeholder {
                        all_literal = false;
                    }
                    let ghost vb = values@;
                    values.push(copied(rule.args[j].value.as_str()));
                    assert(views(values@) =~= views(vb).push(rule.args@[j as int].value@));
                    j = j + 1;
                    assert(arg_values(rule.args@.take(j as int)) =~= arg_values(
                        rule.args@.take((j - 1) as int),
                    ).push(rule.args@[j - 1].value@));
                }
                assert(rule.args@.take(rule.args@.len() as int) =~= rule.args@);
                if all_literal {
                    assert(values@.map_values(|a: String| a@) == views(values@));
                    match parse_window_args(values.as_slice()) {
                        Err(msg) => push_error(diags, msg, rule.span),
                        Ok(_) => {},
                    }
                }
            }
        } else if str_eq(t, "timezone") {
        } else {
            let mut m = String::new();
            push_str(&mut m, "unknown calendar rule type '");
            push_str(&mut m, t);
            push_str(&mut m, "'");
            push_warning(diags, m, rule.rule_type.span);
        }
        assert(diags_view(diags@) =~= diags_view(before) + rule_diags(cal.rules@[i as int]));
        i = i + 1;
        assert(diags_view(diags@) =~= diags_view(old(diags)@) + calendar_diags(cal.rules@, i as int));
    }
}

// ─── Runner blocks ───────────────────────────────────────────────────────────

/// What checking the body of a `runner shell|exec` block walks through:
/// the diagnostics so far and whether `command` / `args` were seen.
pub open spec fn exec_walk(
    raw: Seq<char>,
    kind: Seq<char>,
    items: Seq<DirectiveOrBlock>,
    n: int,
) -> (DiagSeq, bool, bool)
    decreases n,
{
    if n <= 0 {
        (Seq::empty(), false, false)
    } else {
        let (ds, has_command, has_args) = exec_walk(raw, kind, items, n - 1);
        match items[n - 1] {
            DirectiveOrBlock::Directive(d) => {
                let key = d.key.value@;
                if key == "command"@ {
                    (ds + if d.args@.len() == 0 {
                        seq![
                            error_at(
                                "`command` in job '"@ + raw + "' requires a string argument"@,
                                d.key.span,
                            ),
                        ]
                    } else {
                        Seq::empty()
                    }, true, has_args)
                } else if key == "args"@ {
                    (ds + if d.args@.len() == 0 {
                        seq![
                            error_at(
                                "`args` in job '"@ + raw + "' requires at least one argv entry"@,
                                d.key.span,
                            ),
                        ]
                    } else {
                        Seq::empty()
                    }, has_command, true)
                } else if key == "workdir"@ || key == "user"@ {
                    (ds + if d.args@.len() != 1 {
                        seq![
                            error_at(
                                "`"@ + key + "` in job '"@ + raw + "' takes exactly one argument"@,
                                d.key.span,
                            ),
                        ]
                    } else {
                        Seq::empty()
                    }, has_command, has_args)
                } else {
                    (
                        ds + seq![
                            warning_at(
                                "unknown directive '"@ + key + "' in `runner "@ + kind
                                    + "` block of job '"@ + raw + "'"@,
                                d.key.span,
                            ),
                        ],
                        has_command,
                        has_args,
                    )
                }
            },
            DirectiveOrBlock::Block(inner) => if inner.name.value@ == "env"@ {
                (ds, has_command, has_args)
            } else {
                (
                    ds + seq![
                        warning_at(
                            "unknown sub-block '"@ + inner.name.value@ + "' in `runner "@ + kind
                                + "` of job '"@ + raw + "'"@,
                            inner.name.span,
                        ),
                    ],
                    has_command,
                    has_args,
                )
            },
            DirectiveOrBlock::Comment(_) => (ds, has_command, has_args),
        }
    }
}

/// What checking a `runner shell|exec` block reports: its entries, then
/// whether the payload directive of its kind is present and the other one
/// absent.
pub open spec fn exec_block_diags(raw: Seq<char>, kind: Seq<char>, block: NamedBlock) -> DiagSeq {
    let (ds, has_command, has_args) = exec_walk(
        raw,
        kind,
        block.directives@,
        block.directives@.len() as int,
    );
    let span = block.name.span;
    if kind == "shell"@ {
        ds + (if !has_command {
            seq![
                error_at(
                    "`runner shell` in job '"@ + raw + "' requires `command \"…\"`"@,
                    span,
                ),
            ]
        } else {
            Seq::empty()
        }) + if has_args {
            seq![
                error_at(
                    "`args` is only valid in `runner exec`; use `command` for shell strings (job '"@
                        + raw + "')"@,
                    span,
                ),
            ]
        } else {
            Seq::empty()
        }
    } else {
        ds + (if !has_args {
            seq![
                error_at(
                    "`runner exec` in job '"@ + raw + "' requires `args <argv0> <argv1> …`"@,
                    span,
                ),
            ]
        } else {
            Seq::empty()
        }) + if has_command {
            seq![
                error_at(
                    "`command` is only valid in `runner shell`; use `args` for argv arrays (job '"@
                        + raw + "')"@,
                    span,
                ),
            ]
        } else {
            Seq::empty()
        }
    }
}

/// A message built from pieces around the job key.
fn job_message(before: &str, raw: &str, after: &str) -> (m: String)
    ensures
        m@ == before@ + raw@ + after@,
{
    let mut m = String::new();
    push_str(&mut m, before);
    push_str(&mut m, raw);
    push_str(&mut m, after);
    m
}

fn validate_runner_exec_block(
    job: &JobBlock,
    kind: &str,
    block: &NamedBlock,
    diags: &mut Vec<Diagnostic>,
)
    requires
        kind@ == "shell"@ || kind@ == "exec"@,
    ensures
        diags_view(final(diags)@) == diags_view(old(diags)@) + exec_block_diags(
            job.key.raw@,
            kind@,
            *block,
        ),
{
    let raw = job.key.raw.as_str();
    let ghost items = block.directives@;
    let mut has_command = false;
    let mut has_args = false;
    let mut i: usize = 0;
    while i < block.directives.len()
        invariant
            i <= items.len(),
            items == block.directives@,
            raw@ == job.key.raw@,
            (diags_view(diags@).skip(diags_view(old(diags)@).len() as int), has_command, has_args)
                == exec_walk(raw@, kind@, items, i as int),
            diags_view(diags@).take(diags_view(old(diags)@).len() as int) == diags_view(
                old(diags)@,
            ),
            diags_view(old(diags)@).len() <= diags_view(diags@).len(),
        decreases items.len() - i,
    {
        let ghost before = diags@;
        match &block.directives[i] {
            DirectiveOrBlock::Directive(d) => {
                let key = d.key.value.as_str();
                if str_eq(key, "command") {
                    has_command = true;
                    if d.args.len() == 0 {
                        push_error(diags, job_message("`command` in job '", raw, "' requires a string argument"), d.key.span);
                    }
                } else if str_eq(key, "args") {
                    has_args = true;
                    if d.args.len() == 0 {
                        push_error(diags, job_message("`args` in job '", raw, "' requires at least one argv entry"), d.key.span);
                    }
                } else if str_eq(key, "workdir") || str_eq(key, "user") {
                    if d.args.len() != 1 {
                        let mut m = String::new();
                        push_str(&mut m, "`");
                        push_str(&mut m, key);
                        push_str(&mut m, "` in job '");
                        push_str(&mut m, raw);
                        push_str(&mut m, "' takes exactly one argument");
                        push_error(diags, m, d.key.span);
                    }
                } else {
                    let mut m = String::new();
                    push_str(&mut m, "unknown directive '");
                    push_str(&mut m, key);
                    push_str(&mut m, "' in `runner ");
                    push_str(&mut m, kind);
                    push_str(&mut m, "` block of job '");
                    push_str(&mut m, raw);
                    push_str(&mut m, "'");
                    push_warning(diags, m, d.key.span);
                }
            },
            DirectiveOrBlock::Block(inner) => {
                if !str_eq(inner.name.value.as_str(), "env") {
                    let mut m = String::new();
                    push_str(&mut m, "unknown sub-block '");
                    push_str(&mut m, inner.name.value.as_str());
                    push_str(&mut m, "' in `runner ");
                    push_str(&mut m, kind);
                    push_str(&mut m, "` of job '");
                    push_str(&mut m, raw);
                    push_str(&mut m, "'");
                    push_warning(diags, m, inner.name.span);
                }
            },
            DirectiveOrBlock::Comment(_) => {},
        }
        i = i + 1;
        let ghost k = diags_view(old(diags)@).len() as int;
        assert(diags_view(diags@).skip(k) =~= exec_walk(raw@, kind@, items, i as int).0);
        assert(diags_view(diags@).take(k) =~= diags_view(old(diags)@));
    }
    let ghost k = diags_view(old(diags)@).len() as int;
    let ghost walked = diags@;
    if str_eq(kind, "shell") {
        if !has_command {
            push_error(diags, job_message("`runner shell` in job '", raw, "' requires `command \"…\"`"), block.name.span);
        }
        if has_args {
            push_error(diags, job_message("`args` is only valid in `runner exec`; use `command` for shell strings (job '", raw, "')"), block.name.span);
        }
    } else {
        if !has_args {
            push_error(diags, job_message("`runner exec` in job '", raw, "' requires `args <argv0> <argv1> …`"), block.name.span);
        }
        if has_command {
            push_error(diags, job_message("`command` is only valid in `runner shell`; use `args` for argv arrays (job '", raw, "')"), block.name.span);
        }
    }
    assert(diags_view(walked) =~= diags_view(old(diags)@) + diags_view(walked).skip(k));
    assert(diags_view(diags@) =~= diags_view(old(diags)@) + exec_block_diags(job.key.raw@, kind@, *block));
}

/// What the placement directives of an unqualified `runner { }` block
/// reports and collects: requirements and exclusions go into their sets,
/// `sticky` is accepted, anything else is warned about.
pub open spec fn placement_step(
    raw: Seq<char>,
    st: (DiagSeq, Seq<Seq<char>>, Seq<Seq<char>>),
    d: crate::ast::Directive,
) -> (DiagSeq, Seq<Seq<char>>, Seq<Seq<char>>) {
    let cap = if d.args@.len() > 0 {
        d.args@[0].value@
    } else {
        Seq::empty()
    };
    let key = d.key.value@;
    if key == "require"@ {
        (st.0, set_add(st.1, cap), st.2)
    } else if key == "prefer"@ || key == "sticky"@ {
        st
    } else if key == "exclude"@ {
        (st.0, st.1, set_add(st.2, cap))
    } else {
        (
            st.0 + seq![
                warning_at(
                    "unknown runner directive '"@ + key + "' in job '"@ + raw + "'"@,
                    d.key.span,
                ),
            ],
            st.1,
            st.2,
        )
    }
}

/// The placement walk over the first `n` entries of a runner block.
pub open spec fn placement_fold(
    raw: Seq<char>,
    st: (DiagSeq, Seq<Seq<char>>, Seq<Seq<char>>),
    items: Seq<DirectiveOrBlock>,
    n: int,
) -> (DiagSeq, Seq<Seq<char>>, Seq<Seq<char>>)
    decreases n,
{
    if n <= 0 {
        st
    } else {
        let prev = placement_fold(raw, st, items, n - 1);
        match items[n - 1] {
            DirectiveOrBlock::Directive(d) => placement_step(raw, prev, d),
            _ => prev,
        }
    }
}

/// The walk over the first `n` entries of a job body for its runner
/// blocks: diagnostics, required and excluded capabilities, and whether an
/// execution payload block was seen.
pub open spec fn runner_walk(job: JobBlock, n: int) -> (DiagSeq, Seq<Seq<char>>, Seq<Seq<char>>, bool)
    decreases n,
{
    if n <= 0 {
        (Seq::empty(), Seq::empty(), Seq::empty(), false)
    } else {
        let (ds, rq, ex, seen) = runner_walk(job, n - 1);
        let raw = job.key.raw@;
        match job.directives@[n - 1] {
            DirectiveOrBlock::Block(b) => if b.name.value@ == "runner"@ {
                match b.qualifier {
                    None => {
                        let st = placement_fold(raw, (ds, rq, ex), b.directives@, b.directives@.len() as int);
                        (st.0, st.1, st.2, seen)
                    },
                    Some(q) => if q.value@ == "shell"@ || q.value@ == "exec"@ {
                        (
                            ds + (if seen {
                                seq![
                                    error_at(
                                        "job '"@ + raw
                                            + "' has more than one `runner shell|exec` block; only one execution payload is allowed"@,
                                        b.name.span,
                                    ),
                                ]
                            } else {
                                Seq::empty()
                            }) + exec_block_diags(raw, q.value@, b),
                            rq,
                            ex,
                            true,
                        )
                    } else {
                        (
                            ds + seq![
                                error_at(
                                    "unknown runner type '"@ + q.value@ + "' in job '"@ + raw
                                        + "' — expected `shell` or `exec`"@,
                                    q.span,
                                ),
                            ],
                            rq,
                            ex,
                            seen,
                        )
                    },
                }
            } else {
                (ds, rq, ex, seen)
            },
            _ => (ds, rq, ex, seen),
        }
    }
}

/// An error for each of the first `n` required capabilities that is also
/// excluded.
pub open spec fn overlap_diags(
    raw: Seq<char>,
    span: Span,
    rq: Seq<Seq<char>>,
    ex: Seq<Seq<char>>,
    n: int,
) -> DiagSeq
    decreases n,
{
    if n <= 0 {
        Seq::empty()
    } else {
        overlap_diags(raw, span, rq, ex, n - 1) + if ex.contains(rq[n - 1]) {
            seq![
                error_at(
                    "capability '"@ + rq[n - 1] + "' is both required and excluded in job '"@ + raw
                        + "'"@,
                    span,
                ),
            ]
        } else {
            Seq::empty()
        }
    }
}

/// What checking a job's runner blocks reports.
pub open spec fn runner_diags(job: JobBlock) -> DiagSeq {
    let w = runner_walk(job, job.directives@.len() as int);
    w.0 + overlap_diags(job.key.raw@, job.key.span, w.1, w.2, w.1.len() as int)
}

fn validate_runner_constraints(job: &JobBlock, diags: &mut Vec<Diagnostic>)
    ensures
        diags_view(final(diags)@) == diags_view(old(diags)@) + runner_diags(*job),
{
    let raw = job.key.raw.as_str();
    let mut required: Vec<String> = Vec::new();
    let mut prefers: Vec<String> = Vec::new();
    let mut excludes: Vec<String> = Vec::new();
    let mut exec_block_seen = false;
    let ghost k = diags_view(old(diags)@).len() as int;
    let mut i: usize = 0;
    assert(diags_view(diags@).skip(k) =~= Seq::<(Severity, Seq<char>, Span)>::empty());
    assert(views(required@) =~= Seq::<Seq<char>>::empty());
    assert(views(excludes@) =~= Seq::<Seq<char>>::empty());
    while i < job.directives.len()
        invariant
            i <= job.directives@.len(),
            raw@ == job.key.raw@,
            k == diags_view(old(diags)@).len(),
            k <= diags_view(diags@).len(),
            diags_view(diags@).take(k) == diags_view(old(diags)@),
            (diags_view(diags@).skip(k), views(required@), views(excludes@), exec_block_seen)
                == runner_walk(*job, i as int),
        decreases job.directives@.len() - i,
    {
        match &job.directives[i] {
            DirectiveOrBlock::Block(block) => {
                if str_eq(block.name.value.as_str(), "runner") {
                    match &block.qualifier {
                        None => {
                            let ghost st0 = (diags_view(diags@).skip(k), views(required@), views(excludes@));
                            let mut j: usize = 0;
                            while j < block.directives.len()
                                invariant
                                    j <= block.directives@.len(),
                                    raw@ == job.key.raw@,
                                    k == diags_view(old(diags)@).len(),
                                    k <= diags_view(diags@).len(),
                                    diags_view(diags@).take(k) == diags_view(old(diags)@),
                                    (diags_view(diags@).skip(k), views(required@), views(excludes@))
                                        == placement_fold(raw@, st0, block.directives@, j as int),
                                decreases block.directives@.len() - j,
                            {
                                match &block.directives[j] {
                                    DirectiveOrBlock::Directive(d) => {
                                        let cap: &str = if d.args.len() > 0 {
                                            d.args[0].value.as_str()
                                        } else {
                                            ""
                                        };
                                        proof {
                                            reveal_strlit("");
                                        }
                                        assert(cap@ == if d.args@.len() > 0 { d.args@[0].value@ } else { Seq::<char>::empty() });
                                        let key = d.key.value.as_str();
                                        if str_eq(key, "require") {
                                            add_to_set(&mut required, cap);
                                        } else if str_eq(key, "prefer") {
                                            add_to_set(&mut prefers, cap);
                                        } else if str_eq(key, "exclude") {
                                            proof {
                                                reveal_strlit("exclude");
                                                reveal_strlit("prefer");
                                                reveal_strlit("sticky");
                                                assert("exclude"@.len() == 7);
                                            }
                                            add_to_set(&mut excludes, cap);
                                        } else if str_eq(key, "sticky") {
                                        } else {
                                            let mut m = String::new();
                                            push_str(&mut m, "unknown runner directive '");
                                            push_str(&mut m, key);
                                            push_str(&mut m, "' in job '");
                                            push_str(&mut m, raw);
                                            push_str(&mut m, "'");
                                            push_warning(diags, m, d.key.span);
                                        }
                                    },
                                    _ => {},
                                }
                                j = j + 1;
                                assert(diags_view(diags@).skip(k) =~= placement_fold(raw@, st0, block.directives@, j as int).0);
                                assert(views(required@) =~= placement_fold(raw@, st0, block.directives@, j as int).1);
                                assert(views(excludes@) =~= placement_fold(raw@, st0, block.directives@, j as int).2);
                                assert(diags_view(diags@).take(k) =~= diags_view(old(diags)@));
                            }
                        },
                        Some(q) => {
                            let qv = q.value.as_str();
                            if str_eq(qv, "shell") || str_eq(qv, "exec") {
                                if exec_block_seen {
                                    push_error(
                                        diags,
                                        job_message(
                                            "job '",
                                            raw,
                                            "' has more than one `runner shell|exec` block; only one execution payload is allowed",
                                        ),
                                        block.name.span,
                                    );
                                }
                                exec_block_seen = true;
                                let ghost mid = diags_view(diags@);
                                validate_runner_exec_block(job, qv, block, diags);
                                assert(diags_view(diags@).skip(k) =~= mid.skip(k) + exec_block_diags(raw@, qv@, *block));
                            } else {
                                let mut m = String::new();
                                push_str(&mut m, "unknown runner type '");
                                push_str(&mut m, qv);
                                push_str(&mut m, "' in job '");
                                push_str(&mut m, raw);
                                push_str(&mut m, "' — expected `shell` or `exec`");
                                push_error(diags, m, q.span);
                            }
                        },
                    }
                }
            },
            _ => {},
        }
        i = i + 1;
        assert(diags_view(diags@).skip(k) =~= runner_walk(*job, i as int).0);
        assert(diags_view(diags@).take(k) =~= diags_view(old(diags)@));
    }
    let ghost walked = diags_view(diags@);
    let mut c: usize = 0;
    while c < required.len()
        invariant
            c <= required@.len(),
            raw@ == job.key.raw@,
            k <= walked.len(),
            walked.take(k) == diags_view(old(diags)@),
            diags_view(diags@) == walked + overlap_diags(raw@, job.key.span, views(required@), views(excludes@), c as int),
        decreases required@.len() - c,
    {
        if contains_string(&excludes, required[c].as_str()) {
            let mut m = String::new();
            push_str(&mut m, "capability '");
            push_str(&mut m, required[c].as_str());
            push_str(&mut m, "' is both required and excluded in job '");
            push_str(&mut m, raw);
            push_str(&mut m, "'");
            push_error(diags, m, job.key.span);
        }
        c = c + 1;
        assert(diags_view(diags@) =~= walked + overlap_diags(raw@, job.key.span, views(required@), views(excludes@), c as int));
    }
    assert(walked =~= diags_view(old(diags)@) + walked.skip(k));
    assert(diags_view(diags@) =~= diags_view(old(diags)@) + runner_diags(*job));
}

// ─── Concurrency guards ──────────────────────────────────────────────────────

/// Whether a job's effective execution mode is `ephemeral`: the defaults
/// baseline, overridden by a schedule prefix, overridden last by each
/// `execution_mode` directive that has a value (only the literal
/// `ephemeral` counts).
pub open spec fn ephemeral_fold(items: Seq<DirectiveOrBlock>, n: int, base: bool) -> bool
    decreases n,
{
    if n <= 0 {
        base
    } else {
        match items[n - 1] {
            DirectiveOrBlock::Directive(d) => if d.key.value@ == "execution_mode"@ && d.args@.len()
                > 0 {
                d.args@[0].value@ == "ephemeral"@
            } else {
                ephemeral_fold(items, n - 1, base)
            },
            _ => ephemeral_fold(items, n - 1, base),
        }
    }
}

/// The mode a job starts from before its own directives: its schedule
/// prefix if it has one, otherwise the defaults baseline.
pub open spec fn ephemeral_base(job: JobBlock, default_ephemeral: bool) -> bool {
    match job.schedule {
        Some(s) => match s.mode {
            Some(m) => m == ScheduleMode::Ephemeral,
            None => default_ephemeral,
        },
        None => default_ephemeral,
    }
}

/// Whether a job is effectively `ephemeral`.
pub open spec fn spec_job_is_ephemeral(job: JobBlock, default_ephemeral: bool) -> bool {
    ephemeral_fold(
        job.directives@,
        job.directives@.len() as int,
        ephemeral_base(job, default_ephemeral),
    )
}

/// Whether a job's effective execution mode is `ephemeral`, with the same
/// precedence as the compiler: defaults, then the schedule prefix, then the
/// `execution_mode` directives in order.
pub fn job_is_ephemeral(job: &JobBlock, default_ephemeral: bool) -> (r: bool)
    ensures
        r == spec_job_is_ephemeral(*job, default_ephemeral),
{
    let mut ephemeral = default_ephemeral;
    match &job.schedule {
        Some(s) => match s.mode {
            Some(m) => {
                ephemeral = m == ScheduleMode::Ephemeral;
            },
            None => {},
        },
        None => {},
    }
    let ghost base = ephemeral;
    let mut i: usize = 0;
    while i < job.directives.len()
        invariant
            i <= job.directives@.len(),
            base == ephemeral_base(*job, default_ephemeral),
            ephemeral == ephemeral_fold(job.directives@, i as int, base),
        decreases job.directives@.len() - i,
    {
        match &job.directives[i] {
            DirectiveOrBlock::Directive(d) => {
                if str_eq(d.key.value.as_str(), "execution_mode") && d.args.len() > 0 {
                    ephemeral = str_eq(d.args[0].value.as_str(), "ephemeral");
                }
            },
            _ => {},
        }
        i = i + 1;
    }
    ephemeral
}

/// Whether no `execution_mode` directive among `items` takes a
/// placeholder as its value.
pub open spec fn modes_written_out(items: Seq<DirectiveOrBlock>) -> bool {
    forall|i: int| 0 <= i < items.len() ==> match #[trigger] items[i] {
        DirectiveOrBlock::Directive(d) => d.key.value@ == "execution_mode"@ && d.args@.len() > 0
            ==> !d.args@[0].is_placeholder,
        _ => true,
    }
}

#[verifier::spinoff_prover]
#[verifier::rlimit(40)]
proof fn lemma_ephemeral_fold_matches_job_fold(
    items: Seq<DirectiveOrBlock>,
    n: int,
    base: bool,
    p: crate::compile::JobParts,
    vars: crate::compile::VarTable,
    host: crate::placeholders::HostInputs,
)
    requires
        0 <= n <= items.len(),
        modes_written_out(items),
        base == (p.execution_mode == crate::compile::ExecutionMode::Ephemeral),
    ensures
        ephemeral_fold(items, n, base) == (crate::compile::job_fold(items, n, p, vars, host).execution_mode
            == crate::compile::ExecutionMode::Ephemeral),
    decreases n,
{
    reveal_strlit("timezone");
    reveal_strlit("description");
    reveal_strlit("timeout");
    reveal_strlit("window");
    reveal_strlit("execution_mode");
    if n > 0 {
        lemma_ephemeral_fold_matches_job_fold(items, n - 1, base, p, vars, host);
        let it = items[n - 1];
        let q = crate::compile::job_fold(items, n - 1, p, vars, host);
        match it {
            DirectiveOrBlock::Directive(d) => {
                assert(d.key.value@ == "execution_mode"@ && d.args@.len() > 0 ==> !d.args@[0].is_placeholder);
                let r = crate::compile::job_directive_step(q, d, vars, host);
                if d.key.value@ == "execution_mode"@ {
                    assert("execution_mode"@.len() == 14 && "timezone"@.len() == 8 && "description"@.len() == 11
                        && "timeout"@.len() == 7 && "window"@.len() == 6);
                    assert(r.execution_mode == match crate::compile::spec_first_arg(d, vars, host) {
                        Some(v) => crate::compile::spec_mode(v),
                        None => q.execution_mode,
                    });
                } else {
                    assert(r.execution_mode == q.execution_mode);
                }
            },
            DirectiveOrBlock::Block(b) => {
                assert(crate::compile::job_block_step(q, b, vars, host).execution_mode == q.execution_mode);
            },
            _ => {},
        }
    }
}

/// The validator's judgement of a job as ephemeral agrees with the
/// execution mode the compiler gives it, where no `execution_mode` value
/// of the job is a placeholder, the defaults' mode standing for the
/// baseline the validator is given.
pub proof fn lemma_ephemeral_judgement_matches_compiled_mode(
    job: JobBlock,
    dv: crate::compile::DefaultsView,
    vars: crate::compile::VarTable,
    host: crate::placeholders::HostInputs,
)
    requires
        modes_written_out(job.directives@),
    ensures
        spec_job_is_ephemeral(job, dv.execution_mode == crate::compile::ExecutionMode::Ephemeral)
            == (crate::compile::spec_job(job, dv, vars, host).parts.execution_mode
            == crate::compile::ExecutionMode::Ephemeral),
{
    let tz = crate::compile::job_options(job, dv, vars, host).0;
    let start = crate::compile::job_start(job, dv, tz);
    lemma_ephemeral_fold_matches_job_fold(
        job.directives@,
        job.directives@.len() as int,
        ephemeral_base(job, dv.execution_mode == crate::compile::ExecutionMode::Ephemeral),
        start,
        vars,
        host,
    );
}

#[verifier::spinoff_prover]
#[verifier::rlimit(40)]
proof fn lemma_defaults_mode_matches_block_fold(
    items: Seq<DirectiveOrBlock>,
    n: int,
    base: bool,
    dv: crate::compile::DefaultsView,
    vars: crate::compile::VarTable,
    host: crate::placeholders::HostInputs,
)
    requires
        0 <= n <= items.len(),
        modes_written_out(items),
        base == (dv.execution_mode == crate::compile::ExecutionMode::Ephemeral),
    ensures
        defaults_mode_fold(items, n, base) == (crate::compile::defaults_block_fold(dv, items, n, vars, host).execution_mode
            == crate::compile::ExecutionMode::Ephemeral),
    decreases n,
{
    reveal_strlit("timezone");
    reveal_strlit("timeout");
    reveal_strlit("execution_mode");
    if n > 0 {
        lemma_defaults_mode_matches_block_fold(items, n - 1, base, dv, vars, host);
        let q = crate::compile::defaults_block_fold(dv, items, n - 1, vars, host);
        let r = crate::compile::defaults_step(q, items[n - 1], vars, host);
        match items[n - 1] {
            DirectiveOrBlock::Directive(d) => {
                assert(d.key.value@ == "execution_mode"@ && d.args@.len() > 0 ==> !d.args@[0].is_placeholder);
                if d.key.value@ == "execution_mode"@ {
                    assert("execution_mode"@.len() == 14 && "timezone"@.len() == 8 && "timeout"@.len() == 7);
                    assert(r.execution_mode == match crate::compile::spec_first_arg(d, vars, host) {
                        Some(v) => crate::compile::spec_mode(v),
                        None => q.execution_mode,
                    });
                } else {
                    assert(r.execution_mode == q.execution_mode);
                }
            },
            _ => {
                assert(r.execution_mode == q.execution_mode);
            },
        }
    }
}

/// Whether no `execution_mode` value of a `defaults { }` block among the
/// first `n` items is a placeholder.
pub open spec fn default_modes_written_out(items: Seq<Item>, n: int) -> bool {
    forall|i: int| 0 <= i < n ==> match #[trigger] items[i] {
        Item::Defaults(d) => modes_written_out(d.directives@),
        _ => true,
    }
}

/// The validator's running judgement of the defaults (whether the mode in
/// force is ephemeral) agrees with the defaults the compiler has in force
/// after the same items, where no `execution_mode` value in a
/// `defaults { }` block is a placeholder.
pub proof fn lemma_default_mode_matches_compiled_defaults(
    items: Seq<Item>,
    n: int,
    names: Seq<Seq<char>>,
    opts: Options,
    vars: crate::compile::VarTable,
    host: crate::placeholders::HostInputs,
)
    requires
        0 <= n <= items.len(),
        default_modes_written_out(items, n),
    ensures
        main_walk(items, n, names, opts).2 == (crate::compile::defaults_fold(items, n, vars, host).execution_mode
            == crate::compile::ExecutionMode::Ephemeral),
    decreases n,
{
    if n > 0 {
        assert(default_modes_written_out(items, n - 1));
        lemma_default_mode_matches_compiled_defaults(items, n - 1, names, opts, vars, host);
        let dv = crate::compile::defaults_fold(items, n - 1, vars, host);
        let de = main_walk(items, n - 1, names, opts).2;
        match items[n - 1] {
            Item::Defaults(d) => {
                assert(modes_written_out(d.directives@));
                lemma_defaults_mode_matches_block_fold(d.directives@, d.directives@.len() as int, de, dv, vars, host);
            },
            _ => {},
        }
    }
}

/// For each job of a file, the validator's ephemeral judgement (with the
/// defaults it has in force there) agrees with the execution mode the
/// compiler gives the job, where no `execution_mode` value of the job or
/// of a `defaults { }` block before it is a placeholder.
pub proof fn lemma_validator_and_compiler_agree_on_ephemeral(
    items: Seq<Item>,
    k: int,
    names: Seq<Seq<char>>,
    opts: Options,
    vars: crate::compile::VarTable,
    host: crate::placeholders::HostInputs,
)
    requires
        0 <= k < items.len(),
        items[k] is Job,
        modes_written_out(items[k]->Job_0.directives@),
        default_modes_written_out(items, k),
    ensures
        spec_job_is_ephemeral(items[k]->Job_0, main_walk(items, k, names, opts).2)
            == (crate::compile::spec_job(items[k]->Job_0, crate::compile::defaults_fold(items, k, vars, host), vars, host)
            .parts.execution_mode == crate::compile::ExecutionMode::Ephemeral),
{
    lemma_default_mode_matches_compiled_defaults(items, k, names, opts, vars, host);
    lemma_ephemeral_judgement_matches_compiled_mode(items[k]->Job_0, crate::compile::defaults_fold(items, k, vars, host), vars, host);
}

/// The error for `singleton` together with `max_concurrent`.
pub open spec fn exclusive_message(raw: Seq<char>) -> Seq<char> {
    "`singleton` and `max_concurrent` are mutually exclusive (job '"@ + raw + "')"@
}

/// What checking the argument of a `max_concurrent` directive reports.
pub open spec fn max_concurrent_arg_diags(raw: Seq<char>, d: crate::ast::Directive) -> DiagSeq {
    if d.args@.len() == 0 {
        seq![
            error_at(
                "`max_concurrent` in job '"@ + raw + "' requires a positive integer argument"@,
                d.key.span,
            ),
        ]
    } else {
        let arg = d.args@[0];
        if arg.is_placeholder {
            Seq::empty()
        } else {
            match parse_u32_spec(arg.value@) {
                Some(n) => if n == 0 {
                    seq![
                        error_at(
                            "`max_concurrent` in job '"@ + raw + "' must be greater than zero"@,
                            arg.span,
                        ),
                    ]
                } else {
                    Seq::empty()
                },
                None => seq![
                    error_at(
                        "`max_concurrent` in job '"@ + raw + "' requires a positive integer, got '"@
                            + arg.value@ + "'"@,
                        arg.span,
                    ),
                ],
            }
        }
    }
}

/// The walk over the first `n` entries of a job body for its concurrency
/// guards: diagnostics, whether `singleton` and `max_concurrent` were
/// seen, and the first guard's keyword and span.
pub open spec fn guard_walk(job: JobBlock, n: int) -> (DiagSeq, bool, bool, Option<(Seq<char>, Span)>)
    decreases n,
{
    if n <= 0 {
        (Seq::empty(), false, false, None)
    } else {
        let (ds, single, maxc, guard) = guard_walk(job, n - 1);
        let raw = job.key.raw@;
        match job.directives@[n - 1] {
            DirectiveOrBlock::Directive(d) => {
                let key = d.key.value@;
                if key == "singleton"@ {
                    (
                        ds + if maxc {
                            seq![error_at(exclusive_message(raw), d.key.span)]
                        } else {
                            Seq::empty()
                        },
                        true,
                        maxc,
                        if guard is Some {
                            guard
                        } else {
                            Some(("singleton"@, d.key.span))
                        },
                    )
                } else if key == "max_concurrent"@ {
                    (
                        ds + (if single {
                            seq![error_at(exclusive_message(raw), d.key.span)]
                        } else {
                            Seq::empty()
                        }) + max_concurrent_arg_diags(raw, d),
                        single,
                        true,
                        if guard is Some {
                            guard
                        } else {
                            Some(("max_concurrent"@, d.key.span))
                        },
                    )
                } else {
                    (ds, single, maxc, guard)
                }
            },
            _ => (ds, single, maxc, guard),
        }
    }
}

/// The error for a concurrency guard on an ephemeral job.
pub open spec fn inert_guard_message(kw: Seq<char>, raw: Seq<char>) -> Seq<char> {
    "`"@ + kw + "` has no effect on the `ephemeral` job '"@ + raw
        + "': ephemeral executions are not persisted, so the concurrency guard can never observe an in-flight run. Use `queued` for a real overlap guarantee, or drop `"@
        + kw + "`."@
}

/// What checking a job's concurrency guards reports.
pub open spec fn concurrency_diags(job: JobBlock, default_ephemeral: bool) -> DiagSeq {
    let w = guard_walk(job, job.directives@.len() as int);
    w.0 + match w.3 {
        Some((kw, span)) => if spec_job_is_ephemeral(job, default_ephemeral) {
            seq![error_at(inert_guard_message(kw, job.key.raw@), span)]
        } else {
            Seq::empty()
        },
        None => Seq::empty(),
    }
}

fn validate_concurrency(job: &JobBlock, default_ephemeral: bool, diags: &mut Vec<Diagnostic>)
    ensures
        diags_view(final(diags)@) == diags_view(old(diags)@) + concurrency_diags(*job, default_ephemeral),
{
    let raw = job.key.raw.as_str();
    let mut singleton_seen = false;
    let mut max_concurrent_seen = false;
    let mut guard: Option<(&str, Span)> = None;
    let ghost k = diags_view(old(diags)@).len() as int;
    assert(diags_view(diags@).skip(k) =~= Seq::<(Severity, Seq<char>, Span)>::empty());
    let mut i: usize = 0;
    while i < job.directives.len()
        invariant
            i <= job.directives@.len(),
            raw@ == job.key.raw@,
            k == diags_view(old(diags)@).len(),
            k <= diags_view(diags@).len(),
            diags_view(diags@).take(k) == diags_view(old(diags)@),
            diags_view(diags@).skip(k) == guard_walk(*job, i as int).0,
            singleton_seen == guard_walk(*job, i as int).1,
            max_concurrent_seen == guard_walk(*job, i as int).2,
            match guard {
                Some((kw, span)) => guard_walk(*job, i as int).3 == Some((kw@, span)),
                None => guard_walk(*job, i as int).3 is None,
            },
        decreases job.directives@.len() - i,
    {
        match &job.directives[i] {
            DirectiveOrBlock::Directive(d) => {
                let key = d.key.value.as_str();
                if str_eq(key, "singleton") {
                    if max_concurrent_seen {
                        push_error(
                            diags,
                            job_message("`singleton` and `max_concurrent` are mutually exclusive (job '", raw, "')"),
                            d.key.span,
                        );
                    }
                    singleton_seen = true;
                    if guard.is_none() {
                        guard = Some(("singleton", d.key.span));
                    }
                } else if str_eq(key, "max_concurrent") {
                    proof {
                        reveal_strlit("singleton");
                        reveal_strlit("max_concurrent");
                        assert("singleton"@.len() != "max_concurrent"@.len());
                    }
                    if singleton_seen {
                        push_error(
                            diags,
                            job_message("`singleton` and `max_concurrent` are mutually exclusive (job '", raw, "')"),
                            d.key.span,
                        );
                    }
                    max_concurrent_seen = true;
                    if guard.is_none() {
                        guard = Some(("max_concurrent", d.key.span));
                    }
                    if d.args.len() == 0 {
                        push_error(
                            diags,
                            job_message("`max_concurrent` in job '", raw, "' requires a positive integer argument"),
                            d.key.span,
                        );
                    } else if !d.args[0].is_placeholder {
                        let arg = &d.args[0];
                        let cs = chars_of(arg.value.as_str());
                        match crate::text::parse_u32(cs.as_slice()) {
                            Some(n) => {
                                if n == 0 {
                                    push_error(
                                        diags,
                                        job_message("`max_concurrent` in job '", raw, "' must be greater than zero"),
                                        arg.span,
                                    );
                                }
                            },
                            None => {
                                let mut m = String::new();
                                push_str(&mut m, "`max_concurrent` in job '");
                                push_str(&mut m, raw);
                                push_str(&mut m, "' requires a positive integer, got '");
                                push_str(&mut m, arg.value.as_str());
                                push_str(&mut m, "'");
                                push_error(diags, m, arg.span);
                            },
                        }
                    }
                }
            },
            _ => {},
        }
        i = i + 1;
        assert(diags_view(diags@).skip(k) =~= guard_walk(*job, i as int).0);
        assert(diags_view(diags@).take(k) =~= diags_view(old(diags)@));
    }
    let ghost walked = diags_view(diags@);
    match guard {
        Some((kw, span)) => {
            if job_is_ephemeral(job, default_ephemeral) {
                let mut m = String::new();
                push_str(&mut m, "`");
                push_str(&mut m, kw);
                push_str(&mut m, "` has no effect on the `ephemeral` job '");
                push_str(&mut m, raw);
                push_str(
                    &mut m,
                    "': ephemeral executions are not persisted, so the concurrency guard can never observe an in-flight run. Use `queued` for a real overlap guarantee, or drop `",
                );
                push_str(&mut m, kw);
                push_str(&mut m, "`.");
                push_error(diags, m, span);
            }
        },
        None => {},
    }
    assert(walked =~= diags_view(old(diags)@) + walked.skip(k));
    assert(diags_view(diags@) =~= diags_view(old(diags)@) + concurrency_diags(*job, default_ephemeral));
}

// ─── The whole file ──────────────────────────────────────────────────────────

/// The first pass over the first `n` items: the calendar names declared
/// so far, and an error for each name declared twice.
pub open spec fn calendar_names_walk(items: Seq<Item>, n: int) -> (DiagSeq, Seq<Seq<char>>)
    decreases n,
{
    if n <= 0 {
        (Seq::empty(), Seq::empty())
    } else {
        let (ds, names) = calendar_names_walk(items, n - 1);
        match items[n - 1] {
            Item::Calendar(c) => if names.contains(c.name.value@) {
                (
                    ds + seq![
                        error_at("duplicate calendar name '"@ + c.name.value@ + "'"@, c.name.span),
                    ],
                    names,
                )
            } else {
                (ds, names.push(c.name.value@))
            },
            _ => (ds, names),
        }
    }
}

/// The message for a calendar name declared twice.
pub open spec fn duplicate_calendar_message(name: Seq<char>) -> Seq<char> {
    "duplicate calendar name '"@ + name + "'"@
}

proof fn lemma_calendar_walk_grows(items: Seq<Item>, m: int, n: int)
    requires
        0 <= m <= n <= items.len(),
    ensures
        calendar_names_walk(items, m).0.len() <= calendar_names_walk(items, n).0.len(),
        forall|x: int| 0 <= x < calendar_names_walk(items, m).0.len() ==> calendar_names_walk(items, n).0[x]
            == calendar_names_walk(items, m).0[x],
        forall|nm: Seq<char>| calendar_names_walk(items, m).1.contains(nm) ==> calendar_names_walk(items, n).1.contains(nm),
    decreases n - m,
{
    if m < n {
        lemma_calendar_walk_grows(items, m, n - 1);
        let prev = calendar_names_walk(items, n - 1);
        match items[n - 1] {
            Item::Calendar(c) => if !prev.1.contains(c.name.value@) {
                assert forall|nm: Seq<char>| prev.1.contains(nm) implies prev.1.push(c.name.value@).contains(nm) by {
                    let x = choose|x: int| 0 <= x < prev.1.len() && prev.1[x] == nm;
                    assert(prev.1.push(c.name.value@)[x] == nm);
                }
            },
            _ => {},
        }
    }
}

proof fn lemma_calendar_walk_names(items: Seq<Item>, i: int, n: int)
    requires
        0 <= i < n <= items.len(),
        items[i] is Calendar,
    ensures
        calendar_names_walk(items, n).1.contains(items[i]->Calendar_0.name.value@),
{
    let nm = items[i]->Calendar_0.name.value@;
    let prev = calendar_names_walk(items, i);
    if !prev.1.contains(nm) {
        assert(prev.1.push(nm)[prev.1.len() as int] == nm);
    }
    assert(calendar_names_walk(items, i + 1).1.contains(nm));
    lemma_calendar_walk_grows(items, i + 1, n);
}

/// Whenever two calendars of a file share a name, validation reports an
/// error `duplicate calendar name '<name>'` at the later one's name.
pub proof fn lemma_duplicate_calendar_reported(ast: Croniqfile, opts: Options, i: int, j: int)
    requires
        0 <= i < j < ast.items@.len(),
        ast.items@[i] is Calendar,
        ast.items@[j] is Calendar,
        ast.items@[i]->Calendar_0.name.value@ == ast.items@[j]->Calendar_0.name.value@,
    ensures
        spec_validate(ast, opts).contains(
            (
                Severity::Error,
                duplicate_calendar_message(ast.items@[j]->Calendar_0.name.value@),
                ast.items@[j]->Calendar_0.name.span,
            ),
        ),
{
    let items = ast.items@;
    let cj = items[j]->Calendar_0;
    let d = (Severity::Error, duplicate_calendar_message(cj.name.value@), cj.name.span);
    lemma_calendar_walk_names(items, i, j);
    let prev = calendar_names_walk(items, j);
    let after = calendar_names_walk(items, j + 1);
    assert(after.0 == prev.0 + seq![d]);
    let x = prev.0.len() as int;
    assert(after.0[x] == d);
    lemma_calendar_walk_grows(items, j + 1, items.len() as int);
    let all = calendar_names_walk(items, items.len() as int);
    assert(all.0[x] == d);
    let v = spec_validate(ast, opts);
    assert(v[x] == all.0[x]);
}

proof fn lemma_main_walk_grows(items: Seq<Item>, m: int, n: int, names: Seq<Seq<char>>, opts: Options)
    requires
        0 <= m <= n <= items.len(),
    ensures
        main_walk(items, m, names, opts).0.len() <= main_walk(items, n, names, opts).0.len(),
        forall|x: int| 0 <= x < main_walk(items, m, names, opts).0.len() ==> main_walk(items, n, names, opts).0[x]
            == main_walk(items, m, names, opts).0[x],
        forall|k: Seq<char>| main_walk(items, m, names, opts).1.contains(k) ==> main_walk(items, n, names, opts).1.contains(k),
    decreases n - m,
{
    if m < n {
        lemma_main_walk_grows(items, m, n - 1, names, opts);
        let prev = main_walk(items, n - 1, names, opts);
        match items[n - 1] {
            Item::Job(j) => {
                assert forall|k: Seq<char>| prev.1.contains(k) implies set_add(prev.1, j.key.raw@).contains(k) by {
                    if !prev.1.contains(j.key.raw@) {
                        let x = choose|x: int| 0 <= x < prev.1.len() && prev.1[x] == k;
                        assert(prev.1.push(j.key.raw@)[x] == k);
                    }
                }
            },
            Item::Calendar(c) => {},
            _ => {},
        }
    }
}

/// Whenever two jobs of a file share a key, validation reports an error
/// `duplicate job key '<key>'` at the later one's key.
pub proof fn lemma_duplicate_job_key_reported(ast: Croniqfile, opts: Options, i: int, j: int)
    requires
        0 <= i < j < ast.items@.len(),
        ast.items@[i] is Job,
        ast.items@[j] is Job,
        ast.items@[i]->Job_0.key.raw@ == ast.items@[j]->Job_0.key.raw@,
    ensures
        spec_validate(ast, opts).contains(
            (
                Severity::Error,
                "duplicate job key '"@ + ast.items@[j]->Job_0.key.raw@ + "'"@,
                ast.items@[j]->Job_0.key.span,
            ),
        ),
{
    let items = ast.items@;
    let names = calendar_names_walk(items, items.len() as int).1;
    let ji = items[i]->Job_0;
    let jj = items[j]->Job_0;
    let raw = jj.key.raw@;
    let d = (Severity::Error, "duplicate job key '"@ + raw + "'"@, jj.key.span);
    let pi = main_walk(items, i, names, opts);
    if !pi.1.contains(raw) {
        assert(pi.1.push(raw)[pi.1.len() as int] == raw);
    }
    assert(main_walk(items, i + 1, names, opts).1.contains(raw));
    lemma_main_walk_grows(items, i + 1, j, names, opts);
    let pj = main_walk(items, j, names, opts);
    assert(pj.1.contains(raw));
    let jd = job_diags(jj, names, pj.1, pj.2, opts);
    assert(jd[0] == d);
    let after = main_walk(items, j + 1, names, opts);
    assert(after.0 == pj.0 + jd);
    let x = pj.0.len() as int;
    assert(after.0[x] == d);
    lemma_main_walk_grows(items, j + 1, items.len() as int, names, opts);
    let all = main_walk(items, items.len() as int, names, opts);
    assert(all.0[x] == d);
    let first = calendar_names_walk(items, items.len() as int);
    let pre = first.0 + blocks_diags(items, items.len() as int);
    let v = spec_validate(ast, opts);
    assert(v == pre + all.0);
    assert(v[pre.len() + x] == d);
}

proof fn lemma_job_diags_reported(ast: Croniqfile, opts: Options, j: int, y: int)
    requires
        0 <= j < ast.items@.len(),
        ast.items@[j] is Job,
        ({
            let items = ast.items@;
            let names = calendar_names_walk(items, items.len() as int).1;
            let pj = main_walk(items, j, names, opts);
            0 <= y < job_diags(items[j]->Job_0, names, pj.1, pj.2, opts).len()
        }),
    ensures
        ({
            let items = ast.items@;
            let names = calendar_names_walk(items, items.len() as int).1;
            let pj = main_walk(items, j, names, opts);
            spec_validate(ast, opts).contains(job_diags(items[j]->Job_0, names, pj.1, pj.2, opts)[y])
        }),
{
    let items = ast.items@;
    let names = calendar_names_walk(items, items.len() as int).1;
    let jj = items[j]->Job_0;
    let pj = main_walk(items, j, names, opts);
    let jd = job_diags(jj, names, pj.1, pj.2, opts);
    let after = main_walk(items, j + 1, names, opts);
    assert(after.0 == pj.0 + jd);
    let x = pj.0.len() + y;
    assert(after.0[x] == jd[y]);
    lemma_main_walk_grows(items, j + 1, items.len() as int, names, opts);
    let all = main_walk(items, items.len() as int, names, opts);
    assert(all.0[x] == jd[y]);
    let first = calendar_names_walk(items, items.len() as int);
    let pre = first.0 + blocks_diags(items, items.len() as int);
    let v = spec_validate(ast, opts);
    assert(v == pre + all.0);
    assert(v[pre.len() + x] == jd[y]);
}

/// A job whose interval counts zero units is reported: validation holds
/// the error `interval count must be greater than zero` at its schedule
/// line; an interval shorter than thirty seconds (but not zero) gets a
/// warning naming its length in seconds.
pub proof fn lemma_interval_checks_reported(ast: Croniqfile, opts: Options, j: int)
    requires
        0 <= j < ast.items@.len(),
        ast.items@[j] is Job,
        ast.items@[j]->Job_0.schedule matches Some(s) && s.kind is Interval,
    ensures
        ({
            let s = ast.items@[j]->Job_0.schedule->Some_0;
            let count = s.kind->Interval_count;
            let secs = count * crate::schedule::unit_seconds(s.kind->Interval_unit);
            &&& count == 0 ==> spec_validate(ast, opts).contains(
                (Severity::Error, "interval count must be greater than zero"@, s.span),
            )
            &&& secs < 30 ==> spec_validate(ast, opts).contains(
                (Severity::Warning, short_interval_message(secs as nat), s.span),
            )
        }),
{
    let items = ast.items@;
    let names = calendar_names_walk(items, items.len() as int).1;
    let jj = items[j]->Job_0;
    let s = jj.schedule->Some_0;
    let count = s.kind->Interval_count;
    let unit = s.kind->Interval_unit;
    let secs = count * crate::schedule::unit_seconds(unit);
    let pj = main_walk(items, j, names, opts);
    let jd = job_diags(jj, names, pj.1, pj.2, opts);
    let y: int = if pj.1.contains(jj.key.raw@) { 1 } else { 0 };
    let cr = if opts.check_calendars {
        calendar_ref_diags(jj.key.raw@, names, s.options@, s.options@.len() as int)
    } else {
        Seq::empty()
    };
    let sd = schedule_diags(s);
    let base = y + cr.len();
    assert forall|z: int| 0 <= z < sd.len() implies jd[base + z] == sd[z] by {}
    match unit {
        IntervalUnit::Seconds => assert(secs == count as int),
        IntervalUnit::Minutes => assert(secs == count * 60),
        IntervalUnit::Hours => assert(secs == count * 3600),
    }
    assert(interval_seconds(count, unit) == secs || secs > u32::MAX);
    if secs < 30 {
        assert(interval_seconds(count, unit) == secs);
        assert(sd[0] == warning_at(short_interval_message(secs as nat), s.span));
        lemma_job_diags_reported(ast, opts, j, base);
    }
    if count == 0 {
        assert(secs == 0) by (nonlinear_arith)
            requires
                count == 0,
                secs == count * crate::schedule::unit_seconds(unit),
        ;
        assert(interval_seconds(count, unit) == 0);
        assert(sd[1] == error_at("interval count must be greater than zero"@, s.span));
        lemma_job_diags_reported(ast, opts, j, base + 1);
    }
}

/// Every job without a schedule line is reported: validation holds the
/// error `job '<key>' has no schedule` at its key.
pub proof fn lemma_unscheduled_job_reported(ast: Croniqfile, opts: Options, j: int)
    requires
        0 <= j < ast.items@.len(),
        ast.items@[j] is Job,
        ast.items@[j]->Job_0.schedule is None,
    ensures
        spec_validate(ast, opts).contains(
            (
                Severity::Error,
                "job '"@ + ast.items@[j]->Job_0.key.raw@ + "' has no schedule"@,
                ast.items@[j]->Job_0.key.span,
            ),
        ),
{
    let items = ast.items@;
    let names = calendar_names_walk(items, items.len() as int).1;
    let jj = items[j]->Job_0;
    let raw = jj.key.raw@;
    let d = (Severity::Error, "job '"@ + raw + "' has no schedule"@, jj.key.span);
    let pj = main_walk(items, j, names, opts);
    let jd = job_diags(jj, names, pj.1, pj.2, opts);
    let y: int = if pj.1.contains(raw) { 1 } else { 0 };
    assert(jd[y] == d);
    let after = main_walk(items, j + 1, names, opts);
    assert(after.0 == pj.0 + jd);
    let x = pj.0.len() + y;
    assert(after.0[x] == d);
    lemma_main_walk_grows(items, j + 1, items.len() as int, names, opts);
    let all = main_walk(items, items.len() as int, names, opts);
    assert(all.0[x] == d);
    let first = calendar_names_walk(items, items.len() as int);
    let pre = first.0 + blocks_diags(items, items.len() as int);
    let v = spec_validate(ast, opts);
    assert(v == pre + all.0);
    assert(v[pre.len() + x] == d);
}

/// The `defaults { execution_mode … }` baseline after the first `n`
/// entries of a defaults block.
pub open spec fn defaults_mode_fold(items: Seq<DirectiveOrBlock>, n: int, base: bool) -> bool
    decreases n,
{
    if n <= 0 {
        base
    } else {
        match items[n - 1] {
            DirectiveOrBlock::Directive(d) => if d.key.value@ == "execution_mode"@ && d.args@.len()
                > 0 {
                d.args@[0].value@ == "ephemeral"@
            } else {
                defaults_mode_fold(items, n - 1, base)
            },
            _ => defaults_mode_fold(items, n - 1, base),
        }
    }
}

/// An error for each literal argument of a `calendar` option among the
/// first `n` options that names no declared calendar.
pub open spec fn calendar_ref_diags(
    raw: Seq<char>,
    names: Seq<Seq<char>>,
    opts: Seq<crate::ast::Directive>,
    n: int,
) -> DiagSeq
    decreases n,
{
    if n <= 0 {
        Seq::empty()
    } else {
        calendar_ref_diags(raw, names, opts, n - 1) + if opts[n - 1].key.value@ == "calendar"@ {
            ref_args_diags(raw, names, opts[n - 1].args@, opts[n - 1].args@.len() as int)
        } else {
            Seq::empty()
        }
    }
}

/// An error for each literal argument among the first `n` that names no
/// declared calendar.
pub open spec fn ref_args_diags(raw: Seq<char>, names: Seq<Seq<char>>, args: Seq<StringValue>, n: int) -> DiagSeq
    decreases n,
{
    if n <= 0 {
        Seq::empty()
    } else {
        ref_args_diags(raw, names, args, n - 1) + if !args[n - 1].is_placeholder && !names.contains(
            args[n - 1].value@,
        ) {
            seq![
                error_at(
                    "calendar '"@ + args[n - 1].value@ + "' referenced in job '"@ + raw
                        + "' is not defined"@,
                    args[n - 1].span,
                ),
            ]
        } else {
            Seq::empty()
        }
    }
}

/// What checking one job reports, given the calendar names, the job keys
/// seen before it and the execution-mode baseline.
pub open spec fn job_diags(
    job: JobBlock,
    names: Seq<Seq<char>>,
    keys: Seq<Seq<char>>,
    default_ephemeral: bool,
    opts: Options,
) -> DiagSeq {
    let raw = job.key.raw@;
    (if keys.contains(raw) {
        seq![error_at("duplicate job key '"@ + raw + "'"@, job.key.span)]
    } else {
        Seq::empty()
    }) + match job.schedule {
        None => seq![error_at("job '"@ + raw + "' has no schedule"@, job.key.span)],
        Some(s) => (if opts.check_calendars {
            calendar_ref_diags(raw, names, s.options@, s.options@.len() as int)
        } else {
            Seq::empty()
        }) + schedule_diags(s),
    } + runner_diags(job) + concurrency_diags(job, default_ephemeral)
}

/// The second pass over the first `n` items: diagnostics, the job keys
/// seen, and the execution-mode baseline.
pub open spec fn main_walk(items: Seq<Item>, n: int, names: Seq<Seq<char>>, opts: Options) -> (
    DiagSeq,
    Seq<Seq<char>>,
    bool,
)
    decreases n,
{
    if n <= 0 {
        (Seq::empty(), Seq::empty(), false)
    } else {
        let (ds, keys, de) = main_walk(items, n - 1, names, opts);
        match items[n - 1] {
            Item::Defaults(d) => (
                ds,
                keys,
                defaults_mode_fold(d.directives@, d.directives@.len() as int, de),
            ),
            Item::Job(j) => (
                ds + job_diags(j, names, keys, de, opts),
                set_add(keys, j.key.raw@),
                de,
            ),
            Item::Calendar(c) => if opts.check_calendars {
                (ds + calendar_diags(c.rules@, c.rules@.len() as int), keys, de)
            } else {
                (ds, keys, de)
            },
            _ => (ds, keys, de),
        }
    }
}

/// Everything validation reports for a file: duplicate calendar names, the
/// unknown-directive checks, then the per-item checks.
pub open spec fn spec_validate(ast: Croniqfile, opts: Options) -> DiagSeq {
    let items = ast.items@;
    let first = calendar_names_walk(items, items.len() as int);
    first.0 + blocks_diags(items, items.len() as int) + main_walk(
        items,
        items.len() as int,
        first.1,
        opts,
    ).0
}

/// Validate a Croniqfile syntax tree, returning errors and warnings.
pub fn validate(ast: &Croniqfile) -> (r: Vec<Diagnostic>)
    ensures
        diags_view(r@) == spec_validate(*ast, Options { check_calendars: true }),
{
    validate_with(ast, Options::default())
}

/// `validate` with individual checks disabled (see `Options`).
pub fn validate_with(ast: &Croniqfile, opts: Options) -> (r: Vec<Diagnostic>)
    ensures
        diags_view(r@) == spec_validate(*ast, opts),
{
    let mut diags: Vec<Diagnostic> = Vec::new();
    let mut job_keys: Vec<String> = Vec::new();
    let mut calendar_names: Vec<String> = Vec::new();
    let ghost items = ast.items@;
    assert(diags_view(diags@) =~= Seq::<(Severity, Seq<char>, Span)>::empty());
    assert(views(calendar_names@) =~= Seq::<Seq<char>>::empty());
    let mut i: usize = 0;
    while i < ast.items.len()
        invariant
            i <= items.len(),
            items == ast.items@,
            (diags_view(diags@), views(calendar_names@)) == calendar_names_walk(items, i as int),
        decreases items.len() - i,
    {
        match &ast.items[i] {
            Item::Calendar(cal) => {
                if contains_string(&calendar_names, cal.name.value.as_str()) {
                    let mut m = String::new();
                    push_str(&mut m, "duplicate calendar name '");
                    push_str(&mut m, cal.name.value.as_str());
                    push_str(&mut m, "'");
                    push_error(&mut diags, m, cal.name.span);
                } else {
                    let ghost before = calendar_names@;
                    calendar_names.push(copied(cal.name.value.as_str()));
                    assert(views(calendar_names@) =~= views(before).push(cal.name.value@));
                }
            },
            _ => {},
        }
        i = i + 1;
    }
    let ghost names = views(calendar_names@);
    validate_blocks(ast, &mut diags);
    let ghost start = diags_view(diags@);
    let mut default_ephemeral = false;
    assert(views(job_keys@) =~= Seq::<Seq<char>>::empty());
    let mut i: usize = 0;
    while i < ast.items.len()
        invariant
            i <= items.len(),
            items == ast.items@,
            names == views(calendar_names@),
            diags_view(diags@) == start + main_walk(items, i as int, names, opts).0,
            views(job_keys@) == main_walk(items, i as int, names, opts).1,
            default_ephemeral == main_walk(items, i as int, names, opts).2,
        decreases items.len() - i,
    {
        let ghost before = diags_view(diags@);
        match &ast.items[i] {
            Item::Defaults(def) => {
                default_ephemeral = defaults_mode(def, default_ephemeral);
            },
            Item::Job(job) => {
                validate_job(job, &calendar_names, &mut job_keys, default_ephemeral, opts, &mut diags);
            },
            Item::Calendar(cal) => {
                if opts.check_calendars {
                    validate_calendar(cal, &mut diags);
                }
            },
            _ => {},
        }
        i = i + 1;
        assert(diags_view(diags@) =~= start + main_walk(items, i as int, names, opts).0);
    }
    diags
}

/// The execution-mode baseline after a `defaults { }` block.
fn defaults_mode(def: &crate::ast::DefaultsBlock, base: bool) -> (r: bool)
    ensures
        r == defaults_mode_fold(def.directives@, def.directives@.len() as int, base),
{
    let mut mode = base;
    let mut j: usize = 0;
    while j < def.directives.len()
        invariant
            j <= def.directives@.len(),
            mode == defaults_mode_fold(def.directives@, j as int, base),
        decreases def.directives@.len() - j,
    {
        match &def.directives[j] {
            DirectiveOrBlock::Directive(dir) => {
                if str_eq(dir.key.value.as_str(), "execution_mode") && dir.args.len() > 0 {
                    mode = str_eq(dir.args[0].value.as_str(), "ephemeral");
                }
            },
            _ => {},
        }
        j = j + 1;
    }
    mode
}

/// The checks of one job.
fn validate_job(
    job: &JobBlock,
    calendar_names: &Vec<String>,
    job_keys: &mut Vec<String>,
    default_ephemeral: bool,
    opts: Options,
    diags: &mut Vec<Diagnostic>,
)
    ensures
        diags_view(final(diags)@) == diags_view(old(diags)@) + job_diags(
            *job,
            views(calendar_names@),
            views(old(job_keys)@),
            default_ephemeral,
            opts,
        ),
        views(final(job_keys)@) == set_add(views(old(job_keys)@), job.key.raw@),
{
    let raw = job.key.raw.as_str();
    if contains_string(job_keys, raw) {
        let mut m = String::new();
        push_str(&mut m, "duplicate job key '");
        push_str(&mut m, raw);
        push_str(&mut m, "'");
        push_error(diags, m, job.key.span);
    }
    add_to_set(job_keys, raw);
    match &job.schedule {
        None => {
            push_error(diags, job_message("job '", raw, "' has no schedule"), job.key.span);
        },
        Some(sched) => {
            if opts.check_calendars {
                check_calendar_refs(raw, calendar_names, sched, diags);
            }
            validate_schedule_kind(sched, diags);
        },
    }
    validate_runner_constraints(job, diags);
    validate_concurrency(job, default_ephemeral, diags);
    assert(diags_view(diags@) =~= diags_view(old(diags)@) + job_diags(
        *job,
        views(calendar_names@),
        views(old(job_keys)@),
        default_ephemeral,
        opts,
    ));
}

/// Checks the `calendar` options of a schedule against the declared names.
fn check_calendar_refs(raw: &str, names: &Vec<String>, sched: &ScheduleNode, diags: &mut Vec<Diagnostic>)
    ensures
        diags_view(final(diags)@) == diags_view(old(diags)@) + calendar_ref_diags(
            raw@,
            views(names@),
            sched.options@,
            sched.options@.len() as int,
        ),
{
    let mut i: usize = 0;
    while i < sched.options.len()
        invariant
            i <= sched.options@.len(),
            diags_view(diags@) == diags_view(old(diags)@) + calendar_ref_diags(
                raw@,
                views(names@),
                sched.options@,
                i as int,
            ),
        decreases sched.options@.len() - i,
    {
        let opt = &sched.options[i];
        if str_eq(opt.key.value.as_str(), "calendar") {
            let ghost start = diags_view(diags@);
            let mut j: usize = 0;
            while j < opt.args.len()
                invariant
                    j <= opt.args@.len(),
                    diags_view(diags@) == start + ref_args_diags(raw@, views(names@), opt.args@, j as int),
                decreases opt.args@.len() - j,
            {
                let arg = &opt.args[j];
                if !arg.is_placeholder && !contains_string(names, arg.value.as_str()) {
                    let mut m = String::new();
                    push_str(&mut m, "calendar '");
                    push_str(&mut m, arg.value.as_str());
                    push_str(&mut m, "' referenced in job '");
                    push_str(&mut m, raw);
                    push_str(&mut m, "' is not defined");
                    push_error(diags, m, arg.span);
                }
                j = j + 1;
                assert(diags_view(diags@) =~= start + ref_args_diags(raw@, views(names@), opt.args@, j as int));
            }
        }
        i = i + 1;
        assert(diags_view(diags@) =~= diags_view(old(diags)@) + calendar_ref_diags(
            raw@,
            views(names@),
            sched.options@,
            i as int,
        ));
    }
}

} // verus!
