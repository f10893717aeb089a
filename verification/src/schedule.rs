//! Compiled schedules: the evaluated form of a schedule line, with a
//! human-readable summary and the canonical DSL line it re-parses from.

use vstd::prelude::*;
use crate::ast::{
    full_name, IntervalUnit, MonthOrdinal, ScheduleKind, StringValue, TimeValue, Weekday,
};
use crate::format::{
    escape_quoted, format_schedule_line, join_space, spec_month_ordinal_text, spec_schedule_line,
    spec_string_value, spec_weekday_list,
};
use crate::lexer::Span;
use crate::plural::{interval_phrase, spec_interval_phrase};
use crate::text::{decimal, pad2, push_char, push_decimal, push_pad2, push_str};

verus! {

/// A compiled schedule that can compute next fire times.
#[derive(Debug, Clone)]
pub enum CompiledSchedule {
    Interval { seconds: u64 },
    Daily { hour: u8, minute: u8 },
    Weekdays { days: Vec<Weekday>, hour: u8, minute: u8 },
    Monthly { ordinals: Vec<MonthOrdinal>, hour: u8, minute: u8 },
    Once { at: String },
    Disabled,
}

/// Seconds in one interval unit.
pub open spec fn unit_seconds(u: IntervalUnit) -> nat {
    match u {
        IntervalUnit::Seconds => 1,
        IntervalUnit::Minutes => 60,
        IntervalUnit::Hours => 3600,
    }
}

/// `c` is what `kind` compiles to: intervals in seconds, times as hour and
/// minute, days and ordinals as given, the moment of a one-off as written.
pub open spec fn compiled_from(kind: ScheduleKind, c: CompiledSchedule) -> bool {
    match kind {
        ScheduleKind::Interval { count, unit } => c matches CompiledSchedule::Interval { seconds }
            && seconds == count * unit_seconds(unit),
        ScheduleKind::Daily { time } => c matches CompiledSchedule::Daily { hour, minute }
            && hour == time.hour && minute == time.minute,
        ScheduleKind::Weekdays { days, time } => c matches CompiledSchedule::Weekdays {
            days: d,
            hour,
            minute,
        } && d@ == days@ && hour == time.hour && minute == time.minute,
        ScheduleKind::Monthly { ordinals, time } => c matches CompiledSchedule::Monthly {
            ordinals: o,
            hour,
            minute,
        } && o@ == ordinals@ && hour == time.hour && minute == time.minute,
        ScheduleKind::Once { at } => c matches CompiledSchedule::Once { at: a } && a@ == at.value@,
        ScheduleKind::Disabled => c is Disabled,
    }
}

/// `HH:MM`, each part padded to two digits.
pub open spec fn hhmm(hour: u8, minute: u8) -> Seq<char> {
    pad2(hour as nat) + seq![':'] + pad2(minute as nat)
}

/// Parts joined with `", "`.
pub open spec fn join_comma(parts: Seq<Seq<char>>) -> Seq<char>
    decreases parts.len(),
{
    if parts.len() == 0 {
        Seq::empty()
    } else if parts.len() == 1 {
        parts[0]
    } else {
        join_comma(parts.drop_last()) + seq![',', ' '] + parts.last()
    }
}

/// How an ordinal reads in a summary: the day number, or `last`.
pub open spec fn summary_ordinal(o: MonthOrdinal) -> Seq<char> {
    match o {
        MonthOrdinal::Day(d) => decimal(d as nat),
        MonthOrdinal::Last => "last"@,
    }
}

/// An interval of `seconds` in its coarsest whole unit: hours when it is a
/// positive multiple of an hour, else minutes when it is a positive
/// multiple of a minute, else seconds.
pub open spec fn coarsest(seconds: u64) -> (nat, IntervalUnit) {
    if seconds >= 3600 && seconds % 3600 == 0 {
        ((seconds / 3600) as nat, IntervalUnit::Hours)
    } else if seconds >= 60 && seconds % 60 == 0 {
        ((seconds / 60) as nat, IntervalUnit::Minutes)
    } else {
        (seconds as nat, IntervalUnit::Seconds)
    }
}

/// The singular noun of a unit.
pub open spec fn unit_noun(u: IntervalUnit) -> Seq<char> {
    match u {
        IntervalUnit::Seconds => "second"@,
        IntervalUnit::Minutes => "minute"@,
        IntervalUnit::Hours => "hour"@,
    }
}

/// The human-readable summary of a schedule.
pub open spec fn spec_summary(s: CompiledSchedule) -> Seq<char> {
    match s {
        CompiledSchedule::Interval { seconds } => "every "@ + spec_interval_phrase(
            coarsest(seconds).0,
            unit_noun(coarsest(seconds).1),
        ),
        CompiledSchedule::Daily { hour, minute } => "every day at "@ + hhmm(hour, minute),
        CompiledSchedule::Weekdays { days, hour, minute } => "every "@ + join_comma(
            days@.map_values(|d: Weekday| full_name(d)),
        ) + " at "@ + hhmm(hour, minute),
        CompiledSchedule::Monthly { ordinals, hour, minute } => "every "@ + join_comma(
            ordinals@.map_values(|o: MonthOrdinal| summary_ordinal(o)),
        ) + " of month at "@ + hhmm(hour, minute),
        CompiledSchedule::Once { at } => "once at "@ + at@,
        CompiledSchedule::Disabled => "disabled"@,
    }
}

/// The interval count written back into a schedule line: the coarsest
/// count, cut to 32 bits.
pub open spec fn dsl_count(seconds: u64) -> u32 {
    coarsest(seconds).0 as u32
}

/// `k` is the schedule line rebuilt from `s`: the coarsest interval unit,
/// times written `HH:MM`, days and ordinals as compiled, a one-off moment
/// re-quoted so that it survives lexing again.
pub open spec fn kind_of(s: CompiledSchedule, k: ScheduleKind) -> bool {
    match s {
        CompiledSchedule::Interval { seconds } => k matches ScheduleKind::Interval { count, unit }
            && count == dsl_count(seconds) && unit == coarsest(seconds).1,
        CompiledSchedule::Daily { hour, minute } => k matches ScheduleKind::Daily { time }
            && time.hour == hour && time.minute == minute && time.raw@ == hhmm(hour, minute),
        CompiledSchedule::Weekdays { days, hour, minute } => k matches ScheduleKind::Weekdays {
            days: d,
            time,
        } && d@ == days@ && time.hour == hour && time.minute == minute && time.raw@ == hhmm(
            hour,
            minute,
        ),
        CompiledSchedule::Monthly { ordinals, hour, minute } => k matches ScheduleKind::Monthly {
            ordinals: o,
            time,
        } && o@ == ordinals@ && time.hour == hour && time.minute == minute && time.raw@ == hhmm(
            hour,
            minute,
        ),
        CompiledSchedule::Once { at } => k matches ScheduleKind::Once { at: v } && v.value@ == at@
            && v.quoted && !v.is_placeholder,
        CompiledSchedule::Disabled => k is Disabled,
    }
}

/// The canonical DSL line of a compiled schedule.
pub open spec fn spec_to_dsl(s: CompiledSchedule) -> Seq<char> {
    match s {
        CompiledSchedule::Interval { seconds } => "every "@ + spec_interval_phrase(
            dsl_count(seconds) as nat,
            unit_noun(coarsest(seconds).1),
        ),
        CompiledSchedule::Daily { hour, minute } => "every day at "@ + hhmm(hour, minute),
        CompiledSchedule::Weekdays { days, hour, minute } => "every "@ + spec_weekday_list(days@)
            + " at "@ + hhmm(hour, minute),
        CompiledSchedule::Monthly { ordinals, hour, minute } => "every "@ + join_space(
            ordinals@.map_values(|o: MonthOrdinal| spec_month_ordinal_text(o)),
        ) + " of month at "@ + hhmm(hour, minute),
        CompiledSchedule::Once { at } => "once at "@ + seq!['"'] + escape_quoted(at@) + seq!['"'],
        CompiledSchedule::Disabled => "disabled"@,
    }
}

/// The interval of a compiled schedule can be written back as a 32-bit
/// count of its coarsest unit.
pub open spec fn dsl_count_fits(s: CompiledSchedule) -> bool {
    match s {
        CompiledSchedule::Interval { seconds } => coarsest(seconds).0 <= u32::MAX,
        _ => true,
    }
}

/// Two compiled schedules with the same fields.
pub open spec fn same_schedule(a: CompiledSchedule, b: CompiledSchedule) -> bool {
    match (a, b) {
        (CompiledSchedule::Interval { seconds: x }, CompiledSchedule::Interval { seconds: y }) => x
            == y,
        (
            CompiledSchedule::Daily { hour: h1, minute: m1 },
            CompiledSchedule::Daily { hour: h2, minute: m2 },
        ) => h1 == h2 && m1 == m2,
        (
            CompiledSchedule::Weekdays { days: d1, hour: h1, minute: m1 },
            CompiledSchedule::Weekdays { days: d2, hour: h2, minute: m2 },
        ) => d1@ == d2@ && h1 == h2 && m1 == m2,
        (
            CompiledSchedule::Monthly { ordinals: o1, hour: h1, minute: m1 },
            CompiledSchedule::Monthly { ordinals: o2, hour: h2, minute: m2 },
        ) => o1@ == o2@ && h1 == h2 && m1 == m2,
        (CompiledSchedule::Once { at: x }, CompiledSchedule::Once { at: y }) => x@ == y@,
        (CompiledSchedule::Disabled, CompiledSchedule::Disabled) => true,
        _ => false,
    }
}

/// A copy of a list of days.
fn copy_days(days: &Vec<Weekday>) -> (r: Vec<Weekday>)
    ensures
        r@ == days@,
{
    let mut r: Vec<Weekday> = Vec::new();
    let mut i: usize = 0;
    while i < days.len()
        invariant
            i <= days@.len(),
            r@ == days@.take(i as int),
        decreases days@.len() - i,
    {
        r.push(days[i]);
        i = i + 1;
        assert(r@ =~= days@.take(i as int));
    }
    assert(days@.take(days@.len() as int) =~= days@);
    r
}

/// A copy of a list of monthly ordinals.
fn copy_ordinals(ordinals: &Vec<MonthOrdinal>) -> (r: Vec<MonthOrdinal>)
    ensures
        r@ == ordinals@,
{
    let mut r: Vec<MonthOrdinal> = Vec::new();
    let mut i: usize = 0;
    while i < ordinals.len()
        invariant
            i <= ordinals@.len(),
            r@ == ordinals@.take(i as int),
        decreases ordinals@.len() - i,
    {
        r.push(ordinals[i]);
        i = i + 1;
        assert(r@ =~= ordinals@.take(i as int));
    }
    assert(ordinals@.take(ordinals@.len() as int) =~= ordinals@);
    r
}

/// Appends `HH:MM`.
fn push_hhmm(out: &mut String, hour: u8, minute: u8)
    ensures
        final(out)@ == old(out)@ + hhmm(hour, minute),
{
    push_pad2(out, hour as u64);
    push_char(out, ':');
    push_pad2(out, minute as u64);
    assert(final(out)@ =~= old(out)@ + hhmm(hour, minute));
}

/// A time value written `HH:MM`, with a synthetic span.
fn time_value(hour: u8, minute: u8) -> (t: TimeValue)
    ensures
        t.hour == hour,
        t.minute == minute,
        t.raw@ == hhmm(hour, minute),
{
    let mut raw = String::new();
    push_hhmm(&mut raw, hour, minute);
    TimeValue { hour, minute, raw, span: Span::empty(0) }
}

impl CompiledSchedule {
    /// Compiles a schedule line.
    pub fn from_ast(kind: &ScheduleKind) -> (r: Self)
        ensures
            compiled_from(*kind, r),
    {
        match kind {
            ScheduleKind::Interval { count, unit } => {
                let seconds: u64 = match unit {
                    IntervalUnit::Seconds => *count as u64,
                    IntervalUnit::Minutes => *count as u64 * 60,
                    IntervalUnit::Hours => *count as u64 * 3600,
                };
                CompiledSchedule::Interval { seconds }
            },
            ScheduleKind::Daily { time } => CompiledSchedule::Daily {
                hour: time.hour,
                minute: time.minute,
            },
            ScheduleKind::Weekdays { days, time } => CompiledSchedule::Weekdays {
                days: copy_days(days),
                hour: time.hour,
                minute: time.minute,
            },
            ScheduleKind::Monthly { ordinals, time } => CompiledSchedule::Monthly {
                ordinals: copy_ordinals(ordinals),
                hour: time.hour,
                minute: time.minute,
            },
            ScheduleKind::Once { at } => CompiledSchedule::Once { at: at.value.clone() },
            ScheduleKind::Disabled => CompiledSchedule::Disabled,
        }
    }

    /// Human-readable summary of this schedule (`every 5 minutes`,
    /// `every monday, friday at 09:00`, `every 1, 15 of month at 10:00`).
    pub fn summary(&self) -> (s: String)
        ensures
            s@ == spec_summary(*self),
    {
        let mut out = String::new();
        match self {
            CompiledSchedule::Interval { seconds } => {
                push_str(&mut out, "every ");
                let phrase = if *seconds >= 3600 && *seconds % 3600 == 0 {
                    interval_phrase(*seconds / 3600, "hour")
                } else if *seconds >= 60 && *seconds % 60 == 0 {
                    interval_phrase(*seconds / 60, "minute")
                } else {
                    interval_phrase(*seconds, "second")
                };
                push_str(&mut out, phrase.as_str());
            },
            CompiledSchedule::Daily { hour, minute } => {
                push_str(&mut out, "every day at ");
                push_hhmm(&mut out, *hour, *minute);
            },
            CompiledSchedule::Weekdays { days, hour, minute } => {
                push_str(&mut out, "every ");
                let ghost names = days@.map_values(|d: Weekday| full_name(d));
                let ghost base = out@;
                let mut i: usize = 0;
                while i < days.len()
                    invariant
                        i <= days@.len(),
                        names == days@.map_values(|d: Weekday| full_name(d)),
                        out@ == base + join_comma(names.take(i as int)),
                    decreases days@.len() - i,
                {
                    if i > 0 {
                        push_char(&mut out, ',');
                        push_char(&mut out, ' ');
                    }
                    push_str(&mut out, days[i].as_str());
                    proof {
                        assert(names.take(i + 1).drop_last() =~= names.take(i as int));
                    }
                    i = i + 1;
                    assert(out@ =~= base + join_comma(names.take(i as int)));
                }
                assert(names.take(days@.len() as int) =~= names);
                push_str(&mut out, " at ");
                push_hhmm(&mut out, *hour, *minute);
            },
            CompiledSchedule::Monthly { ordinals, hour, minute } => {
                push_str(&mut out, "every ");
                let ghost names = ordinals@.map_values(|o: MonthOrdinal| summary_ordinal(o));
                let ghost base = out@;
                let mut i: usize = 0;
                while i < ordinals.len()
                    invariant
                        i <= ordinals@.len(),
                        names == ordinals@.map_values(|o: MonthOrdinal| summary_ordinal(o)),
                        out@ == base + join_comma(names.take(i as int)),
                    decreases ordinals@.len() - i,
                {
                    if i > 0 {
                        push_char(&mut out, ',');
                        push_char(&mut out, ' ');
                    }
                    match ordinals[i] {
                        MonthOrdinal::Day(d) => push_decimal(&mut out, d as u64),
                        MonthOrdinal::Last => push_str(&mut out, "last"),
                    }
                    proof {
                        assert(names.take(i + 1).drop_last() =~= names.take(i as int));
                    }
                    i = i + 1;
                    assert(out@ =~= base + join_comma(names.take(i as int)));
                }
                assert(names.take(ordinals@.len() as int) =~= names);
                push_str(&mut out, " of month at ");
                push_hhmm(&mut out, *hour, *minute);
            },
            CompiledSchedule::Once { at } => {
                push_str(&mut out, "once at ");
                push_str(&mut out, at.as_str());
            },
            CompiledSchedule::Disabled => {
                push_str(&mut out, "disabled");
            },
        }
        out
    }

    /// The canonical DSL schedule line, in the form the parser accepts
    /// (space-separated days and ordinals, unlike the summary), through the
    /// same emitter as the formatter.
    pub fn to_dsl(&self) -> (s: String)
        ensures
            s@ == spec_to_dsl(*self),
    {
        let kind = self.to_schedule_kind();
        let s = format_schedule_line(&kind);
        proof {
            if *self is Once {
                assert(s@ =~= spec_to_dsl(*self));
            }
        }
        s
    }

    /// The schedule line this schedule compiled from, with synthetic spans;
    /// a one-off moment is re-quoted so that offsets survive lexing.
    fn to_schedule_kind(&self) -> (k: ScheduleKind)
        ensures
            kind_of(*self, k),
    {
        match self {
            CompiledSchedule::Interval { seconds } => {
                let (count, unit) = if *seconds >= 3600 && *seconds % 3600 == 0 {
                    ((*seconds / 3600) as u32, IntervalUnit::Hours)
                } else if *seconds >= 60 && *seconds % 60 == 0 {
                    ((*seconds / 60) as u32, IntervalUnit::Minutes)
                } else {
                    (*seconds as u32, IntervalUnit::Seconds)
                };
                ScheduleKind::Interval { count, unit }
            },
            CompiledSchedule::Daily { hour, minute } => ScheduleKind::Daily {
                time: time_value(*hour, *minute),
            },
            CompiledSchedule::Weekdays { days, hour, minute } => ScheduleKind::Weekdays {
                days: copy_days(days),
                time: time_value(*hour, *minute),
            },
            CompiledSchedule::Monthly { ordinals, hour, minute } => ScheduleKind::Monthly {
                ordinals: copy_ordinals(ordinals),
                time: time_value(*hour, *minute),
            },
            CompiledSchedule::Once { at } => ScheduleKind::Once {
                at: StringValue {
                    value: at.clone(),
                    quoted: true,
                    is_placeholder: false,
                    span: Span::empty(0),
                },
            },
            CompiledSchedule::Disabled => ScheduleKind::Disabled,
        }
    }
}

/// Rebuilding the schedule line of a compiled schedule and compiling it
/// again gives the same schedule back, whenever its interval can be written
/// as a 32-bit count of its coarsest unit.
pub proof fn lemma_compile_undoes_rebuild(s: CompiledSchedule, k: ScheduleKind, c: CompiledSchedule)
    requires
        kind_of(s, k),
        compiled_from(k, c),
        dsl_count_fits(s),
    ensures
        same_schedule(c, s),
{
    match s {
        CompiledSchedule::Interval { seconds } => {
            let n = coarsest(seconds).0;
            assert(dsl_count(seconds) == n);
            let count = k->count;
            let unit = k->unit;
            assert(count == n);
            assert(c->seconds == count * unit_seconds(unit));
            if seconds >= 3600 && seconds % 3600 == 0 {
                assert(n * 3600 == seconds) by (nonlinear_arith)
                    requires
                        n == seconds / 3600,
                        seconds % 3600 == 0,
                ;
                assert(unit == IntervalUnit::Hours);
                assert(unit_seconds(unit) == 3600);
                assert(c->seconds == seconds);
            } else if seconds >= 60 && seconds % 60 == 0 {
                assert(n * 60 == seconds) by (nonlinear_arith)
                    requires
                        n == seconds / 60,
                        seconds % 60 == 0,
                ;
                assert(unit == IntervalUnit::Minutes);
                assert(c->seconds == seconds);
            } else {
                assert(unit_seconds(unit) == 1);
                assert(n == seconds);
                assert(count * unit_seconds(unit) == seconds) by (nonlinear_arith)
                    requires
                        unit_seconds(unit) == 1,
                        count == seconds,
                ;
            }
            assert(c->seconds == seconds);
        },
        _ => {},
    }
}

/// The DSL line of a compiled schedule is the canonical line of the
/// schedule it rebuilds to.
pub proof fn lemma_to_dsl_is_schedule_line(s: CompiledSchedule, k: ScheduleKind)
    requires
        kind_of(s, k),
    ensures
        spec_to_dsl(s) == spec_schedule_line(k),
{
    match s {
        CompiledSchedule::Once { at } => {
            assert(spec_to_dsl(s) =~= spec_schedule_line(k));
        },
        _ => {},
    }
}

} // verus!
