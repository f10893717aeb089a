//! The Croniqfile syntax tree.

use vstd::prelude::*;
use crate::lexer::Span;
use crate::text::{chars_is, chars_of, lower, lower_chars, spec_parse_uint, split_on};

verus! {

/// A complete Croniqfile.
#[derive(Debug)]
pub struct Croniqfile {
    pub items: Vec<Item>,
    pub span: Span,
}

/// Top-level item of a Croniqfile.
#[derive(Debug)]
pub enum Item {
    Import(Import),
    Server(ServerBlock),
    Smtp(SmtpBlock),
    PullApi(PullApiBlock),
    Observability(ObservabilityBlock),
    Mcp(McpBlock),
    Oidc(OidcBlock),
    Auth(AuthBlock),
    Policy(PolicyBlock),
    Alerts(AlertsBlock),
    Vars(VarsBlock),
    Defaults(DefaultsBlock),
    Calendar(CalendarBlock),
    ConcurrencyGroup(ConcurrencyGroupBlock),
    Job(JobBlock),
    Comment(CommentNode),
}

/// `# text` on a line of its own.
#[derive(Debug, Clone)]
pub struct CommentNode {
    pub text: String,
    pub span: Span,
}

/// A comment inside a body of directives (or calendar rules): it stands
/// before the entry of index `before`, after all of them when `before` is
/// their number.
#[derive(Debug, Clone)]
pub struct BodyComment {
    pub before: usize,
    pub comment: CommentNode,
}

/// `import <path-or-glob>`
#[derive(Debug, Clone)]
pub struct Import {
    pub path: StringValue,
    pub span: Span,
}

/// `server { … }`
#[derive(Debug, Clone)]
pub struct ServerBlock {
    pub directives: Vec<Directive>,
    pub comments: Vec<BodyComment>,
    pub span: Span,
}

/// `smtp { … }`
#[derive(Debug, Clone)]
pub struct SmtpBlock {
    pub directives: Vec<Directive>,
    pub comments: Vec<BodyComment>,
    pub span: Span,
}

/// `pull_api { … }`
#[derive(Debug, Clone)]
pub struct PullApiBlock {
    pub directives: Vec<Directive>,
    pub comments: Vec<BodyComment>,
    pub span: Span,
}

/// `observability { log { … } metrics { … } }`
#[derive(Debug)]
pub struct ObservabilityBlock {
    pub sub_blocks: Vec<NamedBlock>,
    pub comments: Vec<BodyComment>,
    pub span: Span,
}

/// `mcp { … }`
#[derive(Debug, Clone)]
pub struct McpBlock {
    pub directives: Vec<Directive>,
    pub comments: Vec<BodyComment>,
    pub span: Span,
}

/// `oidc { … }`
#[derive(Debug, Clone)]
pub struct OidcBlock {
    pub directives: Vec<Directive>,
    pub comments: Vec<BodyComment>,
    pub span: Span,
}

/// `auth { password { … } totp { … } }`
#[derive(Debug)]
pub struct AuthBlock {
    pub sub_blocks: Vec<NamedBlock>,
    pub comments: Vec<BodyComment>,
    pub span: Span,
}

/// `policy { … }`
#[derive(Debug, Clone)]
pub struct PolicyBlock {
    pub directives: Vec<Directive>,
    pub comments: Vec<BodyComment>,
    pub span: Span,
}

/// `alerts { channel "name" { … } rule "name" { … } }`; every sub-block
/// carries its name as qualifier.
#[derive(Debug)]
pub struct AlertsBlock {
    pub sub_blocks: Vec<NamedBlock>,
    pub comments: Vec<BodyComment>,
    pub span: Span,
}

/// `vars { name value … }`
#[derive(Debug, Clone)]
pub struct VarsBlock {
    pub entries: Vec<Directive>,
    pub comments: Vec<BodyComment>,
    pub span: Span,
}

/// `defaults { … }`
#[derive(Debug)]
pub struct DefaultsBlock {
    pub directives: Vec<DirectiveOrBlock>,
    pub span: Span,
}

/// `calendar <name> { include … / exclude … / timezone … }`
#[derive(Debug, Clone)]
pub struct CalendarBlock {
    pub name: StringValue,
    pub rules: Vec<CalendarRule>,
    pub comments: Vec<BodyComment>,
    pub span: Span,
}

/// One calendar rule line.
#[derive(Debug, Clone)]
pub struct CalendarRule {
    pub kind: CalendarRuleKind,
    pub rule_type: StringValue,
    pub args: Vec<StringValue>,
    pub span: Span,
}

/// Whether a calendar rule adds or removes days.
#[derive(Debug, Clone, Copy, PartialEq, Eq, Structural)]
pub enum CalendarRuleKind {
    Include,
    Exclude,
}

/// `concurrency_group <name> { max_concurrent N }`
#[derive(Debug, Clone)]
pub struct ConcurrencyGroupBlock {
    pub name: StringValue,
    pub directives: Vec<Directive>,
    pub comments: Vec<BodyComment>,
    pub span: Span,
}

/// `job <key> { … }`
#[derive(Debug)]
pub struct JobBlock {
    pub key: JobKey,
    pub schedule: Option<ScheduleNode>,
    pub directives: Vec<DirectiveOrBlock>,
    pub span: Span,
}

/// `namespace:name` or `namespace:name:variant`.
#[derive(Debug, Clone)]
pub struct JobKey {
    pub raw: String,
    pub namespace: String,
    pub name: String,
    pub variant: Option<String>,
    /// Whether the key was written as a quoted string.
    pub quoted: bool,
    pub span: Span,
}

/// Optional execution-mode prefix on a schedule line (`ephemeral` / `queued`).
#[derive(Debug, Clone, Copy, PartialEq, Eq, Structural)]
pub enum ScheduleMode {
    Queued,
    Ephemeral,
}

/// A schedule line with its options block.
#[derive(Debug, Clone)]
pub struct ScheduleNode {
    pub kind: ScheduleKind,
    pub mode: Option<ScheduleMode>,
    pub options: Vec<Directive>,
    pub option_comments: Vec<BodyComment>,
    pub span: Span,
}

/// The shapes a schedule line can take.
#[derive(Debug, Clone)]
pub enum ScheduleKind {
    /// `every N seconds/minutes/hours`
    Interval { count: u32, unit: IntervalUnit },
    /// `every day at HH:MM`
    Daily { time: TimeValue },
    /// `every monday [tuesday …] at HH:MM`, ranges and `weekday`/`weekend`
    Weekdays { days: Vec<Weekday>, time: TimeValue },
    /// `every 1st [15th …] of month at HH:MM`
    Monthly { ordinals: Vec<MonthOrdinal>, time: TimeValue },
    /// `once at <datetime>`
    Once { at: StringValue },
    /// `disabled`
    Disabled,
}

/// Unit of an interval schedule.
#[derive(Debug, Clone, Copy, PartialEq, Eq, Structural)]
pub enum IntervalUnit {
    Seconds,
    Minutes,
    Hours,
}

/// `HH:MM` with its source text.
#[derive(Debug, Clone)]
pub struct TimeValue {
    pub hour: u8,
    pub minute: u8,
    pub raw: String,
    pub span: Span,
}

/// Day of the week.
#[derive(Debug, Clone, Copy, PartialEq, Eq, Structural)]
pub enum Weekday {
    Monday,
    Tuesday,
    Wednesday,
    Thursday,
    Friday,
    Saturday,
    Sunday,
}

/// Position of a day in the week, Monday first.
pub open spec fn weekday_index(d: Weekday) -> nat {
    match d {
        Weekday::Monday => 0,
        Weekday::Tuesday => 1,
        Weekday::Wednesday => 2,
        Weekday::Thursday => 3,
        Weekday::Friday => 4,
        Weekday::Saturday => 5,
        Weekday::Sunday => 6,
    }
}

/// The day at a position of the week, Monday first.
pub open spec fn weekday_at(i: nat) -> Weekday {
    if i == 0 {
        Weekday::Monday
    } else if i == 1 {
        Weekday::Tuesday
    } else if i == 2 {
        Weekday::Wednesday
    } else if i == 3 {
        Weekday::Thursday
    } else if i == 4 {
        Weekday::Friday
    } else if i == 5 {
        Weekday::Saturday
    } else {
        Weekday::Sunday
    }
}

/// Lower-case full name of a day.
pub open spec fn full_name(d: Weekday) -> Seq<char> {
    match d {
        Weekday::Monday => "monday"@,
        Weekday::Tuesday => "tuesday"@,
        Weekday::Wednesday => "wednesday"@,
        Weekday::Thursday => "thursday"@,
        Weekday::Friday => "friday"@,
        Weekday::Saturday => "saturday"@,
        Weekday::Sunday => "sunday"@,
    }
}

/// Lower-case three-letter name of a day.
pub open spec fn short_name(d: Weekday) -> Seq<char> {
    match d {
        Weekday::Monday => "mon"@,
        Weekday::Tuesday => "tue"@,
        Weekday::Wednesday => "wed"@,
        Weekday::Thursday => "thu"@,
        Weekday::Friday => "fri"@,
        Weekday::Saturday => "sat"@,
        Weekday::Sunday => "sun"@,
    }
}

/// `s` names `d`: full or three-letter name, ASCII case-insensitive.
pub open spec fn names_day(s: Seq<char>, d: Weekday) -> bool {
    lower(s) == full_name(d) || lower(s) == short_name(d)
}

/// The day that `s` names, if any.
pub open spec fn spec_parse_weekday(s: Seq<char>) -> Option<Weekday> {
    if names_day(s, Weekday::Monday) {
        Some(Weekday::Monday)
    } else if names_day(s, Weekday::Tuesday) {
        Some(Weekday::Tuesday)
    } else if names_day(s, Weekday::Wednesday) {
        Some(Weekday::Wednesday)
    } else if names_day(s, Weekday::Thursday) {
        Some(Weekday::Thursday)
    } else if names_day(s, Weekday::Friday) {
        Some(Weekday::Friday)
    } else if names_day(s, Weekday::Saturday) {
        Some(Weekday::Saturday)
    } else if names_day(s, Weekday::Sunday) {
        Some(Weekday::Sunday)
    } else {
        None
    }
}

/// Monday to Friday.
pub open spec fn workdays() -> Seq<Weekday> {
    seq![Weekday::Monday, Weekday::Tuesday, Weekday::Wednesday, Weekday::Thursday, Weekday::Friday]
}

/// Saturday and Sunday.
pub open spec fn weekend_days() -> Seq<Weekday> {
    seq![Weekday::Saturday, Weekday::Sunday]
}

/// The days a `weekday` / `weekend` alias stands for.
pub open spec fn spec_parse_group(s: Seq<char>) -> Option<Seq<Weekday>> {
    if lower(s) == "weekday"@ {
        Some(workdays())
    } else if lower(s) == "weekend"@ {
        Some(weekend_days())
    } else {
        None
    }
}

/// The days a schedule / calendar token stands for: an alias or one day.
pub open spec fn spec_parse_token(s: Seq<char>) -> Option<Seq<Weekday>> {
    match spec_parse_group(s) {
        Some(g) => Some(g),
        None => match spec_parse_weekday(s) {
            Some(d) => Some(seq![d]),
            None => None,
        },
    }
}

impl Weekday {
    /// Parses a day name: the full name or the three-letter form, ASCII
    /// case-insensitive (`monday`, `Mon`, `TUE`).
    pub fn parse(s: &str) -> (r: Option<Weekday>)
        ensures
            r == spec_parse_weekday(s@),
    {
        let l = lower_chars(chars_of(s).as_slice());
        let l = l.as_slice();
        if chars_is(l, "monday") || chars_is(l, "mon") {
            Some(Weekday::Monday)
        } else if chars_is(l, "tuesday") || chars_is(l, "tue") {
            Some(Weekday::Tuesday)
        } else if chars_is(l, "wednesday") || chars_is(l, "wed") {
            Some(Weekday::Wednesday)
        } else if chars_is(l, "thursday") || chars_is(l, "thu") {
            Some(Weekday::Thursday)
        } else if chars_is(l, "friday") || chars_is(l, "fri") {
            Some(Weekday::Friday)
        } else if chars_is(l, "saturday") || chars_is(l, "sat") {
            Some(Weekday::Saturday)
        } else if chars_is(l, "sunday") || chars_is(l, "sun") {
            Some(Weekday::Sunday)
        } else {
            None
        }
    }

    /// Lower-case full name (`monday`).
    pub fn as_str(self) -> (r: &'static str)
        ensures
            r@ == full_name(self),
    {
        match self {
            Weekday::Monday => "monday",
            Weekday::Tuesday => "tuesday",
            Weekday::Wednesday => "wednesday",
            Weekday::Thursday => "thursday",
            Weekday::Friday => "friday",
            Weekday::Saturday => "saturday",
            Weekday::Sunday => "sunday",
        }
    }

    /// Expands the `weekday` (Monday–Friday) and `weekend` (Saturday, Sunday)
    /// aliases, ASCII case-insensitive.
    pub fn parse_group(s: &str) -> (r: Option<Vec<Weekday>>)
        ensures
            match r {
                Some(v) => spec_parse_group(s@) == Some(v@),
                None => spec_parse_group(s@) is None,
            },
    {
        let l = lower_chars(chars_of(s).as_slice());
        if chars_is(l.as_slice(), "weekday") {
            let v = vec![Weekday::Monday, Weekday::Tuesday, Weekday::Wednesday, Weekday::Thursday, Weekday::Friday];
            assert(v@ == workdays());
            Some(v)
        } else if chars_is(l.as_slice(), "weekend") {
            let v = vec![Weekday::Saturday, Weekday::Sunday];
            assert(v@ == weekend_days());
            Some(v)
        } else {
            None
        }
    }

    /// The days a token stands for: an alias, or a single day name.
    pub fn parse_token(s: &str) -> (r: Option<Vec<Weekday>>)
        ensures
            match r {
                Some(v) => spec_parse_token(s@) == Some(v@),
                None => spec_parse_token(s@) is None,
            },
    {
        match Weekday::parse_group(s) {
            Some(g) => Some(g),
            None => match Weekday::parse(s) {
                Some(d) => {
                    let v = vec![d];
                    assert(v@ == seq![d]);
                    Some(v)
                },
                None => None,
            },
        }
    }

    /// Position in the week, Monday first.
    pub fn index(self) -> (i: usize)
        ensures
            i == weekday_index(self),
    {
        match self {
            Weekday::Monday => 0,
            Weekday::Tuesday => 1,
            Weekday::Wednesday => 2,
            Weekday::Thursday => 3,
            Weekday::Friday => 4,
            Weekday::Saturday => 5,
            Weekday::Sunday => 6,
        }
    }

    /// The day at a position in the week, Monday first.
    pub fn from_index(i: usize) -> (d: Weekday)
        requires
            i < 7,
        ensures
            d == weekday_at(i as nat),
            weekday_index(d) == i,
    {
        if i == 0 {
            Weekday::Monday
        } else if i == 1 {
            Weekday::Tuesday
        } else if i == 2 {
            Weekday::Wednesday
        } else if i == 3 {
            Weekday::Thursday
        } else if i == 4 {
            Weekday::Friday
        } else if i == 5 {
            Weekday::Saturday
        } else {
            Weekday::Sunday
        }
    }
}

/// Day of a monthly schedule.
#[derive(Debug, Clone, Copy, PartialEq, Eq, Structural)]
pub enum MonthOrdinal {
    /// 1st … 31st
    Day(u8),
    /// Last day of the month
    Last,
}

/// An unquoted identifier, a quoted string, or a placeholder.
#[derive(Debug, Clone)]
pub struct StringValue {
    pub value: String,
    pub quoted: bool,
    pub is_placeholder: bool,
    pub span: Span,
}

/// `key value1 value2 …`
#[derive(Debug, Clone)]
pub struct Directive {
    pub key: StringValue,
    pub args: Vec<StringValue>,
    pub span: Span,
}

/// A directive, a named sub-block, or a comment inside a block.
#[derive(Debug)]
pub enum DirectiveOrBlock {
    Directive(Directive),
    Block(NamedBlock),
    Comment(CommentNode),
}

/// `name [qualifier] { … }`
#[derive(Debug)]
pub struct NamedBlock {
    pub name: StringValue,
    pub qualifier: Option<StringValue>,
    pub directives: Vec<DirectiveOrBlock>,
    pub span: Span,
}


/// The empty text names no day and no alias.
pub proof fn lemma_parse_token_empty()
    ensures
        spec_parse_token(Seq::<char>::empty()) is None,
{
    reveal_strlit("weekday");
    reveal_strlit("weekend");
    reveal_strlit("monday");
    reveal_strlit("tuesday");
    reveal_strlit("wednesday");
    reveal_strlit("thursday");
    reveal_strlit("friday");
    reveal_strlit("saturday");
    reveal_strlit("sunday");
    reveal_strlit("mon");
    reveal_strlit("tue");
    reveal_strlit("wed");
    reveal_strlit("thu");
    reveal_strlit("fri");
    reveal_strlit("sat");
    reveal_strlit("sun");
    assert(lower(Seq::<char>::empty()) =~= Seq::<char>::empty());
}

/// `HH:MM` within a day.
pub open spec fn time_ok(t: TimeValue) -> bool {
    t.hour <= 23 && t.minute <= 59
}

/// A monthly ordinal names a day 1–31 or the last day.
pub open spec fn ordinal_ok(o: MonthOrdinal) -> bool {
    match o {
        MonthOrdinal::Day(d) => 1 <= d && d <= 31,
        MonthOrdinal::Last => true,
    }
}

/// What a parsed schedule guarantees: valid times, at least one day for
/// weekday schedules, at least one valid ordinal for monthly ones.
pub open spec fn schedule_kind_ok(k: ScheduleKind) -> bool {
    match k {
        ScheduleKind::Daily { time } => time_ok(time),
        ScheduleKind::Weekdays { days, time } => days@.len() > 0 && time_ok(time),
        ScheduleKind::Monthly { ordinals, time } => ordinals@.len() > 0 && time_ok(time)
            && forall|i: int| 0 <= i < ordinals@.len() ==> ordinal_ok(#[trigger] ordinals@[i]),
        _ => true,
    }
}

/// The key's parts are what `raw` splits into at `:`, two or three of them.
pub open spec fn job_key_ok(k: JobKey) -> bool {
    match k.variant {
        None => split_on(k.raw@, ':') == seq![k.namespace@, k.name@],
        Some(v) => split_on(k.raw@, ':') == seq![k.namespace@, k.name@, v@],
    }
}

/// A parsed job: a well-formed key and schedule.
pub open spec fn job_ok(j: JobBlock) -> bool {
    &&& job_key_ok(j.key)
    &&& (j.schedule matches Some(s) ==> schedule_kind_ok(s.kind))
}

/// What the parser guarantees of each top-level item.
pub open spec fn item_ok(it: Item) -> bool {
    match it {
        Item::Job(j) => job_ok(j),
        Item::Alerts(a) => forall|i: int| 0 <= i < a.sub_blocks@.len() ==> (#[trigger] a.sub_blocks@[i]).qualifier is Some,
        _ => true,
    }
}

/// What the parser guarantees of a whole file.
pub open spec fn croniqfile_ok(f: Croniqfile) -> bool {
    forall|i: int| 0 <= i < f.items@.len() ==> item_ok(#[trigger] f.items@[i])
}

/// `HH:MM` as `parse_time` reads it: exactly one `:`, both sides unsigned
/// decimals, hour at most 23 and minute at most 59.
pub open spec fn spec_time(t: Seq<char>) -> Option<(u8, u8)> {
    let p = split_on(t, ':');
    if p.len() != 2 {
        None
    } else {
        match (spec_parse_uint(p[0]), spec_parse_uint(p[1])) {
            (Some(h), Some(m)) => if h <= 23 && m <= 59 {
                Some((h as u8, m as u8))
            } else {
                None
            },
            _ => None,
        }
    }
}

/// A monthly ordinal token: `last`, or a number 1–31 with a
/// `st`/`nd`/`rd`/`th` suffix (the suffix is not checked against the number).
pub open spec fn spec_ordinal(t: Seq<char>) -> Option<MonthOrdinal> {
    if t == "last"@ {
        Some(MonthOrdinal::Last)
    } else if t.len() >= 2 && (t.skip(t.len() - 2) == "st"@ || t.skip(t.len() - 2) == "nd"@
        || t.skip(t.len() - 2) == "rd"@ || t.skip(t.len() - 2) == "th"@) {
        match spec_parse_uint(t.take(t.len() - 2)) {
            Some(n) => if 1 <= n && n <= 31 {
                Some(MonthOrdinal::Day(n as u8))
            } else {
                None
            },
            None => None,
        }
    } else {
        None
    }
}

/// The compact interval form `15m`, `30s`, `2h`.
pub open spec fn spec_compact_interval(t: Seq<char>) -> Option<(u32, IntervalUnit)> {
    if t.len() == 0 {
        None
    } else {
        let unit = if t.last() == 's' {
            Some(IntervalUnit::Seconds)
        } else if t.last() == 'm' {
            Some(IntervalUnit::Minutes)
        } else if t.last() == 'h' {
            Some(IntervalUnit::Hours)
        } else {
            None
        };
        match unit {
            None => None,
            Some(u) => {
                let body = t.drop_last();
                if body.len() == 0 {
                    None
                } else {
                    match spec_parse_uint(body) {
                        Some(v) => if v <= u32::MAX {
                            Some((v as u32, u))
                        } else {
                            None
                        },
                        None => None,
                    }
                }
            },
        }
    }
}

/// The days of `start..end`, walking forward through the week from
/// `start` and wrapping after Sunday.
pub open spec fn spec_weekday_range(start: Weekday, end: Weekday) -> Seq<Weekday> {
    let n = ((weekday_index(end) - weekday_index(start) + 7) % 7) + 1;
    Seq::new(n as nat, |k: int| weekday_at(((weekday_index(start) + k) % 7) as nat))
}

} // verus!
