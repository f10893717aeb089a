//! Cron expression → Croniq schedule converter.
//!
//! Translates standard five-field cron expressions (`minute hour dom month
//! dow`) and the `@daily`-style macros into Croniq's schedule syntax:
//! `*/5 * * * *` → `every 5 minutes`, `0 9 * * 1-5` → `every weekday at
//! 09:00`, `0 3 1,15 * *` → `every 1st 15th of month at 03:00`. An
//! expression that sets both day-of-month and day-of-week is converted from
//! its day-of-week field, with a warning: Croniq cannot express "either".

use vstd::prelude::*;
use crate::format::join_space;
use crate::text::{
    chars_is, chars_of, decimal, lower, lower_chars, pad2, parse_u32, push_chars,
    push_decimal, push_pad2, push_str, slice_chars, spec_parse_uint, split_chars, split_on,
    string_of,
};

verus! {

/// Conversion result: the Croniq schedule string plus optional warnings.
#[derive(Debug, Clone, PartialEq, Eq)]
pub struct ConversionResult {
    /// The Croniq schedule expression (e.g. `every 5 minutes`).
    pub schedule: String,
    /// Human-readable warnings about patterns that couldn't be fully expressed.
    pub warnings: Vec<String>,
}

/// Unicode white space, as `char::is_whitespace` defines it.
pub open spec fn is_space(c: char) -> bool {
    ('\u{9}' <= c && c <= '\u{d}') || c == ' ' || c == '\u{85}' || c == '\u{a0}' || c
        == '\u{1680}' || ('\u{2000}' <= c && c <= '\u{200a}') || c == '\u{2028}' || c
        == '\u{2029}' || c == '\u{202f}' || c == '\u{205f}' || c == '\u{3000}'
}

fn is_space_exec(c: char) -> (r: bool)
    ensures
        r == is_space(c),
{
    ('\u{9}' <= c && c <= '\u{d}') || c == ' ' || c == '\u{85}' || c == '\u{a0}' || c
        == '\u{1680}' || ('\u{2000}' <= c && c <= '\u{200a}') || c == '\u{2028}' || c
        == '\u{2029}' || c == '\u{202f}' || c == '\u{205f}' || c == '\u{3000}'
}

/// `s` without its leading white space.
pub open spec fn trim_start(s: Seq<char>) -> Seq<char>
    decreases s.len(),
{
    if s.len() > 0 && is_space(s[0]) {
        trim_start(s.drop_first())
    } else {
        s
    }
}

/// `s` without its trailing white space.
pub open spec fn trim_end(s: Seq<char>) -> Seq<char>
    decreases s.len(),
{
    if s.len() > 0 && is_space(s.last()) {
        trim_end(s.drop_last())
    } else {
        s
    }
}

/// `s` without white space at either end (`str::trim`).
pub open spec fn trim(s: Seq<char>) -> Seq<char> {
    trim_end(trim_start(s))
}

/// `trim_start` leaves nothing or a first character that is not white space.
proof fn lemma_trim_start_head(s: Seq<char>)
    ensures
        trim_start(s).len() == 0 || !is_space(trim_start(s)[0]),
    decreases s.len(),
{
    if s.len() > 0 && is_space(s[0]) {
        lemma_trim_start_head(s.drop_first());
    }
}

/// `trim_end` keeps a prefix, which ends in a character that is not white
/// space.
proof fn lemma_trim_end_prefix(s: Seq<char>)
    ensures
        trim_end(s).len() <= s.len(),
        trim_end(s) =~= s.take(trim_end(s).len() as int),
        trim_end(s).len() == 0 || !is_space(trim_end(s).last()),
    decreases s.len(),
{
    if s.len() > 0 && is_space(s.last()) {
        lemma_trim_end_prefix(s.drop_last());
        assert(s.drop_last().take(trim_end(s).len() as int) =~= s.take(trim_end(s).len() as int));
    } else {
        assert(s.take(s.len() as int) =~= s);
    }
}

/// Trimming twice is trimming once.
pub proof fn lemma_trim_idempotent(s: Seq<char>)
    ensures
        trim(trim(s)) == trim(s),
{
    let t = trim_start(s);
    lemma_trim_start_head(s);
    let u = trim_end(t);
    lemma_trim_end_prefix(t);
    if u.len() > 0 {
        assert(u[0] == t[0]);
        assert(trim_start(u) == u);
        assert(trim_end(u) == u);
    }
}

/// The white-space separated words of `s` (`str::split_whitespace`).
pub open spec fn words(s: Seq<char>) -> Seq<Seq<char>>
    decreases s.len(),
{
    if s.len() == 0 {
        Seq::empty()
    } else if is_space(s.last()) {
        words(s.drop_last())
    } else if s.len() >= 2 && !is_space(s[s.len() - 2]) {
        let w = words(s.drop_last());
        w.update(w.len() - 1, w.last().push(s.last()))
    } else {
        words(s.drop_last()).push(seq![s.last()])
    }
}

/// The views of a list of strings.
pub open spec fn string_views(v: Seq<String>) -> Seq<Seq<char>> {
    v.map_values(|s: String| s@)
}

/// A `u32` in decimal, as `str::parse::<u32>` reads it.
pub open spec fn spec_parse_u32(s: Seq<char>) -> Option<u32> {
    match spec_parse_uint(s) {
        Some(v) => if v <= u32::MAX {
            Some(v as u32)
        } else {
            None
        },
        None => None,
    }
}

/// A field of the form `*/N`.
pub open spec fn spec_is_step(s: Seq<char>) -> bool {
    s.len() >= 2 && s[0] == '*' && s[1] == '/'
}

/// `s` with every leading `*/` removed.
pub open spec fn strip_steps(s: Seq<char>) -> Seq<char>
    decreases s.len(),
{
    if spec_is_step(s) {
        strip_steps(s.skip(2))
    } else {
        s
    }
}

/// The `N` of a step field.
pub open spec fn spec_parse_step(s: Seq<char>) -> Result<u32, Seq<char>> {
    match spec_parse_u32(strip_steps(s)) {
        Some(n) => Ok(n),
        None => Err("invalid step value in '"@ + s + "'"@),
    }
}

/// The day that a lower-cased day-of-week value names: `0`–`7` (Sunday
/// both `0` and `7`), or a three-letter or full English name.
pub open spec fn spec_dow_name(l: Seq<char>) -> Result<Seq<char>, Seq<char>> {
    if l == "0"@ || l == "7"@ || l == "sun"@ || l == "sunday"@ {
        Ok("sunday"@)
    } else if l == "1"@ || l == "mon"@ || l == "monday"@ {
        Ok("monday"@)
    } else if l == "2"@ || l == "tue"@ || l == "tuesday"@ {
        Ok("tuesday"@)
    } else if l == "3"@ || l == "wed"@ || l == "wednesday"@ {
        Ok("wednesday"@)
    } else if l == "4"@ || l == "thu"@ || l == "thursday"@ {
        Ok("thursday"@)
    } else if l == "5"@ || l == "fri"@ || l == "friday"@ {
        Ok("friday"@)
    } else if l == "6"@ || l == "sat"@ || l == "saturday"@ {
        Ok("saturday"@)
    } else {
        Err("unknown day-of-week value '"@ + l + "'"@)
    }
}

/// Unicode lower-casing (`str::to_lowercase`).
pub uninterp spec fn unicode_lowercase(s: Seq<char>) -> Seq<char>;

/// `str::to_lowercase`: the string lower-cased by the Unicode `Lowercase`
/// mapping. Stated as the named result `unicode_lowercase` of its argument;
/// the mapping itself is not written out, except that ASCII text lowers to
/// its ASCII lower case (the Unicode mapping of an ASCII letter).
#[verifier::external_body]
pub(crate) fn to_lowercase(s: &str) -> (r: String)
    ensures
        r@ == unicode_lowercase(s@),
        (forall|i: int| 0 <= i < s@.len() ==> (#[trigger] s@[i]) as u32 <= 0x7f) ==> r@ == crate::text::lower(s@),
{
    s.to_lowercase()
}

/// The day names of the first `n` items of a comma list; the first item
/// that names no day gives the error.
pub open spec fn dow_names(items: Seq<Seq<char>>, n: int) -> Result<Seq<Seq<char>>, Seq<char>>
    decreases n,
{
    if n <= 0 {
        Ok(Seq::empty())
    } else {
        match dow_names(items, n - 1) {
            Err(m) => Err(m),
            Ok(v) => match spec_dow_name(unicode_lowercase(items[n - 1])) {
                Ok(d) => Ok(v.push(d)),
                Err(m) => Err(m),
            },
        }
    }
}

/// The days of a day-of-week field: the ranges `1-5` (`weekday`) and
/// `0-6` / `6-0` (all seven days, Sunday first), the weekend pairs, or a
/// comma list of single values.
pub open spec fn spec_parse_dow(s: Seq<char>) -> Result<Seq<Seq<char>>, Seq<char>> {
    if s == "1-5"@ {
        Ok(seq!["weekday"@])
    } else if s == "0-6"@ || s == "6-0"@ {
        Ok(
            seq![
                "sunday"@,
                "monday"@,
                "tuesday"@,
                "wednesday"@,
                "thursday"@,
                "friday"@,
                "saturday"@,
            ],
        )
    } else if s == "6,0"@ || s == "0,6"@ || s == "6-7"@ || s == "0,7"@ {
        Ok(seq!["weekend"@])
    } else {
        dow_names(split_on(s, ','), split_on(s, ',').len() as int)
    }
}

/// A weekday schedule line: the aliases for a lone `weekday` / `weekend`,
/// `every day` for all seven days, otherwise the days in order.
pub open spec fn spec_weekday_schedule(days: Seq<Seq<char>>, time: Seq<char>) -> Seq<char> {
    if days.len() == 1 && days[0] == "weekday"@ {
        "every weekday at "@ + time
    } else if days.len() == 1 && days[0] == "weekend"@ {
        "every weekend at "@ + time
    } else if days.len() == 7 {
        "every day at "@ + time
    } else if days.len() == 1 {
        "every "@ + days[0] + " at "@ + time
    } else {
        "every "@ + join_space(days) + " at "@ + time
    }
}

/// English ordinal suffix of `n` (`st`, `nd`, `rd`, `th`; `11th`–`13th`).
pub open spec fn spec_ordinal_suffix(n: u32) -> Seq<char> {
    if 11 <= n % 100 <= 13 {
        "th"@
    } else if n % 10 == 1 {
        "st"@
    } else if n % 10 == 2 {
        "nd"@
    } else if n % 10 == 3 {
        "rd"@
    } else {
        "th"@
    }
}

/// The ordinals of the first `n` items of a day-of-month list; the first
/// item that is not a day between 1 and 31 gives the error.
pub open spec fn dom_ordinals(items: Seq<Seq<char>>, n: int) -> Result<Seq<Seq<char>>, Seq<char>>
    decreases n,
{
    if n <= 0 {
        Ok(Seq::empty())
    } else {
        match dom_ordinals(items, n - 1) {
            Err(m) => Err(m),
            Ok(v) => match spec_parse_u32(items[n - 1]) {
                None => Err("invalid day-of-month value '"@ + items[n - 1] + "'"@),
                Some(d) => if d == 0 || d > 31 {
                    Err("day-of-month "@ + decimal(d as nat) + " out of range (1–31)"@)
                } else {
                    Ok(v.push(decimal(d as nat) + spec_ordinal_suffix(d)))
                },
            },
        }
    }
}

/// The ordinals of a day-of-month field: `L` (any case) for the last day,
/// otherwise a comma list of days.
pub open spec fn spec_parse_dom(s: Seq<char>) -> Result<Seq<Seq<char>>, Seq<char>> {
    if lower(s) == "l"@ {
        Ok(seq!["last"@])
    } else {
        dom_ordinals(split_on(s, ','), split_on(s, ',').len() as int)
    }
}

/// The warning that comes with `@yearly` / `@annually`.
pub open spec fn yearly_warning() -> Seq<char> {
    "@yearly/@annually maps to 'every 1st of month' — Croniq does not have a yearly-only construct; add a `calendar` block to restrict to January if needed."@
}

/// The warning that comes with a day-of-month and a day-of-week together.
pub open spec fn either_day_warning() -> Seq<char> {
    "Cron fires when EITHER dom OR dow matches; Croniq cannot express this directly. The converted schedule uses only the day-of-week field."@
}

/// The error for a well-formed expression that no supported pattern fits.
pub open spec fn unsupported_error(e: Seq<char>) -> Seq<char> {
    "Could not convert '"@ + e
        + "' to a Croniq schedule. Supported patterns: */N (step intervals), fixed time-of-day with weekday or dom constraints. Complex expressions with ranges or lists in the time fields are not supported."@
}

/// The error for a fixed hour or minute outside a day: a schedule line
/// only takes `00:00` to `23:59`.
pub open spec fn time_range_error(field: Seq<char>, value: Seq<char>) -> Seq<char> {
    if field == "hour"@ {
        "hour '"@ + value + "' is out of range (0-23)"@
    } else {
        "minute '"@ + value + "' is out of range (0-59)"@
    }
}

/// A schedule with no warning.
pub open spec fn plain(s: Seq<char>) -> Result<(Seq<char>, Seq<Seq<char>>), Seq<char>> {
    Ok((s, Seq::empty()))
}

/// The conversion of the five fields of the trimmed expression `e`.
pub open spec fn spec_convert_fields(e: Seq<char>, f: Seq<Seq<char>>) -> Result<
    (Seq<char>, Seq<Seq<char>>),
    Seq<char>,
> {
    let minute = f[0];
    let hour = f[1];
    let dom = f[2];
    let dow = f[4];
    if spec_is_step(minute) && hour == "*"@ && dom == "*"@ && dow == "*"@ {
        match spec_parse_step(minute) {
            Ok(n) => plain("every "@ + decimal(n as nat) + " minutes"@),
            Err(m) => Err(m),
        }
    } else if minute == "*"@ && hour == "*"@ && dom == "*"@ && dow == "*"@ {
        plain("every 1 minutes"@)
    } else if minute == "0"@ && spec_is_step(hour) && dom == "*"@ && dow == "*"@ {
        match spec_parse_step(hour) {
            Ok(n) => plain("every "@ + decimal(n as nat) + " hours"@),
            Err(m) => Err(m),
        }
    } else if minute == "0"@ && hour == "*"@ && dom == "*"@ && dow == "*"@ {
        plain("every 1 hours"@)
    } else if spec_parse_u32(minute) is Some && spec_parse_u32(hour) is Some && spec_parse_u32(hour)->0 > 23 {
        Err(time_range_error("hour"@, hour))
    } else if spec_parse_u32(minute) is Some && spec_parse_u32(hour) is Some && spec_parse_u32(minute)->0 > 59 {
        Err(time_range_error("minute"@, minute))
    } else if spec_parse_u32(minute) is Some && spec_parse_u32(hour) is Some {
        let time = pad2(spec_parse_u32(hour)->0 as nat) + seq![':'] + pad2(
            spec_parse_u32(minute)->0 as nat,
        );
        if dom == "*"@ && dow == "*"@ {
            plain("every day at "@ + time)
        } else if dom == "*"@ {
            match spec_parse_dow(dow) {
                Ok(days) => plain(spec_weekday_schedule(days, time)),
                Err(m) => Err(m),
            }
        } else if dow == "*"@ {
            match spec_parse_dom(dom) {
                Ok(o) => plain("every "@ + join_space(o) + " of month at "@ + time),
                Err(m) => Err(m),
            }
        } else {
            match spec_parse_dow(dow) {
                Ok(days) => Ok((spec_weekday_schedule(days, time), seq![either_day_warning()])),
                Err(m) => Err(m),
            }
        }
    } else {
        Err(unsupported_error(e))
    }
}

/// The conversion of a cron expression: the schedule with its warnings, or
/// the error.
pub open spec fn spec_convert(expr: Seq<char>) -> Result<(Seq<char>, Seq<Seq<char>>), Seq<char>> {
    let e = trim(expr);
    if e == "@yearly"@ || e == "@annually"@ {
        Ok(("every 1st of month at 00:00"@, seq![yearly_warning()]))
    } else if e == "@monthly"@ {
        plain("every 1st of month at 00:00"@)
    } else if e == "@weekly"@ {
        plain("every monday at 00:00"@)
    } else if e == "@daily"@ || e == "@midnight"@ {
        plain("every day at 00:00"@)
    } else if e == "@hourly"@ {
        plain("every 1 hours"@)
    } else if words(e).len() != 5 {
        Err("expected 5 fields (minute hour dom month dow), got "@ + decimal(words(e).len()))
    } else {
        spec_convert_fields(e, words(e))
    }
}

/// `r` is the executable form of the specified outcome `s`.
pub open spec fn conversion_is(
    r: Result<ConversionResult, String>,
    s: Result<(Seq<char>, Seq<Seq<char>>), Seq<char>>,
) -> bool {
    match (r, s) {
        (Ok(c), Ok((sched, warnings))) => c.schedule@ == sched && string_views(c.warnings@)
            == warnings,
        (Err(e), Err(m)) => e@ == m,
        _ => false,
    }
}

/// `r` holds the specified strings or error.
pub open spec fn strings_are(r: Result<Vec<String>, String>, s: Result<Seq<Seq<char>>, Seq<char>>) -> bool {
    match (r, s) {
        (Ok(v), Ok(w)) => string_views(v@) == w,
        (Err(e), Err(m)) => e@ == m,
        _ => false,
    }
}

/// A `String` holding a literal.
fn owned(s: &str) -> (r: String)
    ensures
        r@ == s@,
{
    s.to_owned()
}

/// `s` without white space at either end.
pub fn trim_chars(s: &[char]) -> (r: Vec<char>)
    ensures
        r@ == trim(s@),
{
    let n = s.len();
    let mut a: usize = 0;
    assert(s@.skip(0) =~= s@);
    while a < n && is_space_exec(s[a])
        invariant
            a <= n,
            n == s@.len(),
            trim_start(s@) == trim_start(s@.skip(a as int)),
        decreases n - a,
    {
        assert(s@.skip(a as int).drop_first() =~= s@.skip(a + 1));
        a = a + 1;
    }
    assert(trim_start(s@) == s@.skip(a as int)) by {
        if a == n {
            assert(s@.skip(a as int) =~= Seq::<char>::empty());
        }
    }
    let mut b: usize = n;
    assert(s@.skip(a as int) =~= s@.subrange(a as int, n as int));
    while b > a && is_space_exec(s[b - 1])
        invariant
            a <= b <= n,
            n == s@.len(),
            trim(s@) == trim_end(s@.subrange(a as int, b as int)),
        decreases b,
    {
        assert(s@.subrange(a as int, b as int).drop_last() =~= s@.subrange(a as int, b - 1));
        b = b - 1;
    }
    slice_chars(s, a, b)
}

/// The white-space separated words of `s`.
fn split_words(s: &[char]) -> (r: Vec<Vec<char>>)
    ensures
        r@.map_values(|v: Vec<char>| v@) == words(s@),
{
    let mut parts: Vec<Vec<char>> = Vec::new();
    let mut cur: Vec<char> = Vec::new();
    let mut in_word = false;
    let mut i: usize = 0;
    assert(s@.take(0) =~= Seq::<char>::empty());
    while i < s.len()
        invariant
            i <= s@.len(),
            in_word == (i > 0 && !is_space(s@[i - 1])),
            in_word ==> parts@.map_values(|v: Vec<char>| v@).push(cur@) == words(s@.take(i as int)),
            !in_word ==> parts@.map_values(|v: Vec<char>| v@) == words(s@.take(i as int)),
        decreases s@.len() - i,
    {
        let c = s[i];
        let ghost pre = s@.take(i as int);
        let ghost now = s@.take(i + 1);
        assert(now.drop_last() =~= pre);
        assert(now.last() == c);
        if is_space_exec(c) {
            if in_word {
                parts.push(cur);
                cur = Vec::new();
                in_word = false;
                assert(parts@.map_values(|v: Vec<char>| v@) =~= words(pre));
            }
        } else {
            if in_word {
                assert(now[now.len() - 2] == s@[i - 1]);
                cur.push(c);
                assert(parts@.map_values(|v: Vec<char>| v@).push(cur@) =~= words(now));
            } else {
                cur = Vec::new();
                cur.push(c);
                assert(parts@.map_values(|v: Vec<char>| v@).push(cur@) =~= words(now));
                in_word = true;
            }
        }
        i = i + 1;
    }
    assert(s@.take(s@.len() as int) =~= s@);
    if in_word {
        parts.push(cur);
        assert(parts@.map_values(|v: Vec<char>| v@) =~= words(s@));
    }
    parts
}

/// The field is `*`.
fn is_star(s: &[char]) -> (r: bool)
    ensures
        r == (s@ == "*"@),
{
    chars_is(s, "*")
}

/// The field is `0`.
fn is_zero(s: &[char]) -> (r: bool)
    ensures
        r == (s@ == "0"@),
{
    chars_is(s, "0")
}

/// The field starts with `*/`.
fn is_step(s: &[char]) -> (r: bool)
    ensures
        r == spec_is_step(s@),
{
    s.len() >= 2 && s[0] == '*' && s[1] == '/'
}

/// The `N` of a `*/N` field.
fn parse_step(s: &[char]) -> (r: Result<u32, String>)
    ensures
        match (r, spec_parse_step(s@)) {
            (Ok(n), Ok(m)) => n == m,
            (Err(e), Err(m)) => e@ == m,
            _ => false,
        },
{
    let mut a: usize = 0;
    assert(s@.skip(0) =~= s@);
    while s.len() - a >= 2 && s[a] == '*' && s[a + 1] == '/'
        invariant
            a <= s@.len(),
            strip_steps(s@) == strip_steps(s@.skip(a as int)),
        decreases s@.len() - a,
    {
        assert(s@.skip(a as int).skip(2) =~= s@.skip(a + 2));
        a = a + 2;
    }
    assert(strip_steps(s@.skip(a as int)) == s@.skip(a as int));
    let rest = slice_chars(s, a, s.len());
    assert(rest@ =~= s@.skip(a as int));
    match parse_u32(rest.as_slice()) {
        Some(n) => Ok(n),
        None => {
            let mut m = owned("invalid step value in '");
            push_chars(&mut m, s);
            push_str(&mut m, "'");
            Err(m)
        },
    }
}

/// A fixed value: the field read as a `u32`.
fn parse_fixed(s: &[char]) -> (r: Option<u32>)
    ensures
        r == spec_parse_u32(s@),
{
    parse_u32(s)
}

/// The day that a lower-cased day-of-week value names, or the error that
/// quotes it.
pub fn dow_name_of_lowercase(l: &str) -> (r: Result<String, String>)
    ensures
        match (r, spec_dow_name(l@)) {
            (Ok(d), Ok(n)) => d@ == n,
            (Err(e), Err(m)) => e@ == m,
            _ => false,
        },
{
    let v = chars_of(l);
    let s = v.as_slice();
    if chars_is(s, "0") || chars_is(s, "7") || chars_is(s, "sun") || chars_is(s, "sunday") {
        Ok(owned("sunday"))
    } else if chars_is(s, "1") || chars_is(s, "mon") || chars_is(s, "monday") {
        Ok(owned("monday"))
    } else if chars_is(s, "2") || chars_is(s, "tue") || chars_is(s, "tuesday") {
        Ok(owned("tuesday"))
    } else if chars_is(s, "3") || chars_is(s, "wed") || chars_is(s, "wednesday") {
        Ok(owned("wednesday"))
    } else if chars_is(s, "4") || chars_is(s, "thu") || chars_is(s, "thursday") {
        Ok(owned("thursday"))
    } else if chars_is(s, "5") || chars_is(s, "fri") || chars_is(s, "friday") {
        Ok(owned("friday"))
    } else if chars_is(s, "6") || chars_is(s, "sat") || chars_is(s, "saturday") {
        Ok(owned("saturday"))
    } else {
        let mut m = owned("unknown day-of-week value '");
        push_str(&mut m, l);
        push_str(&mut m, "'");
        Err(m)
    }
}

/// The day a single day-of-week value names.
fn dow_to_name(s: &[char]) -> (r: Result<String, String>)
    ensures
        match (r, spec_dow_name(unicode_lowercase(s@))) {
            (Ok(d), Ok(n)) => d@ == n,
            (Err(e), Err(m)) => e@ == m,
            _ => false,
        },
{
    let text = string_of(s);
    let lowered = to_lowercase(text.as_str());
    dow_name_of_lowercase(lowered.as_str())
}

/// Day-of-week field: numeric (0 = Sunday … 6 = Saturday, 7 = Sunday),
/// names, the `1-5` / `0-6` ranges and the weekend pairs.
fn parse_dow(s: &[char]) -> (r: Result<Vec<String>, String>)
    ensures
        strings_are(r, spec_parse_dow(s@)),
{
    if chars_is(s, "1-5") {
        let v = vec![owned("weekday")];
        assert(string_views(v@) =~= seq!["weekday"@]);
        return Ok(v);
    }
    if chars_is(s, "0-6") || chars_is(s, "6-0") {
        let v = vec![
            owned("sunday"),
            owned("monday"),
            owned("tuesday"),
            owned("wednesday"),
            owned("thursday"),
            owned("friday"),
            owned("saturday"),
        ];
        assert(string_views(v@) =~= seq![
            "sunday"@,
            "monday"@,
            "tuesday"@,
            "wednesday"@,
            "thursday"@,
            "friday"@,
            "saturday"@,
        ]);
        return Ok(v);
    }
    if chars_is(s, "6,0") || chars_is(s, "0,6") {
        let v = vec![owned("weekend")];
        assert(string_views(v@) =~= seq!["weekend"@]);
        return Ok(v);
    }
    if chars_is(s, "6-7") || chars_is(s, "0,7") {
        let v = vec![owned("weekend")];
        assert(string_views(v@) =~= seq!["weekend"@]);
        return Ok(v);
    }
    let items = split_chars(s, ',');
    let ghost pieces = split_on(s@, ',');
    let mut days: Vec<String> = Vec::new();
    assert(string_views(days@) =~= Seq::<Seq<char>>::empty());
    let mut i: usize = 0;
    while i < items.len()
        invariant
            i <= items@.len(),
            items@.len() == pieces.len(),
            pieces == split_on(s@, ','),
            forall|k: int| 0 <= k < items@.len() ==> #[trigger] items@[k]@ == pieces[k],
            dow_names(pieces, i as int) == Ok::<Seq<Seq<char>>, Seq<char>>(string_views(days@)),
            spec_parse_dow(s@) == dow_names(pieces, pieces.len() as int),
        decreases items@.len() - i,
    {
        let ghost before = days@;
        match dow_to_name(items[i].as_slice()) {
            Ok(d) => {
                let ghost dv = d@;
                days.push(d);
                assert(string_views(days@) =~= string_views(before).push(dv));
            },
            Err(e) => {
                proof {
                    assert(items@[i as int]@ == pieces[i as int]);
                    assert(dow_names(pieces, i + 1) == Err::<Seq<Seq<char>>, Seq<char>>(e@));
                    lemma_dow_names_err_sticks(pieces, i + 1, pieces.len() as int);
                }
                return Err(e);
            },
        }
        i = i + 1;
    }
    Ok(days)
}

/// Once a prefix of a day list fails, every longer prefix fails the same way.
proof fn lemma_dow_names_err_sticks(items: Seq<Seq<char>>, i: int, n: int)
    requires
        1 <= i <= n,
        dow_names(items, i) is Err,
    ensures
        dow_names(items, n) == dow_names(items, i),
    decreases n - i,
{
    if i < n {
        lemma_dow_names_err_sticks(items, i, n - 1);
    }
}

/// Once a prefix of a day-of-month list fails, every longer prefix fails
/// the same way.
proof fn lemma_dom_ordinals_err_sticks(items: Seq<Seq<char>>, i: int, n: int)
    requires
        1 <= i <= n,
        dom_ordinals(items, i) is Err,
    ensures
        dom_ordinals(items, n) == dom_ordinals(items, i),
    decreases n - i,
{
    if i < n {
        lemma_dom_ordinals_err_sticks(items, i, n - 1);
    }
}

/// The schedule line for a list of day names at `time`.
fn format_weekday_schedule(days: &Vec<String>, time: &String) -> (s: String)
    ensures
        s@ == spec_weekday_schedule(string_views(days@), time@),
{
    let ghost names = string_views(days@);
    assert(names.len() == days@.len());
    assert(days@.len() >= 1 ==> names[0] == days@[0]@);
    if days.len() == 1 && crate::text::str_eq(days[0].as_str(), "weekday") {
        let mut s = owned("every weekday at ");
        push_str(&mut s, time.as_str());
        return s;
    }
    if days.len() == 1 && crate::text::str_eq(days[0].as_str(), "weekend") {
        let mut s = owned("every weekend at ");
        push_str(&mut s, time.as_str());
        return s;
    }
    if days.len() == 7 {
        let mut s = owned("every day at ");
        push_str(&mut s, time.as_str());
        return s;
    }
    if days.len() == 1 {
        let mut s = owned("every ");
        push_str(&mut s, days[0].as_str());
        push_str(&mut s, " at ");
        push_str(&mut s, time.as_str());
        return s;
    }
    let mut s = owned("every ");
    push_joined(&mut s, days);
    push_str(&mut s, " at ");
    push_str(&mut s, time.as_str());
    s
}

/// Appends the strings joined with single spaces.
fn push_joined(out: &mut String, parts: &Vec<String>)
    ensures
        final(out)@ == old(out)@ + join_space(string_views(parts@)),
{
    let ghost names = string_views(parts@);
    let mut i: usize = 0;
    assert(names.take(0) =~= Seq::<Seq<char>>::empty());
    assert(old(out)@ + join_space(names.take(0)) =~= old(out)@);
    while i < parts.len()
        invariant
            i <= parts@.len(),
            names == string_views(parts@),
            out@ == old(out)@ + join_space(names.take(i as int)),
        decreases parts@.len() - i,
    {
        if i > 0 {
            push_str(out, " ");
        }
        push_str(out, parts[i].as_str());
        proof {
            assert(names.take(i + 1).drop_last() =~= names.take(i as int));
            reveal_strlit(" ");
        }
        i = i + 1;
        assert(out@ =~= old(out)@ + join_space(names.take(i as int)));
    }
    assert(names.take(parts@.len() as int) =~= names);
}

/// Day-of-month field: `L` for the last day, otherwise a comma list of days
/// between 1 and 31, each written as an ordinal.
fn parse_dom(s: &[char]) -> (r: Result<Vec<String>, String>)
    ensures
        strings_are(r, spec_parse_dom(s@)),
{
    let lowered = lower_chars(s);
    if chars_is(lowered.as_slice(), "l") {
        let v = vec![owned("last")];
        assert(string_views(v@) =~= seq!["last"@]);
        return Ok(v);
    }
    let items = split_chars(s, ',');
    let ghost pieces = split_on(s@, ',');
    let mut ordinals: Vec<String> = Vec::new();
    assert(string_views(ordinals@) =~= Seq::<Seq<char>>::empty());
    let mut i: usize = 0;
    while i < items.len()
        invariant
            i <= items@.len(),
            items@.len() == pieces.len(),
            pieces == split_on(s@, ','),
            forall|k: int| 0 <= k < items@.len() ==> #[trigger] items@[k]@ == pieces[k],
            dom_ordinals(pieces, i as int) == Ok::<Seq<Seq<char>>, Seq<char>>(
                string_views(ordinals@),
            ),
            spec_parse_dom(s@) == dom_ordinals(pieces, pieces.len() as int),
        decreases items@.len() - i,
    {
        let ghost before = ordinals@;
        assert(items@[i as int]@ == pieces[i as int]);
        match parse_u32(items[i].as_slice()) {
            None => {
                let mut m = owned("invalid day-of-month value '");
                push_chars(&mut m, items[i].as_slice());
                push_str(&mut m, "'");
                proof {
                    assert(dom_ordinals(pieces, i + 1) == Err::<Seq<Seq<char>>, Seq<char>>(m@));
                    lemma_dom_ordinals_err_sticks(pieces, i + 1, pieces.len() as int);
                }
                return Err(m);
            },
            Some(n) => {
                if n == 0 || n > 31 {
                    let mut m = owned("day-of-month ");
                    push_decimal(&mut m, n as u64);
                    push_str(&mut m, " out of range (1–31)");
                    proof {
                        assert(dom_ordinals(pieces, i + 1) == Err::<Seq<Seq<char>>, Seq<char>>(m@));
                        lemma_dom_ordinals_err_sticks(pieces, i + 1, pieces.len() as int);
                    }
                    return Err(m);
                }
                let mut o = String::new();
                push_decimal(&mut o, n as u64);
                push_str(&mut o, ordinal_suffix(n));
                let ghost ov = o@;
                ordinals.push(o);
                assert(string_views(ordinals@) =~= string_views(before).push(ov));
            },
        }
        i = i + 1;
    }
    Ok(ordinals)
}

/// English ordinal suffix of a day number.
fn ordinal_suffix(n: u32) -> (r: &'static str)
    ensures
        r@ == spec_ordinal_suffix(n),
{
    let h = n % 100;
    if h >= 11 && h <= 13 {
        "th"
    } else {
        let d = n % 10;
        if d == 1 {
            "st"
        } else if d == 2 {
            "nd"
        } else if d == 3 {
            "rd"
        } else {
            "th"
        }
    }
}

/// The schedule line for a list of ordinals at `time`.
fn format_monthly_schedule(ordinals: &Vec<String>, time: &String) -> (s: String)
    ensures
        s@ == "every "@ + join_space(string_views(ordinals@)) + " of month at "@ + time@,
{
    let mut s = owned("every ");
    push_joined(&mut s, ordinals);
    push_str(&mut s, " of month at ");
    push_str(&mut s, time.as_str());
    s
}

/// A schedule with no warnings.
fn plain_result(schedule: String) -> (r: Result<ConversionResult, String>)
    ensures
        conversion_is(r, plain(schedule@)),
{
    let warnings: Vec<String> = Vec::new();
    assert(string_views(warnings@) =~= Seq::<Seq<char>>::empty());
    Ok(ConversionResult { schedule, warnings })
}

/// Convert a cron expression to a Croniq schedule string.
///
/// The expression is trimmed; the `@` macros map to their fixed schedules
/// (`@yearly` with a warning); otherwise it must have five white-space
/// separated fields. Step intervals, fixed times of day and the day
/// constraints are converted; anything else is an error.
pub fn convert(expr: &str) -> (r: Result<ConversionResult, String>)
    ensures
        conversion_is(r, spec_convert(expr@)),
{
    let raw = chars_of(expr);
    let e = trim_chars(raw.as_slice());
    let es = e.as_slice();
    if chars_is(es, "@yearly") || chars_is(es, "@annually") {
        let warnings = vec![
            owned(
                "@yearly/@annually maps to 'every 1st of month' — Croniq does not have a yearly-only construct; add a `calendar` block to restrict to January if needed.",
            ),
        ];
        assert(string_views(warnings@) =~= seq![yearly_warning()]);
        return Ok(ConversionResult { schedule: owned("every 1st of month at 00:00"), warnings });
    }
    if chars_is(es, "@monthly") {
        return plain_result(owned("every 1st of month at 00:00"));
    }
    if chars_is(es, "@weekly") {
        return plain_result(owned("every monday at 00:00"));
    }
    if chars_is(es, "@daily") || chars_is(es, "@midnight") {
        return plain_result(owned("every day at 00:00"));
    }
    if chars_is(es, "@hourly") {
        return plain_result(owned("every 1 hours"));
    }
    let parts = split_words(es);
    proof {
        assert(parts@.map_values(|v: Vec<char>| v@).len() == parts@.len());
    }
    if parts.len() != 5 {
        let mut m = owned("expected 5 fields (minute hour dom month dow), got ");
        push_decimal(&mut m, parts.len() as u64);
        return Err(m);
    }
    let ghost f = words(e@);
    assert(parts@[0]@ == f[0]);
    assert(parts@[1]@ == f[1]);
    assert(parts@[2]@ == f[2]);
    assert(parts@[4]@ == f[4]);
    let minute = parts[0].as_slice();
    let hour = parts[1].as_slice();
    let dom = parts[2].as_slice();
    let dow = parts[4].as_slice();
    if is_step(minute) && is_star(hour) && is_star(dom) && is_star(dow) {
        return match parse_step(minute) {
            Ok(n) => {
                let mut s = owned("every ");
                push_decimal(&mut s, n as u64);
                push_str(&mut s, " minutes");
                plain_result(s)
            },
            Err(m) => Err(m),
        };
    }
    if is_star(minute) && is_star(hour) && is_star(dom) && is_star(dow) {
        return plain_result(owned("every 1 minutes"));
    }
    if is_zero(minute) && is_step(hour) && is_star(dom) && is_star(dow) {
        return match parse_step(hour) {
            Ok(n) => {
                let mut s = owned("every ");
                push_decimal(&mut s, n as u64);
                push_str(&mut s, " hours");
                plain_result(s)
            },
            Err(m) => Err(m),
        };
    }
    if is_zero(minute) && is_star(hour) && is_star(dom) && is_star(dow) {
        return plain_result(owned("every 1 hours"));
    }
    let fixed_minute = parse_fixed(minute);
    let fixed_hour = parse_fixed(hour);
    match (fixed_minute, fixed_hour) {
        (Some(m), Some(h)) => {
            if h > 23 {
                let mut e = owned("hour '");
                push_chars(&mut e, hour);
                push_str(&mut e, "' is out of range (0-23)");
                proof {
                    assert(e@ =~= time_range_error("hour"@, hour@));
                }
                return Err(e);
            }
            if m > 59 {
                let mut e = owned("minute '");
                push_chars(&mut e, minute);
                push_str(&mut e, "' is out of range (0-59)");
                proof {
                    reveal_strlit("hour");
                    reveal_strlit("minute");
                    assert("minute"@.len() == 6 && "hour"@.len() == 4);
                    assert(e@ =~= time_range_error("minute"@, minute@));
                }
                return Err(e);
            }
            let mut time = String::new();
            push_pad2(&mut time, h as u64);
            push_str(&mut time, ":");
            push_pad2(&mut time, m as u64);
            proof {
                reveal_strlit(":");
            }
            assert(time@ =~= pad2(h as nat) + seq![':'] + pad2(m as nat));
            if is_star(dom) && is_star(dow) {
                let mut s = owned("every day at ");
                push_str(&mut s, time.as_str());
                return plain_result(s);
            }
            if is_star(dom) && !is_star(dow) {
                return match parse_dow(dow) {
                    Ok(days) => plain_result(format_weekday_schedule(&days, &time)),
                    Err(m) => Err(m),
                };
            }
            if !is_star(dom) && is_star(dow) {
                return match parse_dom(dom) {
                    Ok(ordinals) => plain_result(format_monthly_schedule(&ordinals, &time)),
                    Err(m) => Err(m),
                };
            }
            let warnings = vec![
                owned(
                    "Cron fires when EITHER dom OR dow matches; Croniq cannot express this directly. The converted schedule uses only the day-of-week field.",
                ),
            ];
            assert(string_views(warnings@) =~= seq![either_day_warning()]);
            match parse_dow(dow) {
                Ok(days) => Ok(
                    ConversionResult { schedule: format_weekday_schedule(&days, &time), warnings },
                ),
                Err(m) => Err(m),
            }
        },
        _ => {
            let mut m = owned("Could not convert '");
            push_chars(&mut m, es);
            push_str(
                &mut m,
                "' to a Croniq schedule. Supported patterns: */N (step intervals), fixed time-of-day with weekday or dom constraints. Complex expressions with ranges or lists in the time fields are not supported.",
            );
            Err(m)
        },
    }
}

} // verus!
