//! Parsing of calendar rule arguments, shared by validation and by the
//! runtime's rule compiler so that the two accept the same inputs. The error
//! strings are shown to users verbatim.

use vstd::prelude::*;
use crate::ast::{spec_parse_token, Weekday};
use crate::text::{
    chars_of, parse_u32, push_str, spec_parse_uint, split_chars, split_on, string_of,
    string_of_range, utf8_len,
};

verus! {

#[verifier::external_type_specification]
#[verifier::external_body]
pub struct ExNaiveTime(chrono::NaiveTime);

#[verifier::external_type_specification]
#[verifier::external_body]
pub struct ExNaiveDate(chrono::NaiveDate);

/// `chrono::NaiveTime::from_hms_opt(hour, minute, 0)`. Chrono gives `None`
/// exactly when the hour is 24 or more or the minute 60 or more (a second
/// of 0 is always valid); which time of day it builds is not stated.
#[verifier::external_body]
pub(crate) fn time_of_day(hour: u32, minute: u32) -> (r: Option<chrono::NaiveTime>)
    ensures
        r is Some <==> (hour < 24 && minute < 60),
{
    chrono::NaiveTime::from_hms_opt(hour, minute, 0)
}

/// Whether chrono's `NaiveDate::parse_from_str` accepts `s` in `format`.
pub uninterp spec fn chrono_parses_date(s: Seq<char>, format: Seq<char>) -> bool;

/// `chrono::NaiveDate::parse_from_str(s, format)`, its error dropped.
/// Whether it succeeds is the named result `chrono_parses_date`; which date
/// it builds is not stated.
#[verifier::external_body]
fn parse_date(s: &str, format: &str) -> (r: Option<chrono::NaiveDate>)
    ensures
        r is Some <==> chrono_parses_date(s@, format@),
{
    chrono::NaiveDate::parse_from_str(s, format).ok()
}

/// `s` read as a `u32` the way `str::parse` does.
pub open spec fn parse_u32_spec(s: Seq<char>) -> Option<u32> {
    match spec_parse_uint(s) {
        Some(v) => if v <= u32::MAX {
            Some(v as u32)
        } else {
            None
        },
        None => None,
    }
}

/// The error for an unknown `weekly` argument.
pub open spec fn unknown_weekday_error(s: Seq<char>) -> Seq<char> {
    "unknown weekday: "@ + s
}

/// Parse a single `weekly` argument into one or more days: a day name (full
/// or three-letter, ASCII case-insensitive) or the `weekday` / `weekend`
/// aliases.
pub fn parse_weekly_arg(s: &str) -> (r: Result<Vec<Weekday>, String>)
    ensures
        match r {
            Ok(days) => spec_parse_token(s@) == Some(days@),
            Err(e) => spec_parse_token(s@) is None && e@ == unknown_weekday_error(s@),
        },
{
    match Weekday::parse_token(s) {
        Some(days) => Ok(days),
        None => {
            let mut e = String::new();
            push_str(&mut e, "unknown weekday: ");
            push_str(&mut e, s);
            Err(e)
        },
    }
}

/// Parse a single `monthly` argument into a day number. Any `u32` is
/// accepted: an out-of-range day simply never matches at run time.
pub fn parse_monthly_arg(s: &str) -> (r: Result<u32, String>)
    ensures
        match r {
            Ok(n) => parse_u32_spec(s@) == Some(n),
            Err(e) => parse_u32_spec(s@) is None && e@ == "invalid day: "@ + s@,
        },
{
    let cs = chars_of(s);
    match parse_u32(cs.as_slice()) {
        Some(n) => Ok(n),
        None => {
            let mut e = String::new();
            push_str(&mut e, "invalid day: ");
            push_str(&mut e, s);
            Err(e)
        },
    }
}

/// The index of the first `..` in `s` at or after `i`.
pub open spec fn first_dotdot(s: Seq<char>, i: int) -> Option<int>
    decreases s.len() - i,
{
    if i < 0 || i + 1 >= s.len() {
        None
    } else if s[i] == '.' && s[i + 1] == '.' {
        Some(i)
    } else {
        first_dotdot(s, i + 1)
    }
}

/// `s` split at its first `..` (`str::split_once("..")`).
pub open spec fn split_once_dotdot(s: Seq<char>) -> Option<(Seq<char>, Seq<char>)> {
    match first_dotdot(s, 0) {
        Some(i) => Some((s.take(i), s.skip(i + 2))),
        None => None,
    }
}

/// `HH:MM` read as hour and minute: two `:`-separated numbers, the hour
/// below 24 and the minute below 60.
pub open spec fn spec_time_parts(s: Seq<char>) -> Result<(u32, u32), Seq<char>> {
    let parts = split_on(s, ':');
    if parts.len() == 2 && parse_u32_spec(parts[0]) is Some && parse_u32_spec(parts[1]) is Some
        && parse_u32_spec(parts[0])->0 < 24 && parse_u32_spec(parts[1])->0 < 60 {
        Ok((parse_u32_spec(parts[0])->0, parse_u32_spec(parts[1])->0))
    } else {
        Err("invalid time: "@ + s)
    }
}

/// The two ends of a window: one `start..end` argument or two arguments.
pub open spec fn window_ends(args: Seq<Seq<char>>) -> Result<(Seq<char>, Seq<char>), Seq<char>> {
    if args.len() == 0 {
        Err("window requires start..end times"@)
    } else if args.len() == 1 {
        match split_once_dotdot(args[0]) {
            Some(p) => Ok(p),
            None => Err("invalid window: "@ + args[0]),
        }
    } else if args.len() == 2 {
        Ok((args[0], args[1]))
    } else {
        Err("window expects start..end or start end"@)
    }
}

/// The window the arguments describe, as hour and minute of each end.
pub open spec fn spec_window(args: Seq<Seq<char>>) -> Result<((u32, u32), (u32, u32)), Seq<char>> {
    match window_ends(args) {
        Err(e) => Err(e),
        Ok((a, b)) => match spec_time_parts(a) {
            Err(e) => Err(e),
            Ok(t0) => match spec_time_parts(b) {
                Err(e) => Err(e),
                Ok(t1) => Ok((t0, t1)),
            },
        },
    }
}

/// The hour and minute of an `HH:MM` value.
fn parse_time_parts(s: &[char]) -> (r: Result<(u32, u32), String>)
    ensures
        match (r, spec_time_parts(s@)) {
            (Ok(t), Ok(u)) => t == u,
            (Err(e), Err(m)) => e@ == m,
            _ => false,
        },
{
    let parts = split_chars(s, ':');
    if parts.len() == 2 {
        assert(parts@[0]@ == split_on(s@, ':')[0]);
        assert(parts@[1]@ == split_on(s@, ':')[1]);
        match (parse_u32(parts[0].as_slice()), parse_u32(parts[1].as_slice())) {
            (Some(h), Some(m)) => {
                if h < 24 && m < 60 {
                    return Ok((h, m));
                }
            },
            _ => {},
        }
    }
    let mut e = String::new();
    push_str(&mut e, "invalid time: ");
    let text = string_of(s);
    push_str(&mut e, text.as_str());
    Err(e)
}

/// A time of day, in hours and minutes.
#[derive(Debug, Clone, Copy, PartialEq, Eq)]
pub struct TimeOfDay {
    pub hour: u32,
    pub minute: u32,
}

/// An `HH:MM` value as a time of day, once chrono accepts it.
fn parse_time(s: &[char]) -> (r: Result<TimeOfDay, String>)
    ensures
        match r {
            Ok(t) => spec_time_parts(s@) == Ok::<(u32, u32), Seq<char>>((t.hour, t.minute)),
            Err(e) => spec_time_parts(s@) == Err::<(u32, u32), Seq<char>>(e@),
        },
{
    match parse_time_parts(s) {
        Ok((h, m)) => match time_of_day(h, m) {
            Some(_) => Ok(TimeOfDay { hour: h, minute: m }),
            None => Err(String::new()),
        },
        Err(e) => Err(e),
    }
}

proof fn lemma_first_dotdot(s: Seq<char>, j: int)
    ensures
        first_dotdot(s, j) matches Some(i) ==> j <= i && i + 1 < s.len() && s[i] == '.' && s[i
            + 1] == '.',
    decreases s.len() - j,
{
    if !(j < 0 || j + 1 >= s.len()) && !(s[j] == '.' && s[j + 1] == '.') {
        lemma_first_dotdot(s, j + 1);
    }
}

/// Where the first `..` of `s` stands.
fn find_dotdot(s: &[char]) -> (r: Option<usize>)
    ensures
        match r {
            Some(i) => first_dotdot(s@, 0) == Some(i as int),
            None => first_dotdot(s@, 0) is None,
        },
{
    let mut i: usize = 0;
    while i < s.len() && s.len() - i >= 2
        invariant
            i <= s@.len(),
            first_dotdot(s@, 0) == first_dotdot(s@, i as int),
        decreases s@.len() - i,
    {
        if s[i] == '.' && s[i + 1] == '.' {
            return Some(i);
        }
        i = i + 1;
    }
    None
}

/// Parse `window` arguments into a `(start, end)` pair: either a single
/// `"HH:MM..HH:MM"` argument or two separate `"HH:MM"` arguments.
pub fn parse_window_args(args: &[String]) -> (r: Result<(TimeOfDay, TimeOfDay), String>)
    ensures
        match r {
            Ok((a, b)) => spec_window(args@.map_values(|a: String| a@)) == Ok::<((u32, u32), (u32, u32)), Seq<char>>(
                ((a.hour, a.minute), (b.hour, b.minute)),
            ),
            Err(e) => spec_window(args@.map_values(|a: String| a@)) == Err::<
                ((u32, u32), (u32, u32)),
                Seq<char>,
            >(e@),
        },
{
    let ghost views = args@.map_values(|a: String| a@);
    if args.len() == 0 {
        let mut e = String::new();
        push_str(&mut e, "window requires start..end times");
        return Err(e);
    }
    let (start, end): (Vec<char>, Vec<char>) = if args.len() == 1 {
        let a = chars_of(args[0].as_str());
        assert(views[0] == a@);
        match find_dotdot(a.as_slice()) {
            Some(i) => {
                proof {
                    lemma_first_dotdot(a@, 0);
                }
                let x = crate::text::slice_chars(a.as_slice(), 0, i);
                let y = crate::text::slice_chars(a.as_slice(), i + 2, a.len());
                assert(x@ =~= a@.take(i as int));
                assert(y@ =~= a@.skip(i + 2));
                (x, y)
            },
            None => {
                let mut e = String::new();
                push_str(&mut e, "invalid window: ");
                push_str(&mut e, args[0].as_str());
                return Err(e);
            },
        }
    } else if args.len() == 2 {
        assert(views[0] == args@[0]@ && views[1] == args@[1]@);
        (chars_of(args[0].as_str()), chars_of(args[1].as_str()))
    } else {
        let mut e = String::new();
        push_str(&mut e, "window expects start..end or start end");
        return Err(e);
    };
    assert(window_ends(views) == Ok::<(Seq<char>, Seq<char>), Seq<char>>((start@, end@)));
    let t0 = match parse_time(start.as_slice()) {
        Ok(t) => t,
        Err(e) => {
            return Err(e);
        },
    };
    let t1 = match parse_time(end.as_slice()) {
        Ok(t) => t,
        Err(e) => {
            return Err(e);
        },
    };
    Ok((t0, t1))
}

/// A parsed `annual` / `yearly` argument.
#[derive(Debug)]
pub enum AnnualArg {
    /// `MM-DD`, recurring every year; not range-checked (an implausible
    /// date simply never matches).
    MonthDay(u32, u32),
    /// `YYYY-MM-DD`, a specific date, as chrono reads it.
    Date(chrono::NaiveDate),
    /// A five-byte argument with a `-` that does not split into exactly two
    /// parts (`1-2-3`): accepted and skipped.
    Ignored,
}

/// How many times `c` occurs in `s`.
pub open spec fn count_char(s: Seq<char>, c: char) -> nat
    decreases s.len(),
{
    if s.len() == 0 {
        0
    } else {
        count_char(s.drop_last(), c) + if s.last() == c {
            1nat
        } else {
            0nat
        }
    }
}

/// The error for an annual argument of neither shape.
pub open spec fn annual_format_error(s: Seq<char>) -> Seq<char> {
    "invalid annual date format: "@ + s + " (expected MM-DD or YYYY-MM-DD)"@
}

/// `r` is what `parse_annual_arg` gives for `s`: five bytes with a `-` are
/// `MM-DD` (or ignored when the dashes do not make two parts), ten bytes
/// with two dashes are a date that chrono must accept, anything else is an
/// error.
pub open spec fn annual_arg_is(s: Seq<char>, r: Result<AnnualArg, String>) -> bool {
    if utf8_len(s) == 5 && s.contains('-') {
        let parts = split_on(s, '-');
        if parts.len() != 2 {
            r matches Ok(AnnualArg::Ignored)
        } else {
            match (parse_u32_spec(parts[0]), parse_u32_spec(parts[1])) {
                (Some(m), Some(d)) => r matches Ok(AnnualArg::MonthDay(x, y)) && x == m && y == d,
                _ => r matches Err(e) && e@ == "invalid date: "@ + s,
            }
        }
    } else if utf8_len(s) == 10 && count_char(s, '-') == 2 {
        if chrono_parses_date(s, "%Y-%m-%d"@) {
            r matches Ok(AnnualArg::Date(_))
        } else {
            r matches Err(e) && e@ == "invalid date: "@ + s
        }
    } else {
        r matches Err(e) && e@ == annual_format_error(s)
    }
}

/// Parse a single `annual` / `yearly` argument: `MM-DD` or `YYYY-MM-DD`.
pub fn parse_annual_arg(s: &str) -> (r: Result<AnnualArg, String>)
    ensures
        annual_arg_is(s@, r),
{
    let cs = chars_of(s);
    proof {
        crate::text::lemma_str_len(s);
    }
    let n = s.as_bytes().len();
    let mut has_dash = false;
    let mut dashes: usize = 0;
    let mut i: usize = 0;
    assert(cs@.take(0) =~= Seq::<char>::empty());
    while i < cs.len()
        invariant
            i <= cs@.len(),
            has_dash == cs@.take(i as int).contains('-'),
            dashes == count_char(cs@.take(i as int), '-'),
            dashes <= i,
        decreases cs@.len() - i,
    {
        let ghost pre = cs@.take(i as int);
        if cs[i] == '-' {
            has_dash = true;
            dashes = dashes + 1;
        }
        i = i + 1;
        assert(cs@.take(i as int).drop_last() =~= pre);
        assert(cs@.take(i as int) =~= pre.push(cs@[i - 1]));
        assert(cs@.take(i as int).contains('-') == (pre.contains('-') || cs@[i - 1] == '-')) by {
            if cs@[i - 1] == '-' {
                assert(cs@.take(i as int)[i - 1] == '-');
            }
            if pre.contains('-') {
                let k = choose|k: int| 0 <= k < pre.len() && pre[k] == '-';
                assert(cs@.take(i as int)[k] == '-');
            }
        }
    }
    assert(cs@.take(cs@.len() as int) =~= cs@);
    if n == 5 && has_dash {
        let parts = split_chars(cs.as_slice(), '-');
        if parts.len() != 2 {
            return Ok(AnnualArg::Ignored);
        }
        assert(parts@[0]@ == split_on(s@, '-')[0]);
        assert(parts@[1]@ == split_on(s@, '-')[1]);
        match (parse_u32(parts[0].as_slice()), parse_u32(parts[1].as_slice())) {
            (Some(m), Some(d)) => Ok(AnnualArg::MonthDay(m, d)),
            _ => {
                let mut e = String::new();
                push_str(&mut e, "invalid date: ");
                push_str(&mut e, s);
                Err(e)
            },
        }
    } else if n == 10 && dashes == 2 {
        match parse_date(s, "%Y-%m-%d") {
            Some(d) => Ok(AnnualArg::Date(d)),
            None => {
                let mut e = String::new();
                push_str(&mut e, "invalid date: ");
                push_str(&mut e, s);
                Err(e)
            },
        }
    } else {
        let mut e = String::new();
        push_str(&mut e, "invalid annual date format: ");
        push_str(&mut e, s);
        push_str(&mut e, " (expected MM-DD or YYYY-MM-DD)");
        Err(e)
    }
}

} // verus!
