//! Formatter: turns a Croniqfile syntax tree back into source text in the
//! canonical layout. Comments are kept, at the top level and inside every
//! body (blocks, sub-block lists, calendars, job bodies and schedule
//! options); values and job keys keep their quoting and placeholders.
//! Blank lines are not kept: items are separated by one blank line.

use vstd::prelude::*;
use crate::ast::{
    spec_parse_weekday, weekday_at, weekday_index, BodyComment, CalendarRule, CommentNode, CalendarRuleKind, Croniqfile, Directive,
    DirectiveOrBlock, IntervalUnit, Item, JobBlock, MonthOrdinal, NamedBlock, ScheduleKind,
    ScheduleNode, StringValue, Weekday,
};
use crate::plural::{interval_phrase, spec_interval_phrase};
use crate::text::{
    chars_is, chars_of, decimal, lower, lower_chars, push_char, push_chars, push_decimal, push_str,
};

verus! {

/// Capitalised three-letter name of a day (`Mon`).
pub open spec fn short_cap(d: Weekday) -> Seq<char> {
    match d {
        Weekday::Monday => "Mon"@,
        Weekday::Tuesday => "Tue"@,
        Weekday::Wednesday => "Wed"@,
        Weekday::Thursday => "Thu"@,
        Weekday::Friday => "Fri"@,
        Weekday::Saturday => "Sat"@,
        Weekday::Sunday => "Sun"@,
    }
}

/// Three-letter capitalised weekday name (`Monday` → `"Mon"`).
pub fn weekday_short(day: Weekday) -> (r: &'static str)
    ensures
        r@ == short_cap(day),
{
    match day {
        Weekday::Monday => "Mon",
        Weekday::Tuesday => "Tue",
        Weekday::Wednesday => "Wed",
        Weekday::Thursday => "Thu",
        Weekday::Friday => "Fri",
        Weekday::Saturday => "Sat",
        Weekday::Sunday => "Sun",
    }
}

/// Which of the seven days (Monday first) occur in `days`.
pub open spec fn presence(days: Seq<Weekday>) -> Seq<bool> {
    Seq::new(7, |i: int| exists|k: int| 0 <= k < days.len() && weekday_index(#[trigger] days[k]) == i)
}

/// The last day of the run of present days that starts at `i`.
pub open spec fn run_end(p: Seq<bool>, i: int) -> int
    decreases 7 - i,
{
    if 0 <= i && i + 1 < 7 && p[i + 1] {
        run_end(p, i + 1)
    } else {
        i
    }
}

/// How one run of present days reads: `Start..End` from three days on,
/// otherwise the days one by one.
pub open spec fn spec_emit_run(s: int, e: int) -> Seq<char> {
    if e - s + 1 >= 3 {
        short_cap(weekday_at(s as nat)) + ".."@ + short_cap(weekday_at(e as nat))
    } else if e == s {
        short_cap(weekday_at(s as nat))
    } else {
        short_cap(weekday_at(s as nat)) + " "@ + short_cap(weekday_at(e as nat))
    }
}

/// A run never ends before it starts.
pub proof fn lemma_run_end_ge(p: Seq<bool>, i: int)
    ensures
        run_end(p, i) >= i,
        0 <= i < 7 ==> run_end(p, i) < 7,
    decreases 7 - i,
{
    if 0 <= i && i + 1 < 7 && p[i + 1] {
        lemma_run_end_ge(p, i + 1);
    }
}

/// The parts of a weekday list from day `i` on, one per run.
pub open spec fn parts_from(p: Seq<bool>, i: int) -> Seq<Seq<char>>
    decreases 7 - i,
{
    if i < 0 || i >= 7 {
        Seq::empty()
    } else if !p[i] {
        parts_from(p, i + 1)
    } else {
        proof {
            lemma_run_end_ge(p, i);
        }
        seq![spec_emit_run(i, run_end(p, i))] + parts_from(p, run_end(p, i) + 1)
    }
}

/// Parts joined with single spaces.
pub open spec fn join_space(parts: Seq<Seq<char>>) -> Seq<char>
    decreases parts.len(),
{
    if parts.len() == 0 {
        Seq::empty()
    } else if parts.len() == 1 {
        parts[0]
    } else {
        join_space(parts.drop_last()) + " "@ + parts.last()
    }
}

/// The canonical compact form of a weekday list: `weekday` for exactly
/// Monday–Friday, `weekend` for exactly Saturday and Sunday, otherwise the
/// distinct days in week order with runs of three or more as `Start..End`.
pub open spec fn spec_weekday_list(days: Seq<Weekday>) -> Seq<char> {
    if days.len() == 0 {
        Seq::empty()
    } else if presence(days) == seq![true, true, true, true, true, false, false] {
        "weekday"@
    } else if presence(days) == seq![false, false, false, false, false, true, true] {
        "weekend"@
    } else {
        join_space(parts_from(presence(days), 0))
    }
}

/// Appends `part` to a space-separated list held in `out`.
fn push_part(out: &mut String, part: &String, first: bool, Ghost(done): Ghost<Seq<Seq<char>>>)
    requires
        old(out)@ == join_space(done),
        first == (done.len() == 0),
    ensures
        final(out)@ == join_space(done.push(part@)),
{
    if !first {
        push_char(out, ' ');
        assert(" "@ == seq![' ']) by {
            reveal_strlit(" ");
        }
    }
    push_str(out, part.as_str());
    assert(done.push(part@).drop_last() =~= done);
}

/// Formats one run of days.
fn emit_run(start: usize, end: usize) -> (s: String)
    requires
        start <= end < 7,
    ensures
        s@ == spec_emit_run(start as int, end as int),
{
    let mut s = String::new();
    if end - start + 1 >= 3 {
        push_str(&mut s, weekday_short(Weekday::from_index(start)));
        push_str(&mut s, "..");
        push_str(&mut s, weekday_short(Weekday::from_index(end)));
    } else if end == start {
        push_str(&mut s, weekday_short(Weekday::from_index(start)));
    } else {
        push_str(&mut s, weekday_short(Weekday::from_index(start)));
        push_str(&mut s, " ");
        push_str(&mut s, weekday_short(Weekday::from_index(end)));
    }
    s
}

/// Format a list of weekdays into the canonical compact form: the
/// `weekday` / `weekend` aliases first, otherwise the days deduplicated in
/// week order, runs of three or more collapsed to `Start..End` (no
/// wrap-around), the rest as three-letter names.
pub fn format_weekday_list(days: &[Weekday]) -> (s: String)
    ensures
        s@ == spec_weekday_list(days@),
{
    if days.len() == 0 {
        return String::new();
    }
    let mut present: Vec<bool> = vec![false, false, false, false, false, false, false];
    let mut k: usize = 0;
    while k < days.len()
        invariant
            k <= days@.len(),
            present@.len() == 7,
            forall|i: int| 0 <= i < 7 ==> present@[i] == exists|j: int| 0 <= j < k && weekday_index(#[trigger] days@[j]) == i,
        decreases days@.len() - k,
    {
        let i = days[k].index();
        present.set(i, true);
        k = k + 1;
        assert forall|x: int| 0 <= x < 7 implies present@[x] == exists|j: int| 0 <= j < k && weekday_index(#[trigger] days@[j]) == x by {
            if x == i {
                assert(weekday_index(days@[k - 1]) == x);
            } else {
                if exists|j: int| 0 <= j < k && weekday_index(#[trigger] days@[j]) == x {
                    let j = choose|j: int| 0 <= j < k && weekday_index(#[trigger] days@[j]) == x;
                    assert(j != k - 1);
                }
            }
        }
    }
    let ghost p = presence(days@);
    assert(present@ =~= p);
    if present[0] && present[1] && present[2] && present[3] && present[4] && !present[5] && !present[6] {
        assert(p =~= seq![true, true, true, true, true, false, false]);
        let mut s = String::new();
        push_str(&mut s, "weekday");
        return s;
    }
    assert(p != seq![true, true, true, true, true, false, false]);
    if !present[0] && !present[1] && !present[2] && !present[3] && !present[4] && present[5] && present[6] {
        assert(p =~= seq![false, false, false, false, false, true, true]);
        let mut s = String::new();
        push_str(&mut s, "weekend");
        return s;
    }
    assert(p != seq![false, false, false, false, false, true, true]);
    let mut out = String::new();
    let ghost mut done: Seq<Seq<char>> = Seq::empty();
    let mut first = true;
    let mut i: usize = 0;
    while i < 7
        invariant
            i <= 7,
            first == (done.len() == 0),
            present@ == p,
            p.len() == 7,
            out@ == join_space(done),
            done + parts_from(p, i as int) == parts_from(p, 0),
        decreases 7 - i,
    {
        if !present[i] {
            i = i + 1;
            continue;
        }
        let mut j: usize = i;
        while j + 1 < 7 && present[j + 1]
            invariant
                i <= j < 7,
                present@ == p,
                p.len() == 7,
                p[i as int],
                run_end(p, i as int) == run_end(p, j as int),
            decreases 7 - j,
        {
            j = j + 1;
        }
        let part = emit_run(i, j);
        proof {
            assert(parts_from(p, i as int) == seq![spec_emit_run(i as int, j as int)] + parts_from(p, j + 1));
            assert(done.push(part@) + parts_from(p, j + 1) =~= done + parts_from(p, i as int));
        }
        push_part(&mut out, &part, first, Ghost(done));
        first = false;
        proof {
            done = done.push(part@);
        }
        i = j + 1;
    }
    assert(done =~= parts_from(p, 0));
    out
}

/// `day` with its English ordinal suffix (`1st`, `22nd`, `11th`).
pub open spec fn spec_ordinal_text(day: u8) -> Seq<char> {
    decimal(day as nat) + (if day == 1 || day == 21 || day == 31 {
        "st"@
    } else if day == 2 || day == 22 {
        "nd"@
    } else if day == 3 || day == 23 {
        "rd"@
    } else {
        "th"@
    })
}

fn format_ordinal(day: u8) -> (s: String)
    ensures
        s@ == spec_ordinal_text(day),
{
    let mut s = String::new();
    push_decimal(&mut s, day as u64);
    if day == 1 || day == 21 || day == 31 {
        push_str(&mut s, "st");
    } else if day == 2 || day == 22 {
        push_str(&mut s, "nd");
    } else if day == 3 || day == 23 {
        push_str(&mut s, "rd");
    } else {
        push_str(&mut s, "th");
    }
    s
}

/// How a monthly ordinal reads.
pub open spec fn spec_month_ordinal_text(o: MonthOrdinal) -> Seq<char> {
    match o {
        MonthOrdinal::Day(d) => spec_ordinal_text(d),
        MonthOrdinal::Last => "last"@,
    }
}

/// Backslashes and double quotes escaped for a quoted string.
pub open spec fn escape_quoted(s: Seq<char>) -> Seq<char>
    decreases s.len(),
{
    if s.len() == 0 {
        Seq::empty()
    } else {
        let c = s.last();
        escape_quoted(s.drop_last()) + (if c == '\\' {
            seq!['\\', '\\']
        } else if c == '"' {
            seq!['\\', '"']
        } else {
            seq![c]
        })
    }
}

/// How one character of a quoted value is written.
spec fn escaped_char(c: char) -> Seq<char> {
    if c == '\\' {
        seq!['\\', '\\']
    } else if c == '"' {
        seq!['\\', '"']
    } else {
        seq![c]
    }
}

proof fn lemma_escape_quoted_cons(c: char, t: Seq<char>)
    ensures
        escape_quoted(seq![c] + t) == escaped_char(c) + escape_quoted(t),
    decreases t.len(),
{
    if t.len() == 0 {
        assert(seq![c] + t =~= seq![c]);
        assert(seq![c].drop_last() =~= Seq::<char>::empty());
        assert(seq![c].last() == c);
        assert(escape_quoted(Seq::<char>::empty()) =~= Seq::<char>::empty());
        assert(escape_quoted(seq![c]) == escape_quoted(seq![c].drop_last()) + escaped_char(c));
        assert(escape_quoted(seq![c]) =~= escaped_char(c));
        assert(escaped_char(c) + escape_quoted(t) =~= escaped_char(c));
    } else {
        let s = seq![c] + t;
        assert(s.drop_last() =~= seq![c] + t.drop_last());
        assert(s.last() == t.last());
        lemma_escape_quoted_cons(c, t.drop_last());
        assert(escape_quoted(s) =~= escaped_char(c) + escape_quoted(t.drop_last()) + escaped_char(t.last()));
        assert(escape_quoted(t) =~= escape_quoted(t.drop_last()) + escaped_char(t.last()));
    }
}

proof fn lemma_scan_escaped(cs: Seq<char>, q: int, i: int, v: Seq<char>)
    requires
        0 <= i,
        !v.contains('\n'),
        i + escape_quoted(v).len() < cs.len(),
        cs.subrange(i, i + escape_quoted(v).len()) == escape_quoted(v),
        cs[i + escape_quoted(v).len()] == '"',
    ensures
        crate::lexer::scan_string(cs, q, i) == Ok::<(Seq<char>, int), crate::lexer::LexError>(
            (v, i + escape_quoted(v).len() + 1),
        ),
    decreases v.len(),
{
    let e = escape_quoted(v);
    if v.len() == 0 {
        assert(v =~= Seq::<char>::empty());
        assert(e =~= Seq::<char>::empty());
        assert(cs[i] == '"');
    } else {
        let c = v[0];
        let t = v.drop_first();
        assert(v =~= seq![c] + t);
        lemma_escape_quoted_cons(c, t);
        let et = escape_quoted(t);
        let k = escaped_char(c).len();
        assert(e == escaped_char(c) + et);
        assert(!t.contains('\n')) by {
            if t.contains('\n') {
                let x = choose|x: int| 0 <= x < t.len() && t[x] == '\n';
                assert(v[x + 1] == '\n');
            }
        }
        assert(c != '\n') by {
            assert(v[0] == c);
        }
        assert(cs[i] == e[0]);
        if k == 2 {
            assert(cs[i + 1] == e[1]);
        }
        assert(cs.subrange(i + k, i + k + et.len()) =~= et) by {
            assert forall|x: int| 0 <= x < et.len() implies cs.subrange(i + k, i + k + et.len())[x] == et[x] by {
                assert(cs[i + k + x] == cs.subrange(i, i + e.len())[k + x]);
                assert(e[k + x] == et[x]);
            }
        }
        lemma_scan_escaped(cs, q, i + k, t);
        let rest = crate::lexer::scan_string(cs, q, i + k);
        assert(rest == Ok::<(Seq<char>, int), crate::lexer::LexError>((t, i + k + et.len() + 1)));
        if c == '\\' {
            assert(k == 2 && cs[i] == '\\' && cs[i + 1] == '\\');
            assert(crate::lexer::unescape('\\') == Some('\\'));
        } else if c == '"' {
            assert(k == 2 && cs[i] == '\\' && cs[i + 1] == '"');
            assert(crate::lexer::unescape('"') == Some('"'));
        } else {
            assert(k == 1 && cs[i] == c);
        }
        assert(seq![c] + t =~= v);
        assert(cs[i] != '"' && cs[i] != '\n');
        assert(crate::lexer::scan_string(cs, q, i) == Ok::<(Seq<char>, int), crate::lexer::LexError>(
            (seq![c] + t, i + k + et.len() + 1),
        ));
    }
}

/// A quoted value as the formatter writes it reads back as the same text:
/// for every value without a line break, `"`, the escaped value and `"`
/// at index `q` of a source lex as one string token holding exactly that
/// value, ending just past the closing quote. So `\\` reads back as one
/// backslash and `\"` as a quote.
pub proof fn lemma_quoted_value_lexes_back(cs: Seq<char>, q: int, v: Seq<char>)
    requires
        0 <= q,
        !v.contains('\n'),
        q + 1 + escape_quoted(v).len() < cs.len(),
        cs[q] == '"',
        cs.subrange(q + 1, q + 1 + escape_quoted(v).len()) == escape_quoted(v),
        cs[q + 1 + escape_quoted(v).len()] == '"',
    ensures
        ({
            let n = q + escape_quoted(v).len() + 2;
            crate::lexer::scan_token(cs, q) == Ok::<((crate::lexer::KindView, crate::lexer::Span), int), crate::lexer::LexError>(
                ((crate::lexer::KindView::QuotedString(v), crate::lexer::span_of(cs, q, n)), n),
            )
        }),
{
    lemma_scan_escaped(cs, q, q + 1, v);
}

/// How a value is written back: `{…}` for placeholders, escaped `"…"`
/// for quoted strings, verbatim otherwise.
pub open spec fn spec_string_value(v: StringValue) -> Seq<char> {
    if v.is_placeholder {
        seq!['{'] + v.value@ + seq!['}']
    } else if v.quoted {
        seq!['"'] + escape_quoted(v.value@) + seq!['"']
    } else {
        v.value@
    }
}

/// Appends the source form of a value.
fn push_string_value(out: &mut String, val: &StringValue)
    ensures
        final(out)@ == old(out)@ + spec_string_value(*val),
{
    if val.is_placeholder {
        push_char(out, '{');
        push_str(out, val.value.as_str());
        push_char(out, '}');
        assert(final(out)@ =~= old(out)@ + spec_string_value(*val));
    } else if val.quoted {
        push_char(out, '"');
        let cs = chars_of(val.value.as_str());
        let ghost base = out@;
        let mut i: usize = 0;
        while i < cs.len()
            invariant
                i <= cs@.len(),
                cs@ == val.value@,
                out@ == base + escape_quoted(cs@.take(i as int)),
            decreases cs@.len() - i,
        {
            let c = cs[i];
            if c == '\\' {
                push_char(out, '\\');
                push_char(out, '\\');
            } else if c == '"' {
                push_char(out, '\\');
                push_char(out, '"');
            } else {
                push_char(out, c);
            }
            i = i + 1;
            assert(cs@.take(i as int).drop_last() =~= cs@.take((i - 1) as int));
            assert(out@ =~= base + escape_quoted(cs@.take(i as int)));
        }
        assert(cs@.take(cs@.len() as int) =~= cs@);
        push_char(out, '"');
        assert(final(out)@ =~= old(out)@ + spec_string_value(*val));
    } else {
        push_str(out, val.value.as_str());
    }
}

/// The source form of a value.
pub fn format_string_value(val: &StringValue) -> (s: String)
    ensures
        s@ == spec_string_value(*val),
{
    let mut s = String::new();
    push_string_value(&mut s, val);
    s
}

/// Two spaces per indentation level.
pub open spec fn indent_text(level: nat) -> Seq<char>
    decreases level,
{
    if level == 0 {
        Seq::empty()
    } else {
        indent_text((level - 1) as nat) + seq![' ', ' ']
    }
}

/// One level deeper; a level that cannot grow stays where it is.
pub open spec fn spec_deeper(level: usize) -> usize {
    if level < usize::MAX {
        (level + 1) as usize
    } else {
        level
    }
}

pub(crate) fn deeper(level: usize) -> (r: usize)
    ensures
        r == spec_deeper(level),
{
    level.saturating_add(1)
}

pub(crate) fn write_indent(out: &mut String, level: usize)
    ensures
        final(out)@ == old(out)@ + indent_text(level as nat),
{
    let mut i: usize = 0;
    while i < level
        invariant
            i <= level,
            out@ == old(out)@ + indent_text(i as nat),
        decreases level - i,
    {
        push_char(out, ' ');
        push_char(out, ' ');
        i = i + 1;
        assert(out@ =~= old(out)@ + indent_text(i as nat));
    }
}

/// `key arg arg…` without indentation or line break.
pub open spec fn spec_directive_body(key: StringValue, args: Seq<StringValue>) -> Seq<char>
    decreases args.len(),
{
    if args.len() == 0 {
        spec_string_value(key)
    } else {
        spec_directive_body(key, args.drop_last()) + seq![' '] + spec_string_value(args.last())
    }
}

/// Appends `key arg arg…`.
fn push_directive_body(out: &mut String, d: &Directive)
    ensures
        final(out)@ == old(out)@ + spec_directive_body(d.key, d.args@),
{
    push_string_value(out, &d.key);
    let mut i: usize = 0;
    while i < d.args.len()
        invariant
            i <= d.args@.len(),
            out@ == old(out)@ + spec_directive_body(d.key, d.args@.take(i as int)),
        decreases d.args@.len() - i,
    {
        let ghost before = out@;
        push_char(out, ' ');
        push_string_value(out, &d.args[i]);
        i = i + 1;
        assert(d.args@.take(i as int).drop_last() =~= d.args@.take((i - 1) as int));
        assert(out@ =~= old(out)@ + spec_directive_body(d.key, d.args@.take(i as int)));
    }
    assert(d.args@.take(d.args@.len() as int) =~= d.args@);
}

/// One directive on a line of its own.
pub open spec fn directive_line(indent: usize, d: Directive) -> Seq<char> {
    indent_text(indent as nat) + spec_directive_body(d.key, d.args@) + seq!['\n']
}

/// A comment on a line of its own.
pub open spec fn comment_line(indent: usize, c: CommentNode) -> Seq<char> {
    indent_text(indent as nat) + "# "@ + c.text@ + seq!['\n']
}

/// The lines, at `indent`, of those of the first `m` body comments that
/// stand before entry `k`.
pub open spec fn comments_before(indent: usize, cs: Seq<BodyComment>, k: nat, m: int) -> Seq<char>
    decreases m,
{
    if m <= 0 {
        Seq::empty()
    } else {
        comments_before(indent, cs, k, m - 1) + if cs[m - 1].before == k {
            comment_line(indent, cs[m - 1].comment)
        } else {
            Seq::empty()
        }
    }
}

/// The first `n` directives of a body, one per line, each preceded by the
/// comments that stand before it, and the comments after the `n`th.
pub open spec fn commented_directives_text(indent: usize, ds: Seq<Directive>, cs: Seq<BodyComment>, n: int) -> Seq<char>
    decreases n,
{
    if n <= 0 {
        comments_before(indent, cs, 0, cs.len() as int)
    } else {
        commented_directives_text(indent, ds, cs, n - 1) + directive_line(indent, ds[n - 1])
            + comments_before(indent, cs, n as nat, cs.len() as int)
    }
}

fn format_comments_before(out: &mut String, cs: &Vec<BodyComment>, k: usize, indent: usize)
    ensures
        final(out)@ == old(out)@ + comments_before(indent, cs@, k as nat, cs@.len() as int),
{
    let mut i: usize = 0;
    while i < cs.len()
        invariant
            i <= cs@.len(),
            out@ == old(out)@ + comments_before(indent, cs@, k as nat, i as int),
        decreases cs@.len() - i,
    {
        if cs[i].before == k {
            format_comment(out, &cs[i].comment, indent);
        }
        i = i + 1;
        assert(out@ =~= old(out)@ + comments_before(indent, cs@, k as nat, i as int));
    }
}

fn format_commented_directives(out: &mut String, directives: &Vec<Directive>, cs: &Vec<BodyComment>, indent: usize)
    ensures
        final(out)@ == old(out)@ + commented_directives_text(indent, directives@, cs@, directives@.len() as int),
{
    format_comments_before(out, cs, 0, indent);
    let mut i: usize = 0;
    while i < directives.len()
        invariant
            i <= directives@.len(),
            out@ == old(out)@ + commented_directives_text(indent, directives@, cs@, i as int),
        decreases directives@.len() - i,
    {
        write_indent(out, indent);
        push_directive_body(out, &directives[i]);
        push_char(out, '\n');
        format_comments_before(out, cs, i + 1, indent);
        i = i + 1;
        assert(out@ =~= old(out)@ + commented_directives_text(indent, directives@, cs@, i as int));
    }
}

fn format_comment(out: &mut String, c: &CommentNode, indent: usize)
    ensures
        final(out)@ == old(out)@ + comment_line(indent, *c),
{
    write_indent(out, indent);
    push_str(out, "# ");
    push_str(out, c.text.as_str());
    push_char(out, '\n');
    assert(final(out)@ =~= old(out)@ + comment_line(indent, *c));
}

/// How much room a block's entries take on one line: one per key and
/// argument, ten for anything that is not a plain directive.
pub open spec fn inline_weight(items: Seq<DirectiveOrBlock>, n: int) -> int
    decreases n,
{
    if n <= 0 {
        0
    } else {
        inline_weight(items, n - 1) + match items[n - 1] {
            DirectiveOrBlock::Directive(d) => 1 + d.args@.len(),
            _ => 10,
        }
    }
}

proof fn lemma_inline_weight_mono(items: Seq<DirectiveOrBlock>, i: int, j: int)
    requires
        0 <= i <= j,
    ensures
        inline_weight(items, i) <= inline_weight(items, j),
    decreases j - i,
{
    if i < j {
        lemma_inline_weight_mono(items, i, j - 1);
    }
}

/// A block is written on one line when it holds at most four entries, all
/// plain directives, with at most eight keys and arguments together.
pub open spec fn spec_is_inline(b: NamedBlock) -> bool {
    b.directives@.len() <= 4 && inline_weight(b.directives@, b.directives@.len() as int) <= 8
}

/// The entries of a one-line block: ` key args` separated by `;`.
pub open spec fn inline_text(items: Seq<DirectiveOrBlock>, n: int) -> Seq<char>
    decreases n,
{
    if n <= 0 {
        Seq::empty()
    } else {
        inline_text(items, n - 1) + match items[n - 1] {
            DirectiveOrBlock::Directive(d) => (if n - 1 > 0 {
                seq![';']
            } else {
                Seq::empty()
            }) + seq![' '] + spec_directive_body(d.key, d.args@),
            _ => Seq::empty(),
        }
    }
}

/// Indentation, name and qualifier of a named block.
pub open spec fn block_head(indent: usize, b: NamedBlock) -> Seq<char> {
    indent_text(indent as nat) + spec_string_value(b.name) + match b.qualifier {
        Some(q) => seq![' '] + spec_string_value(q),
        None => Seq::empty(),
    }
}

/// One entry of a block body.
pub open spec fn dob_text(indent: usize, item: DirectiveOrBlock) -> Seq<char>
    decreases item, 0int,
{
    match item {
        DirectiveOrBlock::Directive(d) => directive_line(indent, d),
        DirectiveOrBlock::Block(b) => named_block_text(indent, b),
        DirectiveOrBlock::Comment(c) => comment_line(indent, c),
    }
}

/// The first `n` entries of a block body.
pub open spec fn dobs_text(indent: usize, items: Vec<DirectiveOrBlock>, n: int) -> Seq<char>
    decreases items, n,
{
    if n <= 0 || n > items@.len() {
        Seq::empty()
    } else {
        proof {
            assert(decreases_to!(items => items@[n - 1]));
        }
        dobs_text(indent, items, n - 1) + dob_text(indent, items@[n - 1])
    }
}

/// A named block: on one line when it is small, otherwise with its body
/// indented one level deeper and the closing brace on a line of its own.
pub open spec fn named_block_text(indent: usize, b: NamedBlock) -> Seq<char>
    decreases b, 1int,
{
    if spec_is_inline(b) {
        block_head(indent, b) + " {"@ + inline_text(b.directives@, b.directives@.len() as int)
            + " }\n"@
    } else {
        proof {
            assert(decreases_to!(b => b.directives));
        }
        block_head(indent, b) + " {\n"@ + dobs_text(
            spec_deeper(indent),
            b.directives,
            b.directives@.len() as int,
        ) + indent_text(indent as nat) + "}\n"@
    }
}

fn format_directives_or_blocks(out: &mut String, items: &Vec<DirectiveOrBlock>, indent: usize)
    ensures
        final(out)@ == old(out)@ + dobs_text(indent, *items, items@.len() as int),
    decreases items, 0int,
{
    let mut i: usize = 0;
    while i < items.len()
        invariant
            i <= items@.len(),
            out@ == old(out)@ + dobs_text(indent, *items, i as int),
        decreases items@.len() - i,
    {
        proof {
            assert(decreases_to!(items => items@[i as int]));
        }
        format_directive_or_block(out, &items[i], indent);
        i = i + 1;
        assert(out@ =~= old(out)@ + dobs_text(indent, *items, i as int));
    }
}

fn format_directive_or_block(out: &mut String, item: &DirectiveOrBlock, indent: usize)
    ensures
        final(out)@ == old(out)@ + dob_text(indent, *item),
    decreases item, 0int,
{
    match item {
        DirectiveOrBlock::Directive(d) => {
            write_indent(out, indent);
            push_directive_body(out, d);
            push_char(out, '\n');
            assert(final(out)@ =~= old(out)@ + dob_text(indent, *item));
        },
        DirectiveOrBlock::Block(b) => {
            format_named_block(out, b, indent);
        },
        DirectiveOrBlock::Comment(c) => {
            format_comment(out, c, indent);
        },
    }
}

/// Whether a block is written on one line.
fn is_inline(block: &NamedBlock) -> (r: bool)
    ensures
        r == spec_is_inline(*block),
{
    if block.directives.len() > 4 {
        return false;
    }
    let ghost items = block.directives@;
    let n = block.directives.len();
    let mut total: usize = 0;
    let mut i: usize = 0;
    while i < n
        invariant
            n == items.len(),
            items == block.directives@,
            i <= n,
            n <= 4,
            total == inline_weight(items, i as int),
            total <= 8,
        decreases n - i,
    {
        match &block.directives[i] {
            DirectiveOrBlock::Directive(d) => {
                if d.args.len() > 7 {
                    proof {
                        lemma_inline_weight_mono(items, i + 1, n as int);
                    }
                    return false;
                }
                total = total + 1 + d.args.len();
                if total > 8 {
                    proof {
                        lemma_inline_weight_mono(items, i + 1, n as int);
                    }
                    return false;
                }
            },
            _ => {
                proof {
                    lemma_inline_weight_mono(items, i + 1, n as int);
                }
                return false;
            },
        }
        i = i + 1;
    }
    true
}

fn format_named_block(out: &mut String, block: &NamedBlock, indent: usize)
    ensures
        final(out)@ == old(out)@ + named_block_text(indent, *block),
    decreases block, 1int,
{
    write_indent(out, indent);
    push_string_value(out, &block.name);
    match &block.qualifier {
        Some(q) => {
            push_char(out, ' ');
            push_string_value(out, q);
        },
        None => {},
    }
    let ghost head = out@;
    assert(head =~= old(out)@ + block_head(indent, *block));
    if is_inline(block) {
        push_str(out, " {");
        let ghost start = out@;
        let ghost items = block.directives@;
        let mut i: usize = 0;
        while i < block.directives.len()
            invariant
                i <= items.len(),
                items == block.directives@,
                out@ == start + inline_text(items, i as int),
            decreases items.len() - i,
        {
            match &block.directives[i] {
                DirectiveOrBlock::Directive(d) => {
                    if i > 0 {
                        push_char(out, ';');
                    }
                    push_char(out, ' ');
                    push_directive_body(out, d);
                },
                _ => {},
            }
            i = i + 1;
            assert(out@ =~= start + inline_text(items, i as int));
        }
        push_str(out, " }\n");
        assert(final(out)@ =~= old(out)@ + named_block_text(indent, *block));
    } else {
        push_str(out, " {\n");
        proof {
            assert(decreases_to!(block => block.directives));
        }
        format_directives_or_blocks(out, &block.directives, deeper(indent));
        write_indent(out, indent);
        push_str(out, "}\n");
        assert(final(out)@ =~= old(out)@ + named_block_text(indent, *block));
    }
}

/// The schedule line without indentation, options or line break; the
/// canonical DSL form that re-parses to the same schedule.
pub open spec fn spec_schedule_line(kind: ScheduleKind) -> Seq<char> {
    match kind {
        ScheduleKind::Interval { count, unit } => "every "@ + spec_interval_phrase(count as nat, match unit {
            IntervalUnit::Seconds => "second"@,
            IntervalUnit::Minutes => "minute"@,
            IntervalUnit::Hours => "hour"@,
        }),
        ScheduleKind::Daily { time } => "every day at "@ + time.raw@,
        ScheduleKind::Weekdays { days, time } => "every "@ + spec_weekday_list(days@) + " at "@ + time.raw@,
        ScheduleKind::Monthly { ordinals, time } => "every "@ + join_space(ordinals@.map_values(|o: MonthOrdinal| spec_month_ordinal_text(o))) + " of month at "@ + time.raw@,
        ScheduleKind::Once { at } => "once at "@ + spec_string_value(at),
        ScheduleKind::Disabled => "disabled"@,
    }
}

/// The canonical one-line DSL form of a schedule (`every 5 minutes`,
/// `every Mon..Wed at 09:00`, `every 1st 15th of month at 10:00`).
pub fn format_schedule_line(kind: &ScheduleKind) -> (s: String)
    ensures
        s@ == spec_schedule_line(*kind),
{
    let mut out = String::new();
    match kind {
        ScheduleKind::Interval { count, unit } => {
            push_str(&mut out, "every ");
            let unit_str = match unit {
                IntervalUnit::Seconds => "second",
                IntervalUnit::Minutes => "minute",
                IntervalUnit::Hours => "hour",
            };
            let phrase = interval_phrase(*count as u64, unit_str);
            push_str(&mut out, phrase.as_str());
        },
        ScheduleKind::Daily { time } => {
            push_str(&mut out, "every day at ");
            push_str(&mut out, time.raw.as_str());
        },
        ScheduleKind::Weekdays { days, time } => {
            push_str(&mut out, "every ");
            let list = format_weekday_list(days.as_slice());
            push_str(&mut out, list.as_str());
            push_str(&mut out, " at ");
            push_str(&mut out, time.raw.as_str());
        },
        ScheduleKind::Monthly { ordinals, time } => {
            push_str(&mut out, "every ");
            let ghost texts = ordinals@.map_values(|o: MonthOrdinal| spec_month_ordinal_text(o));
            let ghost base = out@;
            let mut i: usize = 0;
            while i < ordinals.len()
                invariant
                    i <= ordinals@.len(),
                    texts == ordinals@.map_values(|o: MonthOrdinal| spec_month_ordinal_text(o)),
                    out@ == base + join_space(texts.take(i as int)),
                decreases ordinals@.len() - i,
            {
                let mut part = String::new();
                match ordinals[i] {
                    MonthOrdinal::Day(d) => {
                        part = format_ordinal(d);
                    },
                    MonthOrdinal::Last => {
                        push_str(&mut part, "last");
                    },
                }
                let ghost before = out@;
                if i > 0 {
                    push_char(&mut out, ' ');
                }
                push_str(&mut out, part.as_str());
                proof {
                    assert(texts.take(i + 1).drop_last() =~= texts.take(i as int));
                    assert(texts.take(i + 1).last() == part@);
                    reveal_strlit(" ");
                }
                i = i + 1;
                assert(out@ =~= base + join_space(texts.take(i as int)));
            }
            assert(texts.take(ordinals@.len() as int) =~= texts);
            push_str(&mut out, " of month at ");
            push_str(&mut out, time.raw.as_str());
        },
        ScheduleKind::Once { at } => {
            push_str(&mut out, "once at ");
            push_string_value(&mut out, at);
        },
        ScheduleKind::Disabled => {
            push_str(&mut out, "disabled");
        },
    }
    out
}

/// A schedule line at `indent`, with its options block when it has one.
pub open spec fn schedule_text(indent: usize, s: ScheduleNode) -> Seq<char> {
    indent_text(indent as nat) + spec_schedule_line(s.kind) + if s.options@.len() == 0 && s.option_comments@.len() == 0 {
        seq!['\n']
    } else {
        " {\n"@ + commented_directives_text(spec_deeper(indent), s.options@, s.option_comments@, s.options@.len() as int)
            + indent_text(indent as nat) + "}\n"@
    }
}

fn format_schedule(out: &mut String, sched: &ScheduleNode, indent: usize)
    ensures
        final(out)@ == old(out)@ + schedule_text(indent, *sched),
{
    write_indent(out, indent);
    let line = format_schedule_line(&sched.kind);
    push_str(out, line.as_str());
    if sched.options.len() == 0 && sched.option_comments.len() == 0 {
        push_char(out, '\n');
    } else {
        push_str(out, " {\n");
        format_commented_directives(out, &sched.options, &sched.option_comments, deeper(indent));
        write_indent(out, indent);
        push_str(out, "}\n");
    }
    assert(final(out)@ =~= old(out)@ + schedule_text(indent, *sched));
}

/// The first `description` directive of a job body from entry `i` on.
pub open spec fn first_description_from(items: Seq<DirectiveOrBlock>, i: int) -> Option<Directive>
    decreases items.len() - i,
{
    if i < 0 || i >= items.len() {
        None
    } else {
        match items[i] {
            DirectiveOrBlock::Directive(d) => if d.key.value@ == "description"@ {
                Some(d)
            } else {
                first_description_from(items, i + 1)
            },
            _ => first_description_from(items, i + 1),
        }
    }
}

/// An entry that is a `description` directive.
pub open spec fn is_description(item: DirectiveOrBlock) -> bool {
    match item {
        DirectiveOrBlock::Directive(d) => d.key.value@ == "description"@,
        _ => false,
    }
}

/// The description line (and the blank line after it) that opens a job;
/// a `description` without a value is written bare.
pub open spec fn description_text(indent: usize, job: JobBlock) -> Seq<char> {
    match first_description_from(job.directives@, 0) {
        Some(d) => if d.args@.len() > 0 {
            indent_text(spec_deeper(indent) as nat) + "description "@ + spec_string_value(d.args@[0])
                + seq!['\n', '\n']
        } else {
            indent_text(spec_deeper(indent) as nat) + "description"@ + seq!['\n', '\n']
        },
        None => Seq::empty(),
    }
}

/// The first `n` entries of a job body that are not `description`.
pub open spec fn job_rest_text(indent: usize, items: Seq<DirectiveOrBlock>, n: int) -> Seq<char>
    decreases n,
{
    if n <= 0 {
        Seq::empty()
    } else {
        job_rest_text(indent, items, n - 1) + if is_description(items[n - 1]) {
            Seq::empty()
        } else {
            dob_text(indent, items[n - 1])
        }
    }
}

/// How a job key is written: quoted (and escaped) when it was quoted in
/// the source, as is otherwise.
pub open spec fn key_source(k: crate::ast::JobKey) -> Seq<char> {
    if k.quoted {
        seq!['"'] + escape_quoted(k.raw@) + seq!['"']
    } else {
        k.raw@
    }
}

/// A job: description first, then the schedule, then the other entries.
pub open spec fn job_text(indent: usize, job: JobBlock) -> Seq<char> {
    "job "@ + key_source(job.key) + " {\n"@ + description_text(indent, job) + match job.schedule {
        Some(s) => schedule_text(spec_deeper(indent), s),
        None => Seq::empty(),
    } + job_rest_text(spec_deeper(indent), job.directives@, job.directives@.len() as int)
        + "}\n"@
}

/// Appends `job ` and the key as written.
fn push_job_key(out: &mut String, key: &crate::ast::JobKey)
    ensures
        final(out)@ == old(out)@ + "job "@ + key_source(*key),
{
    push_str(out, "job ");
    if key.quoted {
        let sv = StringValue { value: key.raw.clone(), quoted: true, is_placeholder: false, span: key.span };
        push_string_value(out, &sv);
    } else {
        push_str(out, key.raw.as_str());
    }
}

#[verifier::spinoff_prover]
#[verifier::rlimit(30)]
fn format_job(out: &mut String, job: &JobBlock, indent: usize)
    ensures
        final(out)@ == old(out)@ + job_text(indent, *job),
{
    push_job_key(out, &job.key);
    push_str(out, " {\n");
    assert(out@ == old(out)@ + ("job "@ + key_source(job.key) + " {\n"@));
    let ghost start = out@;
    match find_description(&job.directives) {
        Some(k) => {
            match &job.directives[k] {
                DirectiveOrBlock::Directive(d) => {
                    write_indent(out, deeper(indent));
                    if d.args.len() > 0 {
                        push_str(out, "description ");
                        push_string_value(out, &d.args[0]);
                    } else {
                        push_str(out, "description");
                    }
                    push_char(out, '\n');
                    push_char(out, '\n');
                },
                _ => {},
            }
        },
        None => {},
    }
    assert(out@ =~= start + description_text(indent, *job));
    let ghost items = job.directives@;
    match &job.schedule {
        Some(sched) => format_schedule(out, sched, deeper(indent)),
        None => {},
    }
    let ghost rest = out@;
    let mut i: usize = 0;
    while i < job.directives.len()
        invariant
            i <= items.len(),
            items == job.directives@,
            out@ == rest + job_rest_text(spec_deeper(indent), items, i as int),
        decreases items.len() - i,
    {
        let skip = match &job.directives[i] {
            DirectiveOrBlock::Directive(d) => crate::text::str_eq(d.key.value.as_str(), "description"),
            _ => false,
        };
        if !skip {
            format_directive_or_block(out, &job.directives[i], deeper(indent));
        }
        i = i + 1;
        assert(out@ =~= rest + job_rest_text(spec_deeper(indent), items, i as int));
    }
    push_str(out, "}\n");
    assert(final(out)@ =~= old(out)@ + job_text(indent, *job));
}

/// The arguments of a calendar rule read as days, when all of them are.
pub open spec fn parse_days(args: Seq<StringValue>, n: int) -> Option<Seq<Weekday>>
    decreases n,
{
    if n <= 0 {
        Some(Seq::empty())
    } else {
        match parse_days(args, n - 1) {
            Some(ds) => match spec_parse_weekday(args[n - 1].value@) {
                Some(d) => Some(ds.push(d)),
                None => None,
            },
            None => None,
        }
    }
}

/// The first `n` arguments, each preceded by a space.
pub open spec fn args_text(args: Seq<StringValue>, n: int) -> Seq<char>
    decreases n,
{
    if n <= 0 {
        Seq::empty()
    } else {
        args_text(args, n - 1) + seq![' '] + spec_string_value(args[n - 1])
    }
}

/// A calendar rule line. A `weekly` rule whose arguments all name days is
/// written in the compact weekday form; any other rule keeps its arguments.
pub open spec fn calendar_rule_text(indent: usize, r: CalendarRule) -> Seq<char> {
    let head = indent_text(indent as nat) + match r.kind {
        CalendarRuleKind::Include => "include"@,
        CalendarRuleKind::Exclude => "exclude"@,
    } + seq![' '] + spec_string_value(r.rule_type);
    let n = r.args@.len() as int;
    if lower(r.rule_type.value@) == "weekly"@ && parse_days(r.args@, n) is Some && n > 0 {
        head + seq![' '] + spec_weekday_list(parse_days(r.args@, n)->0) + seq!['\n']
    } else {
        head + args_text(r.args@, n) + seq!['\n']
    }
}

proof fn lemma_indent_text_len(level: nat)
    ensures
        indent_text(level).len() == 2 * level,
    decreases level,
{
    if level > 0 {
        lemma_indent_text_len((level - 1) as nat);
    }
}

/// A calendar rule keeps its kind when written: after its indentation the
/// line starts with `include` or `exclude` and a space, and the word is
/// `exclude` exactly for an excluding rule, which is how the parser reads
/// a rule's kind back.
pub proof fn lemma_rule_line_keeps_kind(indent: usize, r: CalendarRule)
    ensures
        ({
            let t = calendar_rule_text(indent, r);
            let k = 2 * indent as int;
            &&& t.len() > k + 8
            &&& t.subrange(k, k + 7) == "include"@ || t.subrange(k, k + 7) == "exclude"@
            &&& t[k + 7] == ' '
            &&& (t.subrange(k, k + 7) == "exclude"@) == (r.kind == CalendarRuleKind::Exclude)
            &&& t.subrange(k + 8, k + 8 + spec_string_value(r.rule_type).len()) == spec_string_value(r.rule_type)
            &&& t.last() == '\n'
        }),
{
    reveal_strlit("include");
    reveal_strlit("exclude");
    lemma_indent_text_len(indent as nat);
    let t = calendar_rule_text(indent, r);
    let k = 2 * indent as int;
    let word = if r.kind == CalendarRuleKind::Exclude {
        "exclude"@
    } else {
        "include"@
    };
    let head = indent_text(indent as nat) + word + seq![' '] + spec_string_value(r.rule_type);
    let n = r.args@.len() as int;
    let tail = if lower(r.rule_type.value@) == "weekly"@ && parse_days(r.args@, n) is Some && n > 0 {
        seq![' '] + spec_weekday_list(parse_days(r.args@, n)->0) + seq!['\n']
    } else {
        args_text(r.args@, n) + seq!['\n']
    };
    assert(t == head + tail);
    assert(t.subrange(k, k + 7) =~= word);
    assert(t[k + 7] == ' ');
    assert(t.subrange(k + 8, k + 8 + spec_string_value(r.rule_type).len()) =~= spec_string_value(r.rule_type));
    assert("include"@[0] == 'i' && "exclude"@[0] == 'e');
    assert(tail.len() > 0);
}

fn format_calendar_rule(out: &mut String, rule: &CalendarRule, indent: usize)
    ensures
        final(out)@ == old(out)@ + calendar_rule_text(indent, *rule),
{
    write_indent(out, indent);
    match rule.kind {
        CalendarRuleKind::Include => push_str(out, "include"),
        CalendarRuleKind::Exclude => push_str(out, "exclude"),
    }
    push_char(out, ' ');
    push_string_value(out, &rule.rule_type);
    let ghost head = out@;
    let ghost args = rule.args@;
    let n = rule.args.len();
    let lowered = lower_chars(chars_of(rule.rule_type.value.as_str()).as_slice());
    if chars_is(lowered.as_slice(), "weekly") {
        let mut days: Vec<Weekday> = Vec::new();
        let mut ok = true;
        let mut i: usize = 0;
        while i < n
            invariant
                i <= n,
                n == args.len(),
                args == rule.args@,
                ok == parse_days(args, i as int) is Some,
                ok ==> parse_days(args, i as int) == Some(days@),
            decreases n - i,
        {
            if ok {
                match Weekday::parse(rule.args[i].value.as_str()) {
                    Some(d) => days.push(d),
                    None => {
                        ok = false;
                    },
                }
            }
            i = i + 1;
        }
        if ok && days.len() > 0 {
            push_char(out, ' ');
            let list = format_weekday_list(days.as_slice());
            push_str(out, list.as_str());
            push_char(out, '\n');
            assert(final(out)@ =~= old(out)@ + calendar_rule_text(indent, *rule));
            return;
        }
        proof {
            if ok {
                assert(days@.len() == 0);
                assert(n == 0) by {
                    if n > 0 {
                        lemma_parse_days_len(args, n as int);
                    }
                }
            }
        }
    }
    let mut i: usize = 0;
    while i < n
        invariant
            i <= n,
            n == args.len(),
            args == rule.args@,
            out@ == head + args_text(args, i as int),
        decreases n - i,
    {
        push_char(out, ' ');
        push_string_value(out, &rule.args[i]);
        i = i + 1;
        assert(out@ =~= head + args_text(args, i as int));
    }
    push_char(out, '\n');
    assert(final(out)@ =~= old(out)@ + calendar_rule_text(indent, *rule));
}

proof fn lemma_parse_days_len(args: Seq<StringValue>, n: int)
    requires
        0 <= n,
        parse_days(args, n) is Some,
    ensures
        (parse_days(args, n)->0).len() == n,
    decreases n,
{
    if n > 0 {
        lemma_parse_days_len(args, n - 1);
    }
}

/// The first `n` rules of a calendar, each preceded by the comments that
/// stand before it, and the comments after the `n`th.
pub open spec fn commented_rules_text(indent: usize, rules: Seq<CalendarRule>, cs: Seq<BodyComment>, n: int) -> Seq<char>
    decreases n,
{
    if n <= 0 {
        comments_before(indent, cs, 0, cs.len() as int)
    } else {
        commented_rules_text(indent, rules, cs, n - 1) + calendar_rule_text(indent, rules[n - 1])
            + comments_before(indent, cs, n as nat, cs.len() as int)
    }
}

/// `keyword {`, the directives one level deeper with the comments among
/// them, `}`.
pub open spec fn flat_item_text(keyword: Seq<char>, indent: usize, ds: Seq<Directive>, cs: Seq<BodyComment>) -> Seq<char> {
    keyword + " {\n"@ + commented_directives_text(spec_deeper(indent), ds, cs, ds.len() as int) + "}\n"@
}

/// The first `n` named blocks of an item, each preceded by the comments
/// that stand before it, and the comments after the `n`th.
pub open spec fn commented_blocks_text(indent: usize, blocks: Seq<NamedBlock>, cs: Seq<BodyComment>, n: int) -> Seq<char>
    decreases n,
{
    if n <= 0 {
        comments_before(indent, cs, 0, cs.len() as int)
    } else {
        commented_blocks_text(indent, blocks, cs, n - 1) + named_block_text(indent, blocks[n - 1])
            + comments_before(indent, cs, n as nat, cs.len() as int)
    }
}

/// `keyword {`, the named blocks one level deeper with the comments among
/// them, `}`.
pub open spec fn nested_item_text(keyword: Seq<char>, indent: usize, bs: Seq<NamedBlock>, cs: Seq<BodyComment>) -> Seq<char> {
    keyword + " {\n"@ + commented_blocks_text(spec_deeper(indent), bs, cs, bs.len() as int) + "}\n"@
}

/// The text of one top-level item.
pub open spec fn item_text(indent: usize, item: Item) -> Seq<char> {
    match item {
        Item::Comment(c) => comment_line(indent, c),
        Item::Import(i) => "import "@ + spec_string_value(i.path) + seq!['\n'],
        Item::Server(s) => flat_item_text("server"@, indent, s.directives@, s.comments@),
        Item::Smtp(s) => flat_item_text("smtp"@, indent, s.directives@, s.comments@),
        Item::PullApi(p) => flat_item_text("pull_api"@, indent, p.directives@, p.comments@),
        Item::Observability(o) => nested_item_text("observability"@, indent, o.sub_blocks@, o.comments@),
        Item::Mcp(m) => flat_item_text("mcp"@, indent, m.directives@, m.comments@),
        Item::Oidc(o) => flat_item_text("oidc"@, indent, o.directives@, o.comments@),
        Item::Auth(a) => nested_item_text("auth"@, indent, a.sub_blocks@, a.comments@),
        Item::Policy(p) => flat_item_text("policy"@, indent, p.directives@, p.comments@),
        Item::Alerts(a) => nested_item_text("alerts"@, indent, a.sub_blocks@, a.comments@),
        Item::Vars(v) => flat_item_text("vars"@, indent, v.entries@, v.comments@),
        Item::Defaults(d) => "defaults {\n"@ + dobs_text(
            spec_deeper(indent),
            d.directives,
            d.directives@.len() as int,
        ) + "}\n"@,
        Item::Calendar(c) => "calendar "@ + spec_string_value(c.name) + " {\n"@ + commented_rules_text(
            spec_deeper(indent),
            c.rules@,
            c.comments@,
            c.rules@.len() as int,
        ) + "}\n"@,
        Item::ConcurrencyGroup(g) => "concurrency_group "@ + spec_string_value(g.name) + " {\n"@
            + commented_directives_text(spec_deeper(indent), g.directives@, g.comments@, g.directives@.len() as int)
            + "}\n"@,
        Item::Job(j) => job_text(indent, j),
    }
}

fn format_directive_item(out: &mut String, keyword: &str, directives: &Vec<Directive>, cs: &Vec<BodyComment>, indent: usize)
    ensures
        final(out)@ == old(out)@ + flat_item_text(keyword@, indent, directives@, cs@),
{
    push_str(out, keyword);
    push_str(out, " {\n");
    format_commented_directives(out, directives, cs, deeper(indent));
    push_str(out, "}\n");
    assert(final(out)@ =~= old(out)@ + flat_item_text(keyword@, indent, directives@, cs@));
}

fn format_sub_block_item(out: &mut String, keyword: &str, blocks: &Vec<NamedBlock>, cs: &Vec<BodyComment>, indent: usize)
    ensures
        final(out)@ == old(out)@ + nested_item_text(keyword@, indent, blocks@, cs@),
{
    push_str(out, keyword);
    push_str(out, " {\n");
    let ghost start = out@;
    let inner = deeper(indent);
    format_comments_before(out, cs, 0, inner);
    let mut i: usize = 0;
    while i < blocks.len()
        invariant
            i <= blocks@.len(),
            inner == spec_deeper(indent),
            out@ == start + commented_blocks_text(inner, blocks@, cs@, i as int),
        decreases blocks@.len() - i,
    {
        format_named_block(out, &blocks[i], inner);
        format_comments_before(out, cs, i + 1, inner);
        i = i + 1;
        assert(out@ =~= start + commented_blocks_text(inner, blocks@, cs@, i as int));
    }
    push_str(out, "}\n");
    assert(final(out)@ =~= old(out)@ + nested_item_text(keyword@, indent, blocks@, cs@));
}

fn format_item(out: &mut String, item: &Item, indent: usize)
    ensures
        final(out)@ == old(out)@ + item_text(indent, *item),
{
    match item {
        Item::Comment(c) => format_comment(out, c, indent),
        Item::Import(i) => {
            push_str(out, "import ");
            push_string_value(out, &i.path);
            push_char(out, '\n');
            assert(final(out)@ =~= old(out)@ + item_text(indent, *item));
        },
        Item::Server(s) => format_directive_item(out, "server", &s.directives, &s.comments, indent),
        Item::Smtp(s) => format_directive_item(out, "smtp", &s.directives, &s.comments, indent),
        Item::PullApi(p) => format_directive_item(out, "pull_api", &p.directives, &p.comments, indent),
        Item::Observability(o) => format_sub_block_item(out, "observability", &o.sub_blocks, &o.comments, indent),
        Item::Mcp(m) => format_directive_item(out, "mcp", &m.directives, &m.comments, indent),
        Item::Oidc(o) => format_directive_item(out, "oidc", &o.directives, &o.comments, indent),
        Item::Auth(a) => format_sub_block_item(out, "auth", &a.sub_blocks, &a.comments, indent),
        Item::Policy(p) => format_directive_item(out, "policy", &p.directives, &p.comments, indent),
        Item::Alerts(a) => format_sub_block_item(out, "alerts", &a.sub_blocks, &a.comments, indent),
        Item::Vars(v) => format_directive_item(out, "vars", &v.entries, &v.comments, indent),
        Item::Defaults(d) => {
            push_str(out, "defaults {\n");
            format_directives_or_blocks(out, &d.directives, deeper(indent));
            push_str(out, "}\n");
            assert(final(out)@ =~= old(out)@ + item_text(indent, *item));
        },
        Item::Calendar(c) => {
            push_str(out, "calendar ");
            push_string_value(out, &c.name);
            push_str(out, " {\n");
            let ghost start = out@;
            let inner = deeper(indent);
            format_comments_before(out, &c.comments, 0, inner);
            let mut i: usize = 0;
            while i < c.rules.len()
                invariant
                    i <= c.rules@.len(),
                    inner == spec_deeper(indent),
                    out@ == start + commented_rules_text(inner, c.rules@, c.comments@, i as int),
                decreases c.rules@.len() - i,
            {
                format_calendar_rule(out, &c.rules[i], inner);
                format_comments_before(out, &c.comments, i + 1, inner);
                i = i + 1;
                assert(out@ =~= start + commented_rules_text(inner, c.rules@, c.comments@, i as int));
            }
            push_str(out, "}\n");
            assert(final(out)@ =~= old(out)@ + item_text(indent, *item));
        },
        Item::ConcurrencyGroup(g) => {
            push_str(out, "concurrency_group ");
            push_string_value(out, &g.name);
            push_str(out, " {\n");
            format_commented_directives(out, &g.directives, &g.comments, deeper(indent));
            push_str(out, "}\n");
            assert(final(out)@ =~= old(out)@ + item_text(indent, *item));
        },
        Item::Job(j) => format_job(out, j, indent),
    }
}

/// The first `n` items, a blank line before each item after the first
/// unless it is a comment.
pub open spec fn items_text(items: Seq<Item>, n: int) -> Seq<char>
    decreases n,
{
    if n <= 0 {
        Seq::empty()
    } else {
        items_text(items, n - 1) + (if n - 1 > 0 && !(items[n - 1] is Comment) {
            seq!['\n']
        } else {
            Seq::empty()
        }) + item_text(0, items[n - 1])
    }
}

/// The formatted text of a whole file: the items, then a line break if
/// the text does not already end with one.
pub open spec fn spec_format(ast: Croniqfile) -> Seq<char> {
    let body = items_text(ast.items@, ast.items@.len() as int);
    if body.len() == 0 || body.last() != '\n' {
        body.push('\n')
    } else {
        body
    }
}

/// The formatted text of a file is never empty and always ends with a
/// line break.
pub proof fn lemma_format_ends_with_newline(ast: Croniqfile)
    ensures
        spec_format(ast).len() > 0,
        spec_format(ast).last() == '\n',
{
}

/// Where the first `description` directive of a job body stands.
fn find_description(items: &Vec<DirectiveOrBlock>) -> (r: Option<usize>)
    ensures
        match r {
            Some(k) => k < items@.len() && (match items@[k as int] {
                DirectiveOrBlock::Directive(d) => first_description_from(items@, 0) == Some(d),
                _ => false,
            }),
            None => first_description_from(items@, 0) is None,
        },
{
    let mut i: usize = 0;
    while i < items.len()
        invariant
            i <= items@.len(),
            first_description_from(items@, 0) == first_description_from(items@, i as int),
        decreases items@.len() - i,
    {
        match &items[i] {
            DirectiveOrBlock::Directive(d) => {
                if crate::text::str_eq(d.key.value.as_str(), "description") {
                    return Some(i);
                }
            },
            _ => {},
        }
        i = i + 1;
    }
    None
}

/// Format a Croniqfile syntax tree back to source text: items separated
/// by a blank line (comments attach to what follows), each block in its
/// canonical layout, the text ending with a line break.
pub fn format(ast: &Croniqfile) -> (s: String)
    ensures
        s@ == spec_format(*ast),
{
    let mut out = String::new();
    let mut i: usize = 0;
    while i < ast.items.len()
        invariant
            i <= ast.items@.len(),
            out@ == items_text(ast.items@, i as int),
        decreases ast.items@.len() - i,
    {
        let is_comment = matches!(ast.items[i], Item::Comment(_));
        if i > 0 && !is_comment {
            push_char(&mut out, '\n');
        }
        format_item(&mut out, &ast.items[i], 0);
        i = i + 1;
        assert(out@ =~= items_text(ast.items@, i as int));
    }
    let n = chars_of(out.as_str());
    if n.len() == 0 || n[n.len() - 1] != '\n' {
        push_char(&mut out, '\n');
    }
    out
}

} // verus!
