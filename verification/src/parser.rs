//! Recursive-descent parser for Croniqfile source.

use vstd::prelude::*;
use crate::ast::{
    croniqfile_ok, item_ok, job_key_ok, job_ok, ordinal_ok, schedule_kind_ok,
    spec_compact_interval, spec_ordinal, spec_parse_group, spec_parse_token, spec_parse_weekday, spec_time,
    spec_weekday_range, time_ok, weekday_at, weekday_index, full_name, BodyComment, AlertsBlock, AuthBlock,
    CalendarBlock, CalendarRule, CalendarRuleKind, CommentNode, ConcurrencyGroupBlock,
    Croniqfile, DefaultsBlock, Directive, DirectiveOrBlock, Import, IntervalUnit, Item, JobBlock,
    JobKey, McpBlock, MonthOrdinal, NamedBlock, ObservabilityBlock, OidcBlock, PolicyBlock,
    PullApiBlock, ScheduleKind, ScheduleMode, ScheduleNode, ServerBlock, SmtpBlock, StringValue,
    TimeValue, VarsBlock, Weekday,
};
use crate::lexer::{
    spec_merge, spec_text, spec_tokenize, span_end, tokens_ok, tokens_view, LexError, Lexer, Span,
    Token, TokenKind,
};
use crate::text::{
    chars_ends_with, chars_is, chars_of, decimal_string, lemma_split_on_facts, lower_chars,
    parse_u32, push_str, slice_chars, spec_parse_uint, split_chars, split_on, string_of, decimal, lower,
};

verus! {

/// Why a source text is not a Croniqfile.
#[derive(Debug, Clone, PartialEq, Eq)]
pub enum ParseError {
    /// A free-form message.
    General { message: String, span: Span },
    /// `unexpected token: expected {expected}, got {got}`
    Unexpected { expected: String, got: String, span: Span },
    /// A job key that is not `namespace:name` or `namespace:name:variant`.
    InvalidJobKey { key: String, span: Span },
    /// A time that is not `HH:MM` within a day.
    InvalidTime { value: String, span: Span },
    /// A monthly ordinal that is not `1st` … `31st` or `last`.
    InvalidOrdinal { value: String, span: Span },
    /// The source could not be tokenized.
    Lex(LexError),
}

/// The diagnostic text of a lexing error.
pub open spec fn lex_error_text(e: LexError) -> Seq<char> {
    match e {
        LexError::UnterminatedString { .. } => "unterminated string"@,
        LexError::UnterminatedPlaceholder { .. } => "unterminated placeholder"@,
        LexError::InvalidEscape { ch, .. } => "invalid escape sequence '\\"@ + seq![ch] + "'"@,
        LexError::UnexpectedCharacter { ch, .. } => "unexpected character '"@ + seq![ch] + "'"@,
    }
}

/// The diagnostic text of a parse error.
pub open spec fn parse_error_text(e: ParseError) -> Seq<char> {
    match e {
        ParseError::General { message, .. } => message@,
        ParseError::Unexpected { expected, got, .. } => "unexpected token: expected "@ + expected@
            + ", got "@ + got@,
        ParseError::InvalidJobKey { key, .. } => "invalid job key '"@ + key@
            + "': expected namespace:name or namespace:name:variant"@,
        ParseError::InvalidTime { value, .. } => "invalid time '"@ + value@ + "': expected HH:MM"@,
        ParseError::InvalidOrdinal { value, .. } => "invalid ordinal '"@ + value@
            + "': expected 1st, 2nd, 3rd, ... or 'last'"@,
        ParseError::Lex(l) => lex_error_text(l),
    }
}

impl ParseError {
    /// The diagnostic text of this error.
    pub fn message(&self) -> (s: String)
        ensures
            s@ == parse_error_text(*self),
    {
        let mut out = String::new();
        match self {
            ParseError::General { message, .. } => push_str(&mut out, message.as_str()),
            ParseError::Unexpected { expected, got, .. } => {
                push_str(&mut out, "unexpected token: expected ");
                push_str(&mut out, expected.as_str());
                push_str(&mut out, ", got ");
                push_str(&mut out, got.as_str());
            },
            ParseError::InvalidJobKey { key, .. } => {
                push_str(&mut out, "invalid job key '");
                push_str(&mut out, key.as_str());
                push_str(&mut out, "': expected namespace:name or namespace:name:variant");
            },
            ParseError::InvalidTime { value, .. } => {
                push_str(&mut out, "invalid time '");
                push_str(&mut out, value.as_str());
                push_str(&mut out, "': expected HH:MM");
            },
            ParseError::InvalidOrdinal { value, .. } => {
                push_str(&mut out, "invalid ordinal '");
                push_str(&mut out, value.as_str());
                push_str(&mut out, "': expected 1st, 2nd, 3rd, ... or 'last'");
            },
            ParseError::Lex(e) => {
                match e {
                    LexError::UnterminatedString { .. } => push_str(&mut out, "unterminated string"),
                    LexError::UnterminatedPlaceholder { .. } => push_str(&mut out, "unterminated placeholder"),
                    LexError::InvalidEscape { ch, .. } => {
                        push_str(&mut out, "invalid escape sequence '\\");
                        crate::text::push_char(&mut out, *ch);
                        push_str(&mut out, "'");
                        assert(out@ =~= "invalid escape sequence '\\"@ + seq![*ch] + "'"@);
                    },
                    LexError::UnexpectedCharacter { ch, .. } => {
                        push_str(&mut out, "unexpected character '");
                        crate::text::push_char(&mut out, *ch);
                        push_str(&mut out, "'");
                        assert(out@ =~= "unexpected character '"@ + seq![*ch] + "'"@);
                    },
                }
            },
        }
        out
    }
}

/// `a` followed by `b` and `c`.
fn concat3(a: &str, b: &str, c: &str) -> (s: String)
    ensures
        s@ == a@ + b@ + c@,
{
    let mut s = String::new();
    push_str(&mut s, a);
    push_str(&mut s, b);
    push_str(&mut s, c);
    s
}

/// A span whose end fits in a `usize`.
pub open spec fn span_ok(s: Span) -> bool {
    span_end(s) <= usize::MAX
}

/// The merged span of two spans that fit also fits.
proof fn lemma_merge_ok(a: Span, b: Span)
    requires
        span_ok(a),
        span_ok(b),
    ensures
        span_ok(spec_merge(a, b)),
{
}

/// The first index from `i` whose token is not a line break.
pub open spec fn skip_newline_tokens(ts: Seq<Token>, i: int) -> int
    decreases ts.len() - i,
{
    if 0 <= i < ts.len() && ts[i].kind is Newline {
        skip_newline_tokens(ts, i + 1)
    } else {
        i
    }
}

/// The first index from `i` whose token is neither a line break nor `;`.
pub open spec fn skip_terminator_tokens(ts: Seq<Token>, i: int) -> int
    decreases ts.len() - i,
{
    if 0 <= i < ts.len() && (ts[i].kind is Newline || ts[i].kind is Semicolon) {
        skip_terminator_tokens(ts, i + 1)
    } else {
        i
    }
}

/// Skipping line breaks from `i` stays within `i..=len`.
pub proof fn lemma_skip_newline_bounds(ts: Seq<Token>, i: int)
    requires
        0 <= i <= ts.len(),
    ensures
        i <= skip_newline_tokens(ts, i) <= ts.len(),
    decreases ts.len() - i,
{
    if i < ts.len() && ts[i].kind is Newline {
        lemma_skip_newline_bounds(ts, i + 1);
    }
}

/// Skipping terminators from `i` stays within `i..=len`.
pub proof fn lemma_skip_terminator_bounds(ts: Seq<Token>, i: int)
    requires
        0 <= i <= ts.len(),
    ensures
        i <= skip_terminator_tokens(ts, i) <= ts.len(),
    decreases ts.len() - i,
{
    if i < ts.len() && (ts[i].kind is Newline || ts[i].kind is Semicolon) {
        lemma_skip_terminator_bounds(ts, i + 1);
    }
}

/// The arguments of a directive from token `i` on, as texts (`a..b` read
/// as one argument, marked as its first end is), and the index after them;
/// `None` when a `..` is not followed by a value.
pub open spec fn args_scan(ts: Seq<Token>, i: int) -> Option<(int, Seq<ValueV>)>
    decreases ts.len() - i,
{
    if 0 <= i < ts.len() && is_value_kind(ts[i].kind) {
        if i + 2 < ts.len() && ts[i + 1].kind is DotDot {
            if is_value_kind(ts[i + 2].kind) {
                match args_scan(ts, i + 3) {
                    Some((e, vs)) => Some((e, seq![ValueV {
                        text: spec_text(ts[i].kind) + ".."@ + spec_text(ts[i + 2].kind),
                        span: spec_merge(ts[i].span, ts[i + 2].span),
                        ..token_value(ts[i])
                    }] + vs)),
                    None => None,
                }
            } else {
                None
            }
        } else {
            match args_scan(ts, i + 1) {
                Some((e, vs)) => Some((e, seq![token_value(ts[i])] + vs)),
                None => None,
            }
        }
    } else {
        Some((i, Seq::empty()))
    }
}

/// A directive's arguments read from `i` end within `i..=len`.
pub proof fn lemma_args_scan_bounds(ts: Seq<Token>, i: int)
    requires
        0 <= i <= ts.len(),
    ensures
        args_scan(ts, i) matches Some((e, _)) ==> i <= e <= ts.len(),
    decreases ts.len() - i,
{
    if i < ts.len() && is_value_kind(ts[i].kind) {
        if i + 2 < ts.len() && ts[i + 1].kind is DotDot {
            lemma_args_scan_bounds(ts, i + 3);
        } else {
            lemma_args_scan_bounds(ts, i + 1);
        }
    }
}

/// Where the directive starting at token `j` ends, past its arguments and
/// the terminators after them, and the directive read.
pub open spec fn directive_scan(ts: Seq<Token>, j: int) -> Option<(int, DirectiveV)> {
    if is_value_kind(ts[j].kind) {
        match args_scan(ts, j + 1) {
            Some((e, vs)) => Some((skip_terminator_tokens(ts, e), DirectiveV {
                key: token_value(ts[j]),
                args: vs,
                span: spec_merge(ts[j].span, if vs.len() > 0 { vs.last().span } else { ts[j].span }),
            })),
            None => None,
        }
    } else {
        None
    }
}

/// What reading directives from token `i` up to a `}` (or the end of
/// input) gives: the index of the token that stops it, and the directives
/// read.
pub open spec fn directives_scan(ts: Seq<Token>, i: int) -> Option<(int, Seq<DirectiveV>)>
    decreases ts.len() - i,
{
    let j = skip_newline_tokens(ts, i);
    if 0 <= i <= ts.len() {
        proof {
            lemma_skip_newline_bounds(ts, i);
        }
        if j >= ts.len() {
            None
        } else if ts[j].kind is RBrace || ts[j].kind is Eof {
            Some((j, Seq::empty()))
        } else if ts[j].kind is Comment || ts[j].kind is Semicolon {
            directives_scan(ts, j + 1)
        } else {
            proof {
                lemma_args_scan_bounds(ts, j + 1);
            }
            match directive_scan(ts, j) {
                Some((n, dv)) => {
                    proof {
                        if let Some((e, _)) = args_scan(ts, j + 1) {
                            lemma_skip_terminator_bounds(ts, e);
                        }
                    }
                    match directives_scan(ts, n) {
                        Some((f, ks)) => Some((f, seq![dv] + ks)),
                        None => None,
                    }
                },
                None => None,
            }
        }
    } else {
        None
    }
}

/// The comments of a body of directives read from token `i` up to a `}`
/// (or the end of input), `k` directives having been read before: each
/// with the number of directives before it and its text.
pub open spec fn body_comments(ts: Seq<Token>, i: int, k: nat) -> Seq<(nat, Seq<char>)>
    decreases ts.len() - i,
{
    let j = skip_newline_tokens(ts, i);
    if 0 <= i <= ts.len() {
        proof {
            lemma_skip_newline_bounds(ts, i);
        }
        if j >= ts.len() || ts[j].kind is RBrace || ts[j].kind is Eof {
            Seq::empty()
        } else if ts[j].kind is Comment {
            seq![(k, comment_text(ts[j].kind))] + body_comments(ts, j + 1, k)
        } else if ts[j].kind is Semicolon {
            body_comments(ts, j + 1, k)
        } else {
            proof {
                lemma_args_scan_bounds(ts, j + 1);
            }
            match directive_scan(ts, j) {
                Some((n, _)) => {
                    proof {
                        if let Some((e, _)) = args_scan(ts, j + 1) {
                            lemma_skip_terminator_bounds(ts, e);
                        }
                    }
                    body_comments(ts, n, k + 1)
                },
                None => Seq::empty(),
            }
        }
    } else {
        Seq::empty()
    }
}

/// The comments of a list of body comments: each with the number of
/// entries before it and its text.
pub open spec fn comments_v(cs: Seq<BodyComment>) -> Seq<(nat, Seq<char>)> {
    cs.map_values(|c: BodyComment| (c.before as nat, c.comment.text@))
}

/// The comments of a braced body whose `{` is the first token from `i`
/// past line breaks.
pub open spec fn braced_comments(ts: Seq<Token>, i: int) -> Seq<(nat, Seq<char>)> {
    body_comments(ts, skip_newline_tokens(ts, i) + 1, 0)
}

/// `{ directive … }` whose `{` is the first token from `i` past line
/// breaks: the index of the closing `}` and the directives read.
pub open spec fn braced_directives(ts: Seq<Token>, i: int) -> Option<(int, Seq<DirectiveV>)> {
    let q = skip_newline_tokens(ts, i);
    if ts[q].kind is LBrace {
        match directives_scan(ts, q + 1) {
            Some((e, ks)) => if ts[e].kind is RBrace {
                Some((e, ks))
            } else {
                None
            },
            None => None,
        }
    } else {
        None
    }
}

/// The text of a comment token.
pub open spec fn comment_text(k: TokenKind) -> Seq<char> {
    match k {
        TokenKind::Comment(s) => s@,
        _ => Seq::<char>::empty(),
    }
}

/// What reading one entry of a block body from token `i` gives (after
/// line breaks and `;`): a comment, a `name [qualifier] { … }` block, or
/// a directive. The index after it and the entry read.
pub open spec fn entry_scan(ts: Seq<Token>, i: int) -> Option<(int, EntryV)>
    decreases ts.len() - i, 1int,
{
    if 0 <= i <= ts.len() {
        let j = skip_terminator_tokens(ts, i);
        proof {
            lemma_skip_terminator_bounds(ts, i);
        }
        if j >= ts.len() {
            None
        } else if ts[j].kind is Comment {
            Some((j + 1, EntryV::Comment(comment_text(ts[j].kind))))
        } else if !is_value_kind(ts[j].kind) {
            None
        } else if j + 2 < ts.len() && ts[j + 1].kind is LBrace {
            match entries_scan(ts, j + 2) {
                Some((e, es)) => if ts[e].kind is RBrace {
                    Some((e + 1, EntryV::Block {
                        name: token_value(ts[j]),
                        qualifier: None,
                        entries: es,
                        span: spec_merge(ts[j].span, ts[e].span),
                    }))
                } else {
                    None
                },
                None => None,
            }
        } else if j + 3 < ts.len() && is_value_kind(ts[j + 1].kind) && ts[j + 2].kind is LBrace {
            match entries_scan(ts, j + 3) {
                Some((e, es)) => if ts[e].kind is RBrace {
                    Some((e + 1, EntryV::Block {
                        name: token_value(ts[j]),
                        qualifier: Some(token_value(ts[j + 1])),
                        entries: es,
                        span: spec_merge(ts[j].span, ts[e].span),
                    }))
                } else {
                    None
                },
                None => None,
            }
        } else {
            match directive_scan(ts, j) {
                Some((n, dv)) => Some((n, EntryV::Directive(dv))),
                None => None,
            }
        }
    } else {
        None
    }
}

/// What reading block-body entries from token `i` up to a `}` (or the end
/// of input) gives: the index of the token that stops it, and the entries
/// read.
pub open spec fn entries_scan(ts: Seq<Token>, i: int) -> Option<(int, Seq<EntryV>)>
    decreases ts.len() - i, 2int,
{
    if 0 <= i <= ts.len() {
        let j = skip_newline_tokens(ts, i);
        proof {
            lemma_skip_newline_bounds(ts, i);
        }
        if j >= ts.len() {
            None
        } else if ts[j].kind is RBrace || ts[j].kind is Eof {
            Some((j, Seq::empty()))
        } else {
            match entry_scan(ts, j) {
                Some((n, name)) => if j < n <= ts.len() {
                    match entries_scan(ts, n) {
                        Some((e, names)) => Some((e, seq![name] + names)),
                        None => None,
                    }
                } else {
                    None
                },
                None => None,
            }
        }
    } else {
        None
    }
}

/// `{ entry … }` whose `{` is the first token from `i` past line breaks:
/// the index of the closing `}` and the entries read.
pub open spec fn braced_entries(ts: Seq<Token>, i: int) -> Option<(int, Seq<EntryV>)> {
    let q = skip_newline_tokens(ts, i);
    if ts[q].kind is LBrace {
        match entries_scan(ts, q + 1) {
            Some((e, names)) => if ts[e].kind is RBrace {
                Some((e, names))
            } else {
                None
            },
            None => None,
        }
    } else {
        None
    }
}

/// What reading `name { … }` sub-blocks from token `i` up to a `}` (or the
/// end of input) gives, comments skipped; with `qualified`, each name is
/// followed by a qualifier (`channel "ops" { … }`). The index of the token
/// that stops it, and the sub-blocks read.
pub open spec fn sub_blocks_scan(ts: Seq<Token>, i: int, qualified: bool) -> Option<(int, Seq<EntryV>)>
    decreases ts.len() - i,
{
    if 0 <= i <= ts.len() {
        let j = skip_newline_tokens(ts, i);
        proof {
            lemma_skip_newline_bounds(ts, i);
        }
        let k = if qualified { j + 2 } else { j + 1 };
        if j >= ts.len() {
            None
        } else if ts[j].kind is RBrace || ts[j].kind is Eof {
            Some((j, Seq::empty()))
        } else if ts[j].kind is Comment {
            sub_blocks_scan(ts, j + 1, qualified)
        } else if is_value_kind(ts[j].kind) && (qualified ==> !(ts[j + 1].kind is LBrace) && is_value_kind(ts[j + 1].kind)) {
            match braced_entries(ts, k) {
                Some((e, es)) => if j < e < ts.len() {
                    let b = EntryV::Block {
                        name: token_value(ts[j]),
                        qualifier: if qualified { Some(token_value(ts[j + 1])) } else { None },
                        entries: es,
                        span: spec_merge(ts[j].span, ts[e].span),
                    };
                    match sub_blocks_scan(ts, e + 1, qualified) {
                        Some((f, names)) => Some((f, seq![b] + names)),
                        None => None,
                    }
                } else {
                    None
                },
                None => None,
            }
        } else {
            None
        }
    } else {
        None
    }
}

/// The comments among sub-blocks read from token `i` on (as
/// `sub_blocks_scan` reads them), each with the number of sub-blocks
/// before it, counting from `k`.
pub open spec fn sub_block_comments(ts: Seq<Token>, i: int, qualified: bool, k: nat) -> Seq<(nat, Seq<char>)>
    decreases ts.len() - i,
{
    if 0 <= i <= ts.len() {
        let j = skip_newline_tokens(ts, i);
        proof {
            lemma_skip_newline_bounds(ts, i);
        }
        let m = if qualified { j + 2 } else { j + 1 };
        if j >= ts.len() || ts[j].kind is RBrace || ts[j].kind is Eof {
            Seq::empty()
        } else if ts[j].kind is Comment {
            seq![(k, comment_text(ts[j].kind))] + sub_block_comments(ts, j + 1, qualified, k)
        } else if is_value_kind(ts[j].kind) && (qualified ==> !(ts[j + 1].kind is LBrace) && is_value_kind(ts[j + 1].kind)) {
            match braced_entries(ts, m) {
                Some((e, _)) => if j < e < ts.len() {
                    sub_block_comments(ts, e + 1, qualified, k + 1)
                } else {
                    Seq::empty()
                },
                None => Seq::empty(),
            }
        } else {
            Seq::empty()
        }
    } else {
        Seq::empty()
    }
}

/// The comments among the sub-blocks of `{ sub-block … }` whose `{` is the
/// first token from `i` past line breaks.
pub open spec fn braced_sub_block_comments(ts: Seq<Token>, i: int, qualified: bool) -> Seq<(nat, Seq<char>)> {
    let q = skip_newline_tokens(ts, i);
    if ts[q].kind is LBrace {
        sub_block_comments(ts, q + 1, qualified, 0)
    } else {
        Seq::empty()
    }
}

/// `{ sub-block … }` whose `{` is the first token from `i` past line
/// breaks: the index of the closing `}` and the sub-blocks read.
pub open spec fn braced_sub_blocks(ts: Seq<Token>, i: int, qualified: bool) -> Option<(int, Seq<EntryV>)> {
    let q = skip_newline_tokens(ts, i);
    if ts[q].kind is LBrace {
        match sub_blocks_scan(ts, q + 1, qualified) {
            Some((e, names)) => if ts[e].kind is RBrace {
                Some((e, names))
            } else {
                None
            },
            None => None,
        }
    } else {
        None
    }
}

/// An entry of a block body: a directive, a named block (with an optional
/// qualifier and its own entries), or a comment's text.
pub enum EntryV {
    Directive(DirectiveV),
    Block { name: ValueV, qualifier: Option<ValueV>, entries: Seq<EntryV>, span: Span },
    Comment(Seq<char>),
}

/// The view of an optional value.
pub open spec fn opt_value_v(v: Option<StringValue>) -> Option<ValueV> {
    match v {
        Some(x) => Some(value_v(x)),
        None => None,
    }
}

/// The view of an entry of a block body.
pub open spec fn entry_v(d: DirectiveOrBlock) -> EntryV
    decreases d,
{
    match d {
        DirectiveOrBlock::Directive(x) => EntryV::Directive(directive_v(x)),
        DirectiveOrBlock::Block(b) => EntryV::Block {
            name: value_v(b.name),
            qualifier: opt_value_v(b.qualifier),
            entries: entries_v(b.directives@),
            span: b.span,
        },
        DirectiveOrBlock::Comment(c) => EntryV::Comment(c.text@),
    }
}

/// The views of a list of entries of a block body.
pub open spec fn entries_v(ds: Seq<DirectiveOrBlock>) -> Seq<EntryV>
    decreases ds,
{
    if ds.len() == 0 {
        Seq::empty()
    } else {
        entries_v(ds.drop_last()).push(entry_v(ds.last()))
    }
}

/// Appending an entry appends its view.
pub proof fn lemma_entries_v_push(ds: Seq<DirectiveOrBlock>, d: DirectiveOrBlock)
    ensures
        entries_v(ds.push(d)) == entries_v(ds).push(entry_v(d)),
{
    assert(ds.push(d).drop_last() =~= ds);
}

/// The view of a named block.
pub open spec fn block_v(b: NamedBlock) -> EntryV {
    EntryV::Block { name: value_v(b.name), qualifier: opt_value_v(b.qualifier), entries: entries_v(b.directives@), span: b.span }
}

/// The views of a list of named blocks.
pub open spec fn blocks_v(bs: Seq<NamedBlock>) -> Seq<EntryV> {
    bs.map_values(|b: NamedBlock| block_v(b))
}

/// The texts of a list of values.
pub open spec fn arg_texts(vs: Seq<StringValue>) -> Seq<Seq<char>> {
    vs.map_values(|v: StringValue| v.value@)
}

/// A value as text, how it was written (quoted, or a placeholder), and
/// where it stands in the source.
pub struct ValueV {
    pub text: Seq<char>,
    pub quoted: bool,
    pub placeholder: bool,
    pub span: Span,
}

/// A directive as its key, its arguments and its span.
pub struct DirectiveV {
    pub key: ValueV,
    pub args: Seq<ValueV>,
    pub span: Span,
}

/// The view of a value.
pub open spec fn value_v(v: StringValue) -> ValueV {
    ValueV { text: v.value@, quoted: v.quoted, placeholder: v.is_placeholder, span: v.span }
}

/// The value a value token reads as.
pub open spec fn token_value(t: Token) -> ValueV {
    ValueV { text: spec_text(t.kind), quoted: t.kind is QuotedString, placeholder: t.kind is Placeholder, span: t.span }
}

/// The views of a list of values.
pub open spec fn args_v(vs: Seq<StringValue>) -> Seq<ValueV> {
    vs.map_values(|v: StringValue| value_v(v))
}

/// The view of a directive.
pub open spec fn directive_v(d: Directive) -> DirectiveV {
    DirectiveV { key: value_v(d.key), args: args_v(d.args@), span: d.span }
}

/// The views of a list of directives.
pub open spec fn directives_v(ds: Seq<Directive>) -> Seq<DirectiveV> {
    ds.map_values(|d: Directive| directive_v(d))
}

/// An `Unexpected` error naming what was expected and the token found.
pub open spec fn is_unexpected(e: ParseError, expected: Seq<char>, t: Token) -> bool {
    e matches ParseError::Unexpected { expected: x, got: g, span: sp } && x@ == expected
        && g@ == crate::lexer::token_description(t.kind) && sp == t.span
}

/// What the parser names as expected where a value should stand.
pub open spec fn value_words() -> Seq<char> {
    "identifier, string, or placeholder"@
}

/// The refusal met reading a calendar rule from token `p`, where it is
/// covered: a first word other than `include`, `exclude` or `timezone`,
/// or a missing value after it (the rule type, or the zone); refusals in
/// the arguments are not covered.
pub open spec fn rule_refusal(ts: Seq<Token>, p: int) -> Option<Refusal> {
    let t0 = spec_text(ts[p].kind);
    if !(t0 == "include"@ || t0 == "exclude"@ || t0 == "timezone"@) {
        Some(Refusal::General {
            message: "expected 'include', 'exclude', or 'timezone', got '"@ + t0 + "'"@,
            span: ts[p].span,
        })
    } else if !is_value_kind(ts[p + 1].kind) {
        Some(Refusal::Unexpected { expected: value_words(), token: ts[p + 1] })
    } else {
        None
    }
}

/// A word that reads as a monthly ordinal: `last`, or ending in `st`,
/// `nd`, `rd` or `th`.
pub open spec fn spec_is_ordinal(s: Seq<char>) -> bool {
    s == "last"@ || (2 <= s.len() && (s.skip(s.len() - 2) == "st"@ || s.skip(s.len() - 2) == "nd"@
        || s.skip(s.len() - 2) == "rd"@ || s.skip(s.len() - 2) == "th"@))
}

/// The words that start a schedule line.
pub open spec fn schedule_start_word(s: Seq<char>) -> bool {
    s == "every"@ || s == "once"@ || s == "disabled"@ || s == "ephemeral"@ || s == "queued"@
}

/// The text of a token that can name a job key: an identifier or a quoted
/// string.
pub open spec fn key_text(k: TokenKind) -> Option<Seq<char>> {
    match k {
        TokenKind::Ident(s) => Some(s@),
        TokenKind::QuotedString(s) => Some(s@),
        _ => None,
    }
}

/// A value token: identifier, quoted string or placeholder.
pub open spec fn is_value_kind(k: TokenKind) -> bool {
    k is Ident || k is QuotedString || k is Placeholder
}

/// Whether a token is the identifier `w`.
pub open spec fn ident_is(t: Token, w: Seq<char>) -> bool {
    t.kind is Ident && spec_text(t.kind) == w
}

/// A decimal that fits in a `u32`.
pub open spec fn spec_u32(t: Seq<char>) -> Option<u32> {
    match spec_parse_uint(t) {
        Some(v) => if v <= u32::MAX {
            Some(v as u32)
        } else {
            None
        },
        None => None,
    }
}

/// The unit an interval word names, singular or plural.
pub open spec fn unit_word(t: Seq<char>) -> Option<IntervalUnit> {
    if t == "seconds"@ || t == "second"@ {
        Some(IntervalUnit::Seconds)
    } else if t == "minutes"@ || t == "minute"@ {
        Some(IntervalUnit::Minutes)
    } else if t == "hours"@ || t == "hour"@ {
        Some(IntervalUnit::Hours)
    } else {
        None
    }
}

/// The count and unit of an interval written from token `p` on (`15m`, or
/// `15 minutes`), and the index after them.
pub open spec fn interval_head(ts: Seq<Token>, p: int) -> Option<(u32, IntervalUnit, int)> {
    let t0 = spec_text(ts[p].kind);
    match spec_compact_interval(t0) {
        Some((c, u)) => Some((c, u, p + 1)),
        None => match spec_u32(t0) {
            None => None,
            Some(c) => match unit_word(spec_text(ts[p + 1].kind)) {
                Some(u) => Some((c, u, p + 2)),
                None => None,
            },
        },
    }
}

/// What reading `day at HH:MM` from token `p` gives, for a schedule that
/// began at `start`, with the cursor ending at `fin`.
pub open spec fn daily_outcome(ts: Seq<Token>, p: int, start: Span, mode: Option<ScheduleMode>, r: Result<ScheduleNode, ParseError>, fin: int) -> bool {
    let head = ident_is(ts[p], "day"@) && ident_is(ts[p + 1], "at"@) && spec_time(spec_text(ts[p + 2].kind)) is Some;
    &&& !head ==> r is Err
    &&& r matches Ok(s) ==> s.kind matches ScheduleKind::Daily { time }
        && spec_time(spec_text(ts[p + 2].kind)) == Some((time.hour, time.minute))
        && time.raw@ == spec_text(ts[p + 2].kind) && s.mode == mode
        && opt_block_view(ts, p + 3) == Some((fin, directives_v(s.options@)))
        && opt_block_comments(ts, p + 3) == comments_v(s.option_comments@)
    &&& head && !(ts[p + 3].kind is LBrace) ==> (r matches Ok(s) && s.options@.len() == 0
        && s.span == spec_merge(start, ts[p + 2].span) && fin == p + 3)
}

/// What reading an interval (`15m`, `15 minutes`) from token `p` gives,
/// for a schedule that began at `start`, with the cursor ending at `fin`.
pub open spec fn interval_outcome(ts: Seq<Token>, p: int, start: Span, mode: Option<ScheduleMode>, r: Result<ScheduleNode, ParseError>, fin: int) -> bool {
    &&& interval_head(ts, p) is None ==> r is Err
    &&& r matches Ok(s) ==> interval_head(ts, p) matches Some((c, u, n))
        && s.kind == (ScheduleKind::Interval { count: c, unit: u }) && s.mode == mode
        && opt_block_view(ts, n) == Some((fin, directives_v(s.options@)))
        && opt_block_comments(ts, n) == comments_v(s.option_comments@)
    &&& match interval_head(ts, p) {
        Some((c, u, n)) => !(ts[n].kind is LBrace) ==> (r matches Ok(s) && s.options@.len() == 0
            && s.span == spec_merge(start, ts[n - 1].span) && fin == n),
        None => true,
    }
}

/// A schedule's optional `{ option … }` block looked for at token `n`:
/// where it leaves the cursor (`n` itself when there is none) and the
/// options read.
pub open spec fn opt_block_view(ts: Seq<Token>, n: int) -> Option<(int, Seq<DirectiveV>)> {
    if ts[n].kind is LBrace {
        match braced_directives(ts, n) {
            Some((e, dv)) => Some((e + 1, dv)),
            None => None,
        }
    } else {
        Some((n, Seq::empty()))
    }
}

/// The comments of a schedule's optional `{ option … }` block looked for
/// at token `n`: none when there is no block.
pub open spec fn opt_block_comments(ts: Seq<Token>, n: int) -> Seq<(nat, Seq<char>)> {
    if ts[n].kind is LBrace {
        braced_comments(ts, n)
    } else {
        Seq::empty()
    }
}

/// Where a schedule's optional `{ option … }` block, looked for at token
/// `n`, leaves the cursor: `n` itself when there is none.
pub open spec fn opt_block_end(ts: Seq<Token>, n: int) -> Option<int> {
    if ts[n].kind is LBrace {
        match braced_directives(ts, n) {
            Some((e, _)) => Some(e + 1),
            None => None,
        }
    } else {
        Some(n)
    }
}

/// Where `day at HH:MM [block]` read from token `p` ends.
pub open spec fn daily_end(ts: Seq<Token>, p: int) -> Option<int> {
    if ident_is(ts[p], "day"@) && ident_is(ts[p + 1], "at"@) && spec_time(spec_text(ts[p + 2].kind)) is Some {
        opt_block_end(ts, p + 3)
    } else {
        None
    }
}

/// Where an interval `15m [block]` / `15 minutes [block]` read from token
/// `p` ends.
pub open spec fn interval_end(ts: Seq<Token>, p: int) -> Option<int> {
    match interval_head(ts, p) {
        Some((_, _, n)) => opt_block_end(ts, n),
        None => None,
    }
}

/// Where `<days> at HH:MM [block]` read from token `p` ends.
pub open spec fn weekdays_end(ts: Seq<Token>, p: int) -> Option<int> {
    match days_scan(ts, p) {
        Some((k, _)) => if ident_is(ts[k], "at"@) && spec_time(spec_text(ts[k + 1].kind)) is Some {
            opt_block_end(ts, k + 2)
        } else {
            None
        },
        None => None,
    }
}

/// Where `<ordinals> of month at HH:MM [block]` read from token `p` ends.
pub open spec fn monthly_end(ts: Seq<Token>, p: int) -> Option<int> {
    match ordinals_scan(ts, p) {
        Some((k, os)) => if os.len() > 0 && ident_is(ts[k], "of"@) && ident_is(ts[k + 1], "month"@)
            && ident_is(ts[k + 2], "at"@) && spec_time(spec_text(ts[k + 3].kind)) is Some {
            opt_block_end(ts, k + 4)
        } else {
            None
        },
        None => None,
    }
}

/// Where `every …` read from token `p` ends.
pub open spec fn every_end(ts: Seq<Token>, p: int) -> Option<int> {
    let t1 = spec_text(ts[p + 1].kind);
    if !ident_is(ts[p], "every"@) {
        None
    } else if spec_parse_token(t1) is Some {
        weekdays_end(ts, p + 1)
    } else if ident_is(ts[p + 1], "day"@) {
        daily_end(ts, p + 1)
    } else if spec_is_ordinal(t1) {
        monthly_end(ts, p + 1)
    } else {
        interval_end(ts, p + 1)
    }
}

/// Where a schedule line read from token `p` (an optional `ephemeral` or
/// `queued` first) ends; `None` when it is refused.
pub open spec fn schedule_end(ts: Seq<Token>, p: int) -> Option<int> {
    let q = if mode_prefix(ts[p]) is Some { p + 1 } else { p };
    if ident_is(ts[q], "disabled"@) {
        Some(q + 1)
    } else if ident_is(ts[q], "once"@) {
        if ident_is(ts[q + 1], "at"@) && is_value_kind(ts[q + 2].kind) {
            Some(q + 3)
        } else {
            None
        }
    } else {
        every_end(ts, q)
    }
}

/// A refusal as the parser reports it: a job key that does not split into
/// two or three parts, a time that is not `HH:MM` within the day, or a
/// day-of-month ordinal outside `1st`..`31st`, each with the offending
/// text and the span of its token; a token other than the one expected; or
/// a message with a span.
pub enum Refusal {
    JobKey { key: Seq<char>, span: Span },
    Time { value: Seq<char>, span: Span },
    Ordinal { value: Seq<char>, span: Span },
    Unexpected { expected: Seq<char>, token: Token },
    General { message: Seq<char>, span: Span },
}

/// Whether the error `e` is the diagnostic of refusal `v`.
pub open spec fn reports(e: ParseError, v: Refusal) -> bool {
    match v {
        Refusal::JobKey { key, span } => e matches ParseError::InvalidJobKey { key: k, span: s }
            && k@ == key && s == span,
        Refusal::Time { value, span } => e matches ParseError::InvalidTime { value: t, span: s }
            && t@ == value && s == span,
        Refusal::Ordinal { value, span } => e matches ParseError::InvalidOrdinal { value: t, span: s }
            && t@ == value && s == span,
        Refusal::Unexpected { expected, token } => is_unexpected(e, expected, token),
        Refusal::General { message, span } => e matches ParseError::General { message: m, span: s }
            && m@ == message && s == span,
    }
}

/// The refusal of token `t` read as a time, if it is not one.
pub open spec fn time_refusal(t: Token) -> Option<Refusal> {
    if spec_time(spec_text(t.kind)) is None {
        Some(Refusal::Time { value: spec_text(t.kind), span: t.span })
    } else {
        None
    }
}

/// The refusal met in a schedule's optional `{ option … }` block looked
/// for at token `n`.
pub open spec fn opt_block_refusal(ts: Seq<Token>, n: int) -> Option<Refusal> {
    if ts[n].kind is LBrace {
        braced_directives_refusal(ts, n)
    } else {
        None
    }
}

/// The refusal of token `t` read as a time, or else the one met in the
/// option block looked for at token `n` after it.
pub open spec fn time_then_options_refusal(ts: Seq<Token>, t: int, n: int) -> Option<Refusal> {
    if spec_time(spec_text(ts[t].kind)) is None {
        time_refusal(ts[t])
    } else {
        opt_block_refusal(ts, n)
    }
}

/// A word in single quotes, as the parser names an expected keyword.
pub open spec fn quoted_word(w: Seq<char>) -> Seq<char> {
    "'"@ + w + "'"@
}

/// The refusal met reading the keyword `w` at token `t`, if it is not there.
pub open spec fn keyword_refusal(t: Token, w: Seq<char>) -> Option<Refusal> {
    if ident_is(t, w) {
        None
    } else {
        Some(Refusal::Unexpected { expected: quoted_word(w), token: t })
    }
}

/// The refusal met reading `day at HH:MM [options]` from token `p`, if any.
pub open spec fn daily_refusal(ts: Seq<Token>, p: int) -> Option<Refusal> {
    if !ident_is(ts[p], "day"@) {
        keyword_refusal(ts[p], "day"@)
    } else if !ident_is(ts[p + 1], "at"@) {
        keyword_refusal(ts[p + 1], "at"@)
    } else {
        time_then_options_refusal(ts, p + 2, p + 3)
    }
}

/// The refusal met reading `<days> at HH:MM [options]` from token `p`, if
/// it comes after the days.
pub open spec fn weekdays_refusal(ts: Seq<Token>, p: int) -> Option<Refusal> {
    match days_scan(ts, p) {
        Some((k, _)) => if ident_is(ts[k], "at"@) {
            time_then_options_refusal(ts, k + 1, k + 2)
        } else {
            keyword_refusal(ts[k], "at"@)
        },
        None => None,
    }
}

/// The refusal met reading an interval (`15m`, `15 minutes`) and its
/// options from token `p`, if any.
pub open spec fn interval_refusal(ts: Seq<Token>, p: int) -> Option<Refusal> {
    let t0 = spec_text(ts[p].kind);
    let t1 = spec_text(ts[p + 1].kind);
    if spec_compact_interval(t0) is Some {
        opt_block_refusal(ts, p + 1)
    } else if spec_u32(t0) is None {
        Some(Refusal::General {
            message: "expected number or compact duration (e.g. '15', '15m', '30s', '2h'), got '"@ + t0 + "'"@,
            span: ts[p].span,
        })
    } else if unit_word(t1) is None {
        Some(Refusal::General {
            message: "expected 'seconds', 'minutes', or 'hours', got '"@ + t1 + "'"@,
            span: ts[p + 1].span,
        })
    } else {
        opt_block_refusal(ts, p + 2)
    }
}

/// The first word from token `i` on that looks like an ordinal but is not
/// a valid one, as a refusal.
pub open spec fn ordinals_refusal(ts: Seq<Token>, i: int) -> Option<Refusal>
    decreases ts.len() - i,
{
    if 0 <= i < ts.len() && spec_is_ordinal(spec_text(ts[i].kind)) {
        match spec_ordinal(spec_text(ts[i].kind)) {
            Some(_) => ordinals_refusal(ts, i + 1),
            None => Some(Refusal::Ordinal { value: spec_text(ts[i].kind), span: ts[i].span }),
        }
    } else {
        None
    }
}

/// The refusal met reading `<ordinals> of month at HH:MM [options]` from
/// token `p`, if any.
pub open spec fn monthly_refusal(ts: Seq<Token>, p: int) -> Option<Refusal> {
    match ordinals_scan(ts, p) {
        None => ordinals_refusal(ts, p),
        Some((k, os)) => if os.len() == 0 {
            Some(Refusal::Unexpected { expected: "ordinal"@, token: ts[k] })
        } else if !ident_is(ts[k], "of"@) {
            keyword_refusal(ts[k], "of"@)
        } else if !ident_is(ts[k + 1], "month"@) {
            keyword_refusal(ts[k + 1], "month"@)
        } else if !ident_is(ts[k + 2], "at"@) {
            keyword_refusal(ts[k + 2], "at"@)
        } else {
            time_then_options_refusal(ts, k + 3, k + 4)
        },
    }
}

/// The refusal met reading `every …` from token `p`, where it is covered.
pub open spec fn every_refusal(ts: Seq<Token>, p: int) -> Option<Refusal> {
    let t1 = spec_text(ts[p + 1].kind);
    if !ident_is(ts[p], "every"@) {
        None
    } else if spec_parse_token(t1) is Some {
        weekdays_refusal(ts, p + 1)
    } else if ident_is(ts[p + 1], "day"@) {
        daily_refusal(ts, p + 1)
    } else if spec_is_ordinal(t1) {
        monthly_refusal(ts, p + 1)
    } else {
        interval_refusal(ts, p + 1)
    }
}

/// The refusal met reading a schedule line from token `p`, where it is
/// covered: a missing keyword, a bad count, unit, time or ordinal, or one
/// in the option block (not the day names of a weekly line or a `once`
/// value).
pub open spec fn schedule_refusal(ts: Seq<Token>, p: int) -> Option<Refusal> {
    let q = if mode_prefix(ts[p]) is Some { p + 1 } else { p };
    if ident_is(ts[q], "disabled"@) {
        None
    } else if ident_is(ts[q], "once"@) {
        keyword_refusal(ts[q + 1], "at"@)
    } else if ident_is(ts[q], "every"@) {
        every_refusal(ts, q)
    } else {
        Some(Refusal::General { message: "expected 'every', 'once', or 'disabled'"@, span: ts[q].span })
    }
}

/// Whether token `i` holds a job key with two or three `:`-separated parts.
pub open spec fn job_key_at(ts: Seq<Token>, i: int) -> bool {
    match key_text(ts[i].kind) {
        Some(t) => 2 <= split_on(t, ':').len() <= 3,
        None => false,
    }
}

/// What reading a job body from token `i` up to a `}` (or the end of
/// input) gives, `sched` holding where a schedule line already read
/// starts: the index of the token that stops it, the entries other than
/// the schedule, and where the schedule line starts, if there is one.
pub open spec fn job_body_scan(ts: Seq<Token>, i: int, sched: Option<int>) -> Option<(int, Seq<EntryV>, Option<int>)>
    decreases ts.len() - i,
{
    if 0 <= i <= ts.len() {
        let j = skip_newline_tokens(ts, i);
        proof {
            lemma_skip_newline_bounds(ts, i);
        }
        if j >= ts.len() {
            None
        } else if ts[j].kind is RBrace || ts[j].kind is Eof {
            Some((j, Seq::empty(), sched))
        } else if ts[j].kind is Comment {
            match job_body_scan(ts, j + 1, sched) {
                Some((e, es, sc)) => Some((e, seq![EntryV::Comment(comment_text(ts[j].kind))] + es, sc)),
                None => None,
            }
        } else if ts[j].kind is Semicolon {
            job_body_scan(ts, j + 1, sched)
        } else if sched is None && ts[j].kind is Ident && schedule_start_word(spec_text(ts[j].kind)) {
            match schedule_end(ts, j) {
                Some(n) => if j < n <= ts.len() {
                    job_body_scan(ts, n, Some(j))
                } else {
                    None
                },
                None => None,
            }
        } else {
            match entry_scan(ts, j) {
                Some((n, ev)) => if j < n <= ts.len() {
                    match job_body_scan(ts, n, sched) {
                        Some((e, es, sc)) => Some((e, seq![ev] + es, sc)),
                        None => None,
                    }
                } else {
                    None
                },
                None => None,
            }
        }
    } else {
        None
    }
}

/// The refusal met reading a job body from token `i` (as `job_body_scan`
/// reads it): one in its schedule line, or the end of input before the
/// closing `}`; `None` when the body reads, or an entry other than the
/// schedule line is refused.
pub open spec fn body_refusal(ts: Seq<Token>, i: int, sched: Option<int>) -> Option<Refusal>
    decreases ts.len() - i,
{
    if 0 <= i <= ts.len() {
        let j = skip_newline_tokens(ts, i);
        proof {
            lemma_skip_newline_bounds(ts, i);
        }
        if j >= ts.len() || ts[j].kind is RBrace {
            None
        } else if ts[j].kind is Eof {
            Some(Refusal::Unexpected { expected: "'}'"@, token: ts[j] })
        } else if ts[j].kind is Comment || ts[j].kind is Semicolon {
            body_refusal(ts, j + 1, sched)
        } else if sched is None && ts[j].kind is Ident && schedule_start_word(spec_text(ts[j].kind)) {
            match schedule_end(ts, j) {
                Some(n) => if j < n <= ts.len() {
                    body_refusal(ts, n, Some(j))
                } else {
                    None
                },
                None => schedule_refusal(ts, j),
            }
        } else {
            match entry_scan(ts, j) {
                Some((n, _)) => if j < n <= ts.len() {
                    body_refusal(ts, n, sched)
                } else {
                    None
                },
                None => None,
            }
        }
    } else {
        None
    }
}

/// One step of `body_refusal` past a comment or a `;`.
proof fn lemma_body_refusal_skip(ts: Seq<Token>, i: int, sched: Option<int>)
    requires
        0 <= i <= ts.len(),
        skip_newline_tokens(ts, i) < ts.len(),
        ts[skip_newline_tokens(ts, i)].kind is Comment || ts[skip_newline_tokens(ts, i)].kind is Semicolon,
    ensures
        body_refusal(ts, i, sched) == body_refusal(ts, skip_newline_tokens(ts, i) + 1, sched),
{
}

/// One step of `body_refusal` over a schedule line.
proof fn lemma_body_refusal_schedule(ts: Seq<Token>, i: int, sched: Option<int>)
    requires
        0 <= i <= ts.len(),
        skip_newline_tokens(ts, i) < ts.len(),
        sched is None,
        ({
            let j = skip_newline_tokens(ts, i);
            !(ts[j].kind is RBrace) && !(ts[j].kind is Eof) && ts[j].kind is Ident && schedule_start_word(spec_text(ts[j].kind))
        }),
    ensures
        ({
            let j = skip_newline_tokens(ts, i);
            body_refusal(ts, i, sched) == match schedule_end(ts, j) {
                Some(n) => if j < n <= ts.len() {
                    body_refusal(ts, n, Some(j))
                } else {
                    None
                },
                None => schedule_refusal(ts, j),
            }
        }),
{
}

/// One step of `body_refusal` over an entry.
proof fn lemma_body_refusal_entry(ts: Seq<Token>, i: int, sched: Option<int>)
    requires
        0 <= i <= ts.len(),
        skip_newline_tokens(ts, i) < ts.len(),
        ({
            let j = skip_newline_tokens(ts, i);
            &&& !(ts[j].kind is RBrace) && !(ts[j].kind is Eof) && !(ts[j].kind is Comment) && !(ts[j].kind is Semicolon)
            &&& !(sched is None && ts[j].kind is Ident && schedule_start_word(spec_text(ts[j].kind)))
        }),
    ensures
        ({
            let j = skip_newline_tokens(ts, i);
            body_refusal(ts, i, sched) == match entry_scan(ts, j) {
                Some((n, _)) => if j < n <= ts.len() {
                    body_refusal(ts, n, sched)
                } else {
                    None
                },
                None => None,
            }
        }),
{
}

/// The refusal met reading `job <key> { body }` from token `p`, where it
/// is covered: the key, the opening brace, the schedule line and the end
/// of input before the closing brace.
pub open spec fn job_refusal(ts: Seq<Token>, p: int) -> Option<Refusal> {
    match key_text(ts[p + 1].kind) {
        None => Some(Refusal::Unexpected { expected: "job key"@, token: ts[p + 1] }),
        Some(t) => if !(2 <= split_on(t, ':').len() <= 3) {
            Some(Refusal::JobKey { key: t, span: ts[p + 1].span })
        } else {
            let q = skip_newline_tokens(ts, p + 2);
            if ts[q].kind is LBrace {
                body_refusal(ts, q + 1, None)
            } else {
                Some(Refusal::Unexpected { expected: "'{'"@, token: ts[q] })
            }
        },
    }
}

/// `{ job body }` whose `{` is the first token from `i` past line breaks:
/// the index of the closing `}`, the entries, and where the body's schedule
/// line starts, if it has one.
pub open spec fn braced_job_body(ts: Seq<Token>, i: int) -> Option<(int, Seq<EntryV>, Option<int>)> {
    let q = skip_newline_tokens(ts, i);
    if ts[q].kind is LBrace {
        match job_body_scan(ts, q + 1, None) {
            Some((e, es, sc)) => if ts[e].kind is RBrace {
                Some((e, es, sc))
            } else {
                None
            },
            None => None,
        }
    } else {
        None
    }
}

/// Whether a job's schedule is the line that starts at `sc`, or absent
/// when `sc` is.
pub open spec fn job_schedule_fits(ts: Seq<Token>, sc: Option<int>, s: Option<ScheduleNode>) -> bool {
    match sc {
        Some(q) => s matches Some(n) && schedule_fits(ts, q, n),
        None => s is None,
    }
}

/// The argument texts a calendar rule's range `a..b` reads as: a
/// `weekly` rule's day range spelled out day by day, a `monthly` rule's
/// numeric range (within 0..=31, ascending) number by number, any other
/// range both ends.
pub open spec fn range_texts(a: Seq<char>, b: Seq<char>, weekly: bool, monthly: bool) -> Seq<Seq<char>> {
    if weekly {
        match (spec_parse_weekday(a), spec_parse_weekday(b)) {
            (Some(x), Some(y)) => spec_weekday_range(x, y).map_values(|d: Weekday| full_name(d)),
            _ => seq![a, b],
        }
    } else if monthly {
        match (spec_u32(a), spec_u32(b)) {
            (Some(x), Some(y)) => if x <= 31 && y <= 31 && x <= y {
                Seq::new((y - x + 1) as nat, |k: int| decimal((x + k) as nat))
            } else {
                seq![a, b]
            },
            _ => seq![a, b],
        }
    } else {
        seq![a, b]
    }
}

/// The argument texts a single calendar-rule argument reads as: in a
/// `weekly` rule, `weekday`/`weekend` spelled out day by day.
pub open spec fn single_texts(k: TokenKind, weekly: bool) -> Seq<Seq<char>> {
    let t = spec_text(k);
    if weekly && !(k is Placeholder) {
        match spec_parse_group(t) {
            Some(g) => g.map_values(|d: Weekday| full_name(d)),
            None => seq![t],
        }
    } else {
        seq![t]
    }
}

/// The arguments of an `include`/`exclude` calendar rule read from token
/// `i`, as texts, and where they end: before the next `include`,
/// `exclude`, `timezone` or non-value token, or just past the first line
/// break or `;` after an argument; `None` when a `..` is not followed by a
/// value.
pub open spec fn rule_args_scan(ts: Seq<Token>, i: int, weekly: bool, monthly: bool) -> Option<(int, Seq<Seq<char>>)>
    decreases ts.len() - i,
{
    if 0 <= i < ts.len() && is_value_kind(ts[i].kind) && !ident_is(ts[i], "include"@)
        && !ident_is(ts[i], "exclude"@) && !ident_is(ts[i], "timezone"@) {
        let range = i + 2 < ts.len() && ts[i + 1].kind is DotDot;
        let k = if range { i + 3 } else { i + 1 };
        let here = if range {
            range_texts(spec_text(ts[i].kind), spec_text(ts[i + 2].kind), weekly, monthly)
        } else {
            single_texts(ts[i].kind, weekly)
        };
        if range && !is_value_kind(ts[i + 2].kind) {
            None
        } else if k < ts.len() && (ts[k].kind is Newline || ts[k].kind is Semicolon) {
            Some((k + 1, here))
        } else {
            match rule_args_scan(ts, k, weekly, monthly) {
                Some((e, vs)) => Some((e, here + vs)),
                None => None,
            }
        }
    } else {
        Some((i, Seq::empty()))
    }
}

/// Whether a calendar rule's type names the weekly or the monthly kind.
pub open spec fn rule_is(t: Seq<char>, w: Seq<char>) -> bool {
    lower(t) == w
}

/// Where the calendar rule at token `j` ends, and its rule type's text
/// (`timezone` for a time-zone line).
pub open spec fn rule_scan(ts: Seq<Token>, j: int) -> Option<(int, RuleV)> {
    let t0 = spec_text(ts[j].kind);
    if !is_value_kind(ts[j + 1].kind) {
        None
    } else if t0 == "timezone"@ {
        Some((j + 2, RuleV { exclude: false, rule_type: token_value(ts[j]), args: seq![spec_text(ts[j + 1].kind)] }))
    } else if t0 == "include"@ || t0 == "exclude"@ {
        let t1 = spec_text(ts[j + 1].kind);
        match rule_args_scan(ts, j + 2, rule_is(t1, "weekly"@), rule_is(t1, "monthly"@)) {
            Some((n, vs)) => Some((n, RuleV { exclude: t0 == "exclude"@, rule_type: token_value(ts[j + 1]), args: vs })),
            None => None,
        }
    } else {
        None
    }
}

/// The comments of a calendar body read from token `i` up to a `}` (or
/// the end of input), `k` rules having been read before: each with the
/// number of rules before it and its text.
pub open spec fn rule_comments(ts: Seq<Token>, i: int, k: nat) -> Seq<(nat, Seq<char>)>
    decreases ts.len() - i,
{
    if 0 <= i <= ts.len() {
        let j = skip_newline_tokens(ts, i);
        proof {
            lemma_skip_newline_bounds(ts, i);
        }
        if j >= ts.len() || ts[j].kind is RBrace || ts[j].kind is Eof {
            Seq::empty()
        } else if ts[j].kind is Comment {
            seq![(k, comment_text(ts[j].kind))] + rule_comments(ts, j + 1, k)
        } else if ts[j].kind is Semicolon {
            rule_comments(ts, j + 1, k)
        } else {
            match rule_scan(ts, j) {
                Some((n, _)) => if j < n <= ts.len() {
                    rule_comments(ts, n, k + 1)
                } else {
                    Seq::empty()
                },
                None => Seq::empty(),
            }
        }
    } else {
        Seq::empty()
    }
}

/// What reading calendar rules from token `i` up to a `}` (or the end of
/// input) gives: the index of the token that stops it, and the rules read.
pub open spec fn rules_scan(ts: Seq<Token>, i: int) -> Option<(int, Seq<RuleV>)>
    decreases ts.len() - i,
{
    if 0 <= i <= ts.len() {
        let j = skip_newline_tokens(ts, i);
        proof {
            lemma_skip_newline_bounds(ts, i);
        }
        if j >= ts.len() {
            None
        } else if ts[j].kind is RBrace || ts[j].kind is Eof {
            Some((j, Seq::empty()))
        } else if ts[j].kind is Comment || ts[j].kind is Semicolon {
            rules_scan(ts, j + 1)
        } else {
            match rule_scan(ts, j) {
                Some((n, t)) => if j < n <= ts.len() {
                    match rules_scan(ts, n) {
                        Some((e, types)) => Some((e, seq![t] + types)),
                        None => None,
                    }
                } else {
                    None
                },
                None => None,
            }
        }
    } else {
        None
    }
}

/// The refusal met reading a directive's arguments from token `i` on (as
/// `args_scan` reads them): a `..` not followed by a value.
pub open spec fn args_refusal(ts: Seq<Token>, i: int) -> Option<Refusal>
    decreases ts.len() - i,
{
    if 0 <= i < ts.len() && is_value_kind(ts[i].kind) {
        if i + 2 < ts.len() && ts[i + 1].kind is DotDot {
            if is_value_kind(ts[i + 2].kind) {
                args_refusal(ts, i + 3)
            } else {
                Some(Refusal::Unexpected { expected: value_words(), token: ts[i + 2] })
            }
        } else {
            args_refusal(ts, i + 1)
        }
    } else {
        None
    }
}

/// The refusal met reading the directive at token `j`: a key that is not
/// a value, or a refusal in its arguments.
pub open spec fn directive_refusal(ts: Seq<Token>, j: int) -> Option<Refusal> {
    if is_value_kind(ts[j].kind) {
        args_refusal(ts, j + 1)
    } else {
        Some(Refusal::Unexpected { expected: value_words(), token: ts[j] })
    }
}

/// The refusal met reading directives from token `i` (as
/// `directives_scan` reads them).
pub open spec fn directives_refusal(ts: Seq<Token>, i: int) -> Option<Refusal>
    decreases ts.len() - i,
{
    if 0 <= i <= ts.len() {
        let j = skip_newline_tokens(ts, i);
        proof {
            lemma_skip_newline_bounds(ts, i);
        }
        if j >= ts.len() || ts[j].kind is RBrace || ts[j].kind is Eof {
            None
        } else if ts[j].kind is Comment || ts[j].kind is Semicolon {
            directives_refusal(ts, j + 1)
        } else {
            proof {
                lemma_args_scan_bounds(ts, j + 1);
            }
            match directive_scan(ts, j) {
                Some((n, _)) => {
                    proof {
                        if let Some((e, _)) = args_scan(ts, j + 1) {
                            lemma_skip_terminator_bounds(ts, e);
                        }
                    }
                    directives_refusal(ts, n)
                },
                None => directive_refusal(ts, j),
            }
        }
    } else {
        None
    }
}

/// The refusal met reading `{ directive … }` whose `{` is the first token
/// from `i` past line breaks: a missing `{`, a refused directive, or the
/// end of input before the closing `}`.
pub open spec fn braced_directives_refusal(ts: Seq<Token>, i: int) -> Option<Refusal> {
    let q = skip_newline_tokens(ts, i);
    if ts[q].kind is LBrace {
        match directives_scan(ts, q + 1) {
            Some((e, _)) => if ts[e].kind is RBrace {
                None
            } else {
                Some(Refusal::Unexpected { expected: "'}'"@, token: ts[e] })
            },
            None => directives_refusal(ts, q + 1),
        }
    } else {
        Some(Refusal::Unexpected { expected: "'{'"@, token: ts[q] })
    }
}

/// The refusal met reading calendar rules from token `i` (as `rules_scan`
/// reads them), where it is covered: one that `rule_refusal` names, or
/// the end of input before the closing `}`.
pub open spec fn rules_refusal(ts: Seq<Token>, i: int) -> Option<Refusal>
    decreases ts.len() - i,
{
    if 0 <= i <= ts.len() {
        let j = skip_newline_tokens(ts, i);
        proof {
            lemma_skip_newline_bounds(ts, i);
        }
        if j >= ts.len() || ts[j].kind is RBrace {
            None
        } else if ts[j].kind is Eof {
            Some(Refusal::Unexpected { expected: "'}'"@, token: ts[j] })
        } else if ts[j].kind is Comment || ts[j].kind is Semicolon {
            rules_refusal(ts, j + 1)
        } else {
            match rule_scan(ts, j) {
                Some((n, _)) => if j < n <= ts.len() {
                    rules_refusal(ts, n)
                } else {
                    None
                },
                None => rule_refusal(ts, j),
            }
        }
    } else {
        None
    }
}

/// The refusal met reading `calendar <name> { rules }` from token `p`,
/// where it is covered: the name, the opening brace and the rules.
pub open spec fn calendar_refusal(ts: Seq<Token>, p: int) -> Option<Refusal> {
    if !is_value_kind(ts[p + 1].kind) {
        Some(Refusal::Unexpected { expected: value_words(), token: ts[p + 1] })
    } else {
        let q = skip_newline_tokens(ts, p + 2);
        if ts[q].kind is LBrace {
            rules_refusal(ts, q + 1)
        } else {
            Some(Refusal::Unexpected { expected: "'{'"@, token: ts[q] })
        }
    }
}

/// `{ rule … }` whose `{` is the first token from `i` past line breaks:
/// the index of the closing `}` and the rules' types.
pub open spec fn braced_rules(ts: Seq<Token>, i: int) -> Option<(int, Seq<RuleV>)> {
    let q = skip_newline_tokens(ts, i);
    if ts[q].kind is LBrace {
        match rules_scan(ts, q + 1) {
            Some((e, types)) => if ts[e].kind is RBrace {
                Some((e, types))
            } else {
                None
            },
            None => None,
        }
    } else {
        None
    }
}

/// The views of a list of calendar rules.
pub open spec fn rules_v(rs: Seq<CalendarRule>) -> Seq<RuleV> {
    rs.map_values(|r: CalendarRule| rule_v(r))
}

/// A calendar rule: whether it excludes, its type, and its argument texts
/// (a time-zone line reads as an including rule of type `timezone`).
pub struct RuleV {
    pub exclude: bool,
    pub rule_type: ValueV,
    pub args: Seq<Seq<char>>,
}

/// The view of a calendar rule.
pub open spec fn rule_v(c: CalendarRule) -> RuleV {
    RuleV { exclude: c.kind == CalendarRuleKind::Exclude, rule_type: value_v(c.rule_type), args: arg_texts(c.args@) }
}

/// Where the top-level item at token `i` ends (after line breaks and `;`),
/// and whether it is a job with a schedule line; `None` when it is
/// refused. The keyword picks the item's shape.
pub open spec fn item_scan(ts: Seq<Token>, i: int) -> Option<(int, bool)> {
    let j = skip_terminator_tokens(ts, i);
    let w = spec_text(ts[j].kind);
    if ts[j].kind is Comment {
        Some((j + 1, false))
    } else if !(ts[j].kind is Ident) {
        None
    } else if w == "import"@ {
        if is_value_kind(ts[j + 1].kind) {
            Some((j + 2, false))
        } else {
            None
        }
    } else if w == "server"@ || w == "smtp"@ || w == "pull_api"@ {
        after_close(braced_directives(ts, j + 1))
    } else if w == "observability"@ {
        after_close(braced_sub_blocks(ts, j + 1, false))
    } else if w == "mcp"@ || w == "oidc"@ {
        after_close(braced_directives(ts, j + 1))
    } else if w == "auth"@ {
        after_close(braced_sub_blocks(ts, j + 1, false))
    } else if w == "policy"@ {
        after_close(braced_directives(ts, j + 1))
    } else if w == "alerts"@ {
        after_close(braced_sub_blocks(ts, j + 1, true))
    } else if w == "vars"@ {
        after_close(braced_directives(ts, j + 1))
    } else if w == "defaults"@ {
        after_close(braced_entries(ts, j + 1))
    } else if w == "calendar"@ {
        if is_value_kind(ts[j + 1].kind) {
            after_close(braced_rules(ts, j + 2))
        } else {
            None
        }
    } else if w == "concurrency_group"@ {
        if is_value_kind(ts[j + 1].kind) {
            after_close(braced_directives(ts, j + 2))
        } else {
            None
        }
    } else if w == "job"@ {
        if job_key_at(ts, j + 1) {
            match braced_job_body(ts, j + 2) {
                Some((e, _, sch)) => Some((e + 1, sch is Some)),
                None => None,
            }
        } else {
            None
        }
    } else {
        None
    }
}

/// Whether the braced directives from token `i` are `ds`.
pub open spec fn directives_fit(ts: Seq<Token>, i: int, ds: Seq<Directive>, cs: Seq<BodyComment>) -> bool {
    braced_directives(ts, i) matches Some((_, dv)) && dv == directives_v(ds) && comments_v(cs) == braced_comments(ts, i)
}

/// Whether the braced block body from token `i` is `ds`.
pub open spec fn entries_fit(ts: Seq<Token>, i: int, ds: Seq<DirectiveOrBlock>) -> bool {
    braced_entries(ts, i) matches Some((_, ev)) && ev == entries_v(ds)
}

/// Whether the braced sub-blocks from token `i` are `bs`.
pub open spec fn sub_blocks_fit(ts: Seq<Token>, i: int, qualified: bool, bs: Seq<NamedBlock>, cs: Seq<BodyComment>) -> bool {
    braced_sub_blocks(ts, i, qualified) matches Some((_, ev)) && ev == blocks_v(bs)
        && braced_sub_block_comments(ts, i, qualified) == comments_v(cs)
}

/// Whether the braced calendar rules from token `i` are `rs`.
pub open spec fn rules_fit(ts: Seq<Token>, i: int, rs: Seq<CalendarRule>, cs: Seq<BodyComment>) -> bool {
    braced_rules(ts, i) matches Some((_, rv)) && rv == rules_v(rs)
        && comments_v(cs) == rule_comments(ts, skip_newline_tokens(ts, i) + 1, 0)
}

/// Whether `jb` is the job whose `job` keyword is token `j`: its key, its
/// entries and its schedule line are those the tokens give.
pub open spec fn job_fits(ts: Seq<Token>, j: int, jb: JobBlock) -> bool {
    &&& jb.key.raw@ == key_text(ts[j + 1].kind)->0
    &&& jb.key.quoted == ts[j + 1].kind is QuotedString
    &&& job_key_ok(jb.key)
    &&& braced_job_body(ts, j + 2) matches Some((_, es, sc))
    &&& es == entries_v(jb.directives@)
    &&& job_schedule_fits(ts, sc, jb.schedule)
}

/// Whether `it` is the top-level item whose keyword (or comment) is token
/// `j`: the variant the keyword names, holding what the tokens after it
/// read as (spans aside).
#[verifier::opaque]
pub open spec fn item_fits(ts: Seq<Token>, j: int, it: Item) -> bool {
    let w = spec_text(ts[j].kind);
    if ts[j].kind is Comment {
        it matches Item::Comment(c) && c.text@ == comment_text(ts[j].kind)
    } else if !(ts[j].kind is Ident) {
        false
    } else if w == "import"@ {
        it matches Item::Import(im) && value_v(im.path) == token_value(ts[j + 1])
    } else if w == "server"@ {
        it matches Item::Server(b) && directives_fit(ts, j + 1, b.directives@, b.comments@)
    } else if w == "smtp"@ {
        it matches Item::Smtp(b) && directives_fit(ts, j + 1, b.directives@, b.comments@)
    } else if w == "pull_api"@ {
        it matches Item::PullApi(b) && directives_fit(ts, j + 1, b.directives@, b.comments@)
    } else if w == "observability"@ {
        it matches Item::Observability(b) && sub_blocks_fit(ts, j + 1, false, b.sub_blocks@, b.comments@)
    } else if w == "mcp"@ {
        it matches Item::Mcp(b) && directives_fit(ts, j + 1, b.directives@, b.comments@)
    } else if w == "oidc"@ {
        it matches Item::Oidc(b) && directives_fit(ts, j + 1, b.directives@, b.comments@)
    } else if w == "auth"@ {
        it matches Item::Auth(b) && sub_blocks_fit(ts, j + 1, false, b.sub_blocks@, b.comments@)
    } else if w == "policy"@ {
        it matches Item::Policy(b) && directives_fit(ts, j + 1, b.directives@, b.comments@)
    } else if w == "alerts"@ {
        it matches Item::Alerts(b) && sub_blocks_fit(ts, j + 1, true, b.sub_blocks@, b.comments@)
    } else if w == "vars"@ {
        it matches Item::Vars(b) && directives_fit(ts, j + 1, b.entries@, b.comments@)
    } else if w == "defaults"@ {
        it matches Item::Defaults(b) && entries_fit(ts, j + 1, b.directives@)
    } else if w == "calendar"@ {
        it matches Item::Calendar(c) && value_v(c.name) == token_value(ts[j + 1]) && rules_fit(ts, j + 2, c.rules@, c.comments@)
    } else if w == "concurrency_group"@ {
        it matches Item::ConcurrencyGroup(g) && value_v(g.name) == token_value(ts[j + 1])
            && directives_fit(ts, j + 2, g.directives@, g.comments@)
    } else if w == "job"@ {
        it matches Item::Job(jb) && job_fits(ts, j, jb)
    } else {
        false
    }
}

/// Where reading the items `items` from token `i` on leaves the cursor,
/// when each of them is the item the tokens give at its place; `None`
/// when one is not.
pub open spec fn items_fit(ts: Seq<Token>, i: int, items: Seq<Item>) -> Option<int>
    decreases items.len(),
{
    if items.len() == 0 {
        Some(i)
    } else {
        match items_fit(ts, i, items.drop_last()) {
            Some(k) => if item_fits(ts, skip_terminator_tokens(ts, k), items.last()) {
                match item_scan(ts, k) {
                    Some((n, _)) => Some(n),
                    None => None,
                }
            } else {
                None
            },
            None => None,
        }
    }
}

/// The top-level items a Croniqfile holds from token `i` to the end of
/// input, each told by whether it is a job with a schedule line; `None`
/// when one of them is refused.
pub open spec fn file_scan(ts: Seq<Token>, i: int) -> Option<Seq<bool>>
    decreases ts.len() - i,
{
    if 0 <= i <= ts.len() {
        let j = skip_terminator_tokens(ts, i);
        proof {
            lemma_skip_terminator_bounds(ts, i);
        }
        if j >= ts.len() {
            None
        } else if ts[j].kind is Eof {
            Some(Seq::empty())
        } else {
            match item_scan(ts, j) {
                Some((n, b)) => if j < n <= ts.len() {
                    match file_scan(ts, n) {
                        Some(fl) => Some(seq![b] + fl),
                        None => None,
                    }
                } else {
                    None
                },
                None => None,
            }
        }
    } else {
        None
    }
}

/// The refusal met reading `concurrency_group <name> { directives }` from
/// token `p`: a missing name, or one in the braced directives.
pub open spec fn group_refusal(ts: Seq<Token>, p: int) -> Option<Refusal> {
    if !is_value_kind(ts[p + 1].kind) {
        Some(Refusal::Unexpected { expected: value_words(), token: ts[p + 1] })
    } else {
        braced_directives_refusal(ts, p + 2)
    }
}

/// The refusal met reading a top-level item from token `i`, where it is
/// covered: a token that starts no item, an unknown word, a block of
/// directives, a calendar or a job (in the order the parser tries the
/// words; refusals inside defaults and blocks of sub-blocks are not
/// covered).
pub open spec fn item_refusal(ts: Seq<Token>, i: int) -> Option<Refusal> {
    let j = skip_terminator_tokens(ts, i);
    let w = spec_text(ts[j].kind);
    if ts[j].kind is Comment {
        None
    } else if !(ts[j].kind is Ident) {
        Some(Refusal::Unexpected { expected: top_level_words(), token: ts[j] })
    } else if w == "import"@ {
        if is_value_kind(ts[j + 1].kind) {
            None
        } else {
            Some(Refusal::Unexpected { expected: value_words(), token: ts[j + 1] })
        }
    } else if w == "server"@ || w == "smtp"@ || w == "pull_api"@ {
        braced_directives_refusal(ts, j + 1)
    } else if w == "observability"@ {
        None
    } else if w == "mcp"@ || w == "oidc"@ {
        braced_directives_refusal(ts, j + 1)
    } else if w == "auth"@ {
        None
    } else if w == "policy"@ {
        braced_directives_refusal(ts, j + 1)
    } else if w == "alerts"@ {
        None
    } else if w == "vars"@ {
        braced_directives_refusal(ts, j + 1)
    } else if w == "defaults"@ {
        None
    } else if w == "calendar"@ {
        calendar_refusal(ts, j)
    } else if w == "concurrency_group"@ {
        group_refusal(ts, j)
    } else if w == "job"@ {
        job_refusal(ts, j)
    } else {
        Some(Refusal::General { message: "unknown top-level block: '"@ + w + "'"@, span: ts[j].span })
    }
}

/// What the parser names as expected where a top-level item should start.
pub open spec fn top_level_words() -> Seq<char> {
    "import, server, smtp, pull_api, observability, mcp, oidc, auth, policy, alerts, vars, defaults, calendar, concurrency_group, or job"@
}

/// The refusal that stops reading a Croniqfile from token `i`, where it is
/// covered (see `item_refusal`); `None` when the file reads, or is refused
/// in a part not covered.
pub open spec fn file_refusal(ts: Seq<Token>, i: int) -> Option<Refusal>
    decreases ts.len() - i,
{
    if 0 <= i <= ts.len() {
        let j = skip_terminator_tokens(ts, i);
        proof {
            lemma_skip_terminator_bounds(ts, i);
        }
        if j >= ts.len() || ts[j].kind is Eof {
            None
        } else {
            match item_scan(ts, j) {
                Some((n, _)) => if j < n <= ts.len() {
                    file_refusal(ts, n)
                } else {
                    None
                },
                None => item_refusal(ts, j),
            }
        }
    } else {
        None
    }
}

/// The index after the closing brace of a braced part, for an item that
/// is not a job.
pub open spec fn after_close<A>(b: Option<(int, A)>) -> Option<(int, bool)> {
    match b {
        Some((e, _)) => Some((e + 1, false)),
        None => None,
    }
}

/// Whether `f` is what the parser can have read from `src`: the source
/// tokenizes, and its tokens read as top-level items shaped as `f`'s are
/// (each told by whether it is a job with a schedule line).
pub open spec fn parse_fits(src: Seq<char>, f: Croniqfile) -> bool {
    spec_tokenize(src) matches Ok(tv) && exists|ts: Seq<Token>| #[trigger] tokens_view(ts) == tv
        && file_scan(ts, 0) == Some(schedule_flags(f.items@)) && items_fit(ts, 0, f.items@) is Some
}

/// Whether the parser refuses `src`: it does not tokenize, or its tokens
/// do not read as a Croniqfile.
pub open spec fn parse_refused(src: Seq<char>) -> bool {
    match spec_tokenize(src) {
        Err(_) => true,
        Ok(tv) => exists|ts: Seq<Token>| #[trigger] tokens_view(ts) == tv && file_scan(ts, 0) is None,
    }
}

/// The schedule kind of a job item that has a schedule line.
pub open spec fn item_schedule_kind(it: Item) -> Option<ScheduleKind> {
    match it {
        Item::Job(j) => match j.schedule {
            Some(s) => Some(s.kind),
            None => None,
        },
        _ => None,
    }
}

/// The schedule kind of the first job, in file order, that has a schedule
/// line.
pub open spec fn first_schedule_kind(items: Seq<Item>) -> Option<ScheduleKind>
    decreases items.len(),
{
    if items.len() == 0 {
        None
    } else {
        match first_schedule_kind(items.drop_last()) {
            Some(k) => Some(k),
            None => item_schedule_kind(items.last()),
        }
    }
}

/// Whether a top-level item is a job with a schedule line.
pub open spec fn has_schedule(it: Item) -> bool {
    it matches Item::Job(j) && j.schedule is Some
}

/// Each item told by whether it is a job with a schedule line.
pub open spec fn schedule_flags(items: Seq<Item>) -> Seq<bool> {
    items.map_values(|it: Item| has_schedule(it))
}

/// The days read from token `i` on by a weekday schedule (day names,
/// `weekday`/`weekend`, and `a..b` ranges), and the index after them;
/// `None` when a `..` is not followed by a day name.
pub open spec fn days_scan(ts: Seq<Token>, i: int) -> Option<(int, Seq<Weekday>)>
    decreases ts.len() - i,
{
    if 0 <= i < ts.len() && !(ts[i].kind is Eof) && spec_parse_token(spec_text(ts[i].kind)) is Some {
        let t = spec_text(ts[i].kind);
        match spec_parse_group(t) {
            Some(g) => match days_scan(ts, i + 1) {
                Some((e, ds)) => Some((e, g + ds)),
                None => None,
            },
            None => match spec_parse_weekday(t) {
                Some(d) => if i + 2 < ts.len() && ts[i + 1].kind is DotDot {
                    match spec_parse_weekday(spec_text(ts[i + 2].kind)) {
                        Some(d2) => match days_scan(ts, i + 3) {
                            Some((e, ds)) => Some((e, spec_weekday_range(d, d2) + ds)),
                            None => None,
                        },
                        None => None,
                    }
                } else {
                    match days_scan(ts, i + 1) {
                        Some((e, ds)) => Some((e, seq![d] + ds)),
                        None => None,
                    }
                },
                None => None,
            },
        }
    } else {
        Some((i, Seq::empty()))
    }
}

/// What reading `<days> at HH:MM` from token `p` gives, for a schedule
/// that began at `start`, with the cursor ending at `fin`.
pub open spec fn weekdays_outcome(ts: Seq<Token>, p: int, start: Span, mode: Option<ScheduleMode>, r: Result<ScheduleNode, ParseError>, fin: int) -> bool {
    match days_scan(ts, p) {
        None => r is Err,
        Some((k, ds)) => {
            let head = ident_is(ts[k], "at"@) && spec_time(spec_text(ts[k + 1].kind)) is Some;
            &&& !head ==> r is Err
            &&& r matches Ok(s) ==> s.kind matches ScheduleKind::Weekdays { days, time }
                && days@ == ds && spec_time(spec_text(ts[k + 1].kind)) == Some((time.hour, time.minute))
                && time.raw@ == spec_text(ts[k + 1].kind) && s.mode == mode
                && opt_block_view(ts, k + 2) == Some((fin, directives_v(s.options@)))
                && opt_block_comments(ts, k + 2) == comments_v(s.option_comments@)
            &&& head && !(ts[k + 2].kind is LBrace) ==> (r matches Ok(s) && s.options@.len() == 0
                && s.span == spec_merge(start, ts[k + 1].span) && fin == k + 2)
        },
    }
}

/// Whether `s` is the schedule line read from token `p`: its kind, mode
/// and options are those the line gives.
pub open spec fn schedule_fits(ts: Seq<Token>, p: int, s: ScheduleNode) -> bool {
    let m = mode_prefix(ts[p]);
    let q = if m is Some { p + 1 } else { p };
    match schedule_end(ts, p) {
        None => false,
        Some(fin) => if ident_is(ts[q], "disabled"@) {
            s.kind == ScheduleKind::Disabled && s.mode == m && s.options@.len() == 0 && s.option_comments@.len() == 0
        } else if ident_is(ts[q], "once"@) {
            once_outcome(ts, q, m, Ok(s), fin)
        } else {
            every_outcome(ts, q, m, Ok(s), fin)
        },
    }
}

/// The ordinals read from token `i` on by a monthly schedule, and the
/// index after them; `None` when a word that looks like an ordinal is not
/// a valid one.
pub open spec fn ordinals_scan(ts: Seq<Token>, i: int) -> Option<(int, Seq<MonthOrdinal>)>
    decreases ts.len() - i,
{
    if 0 <= i < ts.len() && spec_is_ordinal(spec_text(ts[i].kind)) {
        match spec_ordinal(spec_text(ts[i].kind)) {
            Some(o) => match ordinals_scan(ts, i + 1) {
                Some((e, os)) => Some((e, seq![o] + os)),
                None => None,
            },
            None => None,
        }
    } else {
        Some((i, Seq::empty()))
    }
}

/// What reading `<ordinals> of month at HH:MM` from token `p` gives, for a
/// schedule that began at `start`, with the cursor ending at `fin`.
pub open spec fn monthly_outcome(ts: Seq<Token>, p: int, start: Span, mode: Option<ScheduleMode>, r: Result<ScheduleNode, ParseError>, fin: int) -> bool {
    match ordinals_scan(ts, p) {
        None => r is Err,
        Some((k, os)) => {
            let head = os.len() > 0 && ident_is(ts[k], "of"@) && ident_is(ts[k + 1], "month"@)
                && ident_is(ts[k + 2], "at"@) && spec_time(spec_text(ts[k + 3].kind)) is Some;
            &&& !head ==> r is Err
            &&& r matches Ok(s) ==> s.kind matches ScheduleKind::Monthly { ordinals, time }
                && ordinals@ == os && spec_time(spec_text(ts[k + 3].kind)) == Some((time.hour, time.minute))
                && time.raw@ == spec_text(ts[k + 3].kind) && s.mode == mode
                && opt_block_view(ts, k + 4) == Some((fin, directives_v(s.options@)))
                && opt_block_comments(ts, k + 4) == comments_v(s.option_comments@)
            &&& head && !(ts[k + 4].kind is LBrace) ==> (r matches Ok(s) && s.options@.len() == 0
                && s.span == spec_merge(start, ts[k + 3].span) && fin == k + 4)
        },
    }
}

/// What reading `every …` from token `p` gives (the schedule given `mode`),
/// with the cursor ending at `fin`: day names make a weekday schedule,
/// `day` a daily one, an ordinal a monthly one, anything else an interval.
pub open spec fn every_outcome(ts: Seq<Token>, p: int, mode: Option<ScheduleMode>, r: Result<ScheduleNode, ParseError>, fin: int) -> bool {
    let t1 = spec_text(ts[p + 1].kind);
    &&& !ident_is(ts[p], "every"@) ==> r is Err
    &&& ident_is(ts[p], "every"@) && spec_parse_token(t1) is Some ==> weekdays_outcome(ts, p + 1, ts[p].span, mode, r, fin)
    &&& ident_is(ts[p], "every"@) && spec_parse_token(t1) is None && ident_is(ts[p + 1], "day"@)
        ==> daily_outcome(ts, p + 1, ts[p].span, mode, r, fin)
    &&& ident_is(ts[p], "every"@) && spec_parse_token(t1) is None && !ident_is(ts[p + 1], "day"@)
        && spec_is_ordinal(t1) ==> monthly_outcome(ts, p + 1, ts[p].span, mode, r, fin)
    &&& ident_is(ts[p], "every"@) && spec_parse_token(t1) is None && !ident_is(ts[p + 1], "day"@)
        && !spec_is_ordinal(t1) ==> interval_outcome(ts, p + 1, ts[p].span, mode, r, fin)
}

/// What reading `once at …` from token `p` gives (the schedule given
/// `mode`), with the cursor ending at `fin`.
pub open spec fn once_outcome(ts: Seq<Token>, p: int, mode: Option<ScheduleMode>, r: Result<ScheduleNode, ParseError>, fin: int) -> bool {
    &&& r is Ok <==> (ident_is(ts[p], "once"@) && ident_is(ts[p + 1], "at"@) && is_value_kind(ts[p + 2].kind))
    &&& r matches Ok(s) ==> {
        &&& s.kind matches ScheduleKind::Once { at } && at.value@ == spec_text(ts[p + 2].kind)
            && at.quoted == ts[p + 2].kind is QuotedString
            && at.is_placeholder == ts[p + 2].kind is Placeholder && at.span == ts[p + 2].span
        &&& s.mode == mode
        &&& s.options@.len() == 0
        &&& s.option_comments@.len() == 0
        &&& s.span == spec_merge(ts[p].span, ts[p + 2].span)
        &&& fin == p + 3
    }
}

/// The execution mode a schedule line starts with, if any.
pub open spec fn mode_prefix(t: Token) -> Option<ScheduleMode> {
    if ident_is(t, "ephemeral"@) {
        Some(ScheduleMode::Ephemeral)
    } else if ident_is(t, "queued"@) {
        Some(ScheduleMode::Queued)
    } else {
        None
    }
}

/// A failed `every …` fails whatever mode the line had.
proof fn lemma_every_outcome_err(ts: Seq<Token>, p: int, m1: Option<ScheduleMode>, m2: Option<ScheduleMode>, e: ParseError, fin: int)
    requires
        every_outcome(ts, p, m1, Err(e), fin),
    ensures
        every_outcome(ts, p, m2, Err(e), fin),
{
    let t1 = spec_text(ts[p + 1].kind);
    if ident_is(ts[p], "every"@) && spec_parse_token(t1) is Some {
        assert(weekdays_outcome(ts, p + 1, ts[p].span, m1, Err(e), fin));
        assert(weekdays_outcome(ts, p + 1, ts[p].span, m2, Err(e), fin));
    }
    if ident_is(ts[p], "every"@) && spec_parse_token(t1) is None && !ident_is(ts[p + 1], "day"@) && spec_is_ordinal(t1) {
        assert(monthly_outcome(ts, p + 1, ts[p].span, m1, Err(e), fin));
        assert(monthly_outcome(ts, p + 1, ts[p].span, m2, Err(e), fin));
    }
    if ident_is(ts[p], "every"@) && spec_parse_token(t1) is None && ident_is(ts[p + 1], "day"@) {
        assert(daily_outcome(ts, p + 1, ts[p].span, m1, Err(e), fin));
        assert(daily_outcome(ts, p + 1, ts[p].span, m2, Err(e), fin));
    }
    if ident_is(ts[p], "every"@) && spec_parse_token(t1) is None && !ident_is(ts[p + 1], "day"@) && !spec_is_ordinal(t1) {
        assert(interval_outcome(ts, p + 1, ts[p].span, m1, Err(e), fin));
        assert(interval_outcome(ts, p + 1, ts[p].span, m2, Err(e), fin));
    }
}

/// A successful `every …` line, given the mode `m`, reads as the same
/// schedule with that mode.
proof fn lemma_every_outcome_mode(ts: Seq<Token>, p: int, n: ScheduleNode, m: Option<ScheduleMode>, fin: int)
    requires
        every_outcome(ts, p, None, Ok(n), fin),
    ensures
        every_outcome(ts, p, m, Ok(ScheduleNode { mode: m, ..n }), fin),
{
    let t1 = spec_text(ts[p + 1].kind);
    let n2 = ScheduleNode { mode: m, ..n };
    if ident_is(ts[p], "every"@) && spec_parse_token(t1) is Some {
        assert(weekdays_outcome(ts, p + 1, ts[p].span, None, Ok(n), fin));
        assert(weekdays_outcome(ts, p + 1, ts[p].span, m, Ok(n2), fin));
    }
    if ident_is(ts[p], "every"@) && spec_parse_token(t1) is None && !ident_is(ts[p + 1], "day"@) && spec_is_ordinal(t1) {
        assert(monthly_outcome(ts, p + 1, ts[p].span, None, Ok(n), fin));
        assert(monthly_outcome(ts, p + 1, ts[p].span, m, Ok(n2), fin));
    }
    if ident_is(ts[p], "every"@) && spec_parse_token(t1) is None && ident_is(ts[p + 1], "day"@) {
        assert(daily_outcome(ts, p + 1, ts[p].span, None, Ok(n), fin));
        assert(daily_outcome(ts, p + 1, ts[p].span, m, Ok(n2), fin));
    }
    if ident_is(ts[p], "every"@) && spec_parse_token(t1) is None && !ident_is(ts[p + 1], "day"@) && !spec_is_ordinal(t1) {
        assert(interval_outcome(ts, p + 1, ts[p].span, None, Ok(n), fin));
        assert(interval_outcome(ts, p + 1, ts[p].span, m, Ok(n2), fin));
    }
}

/// Recursive-descent parser over a token stream.
pub struct Parser {
    tokens: Vec<Token>,
    pos: usize,
}

/// Parse a bare schedule expression (`every 5 minutes`, `every day at 02:00`,
/// `once at "…"`, `disabled`) into its `ScheduleKind`, by wrapping it in a
/// synthetic job block and running the real parser.
#[verifier::spinoff_prover]
pub fn parse_schedule_expr(expr: &str) -> (r: Result<ScheduleKind, ParseError>)
    ensures
        r matches Ok(k) ==> schedule_kind_ok(k),
        ({
            let src = "job __sched__:__probe__ {\n"@ + expr@ + "\n}\n"@;
            &&& spec_tokenize(src) matches Err(e) ==> r == Err::<ScheduleKind, ParseError>(ParseError::Lex(e))
            &&& spec_tokenize(src) matches Ok(tv) ==> exists|ts: Seq<Token>| #[trigger] tokens_view(ts) == tv
                && (r is Ok <==> (file_scan(ts, 0) matches Some(fl) && fl.contains(true)))
                && ((file_scan(ts, 0) matches Some(fl) && !fl.contains(true)) ==> (r matches Err(
                    ParseError::General { message, span },
                ) && message@ == "expression did not contain a schedule"@ && span == Span { offset: 0, len: 0 }))
            &&& r matches Ok(k) ==> exists|f: Croniqfile| #[trigger] parse_fits(src, f)
                && first_schedule_kind(f.items@) == Some(k)
        }),
{
    let mut source = String::new();
    push_str(&mut source, "job __sched__:__probe__ {\n");
    push_str(&mut source, expr);
    push_str(&mut source, "\n}\n");
    let ghost src = source@;
    let parsed = Parser::parse(source.as_str());
    let ghost pres = parsed;
    let mut ast = match parsed {
        Ok(a) => a,
        Err(e) => {
            return Err(e);
        },
    };
    let ghost items0 = ast.items@;
    let ghost flags0 = schedule_flags(items0);
    let ghost n0 = items0.len() as int;
    let mut found: Option<ScheduleKind> = None;
    while ast.items.len() > 0
        invariant
            forall|i: int| 0 <= i < ast.items@.len() ==> item_ok(#[trigger] ast.items@[i]),
            found matches Some(k) ==> schedule_kind_ok(k),
            n0 == items0.len(),
            flags0 == schedule_flags(items0),
            ast.items@.len() <= n0,
            ast.items@ == items0.take(ast.items@.len() as int),
            found is Some <==> flags0.subrange(ast.items@.len() as int, n0).contains(true),
            first_schedule_kind(items0) == match first_schedule_kind(ast.items@) {
                Some(k) => Some(k),
                None => found,
            },
        decreases ast.items@.len(),
    {
        let ghost before = ast.items@;
        let ghost l = before.len() as int;
        let item = ast.items.pop().unwrap();
        proof {
            assert(item == before[before.len() - 1]);
            assert forall|i: int| 0 <= i < ast.items@.len() implies item_ok(#[trigger] ast.items@[i]) by {
                assert(ast.items@[i] == before[i]);
            }
            assert(ast.items@ =~= items0.take(l - 1));
            assert(items0.take(l).drop_last() =~= items0.take(l - 1));
            assert(items0.take(l).last() == item);
            assert(before == items0.take(l));
            assert(item == items0[l - 1]);
            assert(flags0[l - 1] == has_schedule(item));
            let a = flags0.subrange(l - 1, n0);
            let b = flags0.subrange(l, n0);
            assert forall|k: int| 0 <= k < b.len() implies a[k + 1] == b[k] by {}
            if b.contains(true) {
                let k = choose|k: int| 0 <= k < b.len() && b[k] == true;
                assert(a[k + 1] == true);
            }
            if a.contains(true) {
                let k = choose|k: int| 0 <= k < a.len() && a[k] == true;
                if k > 0 {
                    assert(b[k - 1] == true);
                }
            }
            if flags0[l - 1] {
                assert(a[0] == true);
            }
        }
        match item {
            Item::Job(j) => {
                match j.schedule {
                    Some(s) => {
                        found = Some(s.kind);
                    },
                    None => {},
                }
            },
            _ => {},
        }
    }
    proof {
        assert(flags0.subrange(0, n0) =~= flags0);
        assert(items0.take(n0) =~= items0);
        if let Ok(tv) = spec_tokenize(src) {
            let ts = choose|ts: Seq<Token>| #[trigger] tokens_view(ts) == tv
                && (pres is Ok <==> file_scan(ts, 0) is Some)
                && (pres matches Ok(f) ==> file_scan(ts, 0) == Some(schedule_flags(f.items@)));
            assert(file_scan(ts, 0) == Some(flags0));
            assert(tokens_view(ts) == tv);
        }
        if let Ok(f) = pres {
            assert(parse_fits(src, f));
            assert(f.items@ == items0);
        }
    }
    match found {
        Some(k) => Ok(k),
        None => {
            let mut message = String::new();
            push_str(&mut message, "expression did not contain a schedule");
            Err(ParseError::General { message, span: Span::empty(0) })
        },
    }
}

/// The days of `start..end`, walking forward from `start` through the week
/// and wrapping after Sunday (`Sat..Mon` is Saturday, Sunday, Monday).
#[verifier::spinoff_prover]
#[verifier::rlimit(40)]
pub fn weekday_range(start: Weekday, end: Weekday) -> (r: Vec<Weekday>)
    ensures
        r@ == spec_weekday_range(start, end),
{
    let s = start.index();
    let e = end.index();
    let ghost n: int = ((e - s + 7) % 7) + 1;
    let mut out: Vec<Weekday> = Vec::new();
    let mut i: usize = s;
    loop
        invariant_except_break
            out@.len() < n,
            i == (s + out@.len()) % 7,
        invariant
            s < 7,
            e < 7,
            n == ((e - s + 7) % 7) + 1,
            i < 7,
            out@.len() <= n,
            forall|k: int| 0 <= k < out@.len() ==> #[trigger] out@[k] == weekday_at(((s + k) % 7) as nat),
        ensures
            out@.len() == n,
        decreases n - out@.len(),
    {
        let ghost len0 = out@.len();
        out.push(Weekday::from_index(i));
        if i == e {
            assert(len0 == (e - s + 7) % 7);
            break;
        }
        i = (i + 1) % 7;
        if out.len() >= 7 {
            break;
        }
    }
    proof {
        assert(out@ =~= spec_weekday_range(start, end));
    }
    out
}

/// Reads the compact interval form `15m`, `30s`, `2h`; `None` when `text`
/// is not in that form.
fn parse_compact_interval(text: &str) -> (r: Option<(u32, IntervalUnit)>)
    ensures
        r == spec_compact_interval(text@),
{
    let t = chars_of(text);
    if t.len() == 0 {
        return None;
    }
    let last = t[t.len() - 1];
    let unit = if last == 's' {
        IntervalUnit::Seconds
    } else if last == 'm' {
        IntervalUnit::Minutes
    } else if last == 'h' {
        IntervalUnit::Hours
    } else {
        return None;
    };
    if t.len() == 1 {
        return None;
    }
    let body = slice_chars(t.as_slice(), 0, t.len() - 1);
    assert(body@ == t@.drop_last());
    match parse_u32(body.as_slice()) {
        Some(v) => Some((v, unit)),
        None => None,
    }
}

impl Parser {
    closed spec fn wf(&self) -> bool {
        &&& self.tokens@.len() > 0
        &&& self.tokens@.last().kind is Eof
        &&& self.pos < self.tokens@.len()
        &&& forall|i: int| 0 <= i < self.tokens@.len() ==> span_ok(#[trigger] self.tokens@[i].span)
    }

    /// The token under the cursor.
    closed spec fn cur(&self) -> Token {
        self.tokens@[self.pos as int]
    }

    /// `next` reads the same stream as `self`, no earlier.
    closed spec fn follows(&self, next: &Parser) -> bool {
        &&& next.wf()
        &&& next.tokens == self.tokens
        &&& next.pos >= self.pos
    }

    /// Parse a Croniqfile source string into its syntax tree. A refused
    /// file gives the lexer's error, or the error of the refusal that
    /// `file_refusal` names where it covers the place (a bad job key gives
    /// `InvalidJobKey`, a bad time `InvalidTime`, a bad ordinal
    /// `InvalidOrdinal`).
    pub fn parse(source: &str) -> (r: Result<Croniqfile, ParseError>)
        ensures
            r matches Ok(f) ==> croniqfile_ok(f) && parse_fits(source@, f),
            r is Err ==> parse_refused(source@),
            spec_tokenize(source@) matches Err(e) ==> r == Err::<Croniqfile, ParseError>(ParseError::Lex(e)),
            spec_tokenize(source@) matches Ok(tv) ==> exists|ts: Seq<Token>| #[trigger] tokens_view(ts) == tv
                && (r is Ok <==> file_scan(ts, 0) is Some)
                && (r matches Ok(f) ==> file_scan(ts, 0) == Some(schedule_flags(f.items@))
                    && items_fit(ts, 0, f.items@) is Some)
                && (file_refusal(ts, 0) matches Some(v) ==> (r matches Err(e) && reports(e, v))),
    {
        let _n = source.as_bytes().len();
        let tokens = match Lexer::tokenize(source) {
            Ok(t) => t,
            Err(e) => {
                return Err(ParseError::Lex(e));
            },
        };
        let ghost ts = tokens@;
        let mut parser = Parser { tokens, pos: 0 };
        proof {
            assert(parser.wf());
        }
        let r = parser.parse_croniqfile();
        proof {
            assert(tokens_view(ts) == spec_tokenize(source@)->Ok_0);
        }
        r
    }

    fn peek(&self) -> (t: &Token)
        requires
            self.wf(),
        ensures
            *t == self.cur(),
    {
        &self.tokens[self.pos]
    }

    fn peek_span(&self) -> (s: Span)
        requires
            self.wf(),
        ensures
            s == self.cur().span,
            span_ok(s),
    {
        self.tokens[self.pos].span
    }

    fn at_end(&self) -> (b: bool)
        requires
            self.wf(),
        ensures
            b == self.cur().kind is Eof,
    {
        matches!(self.tokens[self.pos].kind, TokenKind::Eof)
    }

    fn peek_is_newline(&self) -> (b: bool)
        requires
            self.wf(),
        ensures
            b == self.cur().kind is Newline,
    {
        matches!(self.tokens[self.pos].kind, TokenKind::Newline)
    }

    fn peek_is_terminator(&self) -> (b: bool)
        requires
            self.wf(),
        ensures
            b == (self.cur().kind is Newline || self.cur().kind is Semicolon),
    {
        matches!(self.tokens[self.pos].kind, TokenKind::Newline | TokenKind::Semicolon)
    }

    fn peek_is_semicolon(&self) -> (b: bool)
        requires
            self.wf(),
        ensures
            b == self.cur().kind is Semicolon,
    {
        matches!(self.tokens[self.pos].kind, TokenKind::Semicolon)
    }

    fn peek_is_comment(&self) -> (b: bool)
        requires
            self.wf(),
        ensures
            b == self.cur().kind is Comment,
    {
        matches!(self.tokens[self.pos].kind, TokenKind::Comment(_))
    }

    fn peek_is_lbrace(&self) -> (b: bool)
        requires
            self.wf(),
        ensures
            b == self.cur().kind is LBrace,
    {
        matches!(self.tokens[self.pos].kind, TokenKind::LBrace)
    }

    fn peek_is_rbrace(&self) -> (b: bool)
        requires
            self.wf(),
        ensures
            b == self.cur().kind is RBrace,
    {
        matches!(self.tokens[self.pos].kind, TokenKind::RBrace)
    }

    fn peek_is_dotdot(&self) -> (b: bool)
        requires
            self.wf(),
        ensures
            b == self.cur().kind is DotDot,
    {
        matches!(self.tokens[self.pos].kind, TokenKind::DotDot)
    }

    /// Whether the cursor is on the identifier `name`.
    fn peek_is(&self, name: &str) -> (b: bool)
        requires
            self.wf(),
        ensures
            b == (self.cur().kind is Ident && spec_text(self.cur().kind) == name@),
    {
        self.tokens[self.pos].is_ident(name)
    }

    /// The text of the token under the cursor.
    fn peek_text(&self) -> (s: String)
        requires
            self.wf(),
        ensures
            s@ == spec_text(self.cur().kind),
    {
        let t = self.tokens[self.pos].text();
        let mut s = String::new();
        push_str(&mut s, t);
        s
    }

    /// Moves to the next token; stays on the final `Eof`.
    fn advance(&mut self)
        requires
            old(self).wf(),
        ensures
            old(self).follows(final(self)),
            !(old(self).cur().kind is Eof) ==> final(self).pos == old(self).pos + 1,
    {
        if self.pos < self.tokens.len() - 1 {
            self.pos = self.pos + 1;
        }
    }

    /// Skip newline tokens in structural positions.
    fn skip_newlines(&mut self)
        requires
            old(self).wf(),
        ensures
            old(self).follows(final(self)),
            !(final(self).cur().kind is Newline),
            final(self).pos == skip_newline_tokens(old(self).tokens@, old(self).pos as int),
    {
        while self.peek_is_newline()
            invariant
                old(self).follows(self),
                skip_newline_tokens(old(self).tokens@, old(self).pos as int)
                    == skip_newline_tokens(self.tokens@, self.pos as int),
            decreases self.tokens@.len() - self.pos,
        {
            self.advance();
        }
    }

    /// Skip semicolons and newlines.
    fn skip_terminators(&mut self)
        requires
            old(self).wf(),
        ensures
            old(self).follows(final(self)),
            !(final(self).cur().kind is Newline) && !(final(self).cur().kind is Semicolon),
            final(self).pos == skip_terminator_tokens(old(self).tokens@, old(self).pos as int),
    {
        while self.peek_is_terminator()
            invariant
                old(self).follows(self),
                skip_terminator_tokens(old(self).tokens@, old(self).pos as int)
                    == skip_terminator_tokens(self.tokens@, self.pos as int),
            decreases self.tokens@.len() - self.pos,
        {
            self.advance();
        }
    }

    /// An `Unexpected` error at the cursor.
    fn unexpected(&self, expected: &str) -> (e: ParseError)
        requires
            self.wf(),
        ensures
            is_unexpected(e, expected@, self.cur()),
    {
        let mut ex = String::new();
        push_str(&mut ex, expected);
        ParseError::Unexpected { expected: ex, got: self.tokens[self.pos].kind.describe(), span: self.tokens[self.pos].span }
    }

    /// A `General` error.
    fn general(message: String, span: Span) -> (e: ParseError)
        ensures
            e == (ParseError::General { message, span }),
    {
        ParseError::General { message, span }
    }

    fn expect_ident(&mut self, name: &str) -> (r: Result<Span, ParseError>)
        requires
            old(self).wf(),
        ensures
            old(self).follows(final(self)),
            r is Ok <==> (old(self).cur().kind is Ident && spec_text(old(self).cur().kind) == name@),
            r matches Ok(s) ==> s == old(self).cur().span && span_ok(s) && final(self).pos == old(self).pos + 1,
            r matches Err(e) ==> is_unexpected(e, quoted_word(name@), old(self).cur()),
    {
        let span = self.peek_span();
        if self.peek_is(name) {
            self.advance();
            Ok(span)
        } else {
            let mut ex = String::new();
            push_str(&mut ex, "'");
            push_str(&mut ex, name);
            push_str(&mut ex, "'");
            Err(ParseError::Unexpected { expected: ex, got: self.tokens[self.pos].kind.describe(), span })
        }
    }

    fn expect_lbrace(&mut self) -> (r: Result<Span, ParseError>)
        requires
            old(self).wf(),
        ensures
            old(self).follows(final(self)),
            r matches Ok(s) ==> span_ok(s) && final(self).pos > old(self).pos,
            ({
                let q = skip_newline_tokens(old(self).tokens@, old(self).pos as int);
                &&& r is Ok <==> old(self).tokens@[q].kind is LBrace
                &&& r matches Ok(s) ==> s == old(self).tokens@[q].span && final(self).pos == q + 1
                &&& r matches Err(e) ==> is_unexpected(e, "'{'"@, old(self).tokens@[q])
            }),
    {
        self.skip_newlines();
        let span = self.peek_span();
        if self.peek_is_lbrace() {
            self.advance();
            Ok(span)
        } else {
            Err(self.unexpected("'{'"))
        }
    }

    fn expect_rbrace(&mut self) -> (r: Result<Span, ParseError>)
        requires
            old(self).wf(),
        ensures
            old(self).follows(final(self)),
            r matches Ok(s) ==> span_ok(s) && final(self).pos > old(self).pos,
            ({
                let q = skip_newline_tokens(old(self).tokens@, old(self).pos as int);
                &&& r is Ok <==> old(self).tokens@[q].kind is RBrace
                &&& r matches Ok(s) ==> s == old(self).tokens@[q].span && final(self).pos == q + 1
                &&& r matches Err(e) ==> is_unexpected(e, "'}'"@, old(self).tokens@[q])
            }),
    {
        self.skip_newlines();
        let span = self.peek_span();
        if self.peek_is_rbrace() {
            self.advance();
            Ok(span)
        } else {
            Err(self.unexpected("'}'"))
        }
    }

    /// Whether the cursor is on an identifier, quoted string or placeholder.
    fn is_value_token(&self) -> (b: bool)
        requires
            self.wf(),
        ensures
            b == (self.cur().kind is Ident || self.cur().kind is QuotedString || self.cur().kind is Placeholder),
    {
        matches!(self.tokens[self.pos].kind, TokenKind::Ident(_) | TokenKind::QuotedString(_) | TokenKind::Placeholder(_))
    }

    /// Reads an identifier, quoted string or placeholder as a `StringValue`.
    fn read_string_value(&mut self) -> (r: Result<StringValue, ParseError>)
        requires
            old(self).wf(),
        ensures
            old(self).follows(final(self)),
            r is Ok <==> (old(self).cur().kind is Ident || old(self).cur().kind is QuotedString || old(self).cur().kind is Placeholder),
            r matches Ok(v) ==> {
                &&& v.value@ == spec_text(old(self).cur().kind)
                &&& v.quoted == old(self).cur().kind is QuotedString
                &&& v.is_placeholder == old(self).cur().kind is Placeholder
                &&& v.span == old(self).cur().span
                &&& span_ok(v.span)
                &&& final(self).pos == old(self).pos + 1
            },
            r matches Err(e) ==> is_unexpected(e, value_words(), old(self).cur()),
    {
        let span = self.peek_span();
        let (quoted, is_placeholder) = match &self.tokens[self.pos].kind {
            TokenKind::Ident(_) => (false, false),
            TokenKind::QuotedString(_) => (true, false),
            TokenKind::Placeholder(_) => (false, true),
            _ => {
                return Err(self.unexpected("identifier, string, or placeholder"));
            },
        };
        let value = self.peek_text();
        self.advance();
        Ok(StringValue { value, quoted, is_placeholder, span })
    }

    // ─── Top level ───

    #[verifier::spinoff_prover]
    #[verifier::rlimit(60)]
    fn parse_croniqfile(&mut self) -> (r: Result<Croniqfile, ParseError>)
        requires
            old(self).wf(),
        ensures
            r matches Ok(f) ==> croniqfile_ok(f),
            r is Ok <==> file_scan(old(self).tokens@, old(self).pos as int) is Some,
            r matches Ok(f) ==> file_scan(old(self).tokens@, old(self).pos as int) == Some(schedule_flags(f.items@)),
            r matches Ok(f) ==> items_fit(old(self).tokens@, old(self).pos as int, f.items@) is Some,
            file_refusal(old(self).tokens@, old(self).pos as int) matches Some(v) ==> (r matches Err(e) && reports(e, v)),
    {
        let ghost ts = self.tokens@;
        let ghost p0 = self.pos as int;
        let start = self.peek_span();
        let mut items: Vec<Item> = Vec::new();
        proof {
            if let Some(fl) = file_scan(ts, p0) {
                assert(schedule_flags(items@) + fl =~= fl);
            }
        }
        loop
            invariant_except_break
                items_fit(ts, p0, items@) == Some(self.pos as int),
            invariant
                old(self).follows(self),
                span_ok(start),
                forall|i: int| 0 <= i < items@.len() ==> item_ok(#[trigger] items@[i]),
                ts == self.tokens@,
                p0 == old(self).pos,
                file_scan(ts, p0) == match file_scan(ts, self.pos as int) {
                    Some(fl) => Some(schedule_flags(items@) + fl),
                    None => None::<Seq<bool>>,
                },
                file_refusal(ts, p0) == file_refusal(ts, self.pos as int),
            ensures
                old(self).follows(self),
                forall|i: int| 0 <= i < items@.len() ==> item_ok(#[trigger] items@[i]),
                file_scan(ts, p0) == Some(schedule_flags(items@)),
                items_fit(ts, p0, items@) is Some,
                file_refusal(ts, p0) is None,
            decreases self.tokens@.len() - self.pos,
        {
            let ghost i = self.pos as int;
            self.skip_terminators();
            proof {
                lemma_skip_terminator_bounds(ts, i);
            }
            if self.at_end() {
                proof {
                    assert(schedule_flags(items@) + Seq::<bool>::empty() =~= schedule_flags(items@));
                }
                break;
            }
            let ghost j = self.pos as int;
            proof {
                assert(skip_terminator_tokens(ts, j) == j);
            }
            let ghost before = schedule_flags(items@);
            let item = self.parse_item()?;
            let ghost b = has_schedule(item);
            let ghost before_items = items@;
            let ghost itg = item;
            items.push(item);
            proof {
                assert(items@.drop_last() =~= before_items);
                assert(items@.last() == itg);
                assert(schedule_flags(items@) =~= before.push(b));
                if let Some(fl) = file_scan(ts, self.pos as int) {
                    assert(before.push(b) + fl =~= before + (seq![b] + fl));
                }
            }
        }
        let end = self.peek_span();
        Ok(Croniqfile { items, span: start.merge(end) })
    }

    #[verifier::spinoff_prover]
    #[verifier::rlimit(80)]
    fn parse_item(&mut self) -> (r: Result<Item, ParseError>)
        requires
            old(self).wf(),
        ensures
            old(self).follows(final(self)),
            r matches Ok(it) ==> item_ok(it) && final(self).pos > old(self).pos,
            r is Ok <==> item_scan(old(self).tokens@, old(self).pos as int) is Some,
            r matches Ok(it) ==> item_scan(old(self).tokens@, old(self).pos as int) == Some((final(self).pos as int, has_schedule(it))),
            r matches Ok(it) ==> item_fits(old(self).tokens@, skip_terminator_tokens(old(self).tokens@, old(self).pos as int), it),
            item_refusal(old(self).tokens@, old(self).pos as int) matches Some(v) ==> (r matches Err(e) && reports(e, v)),
    {
        reveal(item_fits);
        self.skip_terminators();
        if self.peek_is_comment() {
            let c = self.parse_comment();
            return Ok(Item::Comment(c));
        }
        if !matches!(self.tokens[self.pos].kind, TokenKind::Ident(_)) {
            return Err(self.unexpected(
                "import, server, smtp, pull_api, observability, mcp, oidc, auth, policy, alerts, vars, defaults, calendar, concurrency_group, or job",
            ));
        }
        if self.peek_is("import") {
            Ok(Item::Import(self.parse_import()?))
        } else if self.peek_is("server") {
            let (directives, comments, span) = self.parse_directive_block("server")?;
            Ok(Item::Server(ServerBlock { directives, comments, span }))
        } else if self.peek_is("smtp") {
            let (directives, comments, span) = self.parse_directive_block("smtp")?;
            Ok(Item::Smtp(SmtpBlock { directives, comments, span }))
        } else if self.peek_is("pull_api") {
            let (directives, comments, span) = self.parse_directive_block("pull_api")?;
            Ok(Item::PullApi(PullApiBlock { directives, comments, span }))
        } else if self.peek_is("observability") {
            let (sub_blocks, comments, span) = self.parse_sub_block_list("observability")?;
            Ok(Item::Observability(ObservabilityBlock { sub_blocks, comments, span }))
        } else if self.peek_is("mcp") {
            let (directives, comments, span) = self.parse_directive_block("mcp")?;
            Ok(Item::Mcp(McpBlock { directives, comments, span }))
        } else if self.peek_is("oidc") {
            let (directives, comments, span) = self.parse_directive_block("oidc")?;
            Ok(Item::Oidc(OidcBlock { directives, comments, span }))
        } else if self.peek_is("auth") {
            let (sub_blocks, comments, span) = self.parse_sub_block_list("auth")?;
            Ok(Item::Auth(AuthBlock { sub_blocks, comments, span }))
        } else if self.peek_is("policy") {
            let (directives, comments, span) = self.parse_directive_block("policy")?;
            Ok(Item::Policy(PolicyBlock { directives, comments, span }))
        } else if self.peek_is("alerts") {
            Ok(Item::Alerts(self.parse_alerts()?))
        } else if self.peek_is("vars") {
            let (entries, comments, span) = self.parse_directive_block("vars")?;
            Ok(Item::Vars(VarsBlock { entries, comments, span }))
        } else if self.peek_is("defaults") {
            Ok(Item::Defaults(self.parse_defaults()?))
        } else if self.peek_is("calendar") {
            Ok(Item::Calendar(self.parse_calendar()?))
        } else if self.peek_is("concurrency_group") {
            Ok(Item::ConcurrencyGroup(self.parse_concurrency_group()?))
        } else if self.peek_is("job") {
            Ok(Item::Job(self.parse_job()?))
        } else {
            let other = self.peek_text();
            Err(Parser::general(concat3("unknown top-level block: '", other.as_str(), "'"), self.peek_span()))
        }
    }

    fn parse_comment(&mut self) -> (c: CommentNode)
        requires
            old(self).wf(),
            old(self).cur().kind is Comment,
        ensures
            old(self).follows(final(self)),
            final(self).pos == old(self).pos + 1,
            c.text@ == comment_text(old(self).cur().kind),
    {
        let span = self.peek_span();
        let text = match &self.tokens[self.pos].kind {
            TokenKind::Comment(t) => t.clone(),
            _ => String::new(),
        };
        self.advance();
        CommentNode { text, span }
    }

    fn parse_import(&mut self) -> (r: Result<Import, ParseError>)
        requires
            old(self).wf(),
        ensures
            old(self).follows(final(self)),
            r is Ok ==> final(self).pos > old(self).pos,
            ({
                let ts = old(self).tokens@;
                let p = old(self).pos as int;
                &&& r is Ok <==> (ts[p].kind is Ident && spec_text(ts[p].kind) == "import"@
                    && is_value_kind(ts[p + 1].kind))
                &&& r matches Ok(i) ==> {
                    &&& i.path.value@ == spec_text(ts[p + 1].kind)
                    &&& i.path.quoted == ts[p + 1].kind is QuotedString
                    &&& i.path.is_placeholder == ts[p + 1].kind is Placeholder
                    &&& i.path.span == ts[p + 1].span
                    &&& i.span == spec_merge(ts[p].span, ts[p + 1].span)
                    &&& final(self).pos == p + 2
                }
                &&& ident_is(ts[p], "import"@) && !is_value_kind(ts[p + 1].kind) ==> (r matches Err(e)
                    && is_unexpected(e, value_words(), ts[p + 1]))
            }),
    {
        let start = self.expect_ident("import")?;
        let path = self.read_string_value()?;
        Ok(Import { span: start.merge(path.span), path })
    }

    /// `<keyword> { directive … }`, the shape of `server`, `smtp`,
    /// `pull_api`, `mcp`, `oidc`, `policy` and `vars`.
    fn parse_directive_block(&mut self, keyword: &str) -> (r: Result<(Vec<Directive>, Vec<BodyComment>, Span), ParseError>)
        requires
            old(self).wf(),
        ensures
            old(self).follows(final(self)),
            r is Ok ==> final(self).pos > old(self).pos,
            ({
                let ts = old(self).tokens@;
                let p = old(self).pos as int;
                &&& r is Ok <==> (ident_is(ts[p], keyword@) && braced_directives(ts, p + 1) is Some)
                &&& r matches Ok((ds, cs, sp)) ==> braced_directives(ts, p + 1) == Some((final(self).pos - 1, directives_v(ds@)))
                    && sp == spec_merge(ts[p].span, ts[final(self).pos - 1].span)
                    && comments_v(cs@) == braced_comments(ts, p + 1)
                &&& ident_is(ts[p], keyword@) ==> (braced_directives_refusal(ts, p + 1) matches Some(v)
                    ==> (r matches Err(e) && reports(e, v)))
            }),
    {
        let start = self.expect_ident(keyword)?;
        let (directives, comments, end) = self.read_braced_directives()?;
        Ok((directives, comments, start.merge(end)))
    }

    /// `{ directive … }` from the cursor (line breaks before `{` skipped),
    /// with the span of the closing `}`.
    fn read_braced_directives(&mut self) -> (r: Result<(Vec<Directive>, Vec<BodyComment>, Span), ParseError>)
        requires
            old(self).wf(),
        ensures
            old(self).follows(final(self)),
            r matches Ok((_, _, sp)) ==> final(self).pos > old(self).pos && span_ok(sp),
            ({
                let ts = old(self).tokens@;
                let p = old(self).pos as int;
                &&& r is Ok <==> braced_directives(ts, p) is Some
                &&& r matches Ok((ds, cs, sp)) ==> braced_directives(ts, p) == Some((final(self).pos - 1, directives_v(ds@)))
                    && sp == ts[final(self).pos - 1].span && comments_v(cs@) == braced_comments(ts, p)
                &&& braced_directives_refusal(ts, p) matches Some(v) ==> (r matches Err(e) && reports(e, v))
            }),
    {
        let ghost ts = self.tokens@;
        self.expect_lbrace()?;
        let (directives, comments) = self.parse_directives_until_rbrace()?;
        let ghost e = self.pos as int;
        proof {
            assert(skip_newline_tokens(ts, e) == e);
        }
        let end = self.expect_rbrace()?;
        Ok((directives, comments, end))
    }

    /// `<keyword> { name { … } … }`, the shape of `observability` and `auth`.
    #[verifier::spinoff_prover]
    fn parse_sub_block_list(&mut self, keyword: &str) -> (r: Result<(Vec<NamedBlock>, Vec<BodyComment>, Span), ParseError>)
        requires
            old(self).wf(),
        ensures
            old(self).follows(final(self)),
            r is Ok ==> final(self).pos > old(self).pos,
            ({
                let ts = old(self).tokens@;
                let p = old(self).pos as int;
                &&& r is Ok <==> (ident_is(ts[p], keyword@) && braced_sub_blocks(ts, p + 1, false) is Some)
                &&& r matches Ok((bs, _, sp)) ==> braced_sub_blocks(ts, p + 1, false) == Some((final(self).pos - 1, blocks_v(bs@)))
                    && sp == spec_merge(ts[p].span, ts[final(self).pos - 1].span)
                &&& r matches Ok((_, cs, _)) ==> comments_v(cs@) == braced_sub_block_comments(ts, p + 1, false)
            }),
    {
        let ghost ts = self.tokens@;
        let start = self.expect_ident(keyword)?;
        self.expect_lbrace()?;
        let ghost p0 = self.pos as int;
        let mut sub_blocks: Vec<NamedBlock> = Vec::new();
        let mut comments: Vec<BodyComment> = Vec::new();
        proof {
            assert(comments_v(comments@) + sub_block_comments(ts, p0, false, 0) =~= sub_block_comments(ts, p0, false, 0));
            if let Some((f, ks)) = sub_blocks_scan(ts, p0, false) {
                assert(blocks_v(sub_blocks@) + ks =~= ks);
            }
        }
        loop
            invariant
                old(self).follows(self),
                self.pos > old(self).pos,
                ts == self.tokens@,
                p0 > old(self).pos,
                p0 == skip_newline_tokens(ts, old(self).pos + 1) + 1,
                ts[p0 - 1].kind is LBrace,
                ident_is(ts[old(self).pos as int], keyword@),
                sub_blocks_scan(ts, p0, false) == match sub_blocks_scan(ts, self.pos as int, false) {
                    Some((f, ks)) => Some((f, blocks_v(sub_blocks@) + ks)),
                    None => None::<(int, Seq<EntryV>)>,
                },
                sub_block_comments(ts, p0, false, 0) == comments_v(comments@)
                    + sub_block_comments(ts, self.pos as int, false, sub_blocks@.len() as nat),
            ensures
                old(self).follows(self),
                self.pos > old(self).pos,
                sub_blocks_scan(ts, p0, false) == Some((self.pos as int, blocks_v(sub_blocks@))),
                self.cur().kind is RBrace || self.cur().kind is Eof,
                sub_block_comments(ts, p0, false, 0) == comments_v(comments@),
            decreases self.tokens@.len() - self.pos,
        {
            let ghost i = self.pos as int;
            self.skip_newlines();
            proof {
                lemma_skip_newline_bounds(ts, i);
            }
            if self.peek_is_rbrace() || self.at_end() {
                proof {
                    assert(blocks_v(sub_blocks@) + Seq::<EntryV>::empty() =~= blocks_v(sub_blocks@));
                    assert(comments_v(comments@) + Seq::<(nat, Seq<char>)>::empty() =~= comments_v(comments@));
                }
                break;
            }
            if self.peek_is_comment() {
                let ghost j = self.pos as int;
                let ghost before_c = comments_v(comments@);
                let c = self.parse_comment();
                let bc = BodyComment { before: sub_blocks.len(), comment: c };
                let ghost item = (sub_blocks@.len() as nat, comment_text(ts[j].kind));
                comments.push(bc);
                proof {
                    assert(comments_v(comments@) =~= before_c.push(item));
                    assert(before_c.push(item) + sub_block_comments(ts, self.pos as int, false, sub_blocks@.len() as nat)
                        =~= before_c + (seq![item] + sub_block_comments(ts, self.pos as int, false, sub_blocks@.len() as nat)));
                }
                continue;
            }
            let ghost before = blocks_v(sub_blocks@);
            let b = self.parse_named_block()?;
            let ghost name = block_v(b);
            sub_blocks.push(b);
            proof {
                assert(blocks_v(sub_blocks@) =~= before.push(name));
                if let Some((f, ks)) = sub_blocks_scan(ts, self.pos as int, false) {
                    assert(before.push(name) + ks =~= before + (seq![name] + ks));
                }
            }
        }
        let ghost e = self.pos as int;
        proof {
            assert(skip_newline_tokens(ts, e) == e);
        }
        let end = self.expect_rbrace()?;
        Ok((sub_blocks, comments, start.merge(end)))
    }

    /// `alerts { channel "name" { … } rule "name" { … } }`; each sub-block
    /// needs a name qualifier.
    #[verifier::spinoff_prover]
    fn parse_alerts(&mut self) -> (r: Result<AlertsBlock, ParseError>)
        requires
            old(self).wf(),
        ensures
            old(self).follows(final(self)),
            r matches Ok(a) ==> final(self).pos > old(self).pos && forall|i: int| 0 <= i < a.sub_blocks@.len() ==> (#[trigger] a.sub_blocks@[i]).qualifier is Some,
            ({
                let ts = old(self).tokens@;
                let p = old(self).pos as int;
                &&& r is Ok <==> (ident_is(ts[p], "alerts"@) && braced_sub_blocks(ts, p + 1, true) is Some)
                &&& r matches Ok(a) ==> braced_sub_blocks(ts, p + 1, true) == Some((final(self).pos - 1, blocks_v(a.sub_blocks@)))
                    && a.span == spec_merge(ts[p].span, ts[final(self).pos - 1].span)
                &&& r matches Ok(a) ==> comments_v(a.comments@) == braced_sub_block_comments(ts, p + 1, true)
            }),
    {
        let ghost ts = self.tokens@;
        let start = self.expect_ident("alerts")?;
        self.expect_lbrace()?;
        let ghost p0 = self.pos as int;
        let mut sub_blocks: Vec<NamedBlock> = Vec::new();
        let mut comments: Vec<BodyComment> = Vec::new();
        proof {
            assert(comments_v(comments@) + sub_block_comments(ts, p0, true, 0) =~= sub_block_comments(ts, p0, true, 0));
            if let Some((f, ks)) = sub_blocks_scan(ts, p0, true) {
                assert(blocks_v(sub_blocks@) + ks =~= ks);
            }
        }
        loop
            invariant
                old(self).follows(self),
                self.pos > old(self).pos,
                forall|i: int| 0 <= i < sub_blocks@.len() ==> (#[trigger] sub_blocks@[i]).qualifier is Some,
                ts == self.tokens@,
                p0 > old(self).pos,
                p0 == skip_newline_tokens(ts, old(self).pos + 1) + 1,
                ts[p0 - 1].kind is LBrace,
                ident_is(ts[old(self).pos as int], "alerts"@),
                sub_blocks_scan(ts, p0, true) == match sub_blocks_scan(ts, self.pos as int, true) {
                    Some((f, ks)) => Some((f, blocks_v(sub_blocks@) + ks)),
                    None => None::<(int, Seq<EntryV>)>,
                },
                sub_block_comments(ts, p0, true, 0) == comments_v(comments@)
                    + sub_block_comments(ts, self.pos as int, true, sub_blocks@.len() as nat),
            ensures
                old(self).follows(self),
                self.pos > old(self).pos,
                forall|i: int| 0 <= i < sub_blocks@.len() ==> (#[trigger] sub_blocks@[i]).qualifier is Some,
                sub_blocks_scan(ts, p0, true) == Some((self.pos as int, blocks_v(sub_blocks@))),
                self.cur().kind is RBrace || self.cur().kind is Eof,
                sub_block_comments(ts, p0, true, 0) == comments_v(comments@),
            decreases self.tokens@.len() - self.pos,
        {
            let ghost i = self.pos as int;
            self.skip_newlines();
            proof {
                lemma_skip_newline_bounds(ts, i);
            }
            if self.peek_is_rbrace() || self.at_end() {
                proof {
                    assert(blocks_v(sub_blocks@) + Seq::<EntryV>::empty() =~= blocks_v(sub_blocks@));
                    assert(comments_v(comments@) + Seq::<(nat, Seq<char>)>::empty() =~= comments_v(comments@));
                }
                break;
            }
            if self.peek_is_comment() {
                let ghost j = self.pos as int;
                let ghost before_c = comments_v(comments@);
                let c = self.parse_comment();
                let bc = BodyComment { before: sub_blocks.len(), comment: c };
                let ghost item = (sub_blocks@.len() as nat, comment_text(ts[j].kind));
                comments.push(bc);
                proof {
                    assert(comments_v(comments@) =~= before_c.push(item));
                    assert(before_c.push(item) + sub_block_comments(ts, self.pos as int, true, sub_blocks@.len() as nat)
                        =~= before_c + (seq![item] + sub_block_comments(ts, self.pos as int, true, sub_blocks@.len() as nat)));
                }
                continue;
            }
            let ghost before = blocks_v(sub_blocks@);
            let name = self.read_string_value()?;
            let name_span = name.span;
            if self.peek_is_lbrace() {
                let mut message = String::new();
                push_str(&mut message, "expected a string identifier after `");
                push_str(&mut message, name.value.as_str());
                push_str(&mut message, "` (e.g. `");
                push_str(&mut message, name.value.as_str());
                push_str(&mut message, " \"name\" { … }`)");
                return Err(Parser::general(message, name_span));
            }
            let qualifier = self.read_string_value()?;
            let (directives, end) = self.read_braced_entries()?;
            let nb = NamedBlock { name, qualifier: Some(qualifier), directives, span: name_span.merge(end) };
            let ghost key = block_v(nb);
            sub_blocks.push(nb);
            proof {
                assert(blocks_v(sub_blocks@) =~= before.push(key));
                if let Some((f, ks)) = sub_blocks_scan(ts, self.pos as int, true) {
                    assert(before.push(key) + ks =~= before + (seq![key] + ks));
                }
            }
        }
        let ghost e = self.pos as int;
        proof {
            assert(skip_newline_tokens(ts, e) == e);
        }
        let end = self.expect_rbrace()?;
        Ok(AlertsBlock { sub_blocks, comments, span: start.merge(end) })
    }

    fn parse_defaults(&mut self) -> (r: Result<DefaultsBlock, ParseError>)
        requires
            old(self).wf(),
        ensures
            old(self).follows(final(self)),
            r is Ok ==> final(self).pos > old(self).pos,
            ({
                let ts = old(self).tokens@;
                let p = old(self).pos as int;
                &&& r is Ok <==> (ident_is(ts[p], "defaults"@) && braced_entries(ts, p + 1) is Some)
                &&& r matches Ok(d) ==> braced_entries(ts, p + 1) == Some((final(self).pos - 1, entries_v(d.directives@)))
                    && d.span == spec_merge(ts[p].span, ts[final(self).pos - 1].span)
            }),
    {
        let start = self.expect_ident("defaults")?;
        let (directives, end) = self.read_braced_entries()?;
        Ok(DefaultsBlock { directives, span: start.merge(end) })
    }

    // ─── Calendar ───

    #[verifier::spinoff_prover]
    fn parse_calendar(&mut self) -> (r: Result<CalendarBlock, ParseError>)
        requires
            old(self).wf(),
        ensures
            old(self).follows(final(self)),
            r is Ok ==> final(self).pos > old(self).pos,
            ({
                let ts = old(self).tokens@;
                let p = old(self).pos as int;
                &&& r is Ok <==> (ident_is(ts[p], "calendar"@) && is_value_kind(ts[p + 1].kind)
                    && braced_rules(ts, p + 2) is Some)
                &&& r matches Ok(c) ==> value_v(c.name) == token_value(ts[p + 1]) && c.name.span == ts[p + 1].span
                    && braced_rules(ts, p + 2) == Some((final(self).pos - 1, rules_v(c.rules@)))
                    && c.span == spec_merge(ts[p].span, ts[final(self).pos - 1].span)
                    && comments_v(c.comments@) == rule_comments(ts, skip_newline_tokens(ts, p + 2) + 1, 0)
                &&& ident_is(ts[p], "calendar"@) ==> (calendar_refusal(ts, p) matches Some(v) ==> (r matches Err(e)
                    && reports(e, v)))
            }),
    {
        let ghost ts = self.tokens@;
        let start = self.expect_ident("calendar")?;
        let name = self.read_string_value()?;
        self.expect_lbrace()?;
        let ghost p0 = self.pos as int;
        let mut rules: Vec<CalendarRule> = Vec::new();
        let mut comments: Vec<BodyComment> = Vec::new();
        proof {
            assert(comments_v(comments@) + rule_comments(ts, p0, 0) =~= rule_comments(ts, p0, 0));
            if let Some((f, ks)) = rules_scan(ts, p0) {
                assert(rules_v(rules@) + ks =~= ks);
            }
        }
        loop
            invariant
                old(self).follows(self),
                self.pos > old(self).pos,
                ts == self.tokens@,
                p0 > old(self).pos + 1,
                p0 == skip_newline_tokens(ts, old(self).pos + 2) + 1,
                ts[p0 - 1].kind is LBrace,
                ident_is(ts[old(self).pos as int], "calendar"@),
                is_value_kind(ts[old(self).pos + 1].kind),
                value_v(name) == token_value(ts[old(self).pos + 1]) && name.span == ts[old(self).pos + 1].span,
                span_ok(start),
                rules_scan(ts, p0) == match rules_scan(ts, self.pos as int) {
                    Some((f, ks)) => Some((f, rules_v(rules@) + ks)),
                    None => None::<(int, Seq<RuleV>)>,
                },
                rule_comments(ts, p0, 0) == comments_v(comments@) + rule_comments(ts, self.pos as int, rules@.len() as nat),
                rules_refusal(ts, p0) == rules_refusal(ts, self.pos as int),
            ensures
                old(self).follows(self),
                self.pos > old(self).pos,
                rules_scan(ts, p0) == Some((self.pos as int, rules_v(rules@))),
                self.cur().kind is RBrace || self.cur().kind is Eof,
                rule_comments(ts, p0, 0) == comments_v(comments@),
                rules_refusal(ts, p0) == if self.cur().kind is Eof {
                    Some(Refusal::Unexpected { expected: "'}'"@, token: self.cur() })
                } else {
                    None
                },
            decreases self.tokens@.len() - self.pos,
        {
            let ghost i = self.pos as int;
            self.skip_newlines();
            proof {
                lemma_skip_newline_bounds(ts, i);
            }
            if self.peek_is_rbrace() || self.at_end() {
                proof {
                    assert(rules_v(rules@) + Seq::<RuleV>::empty() =~= rules_v(rules@));
                    assert(comments_v(comments@) + Seq::<(nat, Seq<char>)>::empty() =~= comments_v(comments@));
                }
                break;
            }
            if self.peek_is_comment() {
                let ghost j = self.pos as int;
                let ghost before_c = comments_v(comments@);
                let c = self.parse_comment();
                let bc = BodyComment { before: rules.len(), comment: c };
                let ghost item = (rules@.len() as nat, comment_text(ts[j].kind));
                comments.push(bc);
                proof {
                    assert(comments_v(comments@) =~= before_c.push(item));
                    assert(before_c.push(item) + rule_comments(ts, self.pos as int, rules@.len() as nat)
                        =~= before_c + (seq![item] + rule_comments(ts, self.pos as int, rules@.len() as nat)));
                }
                continue;
            }
            if self.peek_is_semicolon() {
                self.advance();
                continue;
            }
            let ghost before = rules_v(rules@);
            let ghost j = self.pos as int;
            let rule = match self.parse_calendar_rule() {
                Ok(rule) => rule,
                Err(e) => {
                    proof {
                        assert(rules_refusal(ts, i) == rule_refusal(ts, j));
                    }
                    return Err(e);
                },
            };
            let ghost t = rule_v(rule);
            rules.push(rule);
            proof {
                assert(rules_v(rules@) =~= before.push(t));
                if let Some((f, ks)) = rules_scan(ts, self.pos as int) {
                    assert(before.push(t) + ks =~= before + (seq![t] + ks));
                }
            }
        }
        let ghost e = self.pos as int;
        proof {
            assert(skip_newline_tokens(ts, e) == e);
        }
        let end = self.expect_rbrace()?;
        Ok(CalendarBlock { name, rules, comments, span: start.merge(end) })
    }

    /// `concurrency_group <name> { max_concurrent N }`
    fn parse_concurrency_group(&mut self) -> (r: Result<ConcurrencyGroupBlock, ParseError>)
        requires
            old(self).wf(),
        ensures
            old(self).follows(final(self)),
            r is Ok ==> final(self).pos > old(self).pos,
            ({
                let ts = old(self).tokens@;
                let p = old(self).pos as int;
                &&& r is Ok <==> (ident_is(ts[p], "concurrency_group"@) && is_value_kind(ts[p + 1].kind)
                    && braced_directives(ts, p + 2) is Some)
                &&& r matches Ok(g) ==> value_v(g.name) == token_value(ts[p + 1]) && g.name.span == ts[p + 1].span
                    && braced_directives(ts, p + 2) == Some((final(self).pos - 1, directives_v(g.directives@)))
                    && comments_v(g.comments@) == braced_comments(ts, p + 2)
                    && g.span == spec_merge(ts[p].span, ts[final(self).pos - 1].span)
                &&& ident_is(ts[p], "concurrency_group"@) ==> (group_refusal(ts, p) matches Some(v)
                    ==> (r matches Err(e) && reports(e, v)))
            }),
    {
        let start = self.expect_ident("concurrency_group")?;
        let name = self.read_string_value()?;
        let (directives, comments, end) = self.read_braced_directives()?;
        Ok(ConcurrencyGroupBlock { name, directives, comments, span: start.merge(end) })
    }

    /// One calendar rule: `include|exclude <type> args…` or
    /// `timezone <zone>`. `weekly` ranges and aliases expand to day names,
    /// `monthly` numeric ranges to day numbers; other ranges keep both ends.
    #[verifier::spinoff_prover]
    #[verifier::rlimit(60)]
    fn parse_calendar_rule(&mut self) -> (r: Result<CalendarRule, ParseError>)
        requires
            old(self).wf(),
        ensures
            old(self).follows(final(self)),
            r is Ok ==> final(self).pos > old(self).pos,
            ({
                let ts = old(self).tokens@;
                let p = old(self).pos as int;
                let t0 = spec_text(ts[p].kind);
                &&& r is Ok <==> rule_scan(ts, p) is Some
                &&& r matches Ok(c) ==> rule_scan(ts, p) == Some((final(self).pos as int, rule_v(c)))
                    && c.kind == (if t0 == "exclude"@ { CalendarRuleKind::Exclude } else { CalendarRuleKind::Include })
                &&& r matches Ok(c) ==> (t0 == "timezone"@ ==> c.args@.len() == 1 && c.args@[0].value@ == spec_text(ts[p + 1].kind))
                &&& r matches Ok(c) ==> (t0 != "timezone"@ ==> rule_args_scan(ts, p + 2,
                    rule_is(c.rule_type.value@, "weekly"@), rule_is(c.rule_type.value@, "monthly"@))
                    == Some((final(self).pos as int, arg_texts(c.args@))))
                &&& rule_refusal(ts, p) matches Some(v) ==> (r matches Err(e) && reports(e, v))
            }),
    {
        let ghost ts = self.tokens@;
        let ghost p0 = self.pos as int;
        proof {
            reveal_strlit("include");
            reveal_strlit("exclude");
            reveal_strlit("timezone");
            assert("include"@.len() == 7 && "exclude"@.len() == 7 && "timezone"@.len() == 8);
            assert("include"@[0] == 'i' && "exclude"@[0] == 'e');
        }
        let tok_span = self.peek_span();
        let text = self.peek_text();
        let kind = if crate::text::str_eq(text.as_str(), "include") {
            CalendarRuleKind::Include
        } else if crate::text::str_eq(text.as_str(), "exclude") {
            CalendarRuleKind::Exclude
        } else if crate::text::str_eq(text.as_str(), "timezone") {
            let key = self.read_string_value()?;
            let tz = self.read_string_value()?;
            let span = tok_span.merge(self.peek_span());
            let args = vec![tz];
            proof {
                assert(args@.len() == 1);
                assert(arg_texts(args@) =~= seq![spec_text(ts[p0 + 1].kind)]);
                assert(rule_refusal(ts, p0) is None);
            }
            return Ok(CalendarRule { kind: CalendarRuleKind::Include, rule_type: key, args, span });
        } else {
            return Err(Parser::general(
                concat3("expected 'include', 'exclude', or 'timezone', got '", text.as_str(), "'"),
                tok_span,
            ));
        };
        let start = self.read_string_value()?;
        let rule_type = self.read_string_value()?;
        proof {
            assert(rule_refusal(ts, p0) is None);
        }
        let rule_lower = lower_chars(chars_of(rule_type.value.as_str()).as_slice());
        let weekly = chars_is(rule_lower.as_slice(), "weekly");
        let monthly = chars_is(rule_lower.as_slice(), "monthly");
        let mut args: Vec<StringValue> = Vec::new();
        proof {
            if let Some((e, vs)) = rule_args_scan(ts, p0 + 2, weekly, monthly) {
                assert(arg_texts(args@) + vs =~= vs);
            }
        }
        while self.is_value_token() && !self.peek_is("include") && !self.peek_is("exclude") && !self.peek_is("timezone")
            invariant_except_break
                rule_args_scan(ts, p0 + 2, weekly, monthly) == match rule_args_scan(ts, self.pos as int, weekly, monthly) {
                    Some((e, vs)) => Some((e, arg_texts(args@) + vs)),
                    None => None::<(int, Seq<Seq<char>>)>,
                },
            invariant
                old(self).follows(self),
                self.pos > old(self).pos,
                forall|i: int| 0 <= i < args@.len() ==> span_ok(#[trigger] args@[i].span),
                ts == self.tokens@,
                p0 == old(self).pos,
                rule_scan(ts, p0) == (match rule_args_scan(ts, p0 + 2, weekly, monthly) {
                    Some((n, vs)) => Some((n, RuleV {
                        exclude: kind == CalendarRuleKind::Exclude,
                        rule_type: value_v(rule_type),
                        args: vs,
                    })),
                    None => None::<(int, RuleV)>,
                }),
                weekly == rule_is(rule_type.value@, "weekly"@),
                monthly == rule_is(rule_type.value@, "monthly"@),
                kind == (if spec_text(ts[p0].kind) == "exclude"@ { CalendarRuleKind::Exclude } else { CalendarRuleKind::Include }),
                spec_text(ts[p0].kind) != "timezone"@,
                span_ok(start.span) && span_ok(rule_type.span),
                rule_refusal(ts, p0) is None,
            ensures
                old(self).follows(self),
                self.pos > old(self).pos,
                forall|i: int| 0 <= i < args@.len() ==> span_ok(#[trigger] args@[i].span),
                rule_args_scan(ts, p0 + 2, weekly, monthly) == Some((self.pos as int, arg_texts(args@))),
            decreases self.tokens@.len() - self.pos,
        {
            let ghost i = self.pos as int;
            let ghost before = arg_texts(args@);
            let first = self.read_string_value()?;
            let ghost here: Seq<Seq<char>>;
            if self.peek_is_dotdot() {
                self.advance();
                let second = self.read_string_value()?;
                let range_span = first.span.merge(second.span);
                let mut expanded = false;
                if weekly {
                    match (Weekday::parse(first.value.as_str()), Weekday::parse(second.value.as_str())) {
                        (Some(s), Some(e)) => {
                            let days = weekday_range(s, e);
                            let mut k: usize = 0;
                            proof {
                                assert(arg_texts(args@) =~= before + days@.take(0).map_values(|d: Weekday| full_name(d)));
                            }
                            while k < days.len()
                                invariant
                                    k <= days@.len(),
                                    span_ok(range_span),
                                    forall|i: int| 0 <= i < args@.len() ==> span_ok(#[trigger] args@[i].span),
                                    arg_texts(args@) == before + days@.take(k as int).map_values(|d: Weekday| full_name(d)),
                                decreases days@.len() - k,
                            {
                                let ghost prev = arg_texts(args@);
                                let mut value = String::new();
                                push_str(&mut value, days[k].as_str());
                                args.push(StringValue { value, quoted: false, is_placeholder: false, span: range_span });
                                proof {
                                    assert(arg_texts(args@) =~= prev.push(full_name(days@[k as int])));
                                    assert(days@.take(k + 1).map_values(|d: Weekday| full_name(d))
                                        =~= days@.take(k as int).map_values(|d: Weekday| full_name(d)).push(full_name(days@[k as int])));
                                }
                                k = k + 1;
                            }
                            proof {
                                assert(days@.take(days@.len() as int) =~= days@);
                            }
                            expanded = true;
                        },
                        _ => {},
                    }
                } else if monthly {
                    let a = parse_u32(chars_of(first.value.as_str()).as_slice());
                    let b = parse_u32(chars_of(second.value.as_str()).as_slice());
                    match (a, b) {
                        (Some(a), Some(b)) => {
                            if a <= 31 && b <= 31 && a <= b {
                                let mut d: u32 = a;
                                proof {
                                    assert(arg_texts(args@) =~= before + Seq::new(0nat, |k: int| decimal((a + k) as nat)));
                                }
                                while d <= b
                                    invariant
                                        a <= d <= b + 1,
                                        b <= 31,
                                        span_ok(range_span),
                                        forall|i: int| 0 <= i < args@.len() ==> span_ok(#[trigger] args@[i].span),
                                        arg_texts(args@) == before + Seq::new((d - a) as nat, |k: int| decimal((a + k) as nat)),
                                    decreases b + 1 - d,
                                {
                                    let ghost prev = arg_texts(args@);
                                    let value = decimal_string(d as u64);
                                    args.push(StringValue { value, quoted: false, is_placeholder: false, span: range_span });
                                    proof {
                                        assert(arg_texts(args@) =~= prev.push(decimal(d as nat)));
                                        assert(Seq::new((d + 1 - a) as nat, |k: int| decimal((a + k) as nat))
                                            =~= Seq::new((d - a) as nat, |k: int| decimal((a + k) as nat)).push(decimal(d as nat)));
                                    }
                                    d = d + 1;
                                }
                                expanded = true;
                            }
                        },
                        _ => {},
                    }
                }
                if !expanded {
                    let ghost fv = first.value@;
                    let ghost sv = second.value@;
                    args.push(first);
                    args.push(second);
                    proof {
                        assert(arg_texts(args@) =~= before + seq![fv, sv]);
                    }
                }
                proof {
                    here = range_texts(spec_text(ts[i].kind), spec_text(ts[i + 2].kind), weekly, monthly);
                    assert(arg_texts(args@) =~= before + here);
                }
            } else {
                let group = if weekly && !first.is_placeholder {
                    Weekday::parse_group(first.value.as_str())
                } else {
                    None
                };
                match group {
                    Some(days) => {
                        let mut k: usize = 0;
                        proof {
                            assert(arg_texts(args@) =~= before + days@.take(0).map_values(|d: Weekday| full_name(d)));
                        }
                        while k < days.len()
                            invariant
                                k <= days@.len(),
                                span_ok(first.span),
                                forall|i: int| 0 <= i < args@.len() ==> span_ok(#[trigger] args@[i].span),
                                arg_texts(args@) == before + days@.take(k as int).map_values(|d: Weekday| full_name(d)),
                            decreases days@.len() - k,
                        {
                            let ghost prev = arg_texts(args@);
                            let mut value = String::new();
                            push_str(&mut value, days[k].as_str());
                            args.push(StringValue { value, quoted: false, is_placeholder: false, span: first.span });
                            proof {
                                assert(arg_texts(args@) =~= prev.push(full_name(days@[k as int])));
                                assert(days@.take(k + 1).map_values(|d: Weekday| full_name(d))
                                    =~= days@.take(k as int).map_values(|d: Weekday| full_name(d)).push(full_name(days@[k as int])));
                            }
                            k = k + 1;
                        }
                        proof {
                            assert(days@.take(days@.len() as int) =~= days@);
                        }
                    },
                    None => {
                        let ghost fv = first.value@;
                        args.push(first);
                        proof {
                            assert(arg_texts(args@) =~= before + seq![fv]);
                        }
                    },
                }
                proof {
                    here = single_texts(ts[i].kind, weekly);
                    assert(arg_texts(args@) =~= before + here);
                }
            }
            proof {
                if let Some((e, vs)) = rule_args_scan(ts, self.pos as int, weekly, monthly) {
                    assert(before + here + vs =~= before + (here + vs));
                }
            }
            if self.peek_is_terminator() {
                self.advance();
                break;
            }
        }
        let last_span = if args.len() > 0 { args[args.len() - 1].span } else { rule_type.span };
        let span = start.span.merge(last_span);
        Ok(CalendarRule { kind, rule_type, args, span })
    }

    // ─── Job ───

    #[verifier::spinoff_prover]
    #[verifier::rlimit(100)]
    fn parse_job(&mut self) -> (r: Result<JobBlock, ParseError>)
        requires
            old(self).wf(),
        ensures
            old(self).follows(final(self)),
            r matches Ok(j) ==> job_ok(j) && final(self).pos > old(self).pos,
            ({
                let ts = old(self).tokens@;
                let p = old(self).pos as int;
                &&& r is Ok <==> (ident_is(ts[p], "job"@) && job_key_at(ts, p + 1) && braced_job_body(ts, p + 2) is Some)
                &&& r matches Ok(j) ==> j.key.raw@ == key_text(ts[p + 1].kind)->0
                    && j.key.quoted == ts[p + 1].kind is QuotedString
                    && (braced_job_body(ts, p + 2) matches Some((e, es, sc)) && e == final(self).pos - 1
                        && es == entries_v(j.directives@) && job_schedule_fits(ts, sc, j.schedule))
                    && j.span == spec_merge(ts[p].span, ts[final(self).pos - 1].span)
                &&& ident_is(ts[p], "job"@) ==> (job_refusal(ts, p) matches Some(v) ==> (r matches Err(e) && reports(e, v)))
            }),
    {
        let ghost ts = self.tokens@;
        let start = self.expect_ident("job")?;
        let key = self.parse_job_key()?;
        self.expect_lbrace()?;
        let ghost p0 = self.pos as int;
        let mut schedule: Option<ScheduleNode> = None;
        let mut directives: Vec<DirectiveOrBlock> = Vec::new();
        let ghost mut sched_at: Option<int> = None;
        proof {
            if let Some((f, ks, sch)) = job_body_scan(ts, p0, None) {
                assert(entries_v(directives@) + ks =~= ks);
            }
        }
        loop
            invariant
                old(self).follows(self),
                self.pos > old(self).pos,
                schedule matches Some(s) ==> schedule_kind_ok(s.kind),
                ts == self.tokens@,
                p0 > old(self).pos + 1,
                p0 == skip_newline_tokens(ts, old(self).pos + 2) + 1,
                ts[p0 - 1].kind is LBrace,
                ident_is(ts[old(self).pos as int], "job"@),
                job_key_at(ts, old(self).pos + 1),
                key.raw@ == key_text(ts[old(self).pos + 1].kind)->0,
                key.quoted == ts[old(self).pos + 1].kind is QuotedString,
                job_key_ok(key),
                schedule is Some <==> sched_at is Some,
                job_schedule_fits(ts, sched_at, schedule),
                job_body_scan(ts, p0, None) == match job_body_scan(ts, self.pos as int, sched_at) {
                    Some((f, ks, sch)) => Some((f, entries_v(directives@) + ks, sch)),
                    None => None::<(int, Seq<EntryV>, Option<int>)>,
                },
                body_refusal(ts, p0, None) == body_refusal(ts, self.pos as int, sched_at),
            ensures
                old(self).follows(self),
                self.pos > old(self).pos,
                schedule matches Some(s) ==> schedule_kind_ok(s.kind),
                job_body_scan(ts, p0, None) == Some((self.pos as int, entries_v(directives@), sched_at)),
                body_refusal(ts, p0, None) == if self.cur().kind is Eof {
                    Some(Refusal::Unexpected { expected: "'}'"@, token: self.cur() })
                } else {
                    None
                },
                job_schedule_fits(ts, sched_at, schedule),
                self.cur().kind is RBrace || self.cur().kind is Eof,
            decreases self.tokens@.len() - self.pos,
        {
            let ghost i = self.pos as int;
            self.skip_newlines();
            proof {
                lemma_skip_newline_bounds(ts, i);
            }
            if self.peek_is_rbrace() || self.at_end() {
                proof {
                    assert(entries_v(directives@) + Seq::<EntryV>::empty() =~= entries_v(directives@));
                }
                break;
            }
            let ghost before = entries_v(directives@);
            let ghost before_items = directives@;
            if self.peek_is_comment() {
                let c = self.parse_comment();
                let ghost name = EntryV::Comment(c.text@);
                let dc = DirectiveOrBlock::Comment(c);
                let ghost dg = dc;
                directives.push(dc);
                proof {
                    lemma_entries_v_push(before_items, dg);
                    assert(directives@ == before_items.push(dg));
                    if let Some((f, ks, sch)) = job_body_scan(ts, self.pos as int, sched_at) {
                        assert(before.push(name) + ks =~= before + (seq![name] + ks));
                    }
                    lemma_body_refusal_skip(ts, i, sched_at);
                }
                continue;
            }
            if self.peek_is_semicolon() {
                self.advance();
                proof {
                    lemma_body_refusal_skip(ts, i, sched_at);
                }
                continue;
            }
            if schedule.is_none() && self.is_schedule_start() {
                let ghost q = self.pos as int;
                match self.parse_schedule() {
                    Ok(sn) => {
                        schedule = Some(sn);
                    },
                    Err(e) => {
                        proof {
                            lemma_body_refusal_schedule(ts, i, sched_at);
                        }
                        return Err(e);
                    },
                }
                proof {
                    lemma_body_refusal_schedule(ts, i, sched_at);
                    sched_at = Some(q);
                }
            } else {
                let d = self.parse_directive_or_block()?;
                proof {
                    lemma_body_refusal_entry(ts, i, sched_at);
                }
                let ghost name = entry_v(d);
                let ghost dg = d;
                directives.push(d);
                proof {
                    lemma_entries_v_push(before_items, dg);
                    assert(directives@ == before_items.push(dg));
                    if let Some((f, ks, sch)) = job_body_scan(ts, self.pos as int, sched_at) {
                        assert(before.push(name) + ks =~= before + (seq![name] + ks));
                    }
                }
            }
        }
        let ghost e = self.pos as int;
        proof {
            assert(skip_newline_tokens(ts, e) == e);
        }
        let end = self.expect_rbrace()?;
        Ok(JobBlock { key, schedule, directives, span: start.merge(end) })
    }

    fn parse_job_key(&mut self) -> (r: Result<JobKey, ParseError>)
        requires
            old(self).wf(),
        ensures
            old(self).follows(final(self)),
            r matches Ok(k) ==> job_key_ok(k) && final(self).pos > old(self).pos,
            match key_text(old(self).cur().kind) {
                None => r matches Err(e) && is_unexpected(e, "job key"@, old(self).cur()),
                Some(t) => {
                    let parts = split_on(t, ':');
                    if parts.len() < 2 || parts.len() > 3 {
                        r matches Err(ParseError::InvalidJobKey { key, span }) && key@ == t
                            && span == old(self).cur().span
                    } else {
                        r matches Ok(k) && k.raw@ == t && k.span == old(self).cur().span
                            && k.quoted == old(self).cur().kind is QuotedString
                            && final(self).pos == old(self).pos + 1
                    }
                },
            },
    {
        let span = self.peek_span();
        let (raw, quoted) = match &self.tokens[self.pos].kind {
            TokenKind::Ident(s) => (s.clone(), false),
            TokenKind::QuotedString(s) => (s.clone(), true),
            _ => {
                return Err(self.unexpected("job key"));
            },
        };
        self.advance();
        let raw_chars = chars_of(raw.as_str());
        let parts = split_chars(raw_chars.as_slice(), ':');
        if parts.len() < 2 || parts.len() > 3 {
            return Err(ParseError::InvalidJobKey { key: raw, span });
        }
        let namespace = string_of(parts[0].as_slice());
        let name = string_of(parts[1].as_slice());
        let variant = if parts.len() == 3 {
            Some(string_of(parts[2].as_slice()))
        } else {
            None
        };
        let key = JobKey { raw, namespace, name, variant, quoted, span };
        proof {
            let sp = split_on(key.raw@, ':');
            if parts@.len() == 3 {
                assert(sp =~= seq![key.namespace@, key.name@, key.variant.unwrap()@]);
            } else {
                assert(sp =~= seq![key.namespace@, key.name@]);
            }
        }
        Ok(key)
    }

    /// Whether the cursor starts a schedule line.
    fn is_schedule_start(&self) -> (b: bool)
        requires
            self.wf(),
        ensures
            b == (self.cur().kind is Ident && schedule_start_word(spec_text(self.cur().kind))),
    {
        self.peek_is("every") || self.peek_is("once") || self.peek_is("disabled") || self.peek_is("ephemeral") || self.peek_is("queued")
    }

    #[verifier::spinoff_prover]
    fn parse_schedule(&mut self) -> (r: Result<ScheduleNode, ParseError>)
        requires
            old(self).wf(),
        ensures
            old(self).follows(final(self)),
            r matches Ok(s) ==> schedule_kind_ok(s.kind) && final(self).pos > old(self).pos,
            ({
                let ts = old(self).tokens@;
                let p = old(self).pos as int;
                let m = mode_prefix(ts[p]);
                let q = if m is Some { p + 1 } else { p };
                ident_is(ts[q], "disabled"@) ==> (r matches Ok(s) && s.kind == ScheduleKind::Disabled
                    && s.mode == m && s.options@.len() == 0 && s.option_comments@.len() == 0 && s.span == ts[q].span && final(self).pos == q + 1)
            }),
            ({
                let ts = old(self).tokens@;
                let p = old(self).pos as int;
                let m = mode_prefix(ts[p]);
                let q = if m is Some { p + 1 } else { p };
                ident_is(ts[q], "once"@) ==> once_outcome(ts, q, m, r, final(self).pos as int)
            }),
            ({
                let ts = old(self).tokens@;
                let p = old(self).pos as int;
                let m = mode_prefix(ts[p]);
                let q = if m is Some { p + 1 } else { p };
                ident_is(ts[q], "every"@) ==> every_outcome(ts, q, m, r, final(self).pos as int)
            }),
            ({
                let ts = old(self).tokens@;
                let p = old(self).pos as int;
                let m = mode_prefix(ts[p]);
                let q = if m is Some { p + 1 } else { p };
                !(ident_is(ts[q], "disabled"@) || ident_is(ts[q], "once"@) || ident_is(ts[q], "every"@))
                    ==> (r matches Err(ParseError::General { message, span }) && span == ts[q].span
                    && message@ == "expected 'every', 'once', or 'disabled'"@)
            }),
            r is Ok <==> schedule_end(old(self).tokens@, old(self).pos as int) is Some,
            r is Ok ==> schedule_end(old(self).tokens@, old(self).pos as int) == Some(final(self).pos as int),
            r matches Ok(s) ==> schedule_fits(old(self).tokens@, old(self).pos as int, s),
            schedule_refusal(old(self).tokens@, old(self).pos as int) matches Some(v) ==> (r matches Err(e) && reports(e, v)),
    {
        proof {
            reveal_strlit("ephemeral");
            reveal_strlit("queued");
            reveal_strlit("disabled");
            reveal_strlit("once");
            reveal_strlit("every");
            assert("once"@.len() == 4 && "every"@.len() == 5 && "disabled"@.len() == 8);
        }
        let mode = if self.peek_is("ephemeral") {
            self.advance();
            Some(ScheduleMode::Ephemeral)
        } else if self.peek_is("queued") {
            self.advance();
            Some(ScheduleMode::Queued)
        } else {
            None
        };
        let ghost ts = self.tokens@;
        let ghost q = self.pos as int;
        assert(q == (if mode_prefix(ts[old(self).pos as int]) is Some { old(self).pos + 1 } else { old(self).pos as int }));
        assert(mode == mode_prefix(ts[old(self).pos as int]));
        let span = self.peek_span();
        let mut node = if self.peek_is("disabled") {
            self.advance();
            ScheduleNode { kind: ScheduleKind::Disabled, mode: None, options: Vec::new(), option_comments: Vec::new(), span }
        } else if self.peek_is("once") {
            match self.parse_schedule_once() {
                Ok(n) => {
                    let mut n = n;
                    n.mode = mode;
                    proof {
                        assert("once"@.len() == 4 && "every"@.len() == 5 && "disabled"@.len() == 8);
                        assert(ts == old(self).tokens@);
                        assert(once_outcome(ts, q, mode, Ok::<ScheduleNode, ParseError>(n), self.pos as int));
                    }
                    return Ok(n);
                },
                Err(e) => {
                    proof {
                        assert("once"@.len() == 4 && "every"@.len() == 5 && "disabled"@.len() == 8);
                        assert(ts == old(self).tokens@);
                        assert(!ident_is(ts[q], "every"@));
                    }
                    return Err(e);
                },
            }
        } else if self.peek_is("every") {
            match self.parse_schedule_every() {
                Ok(n) => {
                    let mut n = n;
                    proof {
                        lemma_every_outcome_mode(ts, q, n, mode, self.pos as int);
                    }
                    n.mode = mode;
                    proof {
                        assert(ts == old(self).tokens@);
                        assert(every_outcome(ts, q, mode, Ok::<ScheduleNode, ParseError>(n), self.pos as int));
                    }
                    return Ok(n);
                },
                Err(e) => {
                    proof {
                        lemma_every_outcome_err(ts, q, None, mode, e, self.pos as int);
                        assert(ts == old(self).tokens@);
                        assert(every_outcome(old(self).tokens@, q, mode_prefix(old(self).tokens@[old(self).pos as int]), Err::<ScheduleNode, ParseError>(e), self.pos as int));
                    }
                    return Err(e);
                },
            }
        } else {
            let mut message = String::new();
            push_str(&mut message, "expected 'every', 'once', or 'disabled'");
            return Err(Parser::general(message, span));
        };
        node.mode = mode;
        Ok(node)
    }

    fn parse_schedule_once(&mut self) -> (r: Result<ScheduleNode, ParseError>)
        requires
            old(self).wf(),
        ensures
            old(self).follows(final(self)),
            r matches Ok(s) ==> schedule_kind_ok(s.kind) && final(self).pos > old(self).pos,
            once_outcome(old(self).tokens@, old(self).pos as int, None, r, final(self).pos as int),
            ident_is(old(self).cur(), "once"@) ==> (keyword_refusal(old(self).tokens@[old(self).pos + 1], "at"@)
                matches Some(v) ==> (r matches Err(e) && reports(e, v))),
    {
        let start = self.expect_ident("once")?;
        self.expect_ident("at")?;
        let datetime = self.read_string_value()?;
        let span = start.merge(datetime.span);
        Ok(ScheduleNode { kind: ScheduleKind::Once { at: datetime }, mode: None, options: Vec::new(), option_comments: Vec::new(), span })
    }

    fn parse_schedule_every(&mut self) -> (r: Result<ScheduleNode, ParseError>)
        requires
            old(self).wf(),
        ensures
            old(self).follows(final(self)),
            r matches Ok(s) ==> schedule_kind_ok(s.kind) && final(self).pos > old(self).pos,
            every_outcome(old(self).tokens@, old(self).pos as int, None, r, final(self).pos as int),
            every_refusal(old(self).tokens@, old(self).pos as int) matches Some(v) ==> (r matches Err(e) && reports(e, v)),
            r is Ok <==> every_end(old(self).tokens@, old(self).pos as int) is Some,
            r is Ok ==> every_end(old(self).tokens@, old(self).pos as int) == Some(final(self).pos as int),
    {
        let start = self.expect_ident("every")?;
        let next = self.peek_text();
        if is_day_name(next.as_str()) {
            return self.parse_schedule_weekdays(start);
        }
        if self.peek_is("day") {
            return self.parse_schedule_daily(start);
        }
        if is_ordinal(next.as_str()) {
            return self.parse_schedule_monthly(start);
        }
        self.parse_schedule_interval(start)
    }

    fn parse_schedule_interval(&mut self, start: Span) -> (r: Result<ScheduleNode, ParseError>)
        requires
            old(self).wf(),
            span_ok(start),
        ensures
            old(self).follows(final(self)),
            r matches Ok(s) ==> schedule_kind_ok(s.kind) && final(self).pos > old(self).pos
                && s.kind is Interval,
            interval_outcome(old(self).tokens@, old(self).pos as int, start, None, r, final(self).pos as int),
            interval_refusal(old(self).tokens@, old(self).pos as int) matches Some(v) ==> (r matches Err(e) && reports(e, v)),
            r is Ok <==> interval_end(old(self).tokens@, old(self).pos as int) is Some,
            r is Ok ==> interval_end(old(self).tokens@, old(self).pos as int) == Some(final(self).pos as int),
    {
        let ghost ts = self.tokens@;
        let ghost p = self.pos as int;
        let count_span = self.peek_span();
        let text = self.peek_text();
        let (count, unit, end_span) = match parse_compact_interval(text.as_str()) {
            Some((c, u)) => {
                assert(text@.len() > 0);
                assert(!(ts[p].kind is Eof));
                self.advance();
                (c, u, count_span)
            },
            None => {
                let count = match parse_u32(chars_of(text.as_str()).as_slice()) {
                    Some(n) => n,
                    None => {
                        return Err(Parser::general(
                            concat3(
                                "expected number or compact duration (e.g. '15', '15m', '30s', '2h'), got '",
                                text.as_str(),
                                "'",
                            ),
                            count_span,
                        ));
                    },
                };
                assert(text@.len() > 0);
                assert(!(ts[p].kind is Eof));
                self.advance();
                let unit_span = self.peek_span();
                let unit = if self.peek_text_is("seconds") || self.peek_text_is("second") {
                    IntervalUnit::Seconds
                } else if self.peek_text_is("minutes") || self.peek_text_is("minute") {
                    IntervalUnit::Minutes
                } else if self.peek_text_is("hours") || self.peek_text_is("hour") {
                    IntervalUnit::Hours
                } else {
                    let other = self.peek_text();
                    return Err(Parser::general(
                        concat3("expected 'seconds', 'minutes', or 'hours', got '", other.as_str(), "'"),
                        unit_span,
                    ));
                };
                proof {
                    reveal_strlit("seconds");
                    reveal_strlit("second");
                    reveal_strlit("minutes");
                    reveal_strlit("minute");
                    reveal_strlit("hours");
                    reveal_strlit("hour");
                    assert(spec_text(ts[p + 1].kind).len() > 0);
                    assert(!(ts[p + 1].kind is Eof));
                }
                self.advance();
                (count, unit, unit_span)
            },
        };
        let (options, option_comments, end) = self.parse_optional_schedule_block(end_span)?;
        Ok(ScheduleNode { kind: ScheduleKind::Interval { count, unit }, mode: None, options, option_comments, span: start.merge(end) })
    }

    /// Whether the text of the token under the cursor is `lit` (any kind).
    fn peek_text_is(&self, lit: &str) -> (b: bool)
        requires
            self.wf(),
        ensures
            b == (spec_text(self.cur().kind) == lit@),
    {
        crate::text::str_eq(self.tokens[self.pos].text(), lit)
    }

    fn parse_schedule_daily(&mut self, start: Span) -> (r: Result<ScheduleNode, ParseError>)
        requires
            old(self).wf(),
            span_ok(start),
        ensures
            old(self).follows(final(self)),
            r matches Ok(s) ==> schedule_kind_ok(s.kind) && final(self).pos > old(self).pos,
            daily_outcome(old(self).tokens@, old(self).pos as int, start, None, r, final(self).pos as int),
            daily_refusal(old(self).tokens@, old(self).pos as int) matches Some(v) ==> (r matches Err(e) && reports(e, v)),
            r is Ok <==> daily_end(old(self).tokens@, old(self).pos as int) is Some,
            r is Ok ==> daily_end(old(self).tokens@, old(self).pos as int) == Some(final(self).pos as int),
    {
        self.expect_ident("day")?;
        self.expect_ident("at")?;
        let time = self.parse_time()?;
        let (options, option_comments, end) = self.parse_optional_schedule_block(time.span)?;
        Ok(ScheduleNode { kind: ScheduleKind::Daily { time }, mode: None, options, option_comments, span: start.merge(end) })
    }

    /// Day names, three-letter forms, `weekday`/`weekend` and `Mon..Fri`
    /// ranges, then `at HH:MM`.
    #[verifier::spinoff_prover]
    fn parse_schedule_weekdays(&mut self, start: Span) -> (r: Result<ScheduleNode, ParseError>)
        requires
            old(self).wf(),
            span_ok(start),
            spec_parse_token(spec_text(old(self).cur().kind)) is Some,
        ensures
            old(self).follows(final(self)),
            r matches Ok(s) ==> schedule_kind_ok(s.kind) && final(self).pos > old(self).pos && s.kind is Weekdays && s.mode is None,
            weekdays_outcome(old(self).tokens@, old(self).pos as int, start, None, r, final(self).pos as int),
            weekdays_refusal(old(self).tokens@, old(self).pos as int) matches Some(v) ==> (r matches Err(e) && reports(e, v)),
            r is Ok <==> weekdays_end(old(self).tokens@, old(self).pos as int) is Some,
            r is Ok ==> weekdays_end(old(self).tokens@, old(self).pos as int) == Some(final(self).pos as int),
    {
        let ghost ts = self.tokens@;
        let ghost p0 = self.pos as int;
        let mut days: Vec<Weekday> = Vec::new();
        proof {
            crate::ast::lemma_parse_token_empty();
            if let Some((e, ds)) = days_scan(ts, p0) {
                assert(days@ + ds =~= ds);
            }
        }
        loop
            invariant
                old(self).follows(self),
                self.pos == old(self).pos ==> spec_parse_token(spec_text(self.cur().kind)) is Some,
                self.pos > old(self).pos ==> days@.len() > 0,
                spec_parse_token(Seq::<char>::empty()) is None,
                ts == self.tokens@,
                p0 == old(self).pos,
                span_ok(start),
                days_scan(ts, p0) == match days_scan(ts, self.pos as int) {
                    Some((e, ds)) => Some((e, days@ + ds)),
                    None => None::<(int, Seq<Weekday>)>,
                },
            ensures
                old(self).follows(self),
                self.pos > old(self).pos,
                days@.len() > 0,
                days_scan(ts, p0) == Some((self.pos as int, days@)),
            decreases self.tokens@.len() - self.pos,
        {
            let ghost i = self.pos as int;
            let ghost before = days@;
            if self.at_end() {
                proof {
                    assert(days@ + Seq::<Weekday>::empty() =~= days@);
                }
                break;
            }
            let text = self.peek_text();
            if !is_day_name(text.as_str()) {
                proof {
                    assert(days@ + Seq::<Weekday>::empty() =~= days@);
                }
                break;
            }
            match Weekday::parse_group(text.as_str()) {
                Some(group) => {
                    extend_days(&mut days, &group);
                    self.advance();
                    proof {
                        if let Some((e, ds)) = days_scan(ts, self.pos as int) {
                            assert(before + group@ + ds =~= before + (group@ + ds));
                        }
                    }
                },
                None => {
                    let start_day = match Weekday::parse(text.as_str()) {
                        Some(d) => d,
                        None => {
                            return Err(Parser::general(String::new(), start));
                        },
                    };
                    self.advance();
                    if self.peek_is_dotdot() {
                        let dotdot_span = self.peek_span();
                        self.advance();
                        let end_span = self.peek_span();
                        let end_text = self.peek_text();
                        let end_day = match Weekday::parse(end_text.as_str()) {
                            Some(d) => d,
                            None => {
                                return Err(Parser::general(
                                    concat3("expected weekday name after '..', got '", end_text.as_str(), "'"),
                                    dotdot_span.merge(end_span),
                                ));
                            },
                        };
                        self.advance();
                        let range = weekday_range(start_day, end_day);
                        extend_days(&mut days, &range);
                        proof {
                            if let Some((e, ds)) = days_scan(ts, self.pos as int) {
                                assert(before + range@ + ds =~= before + (range@ + ds));
                            }
                        }
                    } else {
                        days.push(start_day);
                        proof {
                            if let Some((e, ds)) = days_scan(ts, self.pos as int) {
                                assert(before.push(start_day) + ds =~= before + (seq![start_day] + ds));
                            }
                        }
                    }
                },
            }
        }
        self.expect_ident("at")?;
        let time = self.parse_time()?;
        let (options, option_comments, end) = self.parse_optional_schedule_block(time.span)?;
        Ok(ScheduleNode { kind: ScheduleKind::Weekdays { days, time }, mode: None, options, option_comments, span: start.merge(end) })
    }

    #[verifier::spinoff_prover]
    fn parse_schedule_monthly(&mut self, start: Span) -> (r: Result<ScheduleNode, ParseError>)
        requires
            old(self).wf(),
            span_ok(start),
        ensures
            old(self).follows(final(self)),
            r matches Ok(s) ==> schedule_kind_ok(s.kind) && final(self).pos > old(self).pos && s.kind is Monthly && s.mode is None,
            monthly_outcome(old(self).tokens@, old(self).pos as int, start, None, r, final(self).pos as int),
            monthly_refusal(old(self).tokens@, old(self).pos as int) matches Some(v) ==> (r matches Err(e) && reports(e, v)),
            r is Ok <==> monthly_end(old(self).tokens@, old(self).pos as int) is Some,
            r is Ok ==> monthly_end(old(self).tokens@, old(self).pos as int) == Some(final(self).pos as int),
    {
        let ghost ts = self.tokens@;
        let ghost p0 = self.pos as int;
        let mut ordinals: Vec<MonthOrdinal> = Vec::new();
        proof {
            if let Some((e, os)) = ordinals_scan(ts, p0) {
                assert(ordinals@ + os =~= os);
            }
        }
        loop
            invariant
                old(self).follows(self),
                forall|i: int| 0 <= i < ordinals@.len() ==> ordinal_ok(#[trigger] ordinals@[i]),
                self.pos > old(self).pos ==> ordinals@.len() > 0,
                ts == self.tokens@,
                p0 == old(self).pos,
                span_ok(start),
                ordinals_scan(ts, p0) == match ordinals_scan(ts, self.pos as int) {
                    Some((e, os)) => Some((e, ordinals@ + os)),
                    None => None::<(int, Seq<MonthOrdinal>)>,
                },
                ordinals_refusal(ts, p0) == ordinals_refusal(ts, self.pos as int),
            ensures
                old(self).follows(self),
                forall|i: int| 0 <= i < ordinals@.len() ==> ordinal_ok(#[trigger] ordinals@[i]),
                self.pos > old(self).pos ==> ordinals@.len() > 0,
                ordinals_scan(ts, p0) == Some((self.pos as int, ordinals@)),
            decreases self.tokens@.len() - self.pos,
        {
            let text = self.peek_text();
            if !is_ordinal(text.as_str()) {
                proof {
                    assert(ordinals@ + Seq::<MonthOrdinal>::empty() =~= ordinals@);
                }
                break;
            }
            let ghost before = ordinals@;
            let ghost i = self.pos as int;
            let o = match self.parse_ordinal() {
                Ok(o) => o,
                Err(e) => {
                    proof {
                        assert(ordinals_scan(ts, i) is None);
                        assert(ordinals_refusal(ts, i) == Some(Refusal::Ordinal {
                            value: spec_text(ts[i].kind),
                            span: ts[i].span,
                        }));
                    }
                    return Err(e);
                },
            };
            ordinals.push(o);
            proof {
                if let Some((e, os)) = ordinals_scan(ts, self.pos as int) {
                    assert(before.push(o) + os =~= before + (seq![o] + os));
                }
            }
        }
        if ordinals.len() == 0 {
            return Err(self.unexpected("ordinal"));
        }
        self.expect_ident("of")?;
        self.expect_ident("month")?;
        self.expect_ident("at")?;
        let time = self.parse_time()?;
        let (options, option_comments, end) = self.parse_optional_schedule_block(time.span)?;
        Ok(ScheduleNode { kind: ScheduleKind::Monthly { ordinals, time }, mode: None, options, option_comments, span: start.merge(end) })
    }

    /// `{ option … }` after a schedule line, if present.
    fn parse_optional_schedule_block(&mut self, last_span: Span) -> (r: Result<(Vec<Directive>, Vec<BodyComment>, Span), ParseError>)
        requires
            old(self).wf(),
            span_ok(last_span),
        ensures
            old(self).follows(final(self)),
            r matches Ok((_, _, s)) ==> span_ok(s),
            !(old(self).cur().kind is LBrace) ==> (r matches Ok((o, cs, s)) && o@.len() == 0 && cs@.len() == 0 && s == last_span
                && final(self).pos == old(self).pos),
            r is Ok <==> opt_block_end(old(self).tokens@, old(self).pos as int) is Some,
            r is Ok ==> opt_block_end(old(self).tokens@, old(self).pos as int) == Some(final(self).pos as int),
            r matches Ok((o, _, _)) ==> (old(self).cur().kind is LBrace ==> braced_directives(old(self).tokens@, old(self).pos as int)
                == Some((final(self).pos - 1, directives_v(o@)))),
            r matches Ok((o, _, _)) ==> opt_block_view(old(self).tokens@, old(self).pos as int) == Some((final(self).pos as int, directives_v(o@))),
            r matches Ok((_, cs, _)) ==> comments_v(cs@) == opt_block_comments(old(self).tokens@, old(self).pos as int),
            opt_block_refusal(old(self).tokens@, old(self).pos as int) matches Some(v) ==> (r matches Err(e) && reports(e, v)),
    {
        if self.peek_is_lbrace() {
            proof {
                assert(skip_newline_tokens(self.tokens@, self.pos as int) == self.pos);
            }
            self.read_braced_directives()
        } else {
            let cs: Vec<BodyComment> = Vec::new();
            proof {
                assert(comments_v(cs@) =~= Seq::<(nat, Seq<char>)>::empty());
            }
            Ok((Vec::new(), cs, last_span))
        }
    }

    /// `HH:MM` at the cursor.
    fn parse_time(&mut self) -> (r: Result<TimeValue, ParseError>)
        requires
            old(self).wf(),
        ensures
            old(self).follows(final(self)),
            r is Ok <==> spec_time(spec_text(old(self).cur().kind)) is Some,
            time_refusal(old(self).cur()) matches Some(v) ==> (r matches Err(e) && reports(e, v)),
            r matches Ok(t) ==> {
                &&& spec_time(spec_text(old(self).cur().kind)) == Some((t.hour, t.minute))
                &&& t.raw@ == spec_text(old(self).cur().kind)
                &&& time_ok(t)
                &&& span_ok(t.span)
                &&& final(self).pos > old(self).pos
                &&& t.span == old(self).cur().span
                &&& final(self).pos == old(self).pos + 1
            },
    {
        let span = self.peek_span();
        let raw = self.peek_text();
        let raw_chars = chars_of(raw.as_str());
        let parts = split_chars(raw_chars.as_slice(), ':');
        if parts.len() != 2 {
            return Err(ParseError::InvalidTime { value: raw, span });
        }
        let hour = parse_u32(parts[0].as_slice());
        let minute = parse_u32(parts[1].as_slice());
        let (hour, minute) = match (hour, minute) {
            (Some(h), Some(m)) => {
                if h > 23 || m > 59 {
                    return Err(ParseError::InvalidTime { value: raw, span });
                }
                (h as u8, m as u8)
            },
            _ => {
                proof {
                    let p = split_on(raw@, ':');
                    assert(parts@[0]@ == p[0]);
                    assert(parts@[1]@ == p[1]);
                }
                return Err(ParseError::InvalidTime { value: raw, span });
            },
        };
        proof {
            let p = split_on(raw@, ':');
            assert(parts@[0]@ == p[0]);
            assert(parts@[1]@ == p[1]);
            assert(!(old(self).cur().kind is Eof));
        }
        self.advance();
        Ok(TimeValue { hour, minute, raw, span })
    }

    /// A monthly ordinal at the cursor.
    fn parse_ordinal(&mut self) -> (r: Result<MonthOrdinal, ParseError>)
        requires
            old(self).wf(),
        ensures
            old(self).follows(final(self)),
            r is Ok <==> spec_ordinal(spec_text(old(self).cur().kind)) is Some,
            r matches Err(e) ==> reports(e, Refusal::Ordinal {
                value: spec_text(old(self).cur().kind),
                span: old(self).cur().span,
            }),
            r matches Ok(o) ==> spec_ordinal(spec_text(old(self).cur().kind)) == Some(o) && ordinal_ok(o)
                && final(self).pos == old(self).pos + 1,
    {
        let span = self.peek_span();
        let text = self.peek_text();
        let t = chars_of(text.as_str());
        if chars_is(t.as_slice(), "last") {
            proof {
                assert(!(old(self).cur().kind is Eof)) by {
                    reveal_strlit("last");
                }
            }
            self.advance();
            return Ok(MonthOrdinal::Last);
        }
        let suffixed = t.len() >= 2 && {
            let tail = slice_chars(t.as_slice(), t.len() - 2, t.len());
            assert(tail@ == t@.skip(t@.len() - 2));
            chars_is(tail.as_slice(), "st") || chars_is(tail.as_slice(), "nd") || chars_is(tail.as_slice(), "rd") || chars_is(tail.as_slice(), "th")
        };
        if !suffixed {
            return Err(ParseError::InvalidOrdinal { value: text, span });
        }
        let num_part = slice_chars(t.as_slice(), 0, t.len() - 2);
        assert(num_part@ == t@.take(t@.len() - 2));
        let num = match parse_u32(num_part.as_slice()) {
            Some(n) => n,
            None => {
                return Err(ParseError::InvalidOrdinal { value: text, span });
            },
        };
        if num == 0 || num > 31 {
            return Err(ParseError::InvalidOrdinal { value: text, span });
        }
        proof {
            assert(!(old(self).cur().kind is Eof));
        }
        self.advance();
        Ok(MonthOrdinal::Day(num as u8))
    }

    // ─── Generic directive / block parsing ───

    fn parse_directives_until_rbrace(&mut self) -> (r: Result<(Vec<Directive>, Vec<BodyComment>), ParseError>)
        requires
            old(self).wf(),
        ensures
            old(self).follows(final(self)),
            ({
                let ts = old(self).tokens@;
                let p = old(self).pos as int;
                &&& r is Ok <==> directives_scan(ts, p) is Some
                &&& r matches Ok((ds, _)) ==> directives_scan(ts, p) == Some((final(self).pos as int, directives_v(ds@)))
                    && (final(self).cur().kind is RBrace || final(self).cur().kind is Eof)
                &&& r matches Ok((_, cs)) ==> comments_v(cs@) == body_comments(ts, p, 0)
                &&& directives_refusal(ts, p) matches Some(v) ==> (r matches Err(e) && reports(e, v))
            }),
    {
        let ghost ts = self.tokens@;
        let ghost p0 = self.pos as int;
        let mut directives: Vec<Directive> = Vec::new();
        let mut comments: Vec<BodyComment> = Vec::new();
        proof {
            assert(comments_v(comments@) + body_comments(ts, p0, 0) =~= body_comments(ts, p0, 0));
            if let Some((f, ks)) = directives_scan(ts, p0) {
                assert(directives_v(directives@) + ks =~= ks);
            }
        }
        loop
            invariant
                old(self).follows(self),
                ts == self.tokens@,
                p0 == old(self).pos,
                directives_scan(ts, p0) == match directives_scan(ts, self.pos as int) {
                    Some((f, ks)) => Some((f, directives_v(directives@) + ks)),
                    None => None::<(int, Seq<DirectiveV>)>,
                },
                body_comments(ts, p0, 0) == comments_v(comments@) + body_comments(ts, self.pos as int, directives@.len() as nat),
                directives_refusal(ts, p0) == directives_refusal(ts, self.pos as int),
            ensures
                old(self).follows(self),
                directives_scan(ts, p0) == Some((self.pos as int, directives_v(directives@))),
                self.cur().kind is RBrace || self.cur().kind is Eof,
                body_comments(ts, p0, 0) == comments_v(comments@),
                directives_refusal(ts, p0) is None,
            decreases self.tokens@.len() - self.pos,
        {
            let ghost i = self.pos as int;
            self.skip_newlines();
            proof {
                lemma_skip_newline_bounds(ts, i);
            }
            if self.peek_is_rbrace() || self.at_end() {
                proof {
                    assert(directives_v(directives@) + Seq::<DirectiveV>::empty() =~= directives_v(directives@));
                    assert(comments_v(comments@) + Seq::<(nat, Seq<char>)>::empty() =~= comments_v(comments@));
                }
                break;
            }
            if self.peek_is_comment() {
                let ghost j = self.pos as int;
                let ghost before_c = comments_v(comments@);
                let c = self.parse_comment();
                let bc = BodyComment { before: directives.len(), comment: c };
                let ghost item = (directives@.len() as nat, comment_text(ts[j].kind));
                comments.push(bc);
                proof {
                    assert(comments_v(comments@) =~= before_c.push(item));
                    assert(before_c.push(item) + body_comments(ts, self.pos as int, directives@.len() as nat)
                        =~= before_c + (seq![item] + body_comments(ts, self.pos as int, directives@.len() as nat)));
                }
                continue;
            }
            if self.peek_is_semicolon() {
                self.advance();
                continue;
            }
            let ghost before = directives_v(directives@);
            let ghost j = self.pos as int;
            let d = match self.parse_directive() {
                Ok(d) => d,
                Err(e) => {
                    proof {
                        assert(directives_refusal(ts, i) == directive_refusal(ts, j));
                    }
                    return Err(e);
                },
            };
            let ghost key = directive_v(d);
            directives.push(d);
            proof {
                assert(directives_v(directives@) =~= before.push(key));
                if let Some((f, ks)) = directives_scan(ts, self.pos as int) {
                    assert(before.push(key) + ks =~= before + (seq![key] + ks));
                }
            }
        }
        Ok((directives, comments))
    }

    /// `key value…`; `a..b` ranges join into one argument.
    #[verifier::spinoff_prover]
    fn parse_directive(&mut self) -> (r: Result<Directive, ParseError>)
        requires
            old(self).wf(),
        ensures
            old(self).follows(final(self)),
            r matches Ok(d) ==> final(self).pos > old(self).pos && span_ok(d.span),
            ({
                let ts = old(self).tokens@;
                let p = old(self).pos as int;
                &&& r is Ok <==> directive_scan(ts, p) is Some
                &&& r matches Ok(d) ==> directive_scan(ts, p) == Some((final(self).pos as int, directive_v(d)))
                    && d.key.span == ts[p].span
                &&& directive_refusal(ts, p) matches Some(v) ==> (r matches Err(e) && reports(e, v))
            }),
    {
        let ghost ts = self.tokens@;
        let ghost p0 = self.pos as int;
        let key = self.read_string_value()?;
        let mut args: Vec<StringValue> = Vec::new();
        proof {
            if let Some((e, vs)) = args_scan(ts, p0 + 1) {
                assert(args_v(args@) + vs =~= vs);
            }
        }
        while self.is_value_token()
            invariant
                old(self).follows(self),
                self.pos > old(self).pos,
                span_ok(key.span),
                forall|i: int| 0 <= i < args@.len() ==> span_ok(#[trigger] args@[i].span),
                ts == self.tokens@,
                p0 == old(self).pos,
                value_v(key) == token_value(ts[p0]) && key.span == ts[p0].span,
                args_scan(ts, p0 + 1) == match args_scan(ts, self.pos as int) {
                    Some((e, vs)) => Some((e, args_v(args@) + vs)),
                    None => None::<(int, Seq<ValueV>)>,
                },
                args_refusal(ts, p0 + 1) == args_refusal(ts, self.pos as int),
                is_value_kind(ts[p0].kind),
            decreases self.tokens@.len() - self.pos,
        {
            let ghost i = self.pos as int;
            let ghost before = args_v(args@);
            let mut arg = self.read_string_value()?;
            if self.peek_is_dotdot() {
                proof {
                    assert(ts[i + 1].kind is DotDot);
                    assert(i + 1 != ts.len() - 1);
                }
                self.advance();
                let after = match self.read_string_value() {
                    Ok(v) => v,
                    Err(e) => {
                        proof {
                            assert(i + 2 < ts.len());
                            assert(!is_value_kind(ts[i + 2].kind));
                            assert(args_refusal(ts, i) == Some(Refusal::Unexpected { expected: value_words(), token: ts[i + 2] }));
                            assert(directive_refusal(ts, p0) == args_refusal(ts, p0 + 1));
                        }
                        return Err(e);
                    },
                };
                let mut value = String::new();
                push_str(&mut value, arg.value.as_str());
                push_str(&mut value, "..");
                push_str(&mut value, after.value.as_str());
                arg.value = value;
                arg.span = arg.span.merge(after.span);
            }
            args.push(arg);
            proof {
                assert(args_v(args@) =~= before.push(value_v(arg)));
                if let Some((e, vs)) = args_scan(ts, self.pos as int) {
                    assert(before.push(value_v(arg)) + vs =~= before + (seq![value_v(arg)] + vs));
                }
            }
        }
        proof {
            assert(args_v(args@) + Seq::<ValueV>::empty() =~= args_v(args@));
        }
        self.skip_terminators();
        let last_span = if args.len() > 0 { args[args.len() - 1].span } else { key.span };
        let span = key.span.merge(last_span);
        Ok(Directive { key, args, span })
    }

    #[verifier::spinoff_prover]
    fn parse_directives_or_blocks_until_rbrace(&mut self) -> (r: Result<Vec<DirectiveOrBlock>, ParseError>)
        requires
            old(self).wf(),
        ensures
            old(self).follows(final(self)),
            ({
                let ts = old(self).tokens@;
                let p = old(self).pos as int;
                &&& r is Ok <==> entries_scan(ts, p) is Some
                &&& r matches Ok(ds) ==> entries_scan(ts, p) == Some((final(self).pos as int, entries_v(ds@)))
                    && (final(self).cur().kind is RBrace || final(self).cur().kind is Eof)
            }),
        decreases old(self).tokens@.len() - old(self).pos, 2int,
    {
        let ghost ts = self.tokens@;
        let ghost p0 = self.pos as int;
        let mut items: Vec<DirectiveOrBlock> = Vec::new();
        proof {
            if let Some((f, ks)) = entries_scan(ts, p0) {
                assert(entries_v(items@) + ks =~= ks);
            }
        }
        loop
            invariant
                old(self).follows(self),
                ts == self.tokens@,
                p0 == old(self).pos,
                entries_scan(ts, p0) == match entries_scan(ts, self.pos as int) {
                    Some((f, ks)) => Some((f, entries_v(items@) + ks)),
                    None => None::<(int, Seq<EntryV>)>,
                },
            ensures
                old(self).follows(self),
                entries_scan(ts, p0) == Some((self.pos as int, entries_v(items@))),
                self.cur().kind is RBrace || self.cur().kind is Eof,
            decreases self.tokens@.len() - self.pos,
        {
            let ghost i = self.pos as int;
            self.skip_newlines();
            proof {
                lemma_skip_newline_bounds(ts, i);
            }
            if self.peek_is_rbrace() || self.at_end() {
                proof {
                    assert(entries_v(items@) + Seq::<EntryV>::empty() =~= entries_v(items@));
                }
                break;
            }
            let ghost before = entries_v(items@);
            let ghost before_items = items@;
            let d = self.parse_directive_or_block()?;
            let ghost name = entry_v(d);
            let ghost dg = d;
            items.push(d);
            proof {
                lemma_entries_v_push(before_items, dg);
                assert(items@ == before_items.push(dg));
                if let Some((f, ks)) = entries_scan(ts, self.pos as int) {
                    assert(before.push(name) + ks =~= before + (seq![name] + ks));
                }
            }
        }
        Ok(items)
    }

    /// A comment, a `name [qualifier] { … }` block, or a directive.
    #[verifier::spinoff_prover]
    fn parse_directive_or_block(&mut self) -> (r: Result<DirectiveOrBlock, ParseError>)
        requires
            old(self).wf(),
        ensures
            old(self).follows(final(self)),
            r is Ok ==> final(self).pos > old(self).pos,
            r is Ok <==> entry_scan(old(self).tokens@, old(self).pos as int) is Some,
            r matches Ok(d) ==> entry_scan(old(self).tokens@, old(self).pos as int) == Some((final(self).pos as int, entry_v(d))),
        decreases old(self).tokens@.len() - old(self).pos, 1int,
    {
        let ghost ts = self.tokens@;
        let ghost i = self.pos as int;
        self.skip_terminators();
        let ghost j = self.pos as int;
        proof {
            lemma_skip_terminator_bounds(ts, i);
        }
        if self.peek_is_comment() {
            let c = self.parse_comment();
            return Ok(DirectiveOrBlock::Comment(c));
        }
        let saved_pos = self.pos;
        let name = self.read_string_value()?;
        let name_span = name.span;
        if self.peek_is_lbrace() {
            proof {
                assert(skip_newline_tokens(ts, j + 1) == j + 1);
            }
            self.expect_lbrace()?;
            let directives = self.parse_directives_or_blocks_until_rbrace()?;
            let ghost e = self.pos as int;
            proof {
                assert(skip_newline_tokens(ts, e) == e);
            }
            let end = self.expect_rbrace()?;
            return Ok(DirectiveOrBlock::Block(NamedBlock { name, qualifier: None, directives, span: name_span.merge(end) }));
        }
        if self.is_value_token() {
            let maybe_qualifier = self.read_string_value()?;
            if self.peek_is_lbrace() {
                proof {
                    assert(skip_newline_tokens(ts, j + 2) == j + 2);
                }
                self.expect_lbrace()?;
                let directives = self.parse_directives_or_blocks_until_rbrace()?;
                let ghost e = self.pos as int;
                proof {
                    assert(skip_newline_tokens(ts, e) == e);
                }
                let end = self.expect_rbrace()?;
                return Ok(DirectiveOrBlock::Block(NamedBlock {
                    name,
                    qualifier: Some(maybe_qualifier),
                    directives,
                    span: name_span.merge(end),
                }));
            }
        }
        self.pos = saved_pos;
        let directive = self.parse_directive()?;
        Ok(DirectiveOrBlock::Directive(directive))
    }

    fn parse_named_block(&mut self) -> (r: Result<NamedBlock, ParseError>)
        requires
            old(self).wf(),
        ensures
            old(self).follows(final(self)),
            r is Ok ==> final(self).pos > old(self).pos,
            ({
                let ts = old(self).tokens@;
                let p = old(self).pos as int;
                &&& r is Ok <==> (is_value_kind(ts[p].kind) && braced_entries(ts, p + 1) is Some)
                &&& r matches Ok(b) ==> value_v(b.name) == token_value(ts[p]) && b.name.span == ts[p].span
                    && b.qualifier is None
                    && braced_entries(ts, p + 1) == Some((final(self).pos - 1, entries_v(b.directives@)))
                    && b.span == spec_merge(ts[p].span, ts[final(self).pos - 1].span)
            }),
    {
        let name = self.read_string_value()?;
        let name_span = name.span;
        let (directives, end) = self.read_braced_entries()?;
        Ok(NamedBlock { name, qualifier: None, directives, span: name_span.merge(end) })
    }

    /// `{ entry … }` from the cursor (line breaks before `{` skipped), with
    /// the span of the closing `}`.
    fn read_braced_entries(&mut self) -> (r: Result<(Vec<DirectiveOrBlock>, Span), ParseError>)
        requires
            old(self).wf(),
        ensures
            old(self).follows(final(self)),
            r matches Ok((_, sp)) ==> final(self).pos > old(self).pos && span_ok(sp),
            ({
                let ts = old(self).tokens@;
                let p = old(self).pos as int;
                &&& r is Ok <==> braced_entries(ts, p) is Some
                &&& r matches Ok((ds, sp)) ==> braced_entries(ts, p) == Some((final(self).pos - 1, entries_v(ds@)))
                    && sp == ts[final(self).pos - 1].span
            }),
    {
        let ghost ts = self.tokens@;
        self.expect_lbrace()?;
        let directives = self.parse_directives_or_blocks_until_rbrace()?;
        let ghost e = self.pos as int;
        proof {
            assert(skip_newline_tokens(ts, e) == e);
        }
        let end = self.expect_rbrace()?;
        Ok((directives, end))
    }
}

/// Appends `more` to `days`.
fn extend_days(days: &mut Vec<Weekday>, more: &Vec<Weekday>)
    ensures
        final(days)@ == old(days)@ + more@,
{
    let mut k: usize = 0;
    while k < more.len()
        invariant
            k <= more@.len(),
            days@ == old(days)@ + more@.take(k as int),
        decreases more@.len() - k,
    {
        days.push(more[k]);
        k = k + 1;
        assert(more@.take(k as int) =~= more@.take((k - 1) as int).push(more@[k - 1]));
    }
    assert(more@.take(more@.len() as int) =~= more@);
}

/// A day name or the `weekday`/`weekend` alias (full-length only for
/// aliases, three-letter or full for days, ASCII case-insensitive).
fn is_day_name(s: &str) -> (b: bool)
    ensures
        b == spec_parse_token(s@) is Some,
{
    Weekday::parse_token(s).is_some()
}

/// `last`, or a word ending in `st`, `nd`, `rd` or `th`.
fn is_ordinal(s: &str) -> (b: bool)
    ensures
        b == spec_is_ordinal(s@),
{
    let t = chars_of(s);
    if chars_is(t.as_slice(), "last") {
        return true;
    }
    let st = chars_of("st");
    let nd = chars_of("nd");
    let rd = chars_of("rd");
    let th = chars_of("th");
    proof {
        reveal_strlit("st");
        reveal_strlit("nd");
        reveal_strlit("rd");
        reveal_strlit("th");
    }
    chars_ends_with(t.as_slice(), st.as_slice()) || chars_ends_with(t.as_slice(), nd.as_slice())
        || chars_ends_with(t.as_slice(), rd.as_slice()) || chars_ends_with(t.as_slice(), th.as_slice())
}

} // verus!
