//! Tokenizer for Croniqfile source text.
//!
//! Spans are byte offsets into the source, as the diagnostics that point at
//! them expect; the tokenizer itself walks the source character by character.

use vstd::prelude::*;
use vstd::string::StringSliceAdditionalSpecFns;
use crate::text::{
    char_width, char_width_exec, chars_of, lemma_str_len, lemma_utf8_len_prefix, push_char,
    push_str, str_eq, string_of, string_of_range, utf8_len,
};

verus! {

/// Byte-offset span in source text.
#[derive(Debug, Clone, Copy, PartialEq, Eq, Structural)]
pub struct Span {
    pub offset: usize,
    pub len: usize,
}

/// The byte just past a span.
pub open spec fn span_end(s: Span) -> int {
    s.offset + s.len
}

/// The smallest span covering both.
pub open spec fn spec_merge(a: Span, b: Span) -> Span {
    let start = if a.offset <= b.offset { a.offset } else { b.offset };
    let end = if span_end(a) >= span_end(b) { span_end(a) } else { span_end(b) };
    Span { offset: start, len: (end - start) as usize }
}

impl Span {
    pub fn new(offset: usize, len: usize) -> (s: Span)
        ensures
            s == (Span { offset, len }),
    {
        Span { offset, len }
    }

    pub fn empty(offset: usize) -> (s: Span)
        ensures
            s == (Span { offset, len: 0 }),
    {
        Span { offset, len: 0 }
    }

    /// Merge two spans into one covering both.
    pub fn merge(self, other: Span) -> (s: Span)
        requires
            span_end(self) <= usize::MAX,
            span_end(other) <= usize::MAX,
        ensures
            s == spec_merge(self, other),
    {
        let start = if self.offset <= other.offset { self.offset } else { other.offset };
        let a = self.offset + self.len;
        let b = other.offset + other.len;
        let end = if a >= b { a } else { b };
        Span::new(start, end - start)
    }
}

/// Kind and payload of a token.
#[derive(Debug, Clone, PartialEq, Eq)]
pub enum TokenKind {
    /// Unquoted identifier: keywords, job keys, day names, numbers, durations.
    /// Made of `a-z A-Z 0-9 : / * ? - . _ + @`, never holding `..`.
    Ident(String),
    /// `"…"` with escapes resolved.
    QuotedString(String),
    /// `# …` up to the end of the line, without the `#`, one following
    /// space and trailing whitespace.
    Comment(String),
    /// `{env.VAR}`, `{$VAR}`, `{$VAR:default}`, `{vars.NAME}`, `{file./path}`,
    /// without the outer braces.
    Placeholder(String),
    LBrace,
    RBrace,
    Semicolon,
    /// `..` range operator
    DotDot,
    /// One or more line breaks: a statement terminator.
    Newline,
    /// End of input
    Eof,
}

/// A token and where it stands in the source.
#[derive(Debug, Clone, PartialEq, Eq)]
pub struct Token {
    pub kind: TokenKind,
    pub span: Span,
}

/// Why a source text could not be tokenized.
#[derive(Debug, Clone, PartialEq, Eq)]
pub enum LexError {
    /// A `"` string without its closing quote on the same line.
    UnterminatedString { span: Span },
    /// A `{…}` placeholder without its closing brace on the same line.
    UnterminatedPlaceholder { span: Span },
    /// A backslash escape other than `\n \t \r \\ \"`.
    InvalidEscape { ch: char, span: Span },
    /// A character that starts no token.
    UnexpectedCharacter { ch: char, span: Span },
}

/// Characters an unquoted identifier is made of.
pub open spec fn is_ident_char(c: char) -> bool {
    ('a' <= c && c <= 'z') || ('A' <= c && c <= 'Z') || ('0' <= c && c <= '9') || c == ':'
        || c == '/' || c == '*' || c == '?' || c == '-' || c == '.' || c == '_' || c == '+'
        || c == '@'
}

/// Unicode `White_Space`, as `char::is_whitespace` decides it.
pub open spec fn is_whitespace(c: char) -> bool {
    let v = c as u32;
    (0x09 <= v && v <= 0x0D) || v == 0x20 || v == 0x85 || v == 0xA0 || v == 0x1680 || (0x2000
        <= v && v <= 0x200A) || v == 0x2028 || v == 0x2029 || v == 0x202F || v == 0x205F || v
        == 0x3000
}

/// No two consecutive dots.
pub open spec fn no_dotdot(s: Seq<char>) -> bool {
    forall|i: int| 0 <= i < s.len() - 1 ==> !(#[trigger] s[i] == '.' && s[i + 1] == '.')
}

/// No line break.
pub open spec fn no_newline(s: Seq<char>) -> bool {
    forall|i: int| 0 <= i < s.len() ==> #[trigger] s[i] != '\n'
}

/// Every character is an identifier character.
pub open spec fn all_ident(s: Seq<char>) -> bool {
    forall|i: int| 0 <= i < s.len() ==> #[trigger] is_ident_char(s[i])
}

/// What the text of each token kind looks like.
pub open spec fn token_text_ok(k: TokenKind) -> bool {
    match k {
        TokenKind::Ident(s) => s@.len() > 0 && all_ident(s@) && no_dotdot(s@),
        TokenKind::Comment(s) => no_newline(s@) && (s@.len() == 0 || !is_whitespace(s@.last())),
        TokenKind::Placeholder(s) => no_newline(s@),
        _ => true,
    }
}

// ─── What the tokenizer reads ────────────────────────────────────────────────

/// A token kind as plain values.
pub enum KindView {
    Ident(Seq<char>),
    QuotedString(Seq<char>),
    Comment(Seq<char>),
    Placeholder(Seq<char>),
    LBrace,
    RBrace,
    Semicolon,
    DotDot,
    Newline,
    Eof,
}

/// A token kind as plain values.
pub open spec fn kind_view(k: TokenKind) -> KindView {
    match k {
        TokenKind::Ident(s) => KindView::Ident(s@),
        TokenKind::QuotedString(s) => KindView::QuotedString(s@),
        TokenKind::Comment(s) => KindView::Comment(s@),
        TokenKind::Placeholder(s) => KindView::Placeholder(s@),
        TokenKind::LBrace => KindView::LBrace,
        TokenKind::RBrace => KindView::RBrace,
        TokenKind::Semicolon => KindView::Semicolon,
        TokenKind::DotDot => KindView::DotDot,
        TokenKind::Newline => KindView::Newline,
        TokenKind::Eof => KindView::Eof,
    }
}

/// A token as plain values.
pub open spec fn token_view(t: Token) -> (KindView, Span) {
    (kind_view(t.kind), t.span)
}

/// A token list as plain values.
pub open spec fn tokens_view(ts: Seq<Token>) -> Seq<(KindView, Span)> {
    ts.map_values(|t: Token| token_view(t))
}

/// The byte offset of character index `i`.
pub open spec fn off(cs: Seq<char>, i: int) -> nat {
    utf8_len(cs.take(i))
}

/// The span from character index `a` to `b`, in bytes.
pub open spec fn span_of(cs: Seq<char>, a: int, b: int) -> Span {
    Span { offset: off(cs, a) as usize, len: (off(cs, b) - off(cs, a)) as usize }
}

/// A span of `len` bytes at character index `a`.
pub open spec fn span_at(cs: Seq<char>, a: int, len: nat) -> Span {
    Span { offset: off(cs, a) as usize, len: len as usize }
}

/// Space, tab or carriage return: skipped between tokens on a line.
pub open spec fn is_blank(c: char) -> bool {
    c == ' ' || c == '\t' || c == '\r'
}

/// The first index from `i` that is not blank.
pub open spec fn skip_blanks(cs: Seq<char>, i: int) -> int
    decreases cs.len() - i,
{
    if 0 <= i < cs.len() && is_blank(cs[i]) {
        skip_blanks(cs, i + 1)
    } else {
        i
    }
}

/// The first index from `i` that is neither a line break nor blank: a run
/// of line breaks makes one token.
pub open spec fn skip_breaks(cs: Seq<char>, i: int) -> int
    decreases cs.len() - i,
{
    if 0 <= i < cs.len() && (cs[i] == '\n' || is_blank(cs[i])) {
        skip_breaks(cs, i + 1)
    } else {
        i
    }
}

/// The index of the first line break from `i`, or the end.
pub open spec fn line_end(cs: Seq<char>, i: int) -> int
    decreases cs.len() - i,
{
    if 0 <= i < cs.len() && cs[i] != '\n' {
        line_end(cs, i + 1)
    } else {
        i
    }
}

/// Where an identifier that starts at `i` ends: at the first character
/// that is no identifier character or that starts `..`.
pub open spec fn ident_end(cs: Seq<char>, i: int) -> int
    decreases cs.len() - i,
{
    if 0 <= i < cs.len() && is_ident_char(cs[i]) && !(cs[i] == '.' && i + 1 < cs.len() && cs[i + 1] == '.') {
        ident_end(cs, i + 1)
    } else {
        i
    }
}

/// `s` without trailing white space (`str::trim_end`).
pub open spec fn trim_ws_end(s: Seq<char>) -> Seq<char>
    decreases s.len(),
{
    if s.len() > 0 && is_whitespace(s.last()) {
        trim_ws_end(s.drop_last())
    } else {
        s
    }
}

/// Whether the characters from `i` spell `lit`.
pub open spec fn at_lit(cs: Seq<char>, i: int, lit: Seq<char>) -> bool {
    i + lit.len() <= cs.len() && cs.subrange(i, i + lit.len()) == lit
}

/// A `{` at `q` opens a placeholder when `$`, `env.`, `file.` or `vars.`
/// follows it.
pub open spec fn placeholder_start(cs: Seq<char>, q: int) -> bool {
    q + 1 < cs.len() && (cs[q + 1] == '$' || at_lit(cs, q + 1, "env."@) || at_lit(cs, q + 1, "file."@)
        || at_lit(cs, q + 1, "vars."@))
}

/// Reading a placeholder from `i` at brace nesting `depth`: the index just
/// past the brace that closes it, or `None` when a line break or the end
/// comes first.
pub open spec fn placeholder_end(cs: Seq<char>, i: int, depth: nat) -> Option<int>
    decreases cs.len() - i,
{
    if !(0 <= i < cs.len()) || cs[i] == '\n' {
        None
    } else if cs[i] == '{' {
        placeholder_end(cs, i + 1, depth + 1)
    } else if cs[i] == '}' {
        if depth <= 1 {
            Some(i + 1)
        } else {
            placeholder_end(cs, i + 1, (depth - 1) as nat)
        }
    } else {
        placeholder_end(cs, i + 1, depth)
    }
}

/// The character an escape stands for: `\n \t \r \\ \"`.
pub open spec fn unescape(c: char) -> Option<char> {
    if c == 'n' {
        Some('\n')
    } else if c == 't' {
        Some('\t')
    } else if c == 'r' {
        Some('\r')
    } else if c == '\\' {
        Some('\\')
    } else if c == '"' {
        Some('"')
    } else {
        None
    }
}

/// The first byte of a character's UTF-8 encoding, read as a Latin-1
/// character.
pub open spec fn spec_leading_byte_char(c: char) -> char {
    let v = c as u32;
    if v < 0x80 {
        c
    } else if v < 0x800 {
        ((0xC0u32 | (v >> 6u32)) as u8) as char
    } else if v < 0x10000 {
        ((0xE0u32 | (v >> 12u32)) as u8) as char
    } else {
        ((0xF0u32 | (v >> 18u32)) as u8) as char
    }
}

/// Reading a string body from `i` for the string that opens at `q`: the
/// unescaped characters and the index just past the closing quote; an
/// unterminated string (end of input or line break first) or an unknown
/// escape is an error.
pub open spec fn scan_string(cs: Seq<char>, q: int, i: int) -> Result<(Seq<char>, int), LexError>
    decreases cs.len() - i,
{
    if !(0 <= i < cs.len()) {
        Err(LexError::UnterminatedString { span: span_at(cs, q, 1) })
    } else if cs[i] == '"' {
        Ok((Seq::empty(), i + 1))
    } else if cs[i] == '\\' {
        if i + 1 >= cs.len() {
            Err(LexError::UnterminatedString { span: span_at(cs, q, 1) })
        } else {
            match unescape(cs[i + 1]) {
                None => Err(LexError::InvalidEscape { ch: spec_leading_byte_char(cs[i + 1]), span: span_at(cs, i, 2) }),
                Some(c) => match scan_string(cs, q, i + 2) {
                    Ok((v, n)) => Ok((seq![c] + v, n)),
                    Err(e) => Err(e),
                },
            }
        }
    } else if cs[i] == '\n' {
        Err(LexError::UnterminatedString { span: span_at(cs, q, 1) })
    } else {
        match scan_string(cs, q, i + 1) {
            Ok((v, n)) => Ok((seq![cs[i]] + v, n)),
            Err(e) => Err(e),
        }
    }
}

/// The token that starts at character index `q` (not blank, inside the
/// source) and the index just past it.
pub open spec fn scan_token(cs: Seq<char>, q: int) -> Result<((KindView, Span), int), LexError> {
    let c = cs[q];
    if c == '\n' {
        Ok(((KindView::Newline, span_at(cs, q, 1)), skip_breaks(cs, q + 1)))
    } else if c == '#' {
        let c0 = if q + 1 < cs.len() && cs[q + 1] == ' ' { q + 2 } else { q + 1 };
        let e = line_end(cs, c0);
        Ok(((KindView::Comment(trim_ws_end(cs.subrange(c0, e))), span_of(cs, q, e)), e))
    } else if c == '"' {
        match scan_string(cs, q, q + 1) {
            Ok((v, n)) => Ok(((KindView::QuotedString(v), span_of(cs, q, n)), n)),
            Err(e) => Err(e),
        }
    } else if c == '{' {
        if placeholder_start(cs, q) {
            match placeholder_end(cs, q + 1, 1) {
                Some(n) => Ok(((KindView::Placeholder(cs.subrange(q + 1, n - 1)), span_of(cs, q, n)), n)),
                None => Err(LexError::UnterminatedPlaceholder { span: span_at(cs, q, 1) }),
            }
        } else {
            Ok(((KindView::LBrace, span_at(cs, q, 1)), q + 1))
        }
    } else if c == '}' {
        Ok(((KindView::RBrace, span_at(cs, q, 1)), q + 1))
    } else if c == ';' {
        Ok(((KindView::Semicolon, span_at(cs, q, 1)), q + 1))
    } else if c == '.' && q + 1 < cs.len() && cs[q + 1] == '.' {
        Ok(((KindView::DotDot, span_at(cs, q, 2)), q + 2))
    } else {
        let e = ident_end(cs, q);
        if e == q {
            Err(LexError::UnexpectedCharacter { ch: c, span: span_at(cs, q, char_width(c)) })
        } else {
            Ok(((KindView::Ident(cs.subrange(q, e)), span_of(cs, q, e)), e))
        }
    }
}

/// The tokens of the source from character index `i` on, ending in `Eof`,
/// or the first error.
pub open spec fn tokens_from(cs: Seq<char>, i: int) -> Result<Seq<(KindView, Span)>, LexError>
    decreases cs.len() - i,
{
    let q = skip_blanks(cs, i);
    if !(0 <= i && q < cs.len()) {
        Ok(seq![(KindView::Eof, span_at(cs, q, 0))])
    } else {
        match scan_token(cs, q) {
            Err(e) => Err(e),
            Ok((t, n)) => if i < n <= cs.len() {
                match tokens_from(cs, n) {
                    Ok(rest) => Ok(seq![t] + rest),
                    Err(e) => Err(e),
                }
            } else {
                Ok(seq![t])
            },
        }
    }
}

/// Inside a quoted string a backslash and the character after it read as
/// one character: `\n` a line feed, `\t` a tab, `\r` a carriage return,
/// `\\` a backslash and `\"` a quote. Any other character after the
/// backslash makes the string an invalid escape.
pub proof fn lemma_escapes_read_as_their_characters(cs: Seq<char>, q: int, i: int)
    requires
        0 <= i,
        i + 1 < cs.len(),
        cs[i] == '\\',
    ensures
        ({
            let x = cs[i + 1];
            let r = scan_string(cs, q, i);
            &&& x == 'n' ==> (r matches Ok((v, _)) ==> v.len() > 0 && v[0] == '\n')
            &&& x == 't' ==> (r matches Ok((v, _)) ==> v.len() > 0 && v[0] == '\t')
            &&& x == 'r' ==> (r matches Ok((v, _)) ==> v.len() > 0 && v[0] == '\r')
            &&& x == '\\' ==> (r matches Ok((v, _)) ==> v.len() > 0 && v[0] == '\\')
            &&& x == '"' ==> (r matches Ok((v, _)) ==> v.len() > 0 && v[0] == '"')
            &&& !(x == 'n' || x == 't' || x == 'r' || x == '\\' || x == '"') ==> (r matches Err(
                LexError::InvalidEscape { .. },
            ))
            &&& (r matches Ok((v, n)) ==> scan_string(cs, q, i + 2) == Ok::<(Seq<char>, int), LexError>(
                (v.drop_first(), n),
            ))
        }),
{
    let r = scan_string(cs, q, i);
    if let Ok((v, n)) = r {
        if let Ok((w, m)) = scan_string(cs, q, i + 2) {
            assert(v.drop_first() =~= w);
        }
    }
}

/// A quoted string must close on its own line: a line feed, or the end of
/// the source, before the closing quote makes it unterminated.
pub proof fn lemma_string_closes_on_its_line(cs: Seq<char>, q: int, i: int)
    requires
        0 <= i,
        i >= cs.len() || cs[i] == '\n',
    ensures
        scan_string(cs, q, i) matches Err(LexError::UnterminatedString { .. }),
{
}

/// Punctuation tokens cover exactly their characters: a brace or a `;`
/// one byte, a `..` two bytes.
pub proof fn lemma_punctuation_widths(cs: Seq<char>, q: int)
    requires
        0 <= q < cs.len(),
    ensures
        scan_token(cs, q) matches Ok(((k, sp), _)) ==> ((k is LBrace || k is RBrace || k is Semicolon) ==> sp.len == 1)
            && (k is DotDot ==> sp.len == 2),
{
}

/// The tokens of a source text, or the first error.
pub open spec fn spec_tokenize(source: Seq<char>) -> Result<Seq<(KindView, Span)>, LexError> {
    tokens_from(source, 0)
}

/// A token stream as `tokenize` produces it for a source of `n` bytes: one
/// `Eof` at the end at offset `n`, every other token well-formed, and spans
/// in source order without overlap.
pub open spec fn tokens_ok(ts: Seq<Token>, n: nat) -> bool {
    &&& ts.len() > 0
    &&& ts.last().kind is Eof
    &&& ts.last().span.offset == n
    &&& ts.last().span.len == 0
    &&& forall|i: int| 0 <= i < ts.len() - 1 ==> !(#[trigger] ts[i].kind is Eof)
    &&& forall|i: int| 0 <= i < ts.len() - 1 ==> token_text_ok(#[trigger] ts[i].kind)
    &&& forall|i: int| 0 <= i < ts.len() - 1 ==> span_end(#[trigger] ts[i].span) <= ts[i + 1].span.offset
    &&& forall|i: int| 0 <= i < ts.len() ==> span_end(#[trigger] ts[i].span) <= n
}

/// The text an identifier, string or placeholder token carries.
pub open spec fn spec_text(k: TokenKind) -> Seq<char> {
    match k {
        TokenKind::Ident(s) => s@,
        TokenKind::QuotedString(s) => s@,
        TokenKind::Placeholder(s) => s@,
        _ => Seq::<char>::empty(),
    }
}

/// How a token reads in a diagnostic.
pub open spec fn token_description(k: TokenKind) -> Seq<char> {
    match k {
        TokenKind::Ident(s) => s@,
        TokenKind::QuotedString(s) => seq!['"'] + s@ + seq!['"'],
        TokenKind::Comment(s) => "# "@ + s@,
        TokenKind::Placeholder(s) => seq!['{'] + s@ + seq!['}'],
        TokenKind::LBrace => seq!['{'],
        TokenKind::RBrace => seq!['}'],
        TokenKind::Semicolon => seq![';'],
        TokenKind::DotDot => ".."@,
        TokenKind::Newline => "<newline>"@,
        TokenKind::Eof => "<eof>"@,
    }
}

impl TokenKind {
    /// How the token reads in a diagnostic (`got …`).
    pub fn describe(&self) -> (s: String)
        ensures
            s@ == token_description(*self),
    {
        let mut out = String::new();
        match self {
            TokenKind::Ident(s) => push_str(&mut out, s.as_str()),
            TokenKind::QuotedString(s) => {
                push_char(&mut out, '"');
                push_str(&mut out, s.as_str());
                push_char(&mut out, '"');
            },
            TokenKind::Comment(s) => {
                push_str(&mut out, "# ");
                push_str(&mut out, s.as_str());
            },
            TokenKind::Placeholder(s) => {
                push_char(&mut out, '{');
                push_str(&mut out, s.as_str());
                push_char(&mut out, '}');
            },
            TokenKind::LBrace => push_char(&mut out, '{'),
            TokenKind::RBrace => push_char(&mut out, '}'),
            TokenKind::Semicolon => push_char(&mut out, ';'),
            TokenKind::DotDot => push_str(&mut out, ".."),
            TokenKind::Newline => push_str(&mut out, "<newline>"),
            TokenKind::Eof => push_str(&mut out, "<eof>"),
        }
        assert(out@ =~= token_description(*self));
        out
    }
}

impl Token {
    pub fn new(kind: TokenKind, span: Span) -> (t: Token)
        ensures
            t == (Token { kind, span }),
    {
        Token { kind, span }
    }

    /// The text content of identifier, string and placeholder tokens; empty
    /// for the others.
    pub fn text(&self) -> (r: &str)
        ensures
            r@ == spec_text(self.kind),
    {
        match &self.kind {
            TokenKind::Ident(s) => s.as_str(),
            TokenKind::QuotedString(s) => s.as_str(),
            TokenKind::Placeholder(s) => s.as_str(),
            _ => {
                proof {
                    reveal_strlit("");
                }
                ""
            },
        }
    }

    /// Whether this is the identifier `name`.
    pub fn is_ident(&self, name: &str) -> (r: bool)
        ensures
            r == (self.kind is Ident && spec_text(self.kind) == name@),
    {
        match &self.kind {
            TokenKind::Ident(s) => str_eq(s.as_str(), name),
            _ => false,
        }
    }
}

/// Tokenizes a Croniqfile source string.
pub struct Lexer {
    chars: Vec<char>,
    pos: usize,
    offset: usize,
}

impl Lexer {
    /// The characters being tokenized.
    pub closed spec fn source(&self) -> Seq<char> {
        self.chars@
    }

    /// Index of the next character to read.
    pub closed spec fn position(&self) -> nat {
        self.pos as nat
    }

    /// Byte offset of the next character to read.
    pub closed spec fn byte_offset(&self) -> nat {
        self.offset as nat
    }

    /// The position is inside the source and the byte offset is the UTF-8
    /// length of what has been read.
    pub closed spec fn wf(&self) -> bool {
        &&& self.pos <= self.chars@.len()
        &&& self.chars@.len() <= usize::MAX
        &&& self.offset == utf8_len(self.chars@.take(self.pos as int))
        &&& utf8_len(self.chars@) <= usize::MAX
    }

    pub fn new(source: &str) -> (l: Lexer)
        ensures
            l.wf(),
            l.source() == source@,
            l.position() == 0,
            l.byte_offset() == 0,
    {
        let chars = chars_of(source);
        let _n = source.as_bytes().len();
        let _m = chars.len();
        proof {
            lemma_str_len(source);
            assert(chars@.take(0) =~= Seq::<char>::empty());
        }
        Lexer { chars, pos: 0, offset: 0 }
    }

    /// Tokenize the entire source into a vector of tokens ending in `Eof`.
    pub fn tokenize(source: &str) -> (r: Result<Vec<Token>, LexError>)
        ensures
            r matches Ok(ts) ==> tokens_ok(ts@, source.spec_bytes().len()),
            match r {
                Ok(ts) => spec_tokenize(source@) == Ok::<Seq<(KindView, Span)>, LexError>(tokens_view(ts@)),
                Err(e) => spec_tokenize(source@) == Err::<Seq<(KindView, Span)>, LexError>(e),
            },
    {
        let mut lexer = Lexer::new(source);
        let mut tokens: Vec<Token> = Vec::new();
        proof {
            lemma_str_len(source);
        }
        loop
            invariant
                lexer.wf(),
                lexer.source() == source@,
                source.spec_bytes().len() == utf8_len(source@),
                forall|i: int| 0 <= i < tokens@.len() ==> !(#[trigger] tokens@[i].kind is Eof),
                forall|i: int| 0 <= i < tokens@.len() ==> token_text_ok(#[trigger] tokens@[i].kind),
                forall|i: int| 0 <= i < tokens@.len() - 1 ==> span_end(#[trigger] tokens@[i].span) <= tokens@[i + 1].span.offset,
                tokens@.len() > 0 ==> span_end(tokens@.last().span) <= lexer.byte_offset(),
                forall|i: int| 0 <= i < tokens@.len() ==> span_end(#[trigger] tokens@[i].span) <= lexer.byte_offset(),
                lexer.byte_offset() <= utf8_len(source@),
                tokens_from(source@, 0) == match tokens_from(source@, lexer.position() as int) {
                    Ok(rest) => Ok::<Seq<(KindView, Span)>, LexError>(tokens_view(tokens@) + rest),
                    Err(e) => Err(e),
                },
            decreases lexer.source().len() - lexer.position(),
        {
            let ghost before = lexer.byte_offset();
            let ghost p = lexer.position() as int;
            let ghost old_view = tokens_view(tokens@);
            let tok = match lexer.next_token() {
                Ok(t) => t,
                Err(e) => {
                    return Err(e);
                },
            };
            proof {
                let cs = source@;
                let q = skip_blanks(cs, p);
                let tv = token_view(tok);
                if q < cs.len() {
                    let n = lexer.position() as int;
                    assert(scan_token(cs, q) == Ok::<((KindView, Span), int), LexError>((tv, n)));
                    match tokens_from(cs, n) {
                        Ok(rest) => {
                            assert(old_view + (seq![tv] + rest) =~= old_view.push(tv) + rest);
                        },
                        Err(e) => {},
                    }
                }
            }
            proof {
                lexer.lemma_offset_bound();
            }
            let is_eof = matches!(tok.kind, TokenKind::Eof);
            let ghost old_tokens = tokens@;
            tokens.push(tok);
            assert(tokens_view(tokens@) =~= old_view.push(token_view(tok)));
            if is_eof {
                proof {
                    assert(old_view.push(token_view(tok)) =~= old_view + seq![token_view(tok)]);
                    assert(lexer.source().take(lexer.source().len() as int) =~= lexer.source());
                    assert forall|i: int| 0 <= i < tokens@.len() - 1 implies span_end(#[trigger] tokens@[i].span) <= tokens@[i + 1].span.offset by {
                        if i < old_tokens.len() - 1 {
                            assert(tokens@[i] == old_tokens[i]);
                        }
                    }
                    assert forall|i: int| 0 <= i < tokens@.len() implies span_end(#[trigger] tokens@[i].span) <= source.spec_bytes().len() by {
                        if i < old_tokens.len() {
                            assert(tokens@[i] == old_tokens[i]);
                        }
                    }
                }
                return Ok(tokens);
            }
            proof {
                assert forall|i: int| 0 <= i < tokens@.len() - 1 implies span_end(#[trigger] tokens@[i].span) <= tokens@[i + 1].span.offset by {
                    if i < old_tokens.len() - 1 {
                        assert(tokens@[i] == old_tokens[i]);
                    }
                }
                assert forall|i: int| 0 <= i < tokens@.len() implies token_text_ok(#[trigger] tokens@[i].kind) && !(tokens@[i].kind is Eof) && span_end(tokens@[i].span) <= lexer.byte_offset() by {
                    if i < old_tokens.len() {
                        assert(tokens@[i] == old_tokens[i]);
                    }
                }
            }
        }
    }

    /// The byte offset never exceeds the byte length of the source.
    pub proof fn lemma_offset_bound(&self)
        requires
            self.wf(),
        ensures
            self.byte_offset() <= utf8_len(self.source()),
    {
        lemma_utf8_len_prefix(self.chars@, self.pos as int);
    }

    /// Once the lexer has returned `Eof` it stays there: at the end of the
    /// source no blank is left to skip, so the next call returns `Eof`
    /// again, with the same empty span at the source's byte length, and
    /// leaves the position where it is.
    pub proof fn lemma_eof_repeats(&self)
        requires
            self.wf(),
            self.position() == self.source().len(),
        ensures
            skip_blanks(self.source(), self.position() as int) == self.source().len(),
            span_at(self.source(), self.source().len() as int, 0) == (Span {
                offset: self.byte_offset() as usize,
                len: 0,
            }),
            self.byte_offset() == utf8_len(self.source()),
    {
        assert(self.chars@.take(self.pos as int) =~= self.chars@);
    }

    /// Moves past one character.
    fn bump(&mut self)
        requires
            old(self).wf(),
            old(self).pos < old(self).chars@.len(),
        ensures
            final(self).wf(),
            final(self).chars == old(self).chars,
            final(self).pos == old(self).pos + 1,
            final(self).offset == old(self).offset + char_width(old(self).chars@[old(self).pos as int]),
    {
        proof {
            lemma_utf8_len_prefix(self.chars@, self.pos as int);
        }
        let w = char_width_exec(self.chars[self.pos]);
        self.pos = self.pos + 1;
        self.offset = self.offset + w;
    }

    fn skip_spaces(&mut self)
        requires
            old(self).wf(),
        ensures
            final(self).wf(),
            final(self).chars == old(self).chars,
            final(self).pos >= old(self).pos,
            final(self).offset >= old(self).offset,
            final(self).pos == skip_blanks(old(self).chars@, old(self).pos as int),
    {
        while self.pos < self.chars.len()
            invariant
                self.wf(),
                self.chars == old(self).chars,
                self.pos >= old(self).pos,
                self.offset >= old(self).offset,
                skip_blanks(self.chars@, old(self).pos as int) == skip_blanks(self.chars@, self.pos as int),
            ensures
                self.wf(),
                self.chars == old(self).chars,
                self.pos >= old(self).pos,
                self.offset >= old(self).offset,
                skip_blanks(self.chars@, old(self).pos as int) == skip_blanks(self.chars@, self.pos as int),
                !(self.pos < self.chars@.len() && is_blank(self.chars@[self.pos as int])),
            decreases self.chars@.len() - self.pos,
        {
            let b = self.chars[self.pos];
            if b == ' ' || b == '\t' || b == '\r' {
                self.bump();
            } else {
                break;
            }
        }
    }

    /// Whether the characters from `i` on start with the literal `lit`.
    fn matches_at(&self, i: usize, lit: &str) -> (r: bool)
        requires
            self.wf(),
            i <= self.chars@.len(),
        ensures
            r == (i + lit@.len() <= self.chars@.len() && self.chars@.subrange(i as int, i + lit@.len()) == lit@),
    {
        let l = chars_of(lit);
        if l.len() > self.chars.len() - i {
            return false;
        }
        let mut j: usize = 0;
        while j < l.len()
            invariant
                i + l@.len() <= self.chars@.len(),
                self.chars@.len() <= usize::MAX,
                l@ == lit@,
                j <= l.len(),
                forall|k: int| 0 <= k < j ==> self.chars@[i + k] == l@[k],
            decreases l.len() - j,
        {
            if self.chars[i + j] != l[j] {
                assert(self.chars@.subrange(i as int, i + lit@.len())[j as int] != lit@[j as int]);
                return false;
            }
            j = j + 1;
        }
        assert(self.chars@.subrange(i as int, i + lit@.len()) =~= lit@);
        true
    }

    /// Returns the next token.
    pub fn next_token(&mut self) -> (r: Result<Token, LexError>)
        requires
            old(self).wf(),
        ensures
            final(self).wf(),
            final(self).source() == old(self).source(),
            final(self).position() >= old(self).position(),
            final(self).byte_offset() >= old(self).byte_offset(),
            r matches Ok(t) ==> {
                &&& token_text_ok(t.kind)
                &&& t.span.offset >= old(self).byte_offset()
                &&& span_end(t.span) <= final(self).byte_offset()
                &&& (t.kind is Eof ==> final(self).position() == final(self).source().len()
                    && t.span.len == 0 && t.span.offset == final(self).byte_offset())
                &&& (!(t.kind is Eof) ==> final(self).position() > old(self).position())
            },
            ({
                let cs = old(self).source();
                let q = skip_blanks(cs, old(self).position() as int);
                if q >= cs.len() {
                    r matches Ok(t) && token_view(t) == (KindView::Eof, span_at(cs, q, 0))
                        && final(self).position() == q
                } else {
                    match r {
                        Ok(t) => scan_token(cs, q) == Ok::<((KindView, Span), int), LexError>(
                            (token_view(t), final(self).position() as int),
                        ),
                        Err(e) => scan_token(cs, q) == Err::<((KindView, Span), int), LexError>(e),
                    }
                }
            }),
    {
        let ghost cs = self.chars@;
        self.skip_spaces();
        let ghost q = self.pos as int;
        let start = self.offset;
        if self.pos >= self.chars.len() {
            return Ok(Token::new(TokenKind::Eof, Span::empty(start)));
        }
        let b = self.chars[self.pos];
        if b == '\n' {
            self.bump();
            while self.pos < self.chars.len()
                invariant
                    self.wf(),
                    self.chars == old(self).chars,
                    cs == self.chars@,
                    self.offset >= start + 1,
                    self.pos > old(self).pos,
                    start >= old(self).offset,
                    skip_breaks(cs, q + 1) == skip_breaks(cs, self.pos as int),
                ensures
                    self.wf(),
                    self.chars == old(self).chars,
                    self.offset >= start + 1,
                    self.pos > old(self).pos,
                    start >= old(self).offset,
                    skip_breaks(cs, q + 1) == self.pos,
                decreases self.chars@.len() - self.pos,
            {
                let c = self.chars[self.pos];
                if c == '\n' || c == '\r' || c == ' ' || c == '\t' {
                    self.bump();
                } else {
                    break;
                }
            }
            return Ok(Token::new(TokenKind::Newline, Span::new(start, 1)));
        }
        if b == '#' {
            self.lex_comment()
        } else if b == '"' {
            self.lex_string()
        } else if b == '{' {
            if self.is_placeholder_start() {
                self.lex_placeholder()
            } else {
                self.bump();
                Ok(Token::new(TokenKind::LBrace, Span::new(start, 1)))
            }
        } else if b == '}' {
            self.bump();
            Ok(Token::new(TokenKind::RBrace, Span::new(start, 1)))
        } else if b == ';' {
            self.bump();
            Ok(Token::new(TokenKind::Semicolon, Span::new(start, 1)))
        } else if b == '.' && self.pos + 1 < self.chars.len() && self.chars[self.pos + 1] == '.' {
            self.bump();
            self.bump();
            Ok(Token::new(TokenKind::DotDot, Span::new(start, 2)))
        } else {
            self.lex_ident()
        }
    }

    /// `{` followed by `$`, `env.`, `file.` or `vars.` opens a placeholder
    /// rather than a block.
    fn is_placeholder_start(&self) -> (r: bool)
        requires
            self.wf(),
            self.pos < self.chars@.len(),
        ensures
            r == placeholder_start(self.chars@, self.pos as int),
    {
        if self.pos + 1 >= self.chars.len() {
            return false;
        }
        if self.chars[self.pos + 1] == '$' {
            return true;
        }
        let i = self.pos + 1;
        self.matches_at(i, "env.") || self.matches_at(i, "file.") || self.matches_at(i, "vars.")
    }

    /// `#` up to the end of the line.
    fn lex_comment(&mut self) -> (r: Result<Token, LexError>)
        requires
            old(self).wf(),
            old(self).pos < old(self).chars@.len(),
            old(self).chars@[old(self).pos as int] == '#',
        ensures
            final(self).wf(),
            final(self).chars == old(self).chars,
            final(self).pos > old(self).pos,
            final(self).offset >= old(self).offset,
            r matches Ok(t) && token_text_ok(t.kind) && t.span.offset == old(self).offset
                && span_end(t.span) <= final(self).offset && t.kind is Comment,
            r matches Ok(t) && scan_token(old(self).chars@, old(self).pos as int)
                == Ok::<((KindView, Span), int), LexError>((token_view(t), final(self).pos as int)),
    {
        let ghost cs = self.chars@;
        let ghost q = self.pos as int;
        let start = self.offset;
        self.bump();
        if self.pos < self.chars.len() && self.chars[self.pos] == ' ' {
            self.bump();
        }
        let content_start = self.pos;
        assert(content_start == (if q + 1 < cs.len() && cs[q + 1] == ' ' { q + 2 } else { q + 1 }));
        while self.pos < self.chars.len()
            invariant
                self.wf(),
                self.chars == old(self).chars,
                content_start <= self.pos,
                self.offset >= start,
                no_newline(self.chars@.subrange(content_start as int, self.pos as int)),
                line_end(cs, content_start as int) == line_end(cs, self.pos as int),
                cs == self.chars@,
            ensures
                self.wf(),
                self.chars == old(self).chars,
                content_start <= self.pos,
                self.offset >= start,
                no_newline(self.chars@.subrange(content_start as int, self.pos as int)),
                line_end(cs, content_start as int) == self.pos,
            decreases self.chars@.len() - self.pos,
        {
            if self.chars[self.pos] == '\n' {
                break;
            }
            let ghost p = self.pos;
            self.bump();
            assert(no_newline(self.chars@.subrange(content_start as int, self.pos as int))) by {
                assert forall|i: int| 0 <= i < self.pos - content_start implies #[trigger] self.chars@.subrange(content_start as int, self.pos as int)[i] != '\n' by {
                    if i < p - content_start {
                        assert(self.chars@.subrange(content_start as int, self.pos as int)[i] == self.chars@.subrange(content_start as int, p as int)[i]);
                    }
                }
            }
        }
        let raw = crate::text::slice_chars(self.chars.as_slice(), content_start, self.pos);
        let content = trim_end(raw.as_slice());
        Ok(Token::new(TokenKind::Comment(string_of(content.as_slice())), Span::new(start, self.offset - start)))
    }

    /// `"…"` with escapes.
    fn lex_string(&mut self) -> (r: Result<Token, LexError>)
        requires
            old(self).wf(),
            old(self).pos < old(self).chars@.len(),
            old(self).chars@[old(self).pos as int] == '"',
        ensures
            final(self).wf(),
            final(self).chars == old(self).chars,
            final(self).pos > old(self).pos,
            final(self).offset >= old(self).offset,
            r matches Ok(t) ==> token_text_ok(t.kind) && t.span.offset == old(self).offset
                && span_end(t.span) <= final(self).offset && t.kind is QuotedString,
            match r {
                Ok(t) => scan_token(old(self).chars@, old(self).pos as int)
                    == Ok::<((KindView, Span), int), LexError>((token_view(t), final(self).pos as int)),
                Err(e) => scan_token(old(self).chars@, old(self).pos as int) == Err::<((KindView, Span), int), LexError>(e),
            },
    {
        let ghost cs = self.chars@;
        let ghost q = self.pos as int;
        let start = self.offset;
        self.bump();
        let mut value: Vec<char> = Vec::new();
        loop
            invariant_except_break
                scan_string(cs, q, q + 1) == match scan_string(cs, q, self.pos as int) {
                    Ok((v, n)) => Ok::<(Seq<char>, int), LexError>((value@ + v, n)),
                    Err(e) => Err(e),
                },
            invariant
                self.wf(),
                self.chars == old(self).chars,
                cs == self.chars@,
                q == old(self).pos,
                self.pos > old(self).pos,
                self.offset > start,
                start == old(self).offset,
                start == off(cs, q),
                0 <= q < cs.len(),
                cs[q] == '"',
            ensures
                self.wf(),
                self.chars == old(self).chars,
                self.pos > old(self).pos,
                self.offset > start,
                scan_string(cs, q, q + 1) == Ok::<(Seq<char>, int), LexError>((value@, self.pos as int)),
            decreases self.chars@.len() - self.pos,
        {
            let ghost i = self.pos as int;
            let ghost before = value@;
            if self.pos >= self.chars.len() {
                return Err(LexError::UnterminatedString { span: Span::new(start, 1) });
            }
            let b = self.chars[self.pos];
            let esc_pos = self.offset;
            self.bump();
            if b == '"' {
                assert(scan_string(cs, q, i) == Ok::<(Seq<char>, int), LexError>((Seq::<char>::empty(), i + 1)));
                assert(value@ + Seq::<char>::empty() =~= value@);
                break;
            } else if b == '\\' {
                if self.pos >= self.chars.len() {
                    return Err(LexError::UnterminatedString { span: Span::new(start, 1) });
                }
                let esc = self.chars[self.pos];
                self.bump();
                if esc == 'n' {
                    value.push('\n');
                } else if esc == 't' {
                    value.push('\t');
                } else if esc == 'r' {
                    value.push('\r');
                } else if esc == '\\' {
                    value.push('\\');
                } else if esc == '"' {
                    value.push('"');
                } else {
                    return Err(LexError::InvalidEscape { ch: leading_byte_char(esc), span: Span::new(esc_pos, 2) });
                }
                proof {
                    let c = unescape(esc).unwrap();
                    assert(value@ == before.push(c));
                    match scan_string(cs, q, i + 2) {
                        Ok((v, n)) => {
                            assert(before + (seq![c] + v) =~= value@ + v);
                        },
                        Err(e) => {},
                    }
                }
            } else if b == '\n' {
                return Err(LexError::UnterminatedString { span: Span::new(start, 1) });
            } else {
                value.push(b);
                proof {
                    match scan_string(cs, q, i + 1) {
                        Ok((v, n)) => {
                            assert(before + (seq![b] + v) =~= value@ + v);
                        },
                        Err(e) => {},
                    }
                }
            }
        }
        Ok(Token::new(TokenKind::QuotedString(string_of(value.as_slice())), Span::new(start, self.offset - start)))
    }

    /// `{…}` placeholder with nested braces, on one line.
    fn lex_placeholder(&mut self) -> (r: Result<Token, LexError>)
        requires
            old(self).wf(),
            old(self).pos < old(self).chars@.len(),
            old(self).chars@[old(self).pos as int] == '{',
            placeholder_start(old(self).chars@, old(self).pos as int),
        ensures
            match r {
                Ok(t) => scan_token(old(self).chars@, old(self).pos as int)
                    == Ok::<((KindView, Span), int), LexError>((token_view(t), final(self).pos as int)),
                Err(e) => scan_token(old(self).chars@, old(self).pos as int) == Err::<((KindView, Span), int), LexError>(e),
            },
            final(self).wf(),
            final(self).chars == old(self).chars,
            final(self).pos > old(self).pos,
            final(self).offset >= old(self).offset,
            r matches Ok(t) ==> token_text_ok(t.kind) && t.span.offset == old(self).offset
                && span_end(t.span) <= final(self).offset && t.kind is Placeholder,
    {
        let ghost cs = self.chars@;
        let ghost q = self.pos as int;
        let start = self.offset;
        self.bump();
        let content_start = self.pos;
        let mut depth: usize = 1;
        while self.pos < self.chars.len()
            invariant
                self.wf(),
                self.chars == old(self).chars,
                cs == self.chars@,
                q == old(self).pos,
                0 <= q < cs.len(),
                cs[q] == '{',
                placeholder_start(cs, q),
                content_start == old(self).pos + 1,
                content_start <= self.pos,
                start == old(self).offset,
                start == off(cs, q),
                self.offset > start,
                1 <= depth <= self.pos - content_start + 1,
                no_newline(self.chars@.subrange(content_start as int, self.pos as int)),
                placeholder_end(cs, q + 1, 1) == placeholder_end(cs, self.pos as int, depth as nat),
            decreases self.chars@.len() - self.pos,
        {
            let b = self.chars[self.pos];
            let ghost p = self.pos;
            if b == '\n' {
                return Err(LexError::UnterminatedPlaceholder { span: Span::new(start, 1) });
            }
            self.bump();
            assert(no_newline(self.chars@.subrange(content_start as int, self.pos as int))) by {
                assert forall|i: int| 0 <= i < self.pos - content_start implies #[trigger] self.chars@.subrange(content_start as int, self.pos as int)[i] != '\n' by {
                    if i < p - content_start {
                        assert(self.chars@.subrange(content_start as int, self.pos as int)[i] == self.chars@.subrange(content_start as int, p as int)[i]);
                    }
                }
            }
            if b == '{' {
                depth = depth + 1;
            } else if b == '}' {
                depth = depth - 1;
                if depth == 0 {
                    let content = string_of_range(self.chars.as_slice(), content_start, self.pos - 1);
                    proof {
                        let whole = self.chars@.subrange(content_start as int, self.pos as int);
                        assert forall|i: int| 0 <= i < content@.len() implies #[trigger] content@[i] != '\n' by {
                            assert(content@[i] == whole[i]);
                        }
                    }
                    return Ok(Token::new(TokenKind::Placeholder(content), Span::new(start, self.offset - start)));
                }
            }
        }
        Err(LexError::UnterminatedPlaceholder { span: Span::new(start, 1) })
    }

    /// An unquoted identifier; stops before `..`.
    fn lex_ident(&mut self) -> (r: Result<Token, LexError>)
        requires
            old(self).wf(),
            old(self).pos < old(self).chars@.len(),
            ({
                let c = old(self).chars@[old(self).pos as int];
                let n = old(self).chars@.len();
                let q = old(self).pos as int;
                !(c == '\n' || c == '#' || c == '"' || c == '{' || c == '}' || c == ';' || (c == '.'
                    && q + 1 < n && old(self).chars@[q + 1] == '.'))
            }),
        ensures
            final(self).wf(),
            final(self).chars == old(self).chars,
            final(self).pos >= old(self).pos,
            final(self).offset >= old(self).offset,
            r matches Ok(t) ==> token_text_ok(t.kind) && t.span.offset == old(self).offset
                && span_end(t.span) <= final(self).offset && t.kind is Ident
                && final(self).pos > old(self).pos,
            match r {
                Ok(t) => scan_token(old(self).chars@, old(self).pos as int)
                    == Ok::<((KindView, Span), int), LexError>((token_view(t), final(self).pos as int)),
                Err(e) => scan_token(old(self).chars@, old(self).pos as int) == Err::<((KindView, Span), int), LexError>(e),
            },
    {
        let ghost cs = self.chars@;
        let start = self.offset;
        let start_pos = self.pos;
        while self.pos < self.chars.len()
            invariant
                self.wf(),
                self.chars == old(self).chars,
                cs == self.chars@,
                ident_end(cs, start_pos as int) == ident_end(cs, self.pos as int),
                start_pos == old(self).pos,
                start == old(self).offset,
                start_pos <= self.pos,
                self.offset >= start,
                forall|i: int| start_pos <= i < self.pos ==> #[trigger] is_ident_char(self.chars@[i]),
                forall|i: int| start_pos <= i < self.pos && #[trigger] self.chars@[i] == '.' ==> (i + 1 >= self.chars@.len() || self.chars@[i + 1] != '.'),
            ensures
                self.wf(),
                self.chars == old(self).chars,
                start_pos <= self.pos,
                self.offset >= start,
                ident_end(cs, start_pos as int) == self.pos,
                forall|i: int| start_pos <= i < self.pos ==> #[trigger] is_ident_char(self.chars@[i]),
                forall|i: int| start_pos <= i < self.pos && #[trigger] self.chars@[i] == '.' ==> (i + 1 >= self.chars@.len() || self.chars@[i + 1] != '.'),
            decreases self.chars@.len() - self.pos,
        {
            let b = self.chars[self.pos];
            if is_ident_char_exec(b) {
                if b == '.' && self.pos + 1 < self.chars.len() && self.chars[self.pos + 1] == '.' {
                    break;
                }
                self.bump();
            } else {
                break;
            }
        }
        if self.pos == start_pos {
            let c = self.chars[self.pos];
            return Err(LexError::UnexpectedCharacter { ch: c, span: Span::new(start, char_width_exec(c)) });
        }
        let text = string_of_range(self.chars.as_slice(), start_pos, self.pos);
        assert(start == off(cs, start_pos as int));
        proof {
            let sub = self.chars@.subrange(start_pos as int, self.pos as int);
            assert forall|i: int| 0 <= i < text@.len() implies #[trigger] is_ident_char(text@[i]) by {
                assert(text@[i] == self.chars@[start_pos + i]);
            }
            assert forall|i: int| 0 <= i < text@.len() - 1 implies !(#[trigger] text@[i] == '.' && text@[i + 1] == '.') by {
                assert(text@[i] == self.chars@[start_pos + i]);
                assert(text@[i + 1] == self.chars@[start_pos + i + 1]);
            }
        }
        Ok(Token::new(TokenKind::Ident(text), Span::new(start, self.offset - start)))
    }
}

/// Identifier characters.
pub fn is_ident_char_exec(b: char) -> (r: bool)
    ensures
        r == is_ident_char(b),
{
    ('a' <= b && b <= 'z') || ('A' <= b && b <= 'Z') || ('0' <= b && b <= '9') || b == ':'
        || b == '/' || b == '*' || b == '?' || b == '-' || b == '.' || b == '_' || b == '+'
        || b == '@'
}

/// Unicode whitespace.
pub fn is_whitespace_exec(c: char) -> (r: bool)
    ensures
        r == is_whitespace(c),
{
    let v = c as u32;
    (0x09 <= v && v <= 0x0D) || v == 0x20 || v == 0x85 || v == 0xA0 || v == 0x1680 || (0x2000
        <= v && v <= 0x200A) || v == 0x2028 || v == 0x2029 || v == 0x202F || v == 0x205F || v
        == 0x3000
}

/// `s` without trailing whitespace (`str::trim_end`).
pub fn trim_end(s: &[char]) -> (r: Vec<char>)
    ensures
        r@.len() <= s@.len(),
        r@ == s@.take(r@.len() as int),
        r@.len() == 0 || !is_whitespace(r@.last()),
        forall|i: int| r@.len() <= i < s@.len() ==> #[trigger] is_whitespace(s@[i]),
        r@ == trim_ws_end(s@),
{
    let mut end = s.len();
    assert(s@.take(end as int) =~= s@);
    while end > 0 && is_whitespace_exec(s[end - 1])
        invariant
            end <= s.len(),
            forall|i: int| end <= i < s@.len() ==> #[trigger] is_whitespace(s@[i]),
            trim_ws_end(s@) == trim_ws_end(s@.take(end as int)),
        decreases end,
    {
        assert(s@.take(end as int).drop_last() =~= s@.take(end - 1));
        end = end - 1;
    }
    let r = crate::text::slice_chars(s, 0, end);
    assert(r@ =~= s@.take(end as int));
    r
}

/// The character a string escape error reports: the first byte of the
/// escaped character's UTF-8 encoding, read as a Latin-1 code point.
fn leading_byte_char(c: char) -> (r: char)
    ensures
        r == spec_leading_byte_char(c),
{
    let v = c as u32;
    if v < 0x80 {
        c
    } else if v < 0x800 {
        ((0xC0u32 | (v >> 6)) as u8) as char
    } else if v < 0x10000 {
        ((0xE0u32 | (v >> 12)) as u8) as char
    } else {
        ((0xF0u32 | (v >> 18)) as u8) as char
    }
}

} // verus!
