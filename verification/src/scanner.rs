//! The scanner: raw source text to a flat, ordered token sequence, the last
//! token always the end-of-input marker.

use vstd::prelude::*;
use vstd::string::StrSliceExecFns;
use crate::token::{spec_keyword, Token, TokenType, TokenV};

verus! {

/// A fatal scan-time failure.
#[derive(Debug, PartialEq)]
pub enum TokenizerError {
    /// The closing `"` of a string literal is missing; scanning aborted,
    /// with the 1-based line current at the end of input.
    UnterminatedString { line: u64 },
}

/// A non-fatal scan-time warning: a character no lexical rule recognizes.
/// The character is skipped and scanning continues.
#[derive(Clone, Copy, Debug, PartialEq, Eq, Structural)]
pub struct ScanWarning {
    pub character: char,
    pub line: u64,
}

/// An ASCII decimal digit.
pub open spec fn is_digit(c: char) -> bool {
    48 <= c as u32 <= 57
}

/// An ASCII letter or underscore: what may begin an identifier.
pub open spec fn is_alpha(c: char) -> bool {
    (97 <= c as u32 <= 122) || (65 <= c as u32 <= 90) || c == '_'
}

/// What may continue an identifier: a letter, digit or underscore.
pub open spec fn is_ident_char(c: char) -> bool {
    is_digit(c) || is_alpha(c)
}

/// The first index at or after `from` holding `c`; the length when none does.
pub open spec fn find_from(s: Seq<char>, from: int, c: char) -> int
    decreases s.len() - from,
{
    if from < 0 || from >= s.len() {
        s.len() as int
    } else if s[from] == c {
        from
    } else {
        find_from(s, from + 1, c)
    }
}

/// The first index at or after `from` not holding a digit; the length when
/// every later character is a digit.
pub open spec fn digit_end(s: Seq<char>, from: int) -> int
    decreases s.len() - from,
{
    if from < 0 || from >= s.len() {
        s.len() as int
    } else if !is_digit(s[from]) {
        from
    } else {
        digit_end(s, from + 1)
    }
}

/// The first index at or after `from` not holding an identifier character.
pub open spec fn ident_end(s: Seq<char>, from: int) -> int
    decreases s.len() - from,
{
    if from < 0 || from >= s.len() {
        s.len() as int
    } else if !is_ident_char(s[from]) {
        from
    } else {
        ident_end(s, from + 1)
    }
}

/// The first index at or after `from` where a block comment terminator `*/`
/// begins; the length when there is none.
pub open spec fn block_end(s: Seq<char>, from: int) -> int
    decreases s.len() - from,
{
    if from < 0 || from >= s.len() {
        s.len() as int
    } else if s[from] == '*' && from + 1 < s.len() && s[from + 1] == '/' {
        from
    } else {
        block_end(s, from + 1)
    }
}

/// The number of newline characters in `s[a..b)`.
pub open spec fn newlines(s: Seq<char>, a: int, b: int) -> int
    decreases b - a,
{
    if b <= a {
        0
    } else {
        newlines(s, a, b - 1) + if s[b - 1] == '\n' {
            1int
        } else {
            0int
        }
    }
}

pub proof fn lemma_find_from_bounds(s: Seq<char>, from: int, c: char)
    requires
        0 <= from <= s.len(),
    ensures
        from <= find_from(s, from, c) <= s.len(),
        find_from(s, from, c) < s.len() ==> s[find_from(s, from, c)] == c,
        forall|j: int| from <= j < find_from(s, from, c) ==> s[j] != c,
    decreases s.len() - from,
{
    if from < s.len() && s[from] != c {
        lemma_find_from_bounds(s, from + 1, c);
    }
}

pub proof fn lemma_digit_end_bounds(s: Seq<char>, from: int)
    requires
        0 <= from <= s.len(),
    ensures
        from <= digit_end(s, from) <= s.len(),
        digit_end(s, from) < s.len() ==> !is_digit(s[digit_end(s, from)]),
        forall|j: int| from <= j < digit_end(s, from) ==> is_digit(s[j]),
    decreases s.len() - from,
{
    if from < s.len() && is_digit(s[from]) {
        lemma_digit_end_bounds(s, from + 1);
    }
}

pub proof fn lemma_ident_end_bounds(s: Seq<char>, from: int)
    requires
        0 <= from <= s.len(),
    ensures
        from <= ident_end(s, from) <= s.len(),
        ident_end(s, from) < s.len() ==> !is_ident_char(s[ident_end(s, from)]),
        forall|j: int| from <= j < ident_end(s, from) ==> is_ident_char(s[j]),
    decreases s.len() - from,
{
    if from < s.len() && is_ident_char(s[from]) {
        lemma_ident_end_bounds(s, from + 1);
    }
}

pub proof fn lemma_block_end_bounds(s: Seq<char>, from: int)
    requires
        0 <= from <= s.len(),
    ensures
        from <= block_end(s, from) <= s.len(),
        block_end(s, from) < s.len() ==> s[block_end(s, from)] == '*' && block_end(s, from) + 1
            < s.len() && s[block_end(s, from) + 1] == '/',
    decreases s.len() - from,
{
    if from < s.len() && !(s[from] == '*' && from + 1 < s.len() && s[from + 1] == '/') {
        lemma_block_end_bounds(s, from + 1);
    }
}

pub proof fn lemma_newlines_bounds(s: Seq<char>, a: int, b: int)
    requires
        a <= b,
    ensures
        0 <= newlines(s, a, b) <= b - a,
    decreases b - a,
{
    if a < b {
        lemma_newlines_bounds(s, a, b - 1);
    }
}

/// The outcome of a scan: the token sequence (or the line of the fatal
/// failure), together with the warnings emitted along the way.
pub struct ScanV {
    pub outcome: Result<Seq<TokenV>, u64>,
    pub warnings: Seq<ScanWarning>,
}

/// A token of the given kind, lexeme and line.
pub open spec fn tok(kind: TokenType, lexeme: Seq<char>, line: u64) -> TokenV {
    TokenV { token_type: kind, lexeme, line }
}

/// Prepends one token to a scan outcome; a failure swallows the token.
pub open spec fn scan_cons(t: TokenV, rest: ScanV) -> ScanV {
    match rest.outcome {
        Ok(ts) => ScanV { outcome: Ok(seq![t] + ts), warnings: rest.warnings },
        Err(line) => rest,
    }
}

/// Prepends one warning to a scan outcome.
pub open spec fn warn_cons(w: ScanWarning, rest: ScanV) -> ScanV {
    ScanV { outcome: rest.outcome, warnings: seq![w] + rest.warnings }
}

/// The scan of `s` from position `i` onward, `line` being the 1-based line
/// current at `i`. This is the complete lexical grammar:
///
/// - single-character punctuation and operators map directly to kinds;
/// - `!=`, `==`, `<=`, `>=` are recognized by one character of lookahead;
/// - `//` starts a line comment through (not including) the next newline;
///   `/*` starts a block comment through the matching `*/`, newlines inside
///   it counted; an unterminated block comment silently consumes the rest of
///   the input;
/// - string literals run to the closing `"`, newlines inside them counted;
///   an unterminated string literal is the one fatal failure;
/// - a numeric literal is one or more digits, optionally followed by `.` and
///   one or more digits; a `.` after the digits that is not followed by a
///   digit becomes its own token after the number token;
/// - identifier characters run together and are matched against the
///   reserved-word table;
/// - space, tab and carriage return separate tokens; a newline also advances
///   the line counter;
/// - any other character is skipped with a warning.
///
/// The token sequence always ends with the end-of-input marker.
pub open spec fn spec_scan(s: Seq<char>, i: int, line: u64) -> ScanV
    decreases s.len() - i,
    via spec_scan_decreases
{
    if i < 0 || i >= s.len() {
        ScanV {
            outcome: Ok(seq![tok(TokenType::Eof, Seq::<char>::empty(), line)]),
            warnings: Seq::<ScanWarning>::empty(),
        }
    } else {
        let c = s[i];
        if c == '(' {
            scan_cons(tok(TokenType::LeftParen, seq![c], line), spec_scan(s, i + 1, line))
        } else if c == ')' {
            scan_cons(tok(TokenType::RightParen, seq![c], line), spec_scan(s, i + 1, line))
        } else if c == '{' {
            scan_cons(tok(TokenType::LeftBrace, seq![c], line), spec_scan(s, i + 1, line))
        } else if c == '}' {
            scan_cons(tok(TokenType::RightBrace, seq![c], line), spec_scan(s, i + 1, line))
        } else if c == ',' {
            scan_cons(tok(TokenType::Comma, seq![c], line), spec_scan(s, i + 1, line))
        } else if c == '.' {
            scan_cons(tok(TokenType::Period, seq![c], line), spec_scan(s, i + 1, line))
        } else if c == '-' {
            scan_cons(tok(TokenType::Minus, seq![c], line), spec_scan(s, i + 1, line))
        } else if c == '+' {
            scan_cons(tok(TokenType::Plus, seq![c], line), spec_scan(s, i + 1, line))
        } else if c == '*' {
            scan_cons(tok(TokenType::Star, seq![c], line), spec_scan(s, i + 1, line))
        } else if c == ';' {
            scan_cons(tok(TokenType::Semicolon, seq![c], line), spec_scan(s, i + 1, line))
        } else if c == '!' {
            if i + 1 < s.len() && s[i + 1] == '=' {
                scan_cons(tok(TokenType::BangEqual, seq!['!', '='], line), spec_scan(s, i + 2, line))
            } else {
                scan_cons(tok(TokenType::Bang, seq![c], line), spec_scan(s, i + 1, line))
            }
        } else if c == '=' {
            if i + 1 < s.len() && s[i + 1] == '=' {
                scan_cons(
                    tok(TokenType::EqualEqual, seq!['=', '='], line),
                    spec_scan(s, i + 2, line),
                )
            } else {
                scan_cons(tok(TokenType::Equal, seq![c], line), spec_scan(s, i + 1, line))
            }
        } else if c == '<' {
            if i + 1 < s.len() && s[i + 1] == '=' {
                scan_cons(tok(TokenType::LessEqual, seq!['<', '='], line), spec_scan(s, i + 2, line))
            } else {
                scan_cons(tok(TokenType::Less, seq![c], line), spec_scan(s, i + 1, line))
            }
        } else if c == '>' {
            if i + 1 < s.len() && s[i + 1] == '=' {
                scan_cons(
                    tok(TokenType::GreaterEqual, seq!['>', '='], line),
                    spec_scan(s, i + 2, line),
                )
            } else {
                scan_cons(tok(TokenType::Greater, seq![c], line), spec_scan(s, i + 1, line))
            }
        } else if c == '/' {
            if i + 1 < s.len() && s[i + 1] == '/' {
                spec_scan(s, find_from(s, i + 2, '\n'), line)
            } else if i + 1 < s.len() && s[i + 1] == '*' {
                let j = block_end(s, i + 2);
                if j < s.len() {
                    spec_scan(s, j + 2, (line + newlines(s, i + 2, j)) as u64)
                } else {
                    spec_scan(s, s.len() as int, (line + newlines(s, i + 2, s.len() as int)) as u64)
                }
            } else {
                scan_cons(tok(TokenType::Slash, seq![c], line), spec_scan(s, i + 1, line))
            }
        } else if c == ' ' || c == '\r' || c == '\t' {
            spec_scan(s, i + 1, line)
        } else if c == '\n' {
            spec_scan(s, i + 1, (line + 1) as u64)
        } else if c == '"' {
            let j = find_from(s, i + 1, '"');
            let line2 = (line + newlines(s, i + 1, j)) as u64;
            if j >= s.len() {
                ScanV { outcome: Err(line2), warnings: Seq::<ScanWarning>::empty() }
            } else {
                scan_cons(
                    tok(TokenType::StringLiteral, s.subrange(i, j + 1), line2),
                    spec_scan(s, j + 1, line2),
                )
            }
        } else if is_digit(c) {
            let k = digit_end(s, i);
            if k < s.len() && s[k] == '.' {
                if k + 1 < s.len() && is_digit(s[k + 1]) {
                    let m = digit_end(s, k + 1);
                    scan_cons(tok(TokenType::Number, s.subrange(i, m), line), spec_scan(s, m, line))
                } else {
                    scan_cons(
                        tok(TokenType::Number, s.subrange(i, k), line),
                        scan_cons(tok(TokenType::Period, seq!['.'], line), spec_scan(s, k + 1, line)),
                    )
                }
            } else {
                scan_cons(tok(TokenType::Number, s.subrange(i, k), line), spec_scan(s, k, line))
            }
        } else if is_alpha(c) {
            let k = ident_end(s, i);
            let lexeme = s.subrange(i, k);
            let kind = match spec_keyword(lexeme) {
                Some(kw) => kw,
                None => TokenType::Identifier,
            };
            scan_cons(tok(kind, lexeme, line), spec_scan(s, k, line))
        } else {
            warn_cons(ScanWarning { character: c, line }, spec_scan(s, i + 1, line))
        }
    }
}

#[via_fn]
proof fn spec_scan_decreases(s: Seq<char>, i: int, line: u64) {
    if 0 <= i < s.len() {
        lemma_find_from_bounds(s, i + 1, '"');
        if i + 2 <= s.len() {
            lemma_find_from_bounds(s, i + 2, '\n');
            lemma_block_end_bounds(s, i + 2);
        }
        lemma_digit_end_bounds(s, i);
        if is_digit(s[i]) {
            let k = digit_end(s, i);
            if k + 1 <= s.len() {
                lemma_digit_end_bounds(s, k + 1);
            }
        }
        lemma_ident_end_bounds(s, i);
    }
}

/// The loop relation of the scanner: what has been emitted so far, composed
/// with the scan of the rest, is the scan of the whole.
pub open spec fn scan_rel(target: ScanV, toks: Seq<TokenV>, warns: Seq<ScanWarning>, cur: ScanV) -> bool {
    &&& (cur.outcome matches Ok(ts) ==> target.outcome == Ok::<Seq<TokenV>, u64>(toks + ts))
    &&& (cur.outcome matches Err(line) ==> target.outcome == Err::<Seq<TokenV>, u64>(line))
    &&& target.warnings == warns + cur.warnings
}

proof fn lemma_step_token(
    target: ScanV,
    toks: Seq<TokenV>,
    warns: Seq<ScanWarning>,
    t: TokenV,
    next: ScanV,
)
    requires
        scan_rel(target, toks, warns, scan_cons(t, next)),
    ensures
        scan_rel(target, toks.push(t), warns, next),
{
    match next.outcome {
        Ok(ts) => {
            assert(toks + (seq![t] + ts) =~= toks.push(t) + ts);
        },
        Err(_) => {},
    }
}

proof fn lemma_step_warning(
    target: ScanV,
    toks: Seq<TokenV>,
    warns: Seq<ScanWarning>,
    w: ScanWarning,
    next: ScanV,
)
    requires
        scan_rel(target, toks, warns, warn_cons(w, next)),
    ensures
        scan_rel(target, toks, warns.push(w), next),
{
    assert(warns + (seq![w] + next.warnings) =~= warns.push(w) + next.warnings);
}

/// An ASCII decimal digit.
pub fn digit(c: char) -> (r: bool)
    ensures
        r == is_digit(c),
{
    let u = c as u32;
    48 <= u && u <= 57
}

/// An ASCII letter or underscore.
pub fn alpha(c: char) -> (r: bool)
    ensures
        r == is_alpha(c),
{
    let u = c as u32;
    (97 <= u && u <= 122) || (65 <= u && u <= 90) || c == '_'
}

/// A letter, digit or underscore.
pub fn ident_char(c: char) -> (r: bool)
    ensures
        r == is_ident_char(c),
{
    digit(c) || alpha(c)
}

/// The token kind of a character that alone forms a token.
pub open spec fn single_kind(c: char) -> Option<TokenType> {
    if c == '(' {
        Some(TokenType::LeftParen)
    } else if c == ')' {
        Some(TokenType::RightParen)
    } else if c == '{' {
        Some(TokenType::LeftBrace)
    } else if c == '}' {
        Some(TokenType::RightBrace)
    } else if c == ',' {
        Some(TokenType::Comma)
    } else if c == '.' {
        Some(TokenType::Period)
    } else if c == '-' {
        Some(TokenType::Minus)
    } else if c == '+' {
        Some(TokenType::Plus)
    } else if c == '*' {
        Some(TokenType::Star)
    } else if c == ';' {
        Some(TokenType::Semicolon)
    } else if c == '/' {
        Some(TokenType::Slash)
    } else {
        None
    }
}

/// The one- and two-character kinds of an operator that may pair with `=`.
pub open spec fn operator_kinds(c: char) -> Option<(TokenType, TokenType)> {
    if c == '!' {
        Some((TokenType::Bang, TokenType::BangEqual))
    } else if c == '=' {
        Some((TokenType::Equal, TokenType::EqualEqual))
    } else if c == '<' {
        Some((TokenType::Less, TokenType::LessEqual))
    } else if c == '>' {
        Some((TokenType::Greater, TokenType::GreaterEqual))
    } else {
        None
    }
}

/// Converts raw source text into tokens. The struct owns the scan state: a
/// scan is a single pass, not restartable.
pub struct Scanner<'a> {
    source: &'a str,
    pos: usize,
    line: u64,
    warnings: Vec<ScanWarning>,
}

impl<'a> Scanner<'a> {
    /// The source text being scanned, as a character sequence.
    pub closed spec fn source_view(&self) -> Seq<char> {
        self.source@
    }

    /// The current scan position, as a character index.
    pub closed spec fn pos_view(&self) -> int {
        self.pos as int
    }

    /// The 1-based line current at the scan position.
    pub closed spec fn line_view(&self) -> u64 {
        self.line
    }

    /// The warnings emitted so far, in source order.
    pub closed spec fn warnings_view(&self) -> Seq<ScanWarning> {
        self.warnings@
    }

    /// A scanner that has not consumed anything yet.
    pub open spec fn fresh(&self) -> bool {
        self.pos_view() == 0 && self.line_view() == 1 && self.warnings_view()
            == Seq::<ScanWarning>::empty()
    }

    /// A fresh scanner over the given source text.
    pub fn init(source: &'a str) -> (r: Self)
        ensures
            r.source_view() == source@,
            r.fresh(),
    {
        Scanner { source, pos: 0, line: 1, warnings: Vec::new() }
    }

    /// The warnings emitted by the scan, in source order.
    pub fn warnings(&self) -> (r: &Vec<ScanWarning>)
        ensures
            r@ == self.warnings_view(),
    {
        &self.warnings
    }

    /// A token of the given kind and lexeme, tagged with the line current at
    /// the moment of emission.
    fn make_token(&self, lexeme: String, token_type: TokenType) -> (r: Token)
        ensures
            r@ == tok(token_type, lexeme@, self.line_view()),
    {
        Token { token_type, lexeme, line: self.line }
    }

    /// Emits one token whose lexeme is the next `width` characters.
    fn push_simple(&mut self, tokens: &mut Vec<Token>, token_type: TokenType, width: usize)
        requires
            1 <= width,
            old(self).source_view().len() <= usize::MAX,
            old(self).pos_view() + width <= old(self).source_view().len(),
        ensures
            final(self).source_view() == old(self).source_view(),
            final(self).line_view() == old(self).line_view(),
            final(self).warnings_view() == old(self).warnings_view(),
            final(self).pos_view() == old(self).pos_view() + width,
            final(tokens).deep_view() == old(tokens).deep_view().push(
                tok(
                    token_type,
                    old(self).source_view().subrange(
                        old(self).pos_view(),
                        old(self).pos_view() + width,
                    ),
                    old(self).line_view(),
                ),
            ),
    {
        let ghost td = tokens.deep_view();
        let lexeme = self.source.substring_char(self.pos, self.pos + width).to_owned();
        let t = self.make_token(lexeme, token_type);
        tokens.push(t);
        self.pos = self.pos + width;
        proof {
            assert(tokens.deep_view() =~= td.push(t@));
        }
    }

    /// One scan step that emits a single-character token.
    fn step_single(
        &mut self,
        tokens: &mut Vec<Token>,
        token_type: TokenType,
        Ghost(target): Ghost<ScanV>,
    )
        requires
            old(self).source_view().len() <= usize::MAX,
            old(self).pos_view() < old(self).source_view().len(),
            single_kind(old(self).source_view()[old(self).pos_view()]) == Some(token_type),
            old(self).source_view()[old(self).pos_view()] == '/' ==> !(old(self).pos_view() + 1
                < old(self).source_view().len() && (old(self).source_view()[old(self).pos_view()
                + 1] == '/' || old(self).source_view()[old(self).pos_view() + 1] == '*')),
            scan_rel(
                target,
                old(tokens).deep_view(),
                old(self).warnings_view(),
                spec_scan(old(self).source_view(), old(self).pos_view(), old(self).line_view()),
            ),
        ensures
            final(self).source_view() == old(self).source_view(),
            final(self).line_view() == old(self).line_view(),
            final(self).warnings_view() == old(self).warnings_view(),
            final(self).pos_view() == old(self).pos_view() + 1,
            scan_rel(
                target,
                final(tokens).deep_view(),
                old(self).warnings_view(),
                spec_scan(
                    old(self).source_view(),
                    old(self).pos_view() + 1,
                    old(self).line_view(),
                ),
            ),
    {
        proof {
            let src = self.source@;
            let i = self.pos as int;
            let line = self.line;
            let c = src[i];
            assert(seq![c] =~= src.subrange(i, i + 1));
            let t = tok(token_type, src.subrange(i, i + 1), line);
            let next = spec_scan(src, i + 1, line);
            if c == '(' {
                assert(spec_scan(src, i, line) == scan_cons(t, next));
            } else if c == ')' {
                assert(spec_scan(src, i, line) == scan_cons(t, next));
            } else if c == '{' {
                assert(spec_scan(src, i, line) == scan_cons(t, next));
            } else if c == '}' {
                assert(spec_scan(src, i, line) == scan_cons(t, next));
            } else if c == ',' {
                assert(spec_scan(src, i, line) == scan_cons(t, next));
            } else if c == '.' {
                assert(spec_scan(src, i, line) == scan_cons(t, next));
            } else if c == '-' {
                assert(spec_scan(src, i, line) == scan_cons(t, next));
            } else if c == '+' {
                assert(spec_scan(src, i, line) == scan_cons(t, next));
            } else if c == '*' {
                assert(spec_scan(src, i, line) == scan_cons(t, next));
            } else if c == ';' {
                assert(spec_scan(src, i, line) == scan_cons(t, next));
            } else {
                assert(c == '/');
                assert(spec_scan(src, i, line) == scan_cons(t, next));
            }
            lemma_step_token(target, tokens.deep_view(), self.warnings@, t, next);
        }
        self.push_simple(tokens, token_type, 1);
    }

    /// One scan step that emits a one- or two-character operator token, the
    /// two-character form when `=` follows.
    fn step_operator(
        &mut self,
        tokens: &mut Vec<Token>,
        single: TokenType,
        double: TokenType,
        Ghost(target): Ghost<ScanV>,
    )
        requires
            old(self).source_view().len() <= usize::MAX,
            old(self).pos_view() < old(self).source_view().len(),
            operator_kinds(old(self).source_view()[old(self).pos_view()]) == Some(
                (single, double),
            ),
            scan_rel(
                target,
                old(tokens).deep_view(),
                old(self).warnings_view(),
                spec_scan(old(self).source_view(), old(self).pos_view(), old(self).line_view()),
            ),
        ensures
            final(self).source_view() == old(self).source_view(),
            final(self).line_view() == old(self).line_view(),
            final(self).warnings_view() == old(self).warnings_view(),
            final(self).pos_view() == if old(self).pos_view() + 1 < old(self).source_view().len()
                && old(self).source_view()[old(self).pos_view() + 1] == '=' {
                old(self).pos_view() + 2
            } else {
                old(self).pos_view() + 1
            },
            scan_rel(
                target,
                final(tokens).deep_view(),
                old(self).warnings_view(),
                spec_scan(
                    old(self).source_view(),
                    final(self).pos_view(),
                    old(self).line_view(),
                ),
            ),
    {
        let n: usize = self.source.unicode_len();
        let ghost src = self.source@;
        let ghost i = self.pos as int;
        let ghost line = self.line;
        let ghost c = src[i];
        if self.pos + 1 < n && self.source.get_char(self.pos + 1) == '=' {
            proof {
                assert(seq![c, '='] =~= src.subrange(i, i + 2));
                let t = tok(double, src.subrange(i, i + 2), line);
                let next = spec_scan(src, i + 2, line);
                if c == '!' {
                    assert(spec_scan(src, i, line) == scan_cons(t, next));
                } else if c == '=' {
                    assert(spec_scan(src, i, line) == scan_cons(t, next));
                } else if c == '<' {
                    assert(spec_scan(src, i, line) == scan_cons(t, next));
                } else {
                    assert(c == '>');
                    assert(spec_scan(src, i, line) == scan_cons(t, next));
                }
                lemma_step_token(target, tokens.deep_view(), self.warnings@, t, next);
            }
            self.push_simple(tokens, double, 2);
        } else {
            proof {
                assert(seq![c] =~= src.subrange(i, i + 1));
                let t = tok(single, src.subrange(i, i + 1), line);
                let next = spec_scan(src, i + 1, line);
                if c == '!' {
                    assert(spec_scan(src, i, line) == scan_cons(t, next));
                } else if c == '=' {
                    assert(spec_scan(src, i, line) == scan_cons(t, next));
                } else if c == '<' {
                    assert(spec_scan(src, i, line) == scan_cons(t, next));
                } else {
                    assert(c == '>');
                    assert(spec_scan(src, i, line) == scan_cons(t, next));
                }
                lemma_step_token(target, tokens.deep_view(), self.warnings@, t, next);
            }
            self.push_simple(tokens, single, 1);
        }
    }

    /// Scans a string literal, the opening `"` being at the current
    /// position. Embedded newlines advance the line counter; a missing
    /// closing `"` is the fatal failure.
    fn tokenize_string_literal(&mut self) -> (r: Result<Token, TokenizerError>)
        requires
            old(self).pos_view() < old(self).source_view().len(),
            old(self).source_view()[old(self).pos_view()] == '"',
            old(self).line_view() <= 1 + old(self).pos_view(),
            old(self).source_view().len() < u64::MAX,
            old(self).source_view().len() <= usize::MAX,
        ensures
            final(self).source_view() == old(self).source_view(),
            final(self).warnings_view() == old(self).warnings_view(),
            ({
                let src = old(self).source_view();
                let i = old(self).pos_view();
                let j = find_from(src, i + 1, '"');
                let line2 = (old(self).line_view() + newlines(src, i + 1, j)) as u64;
                &&& final(self).line_view() == line2
                &&& if j >= src.len() {
                    r matches Err(e) && e == (TokenizerError::UnterminatedString { line: line2 })
                } else {
                    (r matches Ok(t) && t@ == tok(
                        TokenType::StringLiteral,
                        src.subrange(i, j + 1),
                        line2,
                    )) && final(self).pos_view() == j + 1
                }
            }),
    {
        let ghost src = self.source@;
        let ghost i = self.pos as int;
        let ghost line0 = self.line;
        let n: usize = self.source.unicode_len();
        proof {
            lemma_find_from_bounds(src, i + 1, '"');
        }
        let start = self.pos;
        self.pos = self.pos + 1;
        while self.pos < n && self.source.get_char(self.pos) != '"'
            invariant
                self.source@ == src,
                n == src.len(),
                n < u64::MAX,
                i + 1 <= self.pos <= n,
                find_from(src, i + 1, '"') == find_from(src, self.pos as int, '"'),
                self.line == line0 + newlines(src, i + 1, self.pos as int),
                line0 <= 1 + i,
                self.warnings@ == old(self).warnings_view(),
                start == i,
            decreases n - self.pos,
        {
            proof {
                lemma_newlines_bounds(src, i + 1, self.pos as int);
            }
            if self.source.get_char(self.pos) == '\n' {
                self.line = self.line + 1;
            }
            self.pos = self.pos + 1;
        }
        proof {
            assert(find_from(src, self.pos as int, '"') == if self.pos < n {
                self.pos as int
            } else {
                src.len() as int
            });
            lemma_newlines_bounds(src, i + 1, self.pos as int);
        }
        if self.pos == n {
            Err(TokenizerError::UnterminatedString { line: self.line })
        } else {
            self.pos = self.pos + 1;
            let lexeme = self.source.substring_char(start, self.pos).to_owned();
            Ok(self.make_token(lexeme, TokenType::StringLiteral))
        }
    }

    /// Scans an identifier or keyword, whose first character is at the
    /// current position.
    fn tokenize_identifier(&mut self) -> (r: Token)
        requires
            old(self).pos_view() < old(self).source_view().len(),
            is_alpha(old(self).source_view()[old(self).pos_view()]),
            old(self).source_view().len() <= usize::MAX,
        ensures
            final(self).source_view() == old(self).source_view(),
            final(self).line_view() == old(self).line_view(),
            final(self).warnings_view() == old(self).warnings_view(),
            ({
                let src = old(self).source_view();
                let i = old(self).pos_view();
                let k = ident_end(src, i);
                let lexeme = src.subrange(i, k);
                let kind = match spec_keyword(lexeme) {
                    Some(kw) => kw,
                    None => TokenType::Identifier,
                };
                final(self).pos_view() == k && r@ == tok(kind, lexeme, old(self).line_view())
            }),
    {
        let ghost src = self.source@;
        let ghost i = self.pos as int;
        let n: usize = self.source.unicode_len();
        let start = self.pos;
        self.pos = self.pos + 1;
        while self.pos < n && ident_char(self.source.get_char(self.pos))
            invariant
                self.source@ == src,
                n == src.len(),
                i + 1 <= self.pos <= n,
                ident_end(src, i) == ident_end(src, self.pos as int),
                self.line == old(self).line_view(),
                self.warnings@ == old(self).warnings_view(),
                start == i,
            decreases n - self.pos,
        {
            self.pos = self.pos + 1;
        }
        proof {
            assert(ident_end(src, self.pos as int) == self.pos as int);
        }
        let text = self.source.substring_char(start, self.pos);
        let kind = match TokenType::make_keyword(text) {
            Some(kw) => kw,
            None => TokenType::Identifier,
        };
        self.make_token(text.to_owned(), kind)
    }

    /// Scans a numeric literal, whose first digit is at the current
    /// position. A `.` after the digits is part of the number only when a
    /// digit follows it; otherwise the digits form the number token and the
    /// `.` becomes its own token, in source order.
    fn tokenize_number(&mut self, tokens: &mut Vec<Token>)
        requires
            old(self).pos_view() < old(self).source_view().len(),
            is_digit(old(self).source_view()[old(self).pos_view()]),
            old(self).source_view().len() <= usize::MAX,
        ensures
            final(self).source_view() == old(self).source_view(),
            final(self).line_view() == old(self).line_view(),
            final(self).warnings_view() == old(self).warnings_view(),
            ({
                let src = old(self).source_view();
                let i = old(self).pos_view();
                let line = old(self).line_view();
                let k = digit_end(src, i);
                if k < src.len() && src[k] == '.' {
                    if k + 1 < src.len() && is_digit(src[k + 1]) {
                        let m = digit_end(src, k + 1);
                        final(tokens).deep_view() == old(tokens).deep_view().push(
                            tok(TokenType::Number, src.subrange(i, m), line),
                        ) && final(self).pos_view() == m
                    } else {
                        final(tokens).deep_view() == old(tokens).deep_view().push(
                            tok(TokenType::Number, src.subrange(i, k), line),
                        ).push(tok(TokenType::Period, seq!['.'], line)) && final(self).pos_view()
                            == k + 1
                    }
                } else {
                    final(tokens).deep_view() == old(tokens).deep_view().push(
                        tok(TokenType::Number, src.subrange(i, k), line),
                    ) && final(self).pos_view() == k
                }
            }),
    {
        let ghost src = self.source@;
        let ghost i = self.pos as int;
        let ghost td = tokens.deep_view();
        let n: usize = self.source.unicode_len();
        let start = self.pos;
        proof {
            lemma_digit_end_bounds(src, i);
        }
        self.pos = self.pos + 1;
        while self.pos < n && digit(self.source.get_char(self.pos))
            invariant
                self.source@ == src,
                n == src.len(),
                i + 1 <= self.pos <= n,
                digit_end(src, i) == digit_end(src, self.pos as int),
                self.line == old(self).line_view(),
                self.warnings@ == old(self).warnings_view(),
                start == i,
            decreases n - self.pos,
        {
            self.pos = self.pos + 1;
        }
        proof {
            assert(digit_end(src, self.pos as int) == self.pos as int);
        }
        let k = self.pos;
        if k < n && self.source.get_char(k) == '.' {
            if k + 1 < n && digit(self.source.get_char(k + 1)) {
                // The period is part of the number; scan the fraction digits.
                self.pos = k + 2;
                while self.pos < n && digit(self.source.get_char(self.pos))
                    invariant
                        self.source@ == src,
                        n == src.len(),
                        k as int + 2 <= self.pos <= n,
                        digit_end(src, k as int + 1) == digit_end(src, self.pos as int),
                        self.line == old(self).line_view(),
                        self.warnings@ == old(self).warnings_view(),
                        start == i,
                        k == digit_end(src, i),
                        (k as int) < src.len() && src[k as int] == '.',
                        is_digit(src[k as int + 1]),
                    decreases n - self.pos,
                {
                    self.pos = self.pos + 1;
                }
                proof {
                    assert(digit_end(src, self.pos as int) == self.pos as int);
                }
                let lexeme = self.source.substring_char(start, self.pos).to_owned();
                let t = self.make_token(lexeme, TokenType::Number);
                tokens.push(t);
                proof {
                    assert(tokens.deep_view() =~= td.push(t@));
                }
            } else {
                // The period is not part of the number: the digits form the
                // number token and the period becomes its own token.
                let lexeme = self.source.substring_char(start, k).to_owned();
                let t = self.make_token(lexeme, TokenType::Number);
                tokens.push(t);
                let ghost td2 = tokens.deep_view();
                proof {
                    assert(td2 =~= td.push(t@));
                }
                let period_lexeme = self.source.substring_char(k, k + 1).to_owned();
                let p = self.make_token(period_lexeme, TokenType::Period);
                tokens.push(p);
                self.pos = k + 1;
                proof {
                    assert(seq!['.'] =~= src.subrange(k as int, k as int + 1));
                    assert(p@ == tok(TokenType::Period, seq!['.'], old(self).line_view()));
                    assert(tokens.deep_view() =~= td2.push(p@));
                }
            }
        } else {
            let lexeme = self.source.substring_char(start, k).to_owned();
            let t = self.make_token(lexeme, TokenType::Number);
            tokens.push(t);
            proof {
                assert(tokens.deep_view() =~= td.push(t@));
            }
        }
    }

    /// Scans the whole source. On success the token sequence ends with the
    /// end-of-input marker; an unterminated string literal is the one fatal
    /// failure. Warnings are collected on the scanner either way.
    #[verifier::rlimit(100)]
    pub fn scan_tokens(&mut self) -> (r: Result<Vec<Token>, TokenizerError>)
        requires
            old(self).fresh(),
            old(self).source_view().len() < u64::MAX,
        ensures
            final(self).source_view() == old(self).source_view(),
            ({
                let sv = spec_scan(old(self).source_view(), 0, 1);
                &&& match sv.outcome {
                    Ok(ts) => r matches Ok(v) && v.deep_view() == ts,
                    Err(line) => r matches Err(e) && e == (TokenizerError::UnterminatedString {
                        line,
                    }),
                }
                &&& final(self).warnings_view() == sv.warnings
            }),
    {
        let ghost src = self.source@;
        let ghost target = spec_scan(src, 0, 1);
        let n: usize = self.source.unicode_len();
        let mut tokens: Vec<Token> = Vec::new();
        proof {
            assert(tokens.deep_view() =~= Seq::<TokenV>::empty());
            match target.outcome {
                Ok(ts) => {
                    assert(Seq::<TokenV>::empty() + ts =~= ts);
                },
                Err(_) => {},
            }
            assert(Seq::<ScanWarning>::empty() + target.warnings =~= target.warnings);
            assert(scan_rel(target, tokens.deep_view(), self.warnings@, target));
        }
        while self.pos < n
            invariant
                self.source@ == src,
                src == old(self).source_view(),
                n == src.len(),
                src.len() < u64::MAX,
                0 <= self.pos <= n,
                1 <= self.line,
                self.line <= 1 + self.pos,
                target == spec_scan(src, 0, 1),
                scan_rel(
                    target,
                    tokens.deep_view(),
                    self.warnings@,
                    spec_scan(src, self.pos as int, self.line),
                ),
            decreases n - self.pos,
        {
            let ghost pos0 = self.pos as int;
            let ghost line0 = self.line;
            let ghost cur = spec_scan(src, pos0, line0);
            let ghost td = tokens.deep_view();
            let ghost wd = self.warnings@;
            let c = self.source.get_char(self.pos);
            if c == '(' {
                self.step_single(&mut tokens, TokenType::LeftParen, Ghost(target));
            } else if c == ')' {
                self.step_single(&mut tokens, TokenType::RightParen, Ghost(target));
            } else if c == '{' {
                self.step_single(&mut tokens, TokenType::LeftBrace, Ghost(target));
            } else if c == '}' {
                self.step_single(&mut tokens, TokenType::RightBrace, Ghost(target));
            } else if c == ',' {
                self.step_single(&mut tokens, TokenType::Comma, Ghost(target));
            } else if c == '.' {
                self.step_single(&mut tokens, TokenType::Period, Ghost(target));
            } else if c == '-' {
                self.step_single(&mut tokens, TokenType::Minus, Ghost(target));
            } else if c == '+' {
                self.step_single(&mut tokens, TokenType::Plus, Ghost(target));
            } else if c == '*' {
                self.step_single(&mut tokens, TokenType::Star, Ghost(target));
            } else if c == ';' {
                self.step_single(&mut tokens, TokenType::Semicolon, Ghost(target));
            } else if c == '!' {
                self.step_operator(&mut tokens, TokenType::Bang, TokenType::BangEqual, Ghost(target));
            } else if c == '=' {
                self.step_operator(
                    &mut tokens,
                    TokenType::Equal,
                    TokenType::EqualEqual,
                    Ghost(target),
                );
            } else if c == '<' {
                self.step_operator(&mut tokens, TokenType::Less, TokenType::LessEqual, Ghost(target));
            } else if c == '>' {
                self.step_operator(
                    &mut tokens,
                    TokenType::Greater,
                    TokenType::GreaterEqual,
                    Ghost(target),
                );
            } else if c == '/' {
                if self.pos + 1 < n && self.source.get_char(self.pos + 1) == '/' {
                    // A line comment: consumed through (not including) the
                    // next newline, which the main loop will count.
                    self.pos = self.pos + 2;
                    while self.pos < n && self.source.get_char(self.pos) != '\n'
                        invariant
                            self.source@ == src,
                            n == src.len(),
                            pos0 + 2 <= self.pos <= n,
                            find_from(src, pos0 + 2, '\n') == find_from(src, self.pos as int, '\n'),
                            self.line == line0,
                            self.warnings@ == wd,
                            tokens.deep_view() == td,
                        decreases n - self.pos,
                    {
                        self.pos = self.pos + 1;
                    }
                    proof {
                        assert(find_from(src, self.pos as int, '\n') == if self.pos < n {
                            self.pos as int
                        } else {
                            src.len() as int
                        });
                        lemma_find_from_bounds(src, pos0 + 2, '\n');
                        assert(cur == spec_scan(src, self.pos as int, self.line));
                    }
                } else if self.pos + 1 < n && self.source.get_char(self.pos + 1) == '*' {
                    // A block comment: consumed through the matching `*/`,
                    // newlines inside it counted; silently consumed to end
                    // of input when unterminated.
                    self.pos = self.pos + 2;
                    while self.pos < n && !(self.source.get_char(self.pos) == '*' && self.pos + 1
                        < n && self.source.get_char(self.pos + 1) == '/')
                        invariant
                            self.source@ == src,
                            n == src.len(),
                            n < u64::MAX,
                            pos0 + 2 <= self.pos <= n,
                            block_end(src, pos0 + 2) == block_end(src, self.pos as int),
                            self.line == line0 + newlines(src, pos0 + 2, self.pos as int),
                            line0 <= 1 + pos0,
                            self.warnings@ == wd,
                            tokens.deep_view() == td,
                        decreases n - self.pos,
                    {
                        proof {
                            lemma_newlines_bounds(src, pos0 + 2, self.pos as int);
                        }
                        if self.source.get_char(self.pos) == '\n' {
                            self.line = self.line + 1;
                        }
                        self.pos = self.pos + 1;
                    }
                    proof {
                        assert(block_end(src, self.pos as int) == if self.pos < n {
                            self.pos as int
                        } else {
                            src.len() as int
                        });
                        lemma_block_end_bounds(src, pos0 + 2);
                        lemma_newlines_bounds(src, pos0 + 2, self.pos as int);
                    }
                    if self.pos < n {
                        self.pos = self.pos + 2;
                        proof {
                            let j = block_end(src, pos0 + 2);
                            assert(cur == spec_scan(src, j + 2, (line0 + newlines(
                                src,
                                pos0 + 2,
                                j,
                            )) as u64));
                            assert(cur == spec_scan(src, self.pos as int, self.line));
                        }
                    } else {
                        proof {
                            assert(cur == spec_scan(src, src.len() as int, (line0 + newlines(
                                src,
                                pos0 + 2,
                                src.len() as int,
                            )) as u64));
                            assert(cur == spec_scan(src, self.pos as int, self.line));
                        }
                    }
                } else {
                    self.step_single(&mut tokens, TokenType::Slash, Ghost(target));
                }
            } else if c == ' ' || c == '\r' || c == '\t' {
                proof {
                    assert(cur == spec_scan(src, pos0 + 1, line0));
                }
                self.pos = self.pos + 1;
            } else if c == '\n' {
                proof {
                    assert(cur == spec_scan(src, pos0 + 1, (line0 + 1) as u64));
                }
                self.pos = self.pos + 1;
                self.line = self.line + 1;
            } else if c == '"' {
                match self.tokenize_string_literal() {
                    Ok(t) => {
                        proof {
                            let j = find_from(src, pos0 + 1, '"');
                            lemma_find_from_bounds(src, pos0 + 1, '"');
                            lemma_newlines_bounds(src, pos0 + 1, j);
                            assert(cur == scan_cons(t@, spec_scan(src, self.pos as int, self.line)));
                            lemma_step_token(
                                target,
                                td,
                                wd,
                                t@,
                                spec_scan(src, self.pos as int, self.line),
                            );
                        }
                        tokens.push(t);
                        proof {
                            assert(tokens.deep_view() =~= td.push(t@));
                        }
                    },
                    Err(e) => {
                        proof {
                            let j = find_from(src, pos0 + 1, '"');
                            lemma_find_from_bounds(src, pos0 + 1, '"');
                            assert(cur.outcome == Err::<Seq<TokenV>, u64>(self.line));
                            assert(wd + cur.warnings =~= wd);
                            assert(e == (TokenizerError::UnterminatedString { line: self.line }));
                        }
                        return Err(e);
                    },
                }
            } else if digit(c) {
                self.tokenize_number(&mut tokens);
                proof {
                    let k = digit_end(src, pos0);
                    lemma_digit_end_bounds(src, pos0);
                    if k < src.len() && src[k] == '.' && k + 1 < src.len() && is_digit(
                        src[k + 1],
                    ) {
                        let m = digit_end(src, k + 1);
                        lemma_digit_end_bounds(src, k + 1);
                        let t = tok(TokenType::Number, src.subrange(pos0, m), line0);
                        assert(cur == scan_cons(t, spec_scan(src, m, line0)));
                        lemma_step_token(target, td, wd, t, spec_scan(src, m, line0));
                    } else if k < src.len() && src[k] == '.' {
                        let t1 = tok(TokenType::Number, src.subrange(pos0, k), line0);
                        let t2 = tok(TokenType::Period, seq!['.'], line0);
                        assert(cur == scan_cons(t1, scan_cons(t2, spec_scan(src, k + 1, line0))));
                        lemma_step_token(
                            target,
                            td,
                            wd,
                            t1,
                            scan_cons(t2, spec_scan(src, k + 1, line0)),
                        );
                        lemma_step_token(target, td.push(t1), wd, t2, spec_scan(src, k + 1, line0));
                    } else {
                        let t = tok(TokenType::Number, src.subrange(pos0, k), line0);
                        assert(cur == scan_cons(t, spec_scan(src, k, line0)));
                        lemma_step_token(target, td, wd, t, spec_scan(src, k, line0));
                    }
                }
            } else if alpha(c) {
                let t = self.tokenize_identifier();
                proof {
                    lemma_ident_end_bounds(src, pos0);
                    assert(cur == scan_cons(t@, spec_scan(src, self.pos as int, self.line)));
                    lemma_step_token(target, td, wd, t@, spec_scan(src, self.pos as int, self.line));
                }
                tokens.push(t);
                proof {
                    assert(tokens.deep_view() =~= td.push(t@));
                }
            } else {
                let w = ScanWarning { character: c, line: self.line };
                proof {
                    assert(cur == warn_cons(w, spec_scan(src, pos0 + 1, line0)));
                    lemma_step_warning(target, td, wd, w, spec_scan(src, pos0 + 1, line0));
                }
                self.warnings.push(w);
                self.pos = self.pos + 1;
            }
        }
        let ghost td = tokens.deep_view();
        let ghost cur = spec_scan(src, self.pos as int, self.line);
        let eof = Token { token_type: TokenType::Eof, lexeme: String::new(), line: self.line };
        proof {
            assert(cur.outcome == Ok::<Seq<TokenV>, u64>(
                seq![tok(TokenType::Eof, Seq::<char>::empty(), self.line)],
            ));
            assert(target.outcome == Ok::<Seq<TokenV>, u64>(
                td + seq![tok(TokenType::Eof, Seq::<char>::empty(), self.line)],
            ));
            assert(eof@ == tok(TokenType::Eof, Seq::<char>::empty(), self.line));
        }
        tokens.push(eof);
        proof {
            assert(tokens.deep_view() =~= td + seq![
                tok(TokenType::Eof, Seq::<char>::empty(), self.line),
            ]);
            assert(self.warnings@ + cur.warnings =~= self.warnings@);
        }
        Ok(tokens)
    }
}

} // verus!
