//! Re-scanning: the shape of the lexemes the scanner emits, and the theorem
//! that scanning the space-joined lexemes of a successful scan yields the
//! same token kinds and lexemes again.

use vstd::prelude::*;
use crate::scanner::{
    block_end, digit_end, find_from, ident_end, is_alpha, is_digit, is_ident_char,
    lemma_block_end_bounds, lemma_digit_end_bounds, lemma_find_from_bounds,
    lemma_ident_end_bounds, newlines, operator_kinds, scan_cons, single_kind, spec_scan, tok,
    ScanV,
};
use crate::token::{spec_keyword, TokenType, TokenV};

verus! {

/// The shape of a numeric lexeme: one or more digits, optionally followed
/// by `.` and one or more digits.
pub open spec fn wf_number_lexeme(lex: Seq<char>) -> bool {
    &&& lex.len() >= 1
    &&& is_digit(lex[0])
    &&& {
        let d = digit_end(lex, 0);
        ||| d == lex.len()
        ||| (d < lex.len() && lex[d] == '.' && d + 1 < lex.len() && is_digit(lex[d + 1])
            && digit_end(lex, d + 1) == lex.len())
    }
}

/// The exact shape of the lexeme of each token kind, as the scanner emits
/// it: operators and punctuation are their own spelling, a string literal
/// keeps its quotes with no quote inside, keywords are their reserved word,
/// an identifier is a word that is not reserved, and the end-of-input marker
/// is empty.
pub open spec fn wf_lexeme(t: TokenV) -> bool {
    match t.token_type {
        TokenType::LeftParen => t.lexeme == seq!['('],
        TokenType::RightParen => t.lexeme == seq![')'],
        TokenType::LeftBrace => t.lexeme == seq!['{'],
        TokenType::RightBrace => t.lexeme == seq!['}'],
        TokenType::Comma => t.lexeme == seq![','],
        TokenType::Period => t.lexeme == seq!['.'],
        TokenType::Minus => t.lexeme == seq!['-'],
        TokenType::Plus => t.lexeme == seq!['+'],
        TokenType::Star => t.lexeme == seq!['*'],
        TokenType::Semicolon => t.lexeme == seq![';'],
        TokenType::Slash => t.lexeme == seq!['/'],
        TokenType::Bang => t.lexeme == seq!['!'],
        TokenType::BangEqual => t.lexeme == seq!['!', '='],
        TokenType::Equal => t.lexeme == seq!['='],
        TokenType::EqualEqual => t.lexeme == seq!['=', '='],
        TokenType::Less => t.lexeme == seq!['<'],
        TokenType::LessEqual => t.lexeme == seq!['<', '='],
        TokenType::Greater => t.lexeme == seq!['>'],
        TokenType::GreaterEqual => t.lexeme == seq!['>', '='],
        TokenType::StringLiteral => t.lexeme.len() >= 2 && t.lexeme[0] == '"' && t.lexeme[
            t.lexeme.len() - 1
        ] == '"' && (forall|m: int| 1 <= m < t.lexeme.len() - 1 ==> t.lexeme[m] != '"'),
        TokenType::Number => wf_number_lexeme(t.lexeme),
        TokenType::Identifier => t.lexeme.len() >= 1 && is_alpha(t.lexeme[0]) && (forall|m: int|
            0 <= m < t.lexeme.len() ==> is_ident_char(t.lexeme[m])) && spec_keyword(t.lexeme)
            is None,
        TokenType::True => t.lexeme == "true"@,
        TokenType::False => t.lexeme == "false"@,
        TokenType::Nil => t.lexeme == "nil"@,
        TokenType::Var => t.lexeme == "var"@,
        TokenType::Print => t.lexeme == "print"@,
        TokenType::Eof => t.lexeme == Seq::<char>::empty(),
    }
}

/// A successfully scanned token sequence: non-empty, the end-of-input
/// marker last and only last, every lexeme well formed.
pub open spec fn wf_tokens(ts: Seq<TokenV>) -> bool {
    &&& ts.len() >= 1
    &&& ts.last().token_type == TokenType::Eof
    &&& forall|j: int| 0 <= j < ts.len() - 1 ==> (#[trigger] ts[j].token_type) != TokenType::Eof
    &&& forall|j: int| 0 <= j < ts.len() ==> wf_lexeme(#[trigger] ts[j])
}

/// The first index holding `c` is `j`, when `j` holds `c` and no earlier
/// index at or after `from` does.
proof fn lemma_find_from_exact(s: Seq<char>, from: int, c: char, j: int)
    requires
        0 <= from <= j <= s.len(),
        j < s.len() ==> s[j] == c,
        j == s.len() || forall|m: int| from <= m < j ==> s[m] != c,
        j == s.len() ==> forall|m: int| from <= m < s.len() ==> s[m] != c,
    ensures
        find_from(s, from, c) == j,
    decreases j - from,
{
    if from < j {
        lemma_find_from_exact(s, from + 1, c, j);
    }
}

/// The digit run from `from` ends exactly at `j`.
proof fn lemma_digit_end_exact(s: Seq<char>, from: int, j: int)
    requires
        0 <= from <= j <= s.len(),
        forall|m: int| from <= m < j ==> is_digit(s[m]),
        j < s.len() ==> !is_digit(s[j]),
    ensures
        digit_end(s, from) == j,
    decreases j - from,
{
    if from < j {
        lemma_digit_end_exact(s, from + 1, j);
    }
}

/// The identifier-character run from `from` ends exactly at `j`.
proof fn lemma_ident_end_exact(s: Seq<char>, from: int, j: int)
    requires
        0 <= from <= j <= s.len(),
        forall|m: int| from <= m < j ==> is_ident_char(s[m]),
        j < s.len() ==> !is_ident_char(s[j]),
    ensures
        ident_end(s, from) == j,
    decreases j - from,
{
    if from < j {
        lemma_ident_end_exact(s, from + 1, j);
    }
}

/// Prepending a token with a well-formed lexeme (not the end-of-input
/// marker) onto a well-formed outcome keeps it well formed.
proof fn lemma_cons_wf(t: TokenV, rest: ScanV)
    requires
        wf_lexeme(t),
        t.token_type != TokenType::Eof,
        match rest.outcome {
            Ok(ts) => wf_tokens(ts),
            Err(_) => true,
        },
    ensures
        match scan_cons(t, rest).outcome {
            Ok(ws) => wf_tokens(ws),
            Err(_) => true,
        },
{
    match rest.outcome {
        Ok(ts) => {
            let ws = seq![t] + ts;
            assert(scan_cons(t, rest).outcome == Ok::<Seq<TokenV>, u64>(ws));
            assert(ws.len() == ts.len() + 1);
            assert(ws.last() == ts.last());
            assert forall|j: int| 0 <= j < ws.len() - 1 implies (#[trigger] ws[j]).token_type
                != TokenType::Eof by {
                if j > 0 {
                    assert(ws[j] == ts[j - 1]);
                }
            }
            assert forall|j: int| 0 <= j < ws.len() implies wf_lexeme(#[trigger] ws[j]) by {
                if j > 0 {
                    assert(ws[j] == ts[j - 1]);
                }
            }
        },
        Err(_) => {},
    }
}

/// Every token of a successful scan has a well-formed lexeme; the
/// end-of-input marker stands last and only last.
pub proof fn lemma_scan_wf(s: Seq<char>, i: int, line: u64)
    requires
        0 <= i <= s.len(),
    ensures
        match spec_scan(s, i, line).outcome {
            Ok(ts) => wf_tokens(ts),
            Err(_) => true,
        },
    decreases s.len() - i,
{
    if i >= s.len() {
        let ts = spec_scan(s, i, line).outcome.unwrap();
        assert(ts.len() == 1);
        assert(ts.last() == tok(TokenType::Eof, Seq::<char>::empty(), line));
    } else {
        let c = s[i];
        if c == '(' || c == ')' || c == '{' || c == '}' || c == ',' || c == '.' || c == '-' || c
            == '+' || c == '*' || c == ';' {
            let t = tok(single_kind(c).unwrap(), seq![c], line);
            assert(spec_scan(s, i, line) == scan_cons(t, spec_scan(s, i + 1, line)));
            assert(wf_lexeme(t));
            lemma_scan_wf(s, i + 1, line);
            lemma_cons_wf(t, spec_scan(s, i + 1, line));
        } else if c == '!' || c == '=' || c == '<' || c == '>' {
            if i + 1 < s.len() && s[i + 1] == '=' {
                let t = tok(operator_kinds(c).unwrap().1, seq![c, '='], line);
                assert(spec_scan(s, i, line) == scan_cons(t, spec_scan(s, i + 2, line)));
                assert(wf_lexeme(t));
                lemma_scan_wf(s, i + 2, line);
                lemma_cons_wf(t, spec_scan(s, i + 2, line));
            } else {
                let t = tok(operator_kinds(c).unwrap().0, seq![c], line);
                assert(spec_scan(s, i, line) == scan_cons(t, spec_scan(s, i + 1, line)));
                assert(wf_lexeme(t));
                lemma_scan_wf(s, i + 1, line);
                lemma_cons_wf(t, spec_scan(s, i + 1, line));
            }
        } else if c == '/' {
            if i + 1 < s.len() && s[i + 1] == '/' {
                lemma_find_from_bounds(s, i + 2, '\n');
                lemma_scan_wf(s, find_from(s, i + 2, '\n'), line);
            } else if i + 1 < s.len() && s[i + 1] == '*' {
                lemma_block_end_bounds(s, i + 2);
                let j = block_end(s, i + 2);
                if j < s.len() {
                    lemma_scan_wf(s, j + 2, (line + newlines(s, i + 2, j)) as u64);
                } else {
                    lemma_scan_wf(
                        s,
                        s.len() as int,
                        (line + newlines(s, i + 2, s.len() as int)) as u64,
                    );
                }
            } else {
                let t = tok(TokenType::Slash, seq![c], line);
                assert(spec_scan(s, i, line) == scan_cons(t, spec_scan(s, i + 1, line)));
                assert(wf_lexeme(t));
                lemma_scan_wf(s, i + 1, line);
                lemma_cons_wf(t, spec_scan(s, i + 1, line));
            }
        } else if c == ' ' || c == '\r' || c == '\t' {
            lemma_scan_wf(s, i + 1, line);
        } else if c == '\n' {
            lemma_scan_wf(s, i + 1, (line + 1) as u64);
        } else if c == '"' {
            lemma_find_from_bounds(s, i + 1, '"');
            let j = find_from(s, i + 1, '"');
            if j < s.len() {
                let line2 = (line + newlines(s, i + 1, j)) as u64;
                lemma_scan_wf(s, j + 1, line2);
                let lex = s.subrange(i, j + 1);
                let t = tok(TokenType::StringLiteral, lex, line2);
                assert(spec_scan(s, i, line) == scan_cons(t, spec_scan(s, j + 1, line2)));
                assert(lex.len() == j + 1 - i);
                assert(lex[0] == '"');
                assert(lex[lex.len() - 1] == s[j]);
                assert forall|m: int| 1 <= m < lex.len() - 1 implies lex[m] != '"' by {
                    assert(lex[m] == s[i + m]);
                }
                assert(wf_lexeme(t));
                lemma_cons_wf(t, spec_scan(s, j + 1, line2));
            }
        } else if is_digit(c) {
            lemma_digit_end_bounds(s, i);
            let k = digit_end(s, i);
            if k < s.len() && s[k] == '.' {
                if k + 1 < s.len() && is_digit(s[k + 1]) {
                    lemma_digit_end_bounds(s, k + 1);
                    let m = digit_end(s, k + 1);
                    lemma_scan_wf(s, m, line);
                    let lex = s.subrange(i, m);
                    let t = tok(TokenType::Number, lex, line);
                    assert(spec_scan(s, i, line) == scan_cons(t, spec_scan(s, m, line)));
                    assert(is_digit(lex[0]));
                    assert forall|q: int| 0 <= q < k - i implies is_digit(lex[q]) by {
                        assert(lex[q] == s[i + q]);
                    }
                    assert(lex[k - i] == '.');
                    assert(!is_digit(lex[k - i])) by {
                        assert(('.' as u32) == 46);
                    }
                    lemma_digit_end_exact(lex, 0, k - i);
                    assert forall|q: int| k - i + 1 <= q < lex.len() implies is_digit(
                        lex[q],
                    ) by {
                        assert(lex[q] == s[i + q]);
                    }
                    lemma_digit_end_exact(lex, k - i + 1, lex.len() as int);
                    assert(wf_number_lexeme(lex));
                    lemma_cons_wf(t, spec_scan(s, m, line));
                } else {
                    lemma_scan_wf(s, k + 1, line);
                    let lex = s.subrange(i, k);
                    let t = tok(TokenType::Number, lex, line);
                    let p = tok(TokenType::Period, seq!['.'], line);
                    let rest = spec_scan(s, k + 1, line);
                    assert(spec_scan(s, i, line) == scan_cons(t, scan_cons(p, rest)));
                    assert(is_digit(lex[0]));
                    assert forall|q: int| 0 <= q < lex.len() implies is_digit(lex[q]) by {
                        assert(lex[q] == s[i + q]);
                    }
                    lemma_digit_end_exact(lex, 0, lex.len() as int);
                    assert(wf_number_lexeme(lex));
                    lemma_cons_wf(p, rest);
                    lemma_cons_wf(t, scan_cons(p, rest));
                }
            } else {
                lemma_scan_wf(s, k, line);
                let lex = s.subrange(i, k);
                let t = tok(TokenType::Number, lex, line);
                assert(spec_scan(s, i, line) == scan_cons(t, spec_scan(s, k, line)));
                assert(is_digit(lex[0]));
                assert forall|q: int| 0 <= q < lex.len() implies is_digit(lex[q]) by {
                    assert(lex[q] == s[i + q]);
                }
                lemma_digit_end_exact(lex, 0, lex.len() as int);
                assert(wf_number_lexeme(lex));
                lemma_cons_wf(t, spec_scan(s, k, line));
            }
        } else if is_alpha(c) {
            lemma_ident_end_bounds(s, i);
            let k = ident_end(s, i);
            lemma_scan_wf(s, k, line);
            let lex = s.subrange(i, k);
            let kind = match spec_keyword(lex) {
                Some(kw) => kw,
                None => TokenType::Identifier,
            };
            let t = tok(kind, lex, line);
            assert(spec_scan(s, i, line) == scan_cons(t, spec_scan(s, k, line)));
            assert(is_alpha(lex[0]));
            assert forall|q: int| 0 <= q < lex.len() implies is_ident_char(lex[q]) by {
                assert(lex[q] == s[i + q]);
            }
            assert(wf_lexeme(t));
            lemma_cons_wf(t, spec_scan(s, k, line));
        } else {
            lemma_scan_wf(s, i + 1, line);
        }
    }
}

/// Letters, underscores and digits are none of the scanner's special
/// characters.
pub proof fn lemma_class_disjoint(c: char)
    ensures
        is_ident_char(c) ==> c != '(' && c != ')' && c != '{' && c != '}' && c != ',' && c != '.'
            && c != '-' && c != '+' && c != '*' && c != ';' && c != '!' && c != '=' && c != '<'
            && c != '>' && c != '/' && c != ' ' && c != '\r' && c != '\t' && c != '\n' && c != '"',
{
}

/// No newline among the characters.
pub open spec fn no_newline(lex: Seq<char>) -> bool {
    forall|m: int| 0 <= m < lex.len() ==> lex[m] != '\n'
}

/// A range without newline characters counts none.
proof fn lemma_no_newlines(s: Seq<char>, a: int, b: int)
    requires
        forall|m: int| a <= m < b ==> s[m] != '\n',
    ensures
        newlines(s, a, b) == 0,
    decreases b - a,
{
    if a < b {
        lemma_no_newlines(s, a, b - 1);
    }
}

/// Counting newlines in equal characters gives equal counts.
proof fn lemma_newlines_shift(s: Seq<char>, lex: Seq<char>, i: int, a: int, b: int)
    requires
        forall|m: int| a <= m < b ==> s[i + m] == lex[m],
    ensures
        newlines(s, i + a, i + b) == newlines(lex, a, b),
    decreases b - a,
{
    if a < b {
        lemma_newlines_shift(s, lex, i, a, b - 1);
        assert(s[i + (b - 1)] == lex[b - 1]);
    }
}

/// The line current after scanning one lexeme that begins at line `line`:
/// newlines occur only inside string literals.
pub open spec fn lexeme_line_after(t: TokenV, line: u64) -> u64 {
    if t.token_type == TokenType::StringLiteral {
        (line + newlines(t.lexeme, 1, t.lexeme.len() - 1)) as u64
    } else {
        line
    }
}

/// Scanning from a well-formed lexeme followed by a space (or by the end of
/// input) yields exactly that token and continues after the lexeme, at a
/// line that depends only on the newlines inside the lexeme.
/// The string-literal case of [`lemma_scan_lexeme`].
proof fn lemma_scan_string(s: Seq<char>, i: int, line: u64, t: TokenV)
    requires
        0 <= i,
        i + t.lexeme.len() <= s.len(),
        s.subrange(i, i + t.lexeme.len()) == t.lexeme,
        wf_lexeme(t),
        t.token_type == TokenType::StringLiteral,
        i + t.lexeme.len() == s.len() || s[i + t.lexeme.len()] == ' ',
    ensures
        spec_scan(s, i, line) == scan_cons(
            tok(t.token_type, t.lexeme, lexeme_line_after(t, line)),
            spec_scan(s, i + t.lexeme.len(), lexeme_line_after(t, line)),
        ),
{
    let lex = t.lexeme;
    let li = lex.len() as int;
    assert forall|m: int| i <= m < i + li implies #[trigger] s[m] == lex[m - i] by {
        assert(lex[m - i] == s.subrange(i, i + li)[m - i]);
    }
    assert(s[i] == lex[0]);
    lemma_find_from_exact(s, i + 1, '"', i + li - 1);
    assert(forall|m: int| 1 <= m < li - 1 ==> s[i + m] == lex[m]);
    lemma_newlines_shift(s, lex, i, 1, li - 1);
    let line2 = (line + newlines(s, i + 1, i + li - 1)) as u64;
    assert(lexeme_line_after(t, line) == line2);
    assert(s.subrange(i, i + li) =~= lex);
    assert(spec_scan(s, i, line) == scan_cons(
        tok(TokenType::StringLiteral, lex, line2),
        spec_scan(s, i + li, line2),
    ));
}

/// The numeric case of [`lemma_scan_lexeme`].
proof fn lemma_scan_number(s: Seq<char>, i: int, line: u64, t: TokenV)
    requires
        0 <= i,
        i + t.lexeme.len() <= s.len(),
        s.subrange(i, i + t.lexeme.len()) == t.lexeme,
        wf_lexeme(t),
        t.token_type == TokenType::Number,
        i + t.lexeme.len() == s.len() || s[i + t.lexeme.len()] == ' ',
    ensures
        spec_scan(s, i, line) == scan_cons(
            tok(t.token_type, t.lexeme, lexeme_line_after(t, line)),
            spec_scan(s, i + t.lexeme.len(), lexeme_line_after(t, line)),
        ),
{
    let lex = t.lexeme;
    let li = lex.len() as int;
    assert forall|m: int| i <= m < i + li implies #[trigger] s[m] == lex[m - i] by {
        assert(lex[m - i] == s.subrange(i, i + li)[m - i]);
    }
    lemma_digit_end_bounds(lex, 0);
    let d = digit_end(lex, 0);
    assert(is_digit(s[i]));
    lemma_class_disjoint(s[i]);
    if d == li {
        lemma_digit_end_exact(s, i, i + li);
        assert(s.subrange(i, i + li) =~= lex);
        if i + li < s.len() {
            assert(s[i + li] == ' ');
        }
        assert(spec_scan(s, i, line) == scan_cons(
            tok(TokenType::Number, lex, line),
            spec_scan(s, i + li, line),
        ));
    } else {
        assert(lex[d] == '.');
        assert(!is_digit(lex[d])) by {
            assert(('.' as u32) == 46);
        }
        lemma_digit_end_exact(s, i, i + d);
        assert(s[i + d] == '.');
        lemma_digit_end_bounds(lex, d + 1);
        assert(is_digit(s[i + d + 1]));
        lemma_digit_end_exact(s, i + d + 1, i + li);
        assert(s.subrange(i, i + li) =~= lex);
        assert(spec_scan(s, i, line) == scan_cons(
            tok(TokenType::Number, lex, line),
            spec_scan(s, i + li, line),
        ));
    }
}

#[verifier::rlimit(100)]
pub proof fn lemma_scan_lexeme(s: Seq<char>, i: int, line: u64, t: TokenV)
    requires
        0 <= i,
        i + t.lexeme.len() <= s.len(),
        s.subrange(i, i + t.lexeme.len()) == t.lexeme,
        wf_lexeme(t),
        t.token_type != TokenType::Eof,
        i + t.lexeme.len() == s.len() || s[i + t.lexeme.len()] == ' ',
    ensures
        spec_scan(s, i, line) == scan_cons(
            tok(t.token_type, t.lexeme, lexeme_line_after(t, line)),
            spec_scan(s, i + t.lexeme.len(), lexeme_line_after(t, line)),
        ),
        no_newline(t.lexeme) ==> lexeme_line_after(t, line) == line,
{
    let lex = t.lexeme;
    let li = lex.len() as int;
    assert forall|m: int| i <= m < i + li implies #[trigger] s[m] == lex[m - i] by {
        assert(lex[m - i] == s.subrange(i, i + li)[m - i]);
    }
    if no_newline(lex) {
        lemma_no_newlines(lex, 1, li - 1);
    }
    match t.token_type {
        TokenType::StringLiteral => {
            lemma_scan_string(s, i, line, t);
        },
        TokenType::Number => {
            lemma_scan_number(s, i, line, t);
        },
        TokenType::Identifier => {
            assert(is_alpha(s[i]));
            lemma_class_disjoint(s[i]);
            lemma_ident_end_exact(s, i, i + li);
            assert(s.subrange(i, i + li) =~= lex);
            assert(spec_scan(s, i, line) == scan_cons(
                tok(TokenType::Identifier, lex, line),
                spec_scan(s, i + li, line),
            ));
        },
        TokenType::True => {
            lemma_scan_keyword(s, i, line, t);
        },
        TokenType::False => {
            lemma_scan_keyword(s, i, line, t);
        },
        TokenType::Nil => {
            lemma_scan_keyword(s, i, line, t);
        },
        TokenType::Var => {
            lemma_scan_keyword(s, i, line, t);
        },
        TokenType::Print => {
            lemma_scan_keyword(s, i, line, t);
        },
        TokenType::BangEqual => {
            assert(s[i] == '!' && s[i + 1] == '=');
            assert(s.subrange(i, i + 2) =~= lex);
            assert(spec_scan(s, i, line) == scan_cons(
                tok(TokenType::BangEqual, lex, line),
                spec_scan(s, i + 2, line),
            ));
        },
        TokenType::EqualEqual => {
            assert(s[i] == '=' && s[i + 1] == '=');
            assert(s.subrange(i, i + 2) =~= lex);
            assert(spec_scan(s, i, line) == scan_cons(
                tok(TokenType::EqualEqual, lex, line),
                spec_scan(s, i + 2, line),
            ));
        },
        TokenType::LessEqual => {
            assert(s[i] == '<' && s[i + 1] == '=');
            assert(s.subrange(i, i + 2) =~= lex);
            assert(spec_scan(s, i, line) == scan_cons(
                tok(TokenType::LessEqual, lex, line),
                spec_scan(s, i + 2, line),
            ));
        },
        TokenType::GreaterEqual => {
            assert(s[i] == '>' && s[i + 1] == '=');
            assert(s.subrange(i, i + 2) =~= lex);
            assert(spec_scan(s, i, line) == scan_cons(
                tok(TokenType::GreaterEqual, lex, line),
                spec_scan(s, i + 2, line),
            ));
        },
        _ => {
            // The remaining kinds are the one-character tokens.
            assert(lex.len() == 1);
            assert(s[i] == lex[0]);
            if i + 1 < s.len() {
                assert(s[i + 1] == ' ');
            }
            assert(s.subrange(i, i + 1) =~= lex);
            assert(spec_scan(s, i, line) == scan_cons(
                tok(t.token_type, lex, line),
                spec_scan(s, i + 1, line),
            ));
        },
    }
}

/// The keyword cases of [`lemma_scan_lexeme`].
proof fn lemma_scan_keyword(s: Seq<char>, i: int, line: u64, t: TokenV)
    requires
        0 <= i,
        i + t.lexeme.len() <= s.len(),
        s.subrange(i, i + t.lexeme.len()) == t.lexeme,
        wf_lexeme(t),
        t.token_type == TokenType::True || t.token_type == TokenType::False || t.token_type
            == TokenType::Nil || t.token_type == TokenType::Var || t.token_type
            == TokenType::Print,
        i + t.lexeme.len() == s.len() || s[i + t.lexeme.len()] == ' ',
    ensures
        spec_scan(s, i, line) == scan_cons(
            tok(t.token_type, t.lexeme, line),
            spec_scan(s, i + t.lexeme.len(), line),
        ),
{
    let lex = t.lexeme;
    let li = lex.len() as int;
    assert forall|m: int| i <= m < i + li implies #[trigger] s[m] == lex[m - i] by {
        assert(lex[m - i] == s.subrange(i, i + li)[m - i]);
    }
    reveal_strlit("true");
    reveal_strlit("false");
    reveal_strlit("nil");
    reveal_strlit("var");
    reveal_strlit("print");
    assert(forall|m: int| 0 <= m < li ==> is_ident_char(lex[m]));
    assert(is_alpha(lex[0]));
    lemma_class_disjoint(s[i]);
    lemma_ident_end_exact(s, i, i + li);
    assert(s.subrange(i, i + li) =~= lex);
    assert(spec_keyword(lex) == Some(t.token_type));
    assert(spec_scan(s, i, line) == scan_cons(
        tok(t.token_type, lex, line),
        spec_scan(s, i + li, line),
    ));
}

/// The lexemes of the tokens, each followed by one space.
pub open spec fn joined_from(ts: Seq<TokenV>) -> Seq<char>
    decreases ts.len(),
{
    if ts.len() == 0 {
        Seq::<char>::empty()
    } else {
        ts[0].lexeme + seq![' '] + joined_from(ts.skip(1))
    }
}

/// Scanning text that is a space-joined sequence of well-formed lexemes
/// yields exactly those tokens (kinds and lexemes), followed by the
/// end-of-input marker.
pub proof fn lemma_scan_joined(ts: Seq<TokenV>, s: Seq<char>, i: int, line: u64)
    requires
        0 <= i <= s.len(),
        s.subrange(i, s.len() as int) == joined_from(ts),
        forall|j: int| 0 <= j < ts.len() ==> wf_lexeme(#[trigger] ts[j]),
        forall|j: int| 0 <= j < ts.len() ==> (#[trigger] ts[j].token_type) != TokenType::Eof,
    ensures
        match spec_scan(s, i, line).outcome {
            Ok(rs) => rs.len() == ts.len() + 1 && (forall|j: int|
                0 <= j < ts.len() ==> (#[trigger] rs[j]).token_type == ts[j].token_type
                    && rs[j].lexeme == ts[j].lexeme) && rs.last().token_type == TokenType::Eof
                && rs.last().lexeme == Seq::<char>::empty() && ((forall|j: int|
                0 <= j < ts.len() ==> no_newline(#[trigger] ts[j].lexeme)) ==> (forall|j: int|
                0 <= j < rs.len() ==> (#[trigger] rs[j]).line == line)),
            Err(_) => false,
        },
    decreases ts.len(),
{
    if ts.len() == 0 {
        assert(s.len() - i == joined_from(ts).len());
        assert(i == s.len());
        let rs = spec_scan(s, i, line).outcome.unwrap();
        assert(rs == seq![tok(TokenType::Eof, Seq::<char>::empty(), line)]);
        assert(rs[0].line == line);
    } else {
        let t = ts[0];
        let li = t.lexeme.len() as int;
        let suffix = s.subrange(i, s.len() as int);
        assert(suffix == t.lexeme + seq![' '] + joined_from(ts.skip(1)));
        assert(s.len() - i == li + 1 + joined_from(ts.skip(1)).len());
        assert(s.subrange(i, i + li) =~= t.lexeme) by {
            assert(forall|m: int| 0 <= m < li ==> s[i + m] == suffix[m]);
        }
        assert(s[i + li] == suffix[li]);
        assert(suffix[li] == ' ');
        lemma_scan_lexeme(s, i, line, t);
        let line2 = lexeme_line_after(t, line);
        assert(spec_scan(s, i + li, line2) == spec_scan(s, i + li + 1, line2));
        assert(s.subrange(i + li + 1, s.len() as int) =~= joined_from(ts.skip(1))) by {
            assert(forall|m: int|
                0 <= m < s.len() - i - li - 1 ==> #[trigger] s.subrange(
                    i + li + 1,
                    s.len() as int,
                )[m] == suffix[li + 1 + m]);
        }
        lemma_scan_joined(ts.skip(1), s, i + li + 1, line2);
        match spec_scan(s, i + li + 1, line2).outcome {
            Ok(rs0) => {
                let rs = seq![tok(t.token_type, t.lexeme, line2)] + rs0;
                assert(spec_scan(s, i, line).outcome == Ok::<Seq<TokenV>, u64>(rs));
                assert(rs.last() == rs0.last());
                assert forall|j: int| 0 <= j < ts.len() implies (#[trigger] rs[j]).token_type
                    == ts[j].token_type && rs[j].lexeme == ts[j].lexeme by {
                    if j > 0 {
                        assert(rs[j] == rs0[j - 1]);
                        assert(ts.skip(1)[j - 1] == ts[j]);
                    }
                }
                if forall|j: int| 0 <= j < ts.len() ==> no_newline(#[trigger] ts[j].lexeme) {
                    assert(no_newline(ts[0].lexeme));
                    assert(line2 == line);
                    assert forall|j: int|
                        0 <= j < ts.skip(1).len() implies no_newline(
                        #[trigger] ts.skip(1)[j].lexeme,
                    ) by {
                        assert(ts.skip(1)[j] == ts[j + 1]);
                    }
                    assert forall|j: int| 0 <= j < rs.len() implies (#[trigger] rs[j]).line
                        == line by {
                        if j == 0 {
                            assert(rs[0] == tok(t.token_type, t.lexeme, line2));
                        } else {
                            assert(rs[j] == rs0[j - 1]);
                        }
                    }
                }
            },
            Err(_) => {
                assert(false);
            },
        }
    }
}

/// Scanning is idempotent on token kinds and lexemes: re-scanning the
/// space-joined lexemes of any successful scan yields a token sequence with
/// the same kinds and the same lexemes, position by position (line numbers
/// may differ).
pub proof fn lemma_rescan_consistent(src: Seq<char>)
    requires
        spec_scan(src, 0, 1).outcome is Ok,
    ensures
        ({
            let ts = spec_scan(src, 0, 1).outcome.unwrap();
            let joined = joined_from(ts.drop_last());
            match spec_scan(joined, 0, 1).outcome {
                Ok(rs) => rs.len() == ts.len() && (forall|j: int|
                    0 <= j < ts.len() ==> (#[trigger] rs[j]).token_type == ts[j].token_type
                        && rs[j].lexeme == ts[j].lexeme),
                Err(_) => false,
            }
        }),
{
    lemma_scan_wf(src, 0, 1);
    let ts = spec_scan(src, 0, 1).outcome.unwrap();
    let leading = ts.drop_last();
    assert(forall|j: int| 0 <= j < leading.len() ==> #[trigger] leading[j] == ts[j]);
    let joined = joined_from(leading);
    assert(joined.subrange(0, joined.len() as int) =~= joined);
    lemma_scan_joined(leading, joined, 0, 1);
    match spec_scan(joined, 0, 1).outcome {
        Ok(rs) => {
            assert(rs.len() == ts.len());
            assert forall|j: int| 0 <= j < ts.len() implies (#[trigger] rs[j]).token_type
                == ts[j].token_type && rs[j].lexeme == ts[j].lexeme by {
                if j < ts.len() - 1 {
                    assert(leading[j] == ts[j]);
                } else {
                    assert(rs[j] == rs.last());
                    assert(ts[j] == ts.last());
                    assert(ts.last().lexeme =~= Seq::<char>::empty());
                    assert(rs.last().token_type == TokenType::Eof);
                }
            }
        },
        Err(_) => {
            assert(false);
        },
    }
}

} // verus!
