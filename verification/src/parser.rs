//! The parser: recursive descent over the token sequence, producing the
//! statement sequence or failing fast on the first syntax error.
//!
//! Because number tokens carry only their lexeme, the parser is handed the
//! numeric value of each number token (in token order) alongside the tokens;
//! the driver computes those values from the lexemes that
//! [`number_lexemes`] lists.

use vstd::prelude::*;
use vstd::string::StrSliceExecFns;
use crate::expression::{Expr, ExprV, LiteralValue, ValueV};
use crate::statement::{Statement, StmtV};
use crate::token::{Token, TokenType, TokenV};

verus! {

/// A fatal parse-time failure: the whole parse is aborted.
#[derive(Debug, PartialEq)]
pub enum SyntaxError {
    /// A statement is not terminated by `;`; the line is the offending
    /// token's.
    MissingSemicolon { line: u64 },
    /// A parenthesized expression is not closed; the line is the offending
    /// token's.
    MissingClosingParen { line: u64 },
    /// `var` is not followed by an identifier; the line is the offending
    /// token's.
    ExpectedVariableName { line: u64 },
    /// A token no rule of the grammar recognizes where a primary expression
    /// was required.
    UnexpectedToken { token: Token },
    /// The token sequence ran out where a token was required.
    UnexpectedEnd,
}

/// The mathematical image of a [`SyntaxError`].
pub enum SyntaxErrorV {
    MissingSemicolon(u64),
    MissingClosingParen(u64),
    ExpectedVariableName(u64),
    UnexpectedToken(TokenV),
    UnexpectedEnd,
}

impl View for SyntaxError {
    type V = SyntaxErrorV;

    open spec fn view(&self) -> SyntaxErrorV {
        match self {
            SyntaxError::MissingSemicolon { line } => SyntaxErrorV::MissingSemicolon(*line),
            SyntaxError::MissingClosingParen { line } => SyntaxErrorV::MissingClosingParen(*line),
            SyntaxError::ExpectedVariableName { line } => SyntaxErrorV::ExpectedVariableName(
                *line,
            ),
            SyntaxError::UnexpectedToken { token } => SyntaxErrorV::UnexpectedToken(token@),
            SyntaxError::UnexpectedEnd => SyntaxErrorV::UnexpectedEnd,
        }
    }
}

/// The kind of the token at `i`, when there is one.
pub open spec fn peek_kind(toks: Seq<TokenV>, i: int) -> Option<TokenType> {
    if 0 <= i < toks.len() {
        Some(toks[i].token_type)
    } else {
        None
    }
}

/// How many number tokens stand before position `i`.
pub open spec fn num_count(toks: Seq<TokenV>, i: int) -> int
    decreases i,
{
    if i <= 0 {
        0
    } else {
        num_count(toks, i - 1) + if 0 <= i - 1 < toks.len() && toks[i - 1].token_type
            == TokenType::Number {
            1int
        } else {
            0int
        }
    }
}

pub proof fn lemma_num_count_le(toks: Seq<TokenV>, i: int)
    requires
        0 <= i,
    ensures
        0 <= num_count(toks, i) <= i,
    decreases i,
{
    if i > 0 {
        lemma_num_count_le(toks, i - 1);
    }
}

pub proof fn lemma_num_count_mono(toks: Seq<TokenV>, a: int, b: int)
    requires
        0 <= a <= b,
    ensures
        num_count(toks, a) <= num_count(toks, b),
    decreases b - a,
{
    if a < b {
        lemma_num_count_mono(toks, a, b - 1);
    }
}

/// The string contents of a string literal's lexeme: the exact source
/// substring with its delimiting quotes removed.
pub open spec fn string_content(lexeme: Seq<char>) -> Seq<char> {
    if lexeme.len() >= 2 {
        lexeme.subrange(1, lexeme.len() - 1)
    } else {
        Seq::<char>::empty()
    }
}

/// The parse of one primary expression at `i`:
/// `NUMBER | STRING | "true" | "false" | "nil" | IDENTIFIER | "(" expression ")"`.
pub open spec fn spec_primary(toks: Seq<TokenV>, vals: Seq<u64>, i: int) -> Result<
    (ExprV, int),
    SyntaxErrorV,
>
    decreases toks.len() - i, 0int,
{
    if i < 0 || i >= toks.len() {
        Err(SyntaxErrorV::UnexpectedEnd)
    } else {
        let t = toks[i];
        match t.token_type {
            TokenType::False => Ok((ExprV::Literal(ValueV::Boolean(false)), i + 1)),
            TokenType::True => Ok((ExprV::Literal(ValueV::Boolean(true)), i + 1)),
            TokenType::Nil => Ok((ExprV::Literal(ValueV::Nil), i + 1)),
            TokenType::Number => Ok(
                (ExprV::Literal(ValueV::Number(vals[num_count(toks, i)])), i + 1),
            ),
            TokenType::StringLiteral => Ok(
                (ExprV::Literal(ValueV::String(string_content(t.lexeme))), i + 1),
            ),
            TokenType::Identifier => Ok((ExprV::Variable(t), i + 1)),
            TokenType::LeftParen => match spec_expression(toks, vals, i + 1) {
                Ok((e, j)) => if peek_kind(toks, j) == Some(TokenType::RightParen) {
                    Ok((ExprV::Grouping(Box::new(e)), j + 1))
                } else if 0 <= j < toks.len() {
                    Err(SyntaxErrorV::MissingClosingParen(toks[j].line))
                } else {
                    Err(SyntaxErrorV::UnexpectedEnd)
                },
                Err(e) => Err(e),
            },
            _ => Err(SyntaxErrorV::UnexpectedToken(t)),
        }
    }
}

/// The parse of a unary expression: `("!" | "-") unary | primary`. Prefix
/// operators nest by right recursion.
pub open spec fn spec_unary(toks: Seq<TokenV>, vals: Seq<u64>, i: int) -> Result<
    (ExprV, int),
    SyntaxErrorV,
>
    decreases toks.len() - i, 1int,
{
    if peek_kind(toks, i) == Some(TokenType::Bang) || peek_kind(toks, i) == Some(
        TokenType::Minus,
    ) {
        match spec_unary(toks, vals, i + 1) {
            Ok((e, j)) => Ok((ExprV::Unary(toks[i], Box::new(e)), j)),
            Err(er) => Err(er),
        }
    } else {
        spec_primary(toks, vals, i)
    }
}

/// Folds further `*` and `/` operands onto `acc`, left-associatively.
pub open spec fn spec_factor_rest(toks: Seq<TokenV>, vals: Seq<u64>, acc: ExprV, i: int) -> Result<
    (ExprV, int),
    SyntaxErrorV,
>
    decreases toks.len() - i, 2int,
{
    if peek_kind(toks, i) == Some(TokenType::Star) || peek_kind(toks, i) == Some(
        TokenType::Slash,
    ) {
        match spec_unary(toks, vals, i + 1) {
            Ok((r, j)) => if i < j && j <= toks.len() {
                spec_factor_rest(
                    toks,
                    vals,
                    ExprV::Binary(Box::new(acc), toks[i], Box::new(r)),
                    j,
                )
            } else {
                Err(SyntaxErrorV::UnexpectedEnd)
            },
            Err(er) => Err(er),
        }
    } else {
        Ok((acc, i))
    }
}

/// The parse of a factor: `unary (("*" | "/") unary)*`.
pub open spec fn spec_factor(toks: Seq<TokenV>, vals: Seq<u64>, i: int) -> Result<
    (ExprV, int),
    SyntaxErrorV,
>
    decreases toks.len() - i, 3int,
{
    match spec_unary(toks, vals, i) {
        Ok((e, j)) => if i <= j && j <= toks.len() {
            spec_factor_rest(toks, vals, e, j)
        } else {
            Err(SyntaxErrorV::UnexpectedEnd)
        },
        Err(er) => Err(er),
    }
}

/// Folds further `+` and `-` operands onto `acc`, left-associatively.
pub open spec fn spec_term_rest(toks: Seq<TokenV>, vals: Seq<u64>, acc: ExprV, i: int) -> Result<
    (ExprV, int),
    SyntaxErrorV,
>
    decreases toks.len() - i, 4int,
{
    if peek_kind(toks, i) == Some(TokenType::Plus) || peek_kind(toks, i) == Some(
        TokenType::Minus,
    ) {
        match spec_factor(toks, vals, i + 1) {
            Ok((r, j)) => if i < j && j <= toks.len() {
                spec_term_rest(toks, vals, ExprV::Binary(Box::new(acc), toks[i], Box::new(r)), j)
            } else {
                Err(SyntaxErrorV::UnexpectedEnd)
            },
            Err(er) => Err(er),
        }
    } else {
        Ok((acc, i))
    }
}

/// The parse of a term: `factor (("+" | "-") factor)*`.
pub open spec fn spec_term(toks: Seq<TokenV>, vals: Seq<u64>, i: int) -> Result<
    (ExprV, int),
    SyntaxErrorV,
>
    decreases toks.len() - i, 5int,
{
    match spec_factor(toks, vals, i) {
        Ok((e, j)) => if i <= j && j <= toks.len() {
            spec_term_rest(toks, vals, e, j)
        } else {
            Err(SyntaxErrorV::UnexpectedEnd)
        },
        Err(er) => Err(er),
    }
}

/// Whether the kind is one of the four comparison operators.
pub open spec fn is_comparison_op(k: Option<TokenType>) -> bool {
    k == Some(TokenType::Greater) || k == Some(TokenType::GreaterEqual) || k == Some(
        TokenType::Less,
    ) || k == Some(TokenType::LessEqual)
}

/// Folds further comparison operands onto `acc`, left-associatively.
pub open spec fn spec_comparison_rest(
    toks: Seq<TokenV>,
    vals: Seq<u64>,
    acc: ExprV,
    i: int,
) -> Result<(ExprV, int), SyntaxErrorV>
    decreases toks.len() - i, 6int,
{
    if is_comparison_op(peek_kind(toks, i)) {
        match spec_term(toks, vals, i + 1) {
            Ok((r, j)) => if i < j && j <= toks.len() {
                spec_comparison_rest(
                    toks,
                    vals,
                    ExprV::Binary(Box::new(acc), toks[i], Box::new(r)),
                    j,
                )
            } else {
                Err(SyntaxErrorV::UnexpectedEnd)
            },
            Err(er) => Err(er),
        }
    } else {
        Ok((acc, i))
    }
}

/// The parse of a comparison: `term ((">" | ">=" | "<" | "<=") term)*`.
pub open spec fn spec_comparison(toks: Seq<TokenV>, vals: Seq<u64>, i: int) -> Result<
    (ExprV, int),
    SyntaxErrorV,
>
    decreases toks.len() - i, 7int,
{
    match spec_term(toks, vals, i) {
        Ok((e, j)) => if i <= j && j <= toks.len() {
            spec_comparison_rest(toks, vals, e, j)
        } else {
            Err(SyntaxErrorV::UnexpectedEnd)
        },
        Err(er) => Err(er),
    }
}

/// Folds further `==` and `!=` operands onto `acc`, left-associatively.
pub open spec fn spec_equality_rest(
    toks: Seq<TokenV>,
    vals: Seq<u64>,
    acc: ExprV,
    i: int,
) -> Result<(ExprV, int), SyntaxErrorV>
    decreases toks.len() - i, 8int,
{
    if peek_kind(toks, i) == Some(TokenType::EqualEqual) || peek_kind(toks, i) == Some(
        TokenType::BangEqual,
    ) {
        match spec_comparison(toks, vals, i + 1) {
            Ok((r, j)) => if i < j && j <= toks.len() {
                spec_equality_rest(
                    toks,
                    vals,
                    ExprV::Binary(Box::new(acc), toks[i], Box::new(r)),
                    j,
                )
            } else {
                Err(SyntaxErrorV::UnexpectedEnd)
            },
            Err(er) => Err(er),
        }
    } else {
        Ok((acc, i))
    }
}

/// The parse of an equality: `comparison (("==" | "!=") comparison)*`.
pub open spec fn spec_equality(toks: Seq<TokenV>, vals: Seq<u64>, i: int) -> Result<
    (ExprV, int),
    SyntaxErrorV,
>
    decreases toks.len() - i, 9int,
{
    match spec_comparison(toks, vals, i) {
        Ok((e, j)) => if i <= j && j <= toks.len() {
            spec_equality_rest(toks, vals, e, j)
        } else {
            Err(SyntaxErrorV::UnexpectedEnd)
        },
        Err(er) => Err(er),
    }
}

/// The parse of an expression: the lowest-precedence rule, equality.
pub open spec fn spec_expression(toks: Seq<TokenV>, vals: Seq<u64>, i: int) -> Result<
    (ExprV, int),
    SyntaxErrorV,
>
    decreases toks.len() - i, 10int,
{
    spec_equality(toks, vals, i)
}

/// The parse of a statement: `"print" expression ";" | expression ";"`.
pub open spec fn spec_statement(toks: Seq<TokenV>, vals: Seq<u64>, i: int) -> Result<
    (StmtV, int),
    SyntaxErrorV,
>
    decreases toks.len() - i, 11int,
{
    if i < 0 || i >= toks.len() {
        Err(SyntaxErrorV::UnexpectedEnd)
    } else if toks[i].token_type == TokenType::Print {
        match spec_expression(toks, vals, i + 1) {
            Ok((e, j)) => if peek_kind(toks, j) == Some(TokenType::Semicolon) {
                Ok((StmtV::Print(e), j + 1))
            } else if 0 <= j < toks.len() {
                Err(SyntaxErrorV::MissingSemicolon(toks[j].line))
            } else {
                Err(SyntaxErrorV::UnexpectedEnd)
            },
            Err(er) => Err(er),
        }
    } else {
        match spec_expression(toks, vals, i) {
            Ok((e, j)) => if peek_kind(toks, j) == Some(TokenType::Semicolon) {
                Ok((StmtV::Expression(e), j + 1))
            } else if 0 <= j < toks.len() {
                Err(SyntaxErrorV::MissingSemicolon(toks[j].line))
            } else {
                Err(SyntaxErrorV::UnexpectedEnd)
            },
            Err(er) => Err(er),
        }
    }
}

/// The parse of a `var` declaration's remainder, the `var` keyword already
/// consumed: `IDENT ("=" expression)? ";"`.
pub open spec fn spec_var_declaration(toks: Seq<TokenV>, vals: Seq<u64>, i: int) -> Result<
    (StmtV, int),
    SyntaxErrorV,
>
    decreases toks.len() - i, 11int,
{
    if i < 0 || i >= toks.len() {
        Err(SyntaxErrorV::UnexpectedEnd)
    } else if toks[i].token_type != TokenType::Identifier {
        Err(SyntaxErrorV::ExpectedVariableName(toks[i].line))
    } else if i + 1 >= toks.len() {
        Err(SyntaxErrorV::UnexpectedEnd)
    } else if toks[i + 1].token_type == TokenType::Equal {
        match spec_expression(toks, vals, i + 2) {
            Ok((e, j)) => if peek_kind(toks, j) == Some(TokenType::Semicolon) {
                Ok((StmtV::Var(toks[i], Some(e)), j + 1))
            } else if 0 <= j < toks.len() {
                Err(SyntaxErrorV::MissingSemicolon(toks[j].line))
            } else {
                Err(SyntaxErrorV::UnexpectedEnd)
            },
            Err(er) => Err(er),
        }
    } else if toks[i + 1].token_type == TokenType::Semicolon {
        Ok((StmtV::Var(toks[i], None), i + 2))
    } else {
        Err(SyntaxErrorV::MissingSemicolon(toks[i + 1].line))
    }
}

/// The parse of a declaration: `"var" IDENT ("=" expression)? ";" | statement`.
pub open spec fn spec_declaration(toks: Seq<TokenV>, vals: Seq<u64>, i: int) -> Result<
    (StmtV, int),
    SyntaxErrorV,
>
    decreases toks.len() - i, 12int,
{
    if i < 0 || i >= toks.len() {
        Err(SyntaxErrorV::UnexpectedEnd)
    } else if toks[i].token_type == TokenType::Var {
        spec_var_declaration(toks, vals, i + 1)
    } else {
        spec_statement(toks, vals, i)
    }
}

/// Whether the parse position is at the end: past the last token or at the
/// end-of-input marker.
pub open spec fn spec_at_end(toks: Seq<TokenV>, i: int) -> bool {
    i >= toks.len() || (0 <= i && toks[i].token_type == TokenType::Eof)
}

/// The parse of a whole program: `declaration* EOF`.
pub open spec fn spec_program(toks: Seq<TokenV>, vals: Seq<u64>, i: int) -> Result<
    Seq<StmtV>,
    SyntaxErrorV,
>
    decreases toks.len() - i, 13int,
{
    if spec_at_end(toks, i) {
        Ok(Seq::<StmtV>::empty())
    } else {
        match spec_declaration(toks, vals, i) {
            Ok((s, j)) => if i < j && j <= toks.len() {
                match spec_program(toks, vals, j) {
                    Ok(rest) => Ok(seq![s] + rest),
                    Err(er) => Err(er),
                }
            } else {
                Err(SyntaxErrorV::UnexpectedEnd)
            },
            Err(er) => Err(er),
        }
    }
}

/// The lexemes of the number tokens among the first `i` tokens, in order.
pub open spec fn spec_number_lexemes(toks: Seq<TokenV>, i: int) -> Seq<Seq<char>>
    decreases i,
{
    if i <= 0 {
        Seq::<Seq<char>>::empty()
    } else {
        spec_number_lexemes(toks, i - 1) + if 0 <= i - 1 < toks.len() && toks[i - 1].token_type
            == TokenType::Number {
            seq![toks[i - 1].lexeme]
        } else {
            Seq::<Seq<char>>::empty()
        }
    }
}

/// The lexemes of the number tokens, in token order: what the driver turns
/// into the number values that [`Parser::init`] takes.
pub fn number_lexemes(tokens: &[Token]) -> (r: Vec<String>)
    ensures
        r.deep_view() == spec_number_lexemes(tokens.deep_view(), tokens.deep_view().len() as int),
        r@.len() == num_count(tokens.deep_view(), tokens.deep_view().len() as int),
{
    let ghost toks = tokens.deep_view();
    let mut r: Vec<String> = Vec::new();
    let n: usize = tokens.len();
    let mut i: usize = 0;
    proof {
        assert(r.deep_view() =~= spec_number_lexemes(toks, 0));
    }
    while i < n
        invariant
            n == toks.len(),
            toks == tokens.deep_view(),
            0 <= i <= n,
            r.deep_view() == spec_number_lexemes(toks, i as int),
            r@.len() == num_count(toks, i as int),
        decreases n - i,
    {
        let ghost rd = r.deep_view();
        if tokens[i].token_type == TokenType::Number {
            r.push(tokens[i].lexeme.clone());
            proof {
                assert(r.deep_view() =~= rd.push(toks[i as int].lexeme));
                assert(spec_number_lexemes(toks, i as int + 1) =~= rd.push(
                    toks[i as int].lexeme,
                ));
            }
        } else {
            proof {
                assert(spec_number_lexemes(toks, i as int + 1) =~= rd);
            }
        }
        i = i + 1;
    }
    r
}

/// The string contents of a string literal's lexeme, executably.
fn string_content_exec(s: &str) -> (r: String)
    ensures
        r@ == string_content(s@),
{
    let n: usize = s.unicode_len();
    if n >= 2 {
        s.substring_char(1, n - 1).to_owned()
    } else {
        String::new()
    }
}

/// Recursive-descent parse state over a borrowed token sequence and the
/// number values paired with its number tokens.
pub struct Parser<'a> {
    tokens: &'a [Token],
    number_values: &'a [u64],
    current: usize,
    num_seen: usize,
}

impl<'a> Parser<'a> {
    /// The tokens being parsed.
    pub closed spec fn toks(&self) -> Seq<TokenV> {
        self.tokens.deep_view()
    }

    /// The number values paired with the number tokens, in token order.
    pub closed spec fn vals(&self) -> Seq<u64> {
        self.number_values@
    }

    /// The current parse position.
    pub closed spec fn cur(&self) -> int {
        self.current as int
    }

    /// The parse state is consistent: the position is in range, the count of
    /// number tokens already passed is tracked, and every number token has a
    /// value.
    pub closed spec fn wf(&self) -> bool {
        &&& 0 <= self.cur() <= self.toks().len()
        &&& self.num_seen == num_count(self.toks(), self.cur())
        &&& num_count(self.toks(), self.toks().len() as int) <= self.vals().len()
    }

    /// A parser at the start of the token sequence. `number_values` holds
    /// the numeric value of each number token, in token order.
    pub fn init(tokens: &'a [Token], number_values: &'a [u64]) -> (r: Self)
        requires
            num_count(tokens.deep_view(), tokens.deep_view().len() as int)
                <= number_values@.len(),
        ensures
            r.wf(),
            r.toks() == tokens.deep_view(),
            r.vals() == number_values@,
            r.cur() == 0,
    {
        Parser { tokens, number_values, current: 0, num_seen: 0 }
    }

    /// Whether the parse position is at the end of input.
    fn at_end(&self) -> (r: bool)
        requires
            self.wf(),
        ensures
            r == spec_at_end(self.toks(), self.cur()),
    {
        if self.current >= self.tokens.len() {
            true
        } else {
            self.tokens[self.current].token_type == TokenType::Eof
        }
    }

    /// Whether the next token has the given kind.
    fn peek_is(&self, kind: TokenType) -> (r: bool)
        requires
            self.wf(),
        ensures
            r == (peek_kind(self.toks(), self.cur()) == Some(kind)),
    {
        self.current < self.tokens.len() && self.tokens[self.current].token_type == kind
    }

    /// Consumes one token.
    fn advance(&mut self)
        requires
            old(self).wf(),
            old(self).cur() < old(self).toks().len(),
        ensures
            final(self).wf(),
            final(self).toks() == old(self).toks(),
            final(self).vals() == old(self).vals(),
            final(self).cur() == old(self).cur() + 1,
    {
        proof {
            lemma_num_count_le(self.toks(), self.cur());
        }
        if self.tokens[self.current].token_type == TokenType::Number {
            self.num_seen = self.num_seen + 1;
        }
        self.current = self.current + 1;
    }

    /// Parses one primary expression.
    fn primary(&mut self) -> (r: Result<Expr, SyntaxError>)
        requires
            old(self).wf(),
        ensures
            final(self).wf(),
            final(self).toks() == old(self).toks(),
            final(self).vals() == old(self).vals(),
            match spec_primary(old(self).toks(), old(self).vals(), old(self).cur()) {
                Ok((e, j)) => (r matches Ok(ex) && ex@ == e) && final(self).cur() == j && old(
                    self,
                ).cur() < j,
                Err(er) => r matches Err(x) && x@ == er,
            },
        decreases self.toks().len() - self.cur(), 0int,
    {
        if self.current >= self.tokens.len() {
            return Err(SyntaxError::UnexpectedEnd);
        }
        let toksl = self.tokens;
        let t = &toksl[self.current];
        match t.token_type {
            TokenType::False => {
                self.advance();
                Ok(Expr::Literal(LiteralValue::Boolean(false)))
            },
            TokenType::True => {
                self.advance();
                Ok(Expr::Literal(LiteralValue::Boolean(true)))
            },
            TokenType::Nil => {
                self.advance();
                Ok(Expr::Literal(LiteralValue::Nil))
            },
            TokenType::Number => {
                proof {
                    lemma_num_count_mono(
                        self.toks(),
                        self.cur() + 1,
                        self.toks().len() as int,
                    );
                    lemma_num_count_le(self.toks(), self.cur());
                }
                let bits = self.number_values[self.num_seen];
                self.advance();
                Ok(Expr::Literal(LiteralValue::Number(bits)))
            },
            TokenType::StringLiteral => {
                let content = string_content_exec(t.lexeme.as_str());
                self.advance();
                Ok(Expr::Literal(LiteralValue::String(content)))
            },
            TokenType::Identifier => {
                let name = t.duplicate();
                self.advance();
                Ok(Expr::Variable(name))
            },
            TokenType::LeftParen => {
                self.advance();
                match self.expression() {
                    Ok(e) => {
                        if self.peek_is(TokenType::RightParen) {
                            self.advance();
                            Ok(Expr::Grouping(Box::new(e)))
                        } else if self.current < self.tokens.len() {
                            Err(
                                SyntaxError::MissingClosingParen {
                                    line: toksl[self.current].line,
                                },
                            )
                        } else {
                            Err(SyntaxError::UnexpectedEnd)
                        }
                    },
                    Err(er) => Err(er),
                }
            },
            _ => Err(SyntaxError::UnexpectedToken { token: t.duplicate() }),
        }
    }

    /// Parses one unary expression; prefix operators nest.
    fn unary(&mut self) -> (r: Result<Expr, SyntaxError>)
        requires
            old(self).wf(),
        ensures
            final(self).wf(),
            final(self).toks() == old(self).toks(),
            final(self).vals() == old(self).vals(),
            match spec_unary(old(self).toks(), old(self).vals(), old(self).cur()) {
                Ok((e, j)) => (r matches Ok(ex) && ex@ == e) && final(self).cur() == j && old(
                    self,
                ).cur() < j,
                Err(er) => r matches Err(x) && x@ == er,
            },
        decreases self.toks().len() - self.cur(), 1int,
    {
        if self.peek_is(TokenType::Bang) || self.peek_is(TokenType::Minus) {
            let toksl = self.tokens;
            let op = (&toksl[self.current]).duplicate();
            self.advance();
            match self.unary() {
                Ok(e) => Ok(Expr::Unary(op, Box::new(e))),
                Err(er) => Err(er),
            }
        } else {
            self.primary()
        }
    }

    /// Parses one factor, folding `*` and `/` left-associatively.
    fn factor(&mut self) -> (r: Result<Expr, SyntaxError>)
        requires
            old(self).wf(),
        ensures
            final(self).wf(),
            final(self).toks() == old(self).toks(),
            final(self).vals() == old(self).vals(),
            match spec_factor(old(self).toks(), old(self).vals(), old(self).cur()) {
                Ok((e, j)) => (r matches Ok(ex) && ex@ == e) && final(self).cur() == j && old(
                    self,
                ).cur() < j,
                Err(er) => r matches Err(x) && x@ == er,
            },
        decreases self.toks().len() - self.cur(), 3int,
    {
        let ghost toks = self.toks();
        let ghost vals = self.vals();
        let ghost i0 = self.cur();
        let mut e = match self.unary() {
            Ok(e) => e,
            Err(er) => {
                return Err(er);
            },
        };
        while self.peek_is(TokenType::Star) || self.peek_is(TokenType::Slash)
            invariant
                self.wf(),
                self.toks() == toks,
                self.vals() == vals,
                toks == old(self).toks(),
                vals == old(self).vals(),
                i0 == old(self).cur(),
                i0 < self.cur() <= toks.len(),
                spec_factor(toks, vals, i0) == spec_factor_rest(toks, vals, e@, self.cur()),
            decreases toks.len() - self.cur(),
        {
            let ghost acc = e@;
            let ghost ic = self.cur();
            let toksl = self.tokens;
            let op = (&toksl[self.current]).duplicate();
            self.advance();
            let right = match self.unary() {
                Ok(right) => right,
                Err(er) => {
                    return Err(er);
                },
            };
            e = Expr::Binary(Box::new(e), op, Box::new(right));
            proof {
                assert(spec_factor_rest(toks, vals, acc, ic) == spec_factor_rest(
                    toks,
                    vals,
                    e@,
                    self.cur(),
                ));
            }
        }
        Ok(e)
    }

    /// Parses one term, folding `+` and `-` left-associatively.
    fn term(&mut self) -> (r: Result<Expr, SyntaxError>)
        requires
            old(self).wf(),
        ensures
            final(self).wf(),
            final(self).toks() == old(self).toks(),
            final(self).vals() == old(self).vals(),
            match spec_term(old(self).toks(), old(self).vals(), old(self).cur()) {
                Ok((e, j)) => (r matches Ok(ex) && ex@ == e) && final(self).cur() == j && old(
                    self,
                ).cur() < j,
                Err(er) => r matches Err(x) && x@ == er,
            },
        decreases self.toks().len() - self.cur(), 5int,
    {
        let ghost toks = self.toks();
        let ghost vals = self.vals();
        let ghost i0 = self.cur();
        let mut e = match self.factor() {
            Ok(e) => e,
            Err(er) => {
                return Err(er);
            },
        };
        while self.peek_is(TokenType::Plus) || self.peek_is(TokenType::Minus)
            invariant
                self.wf(),
                self.toks() == toks,
                self.vals() == vals,
                toks == old(self).toks(),
                vals == old(self).vals(),
                i0 == old(self).cur(),
                i0 < self.cur() <= toks.len(),
                spec_term(toks, vals, i0) == spec_term_rest(toks, vals, e@, self.cur()),
            decreases toks.len() - self.cur(),
        {
            let ghost acc = e@;
            let ghost ic = self.cur();
            let toksl = self.tokens;
            let op = (&toksl[self.current]).duplicate();
            self.advance();
            let right = match self.factor() {
                Ok(right) => right,
                Err(er) => {
                    return Err(er);
                },
            };
            e = Expr::Binary(Box::new(e), op, Box::new(right));
            proof {
                assert(spec_term_rest(toks, vals, acc, ic) == spec_term_rest(
                    toks,
                    vals,
                    e@,
                    self.cur(),
                ));
            }
        }
        Ok(e)
    }

    /// Parses one comparison, folding the comparison operators
    /// left-associatively.
    fn comparison(&mut self) -> (r: Result<Expr, SyntaxError>)
        requires
            old(self).wf(),
        ensures
            final(self).wf(),
            final(self).toks() == old(self).toks(),
            final(self).vals() == old(self).vals(),
            match spec_comparison(old(self).toks(), old(self).vals(), old(self).cur()) {
                Ok((e, j)) => (r matches Ok(ex) && ex@ == e) && final(self).cur() == j && old(
                    self,
                ).cur() < j,
                Err(er) => r matches Err(x) && x@ == er,
            },
        decreases self.toks().len() - self.cur(), 7int,
    {
        let ghost toks = self.toks();
        let ghost vals = self.vals();
        let ghost i0 = self.cur();
        let mut e = match self.term() {
            Ok(e) => e,
            Err(er) => {
                return Err(er);
            },
        };
        while self.peek_is(TokenType::Greater) || self.peek_is(TokenType::GreaterEqual)
            || self.peek_is(TokenType::Less) || self.peek_is(TokenType::LessEqual)
            invariant
                self.wf(),
                self.toks() == toks,
                self.vals() == vals,
                toks == old(self).toks(),
                vals == old(self).vals(),
                i0 == old(self).cur(),
                i0 < self.cur() <= toks.len(),
                spec_comparison(toks, vals, i0) == spec_comparison_rest(
                    toks,
                    vals,
                    e@,
                    self.cur(),
                ),
            decreases toks.len() - self.cur(),
        {
            let ghost acc = e@;
            let ghost ic = self.cur();
            let toksl = self.tokens;
            let op = (&toksl[self.current]).duplicate();
            self.advance();
            let right = match self.term() {
                Ok(right) => right,
                Err(er) => {
                    return Err(er);
                },
            };
            e = Expr::Binary(Box::new(e), op, Box::new(right));
            proof {
                assert(spec_comparison_rest(toks, vals, acc, ic) == spec_comparison_rest(
                    toks,
                    vals,
                    e@,
                    self.cur(),
                ));
            }
        }
        Ok(e)
    }

    /// Parses one equality, folding `==` and `!=` left-associatively.
    fn equality(&mut self) -> (r: Result<Expr, SyntaxError>)
        requires
            old(self).wf(),
        ensures
            final(self).wf(),
            final(self).toks() == old(self).toks(),
            final(self).vals() == old(self).vals(),
            match spec_equality(old(self).toks(), old(self).vals(), old(self).cur()) {
                Ok((e, j)) => (r matches Ok(ex) && ex@ == e) && final(self).cur() == j && old(
                    self,
                ).cur() < j,
                Err(er) => r matches Err(x) && x@ == er,
            },
        decreases self.toks().len() - self.cur(), 9int,
    {
        let ghost toks = self.toks();
        let ghost vals = self.vals();
        let ghost i0 = self.cur();
        let mut e = match self.comparison() {
            Ok(e) => e,
            Err(er) => {
                return Err(er);
            },
        };
        while self.peek_is(TokenType::EqualEqual) || self.peek_is(TokenType::BangEqual)
            invariant
                self.wf(),
                self.toks() == toks,
                self.vals() == vals,
                toks == old(self).toks(),
                vals == old(self).vals(),
                i0 == old(self).cur(),
                i0 < self.cur() <= toks.len(),
                spec_equality(toks, vals, i0) == spec_equality_rest(toks, vals, e@, self.cur()),
            decreases toks.len() - self.cur(),
        {
            let ghost acc = e@;
            let ghost ic = self.cur();
            let toksl = self.tokens;
            let op = (&toksl[self.current]).duplicate();
            self.advance();
            let right = match self.comparison() {
                Ok(right) => right,
                Err(er) => {
                    return Err(er);
                },
            };
            e = Expr::Binary(Box::new(e), op, Box::new(right));
            proof {
                assert(spec_equality_rest(toks, vals, acc, ic) == spec_equality_rest(
                    toks,
                    vals,
                    e@,
                    self.cur(),
                ));
            }
        }
        Ok(e)
    }

    /// Parses one expression: the lowest-precedence rule.
    fn expression(&mut self) -> (r: Result<Expr, SyntaxError>)
        requires
            old(self).wf(),
        ensures
            final(self).wf(),
            final(self).toks() == old(self).toks(),
            final(self).vals() == old(self).vals(),
            match spec_expression(old(self).toks(), old(self).vals(), old(self).cur()) {
                Ok((e, j)) => (r matches Ok(ex) && ex@ == e) && final(self).cur() == j && old(
                    self,
                ).cur() < j,
                Err(er) => r matches Err(x) && x@ == er,
            },
        decreases self.toks().len() - self.cur(), 10int,
    {
        self.equality()
    }

    /// Parses one statement: a print statement or an expression statement,
    /// each terminated by `;`.
    fn statement(&mut self) -> (r: Result<Statement, SyntaxError>)
        requires
            old(self).wf(),
        ensures
            final(self).wf(),
            final(self).toks() == old(self).toks(),
            final(self).vals() == old(self).vals(),
            match spec_statement(old(self).toks(), old(self).vals(), old(self).cur()) {
                Ok((s, j)) => (r matches Ok(st) && st@ == s) && final(self).cur() == j && old(
                    self,
                ).cur() < j,
                Err(er) => r matches Err(x) && x@ == er,
            },
        decreases self.toks().len() - self.cur(), 11int,
    {
        if self.current >= self.tokens.len() {
            return Err(SyntaxError::UnexpectedEnd);
        }
        let toksl = self.tokens;
        if toksl[self.current].token_type == TokenType::Print {
            self.advance();
            match self.expression() {
                Ok(e) => {
                    if self.peek_is(TokenType::Semicolon) {
                        self.advance();
                        Ok(Statement::Print(e))
                    } else if self.current < self.tokens.len() {
                        Err(SyntaxError::MissingSemicolon { line: toksl[self.current].line })
                    } else {
                        Err(SyntaxError::UnexpectedEnd)
                    }
                },
                Err(er) => Err(er),
            }
        } else {
            match self.expression() {
                Ok(e) => {
                    if self.peek_is(TokenType::Semicolon) {
                        self.advance();
                        Ok(Statement::Expression(e))
                    } else if self.current < self.tokens.len() {
                        Err(SyntaxError::MissingSemicolon { line: toksl[self.current].line })
                    } else {
                        Err(SyntaxError::UnexpectedEnd)
                    }
                },
                Err(er) => Err(er),
            }
        }
    }

    /// Parses the remainder of a `var` declaration, the keyword already
    /// consumed: the name, an optional initializer, and the terminating `;`.
    fn var_declaration(&mut self) -> (r: Result<Statement, SyntaxError>)
        requires
            old(self).wf(),
        ensures
            final(self).wf(),
            final(self).toks() == old(self).toks(),
            final(self).vals() == old(self).vals(),
            match spec_var_declaration(old(self).toks(), old(self).vals(), old(self).cur()) {
                Ok((s, j)) => (r matches Ok(st) && st@ == s) && final(self).cur() == j && old(
                    self,
                ).cur() < j,
                Err(er) => r matches Err(x) && x@ == er,
            },
        decreases self.toks().len() - self.cur(), 11int,
    {
        if self.current >= self.tokens.len() {
            return Err(SyntaxError::UnexpectedEnd);
        }
        let toksl = self.tokens;
        let t = &toksl[self.current];
        if !(t.token_type == TokenType::Identifier) {
            return Err(SyntaxError::ExpectedVariableName { line: t.line });
        }
        if self.current + 1 >= self.tokens.len() {
            return Err(SyntaxError::UnexpectedEnd);
        }
        if toksl[self.current + 1].token_type == TokenType::Equal {
            let name = t.duplicate();
            self.advance();
            self.advance();
            match self.expression() {
                Ok(e) => {
                    if self.peek_is(TokenType::Semicolon) {
                        self.advance();
                        Ok(Statement::Var(name, Some(e)))
                    } else if self.current < self.tokens.len() {
                        Err(SyntaxError::MissingSemicolon { line: toksl[self.current].line })
                    } else {
                        Err(SyntaxError::UnexpectedEnd)
                    }
                },
                Err(er) => Err(er),
            }
        } else if toksl[self.current + 1].token_type == TokenType::Semicolon {
            let name = t.duplicate();
            self.advance();
            self.advance();
            Ok(Statement::Var(name, None))
        } else {
            Err(SyntaxError::MissingSemicolon { line: toksl[self.current + 1].line })
        }
    }

    /// Parses one declaration: a `var` declaration or a statement.
    fn declaration(&mut self) -> (r: Result<Statement, SyntaxError>)
        requires
            old(self).wf(),
        ensures
            final(self).wf(),
            final(self).toks() == old(self).toks(),
            final(self).vals() == old(self).vals(),
            match spec_declaration(old(self).toks(), old(self).vals(), old(self).cur()) {
                Ok((s, j)) => (r matches Ok(st) && st@ == s) && final(self).cur() == j && old(
                    self,
                ).cur() < j,
                Err(er) => r matches Err(x) && x@ == er,
            },
        decreases self.toks().len() - self.cur(), 12int,
    {
        if self.current >= self.tokens.len() {
            return Err(SyntaxError::UnexpectedEnd);
        }
        if self.tokens[self.current].token_type == TokenType::Var {
            self.advance();
            self.var_declaration()
        } else {
            self.statement()
        }
    }

    /// Parses the whole token sequence into the statement sequence, or fails
    /// fast on the first syntax error: no partial result, no recovery.
    #[verifier::rlimit(60)]
    pub fn parse(&mut self) -> (r: Result<Vec<Statement>, SyntaxError>)
        requires
            old(self).wf(),
        ensures
            final(self).wf(),
            final(self).toks() == old(self).toks(),
            final(self).vals() == old(self).vals(),
            match spec_program(old(self).toks(), old(self).vals(), old(self).cur()) {
                Ok(ss) => r matches Ok(v) && v.deep_view() == ss,
                Err(er) => r matches Err(x) && x@ == er,
            },
    {
        let ghost toks = self.toks();
        let ghost vals = self.vals();
        let ghost i0 = self.cur();
        let ghost target = spec_program(toks, vals, i0);
        let mut statements: Vec<Statement> = Vec::new();
        proof {
            assert(statements.deep_view() =~= Seq::<StmtV>::empty());
            match spec_program(toks, vals, i0) {
                Ok(ss) => {
                    assert(Seq::<StmtV>::empty() + ss =~= ss);
                },
                Err(_) => {},
            }
        }
        while !self.at_end()
            invariant
                self.wf(),
                self.toks() == toks,
                self.vals() == vals,
                toks == old(self).toks(),
                vals == old(self).vals(),
                i0 == old(self).cur(),
                target == spec_program(toks, vals, i0),
                i0 <= self.cur() <= toks.len(),
                match spec_program(toks, vals, self.cur()) {
                    Ok(rest) => target == Ok::<Seq<StmtV>, SyntaxErrorV>(
                        statements.deep_view() + rest,
                    ),
                    Err(er) => target == Err::<Seq<StmtV>, SyntaxErrorV>(er),
                },
            decreases toks.len() - self.cur(),
        {
            let ghost ic = self.cur();
            let ghost sd = statements.deep_view();
            match self.declaration() {
                Ok(s) => {
                    proof {
                        match spec_program(toks, vals, self.cur()) {
                            Ok(rest) => {
                                assert(spec_program(toks, vals, ic) == Ok::<
                                    Seq<StmtV>,
                                    SyntaxErrorV,
                                >(seq![s@] + rest));
                                assert(sd + (seq![s@] + rest) =~= sd.push(s@) + rest);
                            },
                            Err(_) => {},
                        }
                    }
                    statements.push(s);
                    proof {
                        assert(statements.deep_view() =~= sd.push(s@));
                    }
                },
                Err(er) => {
                    proof {
                        assert(spec_program(toks, vals, ic) == Err::<Seq<StmtV>, SyntaxErrorV>(
                            er@,
                        ));
                    }
                    return Err(er);
                },
            }
        }
        proof {
            assert(spec_program(toks, vals, self.cur()) == Ok::<Seq<StmtV>, SyntaxErrorV>(
                Seq::<StmtV>::empty(),
            ));
            assert(statements.deep_view() + Seq::<StmtV>::empty() =~= statements.deep_view());
        }
        Ok(statements)
    }
}

} // verus!
