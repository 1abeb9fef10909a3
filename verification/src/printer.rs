//! Printing the syntax tree back into source-like form, and the round-trip
//! theorem: parsing the printed form of a tree that respects the grammar's
//! precedence yields a structurally equal tree.
//!
//! Number literals hold only the bits of their value, so printing takes the
//! decimal texts for them (in literal order) from the driver, just as the
//! parser takes their values.

use vstd::prelude::*;
use vstd::string::StringExecFns;
use crate::expression::{expr_view, Expr, ExprV, LiteralValue, ValueV};
use crate::parser::{
    is_comparison_op, num_count, peek_kind, spec_at_end, spec_comparison, spec_comparison_rest,
    spec_declaration, spec_equality, spec_equality_rest, spec_expression, spec_factor,
    spec_factor_rest, spec_primary, spec_program, spec_statement, spec_term, spec_term_rest,
    spec_unary, spec_var_declaration, string_content, SyntaxErrorV,
};
use crate::scanner::tok;
use crate::statement::{Statement, StmtV};
use crate::token::{Token, TokenType, TokenV};

verus! {

/// How many number literals an expression holds.
pub open spec fn expr_number_count(e: ExprV) -> int
    decreases e,
{
    match e {
        ExprV::Literal(ValueV::Number(_)) => 1,
        ExprV::Literal(_) => 0,
        ExprV::Variable(_) => 0,
        ExprV::Grouping(inner) => expr_number_count(*inner),
        ExprV::Unary(_, inner) => expr_number_count(*inner),
        ExprV::Binary(l, _, r) => expr_number_count(*l) + expr_number_count(*r),
    }
}

/// The bits of an expression's number literals, in print order.
pub open spec fn expr_number_bits(e: ExprV) -> Seq<u64>
    decreases e,
{
    match e {
        ExprV::Literal(ValueV::Number(bits)) => seq![bits],
        ExprV::Literal(_) => Seq::<u64>::empty(),
        ExprV::Variable(_) => Seq::<u64>::empty(),
        ExprV::Grouping(inner) => expr_number_bits(*inner),
        ExprV::Unary(_, inner) => expr_number_bits(*inner),
        ExprV::Binary(l, _, r) => expr_number_bits(*l) + expr_number_bits(*r),
    }
}

/// How many number literals a statement holds.
pub open spec fn stmt_number_count(s: StmtV) -> int {
    match s {
        StmtV::Expression(e) => expr_number_count(e),
        StmtV::Print(e) => expr_number_count(e),
        StmtV::Var(_, Some(e)) => expr_number_count(e),
        StmtV::Var(_, None) => 0,
    }
}

/// The bits of a statement's number literals, in print order.
pub open spec fn stmt_number_bits(s: StmtV) -> Seq<u64> {
    match s {
        StmtV::Expression(e) => expr_number_bits(e),
        StmtV::Print(e) => expr_number_bits(e),
        StmtV::Var(_, Some(e)) => expr_number_bits(e),
        StmtV::Var(_, None) => Seq::<u64>::empty(),
    }
}

/// How many number literals a program holds.
pub open spec fn program_number_count(stmts: Seq<StmtV>) -> int
    decreases stmts.len(),
{
    if stmts.len() == 0 {
        0
    } else {
        stmt_number_count(stmts[0]) + program_number_count(stmts.skip(1))
    }
}

/// The bits of a program's number literals, in print order.
pub open spec fn program_number_bits(stmts: Seq<StmtV>) -> Seq<u64>
    decreases stmts.len(),
{
    if stmts.len() == 0 {
        Seq::<u64>::empty()
    } else {
        stmt_number_bits(stmts[0]) + program_number_bits(stmts.skip(1))
    }
}

/// The tokens that print an expression, in source order, every token on
/// line 1. `texts` holds the decimal text of each number literal; the
/// literals of this expression use `texts[p..]`.
pub open spec fn print_expr(e: ExprV, texts: Seq<Seq<char>>, p: int) -> Seq<TokenV>
    decreases e,
{
    match e {
        ExprV::Literal(ValueV::Boolean(true)) => seq![tok(TokenType::True, "true"@, 1)],
        ExprV::Literal(ValueV::Boolean(false)) => seq![tok(TokenType::False, "false"@, 1)],
        ExprV::Literal(ValueV::Nil) => seq![tok(TokenType::Nil, "nil"@, 1)],
        ExprV::Literal(ValueV::Number(_)) => seq![tok(TokenType::Number, texts[p], 1)],
        ExprV::Literal(ValueV::String(sv)) => seq![
            tok(TokenType::StringLiteral, seq!['"'] + sv + seq!['"'], 1),
        ],
        ExprV::Variable(t) => seq![t],
        ExprV::Grouping(inner) => seq![tok(TokenType::LeftParen, seq!['('], 1)] + print_expr(
            *inner,
            texts,
            p,
        ) + seq![tok(TokenType::RightParen, seq![')'], 1)],
        ExprV::Unary(op, inner) => seq![op] + print_expr(*inner, texts, p),
        ExprV::Binary(l, op, r) => print_expr(*l, texts, p) + seq![op] + print_expr(
            *r,
            texts,
            p + expr_number_count(*l),
        ),
    }
}

/// The tokens that print a statement, ending with its `;`.
pub open spec fn print_stmt(s: StmtV, texts: Seq<Seq<char>>, p: int) -> Seq<TokenV> {
    match s {
        StmtV::Expression(e) => print_expr(e, texts, p) + seq![tok(TokenType::Semicolon, seq![';'], 1)],
        StmtV::Print(e) => seq![tok(TokenType::Print, "print"@, 1)] + print_expr(e, texts, p)
            + seq![tok(TokenType::Semicolon, seq![';'], 1)],
        StmtV::Var(name, Some(e)) => seq![
            tok(TokenType::Var, "var"@, 1),
            name,
            tok(TokenType::Equal, seq!['='], 1),
        ] + print_expr(e, texts, p) + seq![tok(TokenType::Semicolon, seq![';'], 1)],
        StmtV::Var(name, None) => seq![
            tok(TokenType::Var, "var"@, 1),
            name,
            tok(TokenType::Semicolon, seq![';'], 1),
        ],
    }
}

/// The tokens that print a program: its statements in order.
pub open spec fn print_program(stmts: Seq<StmtV>, texts: Seq<Seq<char>>, p: int) -> Seq<TokenV>
    decreases stmts.len(),
{
    if stmts.len() == 0 {
        Seq::<TokenV>::empty()
    } else {
        print_stmt(stmts[0], texts, p) + print_program(
            stmts.skip(1),
            texts,
            p + stmt_number_count(stmts[0]),
        )
    }
}

/// A normalized identifier token: the name token a parse of the printed
/// form gives back - identifier kind, a lexeme that scans as an identifier,
/// line 1.
pub open spec fn wf_name_token(t: TokenV) -> bool {
    &&& t.token_type == TokenType::Identifier
    &&& crate::rescan::wf_lexeme(t)
    &&& t.line == 1
}

/// A normalized operator token of the given kind: canonical lexeme, line 1.
pub open spec fn wf_op_token(t: TokenV) -> bool {
    &&& crate::rescan::wf_lexeme(t)
    &&& t.line == 1
}

/// A printable string value: no quote (which would end the literal early)
/// and no newline (which would move later tokens off line 1).
pub open spec fn wf_string_value(sv: Seq<char>) -> bool {
    forall|m: int| 0 <= m < sv.len() ==> sv[m] != '"' && sv[m] != '\n'
}

/// The expression respects the grammar at the given precedence level
/// (0 primary, 1 unary, 2 factor, 3 term, 4 comparison, 5 equality), and
/// its embedded tokens are normalized. These are exactly the trees a parse
/// can produce, lines normalized to 1.
pub open spec fn wf_expr(e: ExprV, level: int) -> bool
    decreases e,
{
    match e {
        ExprV::Literal(ValueV::String(sv)) => wf_string_value(sv),
        ExprV::Literal(_) => true,
        ExprV::Variable(t) => wf_name_token(t),
        ExprV::Grouping(inner) => wf_expr(*inner, 5),
        ExprV::Unary(op, inner) => level >= 1 && (op.token_type == TokenType::Bang
            || op.token_type == TokenType::Minus) && wf_op_token(op) && wf_expr(*inner, 1),
        ExprV::Binary(l, op, r) => {
            if op.token_type == TokenType::Star || op.token_type == TokenType::Slash {
                level >= 2 && wf_op_token(op) && wf_expr(*l, 2) && wf_expr(*r, 1)
            } else if op.token_type == TokenType::Plus || op.token_type == TokenType::Minus {
                level >= 3 && wf_op_token(op) && wf_expr(*l, 3) && wf_expr(*r, 2)
            } else if is_comparison_op(Some(op.token_type)) {
                level >= 4 && wf_op_token(op) && wf_expr(*l, 4) && wf_expr(*r, 3)
            } else if op.token_type == TokenType::EqualEqual || op.token_type
                == TokenType::BangEqual {
                level >= 5 && wf_op_token(op) && wf_expr(*l, 5) && wf_expr(*r, 4)
            } else {
                false
            }
        },
    }
}

/// The statement respects the grammar, its tokens normalized.
pub open spec fn wf_stmt(s: StmtV) -> bool {
    match s {
        StmtV::Expression(e) => wf_expr(e, 5),
        StmtV::Print(e) => wf_expr(e, 5),
        StmtV::Var(name, Some(e)) => wf_name_token(name) && wf_expr(e, 5),
        StmtV::Var(name, None) => wf_name_token(name),
    }
}

/// Every statement of the program respects the grammar.
pub open spec fn wf_program(stmts: Seq<StmtV>) -> bool {
    forall|j: int| 0 <= j < stmts.len() ==> wf_stmt(#[trigger] stmts[j])
}

/// The token kind extends a factor: more `*` or `/` operands follow.
pub open spec fn extends_factor(k: Option<TokenType>) -> bool {
    k == Some(TokenType::Star) || k == Some(TokenType::Slash)
}

/// The token kind extends a term: more `+` or `-` operands follow.
pub open spec fn extends_term(k: Option<TokenType>) -> bool {
    k == Some(TokenType::Plus) || k == Some(TokenType::Minus)
}

/// The token kind extends a comparison.
pub open spec fn extends_comparison(k: Option<TokenType>) -> bool {
    is_comparison_op(k)
}

/// The token kind extends an equality.
pub open spec fn extends_equality(k: Option<TokenType>) -> bool {
    k == Some(TokenType::EqualEqual) || k == Some(TokenType::BangEqual)
}

/// The token kind extends some binary level.
pub open spec fn extends_any(k: Option<TokenType>) -> bool {
    extends_factor(k) || extends_term(k) || extends_comparison(k) || extends_equality(k)
}

/// The window `w` stands in `toks` at position `i`.
pub open spec fn window_at(toks: Seq<TokenV>, i: int, w: Seq<TokenV>) -> bool {
    &&& 0 <= i
    &&& i + w.len() <= toks.len()
    &&& forall|m: int| 0 <= m < w.len() ==> #[trigger] w[m] == toks[i + m]
}

proof fn lemma_window_split(toks: Seq<TokenV>, i: int, a: Seq<TokenV>, b: Seq<TokenV>)
    requires
        window_at(toks, i, a + b),
    ensures
        window_at(toks, i, a),
        window_at(toks, i + a.len(), b),
{
    assert forall|m: int| 0 <= m < a.len() implies #[trigger] a[m] == toks[i + m] by {
        assert((a + b)[m] == a[m]);
    }
    assert forall|m: int| 0 <= m < b.len() implies #[trigger] b[m] == toks[i + a.len() + m] by {
        assert((a + b)[a.len() + m] == b[m]);
    }
}

proof fn lemma_window_first(toks: Seq<TokenV>, i: int, w: Seq<TokenV>)
    requires
        window_at(toks, i, w),
        w.len() >= 1,
    ensures
        toks[i] == w[0],
{
    assert(w[0] == toks[i + 0]);
}

/// The subtrees of a well-formed binary node are well formed at the loosest
/// level, and its operator is a binary operator (so never a number token).
proof fn lemma_wf_binary_sub(e: ExprV, l: ExprV, op: TokenV, r: ExprV)
    requires
        wf_expr(e, 5),
        e == ExprV::Binary(Box::new(l), op, Box::new(r)),
    ensures
        wf_expr(l, 5),
        wf_expr(r, 5),
        extends_any(Some(op.token_type)),
        op.token_type != TokenType::Number,
{
    if op.token_type == TokenType::Star || op.token_type == TokenType::Slash {
        lemma_wf_expr_mono(l, 2, 5);
        lemma_wf_expr_mono(r, 1, 5);
    } else if op.token_type == TokenType::Plus || op.token_type == TokenType::Minus {
        lemma_wf_expr_mono(l, 3, 5);
        lemma_wf_expr_mono(r, 2, 5);
    } else if is_comparison_op(Some(op.token_type)) {
        lemma_wf_expr_mono(l, 4, 5);
        lemma_wf_expr_mono(r, 3, 5);
    } else {
        lemma_wf_expr_mono(r, 4, 5);
    }
}

/// Precedence levels are cumulative: what is well formed at a tight level
/// is well formed at any looser one.
proof fn lemma_wf_expr_mono(e: ExprV, l1: int, l2: int)
    requires
        wf_expr(e, l1),
        l1 <= l2,
    ensures
        wf_expr(e, l2),
{
}

/// An expression's number-bits sequence is as long as its literal count.
proof fn lemma_expr_bits_len(e: ExprV)
    ensures
        expr_number_bits(e).len() == expr_number_count(e),
        expr_number_count(e) >= 0,
    decreases e,
{
    match e {
        ExprV::Grouping(inner) => lemma_expr_bits_len(*inner),
        ExprV::Unary(_, inner) => lemma_expr_bits_len(*inner),
        ExprV::Binary(l, _, r) => {
            lemma_expr_bits_len(*l);
            lemma_expr_bits_len(*r);
        },
        _ => {},
    }
}

/// A printed expression is non-empty and starts with a token that can only
/// begin an expression.
proof fn lemma_print_expr_first(e: ExprV, texts: Seq<Seq<char>>, p: int)
    requires
        wf_expr(e, 5),
    ensures
        print_expr(e, texts, p).len() >= 1,
        ({
            let k = print_expr(e, texts, p)[0].token_type;
            k == TokenType::True || k == TokenType::False || k == TokenType::Nil || k
                == TokenType::Number || k == TokenType::StringLiteral || k == TokenType::Identifier
                || k == TokenType::LeftParen || k == TokenType::Bang || k == TokenType::Minus
        }),
    decreases e,
{
    match e {
        ExprV::Unary(op, inner) => {
            assert(print_expr(e, texts, p)[0] == op);
        },
        ExprV::Binary(l, op, r) => {
            lemma_wf_binary_sub(e, *l, op, *r);
            lemma_print_expr_first(*l, texts, p);
            let wl = print_expr(*l, texts, p);
            let wr = print_expr(*r, texts, p + expr_number_count(*l));
            assert(print_expr(e, texts, p)[0] == wl[0]) by {
                assert(((wl + seq![op]) + wr)[0] == (wl + seq![op])[0]);
                assert((wl + seq![op])[0] == wl[0]);
            }
        },
        ExprV::Grouping(inner) => {
            let lp = seq![tok(TokenType::LeftParen, seq!['('], 1)];
            let wi = print_expr(*inner, texts, p);
            let rp = seq![tok(TokenType::RightParen, seq![')'], 1)];
            assert(print_expr(e, texts, p)[0] == tok(TokenType::LeftParen, seq!['('], 1)) by {
                assert(((lp + wi) + rp)[0] == (lp + wi)[0]);
                assert((lp + wi)[0] == lp[0]);
                assert(lp[0] == tok(TokenType::LeftParen, seq!['('], 1));
            }
        },
        _ => {},
    }
}

/// Passing a printed expression advances the number-token count by the
/// expression's literal count.
proof fn lemma_print_expr_numcount(
    toks: Seq<TokenV>,
    i: int,
    e: ExprV,
    texts: Seq<Seq<char>>,
    p: int,
)
    requires
        wf_expr(e, 5),
        window_at(toks, i, print_expr(e, texts, p)),
    ensures
        num_count(toks, i + print_expr(e, texts, p).len()) == num_count(toks, i)
            + expr_number_count(e),
    decreases e,
{
    match e {
        ExprV::Literal(v) => {
            lemma_window_first(toks, i, print_expr(e, texts, p));
            match v {
                ValueV::Boolean(b) => {
                    if b {
                        assert(seq![tok(TokenType::True, "true"@, 1)][0] == tok(
                            TokenType::True,
                            "true"@,
                            1,
                        ));
                    } else {
                        assert(seq![tok(TokenType::False, "false"@, 1)][0] == tok(
                            TokenType::False,
                            "false"@,
                            1,
                        ));
                    }
                },
                ValueV::Nil => {
                    assert(seq![tok(TokenType::Nil, "nil"@, 1)][0] == tok(
                        TokenType::Nil,
                        "nil"@,
                        1,
                    ));
                },
                ValueV::Number(_) => {
                    assert(seq![tok(TokenType::Number, texts[p], 1)][0] == tok(
                        TokenType::Number,
                        texts[p],
                        1,
                    ));
                },
                ValueV::String(sv) => {
                    assert(seq![
                        tok(TokenType::StringLiteral, seq!['"'] + sv + seq!['"'], 1),
                    ][0] == tok(TokenType::StringLiteral, seq!['"'] + sv + seq!['"'], 1));
                },
            }
        },
        ExprV::Variable(t) => {
            lemma_window_first(toks, i, print_expr(e, texts, p));
            assert(seq![t][0] == t);
            assert(t.token_type == TokenType::Identifier);
        },
        ExprV::Grouping(inner) => {
            let lp = seq![tok(TokenType::LeftParen, seq!['('], 1)];
            let wi = print_expr(*inner, texts, p);
            let rp = seq![tok(TokenType::RightParen, seq![')'], 1)];
            lemma_window_split(toks, i, lp + wi, rp);
            lemma_window_split(toks, i, lp, wi);
            lemma_window_first(toks, i, lp);
            assert(lp[0] == tok(TokenType::LeftParen, seq!['('], 1));
            assert(wf_expr(*inner, 5));
            lemma_print_expr_numcount(toks, i + 1, *inner, texts, p);
            lemma_window_first(toks, i + 1 + wi.len(), rp);
            assert(rp[0] == tok(TokenType::RightParen, seq![')'], 1));
        },
        ExprV::Unary(op, inner) => {
            let wi = print_expr(*inner, texts, p);
            lemma_window_split(toks, i, seq![op], wi);
            lemma_window_first(toks, i, seq![op]);
            assert(seq![op][0] == op);
            lemma_wf_expr_mono(*inner, 1, 5);
            lemma_print_expr_numcount(toks, i + 1, *inner, texts, p);
        },
        ExprV::Binary(l, op, r) => {
            lemma_wf_binary_sub(e, *l, op, *r);
            let wl = print_expr(*l, texts, p);
            let wr = print_expr(*r, texts, p + expr_number_count(*l));
            lemma_window_split(toks, i, wl + seq![op], wr);
            lemma_window_split(toks, i, wl, seq![op]);
            lemma_print_expr_numcount(toks, i, *l, texts, p);
            lemma_window_first(toks, i + wl.len(), seq![op]);
            assert(seq![op][0] == op);
            lemma_print_expr_numcount(toks, i + wl.len() + 1, *r, texts, p + expr_number_count(*l));
        },
    }
}

/// The window, count and value premises of the expression round-trip
/// lemmas: the printed tokens stand at `i`, `p` number tokens stand before
/// them, and the parser's value table holds this expression's literal bits
/// at `p` onward.
pub open spec fn expr_aligned(
    toks: Seq<TokenV>,
    vals: Seq<u64>,
    texts: Seq<Seq<char>>,
    i: int,
    p: int,
    e: ExprV,
) -> bool {
    &&& window_at(toks, i, print_expr(e, texts, p))
    &&& num_count(toks, i) == p
    &&& 0 <= p
    &&& p + expr_number_count(e) <= vals.len()
    &&& forall|q: int|
        0 <= q < expr_number_count(e) ==> vals[p + q] == #[trigger] expr_number_bits(e)[q]
}

/// Splits an alignment for a binary node into alignments for its operands.
proof fn lemma_aligned_binary(
    toks: Seq<TokenV>,
    vals: Seq<u64>,
    texts: Seq<Seq<char>>,
    i: int,
    p: int,
    e: ExprV,
    l: ExprV,
    op: TokenV,
    r: ExprV,
)
    requires
        expr_aligned(toks, vals, texts, i, p, e),
        wf_expr(l, 5),
        wf_expr(r, 5),
        op.token_type != TokenType::Number,
        e == ExprV::Binary(Box::new(l), op, Box::new(r)),
    ensures
        expr_aligned(toks, vals, texts, i, p, l),
        expr_aligned(
            toks,
            vals,
            texts,
            i + print_expr(l, texts, p).len() + 1,
            p + expr_number_count(l),
            r,
        ),
        toks[i + print_expr(l, texts, p).len()] == op,
        num_count(toks, i + print_expr(l, texts, p).len() + 1) == p + expr_number_count(l),
        i + print_expr(e, texts, p).len() == i + print_expr(l, texts, p).len() + 1 + print_expr(
            r,
            texts,
            p + expr_number_count(l),
        ).len(),
{
    let wl = print_expr(l, texts, p);
    let wr = print_expr(r, texts, p + expr_number_count(l));
    assert(print_expr(e, texts, p) == wl + seq![op] + wr);
    lemma_window_split(toks, i, wl + seq![op], wr);
    lemma_window_split(toks, i, wl, seq![op]);
    lemma_expr_bits_len(l);
    lemma_expr_bits_len(r);
    lemma_print_expr_numcount(toks, i, l, texts, p);
    lemma_window_first(toks, i + wl.len(), seq![op]);
    assert(seq![op][0] == op);
    assert(toks[i + wl.len()] == op);
    assert(expr_aligned(toks, vals, texts, i, p, l)) by {
        assert forall|q: int| 0 <= q < expr_number_count(l) implies vals[p + q]
            == #[trigger] expr_number_bits(l)[q] by {
            assert(expr_number_bits(e) == expr_number_bits(l) + expr_number_bits(r));
            assert(expr_number_bits(e)[q] == expr_number_bits(l)[q]);
        }
    }
    assert(expr_aligned(toks, vals, texts, i + wl.len() + 1, p + expr_number_count(l), r)) by {
        assert forall|q: int| 0 <= q < expr_number_count(r) implies vals[p + expr_number_count(l)
            + q] == #[trigger] expr_number_bits(r)[q] by {
            assert(expr_number_bits(e) == expr_number_bits(l) + expr_number_bits(r));
            assert(expr_number_bits(e)[expr_number_count(l) + q] == expr_number_bits(r)[q]);
        }
    }
}

/// Parsing at a printed unary-level expression yields exactly that
/// expression and stops right after its window.
proof fn lemma_print_unary(
    toks: Seq<TokenV>,
    vals: Seq<u64>,
    texts: Seq<Seq<char>>,
    i: int,
    p: int,
    e: ExprV,
)
    requires
        expr_aligned(toks, vals, texts, i, p, e),
        wf_expr(e, 1),
    ensures
        spec_unary(toks, vals, i) == Ok::<(ExprV, int), SyntaxErrorV>(
            (e, i + print_expr(e, texts, p).len()),
        ),
    decreases e, 0int,
{
    let w = print_expr(e, texts, p);
    match e {
        ExprV::Literal(v) => {
            assert(toks[i] == w[0]);
            match v {
                ValueV::Number(bits) => {
                    assert(vals[p] == expr_number_bits(e)[0]);
                    assert(expr_number_bits(e)[0] == bits);
                },
                ValueV::String(sv) => {
                    assert(string_content(seq!['"'] + sv + seq!['"']) =~= sv);
                },
                _ => {},
            }
        },
        ExprV::Variable(t) => {
            assert(toks[i] == w[0]);
            assert(toks[i] == t);
        },
        ExprV::Unary(op, inner) => {
            let wi = print_expr(*inner, texts, p);
            lemma_window_split(toks, i, seq![op], wi);
            lemma_window_first(toks, i, seq![op]);
            assert(seq![op][0] == op);
            assert(toks[i] == op);
            assert(expr_aligned(toks, vals, texts, i + 1, p, *inner)) by {
                assert(num_count(toks, i + 1) == num_count(toks, i));
                assert(expr_number_count(*inner) == expr_number_count(e));
                assert(expr_number_bits(*inner) == expr_number_bits(e));
                assert forall|q: int| 0 <= q < expr_number_count(*inner) implies vals[p + q]
                    == #[trigger] expr_number_bits(*inner)[q] by {
                    assert(vals[p + q] == expr_number_bits(e)[q]);
                }
            }
            lemma_print_unary(toks, vals, texts, i + 1, p, *inner);
            assert(spec_unary(toks, vals, i) == Ok::<(ExprV, int), SyntaxErrorV>(
                (ExprV::Unary(toks[i], Box::new(*inner)), i + 1 + wi.len()),
            ));
        },
        ExprV::Grouping(inner) => {
            let lp = seq![tok(TokenType::LeftParen, seq!['('], 1)];
            let wi = print_expr(*inner, texts, p);
            let rp = seq![tok(TokenType::RightParen, seq![')'], 1)];
            assert(w == lp + wi + rp);
            lemma_window_split(toks, i, lp + wi, rp);
            lemma_window_split(toks, i, lp, wi);
            lemma_window_first(toks, i, lp);
            assert(lp[0] == tok(TokenType::LeftParen, seq!['('], 1));
            lemma_window_first(toks, i + 1 + wi.len(), rp);
            assert(rp[0] == tok(TokenType::RightParen, seq![')'], 1));
            assert(expr_aligned(toks, vals, texts, i + 1, p, *inner)) by {
                assert(num_count(toks, i + 1) == num_count(toks, i));
                assert(expr_number_count(*inner) == expr_number_count(e));
                assert(expr_number_bits(*inner) == expr_number_bits(e));
                assert forall|q: int| 0 <= q < expr_number_count(*inner) implies vals[p + q]
                    == #[trigger] expr_number_bits(*inner)[q] by {
                    assert(vals[p + q] == expr_number_bits(e)[q]);
                }
            }
            lemma_print_expression(toks, vals, texts, i + 1, p, *inner);
            assert(peek_kind(toks, i + 1 + wi.len()) == Some(TokenType::RightParen));
            assert(spec_primary(toks, vals, i) == Ok::<(ExprV, int), SyntaxErrorV>(
                (ExprV::Grouping(Box::new(*inner)), i + 1 + wi.len() + 1),
            ));
        },
        ExprV::Binary(_, _, _) => {
            assert(false);
        },
    }
}

/// Parsing at a printed factor-level expression reaches the factor fold
/// with exactly that expression accumulated.
proof fn lemma_print_factor(
    toks: Seq<TokenV>,
    vals: Seq<u64>,
    texts: Seq<Seq<char>>,
    i: int,
    p: int,
    e: ExprV,
)
    requires
        expr_aligned(toks, vals, texts, i, p, e),
        wf_expr(e, 2),
    ensures
        spec_factor(toks, vals, i) == spec_factor_rest(
            toks,
            vals,
            e,
            i + print_expr(e, texts, p).len(),
        ),
    decreases e, 1int,
{
    let w = print_expr(e, texts, p);
    match e {
        ExprV::Binary(lb, op, rb) => {
            if op.token_type == TokenType::Star || op.token_type == TokenType::Slash {
                let l = *lb;
                let r = *rb;
                lemma_wf_expr_mono(l, 2, 5);
                lemma_wf_expr_mono(r, 1, 5);
                lemma_aligned_binary(toks, vals, texts, i, p, e, l, op, r);
                let wl = print_expr(l, texts, p);
                let mid = i + wl.len();
                lemma_print_factor(toks, vals, texts, i, p, l);
                lemma_print_unary(toks, vals, texts, mid + 1, p + expr_number_count(l), r);
                let end = mid + 1 + print_expr(r, texts, p + expr_number_count(l)).len();
                assert(peek_kind(toks, mid) == Some(op.token_type));
                assert(spec_factor_rest(toks, vals, l, mid) == spec_factor_rest(
                    toks,
                    vals,
                    ExprV::Binary(Box::new(l), toks[mid], Box::new(r)),
                    end,
                ));
                assert(ExprV::Binary(Box::new(l), toks[mid], Box::new(r)) == e);
            } else {
                assert(wf_expr(e, 1));
                lemma_print_unary(toks, vals, texts, i, p, e);
            }
        },
        _ => {
            assert(wf_expr(e, 1));
            lemma_print_unary(toks, vals, texts, i, p, e);
        },
    }
}

/// Parsing at a printed term-level expression reaches the term fold with
/// exactly that expression accumulated, provided no `*` or `/` follows the
/// window.
proof fn lemma_print_term(
    toks: Seq<TokenV>,
    vals: Seq<u64>,
    texts: Seq<Seq<char>>,
    i: int,
    p: int,
    e: ExprV,
)
    requires
        expr_aligned(toks, vals, texts, i, p, e),
        wf_expr(e, 3),
        !extends_factor(peek_kind(toks, i + print_expr(e, texts, p).len())),
    ensures
        spec_term(toks, vals, i) == spec_term_rest(
            toks,
            vals,
            e,
            i + print_expr(e, texts, p).len(),
        ),
    decreases e, 2int,
{
    let w = print_expr(e, texts, p);
    match e {
        ExprV::Binary(lb, op, rb) => {
            if op.token_type == TokenType::Plus || op.token_type == TokenType::Minus {
                let l = *lb;
                let r = *rb;
                lemma_wf_expr_mono(l, 3, 5);
                lemma_wf_expr_mono(r, 2, 5);
                lemma_aligned_binary(toks, vals, texts, i, p, e, l, op, r);
                let wl = print_expr(l, texts, p);
                let mid = i + wl.len();
                assert(toks[mid] == op);
                assert(!extends_factor(peek_kind(toks, mid)));
                lemma_print_term(toks, vals, texts, i, p, l);
                lemma_print_factor(toks, vals, texts, mid + 1, p + expr_number_count(l), r);
                let end = mid + 1 + print_expr(r, texts, p + expr_number_count(l)).len();
                assert(spec_factor(toks, vals, mid + 1) == spec_factor_rest(toks, vals, r, end));
                assert(spec_factor_rest(toks, vals, r, end) == Ok::<(ExprV, int), SyntaxErrorV>((r, end)));
                assert(peek_kind(toks, mid) == Some(op.token_type));
                assert(spec_term_rest(toks, vals, l, mid) == spec_term_rest(
                    toks,
                    vals,
                    ExprV::Binary(Box::new(l), toks[mid], Box::new(r)),
                    end,
                ));
                assert(ExprV::Binary(Box::new(l), toks[mid], Box::new(r)) == e);
            } else {
                assert(wf_expr(e, 2));
                lemma_print_factor(toks, vals, texts, i, p, e);
                assert(spec_factor_rest(toks, vals, e, i + w.len()) == Ok::<(ExprV, int), SyntaxErrorV>(
                    (e, i + w.len()),
                ));
            }
        },
        _ => {
            assert(wf_expr(e, 2));
            lemma_print_factor(toks, vals, texts, i, p, e);
            assert(spec_factor_rest(toks, vals, e, i + w.len()) == Ok::<(ExprV, int), SyntaxErrorV>(
                (e, i + w.len()),
            ));
        },
    }
}

/// Parsing at a printed comparison-level expression reaches the comparison
/// fold with exactly that expression accumulated, provided nothing tighter
/// follows the window.
proof fn lemma_print_comparison(
    toks: Seq<TokenV>,
    vals: Seq<u64>,
    texts: Seq<Seq<char>>,
    i: int,
    p: int,
    e: ExprV,
)
    requires
        expr_aligned(toks, vals, texts, i, p, e),
        wf_expr(e, 4),
        !extends_factor(peek_kind(toks, i + print_expr(e, texts, p).len())),
        !extends_term(peek_kind(toks, i + print_expr(e, texts, p).len())),
    ensures
        spec_comparison(toks, vals, i) == spec_comparison_rest(
            toks,
            vals,
            e,
            i + print_expr(e, texts, p).len(),
        ),
    decreases e, 3int,
{
    let w = print_expr(e, texts, p);
    match e {
        ExprV::Binary(lb, op, rb) => {
            if is_comparison_op(Some(op.token_type)) {
                let l = *lb;
                let r = *rb;
                lemma_wf_expr_mono(l, 4, 5);
                lemma_wf_expr_mono(r, 3, 5);
                lemma_aligned_binary(toks, vals, texts, i, p, e, l, op, r);
                let wl = print_expr(l, texts, p);
                let mid = i + wl.len();
                assert(toks[mid] == op);
                assert(!extends_factor(peek_kind(toks, mid)) && !extends_term(peek_kind(toks, mid)));
                lemma_print_comparison(toks, vals, texts, i, p, l);
                lemma_print_term(toks, vals, texts, mid + 1, p + expr_number_count(l), r);
                let end = mid + 1 + print_expr(r, texts, p + expr_number_count(l)).len();
                assert(spec_term(toks, vals, mid + 1) == spec_term_rest(toks, vals, r, end));
                assert(spec_term_rest(toks, vals, r, end) == Ok::<(ExprV, int), SyntaxErrorV>((r, end)));
                assert(peek_kind(toks, mid) == Some(op.token_type));
                assert(spec_comparison_rest(toks, vals, l, mid) == spec_comparison_rest(
                    toks,
                    vals,
                    ExprV::Binary(Box::new(l), toks[mid], Box::new(r)),
                    end,
                ));
                assert(ExprV::Binary(Box::new(l), toks[mid], Box::new(r)) == e);
            } else {
                assert(wf_expr(e, 3));
                lemma_print_term(toks, vals, texts, i, p, e);
                assert(spec_term_rest(toks, vals, e, i + w.len()) == Ok::<(ExprV, int), SyntaxErrorV>(
                    (e, i + w.len()),
                ));
            }
        },
        _ => {
            assert(wf_expr(e, 3));
            lemma_print_term(toks, vals, texts, i, p, e);
            assert(spec_term_rest(toks, vals, e, i + w.len()) == Ok::<(ExprV, int), SyntaxErrorV>(
                (e, i + w.len()),
            ));
        },
    }
}

/// Parsing at a printed equality-level expression reaches the equality
/// fold with exactly that expression accumulated, provided nothing tighter
/// follows the window.
proof fn lemma_print_equality(
    toks: Seq<TokenV>,
    vals: Seq<u64>,
    texts: Seq<Seq<char>>,
    i: int,
    p: int,
    e: ExprV,
)
    requires
        expr_aligned(toks, vals, texts, i, p, e),
        wf_expr(e, 5),
        !extends_factor(peek_kind(toks, i + print_expr(e, texts, p).len())),
        !extends_term(peek_kind(toks, i + print_expr(e, texts, p).len())),
        !extends_comparison(peek_kind(toks, i + print_expr(e, texts, p).len())),
    ensures
        spec_equality(toks, vals, i) == spec_equality_rest(
            toks,
            vals,
            e,
            i + print_expr(e, texts, p).len(),
        ),
    decreases e, 4int,
{
    let w = print_expr(e, texts, p);
    match e {
        ExprV::Binary(lb, op, rb) => {
            if op.token_type == TokenType::EqualEqual || op.token_type == TokenType::BangEqual {
                let l = *lb;
                let r = *rb;
                lemma_wf_expr_mono(r, 4, 5);
                lemma_aligned_binary(toks, vals, texts, i, p, e, l, op, r);
                let wl = print_expr(l, texts, p);
                let mid = i + wl.len();
                assert(toks[mid] == op);
                assert(!extends_factor(peek_kind(toks, mid)) && !extends_term(peek_kind(toks, mid))
                    && !extends_comparison(peek_kind(toks, mid)));
                lemma_print_equality(toks, vals, texts, i, p, l);
                lemma_print_comparison(toks, vals, texts, mid + 1, p + expr_number_count(l), r);
                let end = mid + 1 + print_expr(r, texts, p + expr_number_count(l)).len();
                assert(spec_comparison(toks, vals, mid + 1) == spec_comparison_rest(toks, vals, r, end));
                assert(spec_comparison_rest(toks, vals, r, end) == Ok::<(ExprV, int), SyntaxErrorV>(
                    (r, end),
                ));
                assert(peek_kind(toks, mid) == Some(op.token_type));
                assert(spec_equality_rest(toks, vals, l, mid) == spec_equality_rest(
                    toks,
                    vals,
                    ExprV::Binary(Box::new(l), toks[mid], Box::new(r)),
                    end,
                ));
                assert(ExprV::Binary(Box::new(l), toks[mid], Box::new(r)) == e);
            } else {
                assert(wf_expr(e, 4));
                lemma_print_comparison(toks, vals, texts, i, p, e);
                assert(spec_comparison_rest(toks, vals, e, i + w.len()) == Ok::<
                    (ExprV, int),
                    SyntaxErrorV,
                >((e, i + w.len())));
            }
        },
        _ => {
            assert(wf_expr(e, 4));
            lemma_print_comparison(toks, vals, texts, i, p, e);
            assert(spec_comparison_rest(toks, vals, e, i + w.len()) == Ok::<
                (ExprV, int),
                SyntaxErrorV,
            >((e, i + w.len())));
        },
    }
}

/// Parsing at a printed expression yields exactly that expression and
/// stops right after its window, provided no binary operator follows it.
proof fn lemma_print_expression(
    toks: Seq<TokenV>,
    vals: Seq<u64>,
    texts: Seq<Seq<char>>,
    i: int,
    p: int,
    e: ExprV,
)
    requires
        expr_aligned(toks, vals, texts, i, p, e),
        wf_expr(e, 5),
        !extends_any(peek_kind(toks, i + print_expr(e, texts, p).len())),
    ensures
        spec_expression(toks, vals, i) == Ok::<(ExprV, int), SyntaxErrorV>(
            (e, i + print_expr(e, texts, p).len()),
        ),
    decreases e, 5int,
{
    let w = print_expr(e, texts, p);
    lemma_print_equality(toks, vals, texts, i, p, e);
    assert(spec_equality_rest(toks, vals, e, i + w.len()) == Ok::<(ExprV, int), SyntaxErrorV>(
        (e, i + w.len()),
    ));
}

/// A statement's number-bits sequence is as long as its literal count.
proof fn lemma_stmt_bits_len(s: StmtV)
    ensures
        stmt_number_bits(s).len() == stmt_number_count(s),
        stmt_number_count(s) >= 0,
{
    match s {
        StmtV::Expression(e) => lemma_expr_bits_len(e),
        StmtV::Print(e) => lemma_expr_bits_len(e),
        StmtV::Var(_, Some(e)) => lemma_expr_bits_len(e),
        StmtV::Var(_, None) => {},
    }
}

/// A program's number-bits sequence is as long as its literal count.
proof fn lemma_program_bits_len(stmts: Seq<StmtV>)
    ensures
        program_number_bits(stmts).len() == program_number_count(stmts),
        program_number_count(stmts) >= 0,
    decreases stmts.len(),
{
    if stmts.len() > 0 {
        lemma_stmt_bits_len(stmts[0]);
        lemma_program_bits_len(stmts.skip(1));
    }
}

/// The window, count and value premises of the statement round-trip lemma.
pub open spec fn stmt_aligned(
    toks: Seq<TokenV>,
    vals: Seq<u64>,
    texts: Seq<Seq<char>>,
    i: int,
    p: int,
    s: StmtV,
) -> bool {
    &&& window_at(toks, i, print_stmt(s, texts, p))
    &&& num_count(toks, i) == p
    &&& 0 <= p
    &&& p + stmt_number_count(s) <= vals.len()
    &&& forall|q: int|
        0 <= q < stmt_number_count(s) ==> vals[p + q] == #[trigger] stmt_number_bits(s)[q]
}

/// A printed statement is non-empty; its first token begins a statement and
/// is never the end-of-input marker; passing it advances the number-token
/// count by the statement's literal count.
proof fn lemma_print_stmt_shape(
    toks: Seq<TokenV>,
    vals: Seq<u64>,
    texts: Seq<Seq<char>>,
    i: int,
    p: int,
    s: StmtV,
)
    requires
        stmt_aligned(toks, vals, texts, i, p, s),
        wf_stmt(s),
    ensures
        print_stmt(s, texts, p).len() >= 1,
        toks[i].token_type != TokenType::Eof,
        num_count(toks, i + print_stmt(s, texts, p).len()) == p + stmt_number_count(s),
{
    let semi = seq![tok(TokenType::Semicolon, seq![';'], 1)];
    match s {
        StmtV::Expression(e) => {
            let we = print_expr(e, texts, p);
            lemma_print_expr_first(e, texts, p);
            lemma_window_split(toks, i, we, semi);
            lemma_window_first(toks, i, we);
            lemma_print_expr_numcount(toks, i, e, texts, p);
            lemma_window_first(toks, i + we.len(), semi);
            assert(semi[0] == tok(TokenType::Semicolon, seq![';'], 1));
            assert(num_count(toks, i + we.len() + 1) == num_count(toks, i + we.len()));
        },
        StmtV::Print(e) => {
            let pr = seq![tok(TokenType::Print, "print"@, 1)];
            let we = print_expr(e, texts, p);
            lemma_window_split(toks, i, pr + we, semi);
            lemma_window_split(toks, i, pr, we);
            lemma_window_first(toks, i, pr);
            assert(pr[0] == tok(TokenType::Print, "print"@, 1));
            assert(num_count(toks, i + 1) == num_count(toks, i));
            lemma_print_expr_numcount(toks, i + 1, e, texts, p);
            lemma_window_first(toks, i + 1 + we.len(), semi);
            assert(semi[0] == tok(TokenType::Semicolon, seq![';'], 1));
            assert(num_count(toks, i + 1 + we.len() + 1) == num_count(toks, i + 1 + we.len()));
        },
        StmtV::Var(name, init) => {
            match init {
                Some(e) => {
                    let hdr = seq![
                        tok(TokenType::Var, "var"@, 1),
                        name,
                        tok(TokenType::Equal, seq!['='], 1),
                    ];
                    let we = print_expr(e, texts, p);
                    lemma_window_split(toks, i, hdr + we, semi);
                    lemma_window_split(toks, i, hdr, we);
                    assert(hdr[0] == tok(TokenType::Var, "var"@, 1));
                    assert(hdr[1] == name);
                    assert(hdr[2] == tok(TokenType::Equal, seq!['='], 1));
                    assert(toks[i] == hdr[0]);
                    assert(toks[i + 1] == hdr[1]);
                    assert(toks[i + 2] == hdr[2]);
                    assert(num_count(toks, i + 1) == num_count(toks, i));
                    assert(num_count(toks, i + 2) == num_count(toks, i + 1));
                    assert(num_count(toks, i + 3) == num_count(toks, i + 2));
                    lemma_print_expr_numcount(toks, i + 3, e, texts, p);
                    lemma_window_first(toks, i + 3 + we.len(), semi);
                    assert(semi[0] == tok(TokenType::Semicolon, seq![';'], 1));
                    assert(num_count(toks, i + 3 + we.len() + 1) == num_count(
                        toks,
                        i + 3 + we.len(),
                    ));
                },
                None => {
                    let w = print_stmt(s, texts, p);
                    assert(w[0] == tok(TokenType::Var, "var"@, 1));
                    assert(w[1] == name);
                    assert(w[2] == tok(TokenType::Semicolon, seq![';'], 1));
                    assert(toks[i] == w[0]);
                    assert(toks[i + 1] == w[1]);
                    assert(toks[i + 2] == w[2]);
                    assert(num_count(toks, i + 1) == num_count(toks, i));
                    assert(num_count(toks, i + 2) == num_count(toks, i + 1));
                    assert(num_count(toks, i + 3) == num_count(toks, i + 2));
                },
            }
        },
    }
}

/// Parsing at a printed statement yields exactly that statement and stops
/// right after its terminating `;`.
#[verifier::rlimit(100)]
proof fn lemma_print_stmt_parse(
    toks: Seq<TokenV>,
    vals: Seq<u64>,
    texts: Seq<Seq<char>>,
    i: int,
    p: int,
    s: StmtV,
)
    requires
        stmt_aligned(toks, vals, texts, i, p, s),
        wf_stmt(s),
    ensures
        spec_declaration(toks, vals, i) == Ok::<(StmtV, int), SyntaxErrorV>(
            (s, i + print_stmt(s, texts, p).len()),
        ),
{
    let semi = seq![tok(TokenType::Semicolon, seq![';'], 1)];
    match s {
        StmtV::Expression(e) => {
            let we = print_expr(e, texts, p);
            lemma_print_expr_first(e, texts, p);
            lemma_window_split(toks, i, we, semi);
            lemma_window_first(toks, i, we);
            lemma_window_first(toks, i + we.len(), semi);
            assert(semi[0] == tok(TokenType::Semicolon, seq![';'], 1));
            assert(expr_aligned(toks, vals, texts, i, p, e)) by {
                assert(stmt_number_bits(s) == expr_number_bits(e));
                assert(stmt_number_count(s) == expr_number_count(e));
                assert forall|q: int| 0 <= q < expr_number_count(e) implies vals[p + q]
                    == #[trigger] expr_number_bits(e)[q] by {
                    assert(vals[p + q] == stmt_number_bits(s)[q]);
                }
            }
            assert(!extends_any(peek_kind(toks, i + we.len())));
            lemma_print_expression(toks, vals, texts, i, p, e);
            assert(peek_kind(toks, i + we.len()) == Some(TokenType::Semicolon));
        },
        StmtV::Print(e) => {
            let pr = seq![tok(TokenType::Print, "print"@, 1)];
            let we = print_expr(e, texts, p);
            lemma_window_split(toks, i, pr + we, semi);
            lemma_window_split(toks, i, pr, we);
            lemma_window_first(toks, i, pr);
            assert(pr[0] == tok(TokenType::Print, "print"@, 1));
            lemma_window_first(toks, i + 1 + we.len(), semi);
            assert(semi[0] == tok(TokenType::Semicolon, seq![';'], 1));
            assert(expr_aligned(toks, vals, texts, i + 1, p, e)) by {
                assert(num_count(toks, i + 1) == num_count(toks, i));
                assert(stmt_number_bits(s) == expr_number_bits(e));
                assert(stmt_number_count(s) == expr_number_count(e));
                assert forall|q: int| 0 <= q < expr_number_count(e) implies vals[p + q]
                    == #[trigger] expr_number_bits(e)[q] by {
                    assert(vals[p + q] == stmt_number_bits(s)[q]);
                }
            }
            assert(!extends_any(peek_kind(toks, i + 1 + we.len())));
            lemma_print_expression(toks, vals, texts, i + 1, p, e);
            assert(peek_kind(toks, i + 1 + we.len()) == Some(TokenType::Semicolon));
        },
        StmtV::Var(name, init) => {
            match init {
                Some(e) => {
                    let hdr = seq![
                        tok(TokenType::Var, "var"@, 1),
                        name,
                        tok(TokenType::Equal, seq!['='], 1),
                    ];
                    let we = print_expr(e, texts, p);
                    lemma_window_split(toks, i, hdr + we, semi);
                    lemma_window_split(toks, i, hdr, we);
                    assert(hdr[0] == tok(TokenType::Var, "var"@, 1));
                    assert(hdr[1] == name);
                    assert(hdr[2] == tok(TokenType::Equal, seq!['='], 1));
                    assert(toks[i] == hdr[0]);
                    assert(toks[i + 1] == hdr[1]);
                    assert(toks[i + 2] == hdr[2]);
                    lemma_window_first(toks, i + 3 + we.len(), semi);
                    assert(semi[0] == tok(TokenType::Semicolon, seq![';'], 1));
                    assert(expr_aligned(toks, vals, texts, i + 3, p, e)) by {
                        assert(num_count(toks, i + 1) == num_count(toks, i));
                        assert(num_count(toks, i + 2) == num_count(toks, i + 1));
                        assert(num_count(toks, i + 3) == num_count(toks, i + 2));
                        assert(stmt_number_bits(s) == expr_number_bits(e));
                        assert(stmt_number_count(s) == expr_number_count(e));
                        assert forall|q: int| 0 <= q < expr_number_count(e) implies vals[p + q]
                            == #[trigger] expr_number_bits(e)[q] by {
                            assert(vals[p + q] == stmt_number_bits(s)[q]);
                        }
                    }
                    assert(!extends_any(peek_kind(toks, i + 3 + we.len())));
                    lemma_print_expression(toks, vals, texts, i + 3, p, e);
                    assert(peek_kind(toks, i + 3 + we.len()) == Some(TokenType::Semicolon));
                    assert(spec_var_declaration(toks, vals, i + 1) == Ok::<
                        (StmtV, int),
                        SyntaxErrorV,
                    >((StmtV::Var(toks[i + 1], Some(e)), i + 3 + we.len() + 1)));
                },
                None => {
                    let w = print_stmt(s, texts, p);
                    assert(w[0] == tok(TokenType::Var, "var"@, 1));
                    assert(w[1] == name);
                    assert(w[2] == tok(TokenType::Semicolon, seq![';'], 1));
                    assert(toks[i] == w[0]);
                    assert(toks[i + 1] == w[1]);
                    assert(toks[i + 2] == w[2]);
                    assert(spec_var_declaration(toks, vals, i + 1) == Ok::<
                        (StmtV, int),
                        SyntaxErrorV,
                    >((StmtV::Var(toks[i + 1], None), i + 3)));
                },
            }
        },
    }
}

/// Parsing at a printed program, with the end of input (or the end-of-input
/// marker) right after it, yields exactly that statement sequence.
#[verifier::rlimit(60)]
proof fn lemma_print_program_parse(
    toks: Seq<TokenV>,
    vals: Seq<u64>,
    texts: Seq<Seq<char>>,
    i: int,
    p: int,
    stmts: Seq<StmtV>,
)
    requires
        window_at(toks, i, print_program(stmts, texts, p)),
        num_count(toks, i) == p,
        0 <= p,
        p + program_number_count(stmts) <= vals.len(),
        forall|q: int|
            0 <= q < program_number_count(stmts) ==> vals[p + q]
                == #[trigger] program_number_bits(stmts)[q],
        wf_program(stmts),
        spec_at_end(toks, i + print_program(stmts, texts, p).len()),
    ensures
        spec_program(toks, vals, i) == Ok::<Seq<StmtV>, SyntaxErrorV>(stmts),
    decreases stmts.len(),
{
    if stmts.len() == 0 {
        assert(stmts =~= Seq::<StmtV>::empty());
    } else {
        let s0 = stmts[0];
        let ws = print_stmt(s0, texts, p);
        let wrest = print_program(stmts.skip(1), texts, p + stmt_number_count(s0));
        lemma_window_split(toks, i, ws, wrest);
        lemma_stmt_bits_len(s0);
        lemma_program_bits_len(stmts.skip(1));
        assert(stmt_aligned(toks, vals, texts, i, p, s0)) by {
            assert forall|q: int| 0 <= q < stmt_number_count(s0) implies vals[p + q]
                == #[trigger] stmt_number_bits(s0)[q] by {
                assert(program_number_bits(stmts) == stmt_number_bits(s0) + program_number_bits(
                    stmts.skip(1),
                ));
                assert(program_number_bits(stmts)[q] == stmt_number_bits(s0)[q]);
            }
        }
        lemma_print_stmt_shape(toks, vals, texts, i, p, s0);
        lemma_print_stmt_parse(toks, vals, texts, i, p, s0);
        let mid = i + ws.len();
        assert(!spec_at_end(toks, i));
        assert forall|q: int| 0 <= q < program_number_count(stmts.skip(1)) implies vals[p
            + stmt_number_count(s0) + q] == #[trigger] program_number_bits(stmts.skip(1))[q] by {
            assert(program_number_bits(stmts) == stmt_number_bits(s0) + program_number_bits(
                stmts.skip(1),
            ));
            assert(program_number_bits(stmts)[stmt_number_count(s0) + q]
                == program_number_bits(stmts.skip(1))[q]);
        }
        lemma_print_program_parse(toks, vals, texts, mid, p + stmt_number_count(s0), stmts.skip(1));
        assert(spec_program(toks, vals, mid) == Ok::<Seq<StmtV>, SyntaxErrorV>(stmts.skip(1)));
        assert(seq![s0] + stmts.skip(1) =~= stmts);
    }
}

/// Parsing the printed tokens of a grammar-respecting program (with the
/// end-of-input marker appended, as a scan supplies it), against the
/// program's own number-literal bits, yields the program back exactly.
pub proof fn lemma_parse_of_printed(stmts: Seq<StmtV>, texts: Seq<Seq<char>>)
    requires
        wf_program(stmts),
    ensures
        spec_program(
            print_program(stmts, texts, 0) + seq![tok(TokenType::Eof, Seq::<char>::empty(), 1)],
            program_number_bits(stmts),
            0,
        ) == Ok::<Seq<StmtV>, SyntaxErrorV>(stmts),
{
    let w = print_program(stmts, texts, 0);
    let eof = tok(TokenType::Eof, Seq::<char>::empty(), 1);
    let toks = w + seq![eof];
    let vals = program_number_bits(stmts);
    lemma_program_bits_len(stmts);
    assert(window_at(toks, 0, w)) by {
        assert forall|m: int| 0 <= m < w.len() implies #[trigger] w[m] == toks[0 + m] by {
            assert((w + seq![eof])[m] == w[m]);
        }
    }
    assert(toks[w.len() as int] == eof) by {
        assert((w + seq![eof])[w.len() as int] == seq![eof][0]);
        assert(seq![eof][0] == eof);
    }
    assert(spec_at_end(toks, w.len() as int));
    lemma_print_program_parse(toks, vals, texts, 0, 0, stmts);
}

/// Tokens fit for re-scanning: well-formed lexemes, no end-of-input marker,
/// no newline inside a lexeme, every token on line 1.
pub open spec fn printable_tokens(w: Seq<TokenV>) -> bool {
    forall|j: int|
        0 <= j < w.len() ==> crate::rescan::wf_lexeme(#[trigger] w[j]) && w[j].token_type
            != TokenType::Eof && crate::rescan::no_newline(w[j].lexeme) && w[j].line == 1
}

proof fn lemma_printable_concat(a: Seq<TokenV>, b: Seq<TokenV>)
    requires
        printable_tokens(a),
        printable_tokens(b),
    ensures
        printable_tokens(a + b),
{
    assert forall|j: int| 0 <= j < (a + b).len() implies crate::rescan::wf_lexeme(
        #[trigger] (a + b)[j],
    ) && (a + b)[j].token_type != TokenType::Eof && crate::rescan::no_newline((a + b)[j].lexeme)
        && (a + b)[j].line == 1 by {
        if j < a.len() {
            assert((a + b)[j] == a[j]);
        } else {
            assert((a + b)[j] == b[j - a.len()]);
        }
    }
}

proof fn lemma_printable_one(t: TokenV)
    requires
        crate::rescan::wf_lexeme(t),
        t.token_type != TokenType::Eof,
        crate::rescan::no_newline(t.lexeme),
        t.line == 1,
    ensures
        printable_tokens(seq![t]),
{
    assert(seq![t][0] == t);
}

/// A numeric lexeme holds no newline: every character is a digit or `.`.
proof fn lemma_number_no_newline(lex: Seq<char>)
    requires
        crate::rescan::wf_number_lexeme(lex),
    ensures
        crate::rescan::no_newline(lex),
{
    crate::scanner::lemma_digit_end_bounds(lex, 0);
    let d = crate::scanner::digit_end(lex, 0);
    if d < lex.len() {
        crate::scanner::lemma_digit_end_bounds(lex, d + 1);
    }
    assert forall|m: int| 0 <= m < lex.len() implies lex[m] != '\n' by {
        if m < d {
            assert(crate::scanner::is_digit(lex[m]));
            assert(('\n' as u32) == 10);
        } else if m == d {
            assert(lex[m] == '.');
        } else {
            assert(crate::scanner::is_digit(lex[m]));
            assert(('\n' as u32) == 10);
        }
    }
}

/// A non-string well-formed lexeme holds no newline.
proof fn lemma_wf_lexeme_no_newline(t: TokenV)
    requires
        crate::rescan::wf_lexeme(t),
        t.token_type != TokenType::StringLiteral,
    ensures
        crate::rescan::no_newline(t.lexeme),
{
    reveal_strlit("true");
    reveal_strlit("false");
    reveal_strlit("nil");
    reveal_strlit("var");
    reveal_strlit("print");
    match t.token_type {
        TokenType::Number => {
            lemma_number_no_newline(t.lexeme);
        },
        TokenType::Identifier => {
            assert forall|m: int| 0 <= m < t.lexeme.len() implies t.lexeme[m] != '\n' by {
                crate::rescan::lemma_class_disjoint(t.lexeme[m]);
            }
        },
        _ => {
        },
    }
}

/// Every token a well-formed expression prints is fit for re-scanning.
proof fn lemma_print_expr_printable(e: ExprV, texts: Seq<Seq<char>>, p: int)
    requires
        wf_expr(e, 5),
        forall|q: int|
            p <= q < p + expr_number_count(e) ==> crate::rescan::wf_number_lexeme(
                #[trigger] texts[q],
            ),
        expr_number_count(e) >= 0,
    ensures
        printable_tokens(print_expr(e, texts, p)),
    decreases e,
{
    lemma_expr_bits_len(e);
    match e {
        ExprV::Literal(v) => {
            match v {
                ValueV::Boolean(b) => {
                    let t = if b {
                        tok(TokenType::True, "true"@, 1)
                    } else {
                        tok(TokenType::False, "false"@, 1)
                    };
                    lemma_wf_lexeme_no_newline(t);
                    lemma_printable_one(t);
                },
                ValueV::Nil => {
                    let t = tok(TokenType::Nil, "nil"@, 1);
                    lemma_wf_lexeme_no_newline(t);
                    lemma_printable_one(t);
                },
                ValueV::Number(_) => {
                    let t = tok(TokenType::Number, texts[p], 1);
                    assert(crate::rescan::wf_number_lexeme(texts[p]));
                    lemma_number_no_newline(texts[p]);
                    lemma_printable_one(t);
                },
                ValueV::String(sv) => {
                    let lex = seq!['"'] + sv + seq!['"'];
                    let t = tok(TokenType::StringLiteral, lex, 1);
                    assert(lex.len() == sv.len() + 2);
                    assert(lex[0] == '"');
                    assert(lex[lex.len() - 1] == '"');
                    assert forall|m: int| 1 <= m < lex.len() - 1 implies lex[m] != '"' by {
                        assert(lex[m] == sv[m - 1]);
                    }
                    assert(crate::rescan::wf_lexeme(t));
                    assert forall|m: int| 0 <= m < lex.len() implies lex[m] != '\n' by {
                        if 1 <= m < lex.len() - 1 {
                            assert(lex[m] == sv[m - 1]);
                        }
                    }
                    lemma_printable_one(t);
                },
            }
        },
        ExprV::Variable(t) => {
            lemma_wf_lexeme_no_newline(t);
            lemma_printable_one(t);
        },
        ExprV::Grouping(inner) => {
            let lp = tok(TokenType::LeftParen, seq!['('], 1);
            let rp = tok(TokenType::RightParen, seq![')'], 1);
            assert(seq!['('][0] == '(');
            assert(seq![')'][0] == ')');
            lemma_wf_lexeme_no_newline(lp);
            lemma_wf_lexeme_no_newline(rp);
            lemma_printable_one(lp);
            lemma_printable_one(rp);
            lemma_print_expr_printable(*inner, texts, p);
            lemma_printable_concat(seq![lp], print_expr(*inner, texts, p));
            lemma_printable_concat(seq![lp] + print_expr(*inner, texts, p), seq![rp]);
        },
        ExprV::Unary(op, inner) => {
            lemma_wf_lexeme_no_newline(op);
            lemma_printable_one(op);
            lemma_wf_expr_mono(*inner, 1, 5);
            lemma_print_expr_printable(*inner, texts, p);
            lemma_printable_concat(seq![op], print_expr(*inner, texts, p));
        },
        ExprV::Binary(l, op, r) => {
            lemma_wf_binary_sub(e, *l, op, *r);
            lemma_expr_bits_len(*l);
            lemma_expr_bits_len(*r);
            lemma_wf_lexeme_no_newline(op);
            lemma_printable_one(op);
            lemma_print_expr_printable(*l, texts, p);
            lemma_print_expr_printable(*r, texts, p + expr_number_count(*l));
            lemma_printable_concat(print_expr(*l, texts, p), seq![op]);
            lemma_printable_concat(
                print_expr(*l, texts, p) + seq![op],
                print_expr(*r, texts, p + expr_number_count(*l)),
            );
        },
    }
}

/// Every token a well-formed statement prints is fit for re-scanning.
proof fn lemma_print_stmt_printable(s: StmtV, texts: Seq<Seq<char>>, p: int)
    requires
        wf_stmt(s),
        forall|q: int|
            p <= q < p + stmt_number_count(s) ==> crate::rescan::wf_number_lexeme(
                #[trigger] texts[q],
            ),
    ensures
        printable_tokens(print_stmt(s, texts, p)),
{
    let semi = tok(TokenType::Semicolon, seq![';'], 1);
    assert(seq![';'][0] == ';');
    lemma_wf_lexeme_no_newline(semi);
    lemma_printable_one(semi);
    match s {
        StmtV::Expression(e) => {
            lemma_expr_bits_len(e);
            lemma_print_expr_printable(e, texts, p);
            lemma_printable_concat(print_expr(e, texts, p), seq![semi]);
        },
        StmtV::Print(e) => {
            let pr = tok(TokenType::Print, "print"@, 1);
            lemma_wf_lexeme_no_newline(pr);
            lemma_printable_one(pr);
            lemma_expr_bits_len(e);
            lemma_print_expr_printable(e, texts, p);
            lemma_printable_concat(seq![pr], print_expr(e, texts, p));
            lemma_printable_concat(seq![pr] + print_expr(e, texts, p), seq![semi]);
        },
        StmtV::Var(name, init) => {
            let var_tok = tok(TokenType::Var, "var"@, 1);
            lemma_wf_lexeme_no_newline(var_tok);
            lemma_wf_lexeme_no_newline(name);
            match init {
                Some(e) => {
                    let eq = tok(TokenType::Equal, seq!['='], 1);
                    assert(seq!['='][0] == '=');
                    lemma_wf_lexeme_no_newline(eq);
                    let hdr = seq![var_tok, name, eq];
                    assert(printable_tokens(hdr)) by {
                        assert(hdr[0] == var_tok);
                        assert(hdr[1] == name);
                        assert(hdr[2] == eq);
                    }
                    lemma_expr_bits_len(e);
                    lemma_print_expr_printable(e, texts, p);
                    lemma_printable_concat(hdr, print_expr(e, texts, p));
                    lemma_printable_concat(hdr + print_expr(e, texts, p), seq![semi]);
                },
                None => {
                    let w = print_stmt(s, texts, p);
                    assert(printable_tokens(w)) by {
                        assert(w[0] == var_tok);
                        assert(w[1] == name);
                        assert(w[2] == semi);
                    }
                },
            }
        },
    }
}

/// Every token a well-formed program prints is fit for re-scanning.
proof fn lemma_print_program_printable(stmts: Seq<StmtV>, texts: Seq<Seq<char>>, p: int)
    requires
        wf_program(stmts),
        forall|q: int|
            p <= q < p + program_number_count(stmts) ==> crate::rescan::wf_number_lexeme(
                #[trigger] texts[q],
            ),
    ensures
        printable_tokens(print_program(stmts, texts, p)),
    decreases stmts.len(),
{
    if stmts.len() == 0 {
    } else {
        let s0 = stmts[0];
        lemma_stmt_bits_len(s0);
        lemma_program_bits_len(stmts.skip(1));
        lemma_print_stmt_printable(s0, texts, p);
        lemma_print_program_printable(stmts.skip(1), texts, p + stmt_number_count(s0));
        lemma_printable_concat(
            print_stmt(s0, texts, p),
            print_program(stmts.skip(1), texts, p + stmt_number_count(s0)),
        );
    }
}

/// The round trip: scanning the space-joined printed text of a
/// grammar-respecting program (its number literals printed with well-formed
/// numeric texts) succeeds, and parsing the scanned tokens against the
/// program's own number-literal bits yields a structurally equal program.
pub proof fn lemma_print_parse_round_trip(stmts: Seq<StmtV>, texts: Seq<Seq<char>>)
    requires
        wf_program(stmts),
        forall|q: int|
            0 <= q < program_number_count(stmts) ==> crate::rescan::wf_number_lexeme(
                #[trigger] texts[q],
            ),
    ensures
        ({
            let text = crate::rescan::joined_from(print_program(stmts, texts, 0));
            let scanned = crate::scanner::spec_scan(text, 0, 1);
            &&& scanned.outcome is Ok
            &&& spec_program(scanned.outcome.unwrap(), program_number_bits(stmts), 0) == Ok::<
                Seq<StmtV>,
                SyntaxErrorV,
            >(stmts)
        }),
{
    let w = print_program(stmts, texts, 0);
    lemma_program_bits_len(stmts);
    lemma_print_program_printable(stmts, texts, 0);
    let text = crate::rescan::joined_from(w);
    assert(text.subrange(0, text.len() as int) =~= text);
    crate::rescan::lemma_scan_joined(w, text, 0, 1);
    let scanned = crate::scanner::spec_scan(text, 0, 1);
    let rs = scanned.outcome.unwrap();
    let eof = tok(TokenType::Eof, Seq::<char>::empty(), 1);
    assert(forall|j: int| 0 <= j < w.len() ==> crate::rescan::no_newline(#[trigger] w[j].lexeme));
    assert(forall|j: int| 0 <= j < rs.len() ==> (#[trigger] rs[j]).line == 1);
    assert(rs =~= w + seq![eof]) by {
        assert forall|j: int| 0 <= j < rs.len() implies rs[j] =~= (w + seq![eof])[j] by {
            if j < w.len() {
                assert((w + seq![eof])[j] == w[j]);
                assert(rs[j].token_type == w[j].token_type && rs[j].lexeme == w[j].lexeme);
                assert(rs[j].line == 1 && w[j].line == 1);
            } else {
                assert((w + seq![eof])[j] == seq![eof][0]);
                assert(seq![eof][0] == eof);
                assert(rs[j] == rs.last());
                assert(rs.last().token_type == TokenType::Eof);
                assert(rs.last().lexeme == Seq::<char>::empty());
                assert(rs.last().line == 1);
            }
        }
    }
    lemma_parse_of_printed(stmts, texts);
}

/// Appends the tokens that print one expression; `next` indexes the number
/// texts consumed so far.
fn print_expr_tokens(e: &Expr, texts: &Vec<String>, next: &mut usize, out: &mut Vec<Token>)
    requires
        *old(next) + expr_number_count(e@) <= texts@.len(),
    ensures
        *final(next) == *old(next) + expr_number_count(e@),
        final(out).deep_view() == old(out).deep_view() + print_expr(
            e@,
            texts.deep_view(),
            *old(next) as int,
        ),
    decreases e,
{
    proof {
        lemma_expr_bits_len(e@);
    }
    let ghost od = out.deep_view();
    let ghost p = *next as int;
    match e {
        Expr::Literal(v) => {
            match v {
                LiteralValue::Boolean(b) => {
                    let t = if *b {
                        Token {
                            token_type: TokenType::True,
                            lexeme: String::from_str("true"),
                            line: 1,
                        }
                    } else {
                        Token {
                            token_type: TokenType::False,
                            lexeme: String::from_str("false"),
                            line: 1,
                        }
                    };
                    out.push(t);
                    proof {
                        assert(out.deep_view() =~= od + print_expr(e@, texts.deep_view(), p));
                    }
                },
                LiteralValue::Nil => {
                    out.push(
                        Token {
                            token_type: TokenType::Nil,
                            lexeme: String::from_str("nil"),
                            line: 1,
                        },
                    );
                    proof {
                        assert(out.deep_view() =~= od + print_expr(e@, texts.deep_view(), p));
                    }
                },
                LiteralValue::Number(_) => {
                    proof {
                        assert(expr_number_count(e@) == 1);
                    }
                    let texts_len: usize = texts.len();
                    proof {
                        assert(*next < texts_len);
                    }
                    let lexeme = texts[*next].clone();
                    *next = *next + 1;
                    out.push(Token { token_type: TokenType::Number, lexeme, line: 1 });
                    proof {
                        assert(texts@[p].deep_view() == texts.deep_view()[p]);
                        assert(out.deep_view() =~= od + print_expr(e@, texts.deep_view(), p));
                    }
                },
                LiteralValue::String(sv) => {
                    let mut lexeme = String::from_str("\"");
                    lexeme.append(sv.as_str());
                    lexeme.append("\"");
                    proof {
                        reveal_strlit("\"");
                        assert(lexeme@ =~= seq!['"'] + sv@ + seq!['"']);
                    }
                    out.push(Token { token_type: TokenType::StringLiteral, lexeme, line: 1 });
                    proof {
                        assert(out.deep_view() =~= od + print_expr(e@, texts.deep_view(), p));
                    }
                },
            }
        },
        Expr::Variable(t) => {
            out.push(t.duplicate());
            proof {
                assert(out.deep_view() =~= od + print_expr(e@, texts.deep_view(), p));
            }
        },
        Expr::Grouping(inner) => {
            out.push(
                Token {
                    token_type: TokenType::LeftParen,
                    lexeme: String::from_str("("),
                    line: 1,
                },
            );
            proof {
                reveal_strlit("(");
                assert("("@ =~= seq!['(']);
                assert(out.deep_view() =~= od + seq![tok(TokenType::LeftParen, seq!['('], 1)]);
            }
            let ghost od1 = out.deep_view();
            print_expr_tokens(inner, texts, next, out);
            out.push(
                Token {
                    token_type: TokenType::RightParen,
                    lexeme: String::from_str(")"),
                    line: 1,
                },
            );
            proof {
                reveal_strlit(")");
                assert(")"@ =~= seq![')']);
                assert(out.deep_view() =~= (od1 + print_expr(inner@, texts.deep_view(), p)).push(
                    tok(TokenType::RightParen, seq![')'], 1),
                ));
                assert(out.deep_view() =~= od + print_expr(e@, texts.deep_view(), p));
            }
        },
        Expr::Unary(op, inner) => {
            out.push(op.duplicate());
            proof {
                assert(out.deep_view() =~= od + seq![op@]);
            }
            print_expr_tokens(inner, texts, next, out);
            proof {
                assert(out.deep_view() =~= od + print_expr(e@, texts.deep_view(), p));
            }
        },
        Expr::Binary(l, op, r) => {
            proof {
                lemma_expr_bits_len(expr_view(**l));
                lemma_expr_bits_len(expr_view(**r));
            }
            print_expr_tokens(l, texts, next, out);
            let ghost od1 = out.deep_view();
            out.push(op.duplicate());
            proof {
                assert(out.deep_view() =~= od1.push(op@));
            }
            print_expr_tokens(r, texts, next, out);
            proof {
                assert(out.deep_view() =~= od + print_expr(e@, texts.deep_view(), p));
            }
        },
    }
}

/// Appends the tokens that print one statement, ending with its `;`.
fn print_stmt_tokens(s: &Statement, texts: &Vec<String>, next: &mut usize, out: &mut Vec<Token>)
    requires
        *old(next) + stmt_number_count(s@) <= texts@.len(),
    ensures
        *final(next) == *old(next) + stmt_number_count(s@),
        final(out).deep_view() == old(out).deep_view() + print_stmt(
            s@,
            texts.deep_view(),
            *old(next) as int,
        ),
{
    let ghost od = out.deep_view();
    let ghost p = *next as int;
    match s {
        Statement::Expression(e) => {
            print_expr_tokens(e, texts, next, out);
            let ghost od1 = out.deep_view();
            out.push(
                Token {
                    token_type: TokenType::Semicolon,
                    lexeme: String::from_str(";"),
                    line: 1,
                },
            );
            proof {
                reveal_strlit(";");
                assert(";"@ =~= seq![';']);
                assert(out.deep_view() =~= od1.push(tok(TokenType::Semicolon, seq![';'], 1)));
                assert(out.deep_view() =~= od + print_stmt(s@, texts.deep_view(), p));
            }
        },
        Statement::Print(e) => {
            out.push(
                Token {
                    token_type: TokenType::Print,
                    lexeme: String::from_str("print"),
                    line: 1,
                },
            );
            proof {
                assert(out.deep_view() =~= od.push(tok(TokenType::Print, "print"@, 1)));
                assert(od.push(tok(TokenType::Print, "print"@, 1)) =~= od + seq![
                    tok(TokenType::Print, "print"@, 1),
                ]);
            }
            print_expr_tokens(e, texts, next, out);
            let ghost od2 = out.deep_view();
            out.push(
                Token {
                    token_type: TokenType::Semicolon,
                    lexeme: String::from_str(";"),
                    line: 1,
                },
            );
            proof {
                reveal_strlit(";");
                assert(";"@ =~= seq![';']);
                assert(out.deep_view() =~= od2.push(tok(TokenType::Semicolon, seq![';'], 1)));
                assert(out.deep_view() =~= od + print_stmt(s@, texts.deep_view(), p));
            }
        },
        Statement::Var(name, init) => {
            out.push(
                Token { token_type: TokenType::Var, lexeme: String::from_str("var"), line: 1 },
            );
            proof {
                assert(out.deep_view() =~= od.push(tok(TokenType::Var, "var"@, 1)));
            }
            let ghost odv = out.deep_view();
            out.push(name.duplicate());
            proof {
                assert(out.deep_view() =~= odv.push(name@));
            }
            match init {
                Some(e) => {
                    out.push(
                        Token {
                            token_type: TokenType::Equal,
                            lexeme: String::from_str("="),
                            line: 1,
                        },
                    );
                    proof {
                        reveal_strlit("=");
                        assert("="@ =~= seq!['=']);
                        assert(out.deep_view() =~= od + seq![
                            tok(TokenType::Var, "var"@, 1),
                            name@,
                            tok(TokenType::Equal, seq!['='], 1),
                        ]);
                    }
                    print_expr_tokens(e, texts, next, out);
                    let ghost od3 = out.deep_view();
                    out.push(
                        Token {
                            token_type: TokenType::Semicolon,
                            lexeme: String::from_str(";"),
                            line: 1,
                        },
                    );
                    proof {
                        reveal_strlit(";");
                        assert(";"@ =~= seq![';']);
                        assert(out.deep_view() =~= od3.push(tok(TokenType::Semicolon, seq![';'], 1)));
                        assert(out.deep_view() =~= od + print_stmt(s@, texts.deep_view(), p));
                    }
                },
                None => {
                    let ghost od4 = out.deep_view();
                    out.push(
                        Token {
                            token_type: TokenType::Semicolon,
                            lexeme: String::from_str(";"),
                            line: 1,
                        },
                    );
                    proof {
                        reveal_strlit(";");
                        assert(";"@ =~= seq![';']);
                        assert(out.deep_view() =~= od4.push(tok(TokenType::Semicolon, seq![';'], 1)));
                        assert(out.deep_view() =~= od + print_stmt(s@, texts.deep_view(), p));
                    }
                },
            }
        },
    }
}

/// The tokens that print a program back into source-like form, every token
/// on line 1. `number_texts` holds the decimal text of each number literal,
/// in literal order, as the driver formats them.
pub fn print_tokens(statements: &Vec<Statement>, number_texts: &Vec<String>) -> (r: Vec<Token>)
    requires
        program_number_count(statements.deep_view()) <= number_texts@.len(),
    ensures
        r.deep_view() == print_program(statements.deep_view(), number_texts.deep_view(), 0),
{
    let ghost stmts = statements.deep_view();
    let mut out: Vec<Token> = Vec::new();
    let mut next: usize = 0;
    let n: usize = statements.len();
    let mut i: usize = 0;
    proof {
        assert(out.deep_view() =~= Seq::<TokenV>::empty());
        lemma_program_bits_len(stmts);
        assert(stmts.skip(0) =~= stmts);
        assert(Seq::<TokenV>::empty() + print_program(stmts, number_texts.deep_view(), 0)
            =~= print_program(stmts, number_texts.deep_view(), 0));
    }
    while i < n
        invariant
            n == stmts.len(),
            stmts == statements.deep_view(),
            0 <= i <= n,
            next as int + program_number_count(stmts.skip(i as int)) <= number_texts@.len(),
            program_number_count(stmts.skip(i as int)) >= 0,
            print_program(stmts, number_texts.deep_view(), 0) == out.deep_view() + print_program(
                stmts.skip(i as int),
                number_texts.deep_view(),
                next as int,
            ),
        decreases n - i,
    {
        let ghost od = out.deep_view();
        let ghost p = next as int;
        proof {
            assert(stmts.skip(i as int)[0] == stmts[i as int]);
            lemma_stmt_bits_len(stmts[i as int]);
            lemma_program_bits_len(stmts.skip(i as int + 1));
            assert(stmts.skip(i as int).skip(1) =~= stmts.skip(i as int + 1));
        }
        print_stmt_tokens(&statements[i], number_texts, &mut next, &mut out);
        i = i + 1;
        proof {
            assert(print_program(stmts.skip(i - 1), number_texts.deep_view(), p) == print_stmt(
                stmts[i - 1],
                number_texts.deep_view(),
                p,
            ) + print_program(stmts.skip(i as int), number_texts.deep_view(), next as int));
            assert(od + (print_stmt(stmts[i - 1], number_texts.deep_view(), p) + print_program(
                stmts.skip(i as int),
                number_texts.deep_view(),
                next as int,
            )) =~= (od + print_stmt(stmts[i - 1], number_texts.deep_view(), p)) + print_program(
                stmts.skip(i as int),
                number_texts.deep_view(),
                next as int,
            ));
        }
    }
    proof {
        assert(stmts.skip(n as int).len() == 0);
        assert(print_program(stmts.skip(n as int), number_texts.deep_view(), next as int)
            =~= Seq::<TokenV>::empty());
        assert(out.deep_view() + Seq::<TokenV>::empty() =~= out.deep_view());
    }
    out
}

/// The printed text: every token's lexeme followed by one space.
pub fn print_text(tokens: &Vec<Token>) -> (r: String)
    ensures
        r@ == crate::rescan::joined_from(tokens.deep_view()),
{
    let ghost ts = tokens.deep_view();
    let mut r = String::new();
    let n: usize = tokens.len();
    let mut i: usize = 0;
    proof {
        assert(r@ =~= Seq::<char>::empty());
        assert(ts.skip(0) =~= ts);
        assert(Seq::<char>::empty() + crate::rescan::joined_from(ts) =~= crate::rescan::joined_from(
            ts,
        ));
    }
    while i < n
        invariant
            n == ts.len(),
            ts == tokens.deep_view(),
            0 <= i <= n,
            crate::rescan::joined_from(ts) == r@ + crate::rescan::joined_from(
                ts.skip(i as int),
            ),
        decreases n - i,
    {
        let ghost r0 = r@;
        r.append(tokens[i].lexeme.as_str());
        r.append(" ");
        proof {
            reveal_strlit(" ");
            assert(r@ =~= r0 + ts[i as int].lexeme + seq![' ']);
            assert(ts.skip(i as int)[0] == ts[i as int]);
            assert(ts.skip(i as int).skip(1) =~= ts.skip(i as int + 1));
            assert(crate::rescan::joined_from(ts.skip(i as int)) == ts[i as int].lexeme + seq![
                ' ',
            ] + crate::rescan::joined_from(ts.skip(i as int + 1)));
            assert(r0 + (ts[i as int].lexeme + seq![' '] + crate::rescan::joined_from(
                ts.skip(i as int + 1),
            )) =~= (r0 + ts[i as int].lexeme + seq![' ']) + crate::rescan::joined_from(
                ts.skip(i as int + 1),
            ));
        }
        i = i + 1;
    }
    proof {
        assert(crate::rescan::joined_from(ts.skip(n as int)) =~= Seq::<char>::empty());
        assert(r@ + Seq::<char>::empty() =~= r@);
    }
    r
}

} // verus!
