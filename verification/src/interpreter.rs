//! The evaluator: walks the statement and expression trees, producing values
//! and buffered print output, against a mutable environment chain.
//!
//! Number values are IEEE-754 doubles carried as their 64-bit representation.
//! The evaluator never computes a floating-point operation itself: when one
//! is needed it stops with a [`NumberQuery`], and the driver runs the whole
//! program again with the answer appended to the answer tape. Evaluation is
//! deterministic in the program, the starting environment and the tape, so
//! each re-run retraces the same path and consumes the same answers in the
//! same order.

use vstd::prelude::*;
use vstd::string::StringExecFns;
use vstd::string::StrSliceExecFns;
use crate::environment::{env_define, env_lookup, Environment, EnvV, LookupV};
use crate::expression::{Expr, ExprV, LiteralValue, ValueV};
use crate::statement::{Statement, StmtV};
use crate::token::{Token, TokenType, TokenV};

verus! {

/// A fatal evaluation-time failure. Every variant aborts the remainder of
/// the current program's evaluation.
#[derive(Debug, PartialEq)]
pub enum RuntimeError {
    /// A name was read that no enclosing scope defines.
    UndefinedVariable { name: String },
    /// A name was read whose binding was declared without an initializer and
    /// never assigned.
    UninitializedVariable { name: String },
    /// The two operands of a binary operator have different types.
    TypeMismatch { operator: Token },
    /// The operator is not supported for the type of its operand(s).
    UnsupportedOperation { operator: Token },
}

/// The mathematical image of a [`RuntimeError`].
pub enum RuntimeErrorV {
    UndefinedVariable(Seq<char>),
    UninitializedVariable(Seq<char>),
    TypeMismatch(TokenV),
    UnsupportedOperation(TokenV),
}

impl View for RuntimeError {
    type V = RuntimeErrorV;

    open spec fn view(&self) -> RuntimeErrorV {
        match self {
            RuntimeError::UndefinedVariable { name } => RuntimeErrorV::UndefinedVariable(name@),
            RuntimeError::UninitializedVariable { name } => RuntimeErrorV::UninitializedVariable(
                name@,
            ),
            RuntimeError::TypeMismatch { operator } => RuntimeErrorV::TypeMismatch(operator@),
            RuntimeError::UnsupportedOperation { operator } => RuntimeErrorV::UnsupportedOperation(
                operator@,
            ),
        }
    }
}

/// An arithmetic operation on two IEEE-754 doubles.
#[derive(Clone, Copy, Debug, PartialEq, Eq, Structural)]
pub enum ArithOp {
    Add,
    Subtract,
    Multiply,
    Divide,
}

/// A comparison of two IEEE-754 doubles (IEEE semantics, not bit equality).
#[derive(Clone, Copy, Debug, PartialEq, Eq, Structural)]
pub enum CompareOp {
    Equal,
    NotEqual,
    Greater,
    GreaterEqual,
    Less,
    LessEqual,
}

/// What the evaluator asks the driver to compute with real floating-point
/// arithmetic. Every `u64` is the bit representation of a double.
#[derive(Clone, Copy, Debug, PartialEq, Eq, Structural)]
pub enum NumberQuery {
    /// The bits of `lhs op rhs`.
    Arithmetic { op: ArithOp, lhs: u64, rhs: u64 },
    /// The truth of `lhs op rhs`.
    Comparison { op: CompareOp, lhs: u64, rhs: u64 },
    /// The bits of `-operand`.
    Negation { operand: u64 },
    /// The decimal text that displays `operand`.
    Text { operand: u64 },
}

/// One answer on the tape: what the driver computed for a query.
#[derive(Debug, Clone, PartialEq)]
pub enum Answer {
    Bits(u64),
    Truth(bool),
    Text(String),
}

/// The mathematical image of an [`Answer`].
pub enum AnswerV {
    Bits(u64),
    Truth(bool),
    Text(Seq<char>),
}

impl View for Answer {
    type V = AnswerV;

    open spec fn view(&self) -> AnswerV {
        match self {
            Answer::Bits(b) => AnswerV::Bits(*b),
            Answer::Truth(t) => AnswerV::Truth(*t),
            Answer::Text(s) => AnswerV::Text(s@),
        }
    }
}

impl DeepView for Answer {
    type V = AnswerV;

    open spec fn deep_view(&self) -> AnswerV {
        self.view()
    }
}

/// Why evaluation stopped short of a value.
#[derive(Debug, PartialEq)]
pub enum Stop {
    /// A fatal runtime error.
    Fail(RuntimeError),
    /// A number operation whose answer is not on the tape yet.
    Need(NumberQuery),
}

/// The mathematical image of a [`Stop`].
pub enum StopV {
    Fail(RuntimeErrorV),
    Need(NumberQuery),
}

impl View for Stop {
    type V = StopV;

    open spec fn view(&self) -> StopV {
        match self {
            Stop::Fail(e) => StopV::Fail(e@),
            Stop::Need(q) => StopV::Need(*q),
        }
    }
}

/// The arithmetic operation of an operator token kind, if any.
pub open spec fn arith_of_kind(k: TokenType) -> Option<ArithOp> {
    match k {
        TokenType::Plus => Some(ArithOp::Add),
        TokenType::Minus => Some(ArithOp::Subtract),
        TokenType::Star => Some(ArithOp::Multiply),
        TokenType::Slash => Some(ArithOp::Divide),
        _ => None,
    }
}

/// The comparison operation of an operator token kind, if any.
pub open spec fn compare_of_kind(k: TokenType) -> Option<CompareOp> {
    match k {
        TokenType::EqualEqual => Some(CompareOp::Equal),
        TokenType::BangEqual => Some(CompareOp::NotEqual),
        TokenType::Greater => Some(CompareOp::Greater),
        TokenType::GreaterEqual => Some(CompareOp::GreaterEqual),
        TokenType::Less => Some(CompareOp::Less),
        TokenType::LessEqual => Some(CompareOp::LessEqual),
        _ => None,
    }
}

/// Reads a bits answer at `k`, or stops with the query.
pub open spec fn spec_take_bits(tape: Seq<AnswerV>, k: int, q: NumberQuery) -> Result<
    (ValueV, int),
    StopV,
> {
    if 0 <= k < tape.len() {
        match tape[k] {
            AnswerV::Bits(b) => Ok((ValueV::Number(b), k + 1)),
            _ => Err(StopV::Need(q)),
        }
    } else {
        Err(StopV::Need(q))
    }
}

/// Reads a truth answer at `k`, or stops with the query.
pub open spec fn spec_take_truth(tape: Seq<AnswerV>, k: int, q: NumberQuery) -> Result<
    (ValueV, int),
    StopV,
> {
    if 0 <= k < tape.len() {
        match tape[k] {
            AnswerV::Truth(t) => Ok((ValueV::Boolean(t), k + 1)),
            _ => Err(StopV::Need(q)),
        }
    } else {
        Err(StopV::Need(q))
    }
}

/// Reads a text answer at `k`, or stops with the query.
pub open spec fn spec_take_text(tape: Seq<AnswerV>, k: int, q: NumberQuery) -> Result<
    (Seq<char>, int),
    StopV,
> {
    if 0 <= k < tape.len() {
        match tape[k] {
            AnswerV::Text(t) => Ok((t, k + 1)),
            _ => Err(StopV::Need(q)),
        }
    } else {
        Err(StopV::Need(q))
    }
}

/// The value of one binary operation, given both operand values. The
/// supported combinations: two booleans under `==` and `!=`; two numbers
/// under arithmetic and comparison (through the tape); two strings under `+`
/// (concatenation). A mismatched pair is a type-mismatch error; a matched
/// pair under any other operator is an unsupported-operation error.
pub open spec fn spec_apply_binary(
    op: TokenV,
    lv: ValueV,
    rv: ValueV,
    tape: Seq<AnswerV>,
    k: int,
) -> Result<(ValueV, int), StopV> {
    match (lv, rv) {
        (ValueV::Boolean(a), ValueV::Boolean(b)) => {
            if op.token_type == TokenType::EqualEqual {
                Ok((ValueV::Boolean(a == b), k))
            } else if op.token_type == TokenType::BangEqual {
                Ok((ValueV::Boolean(a != b), k))
            } else {
                Err(StopV::Fail(RuntimeErrorV::UnsupportedOperation(op)))
            }
        },
        (ValueV::Number(a), ValueV::Number(b)) => match arith_of_kind(op.token_type) {
            Some(aop) => spec_take_bits(
                tape,
                k,
                NumberQuery::Arithmetic { op: aop, lhs: a, rhs: b },
            ),
            None => match compare_of_kind(op.token_type) {
                Some(cop) => spec_take_truth(
                    tape,
                    k,
                    NumberQuery::Comparison { op: cop, lhs: a, rhs: b },
                ),
                None => Err(StopV::Fail(RuntimeErrorV::UnsupportedOperation(op))),
            },
        },
        (ValueV::String(a), ValueV::String(b)) => {
            if op.token_type == TokenType::Plus {
                Ok((ValueV::String(a + b), k))
            } else {
                Err(StopV::Fail(RuntimeErrorV::UnsupportedOperation(op)))
            }
        },
        _ => Err(StopV::Fail(RuntimeErrorV::TypeMismatch(op))),
    }
}

/// The value of an expression under an environment and an answer tape, with
/// the tape position threaded through. Evaluation is left to right: a left
/// operand's failure is reported before the right operand is considered.
pub open spec fn spec_eval_expr(e: ExprV, env: EnvV, tape: Seq<AnswerV>, k: int) -> Result<
    (ValueV, int),
    StopV,
>
    decreases e,
{
    match e {
        ExprV::Literal(v) => Ok((v, k)),
        ExprV::Grouping(inner) => spec_eval_expr(*inner, env, tape, k),
        ExprV::Variable(t) => match env_lookup(env, t.lexeme) {
            LookupV::Value(v) => Ok((v, k)),
            LookupV::Uninitialized => Err(
                StopV::Fail(RuntimeErrorV::UninitializedVariable(t.lexeme)),
            ),
            LookupV::Missing => Err(StopV::Fail(RuntimeErrorV::UndefinedVariable(t.lexeme))),
        },
        ExprV::Unary(op, inner) => match spec_eval_expr(*inner, env, tape, k) {
            Ok((v, k1)) => match v {
                ValueV::Boolean(b) => {
                    if op.token_type == TokenType::Bang {
                        Ok((ValueV::Boolean(!b), k1))
                    } else {
                        Err(StopV::Fail(RuntimeErrorV::UnsupportedOperation(op)))
                    }
                },
                ValueV::Number(a) => {
                    if op.token_type == TokenType::Minus {
                        spec_take_bits(tape, k1, NumberQuery::Negation { operand: a })
                    } else {
                        Err(StopV::Fail(RuntimeErrorV::UnsupportedOperation(op)))
                    }
                },
                _ => Err(StopV::Fail(RuntimeErrorV::UnsupportedOperation(op))),
            },
            Err(s) => Err(s),
        },
        ExprV::Binary(l, op, r) => match spec_eval_expr(*l, env, tape, k) {
            Ok((lv, k1)) => match spec_eval_expr(*r, env, tape, k1) {
                Ok((rv, k2)) => spec_apply_binary(op, lv, rv, tape, k2),
                Err(s) => Err(s),
            },
            Err(s) => Err(s),
        },
    }
}

/// The textual representation of a value, as the print statement emits it:
/// `true`, `false`, `nil`, the driver-formatted decimal text of a number, or
/// a string in quotes.
pub open spec fn spec_value_text(v: ValueV, tape: Seq<AnswerV>, k: int) -> Result<
    (Seq<char>, int),
    StopV,
> {
    match v {
        ValueV::Boolean(b) => Ok((if b { "true"@ } else { "false"@ }, k)),
        ValueV::Nil => Ok(("nil"@, k)),
        ValueV::Number(a) => spec_take_text(tape, k, NumberQuery::Text { operand: a }),
        ValueV::String(s) => Ok((seq!['"'] + s + seq!['"'], k)),
    }
}

/// The effect of one statement: the environment after it, the output after
/// it, and the tape position after it.
pub open spec fn spec_exec_stmt(
    s: StmtV,
    env: EnvV,
    out: Seq<Seq<char>>,
    tape: Seq<AnswerV>,
    k: int,
) -> Result<(EnvV, Seq<Seq<char>>, int), StopV> {
    match s {
        StmtV::Expression(e) => match spec_eval_expr(e, env, tape, k) {
            Ok((v, k1)) => Ok((env, out, k1)),
            Err(s) => Err(s),
        },
        StmtV::Print(e) => match spec_eval_expr(e, env, tape, k) {
            Ok((v, k1)) => match spec_value_text(v, tape, k1) {
                Ok((txt, k2)) => Ok((env, out.push(txt), k2)),
                Err(s) => Err(s),
            },
            Err(s) => Err(s),
        },
        StmtV::Var(name, init) => match init {
            Some(e) => match spec_eval_expr(e, env, tape, k) {
                Ok((v, k1)) => Ok((env_define(env, name.lexeme, Some(v)), out, k1)),
                Err(s) => Err(s),
            },
            None => Ok((env_define(env, name.lexeme, None), out, k)),
        },
    }
}

/// How a run over a statement sequence ends.
pub enum InterpV {
    /// Every statement ran; the environment and output after the last one,
    /// and how many answers were consumed.
    Done { env: EnvV, output: Seq<Seq<char>>, used: int },
    /// A fatal error; the environment and output are those from just before
    /// the failing statement.
    Failed { env: EnvV, output: Seq<Seq<char>>, error: RuntimeErrorV },
    /// A number operation has no answer on the tape yet.
    Need { query: NumberQuery },
}

/// The run of the statements from index `i` on, in order, each to completion
/// before the next, halting on the first fatal error.
pub open spec fn spec_interpret_from(
    stmts: Seq<StmtV>,
    i: int,
    env: EnvV,
    out: Seq<Seq<char>>,
    tape: Seq<AnswerV>,
    k: int,
) -> InterpV
    decreases stmts.len() - i,
{
    if i < 0 || i >= stmts.len() {
        InterpV::Done { env, output: out, used: k }
    } else {
        match spec_exec_stmt(stmts[i], env, out, tape, k) {
            Ok((env2, out2, k2)) => spec_interpret_from(stmts, i + 1, env2, out2, tape, k2),
            Err(StopV::Fail(e)) => InterpV::Failed { env, output: out, error: e },
            Err(StopV::Need(q)) => InterpV::Need { query: q },
        }
    }
}

/// The run of a whole program from its first statement, with empty output
/// and the tape read from its start.
pub open spec fn spec_interpret(stmts: Seq<StmtV>, env: EnvV, tape: Seq<AnswerV>) -> InterpV {
    spec_interpret_from(stmts, 0, env, Seq::<Seq<char>>::empty(), tape, 0)
}

/// Evaluating a variable reference to a name that no scope of the
/// environment chain binds fails with the undefined-variable error, whatever
/// the tape holds.
pub proof fn lemma_undefined_variable(name: TokenV, env: EnvV, tape: Seq<AnswerV>, k: int)
    requires
        forall|i: int| 0 <= i < env.len() ==> !(#[trigger] env[i]).contains_key(name.lexeme),
    ensures
        spec_eval_expr(ExprV::Variable(name), env, tape, k) == Err::<(ValueV, int), StopV>(
            StopV::Fail(RuntimeErrorV::UndefinedVariable(name.lexeme)),
        ),
{
    crate::environment::lemma_lookup_missing(env, name.lexeme);
}

/// Reads a bits answer, or stops with the query.
fn take_bits(answers: &Vec<Answer>, used: &mut usize, query: NumberQuery) -> (r: Result<
    LiteralValue,
    Stop,
>)
    ensures
        match spec_take_bits(answers.deep_view(), *old(used) as int, query) {
            Ok((v, k)) => (r matches Ok(val) && val@ == v) && *final(used) == k,
            Err(s) => (r matches Err(x) && x@ == s) && *final(used) == *old(used),
        },
{
    if *used < answers.len() {
        match &answers[*used] {
            Answer::Bits(b) => {
                let bits = *b;
                *used = *used + 1;
                Ok(LiteralValue::Number(bits))
            },
            _ => Err(Stop::Need(query)),
        }
    } else {
        Err(Stop::Need(query))
    }
}

/// Reads a truth answer, or stops with the query.
fn take_truth(answers: &Vec<Answer>, used: &mut usize, query: NumberQuery) -> (r: Result<
    LiteralValue,
    Stop,
>)
    ensures
        match spec_take_truth(answers.deep_view(), *old(used) as int, query) {
            Ok((v, k)) => (r matches Ok(val) && val@ == v) && *final(used) == k,
            Err(s) => (r matches Err(x) && x@ == s) && *final(used) == *old(used),
        },
{
    if *used < answers.len() {
        match &answers[*used] {
            Answer::Truth(t) => {
                let truth = *t;
                *used = *used + 1;
                Ok(LiteralValue::Boolean(truth))
            },
            _ => Err(Stop::Need(query)),
        }
    } else {
        Err(Stop::Need(query))
    }
}

/// Reads a text answer, or stops with the query.
fn take_text(answers: &Vec<Answer>, used: &mut usize, query: NumberQuery) -> (r: Result<
    String,
    Stop,
>)
    ensures
        match spec_take_text(answers.deep_view(), *old(used) as int, query) {
            Ok((t, k)) => (r matches Ok(s) && s@ == t) && *final(used) == k,
            Err(s) => (r matches Err(x) && x@ == s) && *final(used) == *old(used),
        },
{
    if *used < answers.len() {
        match &answers[*used] {
            Answer::Text(t) => {
                let text = t.clone();
                *used = *used + 1;
                Ok(text)
            },
            _ => Err(Stop::Need(query)),
        }
    } else {
        Err(Stop::Need(query))
    }
}

/// Applies one binary operator to two operand values.
fn apply_binary(
    op: &Token,
    lv: LiteralValue,
    rv: LiteralValue,
    answers: &Vec<Answer>,
    used: &mut usize,
) -> (r: Result<LiteralValue, Stop>)
    ensures
        match spec_apply_binary(op@, lv@, rv@, answers.deep_view(), *old(used) as int) {
            Ok((v, k)) => (r matches Ok(val) && val@ == v) && *final(used) == k,
            Err(s) => (r matches Err(x) && x@ == s) && *final(used) == *old(used),
        },
{
    match (lv, rv) {
        (LiteralValue::Boolean(a), LiteralValue::Boolean(b)) => match op.token_type {
            TokenType::EqualEqual => Ok(LiteralValue::Boolean(a == b)),
            TokenType::BangEqual => Ok(LiteralValue::Boolean(a != b)),
            _ => Err(Stop::Fail(RuntimeError::UnsupportedOperation { operator: op.duplicate() })),
        },
        (LiteralValue::Number(a), LiteralValue::Number(b)) => match op.token_type {
            TokenType::Plus => take_bits(
                answers,
                used,
                NumberQuery::Arithmetic { op: ArithOp::Add, lhs: a, rhs: b },
            ),
            TokenType::Minus => take_bits(
                answers,
                used,
                NumberQuery::Arithmetic { op: ArithOp::Subtract, lhs: a, rhs: b },
            ),
            TokenType::Star => take_bits(
                answers,
                used,
                NumberQuery::Arithmetic { op: ArithOp::Multiply, lhs: a, rhs: b },
            ),
            TokenType::Slash => take_bits(
                answers,
                used,
                NumberQuery::Arithmetic { op: ArithOp::Divide, lhs: a, rhs: b },
            ),
            TokenType::EqualEqual => take_truth(
                answers,
                used,
                NumberQuery::Comparison { op: CompareOp::Equal, lhs: a, rhs: b },
            ),
            TokenType::BangEqual => take_truth(
                answers,
                used,
                NumberQuery::Comparison { op: CompareOp::NotEqual, lhs: a, rhs: b },
            ),
            TokenType::Greater => take_truth(
                answers,
                used,
                NumberQuery::Comparison { op: CompareOp::Greater, lhs: a, rhs: b },
            ),
            TokenType::GreaterEqual => take_truth(
                answers,
                used,
                NumberQuery::Comparison { op: CompareOp::GreaterEqual, lhs: a, rhs: b },
            ),
            TokenType::Less => take_truth(
                answers,
                used,
                NumberQuery::Comparison { op: CompareOp::Less, lhs: a, rhs: b },
            ),
            TokenType::LessEqual => take_truth(
                answers,
                used,
                NumberQuery::Comparison { op: CompareOp::LessEqual, lhs: a, rhs: b },
            ),
            _ => Err(Stop::Fail(RuntimeError::UnsupportedOperation { operator: op.duplicate() })),
        },
        (LiteralValue::String(a), LiteralValue::String(b)) => match op.token_type {
            TokenType::Plus => Ok(LiteralValue::String(a.concat(b.as_str()))),
            _ => Err(Stop::Fail(RuntimeError::UnsupportedOperation { operator: op.duplicate() })),
        },
        _ => Err(Stop::Fail(RuntimeError::TypeMismatch { operator: op.duplicate() })),
    }
}

/// Evaluates one expression against the environment and the answer tape.
fn eval_expr(e: &Expr, env: &Environment, answers: &Vec<Answer>, used: &mut usize) -> (r: Result<
    LiteralValue,
    Stop,
>)
    requires
        env.wf(),
    ensures
        match spec_eval_expr(e@, env@, answers.deep_view(), *old(used) as int) {
            Ok((v, k)) => (r matches Ok(val) && val@ == v) && *final(used) == k,
            Err(s) => r matches Err(x) && x@ == s,
        },
    decreases e,
{
    match e {
        Expr::Literal(v) => Ok(v.duplicate()),
        Expr::Grouping(inner) => eval_expr(inner, env, answers, used),
        Expr::Variable(t) => match env.get(t.lexeme.as_str()) {
            Ok(v) => Ok(v),
            Err(er) => Err(Stop::Fail(er)),
        },
        Expr::Unary(op, inner) => match eval_expr(inner, env, answers, used) {
            Ok(v) => match v {
                LiteralValue::Boolean(b) => {
                    if op.token_type == TokenType::Bang {
                        Ok(LiteralValue::Boolean(!b))
                    } else {
                        Err(
                            Stop::Fail(
                                RuntimeError::UnsupportedOperation { operator: op.duplicate() },
                            ),
                        )
                    }
                },
                LiteralValue::Number(a) => {
                    if op.token_type == TokenType::Minus {
                        take_bits(answers, used, NumberQuery::Negation { operand: a })
                    } else {
                        Err(
                            Stop::Fail(
                                RuntimeError::UnsupportedOperation { operator: op.duplicate() },
                            ),
                        )
                    }
                },
                _ => Err(
                    Stop::Fail(RuntimeError::UnsupportedOperation { operator: op.duplicate() }),
                ),
            },
            Err(s) => Err(s),
        },
        Expr::Binary(l, op, r) => match eval_expr(l, env, answers, used) {
            Ok(lv) => match eval_expr(r, env, answers, used) {
                Ok(rv) => apply_binary(op, lv, rv, answers, used),
                Err(s) => Err(s),
            },
            Err(s) => Err(s),
        },
    }
}

/// The textual representation of a value, as the print statement emits it.
fn value_text(v: &LiteralValue, answers: &Vec<Answer>, used: &mut usize) -> (r: Result<
    String,
    Stop,
>)
    ensures
        match spec_value_text(v@, answers.deep_view(), *old(used) as int) {
            Ok((t, k)) => (r matches Ok(s) && s@ == t) && *final(used) == k,
            Err(s) => r matches Err(x) && x@ == s,
        },
{
    match v {
        LiteralValue::Boolean(b) => {
            if *b {
                Ok(String::from_str("true"))
            } else {
                Ok(String::from_str("false"))
            }
        },
        LiteralValue::Nil => Ok(String::from_str("nil")),
        LiteralValue::Number(a) => take_text(answers, used, NumberQuery::Text { operand: *a }),
        LiteralValue::String(s) => {
            let mut quoted = String::from_str("\"");
            quoted.append(s.as_str());
            quoted.append("\"");
            proof {
                reveal_strlit("\"");
                assert(quoted@ =~= seq!['"'] + s@ + seq!['"']);
            }
            Ok(quoted)
        },
    }
}

/// Runs one statement for its effect on the environment and the output.
fn exec_stmt(
    stmt: &Statement,
    env: &mut Environment,
    output: &mut Vec<String>,
    answers: &Vec<Answer>,
    used: &mut usize,
) -> (r: Result<(), Stop>)
    requires
        old(env).wf(),
    ensures
        final(env).wf(),
        match spec_exec_stmt(
            stmt@,
            old(env)@,
            old(output).deep_view(),
            answers.deep_view(),
            *old(used) as int,
        ) {
            Ok((env2, out2, k2)) => (r matches Ok(u) && u == ()) && final(env)@ == env2
                && final(output).deep_view() == out2 && *final(used) == k2,
            Err(s) => (r matches Err(x) && x@ == s) && final(env)@ == old(env)@
                && final(output).deep_view() == old(output).deep_view(),
        },
{
    match stmt {
        Statement::Expression(e) => match eval_expr(e, env, answers, used) {
            Ok(_) => Ok(()),
            Err(s) => Err(s),
        },
        Statement::Print(e) => match eval_expr(e, env, answers, used) {
            Ok(v) => match value_text(&v, answers, used) {
                Ok(t) => {
                    let ghost od = output.deep_view();
                    let ghost tv = t@;
                    output.push(t);
                    proof {
                        assert(output.deep_view() =~= od.push(tv));
                    }
                    Ok(())
                },
                Err(s) => Err(s),
            },
            Err(s) => Err(s),
        },
        Statement::Var(name, init) => match init {
            Some(e) => match eval_expr(e, env, answers, used) {
                Ok(v) => {
                    env.define(name.lexeme.as_str(), Some(v));
                    Ok(())
                },
                Err(s) => Err(s),
            },
            None => {
                env.define(name.lexeme.as_str(), None);
                Ok(())
            },
        },
    }
}

/// The tree-walking evaluator: owns the environment chain, which persists
/// across runs (so a driver's interactive loop keeps variables between
/// lines).
pub struct Interpreter {
    environment: Environment,
}

impl Interpreter {
    /// The environment chain, as a sequence of scopes, innermost first.
    pub closed spec fn env_view(&self) -> EnvV {
        self.environment@
    }

    /// The environment chain is well formed.
    pub closed spec fn wf(&self) -> bool {
        self.environment.wf()
    }

    /// A fresh interpreter with a single empty scope.
    pub fn new() -> (r: Self)
        ensures
            r.wf(),
            r.env_view() == seq![Map::<Seq<char>, Option<ValueV>>::empty()],
    {
        let environment = Environment::new(None);
        proof {
            assert(environment@ =~= seq![Map::<Seq<char>, Option<ValueV>>::empty()]);
        }
        Interpreter { environment }
    }

    /// The environment chain, for direct inspection.
    pub fn environment(&self) -> (r: &Environment)
        ensures
            r@ == self.env_view(),
            self.wf() ==> r.wf(),
    {
        &self.environment
    }

    /// Runs the statements in order against the current environment, reading
    /// number-operation answers from the tape.
    ///
    /// On [`InterpretOutcome::Done`] and [`InterpretOutcome::Failed`] the
    /// environment mutations of the completed statements are committed and
    /// the buffered print output is returned. On
    /// [`InterpretOutcome::NeedAnswer`] nothing is committed: the driver
    /// computes the answer with real floating-point arithmetic, appends it
    /// to the tape, and calls again; evaluation retraces the same path.
    pub fn interpret(&mut self, statements: &Vec<Statement>, answers: &Vec<Answer>) -> (r:
        InterpretOutcome)
        requires
            old(self).wf(),
        ensures
            final(self).wf(),
            match spec_interpret(
                statements.deep_view(),
                old(self).env_view(),
                answers.deep_view(),
            ) {
                InterpV::Done { env, output, used } => (r matches InterpretOutcome::Done {
                    output: o,
                } && o.deep_view() == output) && final(self).env_view() == env,
                InterpV::Failed { env, output, error } => (r matches InterpretOutcome::Failed {
                    output: o,
                    error: e,
                } && o.deep_view() == output && e@ == error) && final(self).env_view() == env,
                InterpV::Need { query } => (r matches InterpretOutcome::NeedAnswer { query: q }
                    && q == query) && final(self).env_view() == old(self).env_view(),
            },
    {
        let ghost stmts = statements.deep_view();
        let ghost tape = answers.deep_view();
        let ghost env0 = self.environment@;
        let ghost target = spec_interpret(stmts, env0, tape);
        let mut env = self.environment.duplicate();
        let mut output: Vec<String> = Vec::new();
        let mut used: usize = 0;
        let n: usize = statements.len();
        let mut i: usize = 0;
        proof {
            assert(output.deep_view() =~= Seq::<Seq<char>>::empty());
        }
        while i < n
            invariant
                n == stmts.len(),
                stmts == statements.deep_view(),
                tape == answers.deep_view(),
                env0 == old(self).env_view(),
                self.environment@ == env0,
                self.environment.wf(),
                env.wf(),
                0 <= i <= n,
                target == spec_interpret(stmts, env0, tape),
                target == spec_interpret_from(
                    stmts,
                    i as int,
                    env@,
                    output.deep_view(),
                    tape,
                    used as int,
                ),
            decreases n - i,
        {
            match exec_stmt(&statements[i], &mut env, &mut output, answers, &mut used) {
                Ok(_) => {
                    i = i + 1;
                },
                Err(Stop::Fail(e)) => {
                    proof {
                        assert(target == (InterpV::Failed {
                            env: env@,
                            output: output.deep_view(),
                            error: e@,
                        }));
                    }
                    self.environment = env;
                    return InterpretOutcome::Failed { output, error: e };
                },
                Err(Stop::Need(q)) => {
                    proof {
                        assert(target == (InterpV::Need { query: q }));
                    }
                    return InterpretOutcome::NeedAnswer { query: q };
                },
            }
        }
        proof {
            assert(target == (InterpV::Done {
                env: env@,
                output: output.deep_view(),
                used: used as int,
            }));
        }
        self.environment = env;
        InterpretOutcome::Done { output }
    }
}

/// How a call to [`Interpreter::interpret`] ended.
#[derive(Debug, PartialEq)]
pub enum InterpretOutcome {
    /// Every statement ran; the print output, in order.
    Done { output: Vec<String> },
    /// A fatal error halted evaluation; the output printed before it.
    Failed { output: Vec<String>, error: RuntimeError },
    /// Evaluation needs the result of a number operation: answer the query,
    /// append the answer to the tape, and call again.
    NeedAnswer { query: NumberQuery },
}

} // verus!
