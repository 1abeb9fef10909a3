//! The expression side of the abstract syntax tree, and the runtime value
//! type shared by literals and evaluation results.

use vstd::prelude::*;
use crate::token::{Token, TokenV};

verus! {

/// The only runtime value type of the language. Equality is structural.
///
/// `Number` holds the 64-bit representation of an IEEE-754 double-precision
/// float. The crate treats the representation as opaque data: producing or
/// combining number values is delegated to the driver through queries.
#[derive(Debug, Clone, PartialEq)]
pub enum LiteralValue {
    Boolean(bool),
    Nil,
    Number(u64),
    String(String),
}

/// The mathematical image of a [`LiteralValue`].
pub enum ValueV {
    Boolean(bool),
    Nil,
    Number(u64),
    String(Seq<char>),
}

impl View for LiteralValue {
    type V = ValueV;

    open spec fn view(&self) -> ValueV {
        match self {
            LiteralValue::Boolean(b) => ValueV::Boolean(*b),
            LiteralValue::Nil => ValueV::Nil,
            LiteralValue::Number(bits) => ValueV::Number(*bits),
            LiteralValue::String(s) => ValueV::String(s@),
        }
    }
}

impl DeepView for LiteralValue {
    type V = ValueV;

    open spec fn deep_view(&self) -> ValueV {
        self.view()
    }
}

impl LiteralValue {
    /// A structural copy of the value.
    pub fn duplicate(&self) -> (r: LiteralValue)
        ensures
            r@ == self@,
    {
        match self {
            LiteralValue::Boolean(b) => LiteralValue::Boolean(*b),
            LiteralValue::Nil => LiteralValue::Nil,
            LiteralValue::Number(bits) => LiteralValue::Number(*bits),
            LiteralValue::String(s) => LiteralValue::String(s.clone()),
        }
    }
}

/// An expression node. Each node exclusively owns its children: the tree has
/// no shared and no cyclic references.
#[derive(Debug, PartialEq)]
pub enum Expr {
    /// A binary operation; the token is the operator.
    Binary(Box<Expr>, Token, Box<Expr>),
    /// A parenthesized expression.
    Grouping(Box<Expr>),
    /// A literal value.
    Literal(LiteralValue),
    /// A prefix operation; the token is the operator.
    Unary(Token, Box<Expr>),
    /// A read reference to a bound name; the token is the identifier.
    Variable(Token),
}

/// The mathematical image of an [`Expr`].
pub enum ExprV {
    Binary(Box<ExprV>, TokenV, Box<ExprV>),
    Grouping(Box<ExprV>),
    Literal(ValueV),
    Unary(TokenV, Box<ExprV>),
    Variable(TokenV),
}

/// The view of an expression tree, variant by variant.
pub open spec fn expr_view(e: Expr) -> ExprV
    decreases e,
{
    match e {
        Expr::Binary(l, op, r) => ExprV::Binary(
            Box::new(expr_view(*l)),
            op@,
            Box::new(expr_view(*r)),
        ),
        Expr::Grouping(inner) => ExprV::Grouping(Box::new(expr_view(*inner))),
        Expr::Literal(v) => ExprV::Literal(v@),
        Expr::Unary(op, inner) => ExprV::Unary(op@, Box::new(expr_view(*inner))),
        Expr::Variable(name) => ExprV::Variable(name@),
    }
}

impl View for Expr {
    type V = ExprV;

    open spec fn view(&self) -> ExprV {
        expr_view(*self)
    }
}

impl DeepView for Expr {
    type V = ExprV;

    open spec fn deep_view(&self) -> ExprV {
        expr_view(*self)
    }
}

} // verus!
