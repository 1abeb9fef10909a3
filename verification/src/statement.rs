//! The statement side of the abstract syntax tree.

use vstd::prelude::*;
use crate::expression::{Expr, ExprV, expr_view};
use crate::token::{Token, TokenV};

verus! {

/// A statement. A program is an ordered sequence of statements, each owning
/// its sub-expressions exclusively.
#[derive(Debug, PartialEq)]
pub enum Statement {
    /// Evaluate for effect, discard the result.
    Expression(Expr),
    /// Evaluate and emit the result.
    Print(Expr),
    /// Declare a binding, optionally initialized; the token is the name.
    Var(Token, Option<Expr>),
}

/// The mathematical image of a [`Statement`].
pub enum StmtV {
    Expression(ExprV),
    Print(ExprV),
    Var(TokenV, Option<ExprV>),
}

impl View for Statement {
    type V = StmtV;

    open spec fn view(&self) -> StmtV {
        match self {
            Statement::Expression(e) => StmtV::Expression(expr_view(*e)),
            Statement::Print(e) => StmtV::Print(expr_view(*e)),
            Statement::Var(name, init) => StmtV::Var(
                name@,
                match init {
                    Some(e) => Some(expr_view(*e)),
                    None => None,
                },
            ),
        }
    }
}

impl DeepView for Statement {
    type V = StmtV;

    open spec fn deep_view(&self) -> StmtV {
        self.view()
    }
}

} // verus!
