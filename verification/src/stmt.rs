//! Statements: an expression evaluated for effect, a `print` statement,
//! and a variable declaration with an optional initializer.

use vstd::prelude::*;

use crate::expr::{expr_view, expr_wf, Expr, ExprM};
use crate::scanner::{Token, TokenModel};

verus! {

/// One statement of a program.
#[derive(Debug)]
pub enum Stmt {
    Expression { expression: Expr },
    Print { expression: Expr },
    Var { name: Token, initializer: Expr },
}

/// The mathematical image of a statement.
pub ghost enum StmtM {
    Expression { expression: ExprM },
    Print { expression: ExprM },
    Var { name: TokenModel, initializer: ExprM },
}

/// The mathematical image of a statement.
pub open spec fn stmt_view(s: Stmt) -> StmtM {
    match s {
        Stmt::Expression { expression } => StmtM::Expression { expression: expr_view(expression) },
        Stmt::Print { expression } => StmtM::Print { expression: expr_view(expression) },
        Stmt::Var { name, initializer } => StmtM::Var {
            name: name@,
            initializer: expr_view(initializer),
        },
    }
}

/// A statement is well formed when its expressions are.
pub open spec fn stmt_wf(s: StmtM) -> bool {
    match s {
        StmtM::Expression { expression } => expr_wf(expression),
        StmtM::Print { expression } => expr_wf(expression),
        StmtM::Var { name: _, initializer } => expr_wf(initializer),
    }
}

/// The statement models of a statement sequence.
pub open spec fn stmt_views(ss: Seq<Stmt>) -> Seq<StmtM> {
    Seq::new(ss.len(), |k: int| stmt_view(ss[k]))
}

} // verus!
