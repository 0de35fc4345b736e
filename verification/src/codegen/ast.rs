//! Checked expressions and statements, as the code generator takes them.

use vstd::prelude::*;

use crate::common::token::Token;
use crate::common::types::NEWTypes;

verus! {

/// An expression, with the type that checking has given it.
#[derive(PartialEq, Debug)]
pub struct Expr {
    pub kind: ExprKind,
    pub type_decl: Option<NEWTypes>,
}

#[derive(PartialEq, Debug)]
pub enum ExprKind {
    Binary { left: Box<Expr>, token: Token, right: Box<Expr> },
    Number(i32),
    CharLit(i8),
    Grouping { expr: Box<Expr> },
    Unary { token: Token, right: Box<Expr> },
    Logical { left: Box<Expr>, token: Token, right: Box<Expr> },
    Assign { l_expr: Box<Expr>, token: Token, r_expr: Box<Expr> },
    Ident(Token),
    Call { left_paren: Token, callee: Box<Expr>, args: Vec<Expr> },
    CastUp { expr: Box<Expr> },
    CastDown { expr: Box<Expr> },
    ScaleUp { expr: Box<Expr>, shift_amount: usize },
    ScaleDown { expr: Box<Expr>, shift_amount: usize },
}

#[derive(PartialEq, Debug)]
pub enum Stmt {
    Expr(Expr),
    DeclareVar(NEWTypes, Token),
    InitVar(NEWTypes, Token, Expr),
    Block(Token, Vec<Stmt>),
    /// Return type, name, parameters and body.
    Function(NEWTypes, Token, Vec<(NEWTypes, Token)>, Vec<Stmt>),
    Return(Token, Option<Expr>),
    If(Token, Expr, Box<Stmt>, Box<Option<Stmt>>),
    While(Token, Expr, Box<Stmt>),
    FunctionDeclaration(NEWTypes, Token, Vec<(NEWTypes, Token)>),
}

/// How much an expression holds; each part of it holds less.
pub open spec fn expr_size(e: Expr) -> nat
    decreases e,
{
    4 + match e.kind {
        ExprKind::Binary { left, right, .. } => expr_size(*left) + expr_size(*right),
        ExprKind::Grouping { expr } => expr_size(*expr),
        ExprKind::Unary { right, .. } => expr_size(*right),
        ExprKind::Logical { left, right, .. } => expr_size(*left) + expr_size(*right),
        ExprKind::Assign { l_expr, r_expr, .. } => expr_size(*l_expr) + expr_size(*r_expr),
        ExprKind::Call { args, .. } => exprs_size(args@),
        ExprKind::CastUp { expr } => expr_size(*expr),
        ExprKind::CastDown { expr } => expr_size(*expr),
        ExprKind::ScaleUp { expr, .. } => expr_size(*expr),
        ExprKind::ScaleDown { expr, .. } => expr_size(*expr),
        _ => 0,
    }
}

pub open spec fn exprs_size(exprs: Seq<Expr>) -> nat
    decreases exprs,
{
    if exprs.len() == 0 {
        0
    } else {
        1 + expr_size(exprs[0]) + exprs_size(exprs.drop_first())
    }
}

/// How many statements a statement holds, weighted; each part of it holds less.
pub open spec fn stmt_size(stmt: Stmt) -> nat
    decreases stmt,
{
    4 + match stmt {
        Stmt::Block(_, body) => stmts_size(body@),
        Stmt::Function(_, _, _, body) => stmts_size(body@),
        Stmt::If(_, _, then_branch, else_branch) => stmt_size(*then_branch) + match *else_branch {
            Some(branch) => stmt_size(branch),
            None => 0,
        },
        Stmt::While(_, _, body) => stmt_size(*body),
        _ => 0,
    }
}

pub open spec fn stmts_size(stmts: Seq<Stmt>) -> nat
    decreases stmts,
{
    if stmts.len() == 0 {
        0
    } else {
        1 + stmt_size(stmts[0]) + stmts_size(stmts.drop_first())
    }
}

} // verus!
