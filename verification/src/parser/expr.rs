//! Expressions as the parser builds them.

use vstd::prelude::*;

use crate::common::token::Token;
use crate::common::types::{NEWTypes, StructInfo, Types};

verus! {

/// Whether an expression denotes an object or only a value.
#[derive(Clone, Copy, PartialEq, Eq, Structural, Debug)]
pub enum ValueKind {
    Lvalue,
    Rvalue,
}

/// What a type name starts with.
#[derive(PartialEq, Debug)]
pub enum SpecifierKind {
    Primitive(Types),
    Struct(StructInfo),
    Union(StructInfo),
    /// An enum, with the constants that it declares and their values.
    Enum(Option<String>, Vec<(Token, i32)>),
}

/// What is made of the type so far.
#[derive(Clone, Copy, PartialEq, Eq, Structural, Debug)]
pub enum DeclModifier {
    Pointer,
    Array(usize),
}

/// A type as it is written: a specifier and what is made of it, from the
/// inside out.
#[derive(PartialEq, Debug)]
pub struct DeclType {
    pub token: Token,
    pub specifier: SpecifierKind,
    pub modifiers: Vec<DeclModifier>,
}

/// An expression, with its type where that is known.
#[derive(PartialEq, Debug)]
pub struct Expr {
    pub kind: ExprKind,
    pub type_decl: Option<NEWTypes>,
    pub value_kind: ValueKind,
}

#[derive(PartialEq, Debug)]
pub enum ExprKind {
    Literal(i64),
    Ident(Token),
    String(Token),
    Binary { left: Box<Expr>, token: Token, right: Box<Expr> },
    Unary { token: Token, right: Box<Expr> },
    Logical { left: Box<Expr>, token: Token, right: Box<Expr> },
    Comparison { left: Box<Expr>, token: Token, right: Box<Expr> },
    Cast { token: Token, decl_type: DeclType, expr: Box<Expr> },
    Grouping { expr: Box<Expr> },
    Ternary { token: Token, cond: Box<Expr>, true_expr: Box<Expr>, false_expr: Box<Expr> },
    SizeofType { decl_type: DeclType },
    SizeofExpr { expr: Box<Expr> },
    ScaleUp { expr: Box<Expr>, shift_amount: usize },
    ScaleDown { expr: Box<Expr>, shift_amount: usize },
    Assign { l_expr: Box<Expr>, token: Token, r_expr: Box<Expr> },
    CompoundAssign { l_expr: Box<Expr>, token: Token, r_expr: Box<Expr> },
    Comma { left: Box<Expr>, right: Box<Expr> },
    MemberAccess { token: Token, expr: Box<Expr>, member: Token },
    PostUnary { token: Token, left: Box<Expr> },
    Call { left_paren: Token, caller: Box<Expr>, args: Vec<Expr> },
    Nop,
}

/// The constant `value` of type `type_decl`.
pub open spec fn constant(value: i64, type_decl: NEWTypes) -> Expr {
    Expr {
        kind: ExprKind::Literal(value),
        type_decl: Some(type_decl),
        value_kind: ValueKind::Rvalue,
    }
}

/// Number of nodes, counted twice, of an expression without the parts that
/// folding does not enter.
pub open spec fn weight(e: Expr) -> nat
    decreases e,
{
    match e.kind {
        ExprKind::Binary { left, right, .. } => 2 + weight(*left) + weight(*right),
        ExprKind::Unary { right, .. } => 2 + weight(*right),
        ExprKind::Logical { left, right, .. } => 2 + weight(*left) + weight(*right),
        ExprKind::Comparison { left, right, .. } => 2 + weight(*left) + weight(*right),
        ExprKind::Cast { expr, .. } => 2 + weight(*expr),
        ExprKind::Grouping { expr } => 2 + weight(*expr),
        ExprKind::Ternary { cond, true_expr, false_expr, .. } => 2 + weight(*cond) + weight(
            *true_expr,
        ) + weight(*false_expr),
        ExprKind::ScaleUp { expr, .. } => 2 + weight(*expr),
        ExprKind::ScaleDown { expr, .. } => 2 + weight(*expr),
        ExprKind::Assign { l_expr, r_expr, .. } => 2 + weight(*l_expr) + weight(*r_expr),
        ExprKind::CompoundAssign { l_expr, r_expr, .. } => 2 + weight(*l_expr) + weight(*r_expr),
        ExprKind::Comma { left, right } => 2 + weight(*left) + weight(*right),
        ExprKind::MemberAccess { expr, .. } => 2 + weight(*expr),
        ExprKind::PostUnary { left, .. } => 2 + weight(*left),
        _ => 2,
    }
}

} // verus!
