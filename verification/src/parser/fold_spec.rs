//! What constant folding makes of an expression.
//!
//! An expression is folded from its operands up. Once the operands are folded,
//! the rule of the operator says what becomes of the node.

use vstd::prelude::*;

use crate::common::environment::lookup;
use crate::common::error::{error_at, Error, ErrorKind};
use crate::common::token::{Token, TokenType};
use crate::common::types::{constant_type, NEWTypes, Types};
use crate::parser::expr::{constant, DeclType, Expr, ExprKind};
use crate::parser::typechecker::{
    compatible, declare_constants, scalable, scale, valid_binary, Register, Scopes, SymbolInfo,
    Symbols,
};

verus! {

/// What becomes of a node whose operands are folded.
pub enum Rule {
    /// It stays, since an operand is not constant.
    Keep,
    Replace(Expr),
    Fail(Error),
    /// The node is none that a parser builds, or a size or a scaled operand
    /// cannot be held: folding is not defined.
    Stuck,
}

/// How folding ends.
pub enum Outcome {
    Folded,
    Failed(Error),
    Stuck,
}

/// An expression after folding, the symbols then in scope, and how it ended.
pub struct Fold {
    pub expr: Expr,
    pub scopes: Scopes,
    pub outcome: Outcome,
}

/// The integer constant `value`, of type `int`.
pub open spec fn int_constant(value: i64) -> Expr {
    constant(value, NEWTypes::Primitive(Types::Int))
}

/// 1 for true and 0 for false, as an `int`.
pub open spec fn truth(value: bool) -> Expr {
    int_constant(if value { 1 } else { 0 })
}

/// The type that an operand narrower than an `int` is computed in.
pub open spec fn promoted(t: NEWTypes) -> NEWTypes {
    if t.bytes() < Types::Int.bytes() {
        NEWTypes::Primitive(Types::Int)
    } else {
        t
    }
}

/// The type that two operands are computed in: the wider one, the right one
/// where they are equally wide.
pub open spec fn wider(left: NEWTypes, right: NEWTypes) -> NEWTypes {
    promoted(if left.bytes() > right.bytes() { left } else { right })
}

/// The exact result `value` as a constant of type `t`, which must hold it.
pub open spec fn exact(token: Token, t: NEWTypes, value: int) -> Rule {
    if t.holds(value) {
        Rule::Replace(constant(value as i64, t))
    } else {
        Rule::Fail(error_at(token, ErrorKind::IntegerOverflow(t)))
    }
}

pub open spec fn abs(n: int) -> int {
    if n < 0 {
        -n
    } else {
        n
    }
}

/// The quotient, rounded towards zero.
pub open spec fn quotient(x: int, y: int) -> int {
    if (x < 0) == (y < 0) {
        abs(x) / abs(y)
    } else {
        -(abs(x) / abs(y))
    }
}

/// The remainder, with the sign of `x`.
pub open spec fn remainder(x: int, y: int) -> int {
    if x < 0 {
        -(abs(x) % abs(y))
    } else {
        abs(x) % abs(y)
    }
}

pub open spec fn fits_i64(n: int) -> bool {
    i64::MIN <= n <= i64::MAX
}

/// A shift is computed in 64 bits, its type depends on the left operand alone,
/// and only the low 32 bits of the count are looked at.
pub open spec fn shift_rule(token: Token, left_type: NEWTypes, left: i64, right: i64) -> Rule {
    let t = promoted(left_type);
    let count = (right as int % 0x1_0000_0000) as u32;
    if right < 0 {
        Rule::Fail(error_at(token, ErrorKind::NegativeShift))
    } else if !(token.token is GreaterGreater || token.token is LessLess) {
        Rule::Stuck
    } else if count >= 64 {
        Rule::Fail(error_at(token, ErrorKind::IntegerOverflow(t)))
    } else if token.token is GreaterGreater {
        exact(token, t, (left >> count) as int)
    } else {
        exact(token, t, (left << count) as int)
    }
}

/// There is no quotient by 0; where 64 bits cannot hold the quotient, there is no
/// remainder either.
pub open spec fn division_rule(token: Token, t: NEWTypes, x: int, y: int) -> Rule {
    if y == 0 {
        Rule::Fail(error_at(token, ErrorKind::DivideByZero))
    } else if !(token.token is Slash || token.token is Mod) {
        Rule::Stuck
    } else if !fits_i64(quotient(x, y)) {
        Rule::Fail(error_at(token, ErrorKind::IntegerOverflow(t)))
    } else if token.token is Slash {
        exact(token, t, quotient(x, y))
    } else {
        exact(token, t, remainder(x, y))
    }
}

pub open spec fn arithmetic_rule(
    token: Token,
    left_type: NEWTypes,
    right_type: NEWTypes,
    x: int,
    y: int,
) -> Rule {
    let t = wider(left_type, right_type);
    match token.token {
        TokenType::Plus => exact(token, t, x + y),
        TokenType::Minus => exact(token, t, x - y),
        TokenType::Star => exact(token, t, x * y),
        TokenType::Slash => division_rule(token, t, x, y),
        TokenType::Mod => division_rule(token, t, x, y),
        TokenType::GreaterGreater => shift_rule(token, left_type, x as i64, y as i64),
        TokenType::LessLess => shift_rule(token, left_type, x as i64, y as i64),
        TokenType::Pipe => exact(token, t, ((x as i64) | (y as i64)) as int),
        TokenType::Xor => exact(token, t, ((x as i64) ^ (y as i64)) as int),
        TokenType::Amp => exact(token, t, ((x as i64) & (y as i64)) as int),
        _ => Rule::Stuck,
    }
}

pub open spec fn binary_rule(token: Token, left: Expr, right: Expr) -> Rule {
    match (left.kind, right.kind) {
        (ExprKind::Literal(l), ExprKind::Literal(r)) => match (left.type_decl, right.type_decl) {
            (Some(l_type), Some(r_type)) => {
                let x = l * scale(l_type, r_type);
                let y = r * scale(r_type, l_type);
                if !valid_binary(token.token, l_type, r_type, r == 0) {
                    Rule::Fail(
                        error_at(token, ErrorKind::InvalidBinary(token.token, l_type, r_type)),
                    )
                } else if scalable(l_type, r_type) && scalable(r_type, l_type) && fits_i64(x)
                    && fits_i64(y) {
                    arithmetic_rule(token, l_type, r_type, x, y)
                } else {
                    Rule::Stuck
                }
            },
            _ => Rule::Stuck,
        },
        _ => Rule::Keep,
    }
}

pub open spec fn unary_rule(token: Token, right: Expr) -> Rule {
    match (right.kind, token.token) {
        (ExprKind::Literal(n), TokenType::Bang) => Rule::Replace(truth(n == 0)),
        (ExprKind::Literal(n), TokenType::Plus) => sign_rule(token, right, n as int),
        (ExprKind::Literal(n), TokenType::Minus) => sign_rule(token, right, -n),
        (ExprKind::Literal(n), TokenType::Tilde) => sign_rule(token, right, (!n) as int),
        _ => Rule::Keep,
    }
}

/// The rule of the unary operators that take integers and give `value`.
pub open spec fn sign_rule(token: Token, right: Expr, value: int) -> Rule {
    match right.type_decl {
        Some(t) => if t.integer() {
            exact(token, promoted(t), value)
        } else {
            Rule::Fail(error_at(token, ErrorKind::InvalidUnary(token.token, t, "integer")))
        },
        None => Rule::Stuck,
    }
}

/// `&&` and `||` are decided by the left operand alone where it is 0 or 1.
pub open spec fn logical_rule(token: Token, left: Expr, right: Expr) -> Rule {
    match token.token {
        TokenType::AmpAmp => match (left.kind, right.kind) {
            (ExprKind::Literal(0), _) => Rule::Replace(truth(false)),
            (ExprKind::Literal(l), ExprKind::Literal(r)) => Rule::Replace(
                truth(l != 0 && r != 0),
            ),
            _ => Rule::Keep,
        },
        TokenType::PipePipe => match (left.kind, right.kind) {
            (ExprKind::Literal(1), _) => Rule::Replace(truth(true)),
            (ExprKind::Literal(l), ExprKind::Literal(r)) => Rule::Replace(
                truth(l != 0 || r != 0),
            ),
            _ => Rule::Keep,
        },
        _ => Rule::Stuck,
    }
}

/// What a comparison operator says of two constants.
pub open spec fn compares(token: TokenType, l: i64, r: i64) -> Option<bool> {
    match token {
        TokenType::BangEqual => Some(l != r),
        TokenType::EqualEqual => Some(l == r),
        TokenType::Greater => Some(l > r),
        TokenType::GreaterEqual => Some(l >= r),
        TokenType::Less => Some(l < r),
        TokenType::LessEqual => Some(l <= r),
        _ => None,
    }
}

pub open spec fn comparison_rule(token: Token, left: Expr, right: Expr) -> Rule {
    match (left.kind, right.kind) {
        (ExprKind::Literal(l), ExprKind::Literal(r)) => match (left.type_decl, right.type_decl) {
            (Some(l_type), Some(r_type)) => if !compatible(l_type, r_type, r == 0) || l_type.void()
                || r_type.void() {
                Rule::Fail(error_at(token, ErrorKind::InvalidComp(token.token, l_type, r_type)))
            } else {
                match compares(token.token, l, r) {
                    Some(value) => Rule::Replace(truth(value)),
                    None => Rule::Stuck,
                }
            },
            _ => Rule::Stuck,
        },
        _ => Rule::Keep,
    }
}

/// `n` brought into the range of the scalar type `t` by dropping high bits.
pub open spec fn converted(t: NEWTypes, n: i64) -> i64 {
    match t.representation() {
        Types::Char => n as i8 as i64,
        Types::Int => n as i32 as i64,
        _ => n,
    }
}

/// The rule of a cast to `new_type`.
pub open spec fn cast_rule(token: Token, old_type: NEWTypes, new_type: NEWTypes, n: i64) -> Rule {
    if old_type.scalar() && new_type.scalar() {
        Rule::Replace(constant(converted(new_type, n), new_type))
    } else {
        Rule::Fail(error_at(token, ErrorKind::InvalidConstCast(old_type, new_type)))
    }
}

/// Where both branches are constant their types have to go together; the
/// branch that a constant condition picks is what is left.
pub open spec fn ternary_rule(token: Token, cond: Expr, true_expr: Expr, false_expr: Expr) -> Rule {
    let picked = match cond.kind {
        ExprKind::Literal(0) => Rule::Replace(false_expr),
        ExprKind::Literal(_) => Rule::Replace(true_expr),
        _ => Rule::Keep,
    };
    match (true_expr.kind, false_expr.kind) {
        (ExprKind::Literal(_), ExprKind::Literal(f)) => match (
            true_expr.type_decl,
            false_expr.type_decl,
        ) {
            (Some(t_type), Some(f_type)) => if compatible(t_type, f_type, f == 0) {
                picked
            } else {
                Rule::Fail(error_at(token, ErrorKind::TypeMismatch(t_type, f_type)))
            },
            _ => Rule::Stuck,
        },
        _ => picked,
    }
}

/// Of the variables only enum constants are known when compiling.
pub open spec fn ident_rule(name: Token, scopes: Scopes) -> Rule {
    match name.name() {
        Some(text) => match lookup(scopes, text) {
            Some(
                Symbols::Variable(SymbolInfo { type_decl, reg: Some(Register::Literal(n, _)) }),
            ) => match type_decl {
                NEWTypes::Primitive(primitive) => Rule::Replace(
                    constant(n, NEWTypes::Primitive(primitive)),
                ),
                _ => Rule::Stuck,
            },
            _ => Rule::Keep,
        },
        None => Rule::Stuck,
    }
}

/// The size of a type, where it can be measured.
pub open spec fn sizeof_rule(decl_type: DeclType) -> Rule {
    if decl_type.constants_named() && decl_type.type_of().measurable() {
        let size = decl_type.type_of().size_constant();
        Rule::Replace(constant(size, NEWTypes::Primitive(constant_type(size as int))))
    } else {
        Rule::Stuck
    }
}

/// A cast looks at the type name only where its operand is constant, and never at
/// the size of the type.
pub open spec fn const_cast_rule(token: Token, decl_type: DeclType, expr: Expr) -> Rule {
    match expr.kind {
        ExprKind::Literal(n) => match expr.type_decl {
            Some(old_type) => if decl_type.constants_named() {
                cast_rule(token, old_type, decl_type.type_of(), n)
            } else {
                Rule::Stuck
            },
            None => Rule::Stuck,
        },
        _ => Rule::Keep,
    }
}

/// What becomes of `node`, whose operands are folded.
pub open spec fn node_rule(node: Expr, scopes: Scopes) -> Rule {
    match node.kind {
        ExprKind::Ident(name) => ident_rule(name, scopes),
        ExprKind::Binary { left, token, right } => binary_rule(token, *left, *right),
        ExprKind::Unary { token, right } => unary_rule(token, *right),
        ExprKind::Logical { left, token, right } => logical_rule(token, *left, *right),
        ExprKind::Comparison { left, token, right } => comparison_rule(token, *left, *right),
        ExprKind::Cast { token, decl_type, expr } => const_cast_rule(token, decl_type, *expr),
        ExprKind::Grouping { expr } => Rule::Replace(*expr),
        ExprKind::Ternary { token, cond, true_expr, false_expr } => ternary_rule(
            token,
            *cond,
            *true_expr,
            *false_expr,
        ),
        ExprKind::SizeofType { decl_type } => sizeof_rule(decl_type),
        _ => Rule::Keep,
    }
}

/// The symbols in scope after the rule of `node`: looking at a type name
/// declares the enum constants in it.
pub open spec fn scopes_after(node: Expr, scopes: Scopes) -> Scopes {
    match node.kind {
        ExprKind::Cast { decl_type, expr, .. } => if expr.kind is Literal {
            declare_constants(scopes, decl_type.constants())
        } else {
            scopes
        },
        ExprKind::SizeofType { decl_type } => declare_constants(scopes, decl_type.constants()),
        _ => scopes,
    }
}

/// What folding makes of `e` where `scopes` are the symbols in scope: first of
/// its operands, then, if all went well, of the node itself.
pub open spec fn fold(e: Expr, scopes: Scopes) -> Fold
    decreases e, 1nat,
{
    let node = fold_operands(e, scopes);
    match node.outcome {
        Outcome::Folded => {
            let scopes = scopes_after(node.expr, node.scopes);
            match node_rule(node.expr, node.scopes) {
                Rule::Keep => Fold { scopes, ..node },
                Rule::Replace(expr) => Fold { expr, scopes, ..node },
                Rule::Fail(error) => Fold { scopes, outcome: Outcome::Failed(error), ..node },
                Rule::Stuck => Fold { scopes, outcome: Outcome::Stuck, ..node },
            }
        },
        _ => node,
    }
}

/// Folds `next`, unless folding has ended with `before`.
pub open spec fn fold_after(before: Fold, next: Expr) -> Fold
    decreases next, 2nat,
{
    match before.outcome {
        Outcome::Folded => fold(next, before.scopes),
        _ => Fold { expr: next, ..before },
    }
}

/// Folds the operands of `e`, the left one first, and leaves the node as it is.
/// Function arguments and the operand of `sizeof` are not entered.
pub open spec fn fold_operands(e: Expr, scopes: Scopes) -> Fold
    decreases e, 0nat,
{
    match e.kind {
        ExprKind::Binary { left, token, right } => {
            let l = fold(*left, scopes);
            let r = fold_after(l, *right);
            let (left, right) = (Box::new(l.expr), Box::new(r.expr));
            Fold { expr: Expr { kind: ExprKind::Binary { left, token, right }, ..e }, ..r }
        },
        ExprKind::Logical { left, token, right } => {
            let l = fold(*left, scopes);
            let r = fold_after(l, *right);
            let (left, right) = (Box::new(l.expr), Box::new(r.expr));
            Fold { expr: Expr { kind: ExprKind::Logical { left, token, right }, ..e }, ..r }
        },
        ExprKind::Comparison { left, token, right } => {
            let l = fold(*left, scopes);
            let r = fold_after(l, *right);
            let (left, right) = (Box::new(l.expr), Box::new(r.expr));
            Fold { expr: Expr { kind: ExprKind::Comparison { left, token, right }, ..e }, ..r }
        },
        ExprKind::Unary { token, right } => {
            let r = fold(*right, scopes);
            let right = Box::new(r.expr);
            Fold { expr: Expr { kind: ExprKind::Unary { token, right }, ..e }, ..r }
        },
        ExprKind::Cast { token, decl_type, expr } => {
            let x = fold(*expr, scopes);
            let expr = Box::new(x.expr);
            Fold { expr: Expr { kind: ExprKind::Cast { token, decl_type, expr }, ..e }, ..x }
        },
        ExprKind::Grouping { expr } => {
            let x = fold(*expr, scopes);
            let expr = Box::new(x.expr);
            Fold { expr: Expr { kind: ExprKind::Grouping { expr }, ..e }, ..x }
        },
        ExprKind::Ternary { token, cond, true_expr, false_expr } => {
            let c = fold(*cond, scopes);
            let t = fold_after(c, *true_expr);
            let f = fold_after(t, *false_expr);
            let (cond, true_expr) = (Box::new(c.expr), Box::new(t.expr));
            let false_expr = Box::new(f.expr);
            let kind = ExprKind::Ternary { token, cond, true_expr, false_expr };
            Fold { expr: Expr { kind, ..e }, ..f }
        },
        ExprKind::ScaleUp { expr, shift_amount } => {
            let x = fold(*expr, scopes);
            let expr = Box::new(x.expr);
            Fold { expr: Expr { kind: ExprKind::ScaleUp { expr, shift_amount }, ..e }, ..x }
        },
        ExprKind::ScaleDown { expr, shift_amount } => {
            let x = fold(*expr, scopes);
            let expr = Box::new(x.expr);
            Fold { expr: Expr { kind: ExprKind::ScaleDown { expr, shift_amount }, ..e }, ..x }
        },
        ExprKind::Assign { l_expr, token, r_expr } => {
            let l = fold(*l_expr, scopes);
            let r = fold_after(l, *r_expr);
            let (l_expr, r_expr) = (Box::new(l.expr), Box::new(r.expr));
            Fold { expr: Expr { kind: ExprKind::Assign { l_expr, token, r_expr }, ..e }, ..r }
        },
        ExprKind::CompoundAssign { l_expr, token, r_expr } => {
            let l = fold(*l_expr, scopes);
            let r = fold_after(l, *r_expr);
            let (l_expr, r_expr) = (Box::new(l.expr), Box::new(r.expr));
            let kind = ExprKind::CompoundAssign { l_expr, token, r_expr };
            Fold { expr: Expr { kind, ..e }, ..r }
        },
        ExprKind::Comma { left, right } => {
            let l = fold(*left, scopes);
            let r = fold_after(l, *right);
            let (left, right) = (Box::new(l.expr), Box::new(r.expr));
            Fold { expr: Expr { kind: ExprKind::Comma { left, right }, ..e }, ..r }
        },
        ExprKind::MemberAccess { token, expr, member } => {
            let x = fold(*expr, scopes);
            let expr = Box::new(x.expr);
            Fold { expr: Expr { kind: ExprKind::MemberAccess { token, expr, member }, ..e }, ..x }
        },
        ExprKind::PostUnary { token, left } => {
            let l = fold(*left, scopes);
            let left = Box::new(l.expr);
            Fold { expr: Expr { kind: ExprKind::PostUnary { token, left }, ..e }, ..l }
        },
        _ => Fold { expr: e, scopes, outcome: Outcome::Folded },
    }
}

} // verus!
