//! When folding is defined.

use vstd::prelude::*;

use crate::common::environment::lookup;
use crate::common::token::Token;
use crate::parser::expr::{weight, Expr, ExprKind};
use crate::parser::fold_laws::{
    binary_operator, every, every_operand, integer_symbols, lemma_constants_are_integers,
    lemma_folding_keeps, lemma_operands_keep, lemma_pair_keeps, steps_keep,
};
use crate::parser::fold_spec::{
    binary_rule, compares, fits_i64, fold, fold_after, fold_operands, node_rule, scopes_after, Rule,
};
use crate::parser::typechecker::{scalable, scale, Scopes};

verus! {

/// Whether a node that is a constant is of a scalar type.
pub open spec fn scalar_constant(e: Expr) -> bool {
    e.kind is Literal ==> match e.type_decl {
        Some(t) => t.scalar(),
        None => false,
    }
}

/// Whether a node is one that a parser builds of scalar constants, names, casts
/// and operators: it has an operator of its kind, and asks for no size that cannot
/// be measured.
pub open spec fn well_built(e: Expr) -> bool {
    &&& scalar_constant(e)
    &&& match e.kind {
        ExprKind::Ident(name) => name.name() is Some,
        ExprKind::Binary { token, .. } => binary_operator(token.token),
        ExprKind::Logical { token, .. } => token.token is AmpAmp || token.token is PipePipe,
        ExprKind::Comparison { token, .. } => compares(token.token, 0, 0) is Some,
        ExprKind::Cast { decl_type, .. } => decl_type.constants_named(),
        ExprKind::SizeofType { decl_type } => decl_type.constants_named()
            && decl_type.type_of().measurable(),
        _ => true,
    }
}

/// Whether the size of what is pointed to can be measured beside an integer, and
/// 64 bits can hold two constant operands once the integer is scaled by it.
pub open spec fn scaled_fit(left: Expr, right: Expr) -> bool {
    match (left.kind, right.kind, left.type_decl, right.type_decl) {
        (ExprKind::Literal(l), ExprKind::Literal(r), Some(l_type), Some(r_type)) => scalable(
            l_type,
            r_type,
        ) && scalable(r_type, l_type) && fits_i64(l * scale(l_type, r_type)) && fits_i64(
            r * scale(r_type, l_type),
        ),
        _ => true,
    }
}

/// Whether 64 bits can hold the scaled operands of every binary operator that
/// folding comes to.
pub open spec fn scaling_fits(e: Expr, scopes: Scopes) -> bool
    decreases e,
{
    match e.kind {
        ExprKind::Binary { left, right, .. } => {
            let l = fold(*left, scopes);
            let r = fold_after(l, *right);
            scaling_fits(*left, scopes) && scaling_fits(*right, l.scopes) && scaled_fit(
                l.expr,
                r.expr,
            )
        },
        ExprKind::Logical { left, right, .. } => scaling_fits(*left, scopes) && scaling_fits(
            *right,
            fold(*left, scopes).scopes,
        ),
        ExprKind::Comparison { left, right, .. } => scaling_fits(*left, scopes) && scaling_fits(
            *right,
            fold(*left, scopes).scopes,
        ),
        ExprKind::Assign { l_expr, r_expr, .. } => scaling_fits(*l_expr, scopes) && scaling_fits(
            *r_expr,
            fold(*l_expr, scopes).scopes,
        ),
        ExprKind::CompoundAssign { l_expr, r_expr, .. } => scaling_fits(*l_expr, scopes)
            && scaling_fits(*r_expr, fold(*l_expr, scopes).scopes),
        ExprKind::Comma { left, right } => scaling_fits(*left, scopes) && scaling_fits(
            *right,
            fold(*left, scopes).scopes,
        ),
        ExprKind::Ternary { cond, true_expr, false_expr, .. } => {
            let c = fold(*cond, scopes);
            let t = fold_after(c, *true_expr);
            scaling_fits(*cond, scopes) && scaling_fits(*true_expr, c.scopes) && scaling_fits(
                *false_expr,
                t.scopes,
            )
        },
        ExprKind::Unary { right, .. } => scaling_fits(*right, scopes),
        ExprKind::Cast { expr, .. } => scaling_fits(*expr, scopes),
        ExprKind::Grouping { expr } => scaling_fits(*expr, scopes),
        ExprKind::ScaleUp { expr, .. } => scaling_fits(*expr, scopes),
        ExprKind::ScaleDown { expr, .. } => scaling_fits(*expr, scopes),
        ExprKind::MemberAccess { expr, .. } => scaling_fits(*expr, scopes),
        ExprKind::PostUnary { left, .. } => scaling_fits(*left, scopes),
        _ => true,
    }
}

proof fn lemma_binary_well_built(token: Token, left: Expr, right: Expr)
    requires
        binary_operator(token.token),
        scalar_constant(left),
        scalar_constant(right),
    ensures
        match binary_rule(token, left, right) {
            Rule::Replace(expr) => expr.kind is Literal && scalar_constant(expr),
            Rule::Stuck => !scaled_fit(left, right),
            _ => true,
        },
{
}

proof fn lemma_well_built_rule(node: Expr, scopes: Scopes)
    requires
        well_built(node),
        integer_symbols(scopes),
        every_operand(node, |e: Expr| scalar_constant(e)),
    ensures
        match node_rule(node, scopes) {
            Rule::Keep => true,
            Rule::Replace(expr) => {
                node.kind is Grouping || node.kind is Ternary || (expr.kind is Literal
                    && scalar_constant(expr))
            },
            Rule::Fail(_) => true,
            Rule::Stuck => node.kind matches ExprKind::Binary { left, right, .. } && !scaled_fit(
                *left,
                *right,
            ),
        },
{
    let p = |e: Expr| scalar_constant(e);
    match node.kind {
        ExprKind::Binary { left, token, right } => {
            assert(p(*left) && p(*right));
            lemma_binary_well_built(token, *left, *right);
        },
        ExprKind::Comparison { left, right, .. } => {
            assert(p(*left) && p(*right));
        },
        ExprKind::Unary { right, .. } => {
            assert(p(*right));
        },
        ExprKind::Cast { expr, .. } => {
            assert(p(*expr));
        },
        ExprKind::Ternary { true_expr, false_expr, .. } => {
            assert(p(*true_expr) && p(*false_expr));
        },
        ExprKind::Ident(name) => {
            let symbol = lookup(scopes, name.name().unwrap());
        },
        _ => {},
    }
}

proof fn lemma_scalar_steps()
    ensures
        steps_keep(
            |node: Expr| well_built(node),
            |node: Expr| scalar_constant(node),
            |after: Scopes| integer_symbols(after),
            false,
        ),
{
    let given = |node: Expr| well_built(node);
    let left = |node: Expr| scalar_constant(node);
    let sound = |after: Scopes| integer_symbols(after);
    assert forall|node: Expr, after: Scopes|
        #![trigger node_rule(node, after)]
        given(node) && sound(after) && every_operand(node, left) implies {
        &&& sound(scopes_after(node, after))
        &&& match node_rule(node, after) {
            Rule::Keep => left(node),
            Rule::Replace(expr) => every(expr, left),
            Rule::Fail(_) => true,
            Rule::Stuck => true,
        }
    } by {
        lemma_well_built_rule(node, after);
        match node.kind {
            ExprKind::Cast { decl_type, .. } => {
                lemma_constants_are_integers(after, decl_type.constants());
            },
            ExprKind::SizeofType { decl_type } => {
                lemma_constants_are_integers(after, decl_type.constants());
            },
            _ => {},
        }
        if let Rule::Replace(expr) = node_rule(node, after) {
            if expr.kind is Literal {
                assert(every(expr, left));
            }
        }
    }
}

/// Folding is defined on every expression that a parser builds of scalar
/// constants, names, casts and operators, wherever 64 bits can hold the operands
/// that are scaled beside a pointer: it ends with a folded expression or an
/// error.
pub proof fn law_folding_defined(e: Expr, scopes: Scopes)
    requires
        every(e, |node: Expr| well_built(node)),
        integer_symbols(scopes),
        scaling_fits(e, scopes),
    ensures
        !(fold(e, scopes).outcome is Stuck),
    decreases weight(e), 1nat,
{
    let given = |node: Expr| well_built(node);
    let left = |node: Expr| scalar_constant(node);
    let sound = |after: Scopes| integer_symbols(after);
    lemma_scalar_steps();
    lemma_operands_defined(e, scopes);
    lemma_operands_keep(e, scopes, given, left, sound, false);
    let node = fold_operands(e, scopes);
    assert(given(node.expr));
    if node.outcome is Folded {
        lemma_well_built_rule(node.expr, node.scopes);
    }
}

proof fn lemma_operands_defined(e: Expr, scopes: Scopes)
    requires
        every(e, |node: Expr| well_built(node)),
        integer_symbols(scopes),
        scaling_fits(e, scopes),
    ensures
        !(fold_operands(e, scopes).outcome is Stuck),
    decreases weight(e), 0nat,
{
    match e.kind {
        ExprKind::Binary { left, right, .. } => lemma_pair_defined(*left, *right, scopes),
        ExprKind::Logical { left, right, .. } => lemma_pair_defined(*left, *right, scopes),
        ExprKind::Comparison { left, right, .. } => lemma_pair_defined(*left, *right, scopes),
        ExprKind::Assign { l_expr, r_expr, .. } => lemma_pair_defined(*l_expr, *r_expr, scopes),
        ExprKind::CompoundAssign { l_expr, r_expr, .. } => {
            lemma_pair_defined(*l_expr, *r_expr, scopes);
        },
        ExprKind::Comma { left, right } => lemma_pair_defined(*left, *right, scopes),
        ExprKind::Ternary { cond, true_expr, false_expr, .. } => {
            lemma_pair_defined(*cond, *true_expr, scopes);
            let t = fold_after(fold(*cond, scopes), *true_expr);
            if t.outcome is Folded {
                law_folding_defined(*false_expr, t.scopes);
            }
        },
        ExprKind::Unary { right, .. } => law_folding_defined(*right, scopes),
        ExprKind::Cast { expr, .. } => law_folding_defined(*expr, scopes),
        ExprKind::Grouping { expr } => law_folding_defined(*expr, scopes),
        ExprKind::ScaleUp { expr, .. } => law_folding_defined(*expr, scopes),
        ExprKind::ScaleDown { expr, .. } => law_folding_defined(*expr, scopes),
        ExprKind::MemberAccess { expr, .. } => law_folding_defined(*expr, scopes),
        ExprKind::PostUnary { left, .. } => law_folding_defined(*left, scopes),
        _ => {},
    }
}

proof fn lemma_pair_defined(l: Expr, r: Expr, scopes: Scopes)
    requires
        every(l, |node: Expr| well_built(node)),
        every(r, |node: Expr| well_built(node)),
        integer_symbols(scopes),
        scaling_fits(l, scopes),
        scaling_fits(r, fold(l, scopes).scopes),
    ensures
        !(fold_after(fold(l, scopes), r).outcome is Stuck),
        fold_after(fold(l, scopes), r).outcome is Folded ==> integer_symbols(
            fold_after(fold(l, scopes), r).scopes,
        ),
    decreases weight(l) + weight(r), 2nat,
{
    let given = |node: Expr| well_built(node);
    let left = |node: Expr| scalar_constant(node);
    let sound = |after: Scopes| integer_symbols(after);
    lemma_scalar_steps();
    law_folding_defined(l, scopes);
    lemma_pair_keeps(l, r, scopes, given, left, sound, false);
    lemma_folding_keeps(l, scopes, given, left, sound, false);
    if fold(l, scopes).outcome is Folded {
        law_folding_defined(r, fold(l, scopes).scopes);
    }
}

} // verus!
