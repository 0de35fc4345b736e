//! What generated code leaves as it was.

use vstd::prelude::*;

use crate::codegen::ast::{expr_size, exprs_size, Expr, ExprKind};
use crate::codegen::model::{
    allocate, and_expr, and_left, and_right, arguments, assign, assign_expr, binary, binary_expr,
    call, call_expr, call_lines, cast_down_expr, cast_up, cast_up_expr, emit, execute, execute_l,
    finish, has_free, has_label, literal, load, logical_expr, next_label, operate, or_expr, or_left,
    or_right, pass, shift, shift_expr, unary, unary_expr, zero_test, State, Step,
};
use crate::codegen::register::Register;
use crate::common::token::Token;
use crate::common::types::{NEWTypes, Types};

verus! {

/// Whether `text` starts with `start`.
pub open spec fn starts_with(text: Seq<char>, start: Seq<char>) -> bool {
    &&& start.len() <= text.len()
    &&& forall|i: int| 0 <= i < start.len() ==> #[trigger] text[i] == start[i]
}

/// What an expression leaves as it was: what was emitted before stays, labels
/// only get more, and variables, the function and the stack frame are the same.
#[verifier::opaque]
pub open spec fn framed(before: State, after: State) -> bool {
    &&& starts_with(after.output, before.output)
    &&& before.labels <= after.labels
    &&& after.scopes == before.scopes
    &&& after.function == before.function
    &&& after.offset == before.offset
    &&& after.stack_sizes == before.stack_sizes
}

/// Whether a step leaves what an expression leaves as it was.
pub open spec fn frames(before: State, step: Step) -> bool {
    match step {
        Step::Done(after, _) => framed(before, after),
        Step::Rejected(after, _) => framed(before, after),
        Step::Stuck => true,
    }
}

pub(crate) proof fn lemma_framed_twice(first: State, second: State, step: Step)
    requires
        framed(first, second),
        frames(second, step),
    ensures
        frames(first, step),
{
    reveal(framed);
}

pub(crate) proof fn lemma_finish_frames(st: State)
    ensures
        forall|text: Option<Seq<char>>, freed: Register, result: Register|
            frames(st, #[trigger] finish(st, text, freed, result)),
{
    reveal(framed);
}

pub(crate) proof fn lemma_small_steps(st: State)
    ensures
        framed(st, st),
        framed(st, allocate(st)),
        framed(st, next_label(st)),
        forall|text: Seq<char>| framed(st, #[trigger] emit(st, text)),
{
    reveal(framed);
}

pub(crate) proof fn lemma_load_frames(st: State, value: Register)
    ensures
        frames(st, load(st, value)),
{
    lemma_small_steps(st);
    if value is Stack {
        lemma_finish_frames(allocate(st));
        lemma_framed_twice(st, allocate(st), load(st, value));
    }
}

proof fn lemma_unary_frames(st: State, token: Token, value: Register)
    ensures
        frames(st, unary(st, token, value)),
{
    lemma_small_steps(st);
    lemma_finish_frames(st);
    lemma_finish_frames(allocate(st));
    let step = unary(st, token, value);
    if token.token is Amp {
        lemma_framed_twice(st, allocate(st), step);
    } else if token.token is Star {
        lemma_load_frames(allocate(st), value);
        if let Step::Done(loaded, _) = load(allocate(st), value) {
            lemma_finish_frames(loaded);
            lemma_framed_twice(allocate(st), loaded, step);
        }
        lemma_framed_twice(st, allocate(st), step);
    }
}

proof fn lemma_operate_frames(st: State, token: Token, left: Register, right: Register)
    ensures
        frames(st, operate(st, token, left, right)),
{
    lemma_small_steps(st);
    lemma_finish_frames(st);
}

proof fn lemma_binary_frames(st: State, token: Token, left: Register, right: Register)
    ensures
        frames(st, binary(st, token, left, right)),
{
    lemma_load_frames(st, left);
    if let Step::Done(s, left) = load(st, left) {
        lemma_load_frames(s, right);
        lemma_framed_twice(st, s, load(s, right));
        if let Step::Done(t, right) = load(s, right) {
            lemma_operate_frames(t, token, left, right);
            lemma_framed_twice(st, t, operate(t, token, left, right));
        }
    }
}

proof fn lemma_or_left_frames(st: State, value: Register)
    ensures
        frames(st, or_left(st, value)),
{
    lemma_small_steps(st);
    if has_label(st) {
        lemma_finish_frames(next_label(st));
        lemma_framed_twice(st, next_label(st), or_left(st, value));
    }
}

proof fn lemma_and_left_frames(st: State, value: Register)
    ensures
        frames(st, and_left(st, value)),
{
    lemma_small_steps(st);
    if has_label(st) {
        lemma_finish_frames(next_label(st));
        lemma_framed_twice(st, next_label(st), and_left(st, value));
    }
}

proof fn lemma_and_right_frames(st: State, label: nat, value: Register)
    ensures
        frames(st, and_right(st, label, value)),
{
    lemma_finish_frames(st);
    let step = and_right(st, label, value);
    if let Step::Done(tested, _) = zero_test(st, value, "\tje    L"@, label) {
        if has_label(tested) && has_free(tested) {
            let last = allocate(next_label(tested));
            lemma_small_steps(tested);
            lemma_small_steps(next_label(tested));
            lemma_finish_frames(last);
            lemma_framed_twice(next_label(tested), last, step);
            lemma_framed_twice(tested, next_label(tested), step);
            lemma_framed_twice(st, tested, step);
        }
    }
}

proof fn lemma_or_right_frames(st: State, label: nat, value: Register)
    ensures
        frames(st, or_right(st, label, value)),
{
    let step = or_right(st, label, value);
    if has_label(st) {
        lemma_small_steps(st);
        lemma_finish_frames(next_label(st));
        if let Step::Done(tested, _) = zero_test(next_label(st), value, "\tje    L"@, st.labels) {
            if has_label(tested) && has_free(tested) {
                let last = allocate(next_label(tested));
                lemma_small_steps(tested);
                lemma_small_steps(next_label(tested));
                lemma_finish_frames(last);
                lemma_framed_twice(next_label(tested), last, step);
                lemma_framed_twice(tested, next_label(tested), step);
                lemma_framed_twice(next_label(st), tested, step);
            }
        }
        lemma_framed_twice(st, next_label(st), step);
    }
}

proof fn lemma_literal_frames(st: State, head: Seq<char>, n: int, t: Types)
    ensures
        frames(st, literal(st, head, n, t)),
{
    if has_free(st) {
        lemma_small_steps(st);
        lemma_finish_frames(allocate(st));
        lemma_framed_twice(st, allocate(st), literal(st, head, n, t));
    }
}

proof fn lemma_call_frames(st: State, function: Seq<char>, t: NEWTypes)
    ensures
        frames(st, call(st, function, t)),
{
    let called = emit(st, call_lines(st.in_use, function));
    lemma_small_steps(st);
    lemma_small_steps(called);
    if !t.void() && has_free(called) {
        lemma_finish_frames(allocate(called));
        lemma_framed_twice(called, allocate(called), call(st, function, t));
        lemma_framed_twice(st, called, call(st, function, t));
    }
}

proof fn lemma_cast_up_frames(st: State, value: Register, from: Option<NEWTypes>, to: NEWTypes)
    ensures
        frames(st, cast_up(st, value, from, to)),
{
    if has_free(st) {
        lemma_small_steps(st);
        lemma_finish_frames(allocate(st));
        if !(cast_up(st, value, from, to) is Stuck) {
            lemma_framed_twice(st, allocate(st), cast_up(st, value, from, to));
        }
    }
}

proof fn lemma_shift_frames(st: State, head: Seq<char>, amount: usize, value: Register)
    ensures
        frames(st, shift(st, head, amount, value)),
{
    lemma_load_frames(st, value);
    if let Step::Done(loaded, _) = load(st, value) {
        lemma_finish_frames(loaded);
        lemma_framed_twice(st, loaded, shift(st, head, amount, value));
    }
}

proof fn lemma_assign_frames(st: State, place: Register, value: Register)
    ensures
        frames(st, assign(st, place, value)),
{
    lemma_load_frames(st, value);
    if let Step::Done(loaded, _) = load(st, value) {
        lemma_finish_frames(loaded);
        lemma_framed_twice(st, loaded, assign(st, place, value));
    }
}

/// Generating an expression only appends to the output, takes labels in order,
/// and leaves the variables and the stack frame as they were.
pub proof fn law_expression_frames(st: State, e: Expr)
    ensures
        frames(st, execute(st, e)),
    decreases expr_size(e),
{
    lemma_small_steps(st);
    match e.kind {
        ExprKind::Binary { left, token, right } => {
            lemma_binary_expr_frames(st, *left, token, *right);
        },
        ExprKind::Number(n) => {
            lemma_literal_frames(st, "\tmovl    $"@, n as int, Types::Int);
        },
        ExprKind::CharLit(c) => {
            lemma_literal_frames(st, "\tmovb    $"@, c as int, Types::Char);
        },
        ExprKind::Grouping { expr } => law_expression_frames(st, *expr),
        ExprKind::Unary { token, right } => lemma_unary_expr_frames(st, token, *right),
        ExprKind::Logical { left, token, right } => {
            lemma_or_expr_frames(st, *left, *right);
            lemma_and_expr_frames(st, *left, *right);
            assert(frames(st, logical_expr(st, *left, token, *right)));
        },
        ExprKind::Assign { l_expr, r_expr, .. } => {
            lemma_assign_expr_frames(st, *l_expr, *r_expr);
        },
        ExprKind::Ident(name) => {},
        ExprKind::Call { callee, args, .. } => {
            if let Some(t) = e.type_decl {
                lemma_call_expr_frames(st, *callee, args@, t);
            }
        },
        ExprKind::CastUp { expr } => {
            if let Some(t) = e.type_decl {
                lemma_cast_up_expr_frames(st, *expr, t);
            }
        },
        ExprKind::CastDown { expr } => {
            if let Some(t) = e.type_decl {
                lemma_cast_down_expr_frames(st, *expr, t);
            }
        },
        ExprKind::ScaleUp { expr, shift_amount } => {
            lemma_shift_expr_frames(st, "sal"@, *expr, shift_amount);
        },
        ExprKind::ScaleDown { expr, shift_amount } => {
            lemma_shift_expr_frames(st, "sar"@, *expr, shift_amount);
        },
    }
}

proof fn lemma_binary_expr_frames(st: State, left: Expr, token: Token, right: Expr)
    ensures
        frames(st, binary_expr(st, left, token, right)),
    decreases expr_size(left) + expr_size(right) + 1,
{
    law_expression_frames(st, left);
    if let Step::Done(s, l) = execute(st, left) {
        law_expression_frames(s, right);
        lemma_framed_twice(st, s, execute(s, right));
        if let Step::Done(t, r) = execute(s, right) {
            lemma_binary_frames(t, token, l, r);
            lemma_framed_twice(st, t, binary(t, token, l, r));
        }
    }
}

proof fn lemma_unary_expr_frames(st: State, token: Token, right: Expr)
    ensures
        frames(st, unary_expr(st, token, right)),
    decreases expr_size(right) + 1,
{
    law_expression_frames(st, right);
    if let Step::Done(s, value) = execute(st, right) {
        lemma_unary_frames(s, token, value);
        lemma_framed_twice(st, s, unary(s, token, value));
    }
}

proof fn lemma_or_expr_frames(st: State, left: Expr, right: Expr)
    ensures
        frames(st, or_expr(st, left, right)),
    decreases expr_size(left) + expr_size(right) + 1,
{
    law_expression_frames(st, left);
    if let Step::Done(s, l) = execute(st, left) {
        lemma_or_left_frames(s, l);
        lemma_framed_twice(st, s, or_left(s, l));
        if let Step::Done(tested, _) = or_left(s, l) {
            law_expression_frames(tested, right);
            lemma_framed_twice(st, tested, execute(tested, right));
            if let Step::Done(after, r) = execute(tested, right) {
                lemma_or_right_frames(after, s.labels, r);
                lemma_framed_twice(st, after, or_right(after, s.labels, r));
            }
        }
    }
}

proof fn lemma_and_expr_frames(st: State, left: Expr, right: Expr)
    ensures
        frames(st, and_expr(st, left, right)),
    decreases expr_size(left) + expr_size(right) + 1,
{
    law_expression_frames(st, left);
    if let Step::Done(s, l) = execute(st, left) {
        lemma_and_left_frames(s, l);
        lemma_framed_twice(st, s, and_left(s, l));
        if let Step::Done(tested, _) = and_left(s, l) {
            law_expression_frames(tested, right);
            lemma_framed_twice(st, tested, execute(tested, right));
            if let Step::Done(after, r) = execute(tested, right) {
                lemma_and_right_frames(after, s.labels, r);
                lemma_framed_twice(st, after, and_right(after, s.labels, r));
            }
        }
    }
}

proof fn lemma_assign_expr_frames(st: State, l_expr: Expr, r_expr: Expr)
    ensures
        frames(st, assign_expr(st, l_expr, r_expr)),
    decreases expr_size(l_expr) + expr_size(r_expr) + 1,
{
    lemma_place_frames(st, l_expr);
    if let Step::Done(s, place) = execute_l(st, l_expr) {
        law_expression_frames(s, r_expr);
        lemma_framed_twice(st, s, execute(s, r_expr));
        if let Step::Done(t, value) = execute(s, r_expr) {
            lemma_assign_frames(t, place, value);
            lemma_framed_twice(st, t, assign(t, place, value));
        }
    }
}

pub(crate) proof fn lemma_place_frames(st: State, e: Expr)
    ensures
        frames(st, execute_l(st, e)),
    decreases expr_size(e),
{
    lemma_small_steps(st);
    match e.kind {
        ExprKind::Unary { right, .. } => {
            law_expression_frames(st, *right);
            if let Step::Done(s, value) = execute(st, *right) {
                lemma_load_frames(s, value);
                lemma_framed_twice(st, s, load(s, value));
            }
        },
        ExprKind::Grouping { expr } => lemma_place_frames(st, *expr),
        _ => {},
    }
}

proof fn lemma_call_expr_frames(st: State, callee: Expr, args: Seq<Expr>, t: NEWTypes)
    ensures
        frames(st, call_expr(st, callee, args, t)),
    decreases exprs_size(args) + 2,
{
    lemma_arguments_frame(st, args, 0);
    if let ExprKind::Ident(name) = callee.kind {
        if let Step::Done(s, _) = arguments(st, args, 0) {
            if let Some(function) = name.name() {
                lemma_call_frames(s, function, t);
                lemma_framed_twice(st, s, call(s, function, t));
            }
        }
    }
}

proof fn lemma_arguments_frame(st: State, args: Seq<Expr>, i: int)
    ensures
        frames(st, arguments(st, args, i)),
    decreases exprs_size(args) + 1,
{
    lemma_small_steps(st);
    if args.len() > 0 {
        law_expression_frames(st, args[0]);
        if let Step::Done(s, value) = execute(st, args[0]) {
            lemma_finish_frames(s);
            if let Step::Done(t, _) = pass(s, i, args[0].type_decl, value) {
                lemma_framed_twice(st, s, Step::Done(t, Register::Void));
                lemma_arguments_frame(t, args.drop_first(), i + 1);
                lemma_framed_twice(st, t, arguments(t, args.drop_first(), i + 1));
            }
        }
    }
}

proof fn lemma_cast_up_expr_frames(st: State, expr: Expr, t: NEWTypes)
    ensures
        frames(st, cast_up_expr(st, expr, t)),
    decreases expr_size(expr) + 1,
{
    law_expression_frames(st, expr);
    if let Step::Done(s, value) = execute(st, expr) {
        lemma_cast_up_frames(s, value, expr.type_decl, t);
        lemma_framed_twice(st, s, cast_up(s, value, expr.type_decl, t));
    }
}

proof fn lemma_cast_down_expr_frames(st: State, expr: Expr, t: NEWTypes)
    ensures
        frames(st, cast_down_expr(st, expr, t)),
    decreases expr_size(expr) + 1,
{
    law_expression_frames(st, expr);
}

proof fn lemma_shift_expr_frames(st: State, head: Seq<char>, expr: Expr, amount: usize)
    ensures
        frames(st, shift_expr(st, head, expr, amount)),
    decreases expr_size(expr) + 1,
{
    law_expression_frames(st, expr);
    if let Step::Done(s, value) = execute(st, expr) {
        lemma_shift_frames(s, head, amount, value);
        lemma_framed_twice(st, s, shift(s, head, amount, value));
    }
}

} // verus!
