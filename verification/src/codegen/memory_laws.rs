//! Where values are in memory: no `mov` that stores a value takes it from memory,
//! but for a value that was itself stored through a pointer.

use vstd::prelude::*;

use crate::codegen::ast::{Expr, ExprKind, Stmt};
use crate::codegen::frame_laws::{framed, law_expression_frames, lemma_place_frames};
use crate::codegen::model::{
    and_expr, assign, assign_expr, binary, binary_expr, call_expr, cast_down_expr, cast_up_expr,
    declare_variable, execute, execute_l, initialize, instruction, load, logical_expr, or_expr,
    shift_expr, unary, unary_expr, variable, visit, State, Step,
};
use crate::codegen::register::Register;
use crate::codegen::register_laws::{lemma_variable_on_stack, variables_on_stack};
use crate::common::token::{Token, TokenType};
use crate::common::types::NEWTypes;

verus! {

/// Whether an operand is one in memory.
pub open spec fn in_memory(place: Register) -> bool {
    place is Stack || place is Deref
}

/// What a `mov` from one place to another adds to the output.
pub open spec fn moved(
    before: State,
    t: Option<NEWTypes>,
    from: Register,
    to: Register,
    after: State,
) -> bool {
    instruction("\tmov"@, t, "    "@, from.operand(), to.operand()) matches Some(text)
        && after.output == before.output + text
}

/// A value of the stack frame is moved into a scratch register before it is used,
/// and any other one stays where it is.
pub proof fn law_load(st: State, value: Register)
    ensures
        load(st, value) matches Step::Done(after, loaded) ==> if value is Stack {
            loaded is Scratch && moved(st, value.type_of(), value, loaded, after)
        } else {
            loaded == value && after == st
        },
{
}

/// An assignment stores by one `mov`, and not both its operands are in memory,
/// unless the value is where a pointer points to.
pub proof fn law_assign_operands(st: State, place: Register, value: Register)
    requires
        !(value is Deref && in_memory(place)),
    ensures
        assign(st, place, value) matches Step::Done(after, _) ==> (load(
            st,
            value,
        ) matches Step::Done(ready, source) && !(in_memory(source) && in_memory(place)) && moved(
            ready,
            source.type_of(),
            source,
            place,
            after,
        )),
{
    law_load(st, value);
}

/// The initial value of a variable is stored by one `mov`, and not both its
/// operands are in memory, unless the value is where a pointer points to.
pub proof fn law_initialize_operands(st: State, t: NEWTypes, name: Token, value: Register)
    requires
        !(value is Deref),
    ensures
        initialize(st, t, name, value) matches Step::Done(after, _) ==> (declare_variable(
            st,
            t,
            name,
        ) matches Step::Done(declared, _) && (load(declared, value) matches Step::Done(
            ready,
            source,
        ) && (variable(ready, name) matches Step::Done(_, place) && !in_memory(source) && moved(
            ready,
            Some(t),
            source,
            place,
            after,
        )))),
{
    if let Step::Done(declared, _) = declare_variable(st, t, name) {
        law_load(declared, value);
    }
}

/// Whether an expression that is assigned to is what a pointer points to.
pub open spec fn pointed_to(e: Expr) -> bool
    decreases e,
{
    match e.kind {
        ExprKind::Unary { .. } => true,
        ExprKind::Grouping { expr } => pointed_to(*expr),
        _ => false,
    }
}

/// Whether the value of an expression is one that was stored through a pointer,
/// or was computed in the place where that one is.
pub open spec fn through_pointer(e: Expr) -> bool
    decreases e,
{
    match e.kind {
        ExprKind::Assign { l_expr, .. } => pointed_to(*l_expr),
        ExprKind::Binary { left, token, right } => if token.token is Minus {
            through_pointer(*left)
        } else {
            through_pointer(*right)
        },
        ExprKind::Unary { token, right } => (token.token is Bang || token.token is Minus)
            && through_pointer(*right),
        ExprKind::Grouping { expr } => through_pointer(*expr),
        ExprKind::CastDown { expr } => through_pointer(*expr),
        ExprKind::ScaleUp { expr, .. } => through_pointer(*expr),
        ExprKind::ScaleDown { expr, .. } => through_pointer(*expr),
        _ => false,
    }
}

proof fn lemma_execute_scopes(st: State, e: Expr)
    ensures
        execute(st, e) matches Step::Done(after, _) ==> after.scopes == st.scopes,
{
    law_expression_frames(st, e);
    reveal(framed);
}

proof fn lemma_place(st: State, e: Expr)
    requires
        variables_on_stack(st.scopes),
    ensures
        execute_l(st, e) matches Step::Done(_, place) ==> (place is Deref) == pointed_to(e),
    decreases e,
{
    match e.kind {
        ExprKind::Ident(name) => {
            if let Some(name) = name.name() {
                lemma_variable_on_stack(st.scopes, name);
            }
        },
        ExprKind::Grouping { expr } => lemma_place(st, *expr),
        _ => {},
    }
}

proof fn lemma_unary_place(st: State, token: Token, value: Register)
    ensures
        unary(st, token, value) matches Step::Done(_, result) ==> (result is Deref) == ((
        token.token is Bang || token.token is Minus) && value is Deref),
{
}

proof fn lemma_binary_place(st: State, token: Token, left: Register, right: Register)
    ensures
        binary(st, token, left, right) matches Step::Done(_, result) ==> (result is Deref) == (
        if token.token is Minus {
            left is Deref
        } else {
            right is Deref
        }),
{
    law_load(st, left);
    if let Step::Done(ready, _) = load(st, left) {
        law_load(ready, right);
    }
}

proof fn lemma_logical_place(st: State, left: Expr, token: Token, right: Expr)
    ensures
        logical_expr(st, left, token, right) matches Step::Done(_, result) ==> !(result is Deref),
{
    match token.token {
        TokenType::AmpAmp => {
            assert(logical_expr(st, left, token, right) == and_expr(st, left, right));
        },
        TokenType::PipePipe => {
            assert(logical_expr(st, left, token, right) == or_expr(st, left, right));
        },
        _ => {},
    }
}

/// The value of an expression is where a pointer points to exactly where it was
/// stored through a pointer, or computed where such a value is.
pub proof fn law_value_place(st: State, e: Expr)
    requires
        variables_on_stack(st.scopes),
    ensures
        execute(st, e) matches Step::Done(_, value) ==> (value is Deref) == through_pointer(e),
    decreases e,
{
    match e.kind {
        ExprKind::Binary { left, token, right } => {
            law_value_place(st, *left);
            lemma_execute_scopes(st, *left);
            if let Step::Done(s, x) = execute(st, *left) {
                law_value_place(s, *right);
                if let Step::Done(t, y) = execute(s, *right) {
                    lemma_binary_place(t, token, x, y);
                }
            }
            assert(execute(st, e) == binary_expr(st, *left, token, *right));
        },
        ExprKind::Ident(name) => {
            if let Some(name) = name.name() {
                lemma_variable_on_stack(st.scopes, name);
            }
        },
        ExprKind::Grouping { expr } => law_value_place(st, *expr),
        ExprKind::Unary { token, right } => {
            law_value_place(st, *right);
            if let Step::Done(s, value) = execute(st, *right) {
                lemma_unary_place(s, token, value);
            }
            assert(execute(st, e) == unary_expr(st, token, *right));
        },
        ExprKind::Logical { left, token, right } => {
            lemma_logical_place(st, *left, token, *right);
        },
        ExprKind::Assign { l_expr, r_expr, .. } => {
            lemma_place(st, *l_expr);
            assert(execute(st, e) == assign_expr(st, *l_expr, *r_expr));
        },
        ExprKind::Call { callee, args, .. } => {
            if let Some(t) = e.type_decl {
                assert(execute(st, e) == call_expr(st, *callee, args@, t));
            }
        },
        ExprKind::CastUp { expr } => {
            if let Some(t) = e.type_decl {
                assert(execute(st, e) == cast_up_expr(st, *expr, t));
            }
        },
        ExprKind::CastDown { expr } => {
            law_value_place(st, *expr);
            if let Some(t) = e.type_decl {
                assert(execute(st, e) == cast_down_expr(st, *expr, t));
            }
        },
        ExprKind::ScaleUp { expr, shift_amount } => {
            law_value_place(st, *expr);
            assert(execute(st, e) == shift_expr(st, "sal"@, *expr, shift_amount));
        },
        ExprKind::ScaleDown { expr, shift_amount } => {
            law_value_place(st, *expr);
            assert(execute(st, e) == shift_expr(st, "sar"@, *expr, shift_amount));
        },
        _ => {},
    }
}

/// Whether the last thing that was emitted is a `mov` whose source is a register.
pub open spec fn stored_from_register(after: State) -> bool {
    exists|before: State, t: Option<NEWTypes>, source: Register, place: Register|
        !in_memory(source) && #[trigger] moved(before, t, source, place, after)
}

/// No assignment ends in a `mov` from memory to memory, unless what is assigned
/// was stored through a pointer.
pub proof fn law_assignment_stores(st: State, l_expr: Expr, r_expr: Expr)
    requires
        variables_on_stack(st.scopes),
        !through_pointer(r_expr),
    ensures
        assign_expr(st, l_expr, r_expr) matches Step::Done(after, _) ==> stored_from_register(
            after,
        ),
{
    lemma_place_frames(st, l_expr);
    if let Step::Done(s, place) = execute_l(st, l_expr) {
        assert(s.scopes == st.scopes) by {
            reveal(framed);
        }
        law_value_place(s, r_expr);
        if let Step::Done(t, value) = execute(s, r_expr) {
            law_assign_operands(t, place, value);
            law_load(t, value);
        }
    }
}

/// No initialization ends in a `mov` from memory to memory, unless the initial
/// value was stored through a pointer.
pub proof fn law_initialization_stores(st: State, t: NEWTypes, name: Token, value: Expr)
    requires
        variables_on_stack(st.scopes),
        !through_pointer(value),
    ensures
        visit(st, Stmt::InitVar(t, name, value)) matches Step::Done(after, _)
            ==> stored_from_register(after),
{
    law_value_place(st, value);
    if let Step::Done(s, initial) = execute(st, value) {
        law_initialize_operands(s, t, name, initial);
    }
}

} // verus!
