//! In which order code is run, and how numbers are written in it.

use vstd::prelude::*;

use crate::codegen::ast::{Expr, ExprKind, Stmt};
use crate::codegen::machine::numeral;
use crate::codegen::model::{
    and_expr, binary_expr, block, cast_down_expr, cast_up_expr, completes, execute, execute_l,
    initial, logical_expr, or_expr, preamble, program, shift_expr, statements, unary_expr, visit,
    yields, State, Step,
};
use crate::codegen::register::{first_free, Register};
use crate::codegen::register_laws::{law_expression_registers, sound};
use crate::codegen::statement_laws::law_aligned;
use crate::codegen::text::{decimal, digit, digits};
use crate::common::environment::{declare, lookup};
use crate::common::error::{Error, ErrorKind};
use crate::common::types::NEWTypes;

verus! {

/// Whether the code of each statement starts where that of the one before it ends.
pub open spec fn in_order(body: Seq<Stmt>, states: Seq<State>) -> bool {
    &&& states.len() == body.len() + 1
    &&& forall|k: int|
        #![trigger body[k]]
        0 <= k < body.len() ==> (visit(states[k], body[k]) matches Step::Done(s, _) && s == states[k
            + 1])
}

/// The code of statements is the code of each of them, in the order in which they
/// are written.
pub proof fn law_statements_in_order(st: State, body: Seq<Stmt>, after: State)
    requires
        statements(st, body) matches Step::Done(s, _) && s == after,
    ensures
        exists|states: Seq<State>| #[trigger]
            in_order(body, states) && states[0] == st && states.last() == after,
{
    let states = lemma_in_order(st, body, after);
    assert(in_order(body, states));
}

proof fn lemma_in_order(st: State, body: Seq<Stmt>, after: State) -> (states: Seq<State>)
    requires
        statements(st, body) matches Step::Done(s, _) && s == after,
    ensures
        in_order(body, states),
        states[0] == st,
        states.last() == after,
    decreases body.len(),
{
    if body.len() == 0 {
        seq![st]
    } else {
        let next = visit(st, body[0])->Done_0;
        let rest = lemma_in_order(next, body.drop_first(), after);
        let states = seq![st] + rest;
        assert forall|k: int|
            #![trigger body[k]]
            0 <= k < body.len() implies (visit(states[k], body[k]) matches Step::Done(s, _) && s
            == states[k + 1]) by {
            assert(states[k + 1] == rest[k]);
            if k > 0 {
                assert(states[k] == rest[k - 1]);
                assert(body.drop_first()[k - 1] == body[k]);
            }
        }
        states
    }
}

/// The statements of a block are run in order in a scope of their own, and the
/// scopes around it are what is left behind it.
pub proof fn law_block_in_order(st: State, stmt: Stmt, body: Seq<Stmt>, after: State)
    requires
        stmt matches Stmt::Block(_, b) && b@ == body,
        visit(st, stmt) matches Step::Done(s, _) && s == after,
    ensures
        exists|states: Seq<State>| #[trigger]
            in_order(body, states) && states[0] == (State {
                scopes: seq![Map::empty()] + st.scopes,
                ..st
            }) && after == (State {
                scopes: states.last().scopes.drop_first(),
                ..states.last()
            }),
{
    let inner = State { scopes: seq![Map::empty()] + st.scopes, ..st };
    assert(visit(st, stmt) == block(st, body, seq![Map::empty()] + st.scopes));
    let end = statements(inner, body)->Done_0;
    assert(statements(inner, body) is Done);
    let states = lemma_in_order(inner, body, end);
    assert(in_order(body, states));
}

/// A statement that is an expression is the code of the expression; its value is
/// given up, and no register stays in use for it.
pub proof fn law_expression_statement(st: State, stmt: Stmt, e: Expr, after: State)
    requires
        sound(st),
        stmt matches Stmt::Expr(x) && x == e,
        visit(st, stmt) matches Step::Done(s, _) && s == after,
    ensures
        execute(st, e) matches Step::Done(s, _) && after == (State { in_use: st.in_use, ..s }),
{
    law_expression_registers(st, e);
    let (s, v) = (execute(st, e)->Done_0, execute(st, e)->Done_1);
    assert(after.in_use =~= st.in_use);
}

/// Parentheses add no code.
pub proof fn law_grouping(st: State, e: Expr, inner: Expr)
    requires
        e.kind matches ExprKind::Grouping { expr } && *expr == inner,
    ensures
        execute(st, e) == execute(st, inner),
{
}

/// A declaration takes no code, and neither does that of a function.
pub proof fn law_declarations(st: State, stmt: Stmt, after: State)
    requires
        stmt is DeclareVar || stmt is FunctionDeclaration,
        visit(st, stmt) matches Step::Done(s, _) && s == after,
    ensures
        after.output == st.output && after.in_use == st.in_use && after.labels == st.labels,
        after.function == st.function && after.stack_sizes == st.stack_sizes,
        stmt is FunctionDeclaration ==> after == st,
{
}

/// Whether a text is a number in decimal.
pub open spec fn is_numeral(text: Seq<char>) -> bool {
    text.len() > 0 && forall|i: int| 0 <= i < text.len() ==> '0' <= #[trigger] text[i] <= '9'
}

/// A number is written as the numeral that stands for it, with a sign before it
/// where it is negative.
pub proof fn law_decimal(n: int)
    ensures
        n >= 0 ==> is_numeral(decimal(n)) && numeral(decimal(n)) == n,
        n < 0 ==> decimal(n).len() > 0 && decimal(n)[0] == '-' && is_numeral(
            decimal(n).drop_first(),
        ) && numeral(decimal(n).drop_first()) == -n,
{
    reveal_strlit("-");
    if n < 0 {
        lemma_numeral((-n) as nat);
        assert(decimal(n).drop_first() =~= digits((-n) as nat));
    } else {
        lemma_numeral(n as nat);
    }
}

proof fn lemma_numeral(n: nat)
    ensures
        is_numeral(digits(n)),
        numeral(digits(n)) == n,
    decreases n,
{
    let d = digit(n % 10);
    assert(d[0] as int - '0' as int == n % 10);
    assert('0' <= d[0] <= '9');
    if n < 10 {
        assert(digits(n).drop_last() =~= Seq::empty());
        assert(numeral(digits(n).drop_last()) == 0);
    } else {
        lemma_numeral(n / 10);
        assert(digits(n).drop_last() =~= digits(n / 10));
    }
}

/// An operator that the code generator does not know is an error where the operator
/// stands, once the code of its operands is generated.
pub proof fn law_unknown_operators(st: State, e: Expr)
    ensures
        e.kind matches ExprKind::Unary { token, right } ==> (execute(
            st,
            *right,
        ) matches Step::Done(_, _) ==> (!(token.token is Bang || token.token is Minus || token.token
            is Amp || token.token is Star) ==> (execute(st, e) matches Step::Rejected(_, error)
            && error.kind == ErrorKind::Regular("invalid unary operator") && error.line_index
            == token.line_index && error.column == token.column && error.line_string
            == token.line_string))),
        e.kind matches ExprKind::Binary { left, token, right } ==> (execute(
            st,
            e,
        ) matches Step::Done(_, _) ==> token.token is Plus || token.token is Minus || token.token
            is Star || token.token is Slash || token.token is EqualEqual || token.token
            is BangEqual || token.token is Greater || token.token is GreaterEqual || token.token
            is Less || token.token is LessEqual),
        e.kind matches ExprKind::Binary { left, token, right } ==> (execute(
            st,
            *left,
        ) matches Step::Done(s, _) ==> (execute(s, *right) matches Step::Done(_, _) ==> (execute(
            st,
            e,
        ) matches Step::Rejected(_, error) ==> error.kind == ErrorKind::Regular(
            "invalid binary operator",
        ) && error.line_index == token.line_index && error.column == token.column
            && error.line_string == token.line_string))),
{
    match e.kind {
        ExprKind::Unary { token, right } => {
            assert(execute(st, e) == unary_expr(st, token, *right));
        },
        ExprKind::Binary { left, token, right } => {
            assert(execute(st, e) == binary_expr(st, *left, token, *right));
        },
        _ => {},
    }
}

/// Before any code is generated there is no output, no register is in use, nothing
/// is declared, and no label and no stack is taken.
pub proof fn law_initial_state(stack_sizes: Map<Seq<char>, usize>)
    ensures
        initial(stack_sizes).output.len() == 0,
        initial(stack_sizes).in_use.len() == 4,
        forall|i: int| 0 <= i < 4 ==> !(#[trigger] initial(stack_sizes).in_use[i]),
        initial(stack_sizes).scopes == seq![Map::<Seq<char>, Register>::empty()],
        initial(stack_sizes).function is None,
        initial(stack_sizes).labels == 0 && initial(stack_sizes).offset == 0,
        initial(stack_sizes).stack_sizes == stack_sizes,
{
}

/// Generating code answers with a place exactly where it is done, and with an error
/// exactly where it was rejected with that error.
pub proof fn law_results(
    value: Result<Register, Error>,
    unit: Result<(), Error>,
    after: State,
    step: Step,
)
    ensures
        yields(value, after, step) ==> (value matches Ok(v) ==> step == Step::Done(after, v)) && (
        value matches Err(error) ==> step == Step::Rejected(after, error)),
        completes(unit, after, step) ==> (unit is Ok <==> step is Done) && (
        unit matches Err(error) ==> step == Step::Rejected(after, error)) && (
        step matches Step::Done(s, _) ==> s == after),
{
}

/// The register that is put to use next is the first one that is free.
pub proof fn law_first_free(in_use: Seq<bool>)
    requires
        in_use.len() == 4,
    ensures
        match first_free(in_use) {
            Some(i) => 0 <= i < 4 && !in_use[i] && forall|j: int|
                0 <= j < i ==> #[trigger] in_use[j],
            None => forall|j: int| 0 <= j < 4 ==> #[trigger] in_use[j],
        },
{
}

/// A new variable takes no more of the stack frame than its size and its alignment
/// need.
pub proof fn law_slot_tight(st: State, stmt: Stmt, t: NEWTypes, after: State)
    requires
        stmt matches Stmt::DeclareVar(u, _) && u == t,
        visit(st, stmt) matches Step::Done(s, _) && s == after,
    ensures
        st.offset + t.bytes() <= after.offset < st.offset + 2 * t.bytes(),
        after.offset % t.bytes() == 0,
{
    law_aligned(st.offset + t.bytes(), t.bytes());
}

/// A variable that is assigned to is the place where it is, and so are parentheses
/// around a place.
pub proof fn law_assigned_places(st: State, e: Expr)
    ensures
        e.kind is Ident ==> execute_l(st, e) == execute(st, e),
        e.kind matches ExprKind::Grouping { expr } ==> execute_l(st, e) == execute_l(st, *expr),
{
}

/// What is declared last under a name is what the name stands for; other names stand
/// for what they stood for, and so does every name in the scopes around.
pub proof fn law_declared(
    scopes: Seq<Map<Seq<char>, Register>>,
    name: Seq<char>,
    other: Seq<char>,
    place: Register,
)
    requires
        scopes.len() > 0,
    ensures
        lookup(declare(scopes, name, place), name) == Some(place),
        other != name ==> lookup(declare(scopes, name, place), other) == lookup(scopes, other),
        declare(scopes, name, place).drop_first() == scopes.drop_first(),
{
    assert(declare(scopes, name, place).drop_first() =~= scopes.drop_first());
}

/// A program is what every program starts with, and then the code of its statements
/// in order, behind what was generated before.
pub proof fn law_program_in_order(st: State, body: Seq<Stmt>, after: State)
    requires
        program(st, body) matches Step::Done(s, _) && s == after,
    ensures
        exists|states: Seq<State>| #[trigger]
            in_order(body, states) && states[0] == st && after == (State {
                output: preamble() + states.last().output,
                ..states.last()
            }),
{
    let end = statements(st, body)->Done_0;
    let states = lemma_in_order(st, body, end);
    assert(in_order(body, states));
}

/// Where statements come to an error, it is that of the first one that comes to one,
/// and nothing is generated for those behind it. A program that comes to an error is
/// left without what every program starts with.
pub proof fn law_first_error(st: State, body: Seq<Stmt>, after: State, error: Error)
    requires
        statements(st, body) == Step::Rejected(after, error),
    ensures
        program(st, body) == Step::Rejected(after, error),
        exists|k: int, states: Seq<State>|
            0 <= k < body.len() && #[trigger] in_order(body.take(k), states) && states[0] == st
                && visit(states.last(), body[k]) == Step::Rejected(after, error),
{
    let (k, states) = lemma_first_error(st, body, after, error);
    assert(in_order(body.take(k), states));
}

proof fn lemma_first_error(st: State, body: Seq<Stmt>, after: State, error: Error) -> (first: (
    int,
    Seq<State>,
))
    requires
        statements(st, body) == Step::Rejected(after, error),
    ensures
        0 <= first.0 < body.len(),
        in_order(body.take(first.0), first.1),
        first.1[0] == st,
        visit(first.1.last(), body[first.0]) == Step::Rejected(after, error),
    decreases body.len(),
{
    match visit(st, body[0]) {
        Step::Done(next, _) => {
            let rest = body.drop_first();
            let (k, states) = lemma_first_error(next, rest, after, error);
            let all = seq![st] + states;
            let part = body.take(k + 1);
            assert forall|i: int|
                #![trigger part[i]]
                0 <= i < part.len() implies (visit(all[i], part[i]) matches Step::Done(s, _) && s
                == all[i + 1]) by {
                assert(all[i + 1] == states[i]);
                if i > 0 {
                    assert(all[i] == states[i - 1]);
                    assert(rest.take(k)[i - 1] == part[i]);
                }
            }
            assert(in_order(part, all));
            assert(all.last() == states.last());
            (k + 1, all)
        },
        _ => {
            assert(in_order(body.take(0), seq![st]));
            (0, seq![st])
        },
    }
}

/// An error in an operand is the error of the whole expression, that of the first
/// operand first.
pub proof fn law_rejected_operands(st: State, e: Expr, first: Expr, after: State, error: Error)
    requires
        execute(st, first) == Step::Rejected(after, error),
        match e.kind {
            ExprKind::Binary { left, .. } => *left == first,
            ExprKind::Logical { left, token, .. } => *left == first && (token.token is AmpAmp
                || token.token is PipePipe),
            ExprKind::Unary { right, .. } => *right == first,
            ExprKind::Grouping { expr } => *expr == first,
            ExprKind::CastUp { expr } => *expr == first && e.type_decl is Some,
            ExprKind::CastDown { expr } => *expr == first && e.type_decl is Some,
            ExprKind::ScaleUp { expr, .. } => *expr == first,
            ExprKind::ScaleDown { expr, .. } => *expr == first,
            _ => false,
        },
    ensures
        execute(st, e) == Step::Rejected(after, error),
{
    match e.kind {
        ExprKind::Binary { left, token, right } => {
            assert(execute(st, e) == binary_expr(st, *left, token, *right));
        },
        ExprKind::Logical { left, token, right } => {
            assert(execute(st, e) == logical_expr(st, *left, token, *right));
            if token.token is AmpAmp {
                assert(execute(st, e) == and_expr(st, *left, *right));
            } else {
                assert(execute(st, e) == or_expr(st, *left, *right));
            }
        },
        ExprKind::Unary { token, right } => {
            assert(execute(st, e) == unary_expr(st, token, *right));
        },
        ExprKind::CastUp { expr } => {
            assert(execute(st, e) == cast_up_expr(st, *expr, e.type_decl->0));
        },
        ExprKind::CastDown { expr } => {
            assert(execute(st, e) == cast_down_expr(st, *expr, e.type_decl->0));
        },
        ExprKind::ScaleUp { expr, shift_amount } => {
            assert(execute(st, e) == shift_expr(st, "sal"@, *expr, shift_amount));
        },
        ExprKind::ScaleDown { expr, shift_amount } => {
            assert(execute(st, e) == shift_expr(st, "sar"@, *expr, shift_amount));
        },
        _ => {},
    }
}

} // verus!
