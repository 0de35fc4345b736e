//! What statements leave as it was.

use vstd::prelude::*;

use crate::codegen::ast::{stmt_size, stmts_size, Expr, Stmt};
use crate::codegen::frame_laws::{
    framed, frames, law_expression_frames, lemma_load_frames, starts_with,
};
use crate::codegen::model::{
    aligned, allocate_stack, block, declare_variable, discard, either, emit, execute, finish,
    function_definition, function_end, function_head, function_start, if_statement, initialize,
    jump_line, label_line, load, next_label, only, parameters, repeat, return_statement, statements,
    test_condition, variable, visit, while_statement, State, Step,
};
use crate::codegen::register::Register;
use crate::common::token::Token;
use crate::common::types::NEWTypes;

verus! {

/// Aligning an offset gives the least multiple of the size that is not less than
/// the offset.
pub proof fn law_aligned(offset: nat, size: nat)
    requires
        size > 0,
    ensures
        aligned(offset, size) % size == 0,
        offset <= aligned(offset, size) < offset + size,
{
    let remainder = offset % size;
    assert(0 <= remainder < size) by (nonlinear_arith)
        requires
            remainder == offset % size,
            size > 0,
    ;
    if remainder != 0 {
        vstd::arithmetic::div_mod::lemma_fundamental_div_mod(offset as int, size as int);
        let quotient = offset / size;
        assert(aligned(offset, size) == size * (quotient + 1)) by (nonlinear_arith)
            requires
                offset == size * quotient + remainder,
                aligned(offset, size) == offset + (size - remainder),
        ;
        vstd::arithmetic::div_mod::lemma_mod_multiples_basic(quotient as int + 1, size as int);
        assert(size * (quotient + 1) == (quotient + 1) * size) by (nonlinear_arith);
    }
}

/// Aligning an offset that is aligned changes nothing.
pub proof fn law_aligned_twice(offset: nat, size: nat)
    requires
        size > 0,
    ensures
        aligned(aligned(offset, size), size) == aligned(offset, size),
{
    law_aligned(offset, size);
}

/// Whether the stack of each function is as large as before, or that much
/// aligned to 16 bytes.
pub open spec fn resized(before: Map<Seq<char>, usize>, after: Map<Seq<char>, usize>) -> bool {
    &&& after.dom() == before.dom()
    &&& forall|function: Seq<char>| #[trigger]
        after.contains_key(function) ==> after[function] == before[function]
            || after[function] == aligned(before[function] as nat, 16)
}

/// Whether a statement holds no definition of a function.
pub open spec fn plain(stmt: Stmt) -> bool
    decreases stmt_size(stmt),
{
    match stmt {
        Stmt::Block(_, body) => plain_body(body@),
        Stmt::Function(_, _, _, _) => false,
        Stmt::If(_, _, then_branch, else_branch) => plain(*then_branch) && match *else_branch {
            Some(branch) => plain(branch),
            None => true,
        },
        Stmt::While(_, _, body) => plain(*body),
        _ => true,
    }
}

/// Whether statements hold no definition of a function.
pub open spec fn plain_body(body: Seq<Stmt>) -> bool
    decreases stmts_size(body) + 1,
{
    body.len() > 0 ==> plain(body[0]) && plain_body(body.drop_first())
}

/// What statements leave as it was: what was emitted before stays, labels only
/// get more, and the variables of all scopes but the innermost are the same.
/// Where no function is defined, so are the function and the size of its stack,
/// and the stack frame only grows.
#[verifier::opaque]
pub open spec fn carried(plain: bool, before: State, after: State) -> bool {
    &&& starts_with(after.output, before.output)
    &&& before.labels <= after.labels
    &&& after.scopes.len() == before.scopes.len()
    &&& after.scopes.drop_first() == before.scopes.drop_first()
    &&& resized(before.stack_sizes, after.stack_sizes)
    &&& plain ==> {
        &&& after.function == before.function
        &&& after.stack_sizes == before.stack_sizes
        &&& before.offset <= after.offset
    }
}

/// Whether a step leaves what statements leave as it was, whether it succeeds or
/// comes to an error.
pub open spec fn carries(plain: bool, before: State, step: Step) -> bool {
    match step {
        Step::Done(after, _) => carried(plain, before, after),
        Step::Rejected(after, _) => carried(plain, before, after),
        Step::Stuck => true,
    }
}

proof fn lemma_carried_twice(plain: bool, first: State, second: State, step: Step)
    requires
        carried(plain, first, second),
        carries(plain, second, step),
    ensures
        carries(plain, first, step),
{
    reveal(carried);
}

proof fn lemma_carried_less(more: bool, less: bool, before: State, step: Step)
    requires
        less ==> more,
        carries(more, before, step),
    ensures
        carries(less, before, step),
{
    reveal(carried);
}

proof fn lemma_frames_carry(plain: bool, before: State, step: Step)
    requires
        frames(before, step),
    ensures
        carries(plain, before, step),
{
    reveal(carried);
    reveal(framed);
}

proof fn lemma_carried_small(plain: bool, st: State)
    ensures
        carried(plain, st, st),
        carried(plain, st, next_label(st)),
        forall|text: Seq<char>| carried(plain, st, #[trigger] emit(st, text)),
{
    reveal(carried);
}

pub(crate) proof fn lemma_carried_scopes(plain: bool, before: State, after: State)
    requires
        carried(plain, before, after),
    ensures
        after.scopes.len() == before.scopes.len(),
{
    reveal(carried);
}

proof fn lemma_expression_carries(plain: bool, st: State, e: Expr)
    ensures
        carries(plain, st, execute(st, e)),
{
    law_expression_frames(st, e);
    lemma_frames_carry(plain, st, execute(st, e));
}

/// What is emitted after an expression, and its value given up.
proof fn lemma_finish_carries(plain: bool, st: State)
    ensures
        forall|text: Option<Seq<char>>, freed: Register, result: Register|
            carries(plain, st, #[trigger] finish(st, text, freed, result)),
        forall|value: Register| carries(plain, st, #[trigger] discard(st, value)),
{
    reveal(carried);
}

pub(crate) proof fn lemma_declare_carries(plain: bool, st: State, t: NEWTypes, name: Token)
    requires
        st.scopes.len() > 0,
    ensures
        carries(plain, st, declare_variable(st, t, name)),
{
    reveal(carried);
    if let Step::Done(after, _) = declare_variable(st, t, name) {
        law_aligned(st.offset + t.bytes(), t.bytes());
        assert(after.scopes.drop_first() =~= st.scopes.drop_first());
    }
}

proof fn lemma_initialize_carries(plain: bool, st: State, t: NEWTypes, name: Token, value: Register)
    requires
        st.scopes.len() > 0,
    ensures
        carries(plain, st, initialize(st, t, name, value)),
{
    lemma_declare_carries(plain, st, t, name);
    if let Step::Done(declared, _) = declare_variable(st, t, name) {
        lemma_load_frames(declared, value);
        lemma_frames_carry(plain, declared, load(declared, value));
        lemma_carried_twice(plain, st, declared, load(declared, value));
        if let Step::Done(loaded, v) = load(declared, value) {
            lemma_finish_carries(plain, loaded);
            if let Step::Done(found, _) = variable(loaded, name) {
                lemma_carried_twice(plain, st, loaded, initialize(st, t, name, value));
            }
        }
    }
}

pub(crate) proof fn lemma_parameters_carry(
    plain: bool,
    st: State,
    params: Seq<(NEWTypes, Token)>,
    i: int,
)
    requires
        st.scopes.len() > 0,
    ensures
        carries(plain, st, parameters(st, params, i)),
    decreases params.len() - i,
{
    lemma_carried_small(plain, st);
    if 0 <= i < params.len() {
        let value = Register::Arg(i as usize, params[i].0);
        lemma_initialize_carries(plain, st, params[i].0, params[i].1, value);
        if let Step::Done(s, _) = initialize(st, params[i].0, params[i].1, value) {
            lemma_carried_scopes(plain, st, s);
            lemma_parameters_carry(plain, s, params, i + 1);
            lemma_carried_twice(plain, st, s, parameters(s, params, i + 1));
        }
    }
}

proof fn lemma_allocate_stack_carries(st: State, function: Seq<char>)
    ensures
        carries(false, st, allocate_stack(st, function)),
{
    reveal(carried);
    if let Step::Done(after, _) = allocate_stack(st, function) {
        assert(after.stack_sizes.dom() =~= st.stack_sizes.dom());
    }
}

proof fn lemma_function_start_carries(
    st: State,
    function: Seq<char>,
    params: Seq<(NEWTypes, Token)>,
)
    requires
        st.scopes.len() > 0,
    ensures
        carries(false, st, function_start(st, function, params)),
{
    let started = emit(st, function_head(function));
    lemma_carried_small(false, st);
    lemma_allocate_stack_carries(started, function);
    lemma_carried_twice(false, st, started, allocate_stack(started, function));
    if let Step::Done(s, _) = allocate_stack(started, function) {
        lemma_carried_scopes(false, st, s);
        lemma_parameters_carry(false, s, params, 0);
        lemma_carried_twice(false, st, s, parameters(s, params, 0));
    }
}

proof fn lemma_function_end_carries(plain: bool, st: State, function: Seq<char>)
    ensures
        carries(plain, st, function_end(st, function)),
{
    reveal(carried);
}

proof fn lemma_return_carries(plain: bool, st: State, value: Option<Expr>)
    ensures
        carries(plain, st, return_statement(st, value)),
{
    lemma_carried_small(plain, st);
    if let Some(expr) = value {
        lemma_expression_carries(plain, st, expr);
        if let Step::Done(s, v) = execute(st, expr) {
            lemma_finish_carries(plain, s);
            if st.function is Some {
                lemma_carried_twice(plain, st, s, return_statement(st, value));
            }
        }
    }
}

/// Generating a statement only appends to the output and takes labels in order,
/// and leaves the variables of all scopes but the innermost as they were, also
/// where it comes to an error.
pub proof fn law_statement_carries(st: State, stmt: Stmt)
    requires
        st.scopes.len() > 0,
    ensures
        carries(plain(stmt), st, visit(st, stmt)),
    decreases stmt_size(stmt),
{
    lemma_carried_small(plain(stmt), st);
    match stmt {
        Stmt::Expr(expr) => {
            lemma_expression_carries(plain(stmt), st, expr);
            if let Step::Done(s, v) = execute(st, expr) {
                lemma_finish_carries(plain(stmt), s);
                lemma_carried_twice(plain(stmt), st, s, discard(s, v));
            }
        },
        Stmt::DeclareVar(t, name) => lemma_declare_carries(plain(stmt), st, t, name),
        Stmt::InitVar(t, name, expr) => {
            lemma_expression_carries(plain(stmt), st, expr);
            if let Step::Done(s, v) = execute(st, expr) {
                lemma_carried_scopes(plain(stmt), st, s);
                lemma_initialize_carries(plain(stmt), s, t, name, v);
                lemma_carried_twice(plain(stmt), st, s, initialize(s, t, name, v));
            }
        },
        Stmt::Block(_, body) => lemma_block_carries(st, body@),
        Stmt::Function(_, name, params, body) => {
            if let Some(function) = name.name() {
                lemma_function_carries(st, function, params@, body@);
            }
        },
        Stmt::Return(_, value) => lemma_return_carries(plain(stmt), st, value),
        Stmt::If(_, cond, then_branch, else_branch) => {
            lemma_if_carries(plain(stmt), st, cond, *then_branch, *else_branch);
        },
        Stmt::While(_, cond, body) => {
            lemma_while_carries(plain(stmt), st, cond, *body);
        },
        Stmt::FunctionDeclaration(_, _, _) => {},
    }
}

/// What holds of one statement holds of one after the other.
pub proof fn law_statements_carry(st: State, body: Seq<Stmt>)
    requires
        st.scopes.len() > 0,
    ensures
        carries(plain_body(body), st, statements(st, body)),
    decreases stmts_size(body) + 1,
{
    lemma_carried_small(plain_body(body), st);
    if body.len() > 0 {
        law_statement_carries(st, body[0]);
        lemma_carried_less(plain(body[0]), plain_body(body), st, visit(st, body[0]));
        if let Step::Done(s, _) = visit(st, body[0]) {
            lemma_carried_scopes(plain(body[0]), st, s);
            law_statements_carry(s, body.drop_first());
            lemma_carried_less(
                plain_body(body.drop_first()),
                plain_body(body),
                s,
                statements(s, body.drop_first()),
            );
            lemma_carried_twice(plain_body(body), st, s, statements(s, body.drop_first()));
        }
    }
}

/// The scopes that a step ends in.
pub open spec fn ends_in(step: Step, scopes: Seq<Map<Seq<char>, Register>>) -> bool {
    match step {
        Step::Done(after, _) => after.scopes == scopes,
        Step::Rejected(after, _) => after.scopes == scopes,
        Step::Stuck => true,
    }
}

pub(crate) proof fn lemma_block_carries(st: State, body: Seq<Stmt>)
    ensures
        carries(plain_body(body), st, block(st, body, seq![Map::empty()] + st.scopes)),
        ends_in(block(st, body, seq![Map::empty()] + st.scopes), st.scopes),
    decreases stmts_size(body) + 2,
{
    let scopes = seq![Map::<Seq<char>, Register>::empty()] + st.scopes;
    let inner = State { scopes, ..st };
    law_statements_carry(inner, body);
    assert(scopes.drop_first() =~= st.scopes);
    reveal(carried);
}

proof fn lemma_function_carries(
    st: State,
    function: Seq<char>,
    params: Seq<(NEWTypes, Token)>,
    body: Seq<Stmt>,
)
    requires
        st.scopes.len() > 0,
    ensures
        carries(false, st, function_definition(st, function, params, body)),
    decreases stmts_size(body) + 2,
{
    let named = State { function: Some(function), ..st };
    lemma_function_start_carries(named, function, params);
    if let Step::Done(s, _) = function_start(named, function, params) {
        lemma_carried_scopes(false, named, s);
        law_statements_carry(s, body);
        lemma_carried_less(plain_body(body), false, s, statements(s, body));
        lemma_carried_twice(false, named, s, statements(s, body));
        if let Step::Done(t, _) = statements(s, body) {
            lemma_function_end_carries(false, t, function);
            lemma_carried_twice(false, named, t, function_end(t, function));
        }
    }
    reveal(carried);
}

proof fn lemma_if_carries(
    plain_if: bool,
    st: State,
    cond: Expr,
    then_branch: Stmt,
    else_branch: Option<Stmt>,
)
    requires
        st.scopes.len() > 0,
        plain_if ==> plain(then_branch),
        plain_if ==> (else_branch matches Some(branch) ==> plain(branch)),
    ensures
        carries(plain_if, st, if_statement(st, cond, then_branch, else_branch)),
    decreases
            stmt_size(then_branch) + (match else_branch {
                Some(branch) => stmt_size(branch),
                None => 0,
            }) + 3,
{
    lemma_expression_carries(plain_if, st, cond);
    if let Step::Done(s, value) = execute(st, cond) {
        lemma_carried_small(plain_if, s);
        lemma_finish_carries(plain_if, next_label(s));
        lemma_carried_twice(plain_if, s, next_label(s), test_condition(next_label(s), value));
        lemma_carried_twice(plain_if, st, s, test_condition(next_label(s), value));
        if let Step::Done(tested, _) = test_condition(next_label(s), value) {
            lemma_carried_scopes(plain_if, st, tested);
            if let Some(branch) = else_branch {
                lemma_either_carries(plain_if, tested, then_branch, branch, s.labels);
                lemma_carried_twice(
                    plain_if,
                    st,
                    tested,
                    either(tested, then_branch, branch, s.labels),
                );
            } else {
                lemma_only_carries(plain_if, tested, then_branch, s.labels);
                lemma_carried_twice(plain_if, st, tested, only(tested, then_branch, s.labels));
            }
        }
    }
}

pub(crate) proof fn lemma_visit_carries(less: bool, st: State, stmt: Stmt)
    requires
        st.scopes.len() > 0,
        less ==> plain(stmt),
    ensures
        carries(less, st, visit(st, stmt)),
        visit(st, stmt) matches Step::Done(after, _) ==> after.scopes.len() > 0,
    decreases stmt_size(stmt) + 1,
{
    law_statement_carries(st, stmt);
    lemma_carried_less(plain(stmt), less, st, visit(st, stmt));
    if let Step::Done(after, _) = visit(st, stmt) {
        lemma_carried_scopes(less, st, after);
    }
}

proof fn lemma_either_carries(
    less: bool,
    st: State,
    then_branch: Stmt,
    else_branch: Stmt,
    done_label: nat,
)
    requires
        st.scopes.len() > 0,
        less ==> plain(then_branch),
        less ==> plain(else_branch),
    ensures
        carries(less, st, either(st, then_branch, else_branch, done_label)),
    decreases stmt_size(then_branch) + stmt_size(else_branch) + 2,
{
    let first = emit(next_label(st), jump_line("\tje    L"@, st.labels));
    lemma_carried_small(less, st);
    lemma_carried_small(less, next_label(st));
    lemma_carried_twice(less, st, next_label(st), Step::Done(first, Register::Void));
    lemma_visit_carries(less, first, then_branch);
    lemma_carried_twice(less, st, first, visit(first, then_branch));
    if let Step::Done(s, _) = visit(first, then_branch) {
        let second = emit(s, jump_line("\tjmp    L"@, done_label) + label_line(st.labels));
        lemma_carried_small(less, s);
        lemma_carried_twice(less, st, s, Step::Done(second, Register::Void));
        lemma_visit_carries(less, second, else_branch);
        lemma_carried_twice(less, st, second, visit(second, else_branch));
        if let Step::Done(t, _) = visit(second, else_branch) {
            lemma_carried_small(less, t);
            lemma_carried_twice(
                less,
                st,
                t,
                Step::Done(emit(t, label_line(done_label)), Register::Void),
            );
        }
    }
}

proof fn lemma_only_carries(less: bool, st: State, then_branch: Stmt, done_label: nat)
    requires
        st.scopes.len() > 0,
        less ==> plain(then_branch),
    ensures
        carries(less, st, only(st, then_branch, done_label)),
    decreases stmt_size(then_branch) + 2,
{
    let first = emit(st, jump_line("\tje    L"@, done_label));
    lemma_carried_small(less, st);
    lemma_visit_carries(less, first, then_branch);
    lemma_carried_twice(less, st, first, visit(first, then_branch));
    if let Step::Done(t, _) = visit(first, then_branch) {
        lemma_carried_small(less, t);
        lemma_carried_twice(
            less,
            st,
            t,
            Step::Done(emit(t, label_line(done_label)), Register::Void),
        );
    }
}

proof fn lemma_while_carries(less: bool, st: State, cond: Expr, body: Stmt)
    requires
        st.scopes.len() > 0,
        less ==> plain(body),
    ensures
        carries(less, st, while_statement(st, cond, body)),
    decreases stmt_size(body) + 2,
{
    let labelled = next_label(next_label(st));
    let first = emit(
        labelled,
        jump_line("\tjmp    L"@, st.labels + 1) + label_line(st.labels),
    );
    lemma_carried_small(less, st);
    lemma_carried_small(less, next_label(st));
    lemma_carried_small(less, labelled);
    lemma_carried_twice(less, next_label(st), labelled, Step::Done(first, Register::Void));
    lemma_carried_twice(less, st, next_label(st), Step::Done(first, Register::Void));
    lemma_visit_carries(less, first, body);
    lemma_carried_twice(less, st, first, visit(first, body));
    if let Step::Done(s, _) = visit(first, body) {
        let ended = emit(s, label_line(st.labels + 1));
        lemma_carried_small(less, s);
        lemma_carried_twice(less, st, s, Step::Done(ended, Register::Void));
        lemma_expression_carries(less, ended, cond);
        lemma_carried_twice(less, st, ended, execute(ended, cond));
        if let Step::Done(t, value) = execute(ended, cond) {
            lemma_finish_carries(less, t);
            lemma_carried_twice(less, st, t, repeat(t, value, st.labels));
        }
    }
}

} // verus!
