//! Which scratch registers are in use after statements.

use vstd::prelude::*;

use crate::codegen::ast::{stmt_size, stmts_size, Expr, Stmt};
use crate::codegen::frame_laws::{framed, law_expression_frames, lemma_load_frames};
use crate::codegen::model::{
    allocate_stack, block, declare_variable, discard, either, emit, execute, finish,
    function_definition, function_head, function_start, if_statement, initialize, jump_line,
    label_line, load, next_label, only, parameters, statements, test_condition, visit,
    while_statement, State, Step,
};
use crate::codegen::register::Register;
use crate::codegen::register_laws::{
    fresh, holding, law_expression_registers, lemma_finish_registers, lemma_free_last,
    lemma_load_registers, sound, variables_on_stack,
};
use crate::codegen::statement_laws::lemma_block_carries;
use crate::common::token::Token;
use crate::common::types::NEWTypes;

verus! {

/// Whether a step, where it succeeds, leaves the scratch registers in use as they
/// were, and every variable in the stack frame.
pub open spec fn gives_back(before: State, step: Step) -> bool {
    step matches Step::Done(after, _) ==> after.in_use == before.in_use && sound(after)
}

/// What follows a value that is generated and given up.
proof fn lemma_used(before: State, st: State, value: Register)
    requires
        sound(before),
        st.scopes == before.scopes,
        fresh(before.in_use, value),
        st.in_use == holding(before.in_use, value),
    ensures
        forall|text: Option<Seq<char>>, result: Register|
            gives_back(before, #[trigger] finish(st, text, value, result)),
        gives_back(before, discard(st, value)),
{
    lemma_free_last(before.in_use, st, value);
}

proof fn lemma_generated(st: State, e: Expr)
    requires
        sound(st),
    ensures
        execute(st, e) matches Step::Done(after, value) ==> {
            &&& after.scopes == st.scopes
            &&& fresh(st.in_use, value)
            &&& after.in_use == holding(st.in_use, value)
        },
{
    law_expression_frames(st, e);
    law_expression_registers(st, e);
    reveal(framed);
}

proof fn lemma_declare_registers(st: State, t: NEWTypes, name: Token)
    requires
        st.scopes.len() > 0,
        variables_on_stack(st.scopes),
    ensures
        declare_variable(st, t, name) matches Step::Done(after, _) ==> {
            &&& after.in_use == st.in_use
            &&& after.scopes.len() == st.scopes.len()
            &&& variables_on_stack(after.scopes)
        },
{
    if let Step::Done(after, _) = declare_variable(st, t, name) {
        assert forall|i: int, n: Seq<char>|
            0 <= i < after.scopes.len() && #[trigger] after.scopes[i].contains_key(
                n,
            ) implies after.scopes[i][n] is Stack by {
            if st.scopes[i].contains_key(n) {
            }
        }
    }
}

pub(crate) proof fn lemma_initialize_registers(
    before: State,
    st: State,
    t: NEWTypes,
    name: Token,
    value: Register,
)
    requires
        sound(before),
        st.scopes == before.scopes,
        fresh(before.in_use, value),
        st.in_use == holding(before.in_use, value),
    ensures
        gives_back(before, initialize(st, t, name, value)),
{
    lemma_declare_registers(st, t, name);
    if let Step::Done(declared, _) = declare_variable(st, t, name) {
        lemma_load_frames(declared, value);
        lemma_load_registers(declared, value);
        if let Step::Done(loaded, v) = load(declared, value) {
            assert(fresh(before.in_use, v) && loaded.in_use == holding(before.in_use, v));
            lemma_free_last(before.in_use, loaded, v);
            lemma_finish_registers(loaded);
            assert(loaded.scopes == declared.scopes) by {
                reveal(framed);
            }
        }
    }
}

pub(crate) proof fn lemma_parameters_registers(st: State, params: Seq<(NEWTypes, Token)>, i: int)
    requires
        sound(st),
    ensures
        gives_back(st, parameters(st, params, i)),
    decreases params.len() - i,
{
    if 0 <= i < params.len() {
        let value = Register::Arg(i as usize, params[i].0);
        lemma_initialize_registers(st, st, params[i].0, params[i].1, value);
        if let Step::Done(s, _) = initialize(st, params[i].0, params[i].1, value) {
            lemma_parameters_registers(s, params, i + 1);
        }
    }
}

/// A statement leaves the scratch registers in use as they were, and every
/// variable in the stack frame.
pub proof fn law_statement_registers(st: State, stmt: Stmt)
    requires
        sound(st),
    ensures
        gives_back(st, visit(st, stmt)),
    decreases stmt_size(stmt),
{
    match stmt {
        Stmt::Expr(expr) => {
            lemma_generated(st, expr);
            if let Step::Done(s, v) = execute(st, expr) {
                lemma_used(st, s, v);
            }
        },
        Stmt::DeclareVar(t, name) => lemma_declare_registers(st, t, name),
        Stmt::InitVar(t, name, expr) => {
            lemma_generated(st, expr);
            if let Step::Done(s, v) = execute(st, expr) {
                lemma_initialize_registers(st, s, t, name, v);
            }
        },
        Stmt::Block(_, body) => lemma_block_registers(st, body@),
        Stmt::Function(_, name, params, body) => {
            if let Some(function) = name.name() {
                lemma_function_registers(st, function, params@, body@);
            }
        },
        Stmt::Return(_, value) => {
            if let Some(expr) = value {
                lemma_generated(st, expr);
                if let Step::Done(s, v) = execute(st, expr) {
                    lemma_used(st, s, v);
                }
            }
        },
        Stmt::If(_, cond, then_branch, else_branch) => {
            lemma_if_registers(st, cond, *then_branch, *else_branch);
        },
        Stmt::While(_, cond, body) => lemma_while_registers(st, cond, *body),
        Stmt::FunctionDeclaration(_, _, _) => {},
    }
}

/// What holds of one statement holds of one after the other.
pub proof fn law_statements_registers(st: State, body: Seq<Stmt>)
    requires
        sound(st),
    ensures
        gives_back(st, statements(st, body)),
    decreases stmts_size(body) + 1,
{
    if body.len() > 0 {
        law_statement_registers(st, body[0]);
        if let Step::Done(s, _) = visit(st, body[0]) {
            law_statements_registers(s, body.drop_first());
        }
    }
}

proof fn lemma_block_registers(st: State, body: Seq<Stmt>)
    requires
        sound(st),
    ensures
        gives_back(st, block(st, body, seq![Map::empty()] + st.scopes)),
    decreases stmts_size(body) + 2,
{
    let scopes = seq![Map::<Seq<char>, Register>::empty()] + st.scopes;
    let inner = State { scopes, ..st };
    assert forall|i: int, n: Seq<char>|
        0 <= i < scopes.len() && #[trigger] scopes[i].contains_key(
            n,
        ) implies scopes[i][n] is Stack by {
        if i > 0 {
            assert(st.scopes[i - 1].contains_key(n));
        }
    }
    law_statements_registers(inner, body);
    lemma_block_carries(st, body);
}

proof fn lemma_function_registers(
    st: State,
    function: Seq<char>,
    params: Seq<(NEWTypes, Token)>,
    body: Seq<Stmt>,
)
    requires
        sound(st),
    ensures
        gives_back(st, function_definition(st, function, params, body)),
    decreases stmts_size(body) + 2,
{
    let named = State { function: Some(function), ..st };
    if let Step::Done(roomy, _) = allocate_stack(emit(named, function_head(function)), function) {
        lemma_parameters_registers(roomy, params, 0);
    }
    if let Step::Done(s, _) = function_start(named, function, params) {
        law_statements_registers(s, body);
    }
}

proof fn lemma_if_registers(
    st: State,
    cond: Expr,
    then_branch: Stmt,
    else_branch: Option<Stmt>,
)
    requires
        sound(st),
    ensures
        gives_back(st, if_statement(st, cond, then_branch, else_branch)),
    decreases
            stmt_size(then_branch) + (match else_branch {
                Some(branch) => stmt_size(branch),
                None => 0,
            }) + 3,
{
    lemma_generated(st, cond);
    if let Step::Done(s, value) = execute(st, cond) {
        lemma_used(st, next_label(s), value);
        if let Step::Done(tested, _) = test_condition(next_label(s), value) {
            if let Some(branch) = else_branch {
                let first = emit(next_label(tested), jump_line("\tje    L"@, tested.labels));
                law_statement_registers(first, then_branch);
                if let Step::Done(u, _) = visit(first, then_branch) {
                    law_statement_registers(
                        emit(u, jump_line("\tjmp    L"@, s.labels) + label_line(tested.labels)),
                        branch,
                    );
                }
                assert(gives_back(st, either(tested, then_branch, branch, s.labels)));
            } else {
                law_statement_registers(
                    emit(tested, jump_line("\tje    L"@, s.labels)),
                    then_branch,
                );
                assert(gives_back(st, only(tested, then_branch, s.labels)));
            }
        }
    }
}

proof fn lemma_while_registers(st: State, cond: Expr, body: Stmt)
    requires
        sound(st),
    ensures
        gives_back(st, while_statement(st, cond, body)),
    decreases stmt_size(body) + 1,
{
    let first = emit(
        next_label(next_label(st)),
        jump_line("\tjmp    L"@, st.labels + 1) + label_line(st.labels),
    );
    law_statement_registers(first, body);
    if let Step::Done(s, _) = visit(first, body) {
        let ended = emit(s, label_line(st.labels + 1));
        lemma_generated(ended, cond);
        if let Step::Done(t, value) = execute(ended, cond) {
            lemma_used(ended, t, value);
        }
    }
}

} // verus!
