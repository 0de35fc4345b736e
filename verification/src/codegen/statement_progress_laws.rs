//! When the code of statements and programs can be generated.

use vstd::prelude::*;

use crate::codegen::ast::{stmt_size, stmts_size, Expr, ExprKind, Stmt};
use crate::codegen::frame_laws::{framed, law_expression_frames};
use crate::codegen::model::{
    aligned, allocate_stack, block, call_expr, count, declare_variable, either, emit, execute,
    function_definition, function_head, if_statement, initial, initialize, jump_line, label_line,
    load, next_label, only, parameters, program, statements, test_condition, visit, while_statement,
    State, Step, MAX_ARGS,
};
use crate::codegen::progress_laws::{
    free_registers, held, home, labels_taken, law_expression_succeeds, lemma_after, lemma_call_expr,
    lemma_load_succeeds, lemma_usable_operand, loaded, max, needed, typed, usable, well_typed,
    well_typed_call, Home, VariableTypes,
};
use crate::codegen::register::{suffix, Register, SCRATCH_REGISTERS};
use crate::codegen::register_laws::{
    law_expression_registers, lemma_free_last, sound, variables_on_stack,
};
use crate::codegen::statement_laws::{
    carried, law_aligned, law_statement_carries, law_statements_carry, lemma_block_carries,
    lemma_parameters_carry, resized,
};
use crate::codegen::statement_register_laws::{
    law_statement_registers, lemma_initialize_registers, lemma_parameters_registers,
};
use crate::common::environment::{declare, lookup};
use crate::common::token::Token;
use crate::common::types::NEWTypes;

verus! {

/// Whether a variable of type `t` takes up room that can be measured.
pub open spec fn storable(t: NEWTypes) -> bool {
    t.measurable() && t.bytes() > 0
}

/// The types of the variables once `name` is declared.
pub open spec fn declared(types: VariableTypes, t: NEWTypes, name: Token) -> VariableTypes {
    match name.name() {
        Some(n) => declare(types, n, t),
        None => types,
    }
}

/// The types of the variables once the parameters from the `i`th on are declared.
pub open spec fn params_declared(
    types: VariableTypes,
    params: Seq<(NEWTypes, Token)>,
    i: int,
) -> VariableTypes
    decreases params.len() - i,
{
    if 0 <= i < params.len() {
        params_declared(declared(types, params[i].0, params[i].1), params, i + 1)
    } else {
        types
    }
}

/// The types of the variables after a statement. The variables of a function stay
/// declared in the scope that it is defined in.
pub open spec fn types_after(types: VariableTypes, stmt: Stmt) -> VariableTypes
    decreases stmt_size(stmt),
{
    match stmt {
        Stmt::DeclareVar(t, name) => declared(types, t, name),
        Stmt::InitVar(t, name, _) => declared(types, t, name),
        Stmt::Function(_, _, params, body) => types_after_body(
            params_declared(types, params@, 0),
            body@,
        ),
        Stmt::If(_, _, then_branch, else_branch) => match *else_branch {
            Some(branch) => types_after(types_after(types, *then_branch), branch),
            None => types_after(types, *then_branch),
        },
        Stmt::While(_, _, body) => types_after(types, *body),
        _ => types,
    }
}

pub open spec fn types_after_body(types: VariableTypes, body: Seq<Stmt>) -> VariableTypes
    decreases stmts_size(body) + 1,
{
    if body.len() == 0 {
        types
    } else {
        types_after_body(types_after(types, body[0]), body.drop_first())
    }
}

/// Whether there are registers for the parameters of a function.
pub open spec fn well_typed_params(params: Seq<(NEWTypes, Token)>) -> bool {
    &&& params.len() <= MAX_ARGS
    &&& forall|i: int|
        0 <= i < params.len() ==> storable((#[trigger] params[i]).0) && suffix(params[i].0) is Some
            && params[i].1.name() is Some
}

/// Whether an expression calls a function that has no value.
pub open spec fn void_call(types: VariableTypes, e: Expr) -> bool {
    &&& e.type_decl matches Some(t) && t.void()
    &&& e.kind matches ExprKind::Call { callee, args, .. } && well_typed_call(types, *callee, args@)
}

/// Whether a statement is one that passes checking, inside of a function or not:
/// its expressions are well typed, functions are not nested, and what returns is
/// inside of one.
pub open spec fn well_formed(types: VariableTypes, inside: bool, stmt: Stmt) -> bool
    decreases stmt_size(stmt),
{
    match stmt {
        Stmt::Expr(expr) => well_typed(types, expr) || void_call(types, expr),
        Stmt::DeclareVar(t, name) => storable(t) && name.name() is Some,
        Stmt::InitVar(t, name, expr) => storable(t) && suffix(t) is Some && name.name() is Some
            && well_typed(types, expr),
        Stmt::Block(_, body) => well_formed_body(seq![Map::empty()] + types, inside, body@),
        Stmt::Function(_, name, params, body) => !inside && name.name() is Some
            && well_typed_params(params@) && well_formed_body(
            params_declared(types, params@, 0),
            true,
            body@,
        ),
        Stmt::Return(_, value) => inside && (value matches Some(expr) ==> well_typed(types, expr)),
        Stmt::If(_, cond, then_branch, else_branch) => well_typed(types, cond) && well_formed(
            types,
            inside,
            *then_branch,
        ) && match *else_branch {
            Some(branch) => well_formed(types_after(types, *then_branch), inside, branch),
            None => true,
        },
        Stmt::While(_, cond, body) => well_formed(types, inside, *body) && well_typed(
            types_after(types, *body),
            cond,
        ),
        Stmt::FunctionDeclaration(_, _, _) => true,
    }
}

pub open spec fn well_formed_body(types: VariableTypes, inside: bool, body: Seq<Stmt>) -> bool
    decreases stmts_size(body) + 1,
{
    body.len() > 0 ==> well_formed(types, inside, body[0]) && well_formed_body(
        types_after(types, body[0]),
        inside,
        body.drop_first(),
    )
}

/// Number of free registers that a statement needs.
pub open spec fn stmt_needed(stmt: Stmt) -> nat
    decreases stmt_size(stmt),
{
    match stmt {
        Stmt::Expr(expr) => needed(expr),
        Stmt::InitVar(_, _, expr) => max(needed(expr), 1),
        Stmt::Block(_, body) => body_needed(body@),
        Stmt::Function(_, _, _, body) => body_needed(body@),
        Stmt::Return(_, Some(expr)) => needed(expr),
        Stmt::If(_, cond, then_branch, else_branch) => max(
            needed(cond),
            max(
                stmt_needed(*then_branch),
                match *else_branch {
                    Some(branch) => stmt_needed(branch),
                    None => 0,
                },
            ),
        ),
        Stmt::While(_, cond, body) => max(needed(cond), stmt_needed(*body)),
        _ => 0,
    }
}

pub open spec fn body_needed(body: Seq<Stmt>) -> nat
    decreases stmts_size(body) + 1,
{
    if body.len() == 0 {
        0
    } else {
        max(stmt_needed(body[0]), body_needed(body.drop_first()))
    }
}

/// Number of labels that a statement takes.
pub open spec fn stmt_labels(stmt: Stmt) -> nat
    decreases stmt_size(stmt),
{
    match stmt {
        Stmt::Expr(expr) => labels_taken(expr),
        Stmt::InitVar(_, _, expr) => labels_taken(expr),
        Stmt::Block(_, body) => body_labels(body@),
        Stmt::Function(_, _, _, body) => body_labels(body@),
        Stmt::Return(_, Some(expr)) => labels_taken(expr),
        Stmt::If(_, cond, then_branch, else_branch) => labels_taken(cond) + stmt_labels(
            *then_branch,
        ) + match *else_branch {
            Some(branch) => 2 + stmt_labels(branch),
            None => 1,
        },
        Stmt::While(_, cond, body) => 2 + labels_taken(cond) + stmt_labels(*body),
        _ => 0,
    }
}

pub open spec fn body_labels(body: Seq<Stmt>) -> nat
    decreases stmts_size(body) + 1,
{
    if body.len() == 0 {
        0
    } else {
        stmt_labels(body[0]) + body_labels(body.drop_first())
    }
}

/// Number of bytes that suffice for the parameters from the `i`th on.
pub open spec fn params_bytes(params: Seq<(NEWTypes, Token)>, i: int) -> nat
    decreases params.len() - i,
{
    if 0 <= i < params.len() {
        2 * params[i].0.bytes() + params_bytes(params, i + 1)
    } else {
        0
    }
}

/// Number of bytes of the stack frame that suffice for the variables of a
/// statement, however they are aligned.
pub open spec fn frame_bytes(stmt: Stmt) -> nat
    decreases stmt_size(stmt),
{
    match stmt {
        Stmt::DeclareVar(t, _) => 2 * t.bytes(),
        Stmt::InitVar(t, _, _) => 2 * t.bytes(),
        Stmt::Block(_, body) => body_bytes(body@),
        Stmt::Function(_, _, params, body) => params_bytes(params@, 0) + body_bytes(body@),
        Stmt::If(_, _, then_branch, else_branch) => frame_bytes(*then_branch) + match *else_branch {
            Some(branch) => frame_bytes(branch),
            None => 0,
        },
        Stmt::While(_, _, body) => frame_bytes(*body),
        _ => 0,
    }
}

pub open spec fn body_bytes(body: Seq<Stmt>) -> nat
    decreases stmts_size(body) + 1,
{
    if body.len() == 0 {
        0
    } else {
        frame_bytes(body[0]) + body_bytes(body.drop_first())
    }
}

/// Whether it is known how much stack a function needs, and that much can be
/// aligned to 16 bytes.
pub open spec fn sized(sizes: Map<Seq<char>, usize>, function: Seq<char>) -> bool {
    sizes.contains_key(function) && aligned(sizes[function] as nat, 16) <= usize::MAX
}

/// Whether it is known how much stack the functions that a statement defines
/// need.
pub open spec fn functions_sized(sizes: Map<Seq<char>, usize>, stmt: Stmt) -> bool
    decreases stmt_size(stmt),
{
    match stmt {
        Stmt::Block(_, body) => body_sized(sizes, body@),
        Stmt::Function(_, name, _, body) => (name.name() matches Some(function) ==> sized(
            sizes,
            function,
        )) && body_sized(sizes, body@),
        Stmt::If(_, _, then_branch, else_branch) => functions_sized(sizes, *then_branch)
            && match *else_branch {
            Some(branch) => functions_sized(sizes, branch),
            None => true,
        },
        Stmt::While(_, _, body) => functions_sized(sizes, *body),
        _ => true,
    }
}

pub open spec fn body_sized(sizes: Map<Seq<char>, usize>, body: Seq<Stmt>) -> bool
    decreases stmts_size(body) + 1,
{
    body.len() > 0 ==> functions_sized(sizes, body[0]) && body_sized(sizes, body.drop_first())
}

/// Whether the state is one that generating can go on in, with variables of
/// these types, inside of a function or not.
pub open spec fn ready(types: VariableTypes, inside: bool, st: State) -> bool {
    &&& sound(st)
    &&& typed(st.scopes, types)
    &&& inside ==> st.function is Some
}

/// Whether there are as many registers, labels and bytes of stack as a statement
/// takes.
pub open spec fn stmt_provided(st: State, stmt: Stmt) -> bool {
    &&& stmt_needed(stmt) <= free_registers(st.in_use)
    &&& st.labels + stmt_labels(stmt) <= usize::MAX
    &&& st.offset + frame_bytes(stmt) <= usize::MAX
    &&& functions_sized(st.stack_sizes, stmt)
}

/// The same of one statement after the other.
pub open spec fn body_provided(st: State, body: Seq<Stmt>) -> bool {
    &&& body_needed(body) <= free_registers(st.in_use)
    &&& st.labels + body_labels(body) <= usize::MAX
    &&& st.offset + body_bytes(body) <= usize::MAX
    &&& body_sized(st.stack_sizes, body)
}

/// Whether a step succeeds, in a state that generating can go on in, and takes no
/// more than `labels` labels and `bytes` bytes of stack.
pub open spec fn goes_on(
    types: VariableTypes,
    inside: bool,
    st: State,
    step: Step,
    labels: nat,
    bytes: nat,
) -> bool {
    step matches Step::Done(after, _) && {
        &&& typed(after.scopes, types)
        &&& inside ==> after.function is Some
        &&& after.labels == st.labels + labels
        &&& after.offset <= st.offset + bytes
    }
}

proof fn lemma_declared_typed(st: State, types: VariableTypes, t: NEWTypes, name: Token)
    requires
        typed(st.scopes, types),
        st.scopes.len() > 0,
        storable(t),
        name.name() is Some,
        st.offset + 2 * t.bytes() <= usize::MAX,
    ensures
        declare_variable(st, t, name) matches Step::Done(after, _) && {
            &&& typed(after.scopes, declared(types, t, name))
            &&& after.function == st.function
            &&& after.labels == st.labels
            &&& after.in_use == st.in_use
            &&& after.offset <= st.offset + 2 * t.bytes()
            &&& lookup(after.scopes, name.name().unwrap()) matches Some(Register::Stack(_, u))
            &&& u == t
        },
{
    law_aligned(st.offset + t.bytes(), t.bytes());
    let after = declare_variable(st, t, name)->Done_0;
    let n = name.name().unwrap();
    let new = declared(types, t, name);
    assert forall|i: int| 0 <= i < after.scopes.len() implies #[trigger] after.scopes[i].dom()
        == new[i].dom() by {
        assert(st.scopes[i].dom() == types[i].dom());
    }
    assert forall|i: int, m: Seq<char>|
        0 <= i < after.scopes.len() && #[trigger] after.scopes[i].contains_key(m) implies (
    after.scopes[i][m] matches Register::Stack(_, u) && u == new[i][m]) by {
        if st.scopes[i].contains_key(m) {
        }
    }
}

proof fn lemma_initialize_succeeds(
    types: VariableTypes,
    st: State,
    t: NEWTypes,
    name: Token,
    value: Register,
    home: Home,
)
    requires
        typed(st.scopes, types),
        st.scopes.len() > 0,
        st.in_use.len() == SCRATCH_REGISTERS,
        storable(t),
        suffix(t) is Some,
        name.name() is Some,
        st.offset + 2 * t.bytes() <= usize::MAX,
        usable(value, home) || value is Arg && value.operand() is Some,
        value is Stack ==> free_registers(st.in_use) > 0,
    ensures
        goes_on(
            declared(types, t, name),
            st.function is Some,
            st,
            initialize(st, t, name, value),
            0,
            2 * t.bytes(),
        ),
{
    lemma_declared_typed(st, types, t, name);
    let new = declare_variable(st, t, name)->Done_0;
    if !(value is Arg) {
        lemma_load_succeeds(new, value, home);
        lemma_usable_operand(load(new, value)->Done_1, loaded(home));
    }
}

proof fn lemma_parameters_succeed(
    types: VariableTypes,
    st: State,
    params: Seq<(NEWTypes, Token)>,
    i: int,
)
    requires
        sound(st),
        typed(st.scopes, types),
        well_typed_params(params),
        0 <= i <= params.len(),
        st.offset + params_bytes(params, i) <= usize::MAX,
    ensures
        goes_on(
            params_declared(types, params, i),
            st.function is Some,
            st,
            parameters(st, params, i),
            0,
            params_bytes(params, i),
        ),
    decreases params.len() - i,
{
    if i < params.len() {
        let (t, name) = params[i];
        let value = Register::Arg(i as usize, t);
        assert(storable(params[i].0));
        assert(value.operand() is Some);
        lemma_initialize_succeeds(types, st, t, name, value, Home::Scratch);
        lemma_initialize_registers(
            st,
            st,
            t,
            name,
            value,
        );
        let s = initialize(st, t, name, value)->Done_0;
        lemma_parameters_succeed(declared(types, t, name), s, params, i + 1);
    }
}

proof fn lemma_sizes_kept(
    before: Map<Seq<char>, usize>,
    after: Map<Seq<char>, usize>,
    function: Seq<char>,
)
    requires
        resized(before, after),
        sized(before, function),
    ensures
        sized(after, function),
{
    assert(before.dom().contains(function));
    assert(after.contains_key(function));
}

proof fn lemma_stmt_sizes_kept(
    before: Map<Seq<char>, usize>,
    after: Map<Seq<char>, usize>,
    stmt: Stmt,
)
    requires
        resized(before, after),
        functions_sized(before, stmt),
    ensures
        functions_sized(after, stmt),
    decreases stmt_size(stmt),
{
    match stmt {
        Stmt::Block(_, body) => lemma_body_sizes_kept(before, after, body@),
        Stmt::Function(_, name, _, body) => {
            if let Some(function) = name.name() {
                lemma_sizes_kept(before, after, function);
            }
            lemma_body_sizes_kept(before, after, body@);
        },
        Stmt::If(_, _, then_branch, else_branch) => {
            lemma_stmt_sizes_kept(before, after, *then_branch);
            if let Some(branch) = *else_branch {
                lemma_stmt_sizes_kept(before, after, branch);
            }
        },
        Stmt::While(_, _, body) => lemma_stmt_sizes_kept(before, after, *body),
        _ => {},
    }
}

proof fn lemma_body_sizes_kept(
    before: Map<Seq<char>, usize>,
    after: Map<Seq<char>, usize>,
    body: Seq<Stmt>,
)
    requires
        resized(before, after),
        body_sized(before, body),
    ensures
        body_sized(after, body),
    decreases stmts_size(body) + 1,
{
    if body.len() > 0 {
        lemma_stmt_sizes_kept(before, after, body[0]);
        lemma_body_sizes_kept(before, after, body.drop_first());
    }
}

/// What a statement that succeeds leaves for the next one.
proof fn lemma_next(st: State, stmt: Stmt)
    requires
        sound(st),
        visit(st, stmt) is Done,
    ensures
        visit(st, stmt) matches Step::Done(after, _) && {
            &&& sound(after)
            &&& after.in_use == st.in_use
            &&& resized(st.stack_sizes, after.stack_sizes)
        },
{
    law_statement_registers(st, stmt);
    law_statement_carries(st, stmt);
    reveal(carried);
}

/// A well-typed expression, where a statement needs one.
proof fn lemma_value(types: VariableTypes, st: State, e: Expr)
    requires
        sound(st),
        typed(st.scopes, types),
        well_typed(types, e),
        needed(e) <= free_registers(st.in_use),
        st.labels + labels_taken(e) <= usize::MAX,
    ensures
        execute(st, e) matches Step::Done(after, value) && {
            &&& usable(value, home(e))
            &&& value.operand() is Some
            &&& sound(after)
            &&& after.scopes == st.scopes
            &&& after.function == st.function
            &&& after.offset == st.offset
            &&& after.labels == st.labels + labels_taken(e)
            &&& free_registers(after.in_use) == free_registers(st.in_use) - held(home(e))
        },
{
    law_expression_succeeds(types, st, e);
    lemma_after(types, st, e);
    lemma_usable_operand(execute(st, e)->Done_1, home(e));
}

proof fn lemma_void_call(types: VariableTypes, st: State, e: Expr)
    requires
        sound(st),
        typed(st.scopes, types),
        void_call(types, e),
        needed(e) <= free_registers(st.in_use),
        st.labels + labels_taken(e) <= usize::MAX,
    ensures
        execute(st, e) matches Step::Done(after, value) && value is Void && after.labels
            == st.labels + labels_taken(e),
{
    if let ExprKind::Call { callee, args, .. } = e.kind {
        lemma_call_expr(types, st, *callee, args@);
        let t = e.type_decl.unwrap();
        assert(execute(st, e) == call_expr(st, *callee, args@, t));
    }
}

/// Generating a well-formed statement succeeds wherever there are as many free
/// scratch registers, labels and bytes of stack as it takes.
pub proof fn law_statement_succeeds(types: VariableTypes, inside: bool, st: State, stmt: Stmt)
    requires
        ready(types, inside, st),
        well_formed(types, inside, stmt),
        stmt_provided(st, stmt),
    ensures
        goes_on(
            types_after(types, stmt),
            inside,
            st,
            visit(st, stmt),
            stmt_labels(stmt),
            frame_bytes(stmt),
        ),
    decreases stmt_size(stmt),
{
    match stmt {
        Stmt::Expr(expr) => {
            lemma_expression_unchanged(st, expr);
            if well_typed(types, expr) {
                lemma_value(types, st, expr);
            } else {
                lemma_void_call(types, st, expr);
            }
        },
        Stmt::DeclareVar(t, name) => lemma_declared_typed(st, types, t, name),
        Stmt::InitVar(t, name, expr) => {
            lemma_value(types, st, expr);
            let s = execute(st, expr)->Done_0;
            let value = execute(st, expr)->Done_1;
            lemma_initialize_succeeds(types, s, t, name, value, home(expr));
        },
        Stmt::Block(_, body) => lemma_block_succeeds(types, inside, st, body@),
        Stmt::Function(_, name, params, body) => {
            lemma_function_succeeds(types, st, name.name().unwrap(), params@, body@);
        },
        Stmt::Return(_, value) => {
            if let Some(expr) = value {
                lemma_value(types, st, expr);
            }
        },
        Stmt::If(_, cond, then_branch, else_branch) => {
            lemma_if_succeeds(types, inside, st, cond, *then_branch, *else_branch);
        },
        Stmt::While(_, cond, body) => lemma_while_succeeds(types, inside, st, cond, *body),
        Stmt::FunctionDeclaration(_, _, _) => {},
    }
}

/// An expression changes neither the variables nor the function nor the stack
/// frame.
proof fn lemma_expression_unchanged(st: State, e: Expr)
    ensures
        execute(st, e) matches Step::Done(after, _) ==> after.scopes == st.scopes && after.function
            == st.function && after.offset == st.offset,
{
    law_expression_frames(st, e);
    reveal(framed);
}

/// What holds of one statement holds of one after the other.
pub proof fn law_statements_succeed(
    types: VariableTypes,
    inside: bool,
    st: State,
    body: Seq<Stmt>,
)
    requires
        ready(types, inside, st),
        well_formed_body(types, inside, body),
        body_provided(st, body),
    ensures
        goes_on(
            types_after_body(types, body),
            inside,
            st,
            statements(st, body),
            body_labels(body),
            body_bytes(body),
        ),
    decreases stmts_size(body) + 1,
{
    if body.len() > 0 {
        law_statement_succeeds(types, inside, st, body[0]);
        lemma_next(st, body[0]);
        let s = visit(st, body[0])->Done_0;
        lemma_body_sizes_kept(st.stack_sizes, s.stack_sizes, body.drop_first());
        law_statements_succeed(types_after(types, body[0]), inside, s, body.drop_first());
    }
}

proof fn lemma_inner_typed(scopes: Seq<Map<Seq<char>, Register>>, types: VariableTypes)
    requires
        typed(scopes, types),
    ensures
        typed(seq![Map::empty()] + scopes, seq![Map::empty()] + types),
        variables_on_stack(seq![Map::empty()] + scopes),
{
    let inner = seq![Map::<Seq<char>, Register>::empty()] + scopes;
    let inner_types = seq![Map::<Seq<char>, NEWTypes>::empty()] + types;
    assert forall|i: int| 0 <= i < inner.len() implies #[trigger] inner[i].dom()
        == inner_types[i].dom() by {
        if i > 0 {
            assert(scopes[i - 1].dom() == types[i - 1].dom());
        } else {
            assert(inner[i].dom() =~= inner_types[i].dom());
        }
    }
    assert forall|i: int, n: Seq<char>|
        0 <= i < inner.len() && #[trigger] inner[i].contains_key(n) implies (
    inner[i][n] matches Register::Stack(_, t) && t == inner_types[i][n]) by {
        if i > 0 {
            assert(scopes[i - 1].contains_key(n));
        }
    }
}

proof fn lemma_block_succeeds(types: VariableTypes, inside: bool, st: State, body: Seq<Stmt>)
    requires
        ready(types, inside, st),
        well_formed_body(seq![Map::empty()] + types, inside, body),
        body_provided(st, body),
    ensures
        goes_on(
            types,
            inside,
            st,
            block(st, body, seq![Map::empty()] + st.scopes),
            body_labels(body),
            body_bytes(body),
        ),
    decreases stmts_size(body) + 2,
{
    let scopes = seq![Map::<Seq<char>, Register>::empty()] + st.scopes;
    let inner = State { scopes, ..st };
    lemma_inner_typed(st.scopes, types);
    law_statements_succeed(seq![Map::empty()] + types, inside, inner, body);
    law_statements_carry(inner, body);
    lemma_block_carries(st, body);
    assert(statements(inner, body)->Done_0.scopes.len() > 1) by {
        reveal(carried);
    }
}

proof fn lemma_function_succeeds(
    types: VariableTypes,
    st: State,
    function: Seq<char>,
    params: Seq<(NEWTypes, Token)>,
    body: Seq<Stmt>,
)
    requires
        ready(types, false, st),
        well_typed_params(params),
        well_formed_body(params_declared(types, params, 0), true, body),
        sized(st.stack_sizes, function),
        body_needed(body) <= free_registers(st.in_use),
        st.labels + body_labels(body) <= usize::MAX,
        st.offset + params_bytes(params, 0) + body_bytes(body) <= usize::MAX,
        body_sized(st.stack_sizes, body),
    ensures
        goes_on(
            types_after_body(params_declared(types, params, 0), body),
            false,
            st,
            function_definition(st, function, params, body),
            body_labels(body),
            params_bytes(params, 0) + body_bytes(body),
        ),
    decreases stmts_size(body) + 2,
{
    let named = State { function: Some(function), ..st };
    let roomy = allocate_stack(emit(named, function_head(function)), function)->Done_0;
    lemma_parameters_succeed(types, roomy, params, 0);
    lemma_parameters_registers(roomy, params, 0);
    lemma_parameters_carry(false, roomy, params, 0);
    let s = parameters(roomy, params, 0)->Done_0;
    assert(resized(st.stack_sizes, roomy.stack_sizes)) by {
        assert(roomy.stack_sizes.dom() =~= st.stack_sizes.dom());
    }
    assert(resized(roomy.stack_sizes, s.stack_sizes)) by {
        reveal(carried);
    }
    lemma_body_sizes_kept(st.stack_sizes, roomy.stack_sizes, body);
    lemma_body_sizes_kept(roomy.stack_sizes, s.stack_sizes, body);
    lemma_sizes_kept(st.stack_sizes, roomy.stack_sizes, function);
    lemma_sizes_kept(roomy.stack_sizes, s.stack_sizes, function);
    law_statements_succeed(params_declared(types, params, 0), true, s, body);
    law_statements_carry(s, body);
    let t = statements(s, body)->Done_0;
    assert(resized(s.stack_sizes, t.stack_sizes)) by {
        reveal(carried);
    }
    lemma_sizes_kept(s.stack_sizes, t.stack_sizes, function);
}

proof fn lemma_if_succeeds(
    types: VariableTypes,
    inside: bool,
    st: State,
    cond: Expr,
    then_branch: Stmt,
    else_branch: Option<Stmt>,
)
    requires
        ready(types, inside, st),
        well_typed(types, cond),
        needed(cond) <= free_registers(st.in_use),
        well_formed(types, inside, then_branch),
        stmt_needed(then_branch) <= free_registers(st.in_use),
        functions_sized(st.stack_sizes, then_branch),
        match else_branch {
            Some(branch) => {
                &&& well_formed(types_after(types, then_branch), inside, branch)
                &&& stmt_needed(branch) <= free_registers(st.in_use)
                &&& functions_sized(st.stack_sizes, branch)
                &&& st.labels + labels_taken(cond) + stmt_labels(then_branch) + stmt_labels(branch)
                    + 2 <= usize::MAX
                &&& st.offset + frame_bytes(then_branch) + frame_bytes(branch) <= usize::MAX
            },
            None => {
                &&& st.labels + labels_taken(cond) + stmt_labels(then_branch) + 1 <= usize::MAX
                &&& st.offset + frame_bytes(then_branch) <= usize::MAX
            },
        },
    ensures
        match else_branch {
            Some(branch) => goes_on(
                types_after(types_after(types, then_branch), branch),
                inside,
                st,
                if_statement(st, cond, then_branch, else_branch),
                labels_taken(cond) + stmt_labels(then_branch) + stmt_labels(branch) + 2,
                frame_bytes(then_branch) + frame_bytes(branch),
            ),
            None => goes_on(
                types_after(types, then_branch),
                inside,
                st,
                if_statement(st, cond, then_branch, else_branch),
                labels_taken(cond) + stmt_labels(then_branch) + 1,
                frame_bytes(then_branch),
            ),
        },
    decreases
            stmt_size(then_branch) + (match else_branch {
                Some(branch) => stmt_size(branch),
                None => 0,
            }) + 3,
{
    lemma_value(types, st, cond);
    lemma_condition(st, cond);
    let s = execute(st, cond)->Done_0;
    let value = execute(st, cond)->Done_1;
    let tested = test_condition(next_label(s), value)->Done_0;
    match else_branch {
        Some(branch) => {
            let first = emit(next_label(tested), jump_line("\tje    L"@, tested.labels));
            law_statement_succeeds(types, inside, first, then_branch);
            lemma_next(first, then_branch);
            let u = visit(first, then_branch)->Done_0;
            let second = emit(
                u,
                jump_line("\tjmp    L"@, s.labels) + label_line(tested.labels),
            );
            lemma_stmt_sizes_kept(first.stack_sizes, second.stack_sizes, branch);
            law_statement_succeeds(types_after(types, then_branch), inside, second, branch);
            assert(if_statement(st, cond, then_branch, else_branch) == either(
                tested,
                then_branch,
                branch,
                s.labels,
            ));
        },
        None => {
            let first = emit(tested, jump_line("\tje    L"@, s.labels));
            law_statement_succeeds(types, inside, first, then_branch);
            assert(if_statement(st, cond, then_branch, else_branch) == only(
                tested,
                then_branch,
                s.labels,
            ));
        },
    }
}

/// The state once a condition was tested.
proof fn lemma_condition(st: State, cond: Expr)
    requires
        sound(st),
    ensures
        execute(st, cond) matches Step::Done(s, value) ==> (value.operand() is Some ==> (
        test_condition(next_label(s), value) matches Step::Done(tested, _) && {
            &&& sound(tested)
            &&& tested.in_use == st.in_use
            &&& tested.scopes == st.scopes
            &&& tested.function == st.function
            &&& tested.offset == st.offset
            &&& tested.stack_sizes == st.stack_sizes
            &&& tested.labels == s.labels + 1
        })),
{
    law_expression_registers(st, cond);
    law_expression_frames(st, cond);
    reveal(framed);
    if let Step::Done(s, value) = execute(st, cond) {
        lemma_free_last(st.in_use, next_label(s), value);
    }
}

proof fn lemma_while_succeeds(
    types: VariableTypes,
    inside: bool,
    st: State,
    cond: Expr,
    body: Stmt,
)
    requires
        ready(types, inside, st),
        well_formed(types, inside, body),
        well_typed(types_after(types, body), cond),
        needed(cond) <= free_registers(st.in_use),
        stmt_needed(body) <= free_registers(st.in_use),
        st.labels + labels_taken(cond) + stmt_labels(body) + 2 <= usize::MAX,
        st.offset + frame_bytes(body) <= usize::MAX,
        functions_sized(st.stack_sizes, body),
    ensures
        goes_on(
            types_after(types, body),
            inside,
            st,
            while_statement(st, cond, body),
            2 + labels_taken(cond) + stmt_labels(body),
            frame_bytes(body),
        ),
    decreases stmt_size(body) + 1,
{
    let first = emit(
        next_label(next_label(st)),
        jump_line("\tjmp    L"@, st.labels + 1) + label_line(st.labels),
    );
    law_statement_succeeds(types, inside, first, body);
    lemma_next(first, body);
    let s = visit(first, body)->Done_0;
    lemma_value(types_after(types, body), emit(s, label_line(st.labels + 1)), cond);
}

/// A well-formed program is generated, from the start, wherever four scratch
/// registers, the labels and the stack suffice.
pub proof fn law_program_succeeds(stack_sizes: Map<Seq<char>, usize>, body: Seq<Stmt>)
    requires
        well_formed_body(seq![Map::empty()], false, body),
        body_needed(body) <= SCRATCH_REGISTERS,
        body_labels(body) <= usize::MAX,
        body_bytes(body) <= usize::MAX,
        body_sized(stack_sizes, body),
    ensures
        program(initial(stack_sizes), body) is Done,
{
    let st = initial(stack_sizes);
    let types: VariableTypes = seq![Map::empty()];
    assert(free_registers(st.in_use) == SCRATCH_REGISTERS) by {
        reveal_with_fuel(count, 5);
    }
    assert(st.scopes[0].dom() =~= types[0].dom());
    law_statements_succeed(types, false, st, body);
}

} // verus!
