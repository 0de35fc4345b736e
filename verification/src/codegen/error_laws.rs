//! Which errors generating code comes to.

use vstd::prelude::*;

use crate::codegen::ast::{expr_size, exprs_size, stmt_size, stmts_size, Expr, ExprKind, Stmt};
use crate::codegen::model::{
    allocate_stack, and_expr, and_left, and_right, arguments, assign_expr, binary, binary_expr,
    block, call_expr, cast_down_expr, cast_up_expr, either, emit, execute, execute_l, finish,
    function_definition, function_head, function_start, if_statement, initialize, jump_line,
    label_line, load, logical_expr, next_label, only, operate, or_expr, or_left, or_right,
    parameters, pass, shift_expr, statements, test_condition, unary, unary_expr, visit,
    while_statement, State, Step,
};
use crate::codegen::register::Register;
use crate::common::error::ErrorKind;
use crate::common::token::Token;
use crate::common::types::NEWTypes;

verus! {

/// Whether a step, where it comes to an error, comes to one about an operator.
pub open spec fn operator_error(step: Step) -> bool {
    step matches Step::Rejected(_, error) ==> {
        ||| error.kind == ErrorKind::Regular("invalid unary operator")
        ||| error.kind == ErrorKind::Regular("invalid binary operator")
    }
}

proof fn lemma_finish_succeeds()
    ensures
        forall|st: State, text: Option<Seq<char>>, freed: Register, result: Register|
            !(#[trigger] finish(st, text, freed, result) is Rejected),
{
}

proof fn lemma_load_succeeds()
    ensures
        forall|st: State, value: Register| !(#[trigger] load(st, value) is Rejected),
{
    lemma_finish_succeeds();
}

proof fn lemma_unary_errors(st: State, token: Token, value: Register)
    ensures
        operator_error(unary(st, token, value)),
{
    lemma_finish_succeeds();
    lemma_load_succeeds();
}

proof fn lemma_operate_errors(st: State, token: Token, left: Register, right: Register)
    ensures
        operator_error(operate(st, token, left, right)),
{
    lemma_finish_succeeds();
}

proof fn lemma_binary_errors(st: State, token: Token, left: Register, right: Register)
    ensures
        operator_error(binary(st, token, left, right)),
{
    lemma_load_succeeds();
    if let Step::Done(s, l) = load(st, left) {
        if let Step::Done(t, r) = load(s, right) {
            lemma_operate_errors(t, token, l, r);
        }
    }
}

proof fn lemma_logical_succeeds(st: State, label: nat, value: Register)
    ensures
        !(or_left(st, value) is Rejected),
        !(or_right(st, label, value) is Rejected),
        !(and_left(st, value) is Rejected),
        !(and_right(st, label, value) is Rejected),
{
    lemma_finish_succeeds();
}

/// The only errors that generating an expression comes to are about an operator
/// that the code generator does not know.
pub proof fn law_expression_errors(st: State, e: Expr)
    ensures
        operator_error(execute(st, e)),
    decreases expr_size(e),
{
    lemma_finish_succeeds();
    lemma_load_succeeds();
    match e.kind {
        ExprKind::Binary { left, token, right } => {
            law_expression_errors(st, *left);
            if let Step::Done(s, l) = execute(st, *left) {
                law_expression_errors(s, *right);
                if let Step::Done(t, r) = execute(s, *right) {
                    lemma_binary_errors(t, token, l, r);
                }
            }
            assert(operator_error(binary_expr(st, *left, token, *right)));
        },
        ExprKind::Grouping { expr } => law_expression_errors(st, *expr),
        ExprKind::Unary { token, right } => {
            law_expression_errors(st, *right);
            if let Step::Done(s, value) = execute(st, *right) {
                lemma_unary_errors(s, token, value);
            }
            assert(operator_error(unary_expr(st, token, *right)));
        },
        ExprKind::Logical { left, token, right } => {
            lemma_or_expr_errors(st, *left, *right);
            lemma_and_expr_errors(st, *left, *right);
            assert(operator_error(logical_expr(st, *left, token, *right)));
        },
        ExprKind::Assign { l_expr, r_expr, .. } => {
            lemma_place_errors(st, *l_expr);
            if let Step::Done(s, place) = execute_l(st, *l_expr) {
                law_expression_errors(s, *r_expr);
            }
            assert(operator_error(assign_expr(st, *l_expr, *r_expr)));
        },
        ExprKind::Call { callee, args, .. } => {
            if let Some(t) = e.type_decl {
                lemma_call_errors(st, *callee, args@, t);
            }
        },
        ExprKind::CastUp { expr } => {
            if let Some(t) = e.type_decl {
                law_expression_errors(st, *expr);
                assert(operator_error(cast_up_expr(st, *expr, t)));
            }
        },
        ExprKind::CastDown { expr } => {
            if let Some(t) = e.type_decl {
                law_expression_errors(st, *expr);
                assert(operator_error(cast_down_expr(st, *expr, t)));
            }
        },
        ExprKind::ScaleUp { expr, shift_amount } => {
            law_expression_errors(st, *expr);
            assert(operator_error(shift_expr(st, "sal"@, *expr, shift_amount)));
        },
        ExprKind::ScaleDown { expr, shift_amount } => {
            law_expression_errors(st, *expr);
            assert(operator_error(shift_expr(st, "sar"@, *expr, shift_amount)));
        },
        _ => {},
    }
}

proof fn lemma_or_expr_errors(st: State, left: Expr, right: Expr)
    ensures
        operator_error(or_expr(st, left, right)),
    decreases expr_size(left) + expr_size(right) + 1,
{
    law_expression_errors(st, left);
    if let Step::Done(s, l) = execute(st, left) {
        lemma_logical_succeeds(s, 0, l);
        if let Step::Done(tested, _) = or_left(s, l) {
            law_expression_errors(tested, right);
            if let Step::Done(after, r) = execute(tested, right) {
                lemma_logical_succeeds(after, s.labels, r);
            }
        }
    }
}

proof fn lemma_and_expr_errors(st: State, left: Expr, right: Expr)
    ensures
        operator_error(and_expr(st, left, right)),
    decreases expr_size(left) + expr_size(right) + 1,
{
    law_expression_errors(st, left);
    if let Step::Done(s, l) = execute(st, left) {
        lemma_logical_succeeds(s, 0, l);
        if let Step::Done(tested, _) = and_left(s, l) {
            law_expression_errors(tested, right);
            if let Step::Done(after, r) = execute(tested, right) {
                lemma_logical_succeeds(after, s.labels, r);
            }
        }
    }
}

proof fn lemma_place_errors(st: State, e: Expr)
    ensures
        operator_error(execute_l(st, e)),
    decreases expr_size(e),
{
    lemma_load_succeeds();
    match e.kind {
        ExprKind::Unary { right, .. } => law_expression_errors(st, *right),
        ExprKind::Grouping { expr } => lemma_place_errors(st, *expr),
        _ => {},
    }
}

proof fn lemma_call_errors(st: State, callee: Expr, args: Seq<Expr>, t: NEWTypes)
    ensures
        operator_error(call_expr(st, callee, args, t)),
    decreases exprs_size(args) + 2,
{
    lemma_finish_succeeds();
    lemma_arguments_errors(st, args, 0);
}

proof fn lemma_arguments_errors(st: State, args: Seq<Expr>, i: int)
    ensures
        operator_error(arguments(st, args, i)),
    decreases exprs_size(args) + 1,
{
    lemma_finish_succeeds();
    if args.len() > 0 {
        law_expression_errors(st, args[0]);
        if let Step::Done(s, value) = execute(st, args[0]) {
            if let Step::Done(t, _) = pass(s, i, args[0].type_decl, value) {
                lemma_arguments_errors(t, args.drop_first(), i + 1);
            }
        }
    }
}

proof fn lemma_initialize_succeeds()
    ensures
        forall|st: State, t: NEWTypes, name: Token, value: Register|
            !(#[trigger] initialize(st, t, name, value) is Rejected),
{
    lemma_finish_succeeds();
    lemma_load_succeeds();
}

proof fn lemma_parameters_succeed(st: State, params: Seq<(NEWTypes, Token)>, i: int)
    ensures
        !(parameters(st, params, i) is Rejected),
    decreases params.len() - i,
{
    lemma_initialize_succeeds();
    if 0 <= i < params.len() {
        let value = Register::Arg(i as usize, params[i].0);
        if let Step::Done(s, _) = initialize(st, params[i].0, params[i].1, value) {
            lemma_parameters_succeed(s, params, i + 1);
        }
    }
}

/// The only errors that generating a statement comes to are about an operator
/// that the code generator does not know.
pub proof fn law_statement_errors(st: State, stmt: Stmt)
    ensures
        operator_error(visit(st, stmt)),
    decreases stmt_size(stmt),
{
    match stmt {
        Stmt::Expr(expr) => law_expression_errors(st, expr),
        Stmt::InitVar(t, name, expr) => {
            law_expression_errors(st, expr);
            lemma_initialize_succeeds();
        },
        Stmt::Block(_, body) => {
            let scopes = seq![Map::empty()] + st.scopes;
            law_statements_errors(State { scopes, ..st }, body@);
            assert(operator_error(block(st, body@, scopes)));
        },
        Stmt::Function(_, name, params, body) => {
            if let Some(function) = name.name() {
                lemma_function_errors(st, function, params@, body@);
            }
        },
        Stmt::Return(_, value) => {
            lemma_finish_succeeds();
            if let Some(expr) = value {
                law_expression_errors(st, expr);
            }
        },
        Stmt::If(_, cond, then_branch, else_branch) => {
            lemma_if_errors(st, cond, *then_branch, *else_branch);
        },
        Stmt::While(_, cond, body) => lemma_while_errors(st, cond, *body),
        _ => {},
    }
}

/// What holds of one statement holds of one after the other.
pub proof fn law_statements_errors(st: State, body: Seq<Stmt>)
    ensures
        operator_error(statements(st, body)),
    decreases stmts_size(body) + 1,
{
    if body.len() > 0 {
        law_statement_errors(st, body[0]);
        if let Step::Done(s, _) = visit(st, body[0]) {
            law_statements_errors(s, body.drop_first());
        }
    }
}

proof fn lemma_function_errors(
    st: State,
    function: Seq<char>,
    params: Seq<(NEWTypes, Token)>,
    body: Seq<Stmt>,
)
    ensures
        operator_error(function_definition(st, function, params, body)),
    decreases stmts_size(body) + 2,
{
    let named = State { function: Some(function), ..st };
    if let Step::Done(roomy, _) = allocate_stack(
        emit(named, function_head(function)),
        function,
    ) {
        lemma_parameters_succeed(roomy, params, 0);
    }
    if let Step::Done(s, _) = function_start(named, function, params) {
        law_statements_errors(s, body);
    }
}

proof fn lemma_if_errors(
    st: State,
    cond: Expr,
    then_branch: Stmt,
    else_branch: Option<Stmt>,
)
    ensures
        operator_error(if_statement(st, cond, then_branch, else_branch)),
    decreases
            stmt_size(then_branch) + (match else_branch {
                Some(branch) => stmt_size(branch),
                None => 0,
            }) + 3,
{
    lemma_finish_succeeds();
    law_expression_errors(st, cond);
    if let Step::Done(s, value) = execute(st, cond) {
        if let Step::Done(tested, _) = test_condition(
            next_label(s),
            value,
        ) {
            if let Some(branch) = else_branch {
                let first = emit(next_label(tested), jump_line("\tje    L"@, tested.labels));
                law_statement_errors(first, then_branch);
                if let Step::Done(u, _) = visit(first, then_branch) {
                    law_statement_errors(
                        emit(u, jump_line("\tjmp    L"@, s.labels) + label_line(tested.labels)),
                        branch,
                    );
                }
                assert(operator_error(either(tested, then_branch, branch, s.labels)));
            } else {
                law_statement_errors(
                    emit(tested, jump_line("\tje    L"@, s.labels)),
                    then_branch,
                );
                assert(operator_error(only(tested, then_branch, s.labels)));
            }
        }
    }
}

proof fn lemma_while_errors(st: State, cond: Expr, body: Stmt)
    ensures
        operator_error(while_statement(st, cond, body)),
    decreases stmt_size(body) + 1,
{
    lemma_finish_succeeds();
    let first = emit(
        next_label(next_label(st)),
        jump_line("\tjmp    L"@, st.labels + 1) + label_line(st.labels),
    );
    law_statement_errors(first, body);
    if let Step::Done(s, _) = visit(first, body) {
        law_expression_errors(emit(s, label_line(st.labels + 1)), cond);
    }
}

} // verus!
