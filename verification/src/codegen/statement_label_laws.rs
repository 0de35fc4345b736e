//! Every label that statements define is defined once.

use vstd::prelude::*;

use crate::codegen::ast::{stmt_size, stmts_size, Expr, Stmt};
use crate::codegen::frame_laws::{framed, law_expression_frames};
use crate::codegen::label_laws::{
    appended, labels_between, labels_once, law_expression_labels, lemma_appended_more,
    lemma_appended_then, lemma_both, lemma_emit_appended, lemma_finish_quiet, lemma_join_label,
    lemma_jump_words, lemma_load_quiet, lemma_once_twice, lemma_one_line, lemma_ordered,
    lemma_quiet_once, lemma_quiet_twice, lemma_reserved, lemma_same_output, lemma_words,
    names_on_one_line, quiet,
};
use crate::codegen::label_text::{
    defines, lemma_instruction, lemma_join, lemma_jump, lemma_label_defines, lemma_line,
    lemma_named_line, lemma_no_label, lemma_nothing, lemma_operands_inline, lemma_unlabelled_join,
    one_line, one_line_operand, unlabelled,
};
use crate::codegen::model::{
    aligned, allocate_stack, block, declare_variable, discard, either, emit, execute,
    function_definition, function_end, function_head, function_start, has_label, if_statement,
    initial, initialize, instruction, jump_line, label_line, load, next_label, only, parameters,
    preamble, program, release_stack, repeat, return_operand, return_statement, return_value, room,
    room_back, statements, test_condition, variable, visit, while_statement, State, Step,
};
use crate::codegen::register::Register;
use crate::codegen::text::decimal;
use crate::common::token::Token;
use crate::common::types::NEWTypes;

verus! {

/// Whether the names of all functions that a statement calls or defines are
/// within one line.
pub open spec fn stmt_on_one_line(stmt: Stmt) -> bool
    decreases stmt_size(stmt),
{
    match stmt {
        Stmt::Expr(expr) => names_on_one_line(expr),
        Stmt::DeclareVar(_, _) => true,
        Stmt::InitVar(_, _, expr) => names_on_one_line(expr),
        Stmt::Block(_, body) => body_on_one_line(body@),
        Stmt::Function(_, name, _, body) => one_line_operand(name.name()) && body_on_one_line(
            body@,
        ),
        Stmt::Return(_, value) => value matches Some(expr) ==> names_on_one_line(expr),
        Stmt::If(_, cond, then_branch, else_branch) => names_on_one_line(cond) && stmt_on_one_line(
            *then_branch,
        ) && match *else_branch {
            Some(branch) => stmt_on_one_line(branch),
            None => true,
        },
        Stmt::While(_, cond, body) => names_on_one_line(cond) && stmt_on_one_line(*body),
        Stmt::FunctionDeclaration(_, _, _) => true,
    }
}

pub open spec fn body_on_one_line(body: Seq<Stmt>) -> bool
    decreases stmts_size(body) + 1,
{
    body.len() > 0 ==> stmt_on_one_line(body[0]) && body_on_one_line(body.drop_first())
}

/// Whether a step defines only labels that it takes, each at most once, and
/// leaves the name of the function within one line.
spec fn labels_well(before: State, step: Step) -> bool {
    &&& labels_once(before, step)
    &&& step matches Step::Done(after, _) ==> one_line_operand(after.function)
}

proof fn lemma_well_twice(first: State, second: State, step: Step)
    requires
        appended(first, second, labels_between(first.labels, second.labels)),
        labels_well(second, step),
    ensures
        labels_well(first, step),
{
    lemma_once_twice(first, second, step);
}

proof fn lemma_quiet_well(st: State, step: Step)
    requires
        quiet(st, step),
        step matches Step::Done(after, _) ==> one_line_operand(after.function),
    ensures
        labels_well(st, step),
{
    lemma_quiet_once(st, step);
}

proof fn lemma_expression_well(st: State, e: Expr)
    requires
        one_line_operand(st.function),
        names_on_one_line(e),
    ensures
        labels_well(st, execute(st, e)),
        execute(st, e) matches Step::Done(after, _) ==> after.function == st.function,
{
    law_expression_labels(st, e);
    law_expression_frames(st, e);
    reveal(framed);
}

/// Whole lines are emitted that define no label.
proof fn lemma_emit_well(st: State, text: Seq<char>)
    requires
        one_line_operand(st.function),
        unlabelled(text),
    ensures
        labels_well(st, Step::Done(emit(st, text), Register::Void)),
{
    lemma_emit_appended(st, text, Set::empty());
    lemma_quiet_well(st, Step::Done(emit(st, text), Register::Void));
}

proof fn lemma_discard_well(st: State, value: Register)
    requires
        one_line_operand(st.function),
    ensures
        labels_well(st, discard(st, value)),
{
    if let Step::Done(after, _) = discard(st, value) {
        lemma_same_output(st, after);
        lemma_quiet_well(st, discard(st, value));
    }
}

proof fn lemma_initialize_quiet(st: State, t: NEWTypes, name: Token, value: Register)
    ensures
        quiet(st, initialize(st, t, name, value)),
        initialize(st, t, name, value) matches Step::Done(after, _) ==> after.function
            == st.function,
{
    if let Step::Done(declared, _) = declare_variable(st, t, name) {
        lemma_same_output(st, declared);
        lemma_load_quiet(declared, value);
        lemma_quiet_twice(st, declared, load(declared, value));
        if let Step::Done(loaded, v) = load(declared, value) {
            if let Step::Done(_, place) = variable(loaded, name) {
                lemma_words();
                lemma_operands_inline();
                lemma_instruction("\tmov"@, Some(t), "    "@, v.operand(), place.operand());
                lemma_finish_quiet(loaded);
                lemma_quiet_twice(st, loaded, initialize(st, t, name, value));
            }
        }
    }
}

proof fn lemma_parameters_quiet(st: State, params: Seq<(NEWTypes, Token)>, i: int)
    ensures
        quiet(st, parameters(st, params, i)),
        parameters(st, params, i) matches Step::Done(after, _) ==> after.function == st.function,
    decreases params.len() - i,
{
    lemma_same_output(st, st);
    if 0 <= i < params.len() {
        let value = Register::Arg(i as usize, params[i].0);
        lemma_initialize_quiet(st, params[i].0, params[i].1, value);
        if let Step::Done(s, _) = initialize(st, params[i].0, params[i].1, value) {
            lemma_parameters_quiet(s, params, i + 1);
            lemma_quiet_twice(st, s, parameters(s, params, i + 1));
        }
    }
}

proof fn lemma_room(size: nat)
    ensures
        unlabelled(room(size)),
        unlabelled(room_back(size)),
{
    lemma_nothing();
    lemma_operands_inline();
    reveal_strlit("\tsubq    $");
    reveal_strlit("\taddq    $");
    reveal_strlit(",%rsp\n");
    let number = decimal(size as int);
    assert(one_line(number));
    lemma_one_line("\tsubq    $"@ + number + ",%rsp\n"@);
    lemma_one_line("\taddq    $"@ + number + ",%rsp\n"@);
}

proof fn lemma_function_head(function: Seq<char>)
    requires
        one_line(function),
    ensures
        unlabelled(function_head(function)),
{
    reveal_strlit("\n\t.text\n\t.globl _");
    reveal_strlit("\n_");
    reveal_strlit(":\n\tpushq   %rbp\n\tmovq    %rsp, %rbp\n");
    reveal_strlit("\n");
    reveal_strlit("\t.text\n");
    reveal_strlit("\t.globl _");
    reveal_strlit("_");
    reveal_strlit(":");
    reveal_strlit("\tpushq   %rbp\n");
    reveal_strlit("\tmovq    %rsp, %rbp\n");
    let global = "\t.globl _"@ + function + "\n"@;
    let label = "_"@ + function + ":"@ + "\n"@;
    lemma_one_line("\n"@);
    lemma_one_line("\t.text\n"@);
    lemma_one_line("\tpushq   %rbp\n"@);
    lemma_one_line("\tmovq    %rsp, %rbp\n"@);
    lemma_line("\t.globl _"@ + function);
    lemma_line("_"@ + function + ":"@);
    lemma_unlabelled_join("\n"@, "\t.text\n"@);
    lemma_unlabelled_join("\n"@ + "\t.text\n"@, global);
    lemma_unlabelled_join("\n"@ + "\t.text\n"@ + global, label);
    lemma_unlabelled_join("\n"@ + "\t.text\n"@ + global + label, "\tpushq   %rbp\n"@);
    lemma_unlabelled_join(
        "\n"@ + "\t.text\n"@ + global + label + "\tpushq   %rbp\n"@,
        "\tmovq    %rsp, %rbp\n"@,
    );
    assert(":\n\tpushq   %rbp\n\tmovq    %rsp, %rbp\n"@ =~= ":"@ + "\n"@ + "\tpushq   %rbp\n"@
        + "\tmovq    %rsp, %rbp\n"@);
    assert("\n\t.text\n\t.globl _"@ =~= "\n"@ + "\t.text\n"@ + "\t.globl _"@);
    assert("\n_"@ =~= "\n"@ + "_"@);
    assert(function_head(function) =~= "\n"@ + "\t.text\n"@ + global + label
        + "\tpushq   %rbp\n"@ + "\tmovq    %rsp, %rbp\n"@);
}

proof fn lemma_function_start_well(
    st: State,
    function: Seq<char>,
    params: Seq<(NEWTypes, Token)>,
)
    requires
        one_line(function),
        one_line_operand(st.function),
    ensures
        labels_well(st, function_start(st, function, params)),
{
    let started = emit(st, function_head(function));
    lemma_function_head(function);
    lemma_emit_well(st, function_head(function));
    if let Step::Done(s, _) = allocate_stack(started, function) {
        let size = aligned(started.stack_sizes[function] as nat, 16);
        let sized = State {
            stack_sizes: started.stack_sizes.insert(function, size as usize),
            ..started
        };
        lemma_room(size);
        lemma_same_output(started, sized);
        lemma_quiet_well(started, Step::Done(sized, Register::Void));
        lemma_emit_well(sized, room(size));
        lemma_well_twice(started, sized, Step::Done(s, Register::Void));
        lemma_well_twice(st, started, Step::Done(s, Register::Void));
        lemma_parameters_quiet(s, params, 0);
        lemma_quiet_well(s, parameters(s, params, 0));
        lemma_well_twice(st, s, parameters(s, params, 0));
    }
}

proof fn lemma_function_end_well(st: State, function: Seq<char>)
    requires
        one_line(function),
        one_line_operand(st.function),
    ensures
        labels_well(st, function_end(st, function)),
{
    reveal_strlit("_epilogue:\n");
    let line = function + "_epilogue:\n"@;
    lemma_named_line(line);
    lemma_emit_well(st, line);
    let ended = emit(st, line);
    if let Step::Done(s, _) = release_stack(ended, function) {
        lemma_room(ended.stack_sizes[function] as nat);
        lemma_emit_well(ended, room_back(ended.stack_sizes[function] as nat));
        lemma_well_twice(st, ended, Step::Done(s, Register::Void));
        reveal_strlit("\tpopq    %rbp\n\tret\n");
        reveal_strlit("\tpopq    %rbp\n");
        reveal_strlit("\tret\n");
        lemma_one_line("\tpopq    %rbp\n"@);
        lemma_one_line("\tret\n"@);
        lemma_unlabelled_join("\tpopq    %rbp\n"@, "\tret\n"@);
        assert("\tpopq    %rbp\n\tret\n"@ =~= "\tpopq    %rbp\n"@ + "\tret\n"@);
        lemma_emit_well(s, "\tpopq    %rbp\n\tret\n"@);
        lemma_well_twice(st, s, function_end(st, function));
    }
}

proof fn lemma_return_well(st: State, value: Option<Expr>)
    requires
        one_line_operand(st.function),
        value matches Some(expr) ==> names_on_one_line(expr),
    ensures
        labels_well(st, return_statement(st, value)),
{
    if let Some(function) = st.function {
        reveal_strlit("\tjmp    ");
        reveal_strlit("_epilogue\n");
        let jump = "\tjmp    "@ + function + "_epilogue\n"@;
        lemma_one_line(jump);
        if let Some(expr) = value {
            lemma_expression_well(st, expr);
            if let Step::Done(s, v) = execute(st, expr) {
                lemma_words();
                lemma_operands_inline();
                let moved = instruction(
                    "\tmov"@,
                    v.type_of(),
                    "    "@,
                    v.operand(),
                    return_operand(v),
                );
                lemma_instruction("\tmov"@, v.type_of(), "    "@, v.operand(), return_operand(v));
                lemma_both(moved, Some(jump));
                lemma_finish_quiet(s);
                lemma_quiet_well(s, return_value(s, function, v));
                lemma_well_twice(st, s, return_value(s, function, v));
            }
        } else {
            lemma_emit_well(st, jump);
        }
    }
}

/// Whatever a statement emits defines only labels that it takes, and each of
/// them at most once, also where it comes to an error.
pub proof fn law_statement_labels(st: State, stmt: Stmt)
    requires
        one_line_operand(st.function),
        stmt_on_one_line(stmt),
    ensures
        labels_once(st, visit(st, stmt)),
        visit(st, stmt) matches Step::Done(after, _) ==> one_line_operand(after.function),
    decreases stmt_size(stmt),
{
    lemma_same_output(st, st);
    lemma_quiet_well(st, Step::Done(st, Register::Void));
    match stmt {
        Stmt::Expr(expr) => {
            lemma_expression_well(st, expr);
            if let Step::Done(s, v) = execute(st, expr) {
                lemma_discard_well(s, v);
                lemma_well_twice(st, s, discard(s, v));
            }
        },
        Stmt::DeclareVar(t, name) => {
            if let Step::Done(after, _) = declare_variable(st, t, name) {
                lemma_same_output(st, after);
                lemma_quiet_well(st, declare_variable(st, t, name));
            }
        },
        Stmt::InitVar(t, name, expr) => {
            lemma_expression_well(st, expr);
            if let Step::Done(s, v) = execute(st, expr) {
                lemma_initialize_quiet(s, t, name, v);
                lemma_quiet_well(s, initialize(s, t, name, v));
                lemma_well_twice(st, s, initialize(s, t, name, v));
            }
        },
        Stmt::Block(_, body) => lemma_block_labels(st, body@),
        Stmt::Function(_, name, params, body) => {
            if let Some(function) = name.name() {
                lemma_function_labels(st, function, params@, body@);
            }
        },
        Stmt::Return(_, value) => lemma_return_well(st, value),
        Stmt::If(_, cond, then_branch, else_branch) => {
            lemma_if_labels(st, cond, *then_branch, *else_branch);
        },
        Stmt::While(_, cond, body) => lemma_while_labels(st, cond, *body),
        Stmt::FunctionDeclaration(_, _, _) => {},
    }
}

/// What holds of one statement holds of one after the other.
pub proof fn law_statements_labels(st: State, body: Seq<Stmt>)
    requires
        one_line_operand(st.function),
        body_on_one_line(body),
    ensures
        labels_once(st, statements(st, body)),
        statements(st, body) matches Step::Done(after, _) ==> one_line_operand(after.function),
    decreases stmts_size(body) + 1,
{
    lemma_same_output(st, st);
    lemma_quiet_well(st, Step::Done(st, Register::Void));
    if body.len() > 0 {
        law_statement_labels(st, body[0]);
        if let Step::Done(s, _) = visit(st, body[0]) {
            law_statements_labels(s, body.drop_first());
            lemma_well_twice(st, s, statements(s, body.drop_first()));
        }
    }
}

/// A step, seen from a state with the same output and labels.
proof fn lemma_seen_from(before: State, st: State, step: Step)
    requires
        st.output == before.output,
        st.labels == before.labels,
        labels_well(st, step),
    ensures
        labels_well(before, step),
{
    lemma_same_output(before, st);
    lemma_appended_more(before, st, Set::empty(), labels_between(before.labels, st.labels));
    lemma_well_twice(before, st, step);
}

/// A step whose last state is replaced by one with the same output and labels.
proof fn lemma_seen_at(before: State, after: State, seen: State)
    requires
        appended(before, after, labels_between(before.labels, after.labels)),
        seen.output == after.output,
        seen.labels == after.labels,
    ensures
        appended(before, seen, labels_between(before.labels, seen.labels)),
{
    lemma_same_output(after, seen);
    lemma_quiet_once(after, Step::Done(seen, Register::Void));
    lemma_once_twice(before, after, Step::Done(seen, Register::Void));
}

proof fn lemma_block_labels(st: State, body: Seq<Stmt>)
    requires
        one_line_operand(st.function),
        body_on_one_line(body),
    ensures
        labels_well(st, block(st, body, seq![Map::empty()] + st.scopes)),
    decreases stmts_size(body) + 2,
{
    let scopes = seq![Map::<Seq<char>, Register>::empty()] + st.scopes;
    let inner = State { scopes, ..st };
    law_statements_labels(inner, body);
    lemma_seen_from(st, inner, statements(inner, body));
    match (statements(inner, body), block(st, body, scopes)) {
        (Step::Done(s, _), Step::Done(after, _)) => lemma_seen_at(st, s, after),
        (Step::Rejected(s, _), Step::Rejected(after, _)) => lemma_seen_at(st, s, after),
        _ => {},
    }
}

proof fn lemma_function_labels(
    st: State,
    function: Seq<char>,
    params: Seq<(NEWTypes, Token)>,
    body: Seq<Stmt>,
)
    requires
        one_line(function),
        body_on_one_line(body),
    ensures
        labels_well(st, function_definition(st, function, params, body)),
    decreases stmts_size(body) + 2,
{
    let named = State { function: Some(function), ..st };
    lemma_function_start_well(named, function, params);
    lemma_seen_from(st, named, function_start(named, function, params));
    if let Step::Done(s, _) = function_start(named, function, params) {
        law_statements_labels(s, body);
        lemma_well_twice(st, s, statements(s, body));
        if let Step::Done(t, _) = statements(s, body) {
            lemma_function_end_well(t, function);
            lemma_well_twice(st, t, function_end(t, function));
            if let Step::Done(u, _) = function_end(t, function) {
                lemma_seen_at(st, u, State { offset: 0, function: None, ..u });
            }
        }
    }
}

proof fn lemma_condition_quiet(st: State, value: Register, label: nat)
    ensures
        quiet(st, test_condition(st, value)),
        test_condition(st, value) matches Step::Done(after, _) ==> after.function == st.function,
        quiet(st, repeat(st, value, label)),
        repeat(st, value, label) matches Step::Done(after, _) ==> after.function == st.function,
{
    lemma_jump_words();
    lemma_operands_inline();
    lemma_finish_quiet(st);
    lemma_jump("\tjne      L"@, label);
    if let Some(operand) = value.operand() {
        let line = "\tcmpl    $0, "@ + operand + "\n"@;
        lemma_line("\tcmpl    $0, "@ + operand);
        lemma_unlabelled_join(line, jump_line("\tjne      L"@, label));
    }
}

proof fn lemma_if_labels(st: State, cond: Expr, then_branch: Stmt, else_branch: Option<Stmt>)
    requires
        one_line_operand(st.function),
        names_on_one_line(cond),
        stmt_on_one_line(then_branch),
        else_branch matches Some(branch) ==> stmt_on_one_line(branch),
    ensures
        labels_well(st, if_statement(st, cond, then_branch, else_branch)),
    decreases
            stmt_size(then_branch) + (match else_branch {
                Some(branch) => stmt_size(branch),
                None => 0,
            }) + 3,
{
    lemma_expression_well(st, cond);
    if let Step::Done(s, value) = execute(st, cond) {
        if has_label(s) {
            lemma_condition_quiet(next_label(s), value, 0);
            if let Step::Done(tested, _) = test_condition(next_label(s), value) {
                lemma_same_output(s, next_label(s));
                lemma_appended_then(s, next_label(s), Set::empty(), tested, Set::empty());
                assert(Set::<nat>::empty().union(Set::<nat>::empty()) =~= Set::empty());
                if let Some(branch) = else_branch {
                    lemma_either_labels(s, tested, then_branch, branch);
                    lemma_well_twice(st, s, either(tested, then_branch, branch, s.labels));
                } else {
                    lemma_only_labels(s, tested, then_branch);
                    lemma_well_twice(st, s, only(tested, then_branch, s.labels));
                }
            }
        }
    }
}

/// A part of a construct that took labels before.
proof fn lemma_part(st: State, reserved: State, step: Step)
    requires
        appended(st, reserved, Set::empty()),
        labels_once(reserved, step),
    ensures
        labels_once(st, step),
{
    lemma_ordered(st, reserved);
    lemma_appended_more(
        st,
        reserved,
        Set::empty(),
        labels_between(st.labels, reserved.labels),
    );
    lemma_once_twice(st, reserved, step);
}

proof fn lemma_only_labels(st: State, tested: State, then_branch: Stmt)
    requires
        appended(st, tested, Set::empty()),
        tested.labels == st.labels + 1,
        one_line_operand(tested.function),
        stmt_on_one_line(then_branch),
    ensures
        labels_well(st, only(tested, then_branch, st.labels)),
    decreases stmt_size(then_branch) + 1,
{
    lemma_jump_words();
    let jump = jump_line("\tje    L"@, st.labels);
    lemma_jump("\tje    L"@, st.labels);
    let first = emit(tested, jump);
    lemma_emit_appended(tested, jump, Set::empty());
    lemma_appended_then(st, tested, Set::empty(), first, Set::empty());
    assert(Set::<nat>::empty().union(Set::<nat>::empty()) =~= Set::empty());
    law_statement_labels(first, then_branch);
    lemma_part(st, first, visit(first, then_branch));
    if let Step::Done(s, _) = visit(first, then_branch) {
        let after = emit(s, label_line(st.labels));
        lemma_label_defines(st.labels);
        lemma_emit_appended(s, label_line(st.labels), set![st.labels]);
        lemma_ordered(first, s);
        lemma_reserved(st, first, s, after, set![st.labels]);
    }
}

proof fn lemma_either_labels(st: State, tested: State, then_branch: Stmt, else_branch: Stmt)
    requires
        appended(st, tested, Set::empty()),
        tested.labels == st.labels + 1,
        one_line_operand(tested.function),
        stmt_on_one_line(then_branch),
        stmt_on_one_line(else_branch),
    ensures
        labels_well(st, either(tested, then_branch, else_branch, st.labels)),
    decreases stmt_size(then_branch) + stmt_size(else_branch) + 2,
{
    lemma_jump_words();
    let none = Set::<nat>::empty();
    assert(none.union(none) =~= none);
    let (done, other) = (st.labels, tested.labels);
    if has_label(tested) {
        let jump = jump_line("\tje    L"@, other);
        lemma_jump("\tje    L"@, other);
        let first = emit(next_label(tested), jump);
        lemma_same_output(tested, next_label(tested));
        lemma_emit_appended(next_label(tested), jump, none);
        lemma_appended_then(st, tested, none, next_label(tested), none);
        lemma_appended_then(st, next_label(tested), none, first, none);
        law_statement_labels(first, then_branch);
        lemma_part(st, first, visit(first, then_branch));
        if let Step::Done(s, _) = visit(first, then_branch) {
            let text = jump_line("\tjmp    L"@, done) + label_line(other);
            lemma_jump("\tjmp    L"@, done);
            lemma_join_label(jump_line("\tjmp    L"@, done), none, other);
            let second = emit(s, text);
            lemma_emit_appended(s, text, none.insert(other));
            lemma_ordered(first, s);
            law_statement_labels(second, else_branch);
            let one = labels_between(first.labels, s.labels);
            lemma_appended_then(st, first, none, s, one);
            lemma_appended_then(st, s, none.union(one), second, none.insert(other));
            let upto = none.union(one).union(none.insert(other));
            match visit(second, else_branch) {
                Step::Done(t, _) => {
                    let two = labels_between(second.labels, t.labels);
                    let after = emit(t, label_line(done));
                    lemma_ordered(second, t);
                    lemma_appended_then(st, second, upto, t, two);
                    lemma_label_defines(done);
                    lemma_emit_appended(t, label_line(done), set![done]);
                    lemma_appended_then(st, t, upto.union(two), after, set![done]);
                    lemma_appended_more(
                        st,
                        after,
                        upto.union(two).union(set![done]),
                        labels_between(st.labels, after.labels),
                    );
                },
                Step::Rejected(t, _) => {
                    let two = labels_between(second.labels, t.labels);
                    lemma_ordered(second, t);
                    lemma_appended_then(st, second, upto, t, two);
                    lemma_appended_more(
                        st,
                        t,
                        upto.union(two),
                        labels_between(st.labels, t.labels),
                    );
                },
                Step::Stuck => {},
            }
        }
    }
}

proof fn lemma_while_labels(st: State, cond: Expr, body: Stmt)
    requires
        one_line_operand(st.function),
        names_on_one_line(cond),
        stmt_on_one_line(body),
    ensures
        labels_well(st, while_statement(st, cond, body)),
    decreases stmt_size(body) + 1,
{
    lemma_jump_words();
    let none = Set::<nat>::empty();
    let (start, end) = (st.labels, st.labels + 1);
    let labelled = next_label(next_label(st));
    let text = jump_line("\tjmp    L"@, end) + label_line(start);
    let first = emit(labelled, text);
    lemma_same_output(st, labelled);
    lemma_jump("\tjmp    L"@, end);
    lemma_join_label(jump_line("\tjmp    L"@, end), none, start);
    lemma_emit_appended(labelled, text, none.insert(start));
    lemma_appended_then(st, labelled, none, first, none.insert(start));
    let own = none.union(none.insert(start));
    law_statement_labels(first, body);
    match visit(first, body) {
        Step::Done(s, _) => {
            let one = labels_between(first.labels, s.labels);
            lemma_ordered(first, s);
            lemma_appended_then(st, first, own, s, one);
            let ended = emit(s, label_line(end));
            lemma_label_defines(end);
            lemma_emit_appended(s, label_line(end), set![end]);
            lemma_appended_then(st, s, own.union(one), ended, set![end]);
            lemma_appended_more(
                st,
                ended,
                own.union(one).union(set![end]),
                labels_between(st.labels, ended.labels),
            );
            lemma_expression_well(ended, cond);
            lemma_well_twice(st, ended, execute(ended, cond));
            if let Step::Done(t, value) = execute(ended, cond) {
                lemma_condition_quiet(t, value, start);
                lemma_quiet_well(t, repeat(t, value, start));
                lemma_well_twice(st, t, repeat(t, value, start));
            }
        },
        Step::Rejected(s, _) => {
            let one = labels_between(first.labels, s.labels);
            lemma_ordered(first, s);
            lemma_appended_then(st, first, own, s, one);
            lemma_appended_more(st, s, own.union(one), labels_between(st.labels, s.labels));
        },
        Step::Stuck => {},
    }
}

proof fn lemma_preamble()
    ensures
        unlabelled(preamble()),
{
    reveal_strlit("\t.text\n\t.cstring\nlC0:\n\t.string \"%d\\n\"\n\t.text\n\n_printint:\n\
         \tpushq   %rbp\n\tmovq    %rsp, %rbp\n\n\tsubq    $16, %rsp\n\
         \tmovl    %edi, -4(%rbp)\n\tmovl    -4(%rbp), %eax\n\tmovl    %eax, %esi\n\
         \tleaq\tlC0(%rip), %rax\n\tmovq\t%rax, %rdi\n\taddq    $16, %rsp\n\n\
         \tmovl    $0, %eax\n\tcall    _printf\n\tnop\n\tleave\n\tret\n");
    lemma_no_label(preamble());
}

/// In the assembly of a whole program every label is defined at most once, and
/// none that was not taken.
pub proof fn law_program_labels(stack_sizes: Map<Seq<char>, usize>, body: Seq<Stmt>)
    requires
        body_on_one_line(body),
    ensures
        program(initial(stack_sizes), body) matches Step::Done(after, _) ==> defines(
            after.output,
            labels_between(0, after.labels),
        ),
{
    let st = initial(stack_sizes);
    law_statements_labels(st, body);
    if let Step::Done(s, _) = statements(st, body) {
        lemma_preamble();
        let labels = labels_between(0, s.labels);
        assert(defines(s.output, labels)) by {
            reveal(appended);
            assert(s.output.skip(0) =~= s.output);
        }
        lemma_join(preamble(), Set::empty(), s.output, labels);
        assert(Set::<nat>::empty().union(labels) =~= labels);
    }
}

} // verus!
