//! Every label is defined at most once.

use vstd::prelude::*;

use crate::codegen::ast::{expr_size, exprs_size, Expr, ExprKind};
use crate::codegen::frame_laws::starts_with;
use crate::codegen::label_text::{
    defines, lemma_decimal_inline, lemma_instruction, lemma_join, lemma_jump, lemma_label_defines,
    lemma_line, lemma_more_labels, lemma_nothing, lemma_operands_inline, lemma_scratch_inline,
    lemma_short_instruction, lemma_unlabelled_join, line_start, one_line, one_line_operand,
    unlabelled, unlabelled_lines,
};
use crate::codegen::model::{
    addition, address_of, allocate, and_expr, and_left, and_right, arguments, assign, assign_expr,
    bang, binary, binary_expr, both, call, call_expr, call_lines, cast_down_expr, cast_up,
    cast_up_expr, comparison, dereferenced, division, emit, execute, execute_l, finish, flag_line,
    free_register, has_free, has_label, instruction, jump_line, label_line, literal, load,
    logical_expr, move_to_scratch, multiplication, negate, next_label, operate, or_expr, or_left,
    or_right, pass, pops, pushes, return_operand, shift, shift_expr, short_instruction, subtraction,
    unary, unary_expr, zero_test, State, Step,
};
use crate::codegen::register::{
    argument_name, return_register, scratch_name, suffix, Register, SCRATCH_REGISTERS,
};
use crate::codegen::text::decimal;
use crate::common::token::Token;
use crate::common::types::{NEWTypes, Types};

verus! {

/// The labels from `lo` on, up to but not including `hi`.
pub open spec fn labels_between(lo: nat, hi: nat) -> Set<nat> {
    Set::new(|n: nat| lo <= n < hi)
}

/// What was emitted from one state to the other is whole lines that define no
/// labels but `labels`, and each of these at most once.
#[verifier::opaque]
pub open spec fn appended(before: State, after: State, labels: Set<nat>) -> bool {
    &&& starts_with(after.output, before.output)
    &&& before.labels <= after.labels
    &&& defines(after.output.skip(before.output.len() as int), labels)
}

/// Whether what a step emits defines no labels but those that it takes, and each
/// of these at most once.
pub open spec fn labels_once(before: State, step: Step) -> bool {
    match step {
        Step::Done(after, _) => appended(
            before,
            after,
            labels_between(before.labels, after.labels),
        ),
        Step::Rejected(after, _) => appended(
            before,
            after,
            labels_between(before.labels, after.labels),
        ),
        Step::Stuck => true,
    }
}

/// Whether a step takes no label and defines none.
pub open spec fn quiet(before: State, step: Step) -> bool {
    match step {
        Step::Done(after, _) => appended(before, after, Set::empty()) && after.labels
            == before.labels,
        Step::Rejected(after, _) => appended(before, after, Set::empty()) && after.labels
            == before.labels,
        Step::Stuck => true,
    }
}

pub(crate) proof fn lemma_appended_then(
    first: State,
    second: State,
    labels: Set<nat>,
    third: State,
    more: Set<nat>,
)
    requires
        appended(first, second, labels),
        appended(second, third, more),
        labels.disjoint(more),
    ensures
        appended(first, third, labels.union(more)),
{
    reveal(appended);
    let a = second.output.skip(first.output.len() as int);
    let b = third.output.skip(second.output.len() as int);
    assert(third.output.skip(first.output.len() as int) =~= a + b);
    lemma_join(a, labels, b, more);
}

pub(crate) proof fn lemma_appended_more(before: State, after: State, less: Set<nat>, more: Set<nat>)
    requires
        appended(before, after, less),
        less.subset_of(more),
    ensures
        appended(before, after, more),
{
    reveal(appended);
    lemma_more_labels(after.output.skip(before.output.len() as int), less, more);
}

pub(crate) proof fn lemma_emit_appended(st: State, text: Seq<char>, labels: Set<nat>)
    requires
        defines(text, labels),
    ensures
        appended(st, emit(st, text), labels),
{
    reveal(appended);
    assert(emit(st, text).output.skip(st.output.len() as int) =~= text);
}

/// A state in which nothing more is emitted.
pub(crate) proof fn lemma_same_output(before: State, after: State)
    requires
        after.output == before.output,
        before.labels <= after.labels,
    ensures
        appended(before, after, Set::empty()),
{
    reveal(appended);
    lemma_nothing();
    assert(after.output.skip(before.output.len() as int) =~= Seq::empty());
}

pub(crate) proof fn lemma_once_twice(first: State, second: State, step: Step)
    requires
        appended(first, second, labels_between(first.labels, second.labels)),
        labels_once(second, step),
    ensures
        labels_once(first, step),
{
    let a = labels_between(first.labels, second.labels);
    match step {
        Step::Done(after, _) => {
            let b = labels_between(second.labels, after.labels);
            lemma_appended_then(first, second, a, after, b);
            lemma_ordered(first, second);
            lemma_ordered(second, after);
            assert(a.union(b) =~= labels_between(first.labels, after.labels));
        },
        Step::Rejected(after, _) => {
            let b = labels_between(second.labels, after.labels);
            lemma_appended_then(first, second, a, after, b);
            lemma_ordered(first, second);
            lemma_ordered(second, after);
            assert(a.union(b) =~= labels_between(first.labels, after.labels));
        },
        Step::Stuck => {},
    }
}

pub(crate) proof fn lemma_ordered(before: State, after: State)
    ensures
        forall|labels: Set<nat>| #[trigger] appended(before, after, labels) ==> before.labels
            <= after.labels,
{
    reveal(appended);
}

pub(crate) proof fn lemma_quiet_once(st: State, step: Step)
    requires
        quiet(st, step),
    ensures
        labels_once(st, step),
{
    match step {
        Step::Done(after, _) => {
            lemma_appended_more(
                st,
                after,
                Set::empty(),
                labels_between(st.labels, after.labels),
            );
        },
        Step::Rejected(after, _) => {
            lemma_appended_more(
                st,
                after,
                Set::empty(),
                labels_between(st.labels, after.labels),
            );
        },
        Step::Stuck => {},
    }
}

pub(crate) proof fn lemma_quiet_twice(first: State, second: State, step: Step)
    requires
        appended(first, second, Set::empty()),
        first.labels == second.labels,
        quiet(second, step),
    ensures
        quiet(first, step),
{
    assert(Set::<nat>::empty().union(Set::<nat>::empty()) =~= Set::empty());
    match step {
        Step::Done(after, _) => {
            lemma_appended_then(first, second, Set::empty(), after, Set::empty());
        },
        Step::Rejected(after, _) => {
            lemma_appended_then(first, second, Set::empty(), after, Set::empty());
        },
        Step::Stuck => {},
    }
}

pub(crate) proof fn lemma_finish_quiet(st: State)
    ensures
        forall|text: Option<Seq<char>>, freed: Register, result: Register|
            unlabelled_lines(text) ==> quiet(st, #[trigger] finish(st, text, freed, result)),
{
    assert forall|text: Option<Seq<char>>, freed: Register, result: Register| unlabelled_lines(
        text,
    ) implies quiet(st, #[trigger] finish(st, text, freed, result)) by {
        if let Step::Done(after, _) = finish(st, text, freed, result) {
            let emitted = emit(st, text.unwrap());
            lemma_emit_appended(st, text.unwrap(), Set::empty());
            lemma_same_output(emitted, after);
            assert(Set::<nat>::empty().union(Set::<nat>::empty()) =~= Set::empty());
            lemma_appended_then(st, emitted, Set::empty(), after, Set::empty());
        }
    }
}

pub(crate) proof fn lemma_both(first: Option<Seq<char>>, second: Option<Seq<char>>)
    requires
        unlabelled_lines(first),
        unlabelled_lines(second),
    ensures
        unlabelled_lines(both(first, second)),
{
    if first is Some && second is Some {
        lemma_unlabelled_join(first.unwrap(), second.unwrap());
    }
}

/// A text that is one line and does not start with `L`.
pub(crate) proof fn lemma_one_line(text: Seq<char>)
    requires
        text.len() > 0,
        text.last() == '\n',
        text[0] != 'L',
        forall|i: int| 0 <= i < text.len() - 1 ==> #[trigger] text[i] != '\n',
    ensures
        unlabelled(text),
{
    reveal_strlit("\n");
    lemma_line(text.drop_last());
    assert(text.drop_last() + "\n"@ =~= text);
}

/// What instructions start with, and what stands between operands.
pub(crate) proof fn lemma_words()
    ensures
        line_start("\tmov"@),
        line_start("\tmovl    $"@),
        line_start("\tmovb    $"@),
        line_start("\tmovb %al, "@),
        line_start("\tmovzb"@),
        line_start("movs"@),
        line_start("sal"@),
        line_start("sar"@),
        line_start("\tcmp"@),
        line_start("\tneg"@),
        line_start("\tleaq    "@),
        line_start("\tadd"@),
        line_start("\tsub"@),
        line_start("\timul"@),
        line_start("\tidiv"@),
        one_line(" "@),
        one_line("   "@),
        one_line("    "@),
        one_line(", "@),
        one_line("$"@),
        one_line("$0"@),
        one_line("%al"@),
        one_line("("@),
        one_line(")"@),
{
    reveal_strlit("\tmov");
    reveal_strlit("\tmovl    $");
    reveal_strlit("\tmovb    $");
    reveal_strlit("\tmovb %al, ");
    reveal_strlit("\tmovzb");
    reveal_strlit("movs");
    reveal_strlit("sal");
    reveal_strlit("sar");
    reveal_strlit("\tcmp");
    reveal_strlit("\tneg");
    reveal_strlit("\tleaq    ");
    reveal_strlit("\tadd");
    reveal_strlit("\tsub");
    reveal_strlit("\timul");
    reveal_strlit("\tidiv");
    reveal_strlit(" ");
    reveal_strlit("   ");
    reveal_strlit("    ");
    reveal_strlit(", ");
    reveal_strlit("$");
    reveal_strlit("$0");
    reveal_strlit("%al");
    reveal_strlit("(");
    reveal_strlit(")");
}

/// What jumps start with.
pub(crate) proof fn lemma_jump_words()
    ensures
        line_start("\tje    L"@),
        line_start("\tjne    L"@),
        line_start("\tjmp    L"@),
        line_start("\tjmp     L"@),
        line_start("\tjne      L"@),
        line_start("\tmovl    $1, "@),
        line_start("\tmovl    $0, "@),
        line_start("\tcmpl    $0, "@),
{
    reveal_strlit("\tje    L");
    reveal_strlit("\tjne    L");
    reveal_strlit("\tjmp    L");
    reveal_strlit("\tjmp     L");
    reveal_strlit("\tjne      L");
    reveal_strlit("\tmovl    $1, ");
    reveal_strlit("\tmovl    $0, ");
    reveal_strlit("\tcmpl    $0, ");
}

/// Lines that are the same everywhere.
proof fn lemma_fixed_lines()
    ensures
        unlabelled("\n"@),
        unlabelled("\tcqo\n"@),
        unlabelled("\tsete %al\n"@),
{
    reveal_strlit("\n");
    reveal_strlit("\tcqo\n");
    reveal_strlit("\tsete %al\n");
    lemma_one_line("\n"@);
    lemma_one_line("\tcqo\n"@);
    lemma_one_line("\tsete %al\n"@);
}

proof fn lemma_flag_line(place: Register)
    ensures
        unlabelled_lines(flag_line(place)),
{
    lemma_words();
    lemma_operands_inline();
    lemma_instruction("\tmovzb"@, place.type_of(), " "@, Some("%al"@), place.operand());
    if let Some(operand) = place.operand() {
        lemma_line("\tmovb %al, "@ + operand);
    }
}

proof fn lemma_move_quiet(st: State, value: Register)
    ensures
        quiet(st, move_to_scratch(st, value)),
{
    lemma_words();
    lemma_operands_inline();
    lemma_same_output(st, allocate(st));
    lemma_finish_quiet(allocate(st));
    if let Some(t) = value.type_of() {
        let result = free_register(st, t);
        lemma_instruction("\tmov"@, Some(t), "    "@, value.operand(), result.operand());
        if has_free(st) {
            lemma_quiet_twice(st, allocate(st), move_to_scratch(st, value));
        }
    }
}

pub(crate) proof fn lemma_load_quiet(st: State, value: Register)
    ensures
        quiet(st, load(st, value)),
{
    lemma_move_quiet(st, value);
    lemma_same_output(st, st);
}

proof fn lemma_literal_quiet(st: State, head: Seq<char>, n: int, t: Types)
    requires
        line_start(head),
    ensures
        quiet(st, literal(st, head, n, t)),
{
    lemma_words();
    lemma_operands_inline();
    lemma_decimal_inline(n);
    lemma_same_output(st, allocate(st));
    lemma_finish_quiet(allocate(st));
    let result = free_register(st, NEWTypes::Primitive(t));
    if let Some(operand) = result.operand() {
        lemma_line(head + decimal(n) + ", "@ + operand);
    }
    if has_free(st) {
        lemma_quiet_twice(st, allocate(st), literal(st, head, n, t));
    }
}

proof fn lemma_shift_quiet(st: State, head: Seq<char>, amount: usize, value: Register)
    requires
        line_start(head),
    ensures
        quiet(st, shift(st, head, amount, value)),
{
    lemma_load_quiet(st, value);
    if let Step::Done(loaded, v) = load(st, value) {
        lemma_words();
        lemma_operands_inline();
        let source = "$"@ + decimal(amount as int);
        assert(one_line(source));
        lemma_instruction(head, v.type_of(), "   "@, Some(source), v.operand());
        lemma_finish_quiet(loaded);
        lemma_quiet_twice(st, loaded, shift(st, head, amount, value));
    }
}

proof fn lemma_cast_up_quiet(st: State, value: Register, from: Option<NEWTypes>, to: NEWTypes)
    ensures
        quiet(st, cast_up(st, value, from, to)),
{
    lemma_words();
    lemma_operands_inline();
    lemma_same_output(st, allocate(st));
    lemma_finish_quiet(allocate(st));
    if let Some(from) = from {
        if let Some(narrow) = suffix(from) {
            let result = free_register(st, to);
            let head = "movs"@ + narrow;
            assert(line_start(head));
            lemma_instruction(head, Some(to), "   "@, value.operand(), result.operand());
            if has_free(st) {
                lemma_quiet_twice(st, allocate(st), cast_up(st, value, Some(from), to));
            }
        }
    }
}

proof fn lemma_assign_quiet(st: State, place: Register, value: Register)
    ensures
        quiet(st, assign(st, place, value)),
{
    lemma_load_quiet(st, value);
    if let Step::Done(loaded, v) = load(st, value) {
        lemma_words();
        lemma_operands_inline();
        lemma_instruction("\tmov"@, v.type_of(), "    "@, v.operand(), place.operand());
        lemma_finish_quiet(loaded);
        lemma_quiet_twice(st, loaded, assign(st, place, value));
    }
}

proof fn lemma_signs_quiet(st: State, value: Register)
    ensures
        quiet(st, bang(st, value)),
        quiet(st, negate(st, value)),
{
    lemma_words();
    lemma_operands_inline();
    lemma_finish_quiet(st);
    lemma_fixed_lines();
    lemma_flag_line(value);
    let compared = instruction("\tcmp"@, value.type_of(), " "@, Some("$0"@), value.operand());
    lemma_instruction("\tcmp"@, value.type_of(), " "@, Some("$0"@), value.operand());
    lemma_both(compared, Some("\tsete %al\n"@));
    lemma_both(both(compared, Some("\tsete %al\n"@)), flag_line(value));
    lemma_short_instruction("\tneg"@, value.type_of(), value.operand());
}

proof fn lemma_address_quiet(st: State, value: Register)
    ensures
        quiet(st, address_of(st, value)),
{
    lemma_words();
    lemma_operands_inline();
    lemma_same_output(st, allocate(st));
    lemma_finish_quiet(allocate(st));
    if let Some(t) = value.type_of() {
        let result = free_register(st, NEWTypes::Pointer(Box::new(t)));
        if value.operand() is Some && result.operand() is Some {
            lemma_line(
                "\tleaq    "@ + value.operand().unwrap() + ", "@ + result.operand().unwrap(),
            );
        }
        if has_free(st) {
            lemma_quiet_twice(st, allocate(st), address_of(st, value));
        }
    }
}

proof fn lemma_dereferenced_quiet(st: State, value: Register)
    ensures
        quiet(st, dereferenced(st, value)),
{
    lemma_words();
    lemma_operands_inline();
    lemma_same_output(st, allocate(st));
    if let Some(NEWTypes::Pointer(to)) = value.type_of() {
        if has_free(st) {
            let result = free_register(st, *to);
            lemma_load_quiet(allocate(st), value);
            if let Step::Done(loaded, v) = load(allocate(st), value) {
                lemma_finish_quiet(loaded);
                if let Some(operand) = v.operand() {
                    let source = "("@ + operand + ")"@;
                    assert(one_line(source));
                    lemma_instruction(
                        "\tmov"@,
                        Some(*to),
                        "    "@,
                        Some(source),
                        result.operand(),
                    );
                }
                lemma_quiet_twice(allocate(st), loaded, dereferenced(st, value));
            }
            lemma_quiet_twice(st, allocate(st), dereferenced(st, value));
        }
    }
}

proof fn lemma_unary_quiet(st: State, token: Token, value: Register)
    ensures
        quiet(st, unary(st, token, value)),
{
    lemma_signs_quiet(st, value);
    lemma_address_quiet(st, value);
    lemma_dereferenced_quiet(st, value);
    lemma_same_output(st, st);
}

proof fn lemma_arithmetic_quiet(st: State, left: Register, right: Register)
    ensures
        quiet(st, addition(st, left, right)),
        quiet(st, subtraction(st, left, right)),
        quiet(st, multiplication(st, left, right)),
{
    lemma_words();
    lemma_operands_inline();
    lemma_finish_quiet(st);
    lemma_fixed_lines();
    let (l, r, t) = (left.operand(), right.operand(), right.type_of());
    lemma_instruction("\tadd"@, t, " "@, l, r);
    lemma_both(instruction("\tadd"@, t, " "@, l, r), Some("\n"@));
    lemma_instruction("\tsub"@, t, " "@, r, l);
    lemma_both(instruction("\tsub"@, t, " "@, r, l), Some("\n"@));
    lemma_instruction("\timul"@, t, " "@, l, r);
    lemma_both(instruction("\timul"@, t, " "@, l, r), Some("\n"@));
}

proof fn lemma_division_quiet(st: State, left: Register, right: Register)
    ensures
        quiet(st, division(st, left, right)),
{
    lemma_words();
    lemma_operands_inline();
    lemma_finish_quiet(st);
    lemma_fixed_lines();
    let dividend = instruction(
        "\tmov"@,
        left.type_of(),
        " "@,
        left.operand(),
        return_operand(left),
    );
    let short = short_instruction("\tidiv"@, right.type_of(), right.operand());
    let quotient = instruction(
        "\tmov"@,
        right.type_of(),
        " "@,
        return_operand(right),
        right.operand(),
    );
    lemma_instruction("\tmov"@, left.type_of(), " "@, left.operand(), return_operand(left));
    lemma_short_instruction("\tidiv"@, right.type_of(), right.operand());
    lemma_instruction("\tmov"@, right.type_of(), " "@, return_operand(right), right.operand());
    lemma_both(Some("\tcqo\n"@), short);
    lemma_both(dividend, both(Some("\tcqo\n"@), short));
    lemma_both(both(dividend, both(Some("\tcqo\n"@), short)), quotient);
}

proof fn lemma_comparison_quiet(st: State, set: Seq<char>, left: Register, right: Register)
    requires
        one_line(set),
    ensures
        quiet(st, comparison(st, set, left, right)),
{
    lemma_words();
    lemma_operands_inline();
    lemma_finish_quiet(st);
    lemma_flag_line(right);
    let compared = instruction("\tcmp"@, right.type_of(), " "@, right.operand(), left.operand());
    let line = "\t"@ + set + " %al\n"@;
    lemma_instruction("\tcmp"@, right.type_of(), " "@, right.operand(), left.operand());
    reveal_strlit("\t");
    reveal_strlit(" %al\n");
    lemma_one_line(line);
    lemma_both(compared, Some(line));
    lemma_both(both(compared, Some(line)), flag_line(right));
}

proof fn lemma_operate_quiet(st: State, token: Token, left: Register, right: Register)
    ensures
        quiet(st, operate(st, token, left, right)),
{
    lemma_same_output(st, st);
    lemma_arithmetic_quiet(st, left, right);
    lemma_division_quiet(st, left, right);
    reveal_strlit("sete");
    reveal_strlit("setne");
    reveal_strlit("setg");
    reveal_strlit("setge");
    reveal_strlit("setl");
    reveal_strlit("setle");
    lemma_comparison_quiet(st, "sete"@, left, right);
    lemma_comparison_quiet(st, "setne"@, left, right);
    lemma_comparison_quiet(st, "setg"@, left, right);
    lemma_comparison_quiet(st, "setge"@, left, right);
    lemma_comparison_quiet(st, "setl"@, left, right);
    lemma_comparison_quiet(st, "setle"@, left, right);
}

proof fn lemma_binary_quiet(st: State, token: Token, left: Register, right: Register)
    ensures
        quiet(st, binary(st, token, left, right)),
{
    lemma_load_quiet(st, left);
    if let Step::Done(s, l) = load(st, left) {
        lemma_load_quiet(s, right);
        lemma_quiet_twice(st, s, load(s, right));
        if let Step::Done(t, r) = load(s, right) {
            lemma_operate_quiet(t, token, l, r);
            lemma_quiet_twice(st, t, operate(t, token, l, r));
        }
    }
}

proof fn lemma_zero_test_quiet(st: State, value: Register, jump: Seq<char>, label: nat)
    requires
        line_start(jump),
    ensures
        quiet(st, zero_test(st, value, jump, label)),
{
    lemma_words();
    lemma_operands_inline();
    lemma_finish_quiet(st);
    let compared = instruction("\tcmp"@, value.type_of(), "    "@, Some("$0"@), value.operand());
    lemma_instruction("\tcmp"@, value.type_of(), "    "@, Some("$0"@), value.operand());
    lemma_jump(jump, label);
    lemma_both(compared, Some(jump_line(jump, label)));
}

proof fn lemma_pass_quiet(st: State, i: int, t: Option<NEWTypes>, value: Register)
    ensures
        quiet(st, pass(st, i, t, value)),
{
    lemma_words();
    lemma_operands_inline();
    lemma_finish_quiet(st);
    let target = match t {
        Some(t) => argument_name(i, t),
        None => None,
    };
    lemma_instruction("\tmov"@, t, "    "@, value.operand(), target);
}

proof fn lemma_saved_lines(in_use: Seq<bool>, n: nat)
    ensures
        unlabelled(pushes(in_use, n)),
        unlabelled(pops(in_use, n)),
    decreases n,
{
    lemma_nothing();
    if n > 0 {
        lemma_saved_lines(in_use, (n - 1) as nat);
        reveal_strlit("\tpushq   ");
        reveal_strlit("\tpopq   ");
        let name = scratch_name(n - 1);
        lemma_scratch_inline(n - 1);
        lemma_line("\tpushq   "@ + name);
        lemma_line("\tpopq   "@ + name);
        lemma_unlabelled_join(
            pushes(in_use, (n - 1) as nat),
            "\tpushq   "@ + name + "\n"@,
        );
        lemma_unlabelled_join("\tpopq   "@ + name + "\n"@, pops(in_use, (n - 1) as nat));
    }
}

proof fn lemma_call_lines(in_use: Seq<bool>, function: Seq<char>)
    requires
        one_line(function),
    ensures
        unlabelled(call_lines(in_use, function)),
{
    let n = SCRATCH_REGISTERS as nat;
    let line = "\tcall    _"@ + function + "\n"@;
    let sub = "\tsubq    $8,%rsp\n"@;
    let add_back = "\taddq    $8,%rsp\n"@;
    lemma_saved_lines(in_use, n);
    reveal_strlit("\tcall    _");
    reveal_strlit("\tsubq    $8,%rsp\n");
    reveal_strlit("\taddq    $8,%rsp\n");
    lemma_line("\tcall    _"@ + function);
    lemma_one_line(sub);
    lemma_one_line(add_back);
    lemma_unlabelled_join(sub, line);
    lemma_unlabelled_join(sub + line, add_back);
    lemma_unlabelled_join(pushes(in_use, n), line);
    lemma_unlabelled_join(pushes(in_use, n), sub + line + add_back);
    lemma_unlabelled_join(pushes(in_use, n) + line, pops(in_use, n));
    lemma_unlabelled_join(pushes(in_use, n) + (sub + line + add_back), pops(in_use, n));
}

proof fn lemma_call_quiet(st: State, function: Seq<char>, t: NEWTypes)
    requires
        one_line(function),
    ensures
        quiet(st, call(st, function, t)),
{
    lemma_call_lines(st.in_use, function);
    let called = emit(st, call_lines(st.in_use, function));
    lemma_emit_appended(st, call_lines(st.in_use, function), Set::empty());
    if !t.void() && has_free(called) {
        lemma_words();
        lemma_operands_inline();
        lemma_same_output(called, allocate(called));
        lemma_finish_quiet(allocate(called));
        let result = free_register(called, t);
        lemma_instruction("\tmov"@, Some(t), "    "@, return_register(t), result.operand());
        lemma_quiet_twice(called, allocate(called), call(st, function, t));
        lemma_quiet_twice(st, called, call(st, function, t));
    }
}

pub(crate) proof fn lemma_join_lines(text: Seq<char>, labels: Set<nat>, lines: Seq<char>)
    requires
        defines(text, labels),
        unlabelled(lines),
    ensures
        defines(text + lines, labels),
{
    lemma_join(text, labels, lines, Set::empty());
    assert(labels.union(Set::empty()) =~= labels);
}

pub(crate) proof fn lemma_join_label(text: Seq<char>, labels: Set<nat>, n: nat)
    requires
        defines(text, labels),
        !labels.contains(n),
    ensures
        defines(text + label_line(n), labels.insert(n)),
{
    lemma_label_defines(n);
    lemma_join(text, labels, label_line(n), set![n]);
    assert(labels.union(set![n]) =~= labels.insert(n));
}

proof fn lemma_or_left_takes(st: State, value: Register)
    ensures
        or_left(st, value) matches Step::Done(after, _) ==> appended(st, after, Set::empty())
            && after.labels == st.labels + 1,
        !(or_left(st, value) is Rejected),
{
    lemma_jump_words();
    if has_label(st) {
        lemma_zero_test_quiet(next_label(st), value, "\tjne    L"@, st.labels);
        if let Step::Done(after, _) = or_left(st, value) {
            lemma_same_output(st, next_label(st));
            lemma_appended_then(st, next_label(st), Set::empty(), after, Set::empty());
            assert(Set::<nat>::empty().union(Set::<nat>::empty()) =~= Set::empty());
        }
    }
}

proof fn lemma_and_left_takes(st: State, value: Register)
    ensures
        and_left(st, value) matches Step::Done(after, _) ==> appended(st, after, Set::empty())
            && after.labels == st.labels + 1,
        !(and_left(st, value) is Rejected),
{
    lemma_jump_words();
    if has_label(st) {
        lemma_zero_test_quiet(next_label(st), value, "\tje    L"@, st.labels);
        if let Step::Done(after, _) = and_left(st, value) {
            lemma_same_output(st, next_label(st));
            lemma_appended_then(st, next_label(st), Set::empty(), after, Set::empty());
            assert(Set::<nat>::empty().union(Set::<nat>::empty()) =~= Set::empty());
        }
    }
}

/// The text that ends `||`.
proof fn lemma_or_text(operand: Seq<char>, yes: nat, no: nat, done: nat)
    requires
        one_line(operand),
        yes != no && yes != done && no != done,
    ensures
        defines(
            label_line(yes) + "\tmovl    $1, "@ + operand + "\n"@ + jump_line(
                "\tjmp     L"@,
                done,
            ) + label_line(no) + "\tmovl    $0, "@ + operand + "\n"@ + label_line(done),
            set![yes, no, done],
        ),
{
    lemma_jump_words();
    let one = "\tmovl    $1, "@ + operand + "\n"@;
    let zero = "\tmovl    $0, "@ + operand + "\n"@;
    let jump = jump_line("\tjmp     L"@, done);
    lemma_line("\tmovl    $1, "@ + operand);
    lemma_line("\tmovl    $0, "@ + operand);
    lemma_jump("\tjmp     L"@, done);
    lemma_label_defines(yes);
    lemma_join_lines(label_line(yes), set![yes], one);
    lemma_join_lines(label_line(yes) + one, set![yes], jump);
    let first = label_line(yes) + one + jump;
    lemma_join_label(first, set![yes], no);
    lemma_join_lines(first + label_line(no), set![yes].insert(no), zero);
    let second = first + label_line(no) + zero;
    lemma_join_label(second, set![yes].insert(no), done);
    assert(set![yes].insert(no).insert(done) =~= set![yes, no, done]);
    assert(second + label_line(done) =~= label_line(yes) + "\tmovl    $1, "@ + operand + "\n"@
        + jump_line("\tjmp     L"@, done) + label_line(no) + "\tmovl    $0, "@ + operand + "\n"@
        + label_line(done));
}

/// The text that ends `&&`.
proof fn lemma_and_text(operand: Seq<char>, no: nat, done: nat)
    requires
        one_line(operand),
        no != done,
    ensures
        defines(
            "\tmovl    $1, "@ + operand + "\n"@ + jump_line("\tjmp    L"@, done) + label_line(no)
                + "\tmovl    $0, "@ + operand + "\n"@ + label_line(done),
            set![no, done],
        ),
{
    lemma_jump_words();
    let one = "\tmovl    $1, "@ + operand + "\n"@;
    let zero = "\tmovl    $0, "@ + operand + "\n"@;
    let jump = jump_line("\tjmp    L"@, done);
    lemma_line("\tmovl    $1, "@ + operand);
    lemma_line("\tmovl    $0, "@ + operand);
    lemma_jump("\tjmp    L"@, done);
    lemma_unlabelled_join(one, jump);
    lemma_join_label(one + jump, Set::empty(), no);
    lemma_join_lines(one + jump + label_line(no), Set::empty().insert(no), zero);
    let second = one + jump + label_line(no) + zero;
    lemma_join_label(second, Set::empty().insert(no), done);
    assert(Set::empty().insert(no).insert(done) =~= set![no, done]);
    assert(second + label_line(done) =~= "\tmovl    $1, "@ + operand + "\n"@ + jump_line(
        "\tjmp    L"@,
        done,
    ) + label_line(no) + "\tmovl    $0, "@ + operand + "\n"@ + label_line(done));
}

/// What is emitted at the end of a step that gives nothing up.
proof fn lemma_finish_defines(
    before: State,
    st: State,
    text: Option<Seq<char>>,
    result: Register,
    labels: Set<nat>,
)
    requires
        appended(before, st, Set::empty()),
        text matches Some(lines) ==> defines(lines, labels),
    ensures
        finish(st, text, Register::Void, result) matches Step::Done(after, _) ==> appended(
            before,
            after,
            labels,
        ) && after.labels == st.labels,
        !(finish(st, text, Register::Void, result) is Rejected),
{
    if let Some(lines) = text {
        lemma_emit_appended(st, lines, labels);
        lemma_appended_then(before, st, Set::empty(), emit(st, lines), labels);
        assert(Set::<nat>::empty().union(labels) =~= labels);
    }
}

proof fn lemma_or_right_defines(st: State, label: nat, value: Register)
    requires
        label < st.labels,
    ensures
        or_right(st, label, value) matches Step::Done(after, _) ==> appended(
            st,
            after,
            set![label, st.labels, st.labels + 1],
        ) && after.labels == st.labels + 2,
        !(or_right(st, label, value) is Rejected),
{
    lemma_jump_words();
    lemma_operands_inline();
    if has_label(st) {
        lemma_zero_test_quiet(next_label(st), value, "\tje    L"@, st.labels);
        if let Step::Done(tested, _) = zero_test(next_label(st), value, "\tje    L"@, st.labels) {
            if has_label(tested) && has_free(tested) {
                let last = allocate(next_label(tested));
                let result = free_register(tested, NEWTypes::Primitive(Types::Int));
                lemma_same_output(st, next_label(st));
                lemma_same_output(tested, last);
                assert(Set::<nat>::empty().union(Set::<nat>::empty()) =~= Set::empty());
                lemma_appended_then(st, next_label(st), Set::empty(), tested, Set::empty());
                lemma_appended_then(st, tested, Set::empty(), last, Set::empty());
                if let Some(operand) = result.operand() {
                    lemma_or_text(operand, label, st.labels, tested.labels);
                    let text = label_line(label) + "\tmovl    $1, "@ + operand + "\n"@ + jump_line(
                        "\tjmp     L"@,
                        tested.labels,
                    ) + label_line(st.labels) + "\tmovl    $0, "@ + operand + "\n"@ + label_line(
                        tested.labels,
                    );
                    lemma_finish_defines(
                        st,
                        last,
                        Some(text),
                        result,
                        set![label, st.labels, tested.labels],
                    );
                }
            }
        }
    }
}

proof fn lemma_and_right_defines(st: State, label: nat, value: Register)
    requires
        label < st.labels,
    ensures
        and_right(st, label, value) matches Step::Done(after, _) ==> appended(
            st,
            after,
            set![label, st.labels],
        ) && after.labels == st.labels + 1,
        !(and_right(st, label, value) is Rejected),
{
    lemma_jump_words();
    lemma_operands_inline();
    lemma_zero_test_quiet(st, value, "\tje    L"@, label);
    if let Step::Done(tested, _) = zero_test(st, value, "\tje    L"@, label) {
        if has_label(tested) && has_free(tested) {
            let last = allocate(next_label(tested));
            let result = free_register(tested, NEWTypes::Primitive(Types::Int));
            lemma_same_output(tested, last);
            assert(Set::<nat>::empty().union(Set::<nat>::empty()) =~= Set::empty());
            lemma_appended_then(st, tested, Set::empty(), last, Set::empty());
            if let Some(operand) = result.operand() {
                lemma_and_text(operand, label, tested.labels);
                let text = "\tmovl    $1, "@ + operand + "\n"@ + jump_line(
                    "\tjmp    L"@,
                    tested.labels,
                ) + label_line(label) + "\tmovl    $0, "@ + operand + "\n"@ + label_line(
                    tested.labels,
                );
                lemma_finish_defines(st, last, Some(text), result, set![label, tested.labels]);
            }
        }
    }
}

/// Whether the names of all functions that an expression calls are within one
/// line.
pub open spec fn names_on_one_line(e: Expr) -> bool
    decreases expr_size(e),
{
    match e.kind {
        ExprKind::Binary { left, right, .. } => names_on_one_line(*left) && names_on_one_line(
            *right,
        ),
        ExprKind::Grouping { expr } => names_on_one_line(*expr),
        ExprKind::Unary { right, .. } => names_on_one_line(*right),
        ExprKind::Logical { left, right, .. } => names_on_one_line(*left) && names_on_one_line(
            *right,
        ),
        ExprKind::Assign { l_expr, r_expr, .. } => names_on_one_line(*l_expr)
            && names_on_one_line(*r_expr),
        ExprKind::Call { callee, args, .. } => names_in_args_on_one_line(args@) && (
        callee.kind matches ExprKind::Ident(name) ==> one_line_operand(name.name())),
        ExprKind::CastUp { expr } => names_on_one_line(*expr),
        ExprKind::CastDown { expr } => names_on_one_line(*expr),
        ExprKind::ScaleUp { expr, .. } => names_on_one_line(*expr),
        ExprKind::ScaleDown { expr, .. } => names_on_one_line(*expr),
        _ => true,
    }
}

pub open spec fn names_in_args_on_one_line(args: Seq<Expr>) -> bool
    decreases exprs_size(args) + 1,
{
    args.len() > 0 ==> names_on_one_line(args[0]) && names_in_args_on_one_line(args.drop_first())
}

/// Whatever an expression emits defines only labels that it takes, and each of
/// them at most once, also where it comes to an error.
pub proof fn law_expression_labels(st: State, e: Expr)
    requires
        names_on_one_line(e),
    ensures
        labels_once(st, execute(st, e)),
    decreases expr_size(e),
{
    lemma_words();
    lemma_same_output(st, st);
    lemma_quiet_once(st, Step::Done(st, Register::Void));
    match e.kind {
        ExprKind::Binary { left, token, right } => {
            lemma_binary_expr_labels(st, *left, token, *right);
        },
        ExprKind::Number(n) => {
            lemma_literal_quiet(st, "\tmovl    $"@, n as int, Types::Int);
            lemma_quiet_once(st, execute(st, e));
        },
        ExprKind::CharLit(c) => {
            lemma_literal_quiet(st, "\tmovb    $"@, c as int, Types::Char);
            lemma_quiet_once(st, execute(st, e));
        },
        ExprKind::Grouping { expr } => law_expression_labels(st, *expr),
        ExprKind::Unary { token, right } => lemma_unary_expr_labels(st, token, *right),
        ExprKind::Logical { left, token, right } => {
            lemma_or_expr_labels(st, *left, *right);
            lemma_and_expr_labels(st, *left, *right);
            assert(labels_once(st, logical_expr(st, *left, token, *right)));
        },
        ExprKind::Assign { l_expr, r_expr, .. } => {
            lemma_assign_expr_labels(st, *l_expr, *r_expr);
        },
        ExprKind::Ident(name) => {},
        ExprKind::Call { callee, args, .. } => {
            if let Some(t) = e.type_decl {
                lemma_call_expr_labels(st, *callee, args@, t);
            }
        },
        ExprKind::CastUp { expr } => {
            if let Some(t) = e.type_decl {
                lemma_cast_up_expr_labels(st, *expr, t);
            }
        },
        ExprKind::CastDown { expr } => {
            if let Some(t) = e.type_decl {
                lemma_cast_down_expr_labels(st, *expr, t);
            }
        },
        ExprKind::ScaleUp { expr, shift_amount } => {
            lemma_shift_expr_labels(st, "sal"@, *expr, shift_amount);
        },
        ExprKind::ScaleDown { expr, shift_amount } => {
            lemma_shift_expr_labels(st, "sar"@, *expr, shift_amount);
        },
    }
}

proof fn lemma_binary_expr_labels(st: State, left: Expr, token: Token, right: Expr)
    requires
        names_on_one_line(left),
        names_on_one_line(right),
    ensures
        labels_once(st, binary_expr(st, left, token, right)),
    decreases expr_size(left) + expr_size(right) + 1,
{
    law_expression_labels(st, left);
    if let Step::Done(s, l) = execute(st, left) {
        law_expression_labels(s, right);
        lemma_once_twice(st, s, execute(s, right));
        if let Step::Done(t, r) = execute(s, right) {
            lemma_binary_quiet(t, token, l, r);
            lemma_quiet_once(t, binary(t, token, l, r));
            lemma_once_twice(st, t, binary(t, token, l, r));
        }
    }
}

proof fn lemma_unary_expr_labels(st: State, token: Token, right: Expr)
    requires
        names_on_one_line(right),
    ensures
        labels_once(st, unary_expr(st, token, right)),
    decreases expr_size(right) + 1,
{
    law_expression_labels(st, right);
    if let Step::Done(s, value) = execute(st, right) {
        lemma_unary_quiet(s, token, value);
        lemma_quiet_once(s, unary(s, token, value));
        lemma_once_twice(st, s, unary(s, token, value));
    }
}

/// A construct that takes a label first, then generates a part, and defines the
/// label and some more at the end.
pub(crate) proof fn lemma_reserved(
    st: State,
    reserved: State,
    part: State,
    after: State,
    own: Set<nat>,
)
    requires
        appended(st, reserved, Set::empty()),
        appended(reserved, part, labels_between(reserved.labels, part.labels)),
        appended(part, after, own),
        own.subset_of(labels_between(st.labels, after.labels)),
        own.disjoint(labels_between(reserved.labels, part.labels)),
    ensures
        appended(st, after, labels_between(st.labels, after.labels)),
{
    let middle = labels_between(reserved.labels, part.labels);
    lemma_ordered(st, reserved);
    lemma_ordered(part, after);
    lemma_appended_then(st, reserved, Set::empty(), part, middle);
    assert(Set::<nat>::empty().union(middle) =~= middle);
    lemma_appended_then(st, part, middle, after, own);
    lemma_appended_more(
        st,
        after,
        middle.union(own),
        labels_between(st.labels, after.labels),
    );
}

proof fn lemma_or_expr_labels(st: State, left: Expr, right: Expr)
    requires
        names_on_one_line(left),
        names_on_one_line(right),
    ensures
        labels_once(st, or_expr(st, left, right)),
    decreases expr_size(left) + expr_size(right) + 1,
{
    law_expression_labels(st, left);
    if let Step::Done(s, l) = execute(st, left) {
        lemma_or_left_takes(s, l);
        if let Step::Done(tested, _) = or_left(s, l) {
            lemma_appended_more(
                s,
                tested,
                Set::empty(),
                labels_between(s.labels, tested.labels),
            );
            law_expression_labels(tested, right);
            lemma_once_twice(s, tested, execute(tested, right));
            lemma_once_twice(st, s, execute(tested, right));
            if let Step::Done(after, r) = execute(tested, right) {
                lemma_ordered(tested, after);
                lemma_or_right_defines(after, s.labels, r);
                if let Step::Done(end, _) = or_right(after, s.labels, r) {
                    let own = set![s.labels, after.labels, after.labels + 1];
                    lemma_reserved(s, tested, after, end, own);
                    lemma_once_twice(st, s, or_right(after, s.labels, r));
                }
            }
        }
    }
}

proof fn lemma_and_expr_labels(st: State, left: Expr, right: Expr)
    requires
        names_on_one_line(left),
        names_on_one_line(right),
    ensures
        labels_once(st, and_expr(st, left, right)),
    decreases expr_size(left) + expr_size(right) + 1,
{
    law_expression_labels(st, left);
    if let Step::Done(s, l) = execute(st, left) {
        lemma_and_left_takes(s, l);
        if let Step::Done(tested, _) = and_left(s, l) {
            lemma_appended_more(
                s,
                tested,
                Set::empty(),
                labels_between(s.labels, tested.labels),
            );
            law_expression_labels(tested, right);
            lemma_once_twice(s, tested, execute(tested, right));
            lemma_once_twice(st, s, execute(tested, right));
            if let Step::Done(after, r) = execute(tested, right) {
                lemma_ordered(tested, after);
                lemma_and_right_defines(after, s.labels, r);
                if let Step::Done(end, _) = and_right(after, s.labels, r) {
                    lemma_reserved(s, tested, after, end, set![s.labels, after.labels]);
                    lemma_once_twice(st, s, and_right(after, s.labels, r));
                }
            }
        }
    }
}

proof fn lemma_assign_expr_labels(st: State, l_expr: Expr, r_expr: Expr)
    requires
        names_on_one_line(l_expr),
        names_on_one_line(r_expr),
    ensures
        labels_once(st, assign_expr(st, l_expr, r_expr)),
    decreases expr_size(l_expr) + expr_size(r_expr) + 1,
{
    lemma_place_labels(st, l_expr);
    if let Step::Done(s, place) = execute_l(st, l_expr) {
        law_expression_labels(s, r_expr);
        lemma_once_twice(st, s, execute(s, r_expr));
        if let Step::Done(t, value) = execute(s, r_expr) {
            lemma_assign_quiet(t, place, value);
            lemma_quiet_once(t, assign(t, place, value));
            lemma_once_twice(st, t, assign(t, place, value));
        }
    }
}

proof fn lemma_place_labels(st: State, e: Expr)
    requires
        names_on_one_line(e),
    ensures
        labels_once(st, execute_l(st, e)),
    decreases expr_size(e),
{
    lemma_same_output(st, st);
    lemma_quiet_once(st, Step::Done(st, Register::Void));
    match e.kind {
        ExprKind::Unary { right, .. } => {
            law_expression_labels(st, *right);
            if let Step::Done(s, value) = execute(st, *right) {
                lemma_load_quiet(s, value);
                lemma_quiet_once(s, load(s, value));
                lemma_once_twice(st, s, load(s, value));
            }
        },
        ExprKind::Grouping { expr } => lemma_place_labels(st, *expr),
        _ => {},
    }
}

proof fn lemma_call_expr_labels(st: State, callee: Expr, args: Seq<Expr>, t: NEWTypes)
    requires
        names_in_args_on_one_line(args),
        callee.kind matches ExprKind::Ident(name) ==> one_line_operand(name.name()),
    ensures
        labels_once(st, call_expr(st, callee, args, t)),
    decreases exprs_size(args) + 2,
{
    lemma_arguments_labels(st, args, 0);
    if let ExprKind::Ident(name) = callee.kind {
        if let Step::Done(s, _) = arguments(st, args, 0) {
            if let Some(function) = name.name() {
                lemma_call_quiet(s, function, t);
                lemma_quiet_once(s, call(s, function, t));
                lemma_once_twice(st, s, call(s, function, t));
            }
        }
    }
}

proof fn lemma_arguments_labels(st: State, args: Seq<Expr>, i: int)
    requires
        names_in_args_on_one_line(args),
    ensures
        labels_once(st, arguments(st, args, i)),
    decreases exprs_size(args) + 1,
{
    lemma_same_output(st, st);
    lemma_quiet_once(st, Step::Done(st, Register::Void));
    if args.len() > 0 {
        law_expression_labels(st, args[0]);
        if let Step::Done(s, value) = execute(st, args[0]) {
            let passed = pass(s, i, args[0].type_decl, value);
            lemma_pass_quiet(s, i, args[0].type_decl, value);
            lemma_quiet_once(s, passed);
            lemma_once_twice(st, s, passed);
            if let Step::Done(t, _) = passed {
                lemma_arguments_labels(t, args.drop_first(), i + 1);
                lemma_once_twice(st, t, arguments(t, args.drop_first(), i + 1));
            }
        }
    }
}

proof fn lemma_cast_up_expr_labels(st: State, expr: Expr, t: NEWTypes)
    requires
        names_on_one_line(expr),
    ensures
        labels_once(st, cast_up_expr(st, expr, t)),
    decreases expr_size(expr) + 1,
{
    law_expression_labels(st, expr);
    if let Step::Done(s, value) = execute(st, expr) {
        lemma_cast_up_quiet(s, value, expr.type_decl, t);
        lemma_quiet_once(s, cast_up(s, value, expr.type_decl, t));
        lemma_once_twice(st, s, cast_up(s, value, expr.type_decl, t));
    }
}

proof fn lemma_cast_down_expr_labels(st: State, expr: Expr, t: NEWTypes)
    requires
        names_on_one_line(expr),
    ensures
        labels_once(st, cast_down_expr(st, expr, t)),
    decreases expr_size(expr) + 1,
{
    law_expression_labels(st, expr);
}

proof fn lemma_shift_expr_labels(st: State, head: Seq<char>, expr: Expr, amount: usize)
    requires
        names_on_one_line(expr),
        line_start(head),
    ensures
        labels_once(st, shift_expr(st, head, expr, amount)),
    decreases expr_size(expr) + 1,
{
    law_expression_labels(st, expr);
    if let Step::Done(s, value) = execute(st, expr) {
        lemma_shift_quiet(s, head, amount, value);
        lemma_quiet_once(s, shift(s, head, amount, value));
        lemma_once_twice(st, s, shift(s, head, amount, value));
    }
}

} // verus!
