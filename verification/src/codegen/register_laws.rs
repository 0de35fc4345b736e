//! Which scratch registers are in use.

use vstd::prelude::*;

use crate::codegen::ast::{expr_size, exprs_size, Expr, ExprKind};
use crate::codegen::frame_laws::{framed, law_expression_frames, lemma_place_frames};
use crate::codegen::model::{
    allocate, and_expr, and_left, and_right, arguments, assign, assign_expr, binary, binary_expr,
    call, call_expr, call_lines, cast_down_expr, cast_up, cast_up_expr, emit, execute, execute_l,
    finish, free, freeable, has_free, literal, load, logical_expr, next_label, operate, or_expr,
    or_left, or_right, pass, shift, shift_expr, unary, unary_expr, zero_test, State, Step,
};
use crate::codegen::register::{
    argument_name, first_free, scratch_name, Register, SCRATCH_REGISTERS,
};
use crate::common::environment::lookup;
use crate::common::token::Token;
use crate::common::types::{NEWTypes, Types};

verus! {

/// Every variable lives in the stack frame.
pub open spec fn variables_on_stack(scopes: Seq<Map<Seq<char>, Register>>) -> bool {
    forall|i: int, name: Seq<char>|
        0 <= i < scopes.len() && #[trigger] scopes[i].contains_key(name)
            ==> scopes[i][name] is Stack
}

/// A state that the code generator can be in.
pub open spec fn sound(st: State) -> bool {
    &&& st.in_use.len() == SCRATCH_REGISTERS
    &&& st.scopes.len() > 0
    &&& variables_on_stack(st.scopes)
}

/// Whether no other value is in the register of `value`.
pub open spec fn fresh(in_use: Seq<bool>, value: Register) -> bool {
    value.scratch() matches Some(index) ==> 0 <= index < SCRATCH_REGISTERS && !in_use[index]
}

/// The registers in use, and that of `value`.
pub open spec fn holding(in_use: Seq<bool>, value: Register) -> Seq<bool> {
    match value.scratch() {
        Some(index) => in_use.update(index, true),
        None => in_use,
    }
}

/// Whether a step puts exactly the register of its value to use, one that was
/// free.
pub open spec fn adds(in_use: Seq<bool>, step: Step) -> bool {
    match step {
        Step::Done(after, value) => fresh(in_use, value) && after.in_use == holding(
            in_use,
            value,
        ),
        _ => true,
    }
}

pub(crate) proof fn lemma_variable_on_stack(scopes: Seq<Map<Seq<char>, Register>>, name: Seq<char>)
    requires
        variables_on_stack(scopes),
    ensures
        lookup(scopes, name) matches Some(place) ==> place is Stack,
    decreases scopes.len(),
{
    if scopes.len() > 0 {
        let rest = scopes.drop_first();
        assert forall|i: int, n: Seq<char>|
            0 <= i < rest.len() && #[trigger] rest[i].contains_key(n) implies rest[i][n] is Stack by {
            assert(scopes[i + 1].contains_key(n));
        }
        lemma_variable_on_stack(rest, name);
        assert(scopes[0].contains_key(name) ==> scopes[0][name] is Stack);
    }
}

proof fn lemma_first_free(in_use: Seq<bool>)
    requires
        in_use.len() == SCRATCH_REGISTERS,
    ensures
        first_free(in_use) matches Some(index) ==> 0 <= index < SCRATCH_REGISTERS
            && !in_use[index],
{
}

pub(crate) proof fn lemma_finish_registers(st: State)
    ensures
        forall|text: Option<Seq<char>>, freed: Register, result: Register|
            #[trigger] finish(st, text, freed, result) matches Step::Done(after, value) ==> {
                &&& value == result
                &&& freeable(freed)
                &&& after.in_use == free(st, freed).in_use
            },
        forall|text: Option<Seq<char>>, freed: Register, result: Register|
            !(#[trigger] finish(st, text, freed, result) is Rejected),
{
}

/// A value, moved out of the stack frame where it was there, while the
/// registers `in_use` hold other values.
pub(crate) proof fn lemma_load_registers(st: State, value: Register)
    requires
        st.in_use.len() == SCRATCH_REGISTERS,
    ensures
        load(st, value) matches Step::Done(after, loaded) ==> if value is Stack {
            adds(st.in_use, load(st, value)) && loaded is Scratch
        } else {
            after == st && loaded == value
        },
        !(load(st, value) is Rejected),
{
    lemma_first_free(st.in_use);
    lemma_finish_registers(allocate(st));
}

proof fn lemma_unary_registers(in_use: Seq<bool>, st: State, token: Token, value: Register)
    requires
        in_use.len() == SCRATCH_REGISTERS,
        fresh(in_use, value),
        st.in_use == holding(in_use, value),
    ensures
        adds(in_use, unary(st, token, value)),
{
    lemma_first_free(st.in_use);
    lemma_finish_registers(st);
    lemma_finish_registers(allocate(st));
    if token.token is Star && has_free(st) {
        lemma_load_registers(allocate(st), value);
        if let Step::Done(loaded, v) = load(allocate(st), value) {
            lemma_finish_registers(loaded);
            if let Step::Done(after, result) = unary(st, token, value) {
                assert(after.in_use =~= holding(in_use, result));
            }
        }
    } else if token.token is Amp {
        if let Step::Done(after, result) = unary(st, token, value) {
            assert(after.in_use =~= holding(in_use, result));
        }
    }
}

/// Whether the registers in use are `in_use` and those of two values.
spec fn both_held(in_use: Seq<bool>, left: Register, right: Register, now: Seq<bool>) -> bool {
    &&& fresh(in_use, left)
    &&& fresh(holding(in_use, left), right)
    &&& now == holding(holding(in_use, left), right)
}

proof fn lemma_load_left(in_use: Seq<bool>, st: State, left: Register, right: Register)
    requires
        in_use.len() == SCRATCH_REGISTERS,
        both_held(in_use, left, right, st.in_use),
    ensures
        load(st, left) matches Step::Done(after, loaded) ==> both_held(
            in_use,
            loaded,
            right,
            after.in_use,
        ),
{
    lemma_load_registers(st, left);
    if let Step::Done(after, loaded) = load(st, left) {
        assert(after.in_use =~= holding(holding(in_use, loaded), right));
    }
}

proof fn lemma_load_right(in_use: Seq<bool>, st: State, left: Register, right: Register)
    requires
        in_use.len() == SCRATCH_REGISTERS,
        both_held(in_use, left, right, st.in_use),
    ensures
        load(st, right) matches Step::Done(after, loaded) ==> both_held(
            in_use,
            left,
            loaded,
            after.in_use,
        ),
{
    lemma_load_registers(st, right);
    if let Step::Done(after, loaded) = load(st, right) {
        assert(after.in_use =~= holding(holding(in_use, left), loaded));
    }
}

proof fn lemma_free_one(in_use: Seq<bool>, st: State, left: Register, right: Register)
    requires
        in_use.len() == SCRATCH_REGISTERS,
        both_held(in_use, left, right, st.in_use),
    ensures
        free(st, left).in_use == holding(in_use, right),
        free(st, right).in_use == holding(in_use, left),
        fresh(in_use, left),
        fresh(in_use, right),
{
    assert(free(st, left).in_use =~= holding(in_use, right));
    assert(free(st, right).in_use =~= holding(in_use, left));
}

proof fn lemma_finish_one(in_use: Seq<bool>, st: State, left: Register, right: Register)
    requires
        in_use.len() == SCRATCH_REGISTERS,
        both_held(in_use, left, right, st.in_use),
    ensures
        forall|text: Option<Seq<char>>| adds(in_use, #[trigger] finish(st, text, left, right)),
        forall|text: Option<Seq<char>>| adds(in_use, #[trigger] finish(st, text, right, left)),
{
    lemma_free_one(in_use, st, left, right);
    lemma_finish_registers(st);
}

proof fn lemma_operate_registers(
    in_use: Seq<bool>,
    st: State,
    token: Token,
    left: Register,
    right: Register,
)
    requires
        in_use.len() == SCRATCH_REGISTERS,
        both_held(in_use, left, right, st.in_use),
    ensures
        adds(in_use, operate(st, token, left, right)),
{
    lemma_finish_one(in_use, st, left, right);
}

proof fn lemma_binary_registers(
    in_use: Seq<bool>,
    st: State,
    token: Token,
    left: Register,
    right: Register,
)
    requires
        in_use.len() == SCRATCH_REGISTERS,
        both_held(in_use, left, right, st.in_use),
    ensures
        adds(in_use, binary(st, token, left, right)),
{
    lemma_load_left(in_use, st, left, right);
    lemma_load_registers(st, left);
    if let Step::Done(s, l) = load(st, left) {
        lemma_load_right(in_use, s, l, right);
        lemma_load_registers(s, right);
        if let Step::Done(t, r) = load(s, right) {
            lemma_operate_registers(in_use, t, token, l, r);
        }
    }
}

proof fn lemma_assign_registers(
    in_use: Seq<bool>,
    st: State,
    place: Register,
    value: Register,
)
    requires
        in_use.len() == SCRATCH_REGISTERS,
        both_held(in_use, place, value, st.in_use),
    ensures
        adds(in_use, assign(st, place, value)),
{
    lemma_load_right(in_use, st, place, value);
    lemma_load_registers(st, value);
    if let Step::Done(s, v) = load(st, value) {
        lemma_free_one(in_use, s, place, v);
        lemma_finish_registers(s);
    }
}

/// Giving up the value that was generated last.
pub(crate) proof fn lemma_free_last(in_use: Seq<bool>, st: State, value: Register)
    requires
        in_use.len() == SCRATCH_REGISTERS,
        fresh(in_use, value),
        st.in_use == holding(in_use, value),
    ensures
        free(st, value).in_use == in_use,
{
    assert(free(st, value).in_use =~= in_use);
}

pub(crate) proof fn lemma_zero_test_registers(
    in_use: Seq<bool>,
    st: State,
    value: Register,
    jump: Seq<char>,
    label: nat,
)
    requires
        in_use.len() == SCRATCH_REGISTERS,
        fresh(in_use, value),
        st.in_use == holding(in_use, value),
    ensures
        zero_test(st, value, jump, label) matches Step::Done(after, _) ==> after.in_use == in_use,
        !(zero_test(st, value, jump, label) is Rejected),
{
    lemma_free_last(in_use, st, value);
    lemma_finish_registers(st);
}

proof fn lemma_or_right_registers(in_use: Seq<bool>, st: State, label: nat, value: Register)
    requires
        in_use.len() == SCRATCH_REGISTERS,
        fresh(in_use, value),
        st.in_use == holding(in_use, value),
    ensures
        adds(in_use, or_right(st, label, value)),
{
    lemma_zero_test_registers(in_use, next_label(st), value, "\tje    L"@, st.labels);
    if let Step::Done(tested, _) = zero_test(next_label(st), value, "\tje    L"@, st.labels) {
        lemma_first_free(tested.in_use);
        lemma_finish_registers(allocate(next_label(tested)));
    }
}

proof fn lemma_and_right_registers(in_use: Seq<bool>, st: State, label: nat, value: Register)
    requires
        in_use.len() == SCRATCH_REGISTERS,
        fresh(in_use, value),
        st.in_use == holding(in_use, value),
    ensures
        adds(in_use, and_right(st, label, value)),
{
    lemma_zero_test_registers(in_use, st, value, "\tje    L"@, label);
    if let Step::Done(tested, _) = zero_test(st, value, "\tje    L"@, label) {
        lemma_first_free(tested.in_use);
        lemma_finish_registers(allocate(next_label(tested)));
    }
}

proof fn lemma_literal_registers(st: State, head: Seq<char>, n: int, t: Types)
    requires
        st.in_use.len() == SCRATCH_REGISTERS,
    ensures
        adds(st.in_use, literal(st, head, n, t)),
{
    lemma_first_free(st.in_use);
    lemma_finish_registers(allocate(st));
}

proof fn lemma_call_registers(st: State, function: Seq<char>, t: NEWTypes)
    requires
        st.in_use.len() == SCRATCH_REGISTERS,
    ensures
        adds(st.in_use, call(st, function, t)),
{
    lemma_first_free(st.in_use);
    lemma_finish_registers(allocate(emit(st, call_lines(st.in_use, function))));
}

proof fn lemma_cast_up_registers(
    in_use: Seq<bool>,
    st: State,
    value: Register,
    from: Option<NEWTypes>,
    to: NEWTypes,
)
    requires
        in_use.len() == SCRATCH_REGISTERS,
        fresh(in_use, value),
        st.in_use == holding(in_use, value),
    ensures
        adds(in_use, cast_up(st, value, from, to)),
{
    lemma_first_free(st.in_use);
    lemma_finish_registers(allocate(st));
    if let Step::Done(after, result) = cast_up(st, value, from, to) {
        assert(after.in_use =~= holding(in_use, result));
    }
}

proof fn lemma_shift_registers(
    in_use: Seq<bool>,
    st: State,
    head: Seq<char>,
    amount: usize,
    value: Register,
)
    requires
        in_use.len() == SCRATCH_REGISTERS,
        fresh(in_use, value),
        st.in_use == holding(in_use, value),
    ensures
        adds(in_use, shift(st, head, amount, value)),
{
    lemma_load_registers(st, value);
    if let Step::Done(loaded, _) = load(st, value) {
        lemma_finish_registers(loaded);
    }
}

pub(crate) proof fn lemma_sound_after(before: State, after: State, value: Register)
    requires
        sound(before),
        framed(before, after),
        adds(before.in_use, Step::Done(after, value)),
    ensures
        sound(after),
{
    reveal(framed);
}

/// Generating an expression puts exactly the register that holds its value to
/// use, and one that was free: no register that is in use is put to use again,
/// and none is lost. The registers of the fifth and the sixth argument are
/// scratch registers as well, whether in use or not.
pub proof fn law_expression_registers(st: State, e: Expr)
    requires
        sound(st),
    ensures
        adds(st.in_use, execute(st, e)),
    decreases expr_size(e),
{
    match e.kind {
        ExprKind::Binary { left, token, right } => {
            lemma_binary_expr_registers(st, *left, token, *right);
        },
        ExprKind::Number(n) => {
            lemma_literal_registers(st, "\tmovl    $"@, n as int, Types::Int);
        },
        ExprKind::CharLit(c) => {
            lemma_literal_registers(st, "\tmovb    $"@, c as int, Types::Char);
        },
        ExprKind::Grouping { expr } => law_expression_registers(st, *expr),
        ExprKind::Unary { token, right } => lemma_unary_expr_registers(st, token, *right),
        ExprKind::Logical { left, token, right } => {
            lemma_or_expr_registers(st, *left, *right);
            lemma_and_expr_registers(st, *left, *right);
            assert(adds(st.in_use, logical_expr(st, *left, token, *right)));
        },
        ExprKind::Assign { l_expr, r_expr, .. } => {
            lemma_assign_expr_registers(st, *l_expr, *r_expr);
        },
        ExprKind::Ident(name) => {
            if let Some(name) = name.name() {
                lemma_variable_on_stack(st.scopes, name);
            }
        },
        ExprKind::Call { callee, args, .. } => {
            if let Some(t) = e.type_decl {
                lemma_call_expr_registers(st, *callee, args@, t);
            }
        },
        ExprKind::CastUp { expr } => {
            if let Some(t) = e.type_decl {
                lemma_cast_up_expr_registers(st, *expr, t);
            }
        },
        ExprKind::CastDown { expr } => {
            if let Some(t) = e.type_decl {
                lemma_cast_down_expr_registers(st, *expr, t);
            }
        },
        ExprKind::ScaleUp { expr, shift_amount } => {
            lemma_shift_expr_registers(st, "sal"@, *expr, shift_amount);
        },
        ExprKind::ScaleDown { expr, shift_amount } => {
            lemma_shift_expr_registers(st, "sar"@, *expr, shift_amount);
        },
    }
}

proof fn lemma_binary_expr_registers(st: State, left: Expr, token: Token, right: Expr)
    requires
        sound(st),
    ensures
        adds(st.in_use, binary_expr(st, left, token, right)),
    decreases expr_size(left) + expr_size(right) + 1,
{
    law_expression_registers(st, left);
    law_expression_frames(st, left);
    if let Step::Done(s, l) = execute(st, left) {
        lemma_sound_after(st, s, l);
        law_expression_registers(s, right);
        if let Step::Done(t, r) = execute(s, right) {
            lemma_binary_registers(st.in_use, t, token, l, r);
        }
    }
}

proof fn lemma_unary_expr_registers(st: State, token: Token, right: Expr)
    requires
        sound(st),
    ensures
        adds(st.in_use, unary_expr(st, token, right)),
    decreases expr_size(right) + 1,
{
    law_expression_registers(st, right);
    if let Step::Done(s, value) = execute(st, right) {
        lemma_unary_registers(st.in_use, s, token, value);
    }
}

proof fn lemma_or_expr_registers(st: State, left: Expr, right: Expr)
    requires
        sound(st),
    ensures
        adds(st.in_use, or_expr(st, left, right)),
    decreases expr_size(left) + expr_size(right) + 1,
{
    law_expression_registers(st, left);
    law_expression_frames(st, left);
    if let Step::Done(s, l) = execute(st, left) {
        lemma_zero_test_registers(st.in_use, next_label(s), l, "\tjne    L"@, s.labels);
        if let Step::Done(tested, _) = or_left(s, l) {
            assert(tested.scopes == s.scopes);
            assert(sound(tested)) by {
                reveal(framed);
            }
            law_expression_registers(tested, right);
            if let Step::Done(after, r) = execute(tested, right) {
                lemma_or_right_registers(st.in_use, after, s.labels, r);
            }
        }
    }
}

proof fn lemma_and_expr_registers(st: State, left: Expr, right: Expr)
    requires
        sound(st),
    ensures
        adds(st.in_use, and_expr(st, left, right)),
    decreases expr_size(left) + expr_size(right) + 1,
{
    law_expression_registers(st, left);
    law_expression_frames(st, left);
    if let Step::Done(s, l) = execute(st, left) {
        lemma_zero_test_registers(st.in_use, next_label(s), l, "\tje    L"@, s.labels);
        if let Step::Done(tested, _) = and_left(s, l) {
            assert(tested.scopes == s.scopes);
            assert(sound(tested)) by {
                reveal(framed);
            }
            law_expression_registers(tested, right);
            if let Step::Done(after, r) = execute(tested, right) {
                lemma_and_right_registers(st.in_use, after, s.labels, r);
            }
        }
    }
}

proof fn lemma_assign_expr_registers(st: State, l_expr: Expr, r_expr: Expr)
    requires
        sound(st),
    ensures
        adds(st.in_use, assign_expr(st, l_expr, r_expr)),
    decreases expr_size(l_expr) + expr_size(r_expr) + 1,
{
    lemma_place_registers(st, l_expr);
    lemma_place_frames(st, l_expr);
    if let Step::Done(s, place) = execute_l(st, l_expr) {
        lemma_sound_after(st, s, place);
        law_expression_registers(s, r_expr);
        if let Step::Done(t, value) = execute(s, r_expr) {
            lemma_assign_registers(st.in_use, t, place, value);
        }
    }
}

pub(crate) proof fn lemma_place_registers(st: State, e: Expr)
    requires
        sound(st),
    ensures
        adds(st.in_use, execute_l(st, e)),
    decreases expr_size(e),
{
    match e.kind {
        ExprKind::Unary { token, right } => {
            law_expression_registers(st, *right);
            if let Step::Done(s, value) = execute(st, *right) {
                lemma_load_registers(s, value);
            }
        },
        ExprKind::Ident(name) => {
            if let Some(name) = name.name() {
                lemma_variable_on_stack(st.scopes, name);
            }
        },
        ExprKind::Grouping { expr } => lemma_place_registers(st, *expr),
        _ => {},
    }
}

proof fn lemma_call_expr_registers(st: State, callee: Expr, args: Seq<Expr>, t: NEWTypes)
    requires
        sound(st),
    ensures
        adds(st.in_use, call_expr(st, callee, args, t)),
    decreases exprs_size(args) + 2,
{
    lemma_arguments_registers(st, args, 0);
    if let ExprKind::Ident(name) = callee.kind {
        if let Step::Done(s, _) = arguments(st, args, 0) {
            if let Some(function) = name.name() {
                lemma_call_registers(s, function, t);
            }
        }
    }
}

pub(crate) proof fn lemma_arguments_registers(st: State, args: Seq<Expr>, i: int)
    requires
        sound(st),
    ensures
        arguments(st, args, i) matches Step::Done(after, _) ==> after.in_use == st.in_use,
    decreases exprs_size(args) + 1,
{
    if args.len() > 0 {
        law_expression_registers(st, args[0]);
        law_expression_frames(st, args[0]);
        if let Step::Done(s, value) = execute(st, args[0]) {
            lemma_free_last(st.in_use, s, value);
            lemma_finish_registers(s);
            if let Step::Done(t, _) = pass(s, i, args[0].type_decl, value) {
                assert(t.scopes == s.scopes);
                assert(sound(t)) by {
                    reveal(framed);
                }
                lemma_arguments_registers(t, args.drop_first(), i + 1);
            }
        }
    }
}

proof fn lemma_cast_up_expr_registers(st: State, expr: Expr, t: NEWTypes)
    requires
        sound(st),
    ensures
        adds(st.in_use, cast_up_expr(st, expr, t)),
    decreases expr_size(expr) + 1,
{
    law_expression_registers(st, expr);
    if let Step::Done(s, value) = execute(st, expr) {
        lemma_cast_up_registers(st.in_use, s, value, expr.type_decl, t);
    }
}

proof fn lemma_cast_down_expr_registers(st: State, expr: Expr, t: NEWTypes)
    requires
        sound(st),
    ensures
        adds(st.in_use, cast_down_expr(st, expr, t)),
    decreases expr_size(expr) + 1,
{
    law_expression_registers(st, expr);
}

proof fn lemma_shift_expr_registers(st: State, head: Seq<char>, expr: Expr, amount: usize)
    requires
        sound(st),
    ensures
        adds(st.in_use, shift_expr(st, head, expr, amount)),
    decreases expr_size(expr) + 1,
{
    law_expression_registers(st, expr);
    if let Step::Done(s, value) = execute(st, expr) {
        lemma_shift_registers(st.in_use, s, head, amount, value);
    }
}

/// Moving one of the first four arguments into its register overwrites no
/// scratch register: the registers, by their full names, are not the same, and
/// neither are the operands, whatever types they hold.
pub proof fn law_argument_registers(index: int, i: int, t: NEWTypes, u: NEWTypes)
    requires
        0 <= index < SCRATCH_REGISTERS,
        0 <= i < 4,
    ensures
        argument_name(i, NEWTypes::Primitive(Types::Long)) != Some(scratch_name(index)),
        Register::Scratch(index as usize, t).operand() is Some ==> argument_name(i, u)
            != Register::Scratch(index as usize, t).operand(),
{
    reveal_strlit("%r8");
    reveal_strlit("%r9");
    reveal_strlit("%r10");
    reveal_strlit("%r11");
    reveal_strlit("b");
    reveal_strlit("d");
    reveal_strlit("");
    reveal_strlit("%dil");
    reveal_strlit("%sil");
    reveal_strlit("%dl");
    reveal_strlit("%cl");
    reveal_strlit("%edi");
    reveal_strlit("%esi");
    reveal_strlit("%edx");
    reveal_strlit("%ecx");
    reveal_strlit("%rdi");
    reveal_strlit("%rsi");
    reveal_strlit("%rdx");
    reveal_strlit("%rcx");
    let name = scratch_name(index);
    assert(name[1] == 'r' && (name[2] == '8' || name[2] == '9' || name[2] == '1'));
    if let Some(operand) = Register::Scratch(index as usize, t).operand() {
        assert(operand[1] == name[1] && operand[2] == name[2]);
    }
}

/// The fifth and the sixth argument go where the first two scratch registers
/// are.
pub proof fn law_last_arguments()
    ensures
        argument_name(4, NEWTypes::Primitive(Types::Long)) == Some(scratch_name(0)),
        argument_name(5, NEWTypes::Primitive(Types::Long)) == Some(scratch_name(1)),
{
}

} // verus!
