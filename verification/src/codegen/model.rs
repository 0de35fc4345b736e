//! What the code generator emits.
//!
//! Every construct takes the state that it finds to the state that it leaves,
//! and to the place where its value lives.

use vstd::prelude::*;

use crate::codegen::ast::{expr_size, exprs_size, stmt_size, stmts_size, Expr, ExprKind, Stmt};
use crate::codegen::register::{
    argument_name, first_free, return_register, scratch_name, suffix, Register, StackRegister,
    SCRATCH_REGISTERS,
};
use crate::codegen::text::decimal;
use crate::common::environment::{declare, lookup};
use crate::common::error::{error_at, Error, ErrorKind};
use crate::common::token::{Token, TokenType};
use crate::common::types::{NEWTypes, Types};

verus! {

/// The state of the code generator.
#[verifier::ext_equal]
pub struct State {
    /// The assembly so far.
    pub output: Seq<char>,
    /// Which scratch registers are in use.
    pub in_use: Seq<bool>,
    /// Where the variables of each scope live, the innermost scope first.
    pub scopes: Seq<Map<Seq<char>, Register>>,
    /// The name of the function that is being generated.
    pub function: Option<Seq<char>>,
    /// Number of labels so far.
    pub labels: nat,
    /// Number of bytes that the variables of each function take up.
    pub stack_sizes: Map<Seq<char>, usize>,
    /// Number of bytes of the stack frame that are taken.
    pub offset: nat,
}

/// What a construct comes to.
pub enum Step {
    /// The state that it leaves and where its value lives.
    Done(State, Register),
    /// The state in which an error was found.
    Rejected(State, Error),
    /// The construct is none that passes checking, or it needs more registers,
    /// labels or stack than there are: generating code is not defined.
    Stuck,
}

/// The state before any code is generated.
pub open spec fn initial(stack_sizes: Map<Seq<char>, usize>) -> State {
    State {
        output: Seq::empty(),
        in_use: seq![false, false, false, false],
        scopes: seq![Map::empty()],
        function: None,
        labels: 0,
        stack_sizes,
        offset: 0,
    }
}

/// Whether generating code for a value comes to `step`.
pub open spec fn yields(result: Result<Register, Error>, after: State, step: Step) -> bool {
    match result {
        Ok(value) => step == Step::Done(after, value),
        Err(error) => step == Step::Rejected(after, error),
    }
}

/// Whether generating code for a statement comes to `step`.
pub open spec fn completes(result: Result<(), Error>, after: State, step: Step) -> bool {
    match result {
        Ok(()) => step == Step::Done(after, Register::Void),
        Err(error) => step == Step::Rejected(after, error),
    }
}

/// The least multiple of `size` that is not less than `offset`.
pub open spec fn aligned(offset: nat, size: nat) -> nat {
    if offset % size == 0 {
        offset
    } else {
        (offset + (size - offset % size)) as nat
    }
}

pub open spec fn emit(st: State, text: Seq<char>) -> State {
    State { output: st.output + text, ..st }
}

/// Puts the first free scratch register to use.
pub open spec fn allocate(st: State) -> State {
    State { in_use: st.in_use.update(first_free(st.in_use).unwrap(), true), ..st }
}

/// The first free scratch register, for a value of type `t`.
pub open spec fn free_register(st: State, t: NEWTypes) -> Register {
    Register::Scratch(first_free(st.in_use).unwrap() as usize, t)
}

/// Whether a scratch register is free.
pub open spec fn has_free(st: State) -> bool {
    first_free(st.in_use) is Some
}

/// Whether the place can be given up.
pub open spec fn freeable(place: Register) -> bool {
    place.scratch() matches Some(index) ==> index < SCRATCH_REGISTERS
}

/// Gives up the scratch register that a place keeps in use.
pub open spec fn free(st: State, place: Register) -> State {
    match place.scratch() {
        Some(index) => State { in_use: st.in_use.update(index, false), ..st },
        None => st,
    }
}

/// Emits `text`, gives up `freed`, and ends with the value in `result`.
pub open spec fn finish(
    st: State,
    text: Option<Seq<char>>,
    freed: Register,
    result: Register,
) -> Step {
    match text {
        Some(text) => if freeable(freed) {
            Step::Done(free(emit(st, text), freed), result)
        } else {
            Step::Stuck
        },
        None => Step::Stuck,
    }
}

/// An instruction with two operands, on values of type `t`.
pub open spec fn instruction(
    head: Seq<char>,
    t: Option<NEWTypes>,
    gap: Seq<char>,
    source: Option<Seq<char>>,
    target: Option<Seq<char>>,
) -> Option<Seq<char>> {
    match (t, source, target) {
        (Some(t), Some(source), Some(target)) => match suffix(t) {
            Some(suffix) => Some(head + suffix + gap + source + ", "@ + target + "\n"@),
            None => None,
        },
        _ => None,
    }
}

/// An instruction with one operand, on values of type `t`.
pub open spec fn short_instruction(
    head: Seq<char>,
    t: Option<NEWTypes>,
    operand: Option<Seq<char>>,
) -> Option<Seq<char>> {
    match (t, operand) {
        (Some(t), Some(operand)) => match suffix(t) {
            Some(suffix) => Some(head + suffix + " "@ + operand + "\n"@),
            None => None,
        },
        _ => None,
    }
}

/// One text after the other.
pub open spec fn both(first: Option<Seq<char>>, second: Option<Seq<char>>) -> Option<Seq<char>> {
    match (first, second) {
        (Some(first), Some(second)) => Some(first + second),
        _ => None,
    }
}

/// The line that defines a label.
pub open spec fn label_line(label: nat) -> Seq<char> {
    "L"@ + decimal(label as int) + ":\n"@
}

/// A jump to a label.
pub open spec fn jump_line(head: Seq<char>, label: nat) -> Seq<char> {
    head + decimal(label as int) + "\n"@
}

/// Whether there is another label.
pub open spec fn has_label(st: State) -> bool {
    st.labels < usize::MAX
}

/// Takes the next label.
pub open spec fn next_label(st: State) -> State {
    State { labels: st.labels + 1, ..st }
}

/// A constant, moved into a scratch register by an instruction that starts
/// with `head`.
pub open spec fn literal(st: State, head: Seq<char>, n: int, t: Types) -> Step {
    if has_free(st) {
        let result = free_register(st, NEWTypes::Primitive(t));
        let text = match result.operand() {
            Some(operand) => Some(head + decimal(n) + ", "@ + operand + "\n"@),
            None => None,
        };
        finish(allocate(st), text, Register::Void, result)
    } else {
        Step::Stuck
    }
}

/// A variable.
pub open spec fn variable(st: State, name: Token) -> Step {
    match name.name() {
        Some(name) => match lookup(st.scopes, name) {
            Some(place) => Step::Done(st, place),
            None => Step::Stuck,
        },
        None => Step::Stuck,
    }
}

/// Moves a value into a scratch register.
pub open spec fn move_to_scratch(st: State, value: Register) -> Step {
    match value.type_of() {
        Some(t) => if has_free(st) {
            let result = free_register(st, t);
            finish(
                allocate(st),
                instruction("\tmov"@, Some(t), "    "@, value.operand(), result.operand()),
                value,
                result,
            )
        } else {
            Step::Stuck
        },
        None => Step::Stuck,
    }
}

/// Moves a value out of the stack frame, since an instruction takes one operand
/// in memory at most.
pub open spec fn load(st: State, value: Register) -> Step {
    if value is Stack {
        move_to_scratch(st, value)
    } else {
        Step::Done(st, value)
    }
}

/// Shifts a value by `amount`, by an instruction that starts with `head`.
pub open spec fn shift(st: State, head: Seq<char>, amount: usize, value: Register) -> Step {
    match load(st, value) {
        Step::Done(st, value) => finish(
            st,
            instruction(
                head,
                value.type_of(),
                "   "@,
                Some("$"@ + decimal(amount as int)),
                value.operand(),
            ),
            Register::Void,
            value,
        ),
        other => other,
    }
}

/// Sees a value as one of a narrower type.
pub open spec fn cast_down(st: State, value: Register, t: NEWTypes) -> Step {
    match value.with_type(t) {
        Some(result) => Step::Done(st, result),
        None => Step::Stuck,
    }
}

/// Extends a value of type `from` to one of type `to`.
pub open spec fn cast_up(st: State, value: Register, from: Option<NEWTypes>, to: NEWTypes) -> Step {
    match from {
        Some(from) => match suffix(from) {
            Some(narrow) => if has_free(st) {
                let result = free_register(st, to);
                finish(
                    allocate(st),
                    instruction(
                        "movs"@ + narrow,
                        Some(to),
                        "   "@,
                        value.operand(),
                        result.operand(),
                    ),
                    value,
                    result,
                )
            } else {
                Step::Stuck
            },
            None => Step::Stuck,
        },
        None => Step::Stuck,
    }
}

/// Stores `value` in `place`.
pub open spec fn assign(st: State, place: Register, value: Register) -> Step {
    match load(st, value) {
        Step::Done(st, value) => finish(
            st,
            instruction("\tmov"@, value.type_of(), "    "@, value.operand(), place.operand()),
            value,
            place,
        ),
        other => other,
    }
}

/// Copies the flag in `%al` to where `place` is.
pub open spec fn flag_line(place: Register) -> Option<Seq<char>> {
    match (place.type_of(), place.operand()) {
        (Some(NEWTypes::Primitive(Types::Char)), Some(operand)) => Some(
            "\tmovb %al, "@ + operand + "\n"@,
        ),
        (t, operand) => instruction("\tmovzb"@, t, " "@, Some("%al"@), operand),
    }
}

pub open spec fn bang(st: State, value: Register) -> Step {
    let compared = instruction("\tcmp"@, value.type_of(), " "@, Some("$0"@), value.operand());
    finish(
        st,
        both(both(compared, Some("\tsete %al\n"@)), flag_line(value)),
        Register::Void,
        value,
    )
}

pub open spec fn negate(st: State, value: Register) -> Step {
    finish(
        st,
        short_instruction("\tneg"@, value.type_of(), value.operand()),
        Register::Void,
        value,
    )
}

pub open spec fn address_of(st: State, value: Register) -> Step {
    match value.type_of() {
        Some(t) => if has_free(st) {
            let result = free_register(st, NEWTypes::Pointer(Box::new(t)));
            let text = match (value.operand(), result.operand()) {
                (Some(from), Some(to)) => Some("\tleaq    "@ + from + ", "@ + to + "\n"@),
                _ => None,
            };
            finish(allocate(st), text, value, result)
        } else {
            Step::Stuck
        },
        None => Step::Stuck,
    }
}

/// The place that a pointer points to.
pub open spec fn dereferenced_place(st: State, value: Register) -> Step {
    match load(st, value) {
        Step::Done(st, value) => match value.pointee() {
            Some(place) => Step::Done(st, place),
            None => Step::Stuck,
        },
        other => other,
    }
}

/// The value that a pointer points to.
pub open spec fn dereferenced(st: State, value: Register) -> Step {
    match value.type_of() {
        Some(NEWTypes::Pointer(to)) => if has_free(st) {
            let result = free_register(st, *to);
            match load(allocate(st), value) {
                Step::Done(st, value) => finish(
                    st,
                    match value.operand() {
                        Some(operand) => instruction(
                            "\tmov"@,
                            Some(*to),
                            "    "@,
                            Some("("@ + operand + ")"@),
                            result.operand(),
                        ),
                        None => None,
                    },
                    value,
                    result,
                ),
                other => other,
            }
        } else {
            Step::Stuck
        },
        _ => Step::Stuck,
    }
}

pub open spec fn unary(st: State, token: Token, value: Register) -> Step {
    match token.token {
        TokenType::Bang => bang(st, value),
        TokenType::Minus => negate(st, value),
        TokenType::Amp => address_of(st, value),
        TokenType::Star => dereferenced(st, value),
        _ => Step::Rejected(st, error_at(token, ErrorKind::Regular("invalid unary operator"))),
    }
}

pub open spec fn addition(st: State, left: Register, right: Register) -> Step {
    let text = instruction("\tadd"@, right.type_of(), " "@, left.operand(), right.operand());
    finish(st, both(text, Some("\n"@)), left, right)
}

pub open spec fn subtraction(st: State, left: Register, right: Register) -> Step {
    let text = instruction("\tsub"@, right.type_of(), " "@, right.operand(), left.operand());
    finish(st, both(text, Some("\n"@)), right, left)
}

pub open spec fn multiplication(st: State, left: Register, right: Register) -> Step {
    let text = instruction("\timul"@, right.type_of(), " "@, left.operand(), right.operand());
    finish(st, both(text, Some("\n"@)), left, right)
}

/// The register that a function returns a value like this one in.
pub open spec fn return_operand(value: Register) -> Option<Seq<char>> {
    match value.type_of() {
        Some(t) => return_register(t),
        None => None,
    }
}

pub open spec fn division(st: State, left: Register, right: Register) -> Step {
    let dividend = instruction(
        "\tmov"@,
        left.type_of(),
        " "@,
        left.operand(),
        return_operand(left),
    );
    let divided = both(
        Some("\tcqo\n"@),
        short_instruction("\tidiv"@, right.type_of(), right.operand()),
    );
    let quotient = instruction(
        "\tmov"@,
        right.type_of(),
        " "@,
        return_operand(right),
        right.operand(),
    );
    finish(st, both(both(dividend, divided), quotient), left, right)
}

pub open spec fn comparison(st: State, set: Seq<char>, left: Register, right: Register) -> Step {
    let compared = instruction("\tcmp"@, right.type_of(), " "@, right.operand(), left.operand());
    finish(
        st,
        both(both(compared, Some("\t"@ + set + " %al\n"@)), flag_line(right)),
        left,
        right,
    )
}

/// A binary operator on values neither of which is in the stack frame.
pub open spec fn operate(st: State, token: Token, left: Register, right: Register) -> Step {
    match token.token {
        TokenType::Plus => addition(st, left, right),
        TokenType::Minus => subtraction(st, left, right),
        TokenType::Star => multiplication(st, left, right),
        TokenType::Slash => division(st, left, right),
        TokenType::EqualEqual => comparison(st, "sete"@, left, right),
        TokenType::BangEqual => comparison(st, "setne"@, left, right),
        TokenType::Greater => comparison(st, "setg"@, left, right),
        TokenType::GreaterEqual => comparison(st, "setge"@, left, right),
        TokenType::Less => comparison(st, "setl"@, left, right),
        TokenType::LessEqual => comparison(st, "setle"@, left, right),
        _ => Step::Rejected(st, error_at(token, ErrorKind::Regular("invalid binary operator"))),
    }
}

pub open spec fn binary(st: State, token: Token, left: Register, right: Register) -> Step {
    match load(st, left) {
        Step::Done(st, left) => match load(st, right) {
            Step::Done(st, right) => operate(st, token, left, right),
            other => other,
        },
        other => other,
    }
}

/// Compares a value with 0, jumps to a label by `jump`, and gives the value up.
pub open spec fn zero_test(st: State, value: Register, jump: Seq<char>, label: nat) -> Step {
    let compared = instruction("\tcmp"@, value.type_of(), "    "@, Some("$0"@), value.operand());
    finish(st, both(compared, Some(jump_line(jump, label))), value, Register::Void)
}

/// The left operand of `||`: where it is true, so is the whole.
pub open spec fn or_left(st: State, left: Register) -> Step {
    if has_label(st) {
        zero_test(next_label(st), left, "\tjne    L"@, st.labels)
    } else {
        Step::Stuck
    }
}

/// The right operand of `||`, and the value of the whole.
pub open spec fn or_right(st: State, true_label: nat, right: Register) -> Step {
    let false_label = st.labels;
    if has_label(st) {
        match zero_test(next_label(st), right, "\tje    L"@, false_label) {
            Step::Done(st, _) => if has_label(st) && has_free(st) {
                let done_label = st.labels;
                let result = free_register(st, NEWTypes::Primitive(Types::Int));
                finish(
                    allocate(next_label(st)),
                    match result.operand() {
                        Some(operand) => Some(
                            label_line(true_label) + "\tmovl    $1, "@ + operand + "\n"@
                                + jump_line("\tjmp     L"@, done_label) + label_line(false_label)
                                + "\tmovl    $0, "@ + operand + "\n"@ + label_line(done_label),
                        ),
                        None => None,
                    },
                    Register::Void,
                    result,
                )
            } else {
                Step::Stuck
            },
            other => other,
        }
    } else {
        Step::Stuck
    }
}

/// The left operand of `&&`: where it is false, so is the whole.
pub open spec fn and_left(st: State, left: Register) -> Step {
    if has_label(st) {
        zero_test(next_label(st), left, "\tje    L"@, st.labels)
    } else {
        Step::Stuck
    }
}

/// The right operand of `&&`, and the value of the whole.
pub open spec fn and_right(st: State, false_label: nat, right: Register) -> Step {
    match zero_test(st, right, "\tje    L"@, false_label) {
        Step::Done(st, _) => if has_label(st) && has_free(st) {
            let true_label = st.labels;
            let result = free_register(st, NEWTypes::Primitive(Types::Int));
            finish(
                allocate(next_label(st)),
                match result.operand() {
                    Some(operand) => Some(
                        "\tmovl    $1, "@ + operand + "\n"@ + jump_line(
                            "\tjmp    L"@,
                            true_label,
                        ) + label_line(false_label) + "\tmovl    $0, "@ + operand + "\n"@
                            + label_line(true_label),
                    ),
                    None => None,
                },
                Register::Void,
                result,
            )
        } else {
            Step::Stuck
        },
        other => other,
    }
}

/// Saves the first `n` scratch registers that are in use.
pub open spec fn pushes(in_use: Seq<bool>, n: nat) -> Seq<char>
    decreases n,
{
    if n == 0 {
        Seq::empty()
    } else if in_use[n - 1] {
        pushes(in_use, (n - 1) as nat) + ("\tpushq   "@ + scratch_name(n - 1) + "\n"@)
    } else {
        pushes(in_use, (n - 1) as nat)
    }
}

/// Restores the first `n` scratch registers that are in use, the last one first.
pub open spec fn pops(in_use: Seq<bool>, n: nat) -> Seq<char>
    decreases n,
{
    if n == 0 {
        Seq::empty()
    } else if in_use[n - 1] {
        ("\tpopq   "@ + scratch_name(n - 1) + "\n"@) + pops(in_use, (n - 1) as nat)
    } else {
        pops(in_use, (n - 1) as nat)
    }
}

/// How many of the first `n` scratch registers are in use.
pub open spec fn count(in_use: Seq<bool>, n: nat) -> nat
    decreases n,
{
    if n == 0 {
        0
    } else {
        count(in_use, (n - 1) as nat) + if in_use[n - 1] {
            1nat
        } else {
            0
        }
    }
}

/// How far the stack pointer is moved before a call, besides saving registers
/// of 8 bytes each, so that the stack stays aligned to 16 bytes.
pub open spec fn padding(in_use: Seq<bool>) -> nat {
    if count(in_use, SCRATCH_REGISTERS as nat) % 2 != 0 {
        8
    } else {
        0
    }
}

/// A call, between saving the scratch registers in use and restoring them.
pub open spec fn call_lines(in_use: Seq<bool>, function: Seq<char>) -> Seq<char> {
    let call = "\tcall    _"@ + function + "\n"@;
    let aligned_call = if padding(in_use) > 0 {
        "\tsubq    $8,%rsp\n"@ + call + "\taddq    $8,%rsp\n"@
    } else {
        call
    };
    pushes(in_use, SCRATCH_REGISTERS as nat) + aligned_call + pops(
        in_use,
        SCRATCH_REGISTERS as nat,
    )
}

/// A call of a function whose arguments are in their registers.
pub open spec fn call(st: State, function: Seq<char>, t: NEWTypes) -> Step {
    let called = emit(st, call_lines(st.in_use, function));
    if t.void() {
        Step::Done(called, Register::Void)
    } else if has_free(called) {
        let result = free_register(called, t);
        finish(
            allocate(called),
            instruction("\tmov"@, Some(t), "    "@, return_register(t), result.operand()),
            Register::Void,
            result,
        )
    } else {
        Step::Stuck
    }
}

/// Moves an argument into its register.
pub open spec fn pass(st: State, index: int, t: Option<NEWTypes>, value: Register) -> Step {
    let target = match t {
        Some(t) => argument_name(index, t),
        None => None,
    };
    finish(
        st,
        instruction("\tmov"@, t, "    "@, value.operand(), target),
        value,
        Register::Void,
    )
}

/// Number of arguments that are passed in registers.
pub const MAX_ARGS: usize = 6;

/// Generates the code of an expression.
pub open spec fn execute(st: State, e: Expr) -> Step
    decreases expr_size(e),
{
    match e.kind {
        ExprKind::Binary { left, token, right } => binary_expr(st, *left, token, *right),
        ExprKind::Number(n) => literal(st, "\tmovl    $"@, n as int, Types::Int),
        ExprKind::CharLit(c) => literal(st, "\tmovb    $"@, c as int, Types::Char),
        ExprKind::Grouping { expr } => execute(st, *expr),
        ExprKind::Unary { token, right } => unary_expr(st, token, *right),
        ExprKind::Logical { left, token, right } => logical_expr(st, *left, token, *right),
        ExprKind::Assign { l_expr, r_expr, .. } => assign_expr(st, *l_expr, *r_expr),
        ExprKind::Ident(name) => variable(st, name),
        ExprKind::Call { callee, args, .. } => match e.type_decl {
            Some(t) => call_expr(st, *callee, args@, t),
            None => Step::Stuck,
        },
        ExprKind::CastUp { expr } => match e.type_decl {
            Some(t) => cast_up_expr(st, *expr, t),
            None => Step::Stuck,
        },
        ExprKind::CastDown { expr } => match e.type_decl {
            Some(t) => cast_down_expr(st, *expr, t),
            None => Step::Stuck,
        },
        ExprKind::ScaleUp { expr, shift_amount } => shift_expr(st, "sal"@, *expr, shift_amount),
        ExprKind::ScaleDown { expr, shift_amount } => shift_expr(st, "sar"@, *expr, shift_amount),
    }
}

/// Generates the code of an expression that is assigned to: a variable, or what
/// a pointer points to.
pub open spec fn execute_l(st: State, e: Expr) -> Step
    decreases expr_size(e),
{
    match e.kind {
        ExprKind::Unary { token, right } => match execute(st, *right) {
            Step::Done(st, value) => if token.token is Star {
                dereferenced_place(st, value)
            } else {
                Step::Stuck
            },
            other => other,
        },
        ExprKind::Ident(name) => variable(st, name),
        ExprKind::Grouping { expr } => execute_l(st, *expr),
        _ => Step::Stuck,
    }
}

pub open spec fn binary_expr(st: State, left: Expr, token: Token, right: Expr) -> Step
    decreases expr_size(left) + expr_size(right) + 1,
{
    match execute(st, left) {
        Step::Done(st, left) => match execute(st, right) {
            Step::Done(st, right) => binary(st, token, left, right),
            other => other,
        },
        other => other,
    }
}

pub open spec fn unary_expr(st: State, token: Token, right: Expr) -> Step
    decreases expr_size(right) + 1,
{
    match execute(st, right) {
        Step::Done(st, value) => unary(st, token, value),
        other => other,
    }
}

pub open spec fn logical_expr(st: State, left: Expr, token: Token, right: Expr) -> Step
    decreases expr_size(left) + expr_size(right) + 2,
{
    match token.token {
        TokenType::AmpAmp => and_expr(st, left, right),
        TokenType::PipePipe => or_expr(st, left, right),
        _ => Step::Stuck,
    }
}

pub open spec fn or_expr(st: State, left: Expr, right: Expr) -> Step
    decreases expr_size(left) + expr_size(right) + 1,
{
    match execute(st, left) {
        Step::Done(st, left) => match or_left(st, left) {
            Step::Done(tested, _) => match execute(tested, right) {
                Step::Done(after, right) => or_right(after, st.labels, right),
                other => other,
            },
            other => other,
        },
        other => other,
    }
}

pub open spec fn and_expr(st: State, left: Expr, right: Expr) -> Step
    decreases expr_size(left) + expr_size(right) + 1,
{
    match execute(st, left) {
        Step::Done(st, left) => match and_left(st, left) {
            Step::Done(tested, _) => match execute(tested, right) {
                Step::Done(after, right) => and_right(after, st.labels, right),
                other => other,
            },
            other => other,
        },
        other => other,
    }
}

pub open spec fn assign_expr(st: State, l_expr: Expr, r_expr: Expr) -> Step
    decreases expr_size(l_expr) + expr_size(r_expr) + 1,
{
    match execute_l(st, l_expr) {
        Step::Done(st, place) => match execute(st, r_expr) {
            Step::Done(st, value) => assign(st, place, value),
            other => other,
        },
        other => other,
    }
}

pub open spec fn call_expr(st: State, callee: Expr, args: Seq<Expr>, t: NEWTypes) -> Step
    decreases exprs_size(args) + 2,
{
    match callee.kind {
        ExprKind::Ident(name) => match name.name() {
            Some(function) => if args.len() <= MAX_ARGS {
                match arguments(st, args, 0) {
                    Step::Done(st, _) => call(st, function, t),
                    other => other,
                }
            } else {
                Step::Stuck
            },
            None => Step::Stuck,
        },
        _ => Step::Stuck,
    }
}

/// Moves arguments, the first of which is the `i`th of the call, into their
/// registers.
pub open spec fn arguments(st: State, args: Seq<Expr>, i: int) -> Step
    decreases exprs_size(args) + 1,
{
    if args.len() == 0 {
        Step::Done(st, Register::Void)
    } else {
        match execute(st, args[0]) {
            Step::Done(st, value) => match pass(st, i, args[0].type_decl, value) {
                Step::Done(st, _) => arguments(st, args.drop_first(), i + 1),
                other => other,
            },
            other => other,
        }
    }
}

pub open spec fn cast_up_expr(st: State, expr: Expr, t: NEWTypes) -> Step
    decreases expr_size(expr) + 1,
{
    match execute(st, expr) {
        Step::Done(st, value) => cast_up(st, value, expr.type_decl, t),
        other => other,
    }
}

pub open spec fn cast_down_expr(st: State, expr: Expr, t: NEWTypes) -> Step
    decreases expr_size(expr) + 1,
{
    match execute(st, expr) {
        Step::Done(st, value) => cast_down(st, value, t),
        other => other,
    }
}

pub open spec fn shift_expr(st: State, head: Seq<char>, expr: Expr, amount: usize) -> Step
    decreases expr_size(expr) + 1,
{
    match execute(st, expr) {
        Step::Done(st, value) => shift(st, head, amount, value),
        other => other,
    }
}

/// Whether a variable of type `t` can be given a slot of the stack frame.
pub open spec fn has_slot(st: State, t: NEWTypes) -> bool {
    &&& t.measurable()
    &&& t.bytes() > 0
    &&& st.offset + t.bytes() <= usize::MAX
    &&& aligned(st.offset + t.bytes(), t.bytes()) <= usize::MAX
}

/// Gives a variable of type `t` a slot of the stack frame, aligned to its size.
pub open spec fn declare_variable(st: State, t: NEWTypes, name: Token) -> Step {
    match name.name() {
        Some(name) => if has_slot(st, t) {
            let offset = aligned(st.offset + t.bytes(), t.bytes());
            let slot = StackRegister { bp_offset: offset as usize };
            Step::Done(
                State {
                    offset,
                    scopes: declare(st.scopes, name, Register::Stack(slot, t)),
                    ..st
                },
                Register::Void,
            )
        } else {
            Step::Stuck
        },
        None => Step::Stuck,
    }
}

/// Declares a variable and stores `value` in it.
pub open spec fn initialize(st: State, t: NEWTypes, name: Token, value: Register) -> Step {
    match declare_variable(st, t, name) {
        Step::Done(st, _) => match load(st, value) {
            Step::Done(st, value) => match variable(st, name) {
                Step::Done(st, place) => finish(
                    st,
                    instruction("\tmov"@, Some(t), "    "@, value.operand(), place.operand()),
                    value,
                    Register::Void,
                ),
                other => other,
            },
            other => other,
        },
        other => other,
    }
}

/// Declares the parameters from the `i`th on and stores the arguments in them.
pub open spec fn parameters(st: State, params: Seq<(NEWTypes, Token)>, i: int) -> Step
    decreases params.len() - i,
{
    if 0 <= i < params.len() {
        match initialize(st, params[i].0, params[i].1, Register::Arg(i as usize, params[i].0)) {
            Step::Done(st, _) => parameters(st, params, i + 1),
            other => other,
        }
    } else {
        Step::Done(st, Register::Void)
    }
}

/// Makes room for `size` bytes on the stack.
pub open spec fn room(size: nat) -> Seq<char> {
    if size > 0 {
        "\tsubq    $"@ + decimal(size as int) + ",%rsp\n"@
    } else {
        Seq::empty()
    }
}

/// Gives back `size` bytes of the stack.
pub open spec fn room_back(size: nat) -> Seq<char> {
    if size > 0 {
        "\taddq    $"@ + decimal(size as int) + ",%rsp\n"@
    } else {
        Seq::empty()
    }
}

/// Makes room for the variables of a function; the stack has to stay aligned to
/// 16 bytes.
pub open spec fn allocate_stack(st: State, function: Seq<char>) -> Step {
    if st.stack_sizes.contains_key(function) && aligned(
        st.stack_sizes[function] as nat,
        16,
    ) <= usize::MAX {
        let size = aligned(st.stack_sizes[function] as nat, 16);
        let st = State { stack_sizes: st.stack_sizes.insert(function, size as usize), ..st };
        Step::Done(emit(st, room(size)), Register::Void)
    } else {
        Step::Stuck
    }
}

/// Gives back the room for the variables of a function.
pub open spec fn release_stack(st: State, function: Seq<char>) -> Step {
    if st.stack_sizes.contains_key(function) {
        Step::Done(emit(st, room_back(st.stack_sizes[function] as nat)), Register::Void)
    } else {
        Step::Stuck
    }
}

/// The label of a function, and its base pointer and stack pointer.
pub open spec fn function_head(function: Seq<char>) -> Seq<char> {
    "\n\t.text\n\t.globl _"@ + function + "\n_"@ + function
        + ":\n\tpushq   %rbp\n\tmovq    %rsp, %rbp\n"@
}

/// The start of a function.
pub open spec fn function_start(
    st: State,
    function: Seq<char>,
    params: Seq<(NEWTypes, Token)>,
) -> Step {
    match allocate_stack(emit(st, function_head(function)), function) {
        Step::Done(st, _) => parameters(st, params, 0),
        other => other,
    }
}

/// The end of a function.
pub open spec fn function_end(st: State, function: Seq<char>) -> Step {
    match release_stack(emit(st, function + "_epilogue:\n"@), function) {
        Step::Done(st, _) => Step::Done(
            emit(st, "\tpopq    %rbp\n\tret\n"@),
            Register::Void,
        ),
        other => other,
    }
}

/// The value that a function returns, and the jump to its end.
pub open spec fn return_value(st: State, function: Seq<char>, value: Register) -> Step {
    let moved = instruction(
        "\tmov"@,
        value.type_of(),
        "    "@,
        value.operand(),
        return_operand(value),
    );
    finish(
        st,
        both(moved, Some("\tjmp    "@ + function + "_epilogue\n"@)),
        value,
        Register::Void,
    )
}

/// Compares a condition with 0 and gives it up.
pub open spec fn test_condition(st: State, value: Register) -> Step {
    let text = match value.operand() {
        Some(operand) => Some("\tcmpl    $0, "@ + operand + "\n"@),
        None => None,
    };
    finish(st, text, value, Register::Void)
}

/// Jumps back to the start of a loop while its condition holds.
pub open spec fn repeat(st: State, value: Register, start_label: nat) -> Step {
    let text = match value.operand() {
        Some(operand) => Some(
            "\tcmpl    $0, "@ + operand + "\n"@ + jump_line("\tjne      L"@, start_label),
        ),
        None => None,
    };
    finish(st, text, value, Register::Void)
}

/// Gives up a value that is not used.
pub open spec fn discard(st: State, value: Register) -> Step {
    if freeable(value) {
        Step::Done(free(st, value), Register::Void)
    } else {
        Step::Stuck
    }
}

/// Leaves the innermost scope.
pub open spec fn leave_scope(step: Step) -> Step {
    match step {
        Step::Done(st, result) => if st.scopes.len() > 1 {
            Step::Done(State { scopes: st.scopes.drop_first(), ..st }, result)
        } else {
            Step::Stuck
        },
        Step::Rejected(st, error) => if st.scopes.len() > 1 {
            Step::Rejected(State { scopes: st.scopes.drop_first(), ..st }, error)
        } else {
            Step::Stuck
        },
        Step::Stuck => Step::Stuck,
    }
}

/// Generates the code of a statement.
pub open spec fn visit(st: State, stmt: Stmt) -> Step
    decreases stmt_size(stmt),
{
    match stmt {
        Stmt::Expr(expr) => match execute(st, expr) {
            Step::Done(st, value) => discard(st, value),
            other => other,
        },
        Stmt::DeclareVar(t, name) => declare_variable(st, t, name),
        Stmt::InitVar(t, name, expr) => match execute(st, expr) {
            Step::Done(st, value) => initialize(st, t, name, value),
            other => other,
        },
        Stmt::Block(_, body) => block(st, body@, seq![Map::empty()] + st.scopes),
        Stmt::Function(_, name, params, body) => match name.name() {
            Some(function) => function_definition(st, function, params@, body@),
            None => Step::Stuck,
        },
        Stmt::Return(_, value) => return_statement(st, value),
        Stmt::If(_, cond, then_branch, else_branch) => if_statement(
            st,
            cond,
            *then_branch,
            *else_branch,
        ),
        Stmt::While(_, cond, body) => while_statement(st, cond, *body),
        Stmt::FunctionDeclaration(_, _, _) => Step::Done(st, Register::Void),
    }
}

/// Generates the code of one statement after the other.
pub open spec fn statements(st: State, body: Seq<Stmt>) -> Step
    decreases stmts_size(body) + 1,
{
    if body.len() == 0 {
        Step::Done(st, Register::Void)
    } else {
        match visit(st, body[0]) {
            Step::Done(st, _) => statements(st, body.drop_first()),
            other => other,
        }
    }
}

/// Generates the code of statements in `scopes`, the innermost of which ends
/// with them.
pub open spec fn block(
    st: State,
    body: Seq<Stmt>,
    scopes: Seq<Map<Seq<char>, Register>>,
) -> Step
    decreases stmts_size(body) + 2,
{
    leave_scope(statements(State { scopes, ..st }, body))
}

pub open spec fn function_definition(
    st: State,
    function: Seq<char>,
    params: Seq<(NEWTypes, Token)>,
    body: Seq<Stmt>,
) -> Step
    decreases stmts_size(body) + 2,
{
    match function_start(State { function: Some(function), ..st }, function, params) {
        Step::Done(st, _) => match statements(st, body) {
            Step::Done(st, _) => match function_end(st, function) {
                Step::Done(st, _) => Step::Done(
                    State { offset: 0, function: None, ..st },
                    Register::Void,
                ),
                other => other,
            },
            other => other,
        },
        other => other,
    }
}

pub open spec fn return_statement(st: State, value: Option<Expr>) -> Step {
    match st.function {
        Some(function) => match value {
            Some(expr) => match execute(st, expr) {
                Step::Done(st, value) => return_value(st, function, value),
                other => other,
            },
            None => Step::Done(
                emit(st, "\tjmp    "@ + function + "_epilogue\n"@),
                Register::Void,
            ),
        },
        None => Step::Stuck,
    }
}

pub open spec fn if_statement(
    st: State,
    cond: Expr,
    then_branch: Stmt,
    else_branch: Option<Stmt>,
) -> Step
    decreases
            stmt_size(then_branch) + (match else_branch {
                Some(branch) => stmt_size(branch),
                None => 0,
            }) + 3,
{
    match execute(st, cond) {
        Step::Done(st, value) => if has_label(st) {
            match test_condition(next_label(st), value) {
                Step::Done(tested, _) => match else_branch {
                    Some(branch) => either(tested, then_branch, branch, st.labels),
                    None => only(tested, then_branch, st.labels),
                },
                other => other,
            }
        } else {
            Step::Stuck
        },
        other => other,
    }
}

/// One of two branches, according to the condition that was tested.
pub open spec fn either(st: State, then_branch: Stmt, else_branch: Stmt, done_label: nat) -> Step
    decreases stmt_size(then_branch) + stmt_size(else_branch) + 2,
{
    let else_label = st.labels;
    if has_label(st) {
        match visit(emit(next_label(st), jump_line("\tje    L"@, else_label)), then_branch) {
            Step::Done(st, _) => match visit(
                emit(st, jump_line("\tjmp    L"@, done_label) + label_line(else_label)),
                else_branch,
            ) {
                Step::Done(st, _) => Step::Done(emit(st, label_line(done_label)), Register::Void),
                other => other,
            },
            other => other,
        }
    } else {
        Step::Stuck
    }
}

/// A branch that is skipped unless the condition that was tested holds.
pub open spec fn only(st: State, then_branch: Stmt, done_label: nat) -> Step
    decreases stmt_size(then_branch) + 2,
{
    match visit(emit(st, jump_line("\tje    L"@, done_label)), then_branch) {
        Step::Done(st, _) => Step::Done(emit(st, label_line(done_label)), Register::Void),
        other => other,
    }
}

pub open spec fn while_statement(st: State, cond: Expr, body: Stmt) -> Step
    decreases stmt_size(body) + 1,
{
    let start_label = st.labels;
    let end_label = st.labels + 1;
    if end_label < usize::MAX {
        match visit(
            emit(
                next_label(next_label(st)),
                jump_line("\tjmp    L"@, end_label) + label_line(start_label),
            ),
            body,
        ) {
            Step::Done(st, _) => match execute(emit(st, label_line(end_label)), cond) {
                Step::Done(st, value) => repeat(st, value, start_label),
                other => other,
            },
            other => other,
        }
    } else {
        Step::Stuck
    }
}

/// What every program starts with: a function that prints an `int`.
pub open spec fn preamble() -> Seq<char> {
    "\t.text\n\t.cstring\nlC0:\n\t.string \"%d\\n\"\n\t.text\n\n_printint:\n\
         \tpushq   %rbp\n\tmovq    %rsp, %rbp\n\n\tsubq    $16, %rsp\n\
         \tmovl    %edi, -4(%rbp)\n\tmovl    -4(%rbp), %eax\n\tmovl    %eax, %esi\n\
         \tleaq\tlC0(%rip), %rax\n\tmovq\t%rax, %rdi\n\taddq    $16, %rsp\n\n\
         \tmovl    $0, %eax\n\tcall    _printf\n\tnop\n\tleave\n\tret\n"@
}

/// A program: what every program starts with, then its statements.
pub open spec fn program(st: State, body: Seq<Stmt>) -> Step {
    match statements(st, body) {
        Step::Done(st, result) => Step::Done(
            State { output: preamble() + st.output, ..st },
            result,
        ),
        other => other,
    }
}

} // verus!
