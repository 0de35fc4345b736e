//! What the code of each operator makes of the values of its operands.

use vstd::prelude::*;

use crate::codegen::ast::{Expr, ExprKind};
use crate::codegen::frame_laws::{framed, law_expression_frames};
use crate::codegen::machine::{
    address, exec, full, holds, is_width, lemma_put, line, number, pair, put, read, reads, run,
    truncated, wrap, written, Cond, Gpr, Instr, Machine, Place,
};
use crate::codegen::model::{
    addition, and_expr, assign_expr, binary, binary_expr, call_expr, cast_down_expr, cast_up_expr,
    comparison, division, execute, execute_l, flag_line, instruction, load, logical_expr,
    multiplication, operate, or_expr, return_operand, shift_expr, short_instruction, subtraction,
    unary, unary_expr, State, Step,
};
use crate::codegen::register::{Register, SCRATCH_REGISTERS};
use crate::codegen::register_laws::{
    law_expression_registers, lemma_sound_after, lemma_variable_on_stack, sound, variables_on_stack,
};
use crate::codegen::run_laws::{
    comes_to, keeps, lemma_blanks, lemma_instruction, lemma_join, lemma_line, lemma_load, lemma_one,
    lemma_operand, lemma_read_range, lemma_same_number, lemma_scratch, lemma_short_instruction,
    only_stored, out_of_frame, place, scratch_gpr, valid, value, width, width_of,
};
use crate::common::token::{Token, TokenType};
use crate::common::types::{NEWTypes, Types};

verus! {

/// 1 where something holds, else 0.
pub open spec fn flag(b: bool) -> int {
    if b {
        1
    } else {
        0
    }
}

/// The value of a binary operator on two values of `w` bytes.
pub open spec fn binary_value(operator: TokenType, x: int, y: int, w: nat) -> int {
    match operator {
        TokenType::Plus => wrap(x + y, w),
        TokenType::Minus => wrap(x - y, w),
        TokenType::Star => wrap(x * y, w),
        TokenType::Slash => truncated(x, y),
        TokenType::EqualEqual => flag(x == y),
        TokenType::BangEqual => flag(x != y),
        TokenType::Greater => flag(x > y),
        TokenType::GreaterEqual => flag(x >= y),
        TokenType::Less => flag(x < y),
        _ => flag(x <= y),
    }
}

/// Where the code for a division gives the quotient: the quotient fits, and four
/// bytes that are negative are not divided, since `cqo` extends eight.
pub open spec fn divides(x: int, y: int, w: nat) -> bool {
    &&& y != 0
    &&& w == 8 || w == 4 && x >= 0
    &&& wrap(truncated(x, y), w) == truncated(x, y)
}

pub(crate) proof fn lemma_two(
    before: Seq<char>,
    first: Seq<char>,
    i: Instr,
    second: Seq<char>,
    j: Instr,
) -> (code: Seq<Instr>)
    requires
        reads(first, i),
        reads(second, j),
    ensures
        written(before, code, before + (first + second)),
        forall|m: Machine| #[trigger] run(code, m) == exec(j, exec(i, m)),
{
    lemma_one(before, first, i);
    lemma_one(before + first, second, j);
    lemma_join(before, seq![i], before + first, seq![j], before + first + second);
    assert(before + first + second =~= before + (first + second));
    let code = seq![i] + seq![j];
    assert forall|m: Machine| #[trigger] run(code, m) == exec(j, exec(i, m)) by {
        assert(run(seq![i], m) == exec(i, m));
        assert(run(seq![j], exec(i, m)) == exec(j, exec(i, m)));
    }
    code
}

/// Whether a value is in a scratch register, or where one points to.
pub open spec fn by_scratch(v: Register) -> bool {
    v.scratch() matches Some(i) && 0 <= i < SCRATCH_REGISTERS
}

/// Whether nothing but `v` and the registers of return values changed.
pub open spec fn only_result(m: Machine, n: Machine, v: Register) -> bool {
    &&& forall|g: Gpr|
        g != Gpr::Rax && g != Gpr::Rdx && (v is Scratch ==> Place::InGpr(g) != place(v))
            ==> #[trigger] n.gpr[g] == m.gpr[g]
    &&& v is Scratch ==> n.bytes == m.bytes
    &&& !(v is Scratch) ==> only_stored(m, n, place(v), width_of(v))
}

/// Addition, subtraction and multiplication.
proof fn lemma_add_sub_mul(
    st: State,
    operator: TokenType,
    l: Register,
    r: Register,
    step: Step,
) -> (code: Seq<Instr>)
    requires
        by_scratch(l) && by_scratch(r),
        width_of(l) == width_of(r),
        step is Done,
        operator is Plus && step == addition(st, l, r) || operator is Minus && step == subtraction(
            st,
            l,
            r,
        ) || operator is Star && step == multiplication(st, l, r),
    ensures
        is_width(width_of(r)),
        step->Done_1 == (if operator is Minus {
            l
        } else {
            r
        }),
        written(st.output, code, step->Done_0.output),
        forall|m: Machine|
            value(#[trigger] run(code, m), step->Done_1) == binary_value(
                operator,
                value(m, l),
                value(m, r),
                width_of(r),
            ) && only_result(m, run(code, m), step->Done_1),
{
    let t = r.type_of()->0;
    let w = width(t);
    let (x, y) = if operator is Minus {
        (r, l)
    } else {
        (l, r)
    };
    let head = if operator is Plus {
        "\tadd"@
    } else if operator is Minus {
        "\tsub"@
    } else {
        "\timul"@
    };
    lemma_operand(l);
    lemma_operand(r);
    lemma_blanks();
    lemma_instruction(head, t, " "@, x.operand()->0, y.operand()->0);
    let text = instruction(head, Some(t), " "@, x.operand(), y.operand())->0;
    let i = if operator is Plus {
        Instr::Add(w, place(x), place(y))
    } else if operator is Minus {
        Instr::Sub(w, place(x), place(y))
    } else {
        Instr::Imul(w, place(x), place(y))
    };
    let code = lemma_two(st.output, text, i, "\n"@, Instr::Nothing);
    assert forall|m: Machine|
        value(#[trigger] run(code, m), y) == binary_value(operator, value(m, l), value(m, r), w)
            && only_result(m, run(code, m), y) by {
        let z = if operator is Plus {
            value(m, y) + value(m, x)
        } else if operator is Minus {
            value(m, y) - value(m, x)
        } else {
            value(m, y) * value(m, x)
        };
        lemma_put(m, place(y), w, z);
        assert(value(m, y) * value(m, x) == value(m, x) * value(m, y)) by (nonlinear_arith);
    }
    code
}

proof fn lemma_division(st: State, l: Register, r: Register) -> (code: Seq<Instr>)
    requires
        by_scratch(l) && by_scratch(r),
        width_of(l) == width_of(r) && width_of(r) > 1,
        division(st, l, r) is Done,
    ensures
        is_width(width_of(r)),
        division(st, l, r)->Done_1 == r,
        written(st.output, code, division(st, l, r)->Done_0.output),
        forall|m: Machine|
            valid(m) && divides(value(m, l), value(m, r), width_of(r)) ==> value(
                #[trigger] run(code, m),
                r,
            ) == truncated(value(m, l), value(m, r)) && only_result(m, run(code, m), r),
{
    let w = width_of(r);
    let (lt, rt) = (l.type_of()->0, r.type_of()->0);
    lemma_operand(l);
    lemma_operand(r);
    lemma_blanks();
    let rax = Place::InGpr(Gpr::Rax);
    let name = return_operand(r)->0;
    lemma_instruction("\tmov"@, lt, " "@, l.operand()->0, return_operand(l)->0);
    lemma_instruction("\tmov"@, rt, " "@, name, r.operand()->0);
    lemma_short_instruction("\tidiv"@, rt, r.operand()->0);
    let t1 = instruction("\tmov"@, Some(lt), " "@, l.operand(), return_operand(l))->0;
    let t3 = short_instruction("\tidiv"@, Some(rt), r.operand())->0;
    let t4 = instruction("\tmov"@, Some(rt), " "@, return_operand(r), r.operand())->0;
    let i1 = Instr::Mov(w, place(l), rax);
    let i3 = Instr::Idiv(w, place(r));
    let i4 = Instr::Mov(w, rax, place(r));
    assert(reads(t1, i1) && reads(t3, i3) && reads(t4, i4));
    let extend = lemma_two(st.output, t1, i1, "\tcqo\n"@, Instr::Cqo);
    let half = st.output + (t1 + "\tcqo\n"@);
    let divide = lemma_two(half, t3, i3, t4, i4);
    lemma_join(st.output, extend, half, divide, half + (t3 + t4));
    let after = division(st, l, r)->Done_0.output;
    assert(after =~= half + (t3 + t4));
    let code = extend + divide;
    assert forall|m: Machine|
        valid(m) && divides(value(m, l), value(m, r), w) implies value(#[trigger] run(code, m), r)
        == truncated(value(m, l), value(m, r)) && only_result(m, run(code, m), r) by {
        lemma_division_runs(m, l, r, w);
    }
    code
}

proof fn lemma_division_runs(m: Machine, l: Register, r: Register, w: nat)
    requires
        by_scratch(l) && by_scratch(r),
        width_of(l) == w && width_of(r) == w,
        valid(m),
        divides(value(m, l), value(m, r), w),
    ensures
        ({
            let rax = Place::InGpr(Gpr::Rax);
            let a = exec(Instr::Mov(w, place(l), rax), m);
            let b = exec(Instr::Cqo, a);
            let c = exec(Instr::Idiv(w, place(r)), b);
            let d = exec(Instr::Mov(w, rax, place(r)), c);
            value(d, r) == truncated(value(m, l), value(m, r)) && only_result(m, d, r)
        }),
{
    let (rax, rdx) = (Place::InGpr(Gpr::Rax), Place::InGpr(Gpr::Rdx));
    let (x, y) = (value(m, l), value(m, r));
    let a = exec(Instr::Mov(w, place(l), rax), m);
    lemma_read_range(m, place(l), w);
    lemma_put(m, rax, w, read(m, place(l), w));
    assert(read(a, rax, w) == read(m, place(l), w));
    assert(number(a, rax, 8) < 0 <==> x < 0);
    let b = exec(Instr::Cqo, a);
    let high: int = if x < 0 {
        -1
    } else {
        0
    };
    lemma_put(a, rdx, 8, high);
    assert(number(b, rdx, w) == high);
    assert(high * full(w) + read(b, rax, w) == x);
    lemma_same_number(m, a, Gpr::Rax, place(r), w);
    lemma_same_number(a, b, Gpr::Rdx, place(r), w);
    let c = exec(Instr::Idiv(w, place(r)), b);
    let q = truncated(x, y);
    let quotient = put(b, rax, w, q);
    lemma_put(b, rax, w, q);
    lemma_put(quotient, rdx, w, x - q * y);
    assert(read(c, rax, w) == q % full(w));
    let d = exec(Instr::Mov(w, rax, place(r)), c);
    lemma_put(c, place(r), w, read(c, rax, w));
    assert((q % full(w)) % full(w) == q % full(w));
}

proof fn lemma_comparison(
    st: State,
    set: Seq<char>,
    cond: Cond,
    l: Register,
    r: Register,
) -> (code: Seq<Instr>)
    requires
        by_scratch(l) && by_scratch(r),
        width_of(l) == width_of(r),
        comparison(st, set, l, r) is Done,
        reads("\t"@ + set + " %al\n"@, Instr::SetByte(cond)),
    ensures
        is_width(width_of(r)),
        comparison(st, set, l, r)->Done_1 == r,
        written(st.output, code, comparison(st, set, l, r)->Done_0.output),
        forall|m: Machine|
            value(#[trigger] run(code, m), r) == flag(
                holds(
                    (Machine { compared: (value(m, l), value(m, r)), ..m }),
                    cond,
                ),
            ) && only_result(m, run(code, m), r),
{
    let w = width_of(r);
    let rt = r.type_of()->0;
    lemma_operand(l);
    lemma_operand(r);
    lemma_blanks();
    lemma_instruction("\tcmp"@, rt, " "@, r.operand()->0, l.operand()->0);
    let t1 = instruction("\tcmp"@, Some(rt), " "@, r.operand(), l.operand())->0;
    let t2 = "\t"@ + set + " %al\n"@;
    let i1 = Instr::Cmp(w, place(r), place(l));
    let i2 = Instr::SetByte(cond);
    let compare = lemma_two(st.output, t1, i1, t2, i2);
    let half = st.output + (t1 + t2);
    let i3 = lemma_flag_line(r);
    let t3 = flag_line(r)->0;
    lemma_one(half, t3, i3);
    lemma_join(st.output, compare, half, seq![i3], half + t3);
    let code = compare + seq![i3];
    let after = comparison(st, set, l, r)->Done_0.output;
    assert(after =~= half + t3);
    assert forall|m: Machine|
        value(#[trigger] run(code, m), r) == flag(
            holds(
                (Machine { compared: (value(m, l), value(m, r)), ..m }),
                cond,
            ),
        ) && only_result(m, run(code, m), r) by {
        let a = Machine { compared: (value(m, l), value(m, r)), ..m };
        assert(exec(i1, m) == a);
        lemma_flag_runs(a, cond, r, i3);
        assert(run(seq![i3], exec(i2, a)) == exec(i3, exec(i2, a)));
    }
    code
}

/// The line that copies `%al` to where a value is.
pub(crate) proof fn lemma_flag_line(r: Register) -> (i: Instr)
    requires
        flag_line(r) is Some,
    ensures
        reads(flag_line(r)->0, i),
        is_width(width_of(r)),
        i == (if width_of(r) == 1 {
            Instr::Mov(1, Place::InGpr(Gpr::Rax), place(r))
        } else {
            Instr::MovZero(width_of(r), Place::InGpr(Gpr::Rax), place(r))
        }),
{
    let rt = r.type_of()->0;
    let operand = r.operand()->0;
    lemma_operand(r);
    lemma_blanks();
    let text = flag_line(r)->0;
    if rt == NEWTypes::Primitive(Types::Char) {
        reveal_strlit("\tmovb %al, ");
        reveal_strlit("\tmov");
        reveal_strlit("b");
        reveal_strlit(" ");
        reveal_strlit("%al");
        reveal_strlit(", ");
        let tail = pair("%al"@, operand);
        assert(text =~= ("\tmov"@ + "b"@) + " "@ + tail + "\n"@);
        lemma_line(text, "\tmov"@ + "b"@, " "@, tail);
        Instr::Mov(1, Place::InGpr(Gpr::Rax), place(r))
    } else {
        lemma_instruction("\tmovzb"@, rt, " "@, "%al"@, operand);
        Instr::MovZero(width_of(r), Place::InGpr(Gpr::Rax), place(r))
    }
}

pub(crate) proof fn lemma_flag_runs(m: Machine, cond: Cond, r: Register, i: Instr)
    requires
        by_scratch(r) || r is Stack,
        is_width(width_of(r)),
        i == (if width_of(r) == 1 {
            Instr::Mov(1, Place::InGpr(Gpr::Rax), place(r))
        } else {
            Instr::MovZero(width_of(r), Place::InGpr(Gpr::Rax), place(r))
        }),
    ensures
        ({
            let n = exec(i, exec(Instr::SetByte(cond), m));
            value(n, r) == flag(holds(m, cond)) && only_result(m, n, r)
        }),
{
    let rax = Place::InGpr(Gpr::Rax);
    let b = flag(holds(m, cond));
    let a = exec(Instr::SetByte(cond), m);
    lemma_put(m, rax, 1, b);
    assert(read(a, rax, 1) == b);
    lemma_put(a, place(r), width_of(r), b);
}

/// The instructions that set `%al`.
pub(crate) proof fn lemma_set_lines()
    ensures
        reads("\t"@ + "sete"@ + " %al\n"@, Instr::SetByte(Cond::Equal)),
        reads("\t"@ + "setne"@ + " %al\n"@, Instr::SetByte(Cond::NotEqual)),
        reads("\t"@ + "setg"@ + " %al\n"@, Instr::SetByte(Cond::Greater)),
        reads("\t"@ + "setge"@ + " %al\n"@, Instr::SetByte(Cond::GreaterEqual)),
        reads("\t"@ + "setl"@ + " %al\n"@, Instr::SetByte(Cond::Less)),
        reads("\t"@ + "setle"@ + " %al\n"@, Instr::SetByte(Cond::LessEqual)),
        "\tsete %al\n"@ == "\t"@ + "sete"@ + " %al\n"@,
{
    reveal_strlit("\t");
    reveal_strlit("sete");
    reveal_strlit("setne");
    reveal_strlit("setg");
    reveal_strlit("setge");
    reveal_strlit("setl");
    reveal_strlit("setle");
    reveal_strlit(" %al\n");
    reveal_strlit("\tset");
    reveal_strlit("e");
    reveal_strlit("ne");
    reveal_strlit("g");
    reveal_strlit("ge");
    reveal_strlit("l");
    reveal_strlit("le");
    reveal_strlit("%al");
    reveal_strlit(" ");
    reveal_strlit("\n");
    reveal_strlit("\tsete %al\n");
    assert("\tsete %al\n"@ =~= "\t"@ + "sete"@ + " %al\n"@);
    lemma_set_line("sete"@, "e"@);
    lemma_set_line("setne"@, "ne"@);
    lemma_set_line("setg"@, "g"@);
    lemma_set_line("setge"@, "ge"@);
    lemma_set_line("setl"@, "l"@);
    lemma_set_line("setle"@, "le"@);
}

proof fn lemma_set_line(set: Seq<char>, cond: Seq<char>)
    requires
        "\t"@ + set =~= "\tset"@ + cond,
    ensures
        line("\t"@ + set + " %al\n"@, "\tset"@ + cond, "%al"@),
{
    reveal_strlit(" %al\n");
    reveal_strlit("%al");
    reveal_strlit(" ");
    reveal_strlit("\n");
    lemma_blanks();
    assert("\t"@ + set + " %al\n"@ =~= ("\tset"@ + cond) + " "@ + "%al"@ + "\n"@);
    lemma_line("\t"@ + set + " %al\n"@, "\tset"@ + cond, " "@, "%al"@);
}

/// Whether `l` and `r` are in registers in use, or in none, other ones than those
/// that `before` says.
pub open spec fn held(before: Seq<bool>, in_use: Seq<bool>, l: Register, r: Register) -> bool {
    &&& before.len() == SCRATCH_REGISTERS && in_use.len() == SCRATCH_REGISTERS
    &&& forall|k: int| 0 <= k < SCRATCH_REGISTERS && #[trigger] before[k] ==> in_use[k]
    &&& l.scratch() matches Some(i) ==> 0 <= i < SCRATCH_REGISTERS && !before[i] && in_use[i]
    &&& r.scratch() matches Some(j) ==> 0 <= j < SCRATCH_REGISTERS && !before[j] && in_use[j]
    &&& l.scratch() is Some ==> l.scratch() != r.scratch()
}

/// Whether two values are where they were moved to, and nothing else changed.
spec fn moved_out(
    before: Seq<bool>,
    m: Machine,
    n: Machine,
    l: Register,
    l1: Register,
    r: Register,
    r1: Register,
) -> bool {
    &&& valid(n)
    &&& value(n, l1) == value(m, l)
    &&& value(n, r1) == value(m, r)
    &&& keeps(m, n, before)
    &&& n.bytes == m.bytes
    &&& l1 is Deref ==> address(n, place(l1)) == address(m, place(l1))
    &&& r1 is Deref ==> address(n, place(r1)) == address(m, place(r1))
}

/// Two values are moved out of the stack frame.
#[verifier::rlimit(50)]
proof fn lemma_loads(before: Seq<bool>, st: State, l: Register, r: Register) -> (code: Seq<Instr>)
    requires
        held(before, st.in_use, l, r),
        !(l is Arg) && !(r is Arg),
        load(st, l) is Done,
        load(load(st, l)->Done_0, r) is Done,
    ensures
        ({
            let l1 = load(st, l)->Done_1;
            let s = load(st, l)->Done_0;
            let r1 = load(s, r)->Done_1;
            let t = load(s, r)->Done_0;
            &&& written(st.output, code, t.output)
            &&& held(before, t.in_use, l1, r1)
            &&& width_of(l1) == width_of(l) && width_of(r1) == width_of(r)
            &&& !(l1 is Stack) && !(r1 is Stack) && !(l1 is Arg) && !(r1 is Arg)
            &&& forall|m: Machine|
                valid(m) ==> moved_out(before, m, #[trigger] run(code, m), l, l1, r, r1)
        }),
{
    let first = lemma_load(st, l);
    let s = load(st, l)->Done_0;
    let l1 = load(st, l)->Done_1;
    let second = lemma_load(s, r);
    let r1 = load(s, r)->Done_1;
    let t = load(s, r)->Done_0;
    lemma_join(st.output, first, s.output, second, t.output);
    let code = first + second;
    assert(!(l1 is Arg) && !(r1 is Arg) && !(l1 is Stack) && !(r1 is Stack));
    assert(held(before, s.in_use, l1, r));
    assert(held(before, t.in_use, l1, r1));
    assert forall|m: Machine| valid(m) implies moved_out(
        before,
        m,
        #[trigger] run(code, m),
        l,
        l1,
        r,
        r1,
    ) by {
        let a = run(first, m);
        let b = run(second, a);
        assert(l is Stack ==> out_of_frame(m, run(first, m), l, l1));
        assert(valid(a));
        assert(r is Stack ==> out_of_frame(a, run(second, a), r, r1));
        if l is Stack {
            let g = scratch_gpr(l1.scratch()->0);
            if r.scratch() is Some {
                lemma_scratch(l1.scratch()->0, r.scratch()->0);
            }
            lemma_same_number(m, a, g, place(r), width_of(r));
        }
        if r is Stack {
            let g = scratch_gpr(r1.scratch()->0);
            if l1.scratch() is Some {
                lemma_scratch(r1.scratch()->0, l1.scratch()->0);
            }
            lemma_same_number(a, b, g, place(l1), width_of(l1));
        }
    }
    code
}

/// No value of an expression is in the register of an argument.
pub(crate) proof fn lemma_no_argument(st: State, e: Expr)
    requires
        variables_on_stack(st.scopes),
    ensures
        execute(st, e) matches Step::Done(_, v) ==> !(v is Arg),
    decreases e,
{
    match e.kind {
        ExprKind::Binary { left, token, right } => {
            lemma_no_argument(st, *left);
            lemma_execute_scopes(st, *left);
            if let Step::Done(s, x) = execute(st, *left) {
                lemma_no_argument(s, *right);
                if let Step::Done(t, y) = execute(s, *right) {
                    lemma_binary_no_argument(t, token, x, y);
                }
            }
            assert(execute(st, e) == binary_expr(st, *left, token, *right));
        },
        ExprKind::Ident(name) => {
            if let Some(name) = name.name() {
                lemma_variable_on_stack(st.scopes, name);
            }
        },
        ExprKind::Grouping { expr } => lemma_no_argument(st, *expr),
        ExprKind::Unary { token, right } => {
            lemma_no_argument(st, *right);
            if let Step::Done(s, v) = execute(st, *right) {
                lemma_unary_no_argument(s, token, v);
            }
            assert(execute(st, e) == unary_expr(st, token, *right));
        },
        ExprKind::Logical { left, token, right } => {
            assert(execute(st, e) == logical_expr(st, *left, token, *right));
            assert(logical_expr(st, *left, token, *right) is Done ==> token.token is AmpAmp
                || token.token is PipePipe);
            if token.token is AmpAmp {
                assert(execute(st, e) == and_expr(st, *left, *right));
            } else if token.token is PipePipe {
                assert(execute(st, e) == or_expr(st, *left, *right));
            }
        },
        ExprKind::Assign { l_expr, r_expr, .. } => {
            lemma_place_no_argument(st, *l_expr);
            assert(execute(st, e) == assign_expr(st, *l_expr, *r_expr));
        },
        ExprKind::Call { callee, args, .. } => {
            if let Some(t) = e.type_decl {
                assert(execute(st, e) == call_expr(st, *callee, args@, t));
            }
        },
        ExprKind::CastUp { expr } => {
            if let Some(t) = e.type_decl {
                assert(execute(st, e) == cast_up_expr(st, *expr, t));
            }
        },
        ExprKind::CastDown { expr } => {
            lemma_no_argument(st, *expr);
            if let Some(t) = e.type_decl {
                assert(execute(st, e) == cast_down_expr(st, *expr, t));
            }
        },
        ExprKind::ScaleUp { expr, shift_amount } => {
            lemma_no_argument(st, *expr);
            assert(execute(st, e) == shift_expr(st, "sal"@, *expr, shift_amount));
        },
        ExprKind::ScaleDown { expr, shift_amount } => {
            lemma_no_argument(st, *expr);
            assert(execute(st, e) == shift_expr(st, "sar"@, *expr, shift_amount));
        },
        _ => {},
    }
}

proof fn lemma_binary_no_argument(st: State, token: Token, l: Register, r: Register)
    requires
        !(l is Arg) && !(r is Arg),
    ensures
        binary(st, token, l, r) matches Step::Done(_, v) ==> !(v is Arg),
{
}

proof fn lemma_unary_no_argument(st: State, token: Token, v: Register)
    requires
        !(v is Arg),
    ensures
        unary(st, token, v) matches Step::Done(_, x) ==> !(x is Arg),
{
}

proof fn lemma_place_no_argument(st: State, e: Expr)
    requires
        variables_on_stack(st.scopes),
    ensures
        execute_l(st, e) matches Step::Done(_, v) ==> !(v is Arg),
    decreases e,
{
    match e.kind {
        ExprKind::Ident(name) => {
            if let Some(name) = name.name() {
                lemma_variable_on_stack(st.scopes, name);
            }
        },
        ExprKind::Grouping { expr } => lemma_place_no_argument(st, *expr),
        _ => {},
    }
}

pub(crate) proof fn lemma_execute_scopes(st: State, e: Expr)
    ensures
        execute(st, e) matches Step::Done(after, _) ==> after.scopes == st.scopes,
{
    law_expression_frames(st, e);
    reveal(framed);
}

/// Two operands, one computed after the other, are in different registers.
pub(crate) proof fn lemma_operands(
    st: State,
    left: Expr,
    s: State,
    l: Register,
    right: Expr,
    t: State,
    r: Register,
)
    requires
        sound(st),
        execute(st, left) == Step::Done(s, l),
        execute(s, right) == Step::Done(t, r),
    ensures
        held(st.in_use, t.in_use, l, r),
        !(l is Arg) && !(r is Arg),
{
    law_expression_registers(st, left);
    law_expression_frames(st, left);
    lemma_sound_after(st, s, l);
    law_expression_registers(s, right);
    lemma_no_argument(st, left);
    lemma_no_argument(s, right);
}

#[verifier::rlimit(50)]
proof fn lemma_operate(st: State, token: Token, l: Register, r: Register) -> (code: Seq<Instr>)
    requires
        by_scratch(l) && by_scratch(r),
        width_of(l) == width_of(r),
        operate(st, token, l, r) is Done,
        token.token is Slash ==> width_of(r) > 1,
    ensures
        is_width(width_of(r)),
        written(st.output, code, operate(st, token, l, r)->Done_0.output),
        operate(st, token, l, r)->Done_1 == (if token.token is Minus {
            l
        } else {
            r
        }),
        forall|m: Machine|
            valid(m) && (token.token is Slash ==> divides(value(m, l), value(m, r), width_of(r)))
                ==> value(#[trigger] run(code, m), operate(st, token, l, r)->Done_1)
                == binary_value(token.token, value(m, l), value(m, r), width_of(r)) && only_result(
                m,
                run(code, m),
                operate(st, token, l, r)->Done_1,
            ),
{
    lemma_set_lines();
    let step = operate(st, token, l, r);
    match token.token {
        TokenType::Plus | TokenType::Minus | TokenType::Star => lemma_add_sub_mul(
            st,
            token.token,
            l,
            r,
            step,
        ),
        TokenType::Slash => lemma_division(st, l, r),
        TokenType::EqualEqual => lemma_comparison(st, "sete"@, Cond::Equal, l, r),
        TokenType::BangEqual => lemma_comparison(st, "setne"@, Cond::NotEqual, l, r),
        TokenType::Greater => lemma_comparison(st, "setg"@, Cond::Greater, l, r),
        TokenType::GreaterEqual => lemma_comparison(st, "setge"@, Cond::GreaterEqual, l, r),
        TokenType::Less => lemma_comparison(st, "setl"@, Cond::Less, l, r),
        _ => lemma_comparison(st, "setle"@, Cond::LessEqual, l, r),
    }
}

/// A binary operator on values that are not in `before`.
#[verifier::rlimit(50)]
proof fn lemma_binary_runs(
    before: Seq<bool>,
    st: State,
    token: Token,
    l: Register,
    r: Register,
    after: State,
    result: Register,
    m: Machine,
) -> (n: Machine)
    requires
        held(before, st.in_use, l, r),
        !(l is Arg) && !(r is Arg),
        binary(st, token, l, r) == Step::Done(after, result),
        width_of(l) == width_of(r),
        valid(m),
        token.token is Slash ==> divides(value(m, l), value(m, r), width_of(r)),
    ensures
        comes_to(st.output, after.output, m, n),
        value(n, result) == binary_value(token.token, value(m, l), value(m, r), width_of(l)),
        width_of(result) == width_of(l),
        keeps(m, n, before),
        result is Scratch ==> n.bytes == m.bytes,
        !(result is Scratch) ==> only_stored(m, n, place(result), width_of(l)),
{
    let s1 = load(st, l)->Done_0;
    let l1 = load(st, l)->Done_1;
    let r1 = load(s1, r)->Done_1;
    let t1 = load(s1, r)->Done_0;
    assert(load(st, l) is Done && load(s1, r) is Done);
    assert(operate(t1, token, l1, r1) == Step::Done(after, result));
    let c1 = lemma_loads(before, st, l, r);
    assert(by_scratch(l1) && by_scratch(r1)) by {
        lemma_operate_operands(t1, token, l1, r1);
    }
    let c2 = lemma_operate(t1, token, l1, r1);
    lemma_join(st.output, c1, t1.output, c2, after.output);
    let a = run(c1, m);
    let n = run(c1 + c2, m);
    assert(moved_out(before, m, run(c1, m), l, l1, r, r1));
    assert(n == run(c2, a));
    assert(only_result(a, n, result));
    lemma_keeps(before, m, a, n, result);
    n
}

proof fn lemma_operate_operands(st: State, token: Token, l: Register, r: Register)
    requires
        operate(st, token, l, r) is Done,
    ensures
        !(l is Void) && !(r is Void),
{
}

/// Registers in use are kept where only a value in another register changes.
pub(crate) proof fn lemma_keeps(
    before: Seq<bool>,
    m: Machine,
    a: Machine,
    n: Machine,
    v: Register,
)
    requires
        keeps(m, a, before),
        only_result(a, n, v),
        v is Scratch ==> (v.scratch() matches Some(i) && 0 <= i < SCRATCH_REGISTERS && !before[i]),
    ensures
        keeps(m, n, before),
{
    assert forall|i: int| 0 <= i < SCRATCH_REGISTERS && #[trigger] before[i] implies n.gpr[
        scratch_gpr(i)
    ] == m.gpr[scratch_gpr(i)] by {
        lemma_scratch(i, i);
        if v is Scratch {
            lemma_scratch(i, v.scratch()->0);
        }
    }
    if v is Scratch {
        lemma_scratch(v.scratch()->0, v.scratch()->0);
    }
}

/// The code of a binary operator, once that of its operands has run, leaves the
/// sum, the difference, the product or the quotient of their values, without what
/// its bytes cannot hold, or 1 or 0 by how they compare as signed numbers. The
/// registers in use hold what they held.
pub proof fn law_binary_runs(
    st: State,
    e: Expr,
    token: Token,
    left: Expr,
    s: State,
    l: Register,
    right: Expr,
    t: State,
    r: Register,
    after: State,
    result: Register,
    m: Machine,
)
    requires
        sound(st),
        e.kind matches ExprKind::Binary { left: x, token: o, right: y } && *x == left && o == token
            && *y == right,
        execute(st, left) == Step::Done(s, l),
        execute(s, right) == Step::Done(t, r),
        execute(st, e) == Step::Done(after, result),
        width_of(l) == width_of(r),
        valid(m),
        token.token is Slash ==> divides(value(m, l), value(m, r), width_of(r)),
    ensures
        exists|n: Machine|
            {
                &&& #[trigger] comes_to(t.output, after.output, m, n)
                &&& value(n, result) == binary_value(
                    token.token,
                    value(m, l),
                    value(m, r),
                    width_of(l),
                )
                &&& width_of(result) == width_of(l)
                &&& keeps(m, n, st.in_use)
                &&& result is Scratch ==> n.bytes == m.bytes
                &&& !(result is Scratch) ==> only_stored(m, n, place(result), width_of(l))
            },
{
    assert(execute(st, e) == binary_expr(st, left, token, right));
    assert(binary(t, token, l, r) == Step::Done(after, result));
    lemma_operands(st, left, s, l, right, t, r);
    let n = lemma_binary_runs(st.in_use, t, token, l, r, after, result, m);
    assert(comes_to(t.output, after.output, m, n));
}

} // verus!
