//! What a call does to the registers in use and to the stack when it is run.

use vstd::prelude::*;

use crate::codegen::call_laws::{lemma_room, lemma_stack_pointer};
use crate::codegen::machine::{
    exec, fetch, full, is_width, lemma_fetch_store, lemma_put, lemma_store, line, number, power,
    read, reads, run, written, Gpr, Instr, Machine, Place,
};
use crate::codegen::model::{
    call, call_lines, count, instruction, padding, pops, pushes, room, room_back, State, Step,
};
use crate::codegen::register::{return_register, scratch_name, Register, SCRATCH_REGISTERS};
use crate::codegen::run_laws::{
    comes_to, lemma_blanks, lemma_instruction, lemma_join, lemma_line, lemma_nothing, lemma_one,
    lemma_operand, lemma_scratch, only_gpr, place, scratch_gpr, valid, width, width_of,
};
use crate::codegen::text::decimal;
use crate::common::types::{NEWTypes, Types};

verus! {

/// Whether a function has left the stack pointer, the base pointer and what was on
/// the stack when it was called as they were.
pub open spec fn returned(n: Machine, x: Machine) -> bool {
    &&& x.gpr[Gpr::Rsp] == n.gpr[Gpr::Rsp]
    &&& x.gpr[Gpr::Rbp] == n.gpr[Gpr::Rbp]
    &&& forall|a: int| n.gpr[Gpr::Rsp] <= a ==> #[trigger] x.bytes[a] == n.bytes[a]
}

/// Whether the lines from one text to the other, run after a function has returned
/// in `x`, restore what the caller held in `m`, and leave what was returned in
/// `result`.
pub open spec fn resumes(
    before: Seq<char>,
    after: Seq<char>,
    in_use: Seq<bool>,
    t: NEWTypes,
    result: Register,
    m: Machine,
    x: Machine,
) -> bool {
    exists|y: Machine|
        {
            &&& #[trigger] comes_to(before, after, x, y)
            &&& y.gpr[Gpr::Rsp] == m.gpr[Gpr::Rsp]
            &&& y.gpr[Gpr::Rbp] == m.gpr[Gpr::Rbp]
            &&& forall|i: int|
                0 <= i < SCRATCH_REGISTERS && #[trigger] in_use[i] ==> y.gpr[scratch_gpr(i)]
                    == m.gpr[scratch_gpr(i)]
            &&& forall|a: int|
                m.gpr[Gpr::Rsp] <= a ==> #[trigger] y.bytes[a] == m.bytes[a]
            &&& t != NEWTypes::Primitive(Types::Void) ==> width_of(result) == width(t) && number(y, place(result), width(t))
                == number(x, Place::InGpr(Gpr::Rax), width(t))
        }
}

/// Whether the first `k` registers in use are on the stack.
spec fn on_stack(bytes: Map<int, int>, base: int, in_use: Seq<bool>, k: nat, m: Machine) -> bool {
    forall|i: int|
        0 <= i < k && #[trigger] in_use[i] ==> fetch(
            bytes,
            base - 8 * count(in_use, (i + 1) as nat),
            8,
        ) == m.gpr[scratch_gpr(i)]
}

/// Whether the first `k` registers in use were pushed.
spec fn pushed(m: Machine, n: Machine, in_use: Seq<bool>, k: nat) -> bool {
    &&& n.gpr[Gpr::Rsp] == m.gpr[Gpr::Rsp] - 8 * count(in_use, k)
    &&& forall|g: Gpr| g != Gpr::Rsp ==> #[trigger] n.gpr[g] == m.gpr[g]
    &&& forall|a: int| m.gpr[Gpr::Rsp] <= a ==> #[trigger] n.bytes[a] == m.bytes[a]
    &&& on_stack(n.bytes, m.gpr[Gpr::Rsp], in_use, k, m)
}

/// Whether the first `k` registers in use were popped.
spec fn popped(x: Machine, y: Machine, base: int, in_use: Seq<bool>, k: nat) -> bool {
    &&& y.gpr[Gpr::Rsp] == base
    &&& y.bytes == x.bytes
    &&& forall|i: int|
        0 <= i < k && #[trigger] in_use[i] ==> y.gpr[scratch_gpr(i)] == fetch(
            x.bytes,
            base - 8 * count(in_use, (i + 1) as nat),
            8,
        )
    &&& forall|g: Gpr|
        g != Gpr::Rsp && (forall|i: int| 0 <= i < k ==> #[trigger] scratch_gpr(i) != g)
            ==> #[trigger] y.gpr[g] == x.gpr[g]
}

proof fn lemma_count(in_use: Seq<bool>, j: nat, k: nat)
    requires
        j <= k,
    ensures
        count(in_use, j) <= count(in_use, k) <= count(in_use, j) + (k - j),
    decreases k - j,
{
    if j < k {
        lemma_count(in_use, j, (k - 1) as nat);
    }
}

proof fn lemma_fetch_same(b: Map<int, int>, c: Map<int, int>, address: int, w: nat)
    requires
        forall|a: int| address <= a < address + w ==> #[trigger] b[a] == c[a],
    ensures
        fetch(b, address, w) == fetch(c, address, w),
    decreases w,
{
    if w > 0 {
        lemma_fetch_same(b, c, address + 1, (w - 1) as nat);
        assert(b[address] == c[address]);
    }
}

proof fn lemma_push_line(i: int)
    ensures
        reads("\tpushq   "@ + scratch_name(i) + "\n"@, Instr::Push(scratch_gpr(i))),
        reads("\tpopq   "@ + scratch_name(i) + "\n"@, Instr::Pop(scratch_gpr(i))),
{
    reveal_strlit("\tpushq   ");
    reveal_strlit("\tpushq");
    reveal_strlit("\tpopq   ");
    reveal_strlit("\tpopq");
    reveal_strlit("   ");
    lemma_blanks();
    let r = scratch_name(i);
    assert("\tpushq   "@ + r + "\n"@ =~= "\tpushq"@ + "   "@ + r + "\n"@);
    assert("\tpopq   "@ + r + "\n"@ =~= "\tpopq"@ + "   "@ + r + "\n"@);
    lemma_line("\tpushq   "@ + r + "\n"@, "\tpushq"@, "   "@, r);
    lemma_line("\tpopq   "@ + r + "\n"@, "\tpopq"@, "   "@, r);
}

proof fn lemma_pushes(before: Seq<char>, in_use: Seq<bool>, k: nat) -> (code: Seq<Instr>)
    requires
        k <= SCRATCH_REGISTERS,
    ensures
        written(before, code, before + pushes(in_use, k)),
        forall|m: Machine| valid(m) ==> pushed(m, #[trigger] run(code, m), in_use, k),
    decreases k,
{
    if k == 0 {
        lemma_nothing(before);
        assert(before + pushes(in_use, k) =~= before);
        Seq::empty()
    } else {
        let j = (k - 1) as nat;
        let first = lemma_pushes(before, in_use, j);
        if in_use[k - 1] {
            let text = "\tpushq   "@ + scratch_name(k - 1) + "\n"@;
            let i = Instr::Push(scratch_gpr(k - 1));
            lemma_push_line(k - 1);
            let half = before + pushes(in_use, j);
            lemma_one(half, text, i);
            lemma_join(before, first, half, seq![i], half + text);
            assert(half + text =~= before + pushes(in_use, k));
            let code = first + seq![i];
            assert forall|m: Machine| valid(m) implies pushed(
                m,
                #[trigger] run(code, m),
                in_use,
                k,
            ) by {
                let n = run(first, m);
                assert(pushed(m, run(first, m), in_use, j));
                assert(run(code, m) == exec(i, n));
                lemma_push_one(m, n, in_use, k);
            }
            code
        } else {
            assert forall|m: Machine| valid(m) implies pushed(
                m,
                #[trigger] run(first, m),
                in_use,
                k,
            ) by {
                assert(pushed(m, run(first, m), in_use, j));
            }
            first
        }
    }
}

proof fn lemma_push_one(m: Machine, n: Machine, in_use: Seq<bool>, k: nat)
    requires
        valid(m),
        0 < k <= SCRATCH_REGISTERS,
        in_use[k - 1],
        pushed(m, n, in_use, (k - 1) as nat),
    ensures
        pushed(m, exec(Instr::Push(scratch_gpr(k - 1)), n), in_use, k),
{
    let j = (k - 1) as nat;
    let g = scratch_gpr(k - 1);
    let base = m.gpr[Gpr::Rsp];
    let top = n.gpr[Gpr::Rsp] - 8;
    let o = exec(Instr::Push(g), n);
    lemma_scratch(k - 1, k - 1);
    lemma_store(n.bytes, top, 8, n.gpr[g]);
    lemma_fetch_store(n.bytes, top, 8, n.gpr[g]);
    assert(power(8) == full(8)) by {
        reveal_with_fuel(power, 9);
    }
    assert(0 <= m.gpr[g] < full(8));
    vstd::arithmetic::div_mod::lemma_small_mod(m.gpr[g] as nat, full(8) as nat);
    assert(count(in_use, k) == count(in_use, j) + 1);
    lemma_count(in_use, 0, j);
    assert forall|i: int| 0 <= i < k && #[trigger] in_use[i] implies fetch(
        o.bytes,
        base - 8 * count(in_use, (i + 1) as nat),
        8,
    ) == m.gpr[scratch_gpr(i)] by {
        let at = base - 8 * count(in_use, (i + 1) as nat);
        if i < j {
            lemma_count(in_use, (i + 1) as nat, j);
            lemma_fetch_same(o.bytes, n.bytes, at, 8);
        }
    }
}

proof fn lemma_pops(before: Seq<char>, in_use: Seq<bool>, k: nat) -> (code: Seq<Instr>)
    requires
        k <= SCRATCH_REGISTERS,
    ensures
        written(before, code, before + pops(in_use, k)),
        forall|x: Machine, base: int|
            x.gpr[Gpr::Rsp] == base - 8 * count(in_use, k) ==> #[trigger] popped(
                x,
                run(code, x),
                base,
                in_use,
                k,
            ),
    decreases k,
{
    if k == 0 {
        lemma_nothing(before);
        assert(before + pops(in_use, k) =~= before);
        Seq::empty()
    } else {
        let j = (k - 1) as nat;
        if in_use[k - 1] {
            let text = "\tpopq   "@ + scratch_name(k - 1) + "\n"@;
            let i = Instr::Pop(scratch_gpr(k - 1));
            lemma_push_line(k - 1);
            lemma_one(before, text, i);
            let half = before + text;
            let rest = lemma_pops(half, in_use, j);
            lemma_join(before, seq![i], half, rest, half + pops(in_use, j));
            assert(half + pops(in_use, j) =~= before + pops(in_use, k));
            let code = seq![i] + rest;
            assert forall|x: Machine, base: int|
                x.gpr[Gpr::Rsp] == base - 8 * count(in_use, k) implies #[trigger] popped(
                x,
                run(code, x),
                base,
                in_use,
                k,
            ) by {
                let a = exec(i, x);
                assert(run(seq![i], x) == a);
                lemma_scratch(k - 1, k - 1);
                assert(a.gpr[Gpr::Rsp] == base - 8 * count(in_use, j));
                let y = run(rest, a);
                assert(popped(a, run(rest, a), base, in_use, j));
                assert(run(code, x) == y);
                assert forall|l: int| 0 <= l < j implies #[trigger] scratch_gpr(l) != scratch_gpr(
                    k - 1,
                ) by {
                    lemma_scratch(l, k - 1);
                }
                assert(y.gpr[scratch_gpr(k - 1)] == a.gpr[scratch_gpr(k - 1)]);
                assert forall|g: Gpr|
                    g != Gpr::Rsp && (forall|l: int| 0 <= l < k ==> #[trigger] scratch_gpr(l) != g)
                        implies #[trigger] y.gpr[g] == x.gpr[g] by {
                    assert(scratch_gpr(k - 1) != g);
                    assert(forall|l: int| 0 <= l < j ==> #[trigger] scratch_gpr(l) != g);
                    assert(y.gpr[g] == a.gpr[g]);
                }
            }
            code
        } else {
            let rest = lemma_pops(before, in_use, j);
            assert forall|x: Machine, base: int|
                x.gpr[Gpr::Rsp] == base - 8 * count(in_use, k) implies #[trigger] popped(
                x,
                run(rest, x),
                base,
                in_use,
                k,
            ) by {
                let y = run(rest, x);
                assert(popped(x, run(rest, x), base, in_use, j));
                assert forall|g: Gpr|
                    g != Gpr::Rsp && (forall|l: int| 0 <= l < k ==> #[trigger] scratch_gpr(l) != g)
                        implies #[trigger] y.gpr[g] == x.gpr[g] by {
                    assert(forall|l: int| 0 <= l < j ==> #[trigger] scratch_gpr(l) != g);
                }
            }
            rest
        }
    }
}

/// The lines that keep the stack aligned at a call.
proof fn lemma_padding_lines()
    ensures
        room(8) == "\tsubq    $8,%rsp\n"@,
        room_back(8) == "\taddq    $8,%rsp\n"@,
{
    reveal_strlit("\tsubq    $8,%rsp\n");
    reveal_strlit("\taddq    $8,%rsp\n");
    reveal_strlit("\tsubq    $");
    reveal_strlit("\taddq    $");
    reveal_strlit(",%rsp\n");
    assert(decimal(8) =~= seq!['8']);
    assert(room(8) =~= "\tsubq    $8,%rsp\n"@);
    assert(room_back(8) =~= "\taddq    $8,%rsp\n"@);
}

/// Saving the registers in use, up to the call.
proof fn lemma_saves(before: Seq<char>, in_use: Seq<bool>) -> (code: Seq<Instr>)
    requires
        in_use.len() == SCRATCH_REGISTERS,
    ensures
        written(
            before,
            code,
            before + (pushes(in_use, 4) + (if padding(in_use) > 0 {
                "\tsubq    $8,%rsp\n"@
            } else {
                Seq::empty()
            })),
        ),
        forall|m: Machine|
            valid(m) && m.gpr[Gpr::Rsp] >= 48 ==> saved(m, #[trigger] run(code, m), in_use),
{
    let first = lemma_pushes(before, in_use, 4);
    let half = before + pushes(in_use, 4);
    lemma_count(in_use, 0, 4);
    let i = Instr::Sub(8, Place::Number(8), Place::InGpr(Gpr::Rsp));
    if padding(in_use) > 0 {
        lemma_padding_lines();
        lemma_room(8);
        lemma_one(half, room(8), i);
        lemma_join(before, first, half, seq![i], half + room(8));
        assert(half + room(8) =~= before + (pushes(in_use, 4) + "\tsubq    $8,%rsp\n"@));
        let code = first + seq![i];
        assert forall|m: Machine| valid(m) && m.gpr[Gpr::Rsp] >= 48 implies saved(
            m,
            #[trigger] run(code, m),
            in_use,
        ) by {
            let n = run(first, m);
            assert(pushed(m, run(first, m), in_use, 4));
            assert(run(code, m) == exec(i, n));
            lemma_padded(m, n, in_use);
        }
        code
    } else {
        assert(half =~= before + (pushes(in_use, 4) + Seq::empty()));
        assert forall|m: Machine| valid(m) && m.gpr[Gpr::Rsp] >= 48 implies saved(
            m,
            #[trigger] run(first, m),
            in_use,
        ) by {
            assert(pushed(m, run(first, m), in_use, 4));
        }
        first
    }
}

/// Whether the registers in use are on the stack, which is aligned as it was.
spec fn saved(m: Machine, n: Machine, in_use: Seq<bool>) -> bool {
    let base = m.gpr[Gpr::Rsp];
    &&& n.gpr[Gpr::Rsp] == base - 8 * count(in_use, 4) - padding(in_use)
    &&& forall|g: Gpr| g != Gpr::Rsp ==> #[trigger] n.gpr[g] == m.gpr[g]
    &&& forall|a: int| base <= a ==> #[trigger] n.bytes[a] == m.bytes[a]
    &&& on_stack(n.bytes, base, in_use, 4, m)
}

proof fn lemma_padded(m: Machine, n: Machine, in_use: Seq<bool>)
    requires
        valid(m),
        m.gpr[Gpr::Rsp] >= 48,
        pushed(m, n, in_use, 4),
        padding(in_use) > 0,
    ensures
        saved(m, exec(Instr::Sub(8, Place::Number(8), Place::InGpr(Gpr::Rsp)), n), in_use),
{
    lemma_count(in_use, 0, 4);
    let i = Instr::Sub(8, Place::Number(8), Place::InGpr(Gpr::Rsp));
    // moving the stack pointer looks at nothing but the registers
    let plain = Machine { bytes: m.bytes, ..n };
    assert(valid(plain)) by {
        assert forall|g: Gpr| 0 <= #[trigger] plain.gpr[g] < full(8) by {
            assert(0 <= m.gpr[g] < full(8));
            assert(0 <= m.gpr[Gpr::Rsp] < full(8));
        }
    }
    lemma_stack_pointer(plain, 8);
    assert(exec(i, n).gpr =~= exec(i, plain).gpr && exec(i, n).bytes == n.bytes);
}

/// What comes behind the call.
proof fn lemma_restores(before: Seq<char>, in_use: Seq<bool>) -> (code: Seq<Instr>)
    requires
        in_use.len() == SCRATCH_REGISTERS,
    ensures
        written(
            before,
            code,
            before + ((if padding(in_use) > 0 {
                "\taddq    $8,%rsp\n"@
            } else {
                Seq::empty()
            }) + pops(in_use, 4)),
        ),
        forall|x: Machine, base: int|
            valid(x) && base < full(8) && x.gpr[Gpr::Rsp] == base - 8 * count(in_use, 4) - padding(
                in_use,
            ) ==> #[trigger] popped(x, run(code, x), base, in_use, 4),
{
    lemma_count(in_use, 0, 4);
    let i = Instr::Add(8, Place::Number(8), Place::InGpr(Gpr::Rsp));
    if padding(in_use) > 0 {
        lemma_padding_lines();
        lemma_room(8);
        lemma_one(before, room_back(8), i);
        let half = before + room_back(8);
        let rest = lemma_pops(half, in_use, 4);
        lemma_join(before, seq![i], half, rest, half + pops(in_use, 4));
        assert(half + pops(in_use, 4) =~= before + ("\taddq    $8,%rsp\n"@ + pops(in_use, 4)));
        let code = seq![i] + rest;
        assert forall|x: Machine, base: int|
            valid(x) && base < full(8) && x.gpr[Gpr::Rsp] == base - 8 * count(in_use, 4) - padding(
                in_use,
            ) implies #[trigger] popped(x, run(code, x), base, in_use, 4) by {
            let a = exec(i, x);
            lemma_stack_pointer(x, 8);
            assert(run(seq![i], x) == a);
            assert(popped(a, run(rest, a), base, in_use, 4));
            assert(run(code, x) == run(rest, a));
        }
        code
    } else {
        let rest = lemma_pops(before, in_use, 4);
        assert(before + pops(in_use, 4) =~= before + (Seq::<char>::empty() + pops(in_use, 4)));
        rest
    }
}

/// Fetching what a function returned.
proof fn lemma_fetches(before: Seq<char>, t: NEWTypes, result: Register) -> (code: Seq<Instr>)
    requires
        result is Scratch && result.type_of() == Some(t),
        instruction("\tmov"@, Some(t), "    "@, return_register(t), result.operand()) is Some,
    ensures
        is_width(width(t)),
        result.scratch() matches Some(i) && 0 <= i < SCRATCH_REGISTERS,
        written(
            before,
            code,
            before + instruction(
                "\tmov"@,
                Some(t),
                "    "@,
                return_register(t),
                result.operand(),
            )->0,
        ),
        forall|x: Machine|
            only_gpr(x, #[trigger] run(code, x), scratch_gpr(result.scratch()->0)) && number(
                run(code, x),
                place(result),
                width(t),
            ) == number(x, Place::InGpr(Gpr::Rax), width(t)),
{
    let w = width(t);
    let rax = Place::InGpr(Gpr::Rax);
    lemma_operand(result);
    lemma_blanks();
    let text = instruction("\tmov"@, Some(t), "    "@, return_register(t), result.operand())->0;
    lemma_instruction("\tmov"@, t, "    "@, return_register(t)->0, result.operand()->0);
    let i = Instr::Mov(w, rax, place(result));
    assert(reads(text, i));
    lemma_one(before, text, i);
    assert forall|x: Machine|
        only_gpr(x, #[trigger] run(seq![i], x), scratch_gpr(result.scratch()->0)) && number(
            run(seq![i], x),
            place(result),
            w,
        ) == number(x, rax, w) by {
        lemma_put(x, place(result), w, read(x, rax, w));
        vstd::arithmetic::div_mod::lemma_mod_twice(x.gpr[Gpr::Rax], full(w));
    }
    seq![i]
}

/// A call, once its arguments are in their registers, saves the scratch registers in
/// use and keeps the stack aligned to 16 bytes; the registers of the arguments are
/// left alone. Whatever the function does, if it returns with the stack as it was,
/// the registers in use then hold what they held, the stack pointer is where it
/// was, and the value that was returned is the value of the call.
#[verifier::rlimit(50)]
pub proof fn law_call_runs(
    st: State,
    function: Seq<char>,
    t: NEWTypes,
    after: State,
    result: Register,
    m: Machine,
)
    requires
        st.in_use.len() == SCRATCH_REGISTERS,
        call(st, function, t) == Step::Done(after, result),
        valid(m),
        m.gpr[Gpr::Rsp] >= 48,
    ensures
        exists|ready: Seq<char>, n: Machine, text: Seq<char>|
            {
                &&& #[trigger] comes_to(st.output, ready, m, n)
                &&& n.gpr[Gpr::Rsp] <= m.gpr[Gpr::Rsp]
                &&& (m.gpr[Gpr::Rsp] - n.gpr[Gpr::Rsp]) % 16 == 0
                &&& forall|g: Gpr| g != Gpr::Rsp ==> #[trigger] n.gpr[g] == m.gpr[g]
                &&& forall|a: int| m.gpr[Gpr::Rsp] <= a ==> #[trigger] n.bytes[a] == m.bytes[a]
                &&& #[trigger] line(text, "\tcall"@, "_"@ + function)
                &&& forall|x: Machine|
                    valid(x) && #[trigger] returned(n, x) ==> resumes(
                        ready + text,
                        after.output,
                        st.in_use,
                        t,
                        result,
                        m,
                        x,
                    )
            },
{
    let in_use = st.in_use;
    let pad = if padding(in_use) > 0 {
        "\tsubq    $8,%rsp\n"@
    } else {
        Seq::empty()
    };
    let back = if padding(in_use) > 0 {
        "\taddq    $8,%rsp\n"@
    } else {
        Seq::empty()
    };
    let text = "\tcall    _"@ + function + "\n"@;
    assert(line(text, "\tcall"@, "_"@ + function)) by {
        reveal_strlit("\tcall    _");
        reveal_strlit("\tcall");
        reveal_strlit("    ");
        reveal_strlit("_");
        lemma_blanks();
        assert(text =~= "\tcall"@ + "    "@ + ("_"@ + function) + "\n"@);
        lemma_line(text, "\tcall"@, "    "@, "_"@ + function);
    }
    let ready = st.output + (pushes(in_use, 4) + pad);
    let c1 = lemma_saves(st.output, in_use);
    let n = run(c1, m);
    assert(saved(m, run(c1, m), in_use));
    lemma_count(in_use, 0, 4);
    assert(comes_to(st.output, ready, m, n));
    let called = ready + text;
    let restored = called + (back + pops(in_use, 4));
    let c2 = lemma_restores(called, in_use);
    assert(st.output + call_lines(in_use, function) =~= restored);
    let c3 = if t.void() {
        lemma_nothing(restored);
        Seq::empty()
    } else {
        lemma_fetches(restored, t, result)
    };
    assert(written(restored, c3, after.output));
    lemma_join(called, c2, restored, c3, after.output);
    assert forall|x: Machine| valid(x) && #[trigger] returned(n, x) implies resumes(
        called,
        after.output,
        in_use,
        t,
        result,
        m,
        x,
    ) by {
        let base = m.gpr[Gpr::Rsp];
        assert(0 <= base < full(8));
        let y = run(c2, x);
        assert(popped(x, run(c2, x), base, in_use, 4));
        let z = run(c2 + c3, x);
        assert(z == run(c3, y));
        lemma_resumes(m, n, x, y, in_use);
        if !t.void() {
            let k = result.scratch()->0;
            assert(!in_use[k]);
            assert(only_gpr(y, run(c3, y), scratch_gpr(k)));
            lemma_scratch(k, k);
            assert forall|i: int| 0 <= i < SCRATCH_REGISTERS && #[trigger] in_use[i] implies z.gpr[
                scratch_gpr(i)
            ] == m.gpr[scratch_gpr(i)] by {
                lemma_scratch(i, k);
            }
            assert(number(y, Place::InGpr(Gpr::Rax), width(t)) == number(
                x,
                Place::InGpr(Gpr::Rax),
                width(t),
            ));
        } else {
            assert(z == y);
        }
        assert(comes_to(called, after.output, x, z));
    }
}

/// After the registers in use are popped they hold what they held.
proof fn lemma_resumes(m: Machine, n: Machine, x: Machine, y: Machine, in_use: Seq<bool>)
    requires
        valid(m) && valid(x),
        m.gpr[Gpr::Rsp] >= 48,
        in_use.len() == SCRATCH_REGISTERS,
        saved(m, n, in_use),
        returned(n, x),
        popped(x, y, m.gpr[Gpr::Rsp], in_use, 4),
    ensures
        y.gpr[Gpr::Rsp] == m.gpr[Gpr::Rsp],
        y.gpr[Gpr::Rbp] == m.gpr[Gpr::Rbp],
        y.gpr[Gpr::Rax] == x.gpr[Gpr::Rax],
        forall|i: int|
            0 <= i < SCRATCH_REGISTERS && #[trigger] in_use[i] ==> y.gpr[scratch_gpr(i)]
                == m.gpr[scratch_gpr(i)],
        forall|a: int| m.gpr[Gpr::Rsp] <= a ==> #[trigger] y.bytes[a] == m.bytes[a],
{
    let base = m.gpr[Gpr::Rsp];
    lemma_count(in_use, 0, 4);
    assert forall|i: int| 0 <= i < SCRATCH_REGISTERS && #[trigger] in_use[i] implies y.gpr[
        scratch_gpr(i)
    ] == m.gpr[scratch_gpr(i)] by {
        let at = base - 8 * count(in_use, (i + 1) as nat);
        lemma_count(in_use, (i + 1) as nat, 4);
        lemma_fetch_same(x.bytes, n.bytes, at, 8);
    }
    assert forall|l: int| 0 <= l < 4 implies #[trigger] scratch_gpr(l) != Gpr::Rbp by {
        lemma_scratch(l, l);
    }
    assert forall|l: int| 0 <= l < 4 implies #[trigger] scratch_gpr(l) != Gpr::Rax by {
        lemma_scratch(l, l);
    }
    assert(y.gpr[Gpr::Rbp] == x.gpr[Gpr::Rbp]);
    assert forall|a: int| base <= a implies #[trigger] y.bytes[a] == m.bytes[a] by {
        assert(x.bytes[a] == n.bytes[a]);
        assert(n.bytes[a] == m.bytes[a]);
    }
}

} // verus!
