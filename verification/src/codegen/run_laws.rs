//! What the code of expressions does when it is run.
//!
//! A law here takes the machine as it is once the code of the operands has run,
//! and says what the code that follows it makes of the values of the operands.

use vstd::prelude::*;

use crate::codegen::machine::{
    address, blank, exec, fetch, full, is_width, lemma_put, letter, line, name, number, pair, read,
    reads, run, wrap, written, Gpr, Instr, Machine, Place,
};
use crate::codegen::model::{instruction, load, short_instruction, State, Step};
use crate::codegen::register::{suffix, Register, SCRATCH_REGISTERS};
use crate::common::types::{NEWTypes, Types};

verus! {

/// The register that a scratch register is.
pub open spec fn scratch_gpr(index: int) -> Gpr {
    if index == 0 {
        Gpr::R8
    } else if index == 1 {
        Gpr::R9
    } else if index == 2 {
        Gpr::R10
    } else {
        Gpr::R11
    }
}

/// The register that an argument is passed in, by the calling convention.
pub open spec fn argument_gpr(index: int) -> Gpr {
    if index == 0 {
        Gpr::Rdi
    } else if index == 1 {
        Gpr::Rsi
    } else if index == 2 {
        Gpr::Rdx
    } else if index == 3 {
        Gpr::Rcx
    } else if index == 4 {
        Gpr::R8
    } else {
        Gpr::R9
    }
}

/// How many bytes of a register a value of a type takes up.
pub open spec fn width(t: NEWTypes) -> nat {
    match t {
        NEWTypes::Primitive(Types::Char) => 1,
        NEWTypes::Primitive(Types::Int) => 4,
        NEWTypes::Primitive(Types::Long) => 8,
        NEWTypes::Pointer(_) => 8,
        NEWTypes::Enum(_) => 4,
        _ => 0,
    }
}

/// How many bytes a value takes up.
pub open spec fn width_of(v: Register) -> nat {
    match v {
        Register::Scratch(_, t) => width(t),
        Register::Deref(_, t) => width(t),
        Register::Stack(_, t) => width(t),
        Register::Arg(_, t) => width(t),
        Register::Void => 0,
    }
}

/// Where the machine has a value.
pub open spec fn place(v: Register) -> Place {
    match v {
        Register::Scratch(index, _) => Place::InGpr(scratch_gpr(index as int)),
        Register::Deref(index, _) => Place::At(scratch_gpr(index as int)),
        Register::Stack(slot, _) => Place::Frame(slot.bp_offset as int),
        Register::Arg(index, _) => Place::InGpr(argument_gpr(index as int)),
        Register::Void => Place::Number(0),
    }
}

/// The value, as a signed number.
pub open spec fn value(m: Machine, v: Register) -> int {
    number(m, place(v), width_of(v))
}

/// A machine whose registers and memory hold what they can hold.
pub open spec fn valid(m: Machine) -> bool {
    &&& forall|g: Gpr| 0 <= #[trigger] m.gpr[g] < full(8)
    &&& forall|a: int| 0 <= #[trigger] m.bytes[a] < 256
}

/// Whether the stack frame is where it was and the scratch registers in use hold
/// what they held.
pub open spec fn keeps(m: Machine, n: Machine, in_use: Seq<bool>) -> bool {
    &&& n.gpr[Gpr::Rbp] == m.gpr[Gpr::Rbp]
    &&& n.gpr[Gpr::Rsp] == m.gpr[Gpr::Rsp]
    &&& forall|i: int|
        0 <= i < SCRATCH_REGISTERS && #[trigger] in_use[i] ==> n.gpr[scratch_gpr(i)]
            == m.gpr[scratch_gpr(i)]
}

/// Whether no memory changed but the `w` bytes of a place.
pub open spec fn only_stored(m: Machine, n: Machine, p: Place, w: nat) -> bool {
    forall|a: int|
        a < address(m, p) || address(m, p) + w <= a ==> #[trigger] n.bytes[a] == m.bytes[a]
}

/// Whether the lines between `before` and `after` take the machine from `m` to `n`.
pub open spec fn comes_to(before: Seq<char>, after: Seq<char>, m: Machine, n: Machine) -> bool {
    exists|code: Seq<Instr>| #[trigger] written(before, code, after) && n == run(code, m)
}

/// Whether nothing but one register differs.
pub open spec fn only_gpr(m: Machine, n: Machine, g: Gpr) -> bool {
    &&& n.bytes == m.bytes
    &&& forall|h: Gpr| h != g ==> #[trigger] n.gpr[h] == m.gpr[h]
}

/// The register that a place depends on.
pub open spec fn uses(p: Place) -> Option<Gpr> {
    match p {
        Place::InGpr(g) => Some(g),
        Place::At(g) => Some(g),
        Place::Frame(_) => Some(Gpr::Rbp),
        Place::Number(_) => None,
    }
}

pub(crate) proof fn lemma_blanks()
    ensures
        blank(" "@),
        blank("   "@),
        blank("    "@),
{
    reveal_strlit(" ");
    reveal_strlit("   ");
    reveal_strlit("    ");
}

pub(crate) proof fn lemma_line(text: Seq<char>, head: Seq<char>, gap: Seq<char>, tail: Seq<char>)
    requires
        blank(gap),
        text == head + gap + tail + "\n"@,
    ensures
        line(text, head, tail),
{
}

pub(crate) proof fn lemma_suffix(t: NEWTypes)
    ensures
        suffix(t) matches Some(s) ==> is_width(width(t)) && s == letter(width(t)),
{
}

pub(crate) proof fn lemma_operand(v: Register)
    ensures
        v.operand() matches Some(text) ==> text == name(place(v), width_of(v)) && !(place(
            v,
        ) is Number),
        v is Scratch && v.operand() is Some ==> is_width(width_of(v)),
{
    reveal_strlit("%r8");
    reveal_strlit("%r9");
    reveal_strlit("%r10");
    reveal_strlit("%r11");
    reveal_strlit("b");
    reveal_strlit("d");
    reveal_strlit("");
    reveal_strlit("%r8b");
    reveal_strlit("%r9b");
    reveal_strlit("%r10b");
    reveal_strlit("%r11b");
    reveal_strlit("%r8d");
    reveal_strlit("%r9d");
    reveal_strlit("%r10d");
    reveal_strlit("%r11d");
    if let Some(text) = v.operand() {
        assert(text =~= name(place(v), width_of(v)));
    }
}

/// An instruction with two operands is read as it was meant.
pub(crate) proof fn lemma_instruction(
    head: Seq<char>,
    t: NEWTypes,
    gap: Seq<char>,
    x: Seq<char>,
    y: Seq<char>,
)
    requires
        blank(gap),
    ensures
        instruction(head, Some(t), gap, Some(x), Some(y)) matches Some(text) ==> is_width(width(t))
            && line(text, head + letter(width(t)), pair(x, y)),
{
    lemma_suffix(t);
    if let Some(text) = instruction(head, Some(t), gap, Some(x), Some(y)) {
        assert(text =~= (head + letter(width(t))) + gap + pair(x, y) + "\n"@);
    }
}

pub(crate) proof fn lemma_short_instruction(head: Seq<char>, t: NEWTypes, x: Seq<char>)
    ensures
        short_instruction(head, Some(t), Some(x)) matches Some(text) ==> is_width(width(t))
            && line(text, head + letter(width(t)), x),
{
    lemma_suffix(t);
    lemma_blanks();
    if let Some(text) = short_instruction(head, Some(t), Some(x)) {
        assert(text =~= (head + letter(width(t))) + " "@ + x + "\n"@);
    }
}

pub(crate) proof fn lemma_one(before: Seq<char>, text: Seq<char>, i: Instr)
    requires
        reads(text, i),
    ensures
        written(before, seq![i], before + text),
        forall|m: Machine| #[trigger] run(seq![i], m) == exec(i, m),
{
    let code = seq![i];
    assert(code.drop_first() =~= Seq::empty());
    assert(reads(text, code[0]) && written(before + text, code.drop_first(), before + text));
    assert forall|m: Machine| #[trigger] run(code, m) == exec(i, m) by {
        assert(run(code.drop_first(), exec(code[0], m)) == exec(i, m));
    }
}

pub(crate) proof fn lemma_join(
    a: Seq<char>,
    first: Seq<Instr>,
    b: Seq<char>,
    second: Seq<Instr>,
    c: Seq<char>,
)
    requires
        written(a, first, b),
        written(b, second, c),
    ensures
        written(a, first + second, c),
        forall|m: Machine| #[trigger] run(first + second, m) == run(second, run(first, m)),
    decreases first.len(),
{
    if first.len() == 0 {
        assert(first + second =~= second);
    } else {
        let text = choose|text: Seq<char>| #[trigger]
            reads(text, first[0]) && written(a + text, first.drop_first(), b);
        lemma_join(a + text, first.drop_first(), b, second, c);
        let code = first + second;
        assert(code.drop_first() =~= first.drop_first() + second);
        assert(reads(text, code[0]) && written(a + text, code.drop_first(), c));
        assert forall|m: Machine| #[trigger] run(code, m) == run(second, run(first, m)) by {
            assert(run(code.drop_first(), exec(code[0], m)) == run(
                second,
                run(first.drop_first(), exec(first[0], m)),
            ));
        }
    }
}

pub(crate) proof fn lemma_nothing(before: Seq<char>)
    ensures
        written(before, Seq::empty(), before),
        forall|m: Machine| #[trigger] run(Seq::empty(), m) == m,
{
}

/// Scratch registers are different registers, and none of them is used for
/// anything else.
pub(crate) proof fn lemma_scratch(i: int, j: int)
    requires
        0 <= i < SCRATCH_REGISTERS,
        0 <= j < SCRATCH_REGISTERS,
    ensures
        scratch_gpr(i) == scratch_gpr(j) ==> i == j,
        scratch_gpr(i) != Gpr::Rax && scratch_gpr(i) != Gpr::Rdx,
        scratch_gpr(i) != Gpr::Rbp && scratch_gpr(i) != Gpr::Rsp,
{
}

pub(crate) proof fn lemma_same_number(m: Machine, n: Machine, g: Gpr, p: Place, w: nat)
    requires
        only_gpr(m, n, g),
        uses(p) != Some(g),
    ensures
        read(n, p, w) == read(m, p, w),
        number(n, p, w) == number(m, p, w),
        address(n, p) == address(m, p),
{
}

pub(crate) proof fn lemma_fetch_range(bytes: Map<int, int>, address: int, w: nat)
    requires
        forall|a: int| 0 <= #[trigger] bytes[a] < 256,
    ensures
        0 <= fetch(bytes, address, w),
        w == 0 ==> fetch(bytes, address, w) < 1,
        w == 1 ==> fetch(bytes, address, w) < full(1),
        w == 2 ==> fetch(bytes, address, w) < 0x1_0000,
        w == 3 ==> fetch(bytes, address, w) < 0x100_0000,
        w == 4 ==> fetch(bytes, address, w) < full(4),
        w == 5 ==> fetch(bytes, address, w) < 0x100_0000_0000,
        w == 6 ==> fetch(bytes, address, w) < 0x1_0000_0000_0000,
        w == 7 ==> fetch(bytes, address, w) < 0x100_0000_0000_0000,
        w == 8 ==> fetch(bytes, address, w) < full(8),
    decreases w,
{
    if w > 0 {
        lemma_fetch_range(bytes, address + 1, (w - 1) as nat);
        assert(0 <= bytes[address] < 256);
    }
}

/// What is read is in the range of its bytes, and as a signed number is what it
/// is without what the bytes cannot hold.
pub(crate) proof fn lemma_read_range(m: Machine, p: Place, w: nat)
    requires
        valid(m),
        is_width(w),
    ensures
        0 <= read(m, p, w) < full(w),
        wrap(read(m, p, w), w) == number(m, p, w),
        wrap(number(m, p, w), w) == number(m, p, w),
        number(m, p, w) % full(w) == read(m, p, w),
{
    lemma_fetch_range(m.bytes, address(m, p), w);
    let x = read(m, p, w);
    assert(x % full(w) == x);
    assert((x - full(w)) % full(w) == x) by {
        vstd::arithmetic::div_mod::lemma_mod_add_multiples_vanish(x - full(w), full(w));
    }
}

/// Whether nothing changed but that a value is in another register as well.
pub open spec fn out_of_frame(m: Machine, n: Machine, v: Register, loaded: Register) -> bool {
    &&& valid(n)
    &&& only_gpr(m, n, scratch_gpr(loaded.scratch()->0))
    &&& value(n, loaded) == value(m, v)
    &&& read(n, place(loaded), width_of(v)) == read(m, place(v), width_of(v))
}

/// A value is moved out of the stack frame, where it is there, and stays the
/// value that it is; no register in use is touched.
#[verifier::rlimit(50)]
pub(crate) proof fn lemma_load(st: State, v: Register) -> (code: Seq<Instr>)
    requires
        st.in_use.len() == SCRATCH_REGISTERS,
        load(st, v) is Done,
    ensures
        load(st, v) matches Step::Done(after, loaded) && {
            &&& written(st.output, code, after.output)
            &&& width_of(loaded) == width_of(v) && loaded.type_of() == v.type_of()
            &&& !(v is Stack) ==> loaded == v && after == st && forall|m: Machine| #[trigger]
                run(code, m) == m
            &&& v is Stack ==> {
                &&& loaded matches Register::Scratch(i, _) && 0 <= i < SCRATCH_REGISTERS
                    && !st.in_use[i as int] && after.in_use == st.in_use.update(i as int, true)
                    && loaded.operand() is Some
                &&& forall|m: Machine|
                    valid(m) ==> out_of_frame(m, #[trigger] run(code, m), v, loaded)
            }
        },
{
    if v is Stack {
        let t = v.type_of()->0;
        let after = load(st, v)->Done_0;
        let loaded = load(st, v)->Done_1;
        lemma_operand(v);
        lemma_operand(loaded);
        lemma_blanks();
        lemma_instruction("\tmov"@, t, "    "@, v.operand()->0, loaded.operand()->0);
        let text = instruction("\tmov"@, Some(t), "    "@, v.operand(), loaded.operand())->0;
        let w = width(t);
        let i = Instr::Mov(w, place(v), place(loaded));
        lemma_one(st.output, text, i);
        assert forall|m: Machine| valid(m) implies out_of_frame(
            m,
            #[trigger] run(seq![i], m),
            v,
            loaded,
        ) by {
            lemma_read_range(m, place(v), w);
            lemma_put(m, place(loaded), w, read(m, place(v), w));
        }
        seq![i]
    } else {
        lemma_nothing(st.output);
        Seq::empty()
    }
}

} // verus!
