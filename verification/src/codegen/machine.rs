//! A machine that runs assembly.
//!
//! This is as much of an x86-64 processor, and of the syntax of its
//! instructions, as the generated code makes use of. Nothing here depends on
//! how code is generated.

use vstd::arithmetic::div_mod::{
    lemma_fundamental_div_mod, lemma_fundamental_div_mod_converse, lemma_mod_bound,
};
use vstd::arithmetic::power2::pow2;
use vstd::prelude::*;

use crate::codegen::text::decimal;

verus! {

/// A general-purpose register.
pub enum Gpr {
    Rax,
    Rcx,
    Rdx,
    Rsi,
    Rdi,
    Rbp,
    Rsp,
    R8,
    R9,
    R10,
    R11,
}

/// Where an instruction finds an operand.
pub enum Place {
    /// In the instruction itself.
    Number(int),
    InGpr(Gpr),
    /// In memory, so many bytes below the base pointer.
    Frame(int),
    /// In memory, at the address that a register holds.
    At(Gpr),
}

/// How the second operand of the last `cmp` compares with the first one.
pub enum Cond {
    Equal,
    NotEqual,
    Less,
    LessEqual,
    Greater,
    GreaterEqual,
}

/// An instruction that goes on to the next one. Numbers of bytes come first, then
/// the operands in the order in which they are written.
pub enum Instr {
    Mov(nat, Place, Place),
    /// From one byte.
    MovZero(nat, Place, Place),
    /// From so many bytes to so many.
    MovSign(nat, nat, Place, Place),
    Add(nat, Place, Place),
    Sub(nat, Place, Place),
    Imul(nat, Place, Place),
    Neg(nat, Place),
    Cqo,
    Idiv(nat, Place),
    Cmp(nat, Place, Place),
    SetByte(Cond),
    Lea(Place, Gpr),
    Sal(nat, int, Place),
    Sar(nat, int, Place),
    Push(Gpr),
    Pop(Gpr),
    /// An empty line.
    Nothing,
}

/// The state of the machine.
pub struct Machine {
    /// What the registers hold, from 0 to 2^64 - 1.
    pub gpr: Map<Gpr, int>,
    pub bytes: Map<int, int>,
    /// The operands of the last `cmp`, as signed numbers, the second one first.
    pub compared: (int, int),
}

/// How many different values so many bytes can hold.
pub open spec fn full(w: nat) -> int {
    if w == 1 {
        0x100
    } else if w == 4 {
        0x1_0000_0000
    } else {
        0x1_0000_0000_0000_0000
    }
}

/// A number of bytes that instructions work on.
pub open spec fn is_width(w: nat) -> bool {
    w == 1 || w == 4 || w == 8
}

/// The signed number that the bits of `x` stand for.
pub open spec fn signed(x: int, w: nat) -> int {
    if 2 * x >= full(w) {
        x - full(w)
    } else {
        x
    }
}

/// The signed number that is left of `x` in so many bytes.
pub open spec fn wrap(x: int, w: nat) -> int {
    signed(x % full(w), w)
}

/// The number that the `w` bytes from `address` on hold, the lowest one first.
pub open spec fn fetch(bytes: Map<int, int>, address: int, w: nat) -> int
    decreases w,
{
    if w == 0 {
        0
    } else {
        bytes[address] + 256 * fetch(bytes, address + 1, (w - 1) as nat)
    }
}

/// Memory once the `w` bytes from `address` on hold the low bytes of `x`.
pub open spec fn store(bytes: Map<int, int>, address: int, w: nat, x: int) -> Map<int, int>
    decreases w,
{
    if w == 0 {
        bytes
    } else {
        store(bytes.insert(address, x % 256), address + 1, (w - 1) as nat, x / 256)
    }
}

/// The address of an operand in memory.
pub open spec fn address(m: Machine, p: Place) -> int {
    match p {
        Place::Frame(n) => m.gpr[Gpr::Rbp] - n,
        Place::At(g) => m.gpr[g],
        _ => 0,
    }
}

/// What the low `w` bytes of a place hold, from 0 on.
pub open spec fn read(m: Machine, p: Place, w: nat) -> int {
    match p {
        Place::Number(n) => n % full(w),
        Place::InGpr(g) => m.gpr[g] % full(w),
        _ => fetch(m.bytes, address(m, p), w),
    }
}

/// What the low `w` bytes of a place hold, as a signed number.
pub open spec fn number(m: Machine, p: Place, w: nat) -> int {
    signed(read(m, p, w), w)
}

/// Puts `x` into the low `w` bytes of a place. Four bytes of a register are
/// written together with zeros above them.
pub open spec fn put(m: Machine, p: Place, w: nat, x: int) -> Machine {
    match p {
        Place::Number(_) => m,
        Place::InGpr(g) => Machine {
            gpr: m.gpr.insert(
                g,
                if w == 1 {
                    m.gpr[g] - m.gpr[g] % 256 + x % 256
                } else {
                    x % full(w)
                },
            ),
            ..m
        },
        _ => Machine { bytes: store(m.bytes, address(m, p), w, x), ..m },
    }
}

/// Whether a condition holds.
pub open spec fn holds(m: Machine, cond: Cond) -> bool {
    let (x, y) = m.compared;
    match cond {
        Cond::Equal => x == y,
        Cond::NotEqual => x != y,
        Cond::Less => x < y,
        Cond::LessEqual => x <= y,
        Cond::Greater => x > y,
        Cond::GreaterEqual => x >= y,
    }
}

/// The quotient of signed numbers, without its fraction.
pub open spec fn truncated(x: int, y: int) -> int {
    let q = (if x < 0 { -x } else { x }) / (if y < 0 { -y } else { y });
    if (x < 0) == (y < 0) {
        q
    } else {
        -q
    }
}

/// How many bits an operand of so many bytes is shifted by at most, and one more.
pub open spec fn shift_limit(w: nat) -> int {
    if w == 8 {
        64
    } else {
        32
    }
}

/// What an instruction does.
pub open spec fn exec(i: Instr, m: Machine) -> Machine {
    match i {
        Instr::Mov(w, from, to) => put(m, to, w, read(m, from, w)),
        Instr::MovZero(w, from, to) => put(m, to, w, read(m, from, 1)),
        Instr::MovSign(v, w, from, to) => put(m, to, w, number(m, from, v)),
        Instr::Add(w, from, to) => put(m, to, w, number(m, to, w) + number(m, from, w)),
        Instr::Sub(w, from, to) => put(m, to, w, number(m, to, w) - number(m, from, w)),
        Instr::Imul(w, from, to) => put(m, to, w, number(m, to, w) * number(m, from, w)),
        Instr::Neg(w, to) => put(m, to, w, -number(m, to, w)),
        Instr::Cqo => put(
            m,
            Place::InGpr(Gpr::Rdx),
            8,
            if number(m, Place::InGpr(Gpr::Rax), 8) < 0 {
                -1
            } else {
                0
            },
        ),
        Instr::Idiv(w, by) => {
            let high = number(m, Place::InGpr(Gpr::Rdx), w);
            let x = high * full(w) + read(m, Place::InGpr(Gpr::Rax), w);
            let y = number(m, by, w);
            let q = truncated(x, y);
            let divided = put(m, Place::InGpr(Gpr::Rax), w, q);
            put(divided, Place::InGpr(Gpr::Rdx), w, x - q * y)
        },
        Instr::Cmp(w, x, y) => Machine { compared: (number(m, y, w), number(m, x, w)), ..m },
        Instr::SetByte(cond) => put(
            m,
            Place::InGpr(Gpr::Rax),
            1,
            if holds(m, cond) {
                1
            } else {
                0
            },
        ),
        Instr::Lea(from, to) => put(m, Place::InGpr(to), 8, address(m, from)),
        Instr::Sal(w, n, to) => put(
            m,
            to,
            w,
            number(m, to, w) * pow2((n % shift_limit(w)) as nat),
        ),
        Instr::Sar(w, n, to) => put(
            m,
            to,
            w,
            number(m, to, w) / (pow2((n % shift_limit(w)) as nat) as int),
        ),
        Instr::Push(g) => {
            let top = m.gpr[Gpr::Rsp] - 8;
            Machine {
                gpr: m.gpr.insert(Gpr::Rsp, top),
                bytes: store(m.bytes, top, 8, m.gpr[g]),
                ..m
            }
        },
        Instr::Pop(g) => {
            let top = m.gpr[Gpr::Rsp];
            Machine {
                gpr: m.gpr.insert(Gpr::Rsp, top + 8).insert(g, fetch(m.bytes, top, 8)),
                ..m
            }
        },
        Instr::Nothing => m,
    }
}

/// What instructions do, one after the other.
pub open spec fn run(code: Seq<Instr>, m: Machine) -> Machine
    decreases code.len(),
{
    if code.len() == 0 {
        m
    } else {
        run(code.drop_first(), exec(code[0], m))
    }
}

/// The letter behind the name of an instruction that works on so many bytes.
pub open spec fn letter(w: nat) -> Seq<char> {
    if w == 1 {
        "b"@
    } else if w == 4 {
        "l"@
    } else {
        "q"@
    }
}

/// The name of the low `w` bytes of a register.
pub open spec fn gpr_name(g: Gpr, w: nat) -> Seq<char> {
    match g {
        Gpr::Rax => if w == 1 {
            "%al"@
        } else if w == 4 {
            "%eax"@
        } else {
            "%rax"@
        },
        Gpr::Rcx => if w == 1 {
            "%cl"@
        } else if w == 4 {
            "%ecx"@
        } else {
            "%rcx"@
        },
        Gpr::Rdx => if w == 1 {
            "%dl"@
        } else if w == 4 {
            "%edx"@
        } else {
            "%rdx"@
        },
        Gpr::Rsi => if w == 1 {
            "%sil"@
        } else if w == 4 {
            "%esi"@
        } else {
            "%rsi"@
        },
        Gpr::Rdi => if w == 1 {
            "%dil"@
        } else if w == 4 {
            "%edi"@
        } else {
            "%rdi"@
        },
        Gpr::Rbp => if w == 1 {
            "%bpl"@
        } else if w == 4 {
            "%ebp"@
        } else {
            "%rbp"@
        },
        Gpr::Rsp => if w == 1 {
            "%spl"@
        } else if w == 4 {
            "%esp"@
        } else {
            "%rsp"@
        },
        Gpr::R8 => if w == 1 {
            "%r8b"@
        } else if w == 4 {
            "%r8d"@
        } else {
            "%r8"@
        },
        Gpr::R9 => if w == 1 {
            "%r9b"@
        } else if w == 4 {
            "%r9d"@
        } else {
            "%r9"@
        },
        Gpr::R10 => if w == 1 {
            "%r10b"@
        } else if w == 4 {
            "%r10d"@
        } else {
            "%r10"@
        },
        Gpr::R11 => if w == 1 {
            "%r11b"@
        } else if w == 4 {
            "%r11d"@
        } else {
            "%r11"@
        },
    }
}

/// How an operand of so many bytes is written.
pub open spec fn name(p: Place, w: nat) -> Seq<char> {
    match p {
        Place::Number(n) => "$"@ + decimal(n),
        Place::InGpr(g) => gpr_name(g, w),
        Place::Frame(n) => "-"@ + decimal(n) + "(%rbp)"@,
        Place::At(g) => "("@ + gpr_name(g, 8) + ")"@,
    }
}

/// Two operands.
pub open spec fn pair(x: Seq<char>, y: Seq<char>) -> Seq<char> {
    x + ", "@ + y
}

/// How a condition is written behind `j` and `set`.
pub open spec fn cond_name(cond: Cond) -> Seq<char> {
    match cond {
        Cond::Equal => "e"@,
        Cond::NotEqual => "ne"@,
        Cond::Less => "l"@,
        Cond::LessEqual => "le"@,
        Cond::Greater => "g"@,
        Cond::GreaterEqual => "ge"@,
    }
}

pub open spec fn blank(text: Seq<char>) -> bool {
    text.len() > 0 && forall|i: int| 0 <= i < text.len() ==> #[trigger] text[i] == ' '
}

/// Whether a text is a line of `head` and, some way off, `tail`.
pub open spec fn line(text: Seq<char>, head: Seq<char>, tail: Seq<char>) -> bool {
    exists|gap: Seq<char>| #[trigger] blank(gap) && text == head + gap + tail + "\n"@
}

/// Whether a text is how an instruction is written.
pub open spec fn reads(text: Seq<char>, i: Instr) -> bool {
    match i {
        Instr::Mov(w, x, y) => is_width(w) && line(
            text,
            "\tmov"@ + letter(w),
            pair(name(x, w), name(y, w)),
        ),
        Instr::MovZero(w, x, y) => is_width(w) && w > 1 && line(
            text,
            "\tmovzb"@ + letter(w),
            pair(name(x, 1), name(y, w)),
        ),
        Instr::MovSign(v, w, x, y) => is_width(v) && is_width(w) && v < w && line(
            text,
            "movs"@ + letter(v) + letter(w),
            pair(name(x, v), name(y, w)),
        ),
        Instr::Add(w, x, y) => is_width(w) && (line(
            text,
            "\tadd"@ + letter(w),
            pair(name(x, w), name(y, w)),
        ) || line(text, "\tadd"@ + letter(w), name(x, w) + ","@ + name(y, w))),
        Instr::Sub(w, x, y) => is_width(w) && (line(
            text,
            "\tsub"@ + letter(w),
            pair(name(x, w), name(y, w)),
        ) || line(text, "\tsub"@ + letter(w), name(x, w) + ","@ + name(y, w))),
        Instr::Imul(w, x, y) => is_width(w) && line(
            text,
            "\timul"@ + letter(w),
            pair(name(x, w), name(y, w)),
        ),
        Instr::Neg(w, x) => is_width(w) && line(text, "\tneg"@ + letter(w), name(x, w)),
        Instr::Cqo => text == "\tcqo\n"@,
        Instr::Idiv(w, x) => is_width(w) && w > 1 && line(
            text,
            "\tidiv"@ + letter(w),
            name(x, w),
        ),
        Instr::Cmp(w, x, y) => is_width(w) && line(
            text,
            "\tcmp"@ + letter(w),
            pair(name(x, w), name(y, w)),
        ),
        Instr::SetByte(cond) => line(text, "\tset"@ + cond_name(cond), "%al"@),
        Instr::Lea(x, y) => (x is Frame || x is At) && line(
            text,
            "\tleaq"@,
            pair(name(x, 8), gpr_name(y, 8)),
        ),
        Instr::Sal(w, n, x) => is_width(w) && line(
            text,
            "sal"@ + letter(w),
            pair(name(Place::Number(n), w), name(x, w)),
        ),
        Instr::Sar(w, n, x) => is_width(w) && line(
            text,
            "sar"@ + letter(w),
            pair(name(Place::Number(n), w), name(x, w)),
        ),
        Instr::Push(g) => line(text, "\tpushq"@, gpr_name(g, 8)),
        Instr::Pop(g) => line(text, "\tpopq"@, gpr_name(g, 8)),
        Instr::Nothing => text == "\n"@,
    }
}

/// Whether `after` is `before` and then the lines of `code`.
pub open spec fn written(before: Seq<char>, code: Seq<Instr>, after: Seq<char>) -> bool
    decreases code.len(),
{
    if code.len() == 0 {
        after == before
    } else {
        exists|text: Seq<char>| #[trigger]
            reads(text, code[0]) && written(before + text, code.drop_first(), after)
    }
}

/// The number that a numeral of digits stands for.
pub open spec fn numeral(text: Seq<char>) -> int
    decreases text.len(),
{
    if text.len() == 0 {
        0
    } else {
        10 * numeral(text.drop_last()) + (text.last() as int - '0' as int)
    }
}

/// What is stored is what is fetched.
pub proof fn lemma_store(bytes: Map<int, int>, address: int, w: nat, x: int)
    ensures
        forall|a: int|
            a < address || address + w <= a ==> #[trigger] store(bytes, address, w, x)[a]
                == bytes[a],
    decreases w,
{
    if w > 0 {
        let next = bytes.insert(address, x % 256);
        lemma_store(next, address + 1, (w - 1) as nat, x / 256);
        assert forall|a: int| a < address || address + w <= a implies #[trigger] store(
            bytes,
            address,
            w,
            x,
        )[a] == bytes[a] by {
            assert(store(next, address + 1, (w - 1) as nat, x / 256)[a] == next[a]);
        }
    }
}

/// 256 to the power of `w`.
pub open spec fn power(w: nat) -> int
    decreases w,
{
    if w == 0 {
        1
    } else {
        256 * power((w - 1) as nat)
    }
}

proof fn lemma_power(w: nat)
    ensures
        power(w) > 0,
        is_width(w) ==> power(w) == full(w),
    decreases w,
{
    reveal_with_fuel(power, 9);
    if w > 0 {
        lemma_power((w - 1) as nat);
    }
}

/// What is left of a number, by its lowest byte and the others.
proof fn lemma_low_byte(x: int, p: int)
    requires
        p > 0,
    ensures
        x % (256 * p) == x % 256 + 256 * ((x / 256) % p),
{
    let (high, low) = (x / 256, x % 256);
    let (q, r) = (high / p, high % p);
    lemma_fundamental_div_mod(high, p);
    lemma_mod_bound(high, p);
    assert(x == q * (256 * p) + (low + 256 * r)) by (nonlinear_arith)
        requires
            x == 256 * high + low,
            high == p * q + r,
    ;
    lemma_fundamental_div_mod_converse(x, 256 * p, q, low + 256 * r);
}

pub proof fn lemma_fetch_store(bytes: Map<int, int>, address: int, w: nat, x: int)
    ensures
        fetch(store(bytes, address, w, x), address, w) == x % power(w),
    decreases w,
{
    if w > 0 {
        let v = (w - 1) as nat;
        let next = bytes.insert(address, x % 256);
        lemma_store(next, address + 1, v, x / 256);
        lemma_fetch_store(next, address + 1, v, x / 256);
        lemma_power(v);
        lemma_low_byte(x, power(v));
        assert(store(bytes, address, w, x)[address] == next[address]);
    } else {
        assert(x % 1 == 0);
    }
}

/// A number is in the range of its bytes.
pub open spec fn in_range(x: int, w: nat) -> bool {
    0 <= x < full(w)
}

/// What is written is what is read, and nothing else is written.
pub proof fn lemma_put(m: Machine, p: Place, w: nat, x: int)
    requires
        is_width(w),
        !(p is Number),
    ensures
        read(put(m, p, w, x), p, w) == x % full(w),
        number(put(m, p, w, x), p, w) == wrap(x, w),
        put(m, p, w, x).compared == m.compared,
        p matches Place::InGpr(g) ==> put(m, p, w, x).bytes == m.bytes && forall|h: Gpr|
            h != g ==> #[trigger] put(m, p, w, x).gpr[h] == m.gpr[h],
        !(p is InGpr) ==> put(m, p, w, x).gpr == m.gpr && forall|a: int|
            a < address(m, p) || address(m, p) + w <= a ==> #[trigger] put(m, p, w, x).bytes[a]
                == m.bytes[a],
{
    lemma_power(w);
    match p {
        Place::InGpr(g) => {},
        _ => {
            lemma_store(m.bytes, address(m, p), w, x);
            lemma_fetch_store(m.bytes, address(m, p), w, x);
        },
    }
}

} // verus!
