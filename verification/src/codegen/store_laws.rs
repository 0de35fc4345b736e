//! What the code of constants, unary operators, casts and assignments does when
//! it is run.

use vstd::arithmetic::power2::pow2;
use vstd::prelude::*;

use crate::codegen::ast::{Expr, ExprKind, Stmt};
use crate::codegen::frame_laws::{framed, law_expression_frames, lemma_place_frames};
use crate::codegen::machine::{
    address, exec, fetch, full, is_width, lemma_put, letter, line, name, number, pair, read, reads,
    run, shift_limit, signed, wrap, Cond, Gpr, Instr, Machine, Place,
};
use crate::codegen::model::{
    address_of, allocate, assign, assign_expr, bang, cast_down, cast_down_expr, cast_up,
    cast_up_expr, declare_variable, dereferenced, dereferenced_place, execute, execute_l, flag_line,
    free_register, initialize, instruction, literal, load, negate, return_operand, return_value,
    shift, shift_expr, short_instruction, unary_expr, variable, visit, State, Step,
};
use crate::codegen::register::{suffix, Register, SCRATCH_REGISTERS};
use crate::codegen::register_laws::{
    fresh, holding, law_expression_registers, lemma_place_registers, lemma_sound_after,
    lemma_variable_on_stack, sound,
};
use crate::codegen::run_laws::{
    comes_to, keeps, lemma_blanks, lemma_fetch_range, lemma_instruction, lemma_join, lemma_line,
    lemma_load, lemma_one, lemma_operand, lemma_read_range, lemma_scratch, lemma_short_instruction,
    lemma_suffix, only_gpr, only_stored, out_of_frame, place, scratch_gpr, valid, value, width,
    width_of,
};
use crate::codegen::stack_laws::law_slot;
use crate::codegen::text::decimal;
use crate::codegen::value_laws::{
    flag, lemma_flag_line, lemma_flag_runs, lemma_keeps, lemma_no_argument, lemma_set_lines,
    lemma_two, only_result,
};
use crate::common::environment::lookup;
use crate::common::token::TokenType;
use crate::common::types::{NEWTypes, Types};

verus! {

/// A new value in a register that was free leaves the registers in use alone.
proof fn lemma_only_new(before: Seq<bool>, m: Machine, n: Machine, v: Register)
    requires
        v.scratch() matches Some(i) && 0 <= i < SCRATCH_REGISTERS && !before[i],
        only_gpr(m, n, scratch_gpr(v.scratch()->0)),
    ensures
        keeps(m, n, before),
{
    let k = v.scratch()->0;
    assert forall|i: int| 0 <= i < SCRATCH_REGISTERS && #[trigger] before[i] implies n.gpr[
        scratch_gpr(i)
    ] == m.gpr[scratch_gpr(i)] by {
        lemma_scratch(i, k);
    }
    lemma_scratch(k, k);
}

proof fn lemma_literal_runs(
    st: State,
    head: Seq<char>,
    x: int,
    t: Types,
    after: State,
    v: Register,
    m: Machine,
) -> (n: Machine)
    requires
        st.in_use.len() == SCRATCH_REGISTERS,
        literal(st, head, x, t) == Step::Done(after, v),
        is_width(width(NEWTypes::Primitive(t))),
        head == "\tmov"@ + letter(width(NEWTypes::Primitive(t))) + "    "@ + "$"@,
        wrap(x, width(NEWTypes::Primitive(t))) == x,
    ensures
        v.type_of() == Some(NEWTypes::Primitive(t)),
        comes_to(st.output, after.output, m, n),
        value(n, v) == x,
        keeps(m, n, st.in_use),
        n.bytes == m.bytes,
{
    let w = width(NEWTypes::Primitive(t));
    lemma_operand(v);
    lemma_blanks();
    let operand = v.operand()->0;
    let text = head + decimal(x) + ", "@ + operand + "\n"@;
    let tail = pair("$"@ + decimal(x), operand);
    assert(text =~= ("\tmov"@ + letter(w)) + "    "@ + tail + "\n"@);
    lemma_line(text, "\tmov"@ + letter(w), "    "@, tail);
    let i = Instr::Mov(w, Place::Number(x), place(v));
    lemma_one(st.output, text, i);
    let n = run(seq![i], m);
    lemma_put(m, place(v), w, x % full(w));
    assert((x % full(w)) % full(w) == x % full(w));
    lemma_only_new(st.in_use, m, n, v);
    n
}

/// The code of a constant leaves the constant.
pub proof fn law_constant_runs(st: State, e: Expr, x: int, after: State, v: Register, m: Machine)
    requires
        sound(st),
        e.kind is Number || e.kind is CharLit,
        e.kind matches ExprKind::Number(n) ==> x == n,
        e.kind matches ExprKind::CharLit(c) ==> x == c,
        execute(st, e) == Step::Done(after, v),
    ensures
        v.type_of() == Some(
            NEWTypes::Primitive(
                if e.kind is Number {
                    Types::Int
                } else {
                    Types::Char
                },
            ),
        ),
        exists|n: Machine|
            #[trigger] comes_to(st.output, after.output, m, n) && value(n, v) == x && keeps(
                m,
                n,
                st.in_use,
            ) && n.bytes == m.bytes,
{
    lemma_literal_heads();
    if e.kind is Number {
        lemma_narrow(x, 4, 4);
        let n = lemma_literal_runs(st, "\tmovl    $"@, x, Types::Int, after, v, m);
        assert(comes_to(st.output, after.output, m, n));
    } else {
        lemma_narrow(x, 1, 1);
        let n = lemma_literal_runs(st, "\tmovb    $"@, x, Types::Char, after, v, m);
        assert(comes_to(st.output, after.output, m, n));
    }
}

proof fn lemma_literal_heads()
    ensures
        "\tmovl    $"@ == "\tmov"@ + letter(4) + "    "@ + "$"@,
        "\tmovb    $"@ == "\tmov"@ + letter(1) + "    "@ + "$"@,
{
    reveal_strlit("\tmovl    $");
    reveal_strlit("\tmovb    $");
    reveal_strlit("\tmov");
    reveal_strlit("l");
    reveal_strlit("b");
    reveal_strlit("    ");
    reveal_strlit("$");
    assert("\tmovl    $"@ =~= "\tmov"@ + "l"@ + "    "@ + "$"@);
    assert("\tmovb    $"@ =~= "\tmov"@ + "b"@ + "    "@ + "$"@);
}

/// A variable is where the innermost scope that knows it says, and takes no code.
pub proof fn law_variable_runs(st: State, e: Expr, name: Seq<char>, after: State, v: Register)
    requires
        e.kind matches ExprKind::Ident(token) && token.name() == Some(name),
        execute(st, e) == Step::Done(after, v),
    ensures
        after == st,
        exists|i: int|
            0 <= i < st.scopes.len() && #[trigger] st.scopes[i].contains_key(name)
                && st.scopes[i][name] == v && forall|j: int|
                0 <= j < i ==> !(#[trigger] st.scopes[j].contains_key(name)),
{
    lemma_innermost(st.scopes, name);
}

proof fn lemma_innermost(scopes: Seq<Map<Seq<char>, Register>>, name: Seq<char>)
    ensures
        lookup(scopes, name) matches Some(v) ==> exists|i: int|
            0 <= i < scopes.len() && #[trigger] scopes[i].contains_key(name) && scopes[i][name]
                == v && forall|j: int|
                0 <= j < i ==> !(#[trigger] scopes[j].contains_key(name)),
    decreases scopes.len(),
{
    if scopes.len() > 0 && !scopes[0].contains_key(name) {
        let rest = scopes.drop_first();
        lemma_innermost(rest, name);
        if let Some(v) = lookup(rest, name) {
            let i = choose|i: int|
                0 <= i < rest.len() && #[trigger] rest[i].contains_key(name) && rest[i][name] == v
                    && forall|j: int| 0 <= j < i ==> !(#[trigger] rest[j].contains_key(name));
            assert(scopes[i + 1].contains_key(name));
            assert forall|j: int| 0 <= j < i + 1 implies !(#[trigger] scopes[j].contains_key(
                name,
            )) by {
                if j > 0 {
                    assert(!rest[j - 1].contains_key(name));
                }
            }
        }
    } else if scopes.len() > 0 {
        assert(scopes[0].contains_key(name));
    }
}

/// An operand is in a register that was free, or in none.
proof fn lemma_operand_held(st: State, e: Expr, s: State, v: Register)
    requires
        sound(st),
        execute(st, e) == Step::Done(s, v),
    ensures
        fresh(st.in_use, v),
        s.in_use == holding(st.in_use, v),
        s.in_use.len() == SCRATCH_REGISTERS,
        !(v is Arg),
{
    law_expression_registers(st, e);
    lemma_no_argument(st, e);
}

/// The code of `!` leaves 1 where the value of the operand is 0, and else 0; that
/// of `-` leaves its negative. Either way it is where the operand was.
#[verifier::rlimit(50)]
pub proof fn law_unary_runs(
    st: State,
    e: Expr,
    operator: TokenType,
    right: Expr,
    s: State,
    v: Register,
    after: State,
    result: Register,
    m: Machine,
)
    requires
        sound(st),
        e.kind matches ExprKind::Unary { token, right: r } && *r == right && token.token
            == operator,
        operator is Bang || operator is Minus,
        execute(st, right) == Step::Done(s, v),
        execute(st, e) == Step::Done(after, result),
    ensures
        result == v,
        exists|n: Machine|
            {
                &&& #[trigger] comes_to(s.output, after.output, m, n)
                &&& value(n, result) == if operator is Bang {
                    flag(value(m, v) == 0)
                } else {
                    wrap(-value(m, v), width_of(v))
                }
                &&& keeps(m, n, st.in_use)
                &&& result is Scratch ==> n.bytes == m.bytes
                &&& !(result is Scratch) ==> only_stored(m, n, place(v), width_of(v))
            },
{
    let token = e.kind->Unary_token;
    assert(execute(st, e) == unary_expr(st, token, right));
    lemma_operand_held(st, right, s, v);
    let w = width_of(v);
    lemma_operand(v);
    lemma_blanks();
    if operator is Bang {
        assert(bang(s, v) == Step::Done(after, result));
        let t = v.type_of()->0;
        lemma_instruction("\tcmp"@, t, " "@, "$0"@, v.operand()->0);
        reveal_strlit("$0");
        reveal_strlit("$");
        assert(decimal(0) =~= seq!['0']);
        assert("$0"@ =~= "$"@ + decimal(0));
        let t1 = instruction("\tcmp"@, Some(t), " "@, Some("$0"@), v.operand())->0;
        let i1 = Instr::Cmp(w, Place::Number(0), place(v));
        let i2 = Instr::SetByte(Cond::Equal);
        lemma_set_lines();
        let c1 = lemma_two(s.output, t1, i1, "\tsete %al\n"@, i2);
        let half = s.output + (t1 + "\tsete %al\n"@);
        let i3 = lemma_flag_line(v);
        let t3 = flag_line(v)->0;
        lemma_one(half, t3, i3);
        lemma_join(s.output, c1, half, seq![i3], half + t3);
        assert(after.output =~= half + t3);
        let a = Machine { compared: (value(m, v), 0), ..m };
        assert(exec(i1, m) == a);
        lemma_flag_runs(a, Cond::Equal, v, i3);
        let n = run(c1 + seq![i3], m);
        assert(n == exec(i3, exec(i2, a)));
        assert(only_result(m, n, v));
        lemma_keeps(st.in_use, m, m, n, v);
        assert(comes_to(s.output, after.output, m, n));
    } else {
        assert(negate(s, v) == Step::Done(after, result));
        let t = v.type_of()->0;
        lemma_short_instruction("\tneg"@, t, v.operand()->0);
        let text = short_instruction("\tneg"@, Some(t), v.operand())->0;
        let i = Instr::Neg(w, place(v));
        lemma_one(s.output, text, i);
        let n = run(seq![i], m);
        lemma_put(m, place(v), w, -value(m, v));
        assert(only_result(m, n, v));
        lemma_keeps(st.in_use, m, m, n, v);
        assert(comes_to(s.output, after.output, m, n));
    }
}

/// The code of `&` leaves the address of its operand.
pub proof fn law_address_runs(
    st: State,
    e: Expr,
    right: Expr,
    s: State,
    v: Register,
    after: State,
    result: Register,
    m: Machine,
)
    requires
        sound(st),
        e.kind matches ExprKind::Unary { token, right: r } && *r == right && token.token is Amp,
        execute(st, right) == Step::Done(s, v),
        execute(st, e) == Step::Done(after, result),
        v is Stack || v is Deref,
    ensures
        result.type_of() matches Some(NEWTypes::Pointer(to)) && Some(*to) == v.type_of(),
        exists|n: Machine|
            {
                &&& #[trigger] comes_to(s.output, after.output, m, n)
                &&& read(n, place(result), 8) == address(m, place(v)) % full(8)
                &&& keeps(m, n, st.in_use)
                &&& n.bytes == m.bytes
            },
{
    let token = e.kind->Unary_token;
    assert(execute(st, e) == unary_expr(st, token, right));
    lemma_operand_held(st, right, s, v);
    assert(address_of(s, v) == Step::Done(after, result));
    lemma_operand(v);
    lemma_operand(result);
    lemma_blanks();
    reveal_strlit("\tleaq    ");
    reveal_strlit("\tleaq");
    reveal_strlit("    ");
    let (from, to) = (v.operand()->0, result.operand()->0);
    let text = "\tleaq    "@ + from + ", "@ + to + "\n"@;
    assert(text =~= "\tleaq"@ + "    "@ + pair(from, to) + "\n"@);
    lemma_line(text, "\tleaq"@, "    "@, pair(from, to));
    let g = scratch_gpr(result.scratch()->0);
    let i = Instr::Lea(place(v), g);
    lemma_one(s.output, text, i);
    let n = run(seq![i], m);
    lemma_put(m, place(result), 8, address(m, place(v)));
    lemma_only_new(st.in_use, m, n, result);
    assert(comes_to(s.output, after.output, m, n));
}

/// The code of `*` leaves what is in memory where the pointer points to. The
/// pointer must not itself be where another one points to.
#[verifier::rlimit(50)]
pub proof fn law_dereference_runs(
    st: State,
    e: Expr,
    right: Expr,
    s: State,
    v: Register,
    to: NEWTypes,
    after: State,
    result: Register,
    m: Machine,
)
    requires
        sound(st),
        e.kind matches ExprKind::Unary { token, right: r } && *r == right && token.token is Star,
        execute(st, right) == Step::Done(s, v),
        execute(st, e) == Step::Done(after, result),
        v.type_of() == Some(NEWTypes::Pointer(Box::new(to))),
        !(v is Deref),
        valid(m),
    ensures
        result.type_of() == Some(to),
        exists|n: Machine|
            {
                &&& #[trigger] comes_to(s.output, after.output, m, n)
                &&& value(n, result) == signed(
                    fetch(m.bytes, read(m, place(v), 8), width(to)),
                    width(to),
                )
                &&& keeps(m, n, st.in_use)
                &&& n.bytes == m.bytes
            },
{
    let token = e.kind->Unary_token;
    assert(execute(st, e) == unary_expr(st, token, right));
    lemma_operand_held(st, right, s, v);
    assert(dereferenced(s, v) == Step::Done(after, result));
    let a = allocate(s);
    assert(result == free_register(s, to));
    assert(load(a, v) is Done);
    let c1 = lemma_load(a, v);
    let (t, p) = (load(a, v)->Done_0, load(a, v)->Done_1);
    lemma_operand(p);
    lemma_operand(result);
    lemma_blanks();
    let operand = p.operand()->0;
    let source = "("@ + operand + ")"@;
    let text = instruction("\tmov"@, Some(to), "    "@, Some(source), result.operand())->0;
    lemma_instruction("\tmov"@, to, "    "@, source, result.operand()->0);
    let w = width(to);
    assert(p is Scratch);
    let g = scratch_gpr(p.scratch()->0);
    assert(source == name(Place::At(g), w));
    let i = Instr::Mov(w, Place::At(g), place(result));
    lemma_one(t.output, text, i);
    lemma_join(s.output, c1, t.output, seq![i], t.output + text);
    let x = run(c1, m);
    let n = run(c1 + seq![i], m);
    assert(valid(x) && x.bytes == m.bytes && x.gpr[g] == read(m, place(v), 8)) by {
        if v is Stack {
            assert(out_of_frame(m, run(c1, m), v, p));
        }
    }
    assert(n == exec(i, x));
    lemma_read_range(x, Place::At(g), w);
    lemma_put(x, place(result), w, read(x, Place::At(g), w));
    assert(p.scratch() != result.scratch());
    assert(keeps(m, x, st.in_use)) by {
        if v is Stack {
            lemma_only_new(st.in_use, m, x, p);
        }
    }
    assert(keeps(x, n, st.in_use)) by {
        lemma_only_new(st.in_use, x, n, result);
    }
    assert(comes_to(s.output, after.output, m, n));
}

/// The code of a cast to a wider type leaves the value that the operand has.
pub proof fn law_cast_up_runs(
    st: State,
    e: Expr,
    expr: Expr,
    from: NEWTypes,
    to: NEWTypes,
    s: State,
    v: Register,
    after: State,
    result: Register,
    m: Machine,
)
    requires
        sound(st),
        e.kind matches ExprKind::CastUp { expr: x } && *x == expr,
        e.type_decl == Some(to) && expr.type_decl == Some(from),
        execute(st, expr) == Step::Done(s, v),
        execute(st, e) == Step::Done(after, result),
        width_of(v) == width(from) && width(from) < width(to),
        valid(m),
    ensures
        result.type_of() == Some(to),
        exists|n: Machine|
            {
                &&& #[trigger] comes_to(s.output, after.output, m, n)
                &&& value(n, result) == value(m, v)
                &&& keeps(m, n, st.in_use)
                &&& n.bytes == m.bytes
            },
{
    assert(execute(st, e) == cast_up_expr(st, expr, to));
    lemma_operand_held(st, expr, s, v);
    assert(cast_up(s, v, Some(from), to) == Step::Done(after, result));
    lemma_operand(v);
    lemma_operand(result);
    lemma_blanks();
    let (x, w) = (width(from), width(to));
    let text = lemma_cast_text(s, v, from, to, after, result);
    let i = Instr::MovSign(x, w, place(v), place(result));
    lemma_one(s.output, text, i);
    let n = run(seq![i], m);
    lemma_read_range(m, place(v), x);
    lemma_put(m, place(result), w, value(m, v));
    lemma_narrow(value(m, v), x, w);
    lemma_only_new(st.in_use, m, n, result);
    assert(comes_to(s.output, after.output, m, n));
}

/// A signed number of a few bytes fits in more of them.
proof fn lemma_narrow(y: int, x: nat, w: nat)
    requires
        is_width(x) && is_width(w) && x <= w,
        -full(x) <= 2 * y < full(x),
    ensures
        wrap(y, w) == y,
{
    if y < 0 {
        assert(y % full(w) == y + full(w)) by {
            vstd::arithmetic::div_mod::lemma_mod_add_multiples_vanish(y, full(w));
            vstd::arithmetic::div_mod::lemma_small_mod((y + full(w)) as nat, full(w) as nat);
        }
    } else {
        vstd::arithmetic::div_mod::lemma_small_mod(y as nat, full(w) as nat);
    }
}

proof fn lemma_cast_text(
    s: State,
    v: Register,
    from: NEWTypes,
    to: NEWTypes,
    after: State,
    result: Register,
) -> (text: Seq<char>)
    requires
        s.in_use.len() == SCRATCH_REGISTERS,
        cast_up(s, v, Some(from), to) == Step::Done(after, result),
        width_of(v) == width(from) && width(from) < width(to),
    ensures
        reads(text, Instr::MovSign(width(from), width(to), place(v), place(result))),
        after.output == s.output + text,
        result matches Register::Scratch(i, t) && t == to && !s.in_use[i as int] && 0 <= i
            < SCRATCH_REGISTERS,
{
    lemma_operand(v);
    lemma_operand(result);
    lemma_blanks();
    lemma_suffix(from);
    lemma_suffix(to);
    lemma_suffix(from);
    let head = "movs"@ + suffix(from)->0;
    let text = after.output.skip(s.output.len() as int);
    let tail = pair(v.operand()->0, result.operand()->0);
    assert(after.output =~= s.output + text);
    let gap = "   "@;
    assert(text =~= (head + suffix(to)->0) + gap + tail + "\n"@);
    lemma_line(text, head + letter(width(to)), gap, tail);
    text
}

/// Four bytes are the low ones of eight, and one byte is the lowest of all.
proof fn lemma_low_bytes(bytes: Map<int, int>, a: int)
    requires
        forall|b: int| 0 <= #[trigger] bytes[b] < 256,
    ensures
        fetch(bytes, a, 8) % full(4) == fetch(bytes, a, 4),
        fetch(bytes, a, 8) % 256 == fetch(bytes, a, 1),
        fetch(bytes, a, 4) % 256 == fetch(bytes, a, 1),
{
    let low = fetch(bytes, a, 4);
    let high = fetch(bytes, a + 4, 4);
    lemma_fetch_range(bytes, a, 4);
    assert(fetch(bytes, a, 8) == low + full(4) * high && low == bytes[a] + 256 * fetch(
        bytes,
        a + 1,
        3,
    ) && fetch(bytes, a, 1) == bytes[a]) by {
        reveal_with_fuel(fetch, 9);
    }
    assert(0 <= bytes[a] < 256);
    lemma_split(low, high, full(4));
    lemma_split(bytes[a], fetch(bytes, a + 1, 3), 256);
    lemma_split(bytes[a], fetch(bytes, a + 1, 3) + 0x100_0000 * high, 256);
}

/// What is below a multiple is what is left.
proof fn lemma_split(low: int, high: int, unit: int)
    requires
        0 <= low < unit,
    ensures
        (low + unit * high) % unit == low,
{
    assert(low + unit * high == high * unit + low) by (nonlinear_arith);
    vstd::arithmetic::div_mod::lemma_fundamental_div_mod_converse(
        low + unit * high,
        unit,
        high,
        low,
    );
}

/// What is left of what is left.
proof fn lemma_left(y: int, x: nat, w: nat)
    requires
        is_width(x) && is_width(w) && x <= w,
    ensures
        (y % full(w)) % full(x) == y % full(x),
        (y - full(w)) % full(x) == y % full(x),
{
    let k: int = if x == w {
        1
    } else if x == 4 {
        0x1_0000_0000
    } else if w == 4 {
        0x100_0000
    } else {
        0x100_0000_0000_0000
    };
    let u = full(x);
    assert(full(w) == k * u);
    vstd::arithmetic::div_mod::lemma_fundamental_div_mod(y, full(w));
    let q = y / full(w);
    let r = y % full(w);
    assert(y == (k * q) * u + r) by (nonlinear_arith)
        requires
            y == (k * u) * q + r,
    ;
    vstd::arithmetic::div_mod::lemma_mod_multiples_vanish(k * q, r, u);
    assert(u * (k * q) + r == y) by (nonlinear_arith)
        requires
            y == (k * q) * u + r,
    ;
    vstd::arithmetic::div_mod::lemma_mod_multiples_vanish(-k, y, u);
    assert(u * (-k) + y == y - full(w)) by (nonlinear_arith)
        requires
            full(w) == k * u,
    ;
}

/// What is read of fewer bytes is what is left of what is read of more.
proof fn lemma_read_low(m: Machine, p: Place, x: nat, w: nat)
    requires
        valid(m),
        is_width(x) && is_width(w) && x <= w,
        !(p is Number),
    ensures
        read(m, p, w) % full(x) == read(m, p, x),
{
    lemma_read_range(m, p, w);
    lemma_read_range(m, p, x);
    match p {
        Place::InGpr(g) => {
            lemma_left(m.gpr[g], x, w);
        },
        _ => {
            lemma_low_bytes(m.bytes, address(m, p));
            if x == w {
                vstd::arithmetic::div_mod::lemma_small_mod(
                    read(m, p, w) as nat,
                    full(w) as nat,
                );
            }
        },
    }
}

/// A cast to a type that is not wider takes no code, and leaves what its bytes can
/// hold of the value.
pub proof fn law_cast_down_runs(
    st: State,
    e: Expr,
    expr: Expr,
    to: NEWTypes,
    s: State,
    v: Register,
    after: State,
    result: Register,
    m: Machine,
)
    requires
        sound(st),
        e.kind matches ExprKind::CastDown { expr: x } && *x == expr,
        e.type_decl == Some(to),
        execute(st, expr) == Step::Done(s, v),
        execute(st, e) == Step::Done(after, result),
        is_width(width(to)) && is_width(width_of(v)) && width(to) <= width_of(v),
        valid(m),
    ensures
        after == s,
        result.type_of() == Some(to) && place(result) == place(v),
        value(m, result) == wrap(value(m, v), width(to)),
{
    assert(execute(st, e) == cast_down_expr(st, expr, to));
    lemma_operand_held(st, expr, s, v);
    assert(cast_down(s, v, to) == Step::Done(after, result));
    let (x, w) = (width(to), width_of(v));
    lemma_read_range(m, place(v), w);
    lemma_read_low(m, place(v), x, w);
    let y = read(m, place(v), w);
    lemma_left(y, x, w);
    assert(value(m, v) % full(x) == y % full(x));
}

/// The code that scales up leaves the value times a power of two, and the code
/// that scales down the value divided by it and rounded down, without what its
/// bytes cannot hold.
#[verifier::rlimit(50)]
pub proof fn law_scale_runs(
    st: State,
    e: Expr,
    up: bool,
    expr: Expr,
    amount: usize,
    s: State,
    v: Register,
    after: State,
    result: Register,
    m: Machine,
)
    requires
        sound(st),
        up ==> (e.kind matches ExprKind::ScaleUp { expr: x, shift_amount } && *x == expr
            && shift_amount == amount),
        !up ==> (e.kind matches ExprKind::ScaleDown { expr: x, shift_amount } && *x == expr
            && shift_amount == amount),
        execute(st, expr) == Step::Done(s, v),
        execute(st, e) == Step::Done(after, result),
        amount < 8 * width_of(v),
        valid(m),
    ensures
        width_of(result) == width_of(v),
        exists|n: Machine|
            {
                &&& #[trigger] comes_to(s.output, after.output, m, n)
                &&& value(n, result) == wrap(
                    if up {
                        value(m, v) * pow2(amount as nat)
                    } else {
                        value(m, v) / (pow2(amount as nat) as int)
                    },
                    width_of(v),
                )
                &&& keeps(m, n, st.in_use)
                &&& result is Scratch ==> n.bytes == m.bytes
                &&& !(result is Scratch) ==> only_stored(m, n, place(result), width_of(v))
            },
{
    let head = if up {
        "sal"@
    } else {
        "sar"@
    };
    assert(execute(st, e) == shift_expr(st, head, expr, amount));
    lemma_operand_held(st, expr, s, v);
    assert(shift(s, head, amount, v) == Step::Done(after, result));
    let c1 = lemma_load(s, v);
    let (t, u) = (load(s, v)->Done_0, load(s, v)->Done_1);
    assert(u == result);
    lemma_operand(u);
    lemma_blanks();
    let ty = u.type_of()->0;
    let number = "$"@ + decimal(amount as int);
    let text = instruction(head, Some(ty), "   "@, Some(number), u.operand())->0;
    lemma_instruction(head, ty, "   "@, number, u.operand()->0);
    let w = width(ty);
    let i = if up {
        Instr::Sal(w, amount as int, place(u))
    } else {
        Instr::Sar(w, amount as int, place(u))
    };
    assert(reads(text, i));
    lemma_one(t.output, text, i);
    lemma_join(s.output, c1, t.output, seq![i], t.output + text);
    let x = run(c1, m);
    let n = run(c1 + seq![i], m);
    assert(valid(x) && value(x, u) == value(m, v) && x.bytes == m.bytes && keeps(
        m,
        x,
        st.in_use,
    )) by {
        if v is Stack {
            assert(out_of_frame(m, run(c1, m), v, u));
            lemma_only_new(st.in_use, m, x, u);
        }
    }
    assert(n == exec(i, x));
    assert((amount as int) % shift_limit(w) == amount as int);
    let y = if up {
        value(x, u) * pow2(amount as nat)
    } else {
        value(x, u) / (pow2(amount as nat) as int)
    };
    lemma_put(x, place(u), w, y);
    assert(only_result(x, n, u));
    lemma_keeps(st.in_use, m, x, n, u);
    assert(comes_to(s.output, after.output, m, n));
}

/// A dereferenced pointer that is assigned to is the place that it points to.
pub proof fn law_place_runs(
    st: State,
    e: Expr,
    right: Expr,
    s: State,
    v: Register,
    to: NEWTypes,
    after: State,
    result: Register,
    m: Machine,
)
    requires
        sound(st),
        e.kind matches ExprKind::Unary { right: r, .. } && *r == right,
        execute(st, right) == Step::Done(s, v),
        execute_l(st, e) == Step::Done(after, result),
        v.type_of() == Some(NEWTypes::Pointer(Box::new(to))),
        valid(m),
    ensures
        result is Deref && result.type_of() == Some(to),
        exists|n: Machine|
            {
                &&& #[trigger] comes_to(s.output, after.output, m, n)
                &&& address(n, place(result)) == read(m, place(v), 8)
                &&& keeps(m, n, st.in_use)
                &&& n.bytes == m.bytes
            },
{
    lemma_operand_held(st, right, s, v);
    assert(dereferenced_place(s, v) == Step::Done(after, result));
    let c1 = lemma_load(s, v);
    let p = load(s, v)->Done_1;
    let n = run(c1, m);
    if v is Stack {
        assert(out_of_frame(m, run(c1, m), v, p));
        lemma_only_new(st.in_use, m, n, p);
    }
    lemma_scratch(p.scratch()->0, p.scratch()->0);
    assert(comes_to(s.output, after.output, m, n));
}

/// Moves a value into a place, once it is out of the stack frame.
proof fn lemma_store_runs(
    before: Seq<bool>,
    st: State,
    v: Register,
    t: NEWTypes,
    p: Register,
    after: Seq<char>,
    m: Machine,
) -> (n: Machine)
    requires
        st.in_use.len() == SCRATCH_REGISTERS && before.len() == SCRATCH_REGISTERS,
        forall|k: int| 0 <= k < SCRATCH_REGISTERS && #[trigger] before[k] ==> st.in_use[k],
        p.scratch() matches Some(i) ==> 0 <= i < SCRATCH_REGISTERS && st.in_use[i],
        p is Stack || p is Deref,
        load(st, v) is Done,
        instruction(
            "\tmov"@,
            Some(t),
            "    "@,
            load(st, v)->Done_1.operand(),
            p.operand(),
        ) matches Some(text) && after == load(st, v)->Done_0.output + text,
        width_of(v) == width(t) && width_of(p) == width(t),
        valid(m),
    ensures
        comes_to(st.output, after, m, n),
        value(n, p) == value(m, v),
        keeps(m, n, before),
        only_stored(m, n, place(p), width(t)),
{
    let c1 = lemma_load(st, v);
    let (s, u) = (load(st, v)->Done_0, load(st, v)->Done_1);
    lemma_operand(u);
    lemma_operand(p);
    lemma_blanks();
    let w = width(t);
    let text = instruction("\tmov"@, Some(t), "    "@, u.operand(), p.operand())->0;
    lemma_instruction("\tmov"@, t, "    "@, u.operand()->0, p.operand()->0);
    let i = Instr::Mov(w, place(u), place(p));
    lemma_one(s.output, text, i);
    lemma_join(st.output, c1, s.output, seq![i], after);
    let x = run(c1, m);
    let n = run(c1 + seq![i], m);
    assert(valid(x) && value(x, u) == value(m, v) && x.bytes == m.bytes && keeps(m, x, before)
        && address(x, place(p)) == address(m, place(p)) && read(x, place(u), w) == read(
        m,
        place(v),
        w,
    )) by {
        if v is Stack {
            assert(out_of_frame(m, run(c1, m), v, u));
            lemma_only_new(before, m, x, u);
            if p.scratch() is Some {
                lemma_scratch(p.scratch()->0, u.scratch()->0);
            }
            lemma_scratch(u.scratch()->0, u.scratch()->0);
        }
    }
    assert(n == exec(i, x));
    lemma_read_range(x, place(u), w);
    lemma_put(x, place(p), w, read(x, place(u), w));
    n
}

/// The code of an assignment, once that of its operands has run, leaves the value
/// of the right one where the left one is, and nothing else in memory changes. The
/// value of the whole is there.
pub proof fn law_assign_runs(
    st: State,
    e: Expr,
    l_expr: Expr,
    s: State,
    p: Register,
    r_expr: Expr,
    t: State,
    v: Register,
    after: State,
    result: Register,
    m: Machine,
)
    requires
        sound(st),
        e.kind matches ExprKind::Assign { l_expr: x, r_expr: y, .. } && *x == l_expr && *y
            == r_expr,
        execute_l(st, l_expr) == Step::Done(s, p),
        execute(s, r_expr) == Step::Done(t, v),
        execute(st, e) == Step::Done(after, result),
        width_of(v) == width_of(p),
        valid(m),
    ensures
        result == p,
        exists|n: Machine|
            {
                &&& #[trigger] comes_to(t.output, after.output, m, n)
                &&& value(n, p) == value(m, v)
                &&& keeps(m, n, st.in_use)
                &&& only_stored(m, n, place(p), width_of(v))
            },
{
    assert(execute(st, e) == assign_expr(st, l_expr, r_expr));
    assert(assign(t, p, v) == Step::Done(after, result));
    lemma_place_registers(st, l_expr);
    lemma_place_frames(st, l_expr);
    lemma_sound_after(st, s, p);
    lemma_operand_held(s, r_expr, t, v);
    lemma_place_kind(st, l_expr);
    let ty = load(t, v)->Done_1.type_of()->0;
    let n = lemma_store_runs(st.in_use, t, v, ty, p, after.output, m);
    assert(comes_to(t.output, after.output, m, n));
}

proof fn lemma_place_kind(st: State, e: Expr)
    requires
        sound(st),
    ensures
        execute_l(st, e) matches Step::Done(_, p) ==> p is Stack || p is Deref,
    decreases e,
{
    match e.kind {
        ExprKind::Ident(name) => {
            if let Some(name) = name.name() {
                lemma_variable_on_stack(st.scopes, name);
            }
        },
        ExprKind::Grouping { expr } => lemma_place_kind(st, *expr),
        _ => {},
    }
}

/// The code of an initialization, once that of the value has run, leaves the value
/// in the slot of the new variable, and nothing else in memory changes.
pub proof fn law_initialization_runs(
    st: State,
    stmt: Stmt,
    t: NEWTypes,
    name: Seq<char>,
    expr: Expr,
    s: State,
    v: Register,
    after: State,
    m: Machine,
)
    requires
        sound(st),
        stmt matches Stmt::InitVar(u, token, x) && u == t && token.name() == Some(name) && x
            == expr,
        execute(st, expr) == Step::Done(s, v),
        visit(st, stmt) matches Step::Done(u, _) && u == after,
        width_of(v) == width(t),
        valid(m),
    ensures
        exists|n: Machine, p: Register|
            {
                &&& #[trigger] comes_to(s.output, after.output, m, n)
                &&& lookup(after.scopes, name) == Some(p) && p is Stack && p.type_of() == Some(t)
                &&& #[trigger] value(n, p) == value(m, v)
                &&& keeps(m, n, st.in_use)
                &&& only_stored(m, n, place(p), width(t))
            },
{
    let token = stmt->InitVar_1;
    lemma_operand_held(st, expr, s, v);
    assert(initialize(s, t, token, v) matches Step::Done(u, _) && u == after);
    law_expression_frames(st, expr);
    assert(s.scopes.len() > 0) by {
        reveal(framed);
    }
    law_slot(s, t, token);
    let declared = declare_variable(s, t, token)->Done_0;
    let p = lookup(declared.scopes, name)->0;
    let loaded = load(declared, v)->Done_0;
    assert(load(declared, v) is Done && loaded.scopes == declared.scopes);
    assert(variable(loaded, token) == Step::Done(loaded, p));
    let n = lemma_store_runs(st.in_use, declared, v, t, p, after.output, m);
    assert(comes_to(s.output, after.output, m, n));
    assert(value(n, p) == value(m, v));
}

/// The code of `return`, once that of its value has run, leaves the value in the
/// register that values are returned in, and then jumps to the end of the function.
pub proof fn law_return_runs(
    st: State,
    stmt: Stmt,
    function: Seq<char>,
    expr: Expr,
    s: State,
    v: Register,
    after: State,
    m: Machine,
)
    requires
        sound(st),
        stmt matches Stmt::Return(_, Some(x)) && x == expr,
        st.function == Some(function),
        execute(st, expr) == Step::Done(s, v),
        visit(st, stmt) matches Step::Done(u, _) && u == after,
        valid(m),
    ensures
        exists|moved: Seq<char>, n: Machine, jump: Seq<char>|
            {
                &&& #[trigger] comes_to(s.output, moved, m, n)
                &&& number(n, Place::InGpr(Gpr::Rax), width_of(v)) == value(m, v)
                &&& only_gpr(m, n, Gpr::Rax)
                &&& #[trigger] line(jump, "\tjmp"@, function + "_epilogue"@)
                &&& after.output == moved + jump
            },
{
    lemma_operand_held(st, expr, s, v);
    assert(return_value(s, function, v) matches Step::Done(u, _) && u == after);
    lemma_operand(v);
    lemma_blanks();
    let t = v.type_of()->0;
    let w = width(t);
    let rax = Place::InGpr(Gpr::Rax);
    let text = instruction("\tmov"@, Some(t), "    "@, v.operand(), return_operand(v))->0;
    lemma_instruction("\tmov"@, t, "    "@, v.operand()->0, return_operand(v)->0);
    let i = Instr::Mov(w, place(v), rax);
    assert(reads(text, i));
    lemma_one(s.output, text, i);
    let n = run(seq![i], m);
    lemma_read_range(m, place(v), w);
    lemma_put(m, rax, w, read(m, place(v), w));
    let moved = s.output + text;
    let jump = "\tjmp    "@ + function + "_epilogue\n"@;
    lemma_end_jump(function);
    assert(comes_to(s.output, moved, m, n));
    assert(after.output =~= moved + jump);
}

proof fn lemma_end_jump(function: Seq<char>)
    ensures
        line("\tjmp    "@ + function + "_epilogue\n"@, "\tjmp"@, function + "_epilogue"@),
{
    reveal_strlit("\tjmp    ");
    reveal_strlit("\tjmp");
    reveal_strlit("    ");
    reveal_strlit("_epilogue\n");
    reveal_strlit("_epilogue");
    reveal_strlit("\n");
    lemma_blanks();
    let jump = "\tjmp    "@ + function + "_epilogue\n"@;
    assert(jump =~= "\tjmp"@ + "    "@ + (function + "_epilogue"@) + "\n"@);
    lemma_line(jump, "\tjmp"@, "    "@, function + "_epilogue"@);
}

/// The code of `return` without a value is a jump to the end of the function.
pub proof fn law_return_nothing_runs(st: State, stmt: Stmt, function: Seq<char>, after: State)
    requires
        stmt matches Stmt::Return(_, None),
        st.function == Some(function),
        visit(st, stmt) matches Step::Done(u, _) && u == after,
    ensures
        exists|jump: Seq<char>| #[trigger]
            line(jump, "\tjmp"@, function + "_epilogue"@) && after.output == st.output + jump,
{
    lemma_end_jump(function);
    assert(after.output =~= st.output + ("\tjmp    "@ + function + "_epilogue\n"@));
}

} // verus!
