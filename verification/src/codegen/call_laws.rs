//! What calls and functions do when they are run: arguments come to the parameters
//! that they are meant for, registers and the stack are what they were, and the
//! value comes back.

use vstd::prelude::*;

use crate::codegen::ast::{Expr, ExprKind, Stmt};
use crate::codegen::flow_laws::alike;
use crate::codegen::machine::{
    exec, fetch, full, gpr_name, lemma_fetch_store, lemma_put, lemma_store, letter, line, name,
    number, pair, power, read, reads, run, written, Gpr, Instr, Machine, Place,
};
use crate::codegen::model::{
    aligned, allocate_stack, arguments, call, call_expr, declare_variable, emit, execute,
    function_definition, function_end, function_head, function_start, initialize, instruction, load,
    parameters, pass, room, room_back, statements, variable, visit, State, Step,
};
use crate::codegen::register::{argument_name, Register};
use crate::codegen::run_laws::{
    argument_gpr, comes_to, lemma_blanks, lemma_instruction, lemma_join, lemma_line, lemma_nothing,
    lemma_one, lemma_operand, lemma_read_range, only_gpr, place, valid, value, width, width_of,
};
use crate::codegen::stack_laws::law_slot;
use crate::codegen::statement_laws::{
    carried, law_aligned, law_statements_carry, lemma_parameters_carry, resized,
};
use crate::codegen::text::decimal;
use crate::common::environment::lookup;
use crate::common::token::Token;
use crate::common::types::NEWTypes;

verus! {

/// Whether a value is moved into the register of the `index`th argument.
pub open spec fn passes(u: State, v: Register, index: int, t: NEWTypes, next: State) -> bool {
    exists|text: Seq<char>|
        next.output == u.output + text && #[trigger] line(
            text,
            "\tmov"@ + letter(width(t)),
            pair(name(place(v), width_of(v)), gpr_name(argument_gpr(index), width(t))),
        )
}

/// What is moved into the register of an argument is the value of the argument.
pub proof fn law_passes(
    u: State,
    v: Register,
    index: int,
    t: NEWTypes,
    next: State,
    m: Machine,
)
    requires
        passes(u, v, index, t, next),
        width_of(v) == width(t) && width(t) > 0,
        valid(m),
    ensures
        exists|n: Machine|
            #[trigger] comes_to(u.output, next.output, m, n) && only_gpr(m, n, argument_gpr(index))
                && number(n, Place::InGpr(argument_gpr(index)), width(t)) == value(m, v),
{
    let w = width(t);
    let p = Place::InGpr(argument_gpr(index));
    let text = choose|text: Seq<char>|
        next.output == u.output + text && #[trigger] line(
            text,
            "\tmov"@ + letter(w),
            pair(name(place(v), width_of(v)), gpr_name(argument_gpr(index), w)),
        );
    let i = Instr::Mov(w, place(v), p);
    lemma_one(u.output, text, i);
    let n = run(seq![i], m);
    lemma_read_range(m, place(v), w);
    lemma_put(m, p, w, read(m, place(v), w));
    assert(comes_to(u.output, next.output, m, n));
}

/// The states of the code generator before each argument and behind the last one,
/// and the states and values once each argument is computed.
pub struct Passing {
    pub states: Seq<State>,
    pub computed: Seq<State>,
    pub values: Seq<Register>,
}

/// Whether arguments are computed one after the other, and the `k`th one is moved
/// into the register of the argument that is `k` behind the `first` one.
pub open spec fn passing(args: Seq<Expr>, first: int, way: Passing) -> bool {
    &&& way.states.len() == args.len() + 1
    &&& way.computed.len() == args.len() && way.values.len() == args.len()
    &&& forall|k: int|
        #![trigger args[k]]
        0 <= k < args.len() ==> {
            &&& execute(way.states[k], args[k]) == Step::Done(way.computed[k], way.values[k])
            &&& args[k].type_decl matches Some(t) && passes(
                way.computed[k],
                way.values[k],
                first + k,
                t,
                way.states[k + 1],
            )
            &&& alike(way.computed[k], way.states[k + 1])
        }
}

proof fn lemma_pass(u: State, v: Register, index: int, t: Option<NEWTypes>, next: State)
    requires
        0 <= index,
        pass(u, index, t, v) matches Step::Done(s, _) && s == next,
    ensures
        t matches Some(t) && passes(u, v, index, t, next),
        alike(u, next),
{
    let ty = t->0;
    lemma_operand(v);
    lemma_blanks();
    let text = instruction("\tmov"@, t, "    "@, v.operand(), argument_name(index, ty))->0;
    lemma_instruction("\tmov"@, ty, "    "@, v.operand()->0, argument_name(index, ty)->0);
    assert(argument_name(index, ty)->0 == gpr_name(argument_gpr(index), width(ty)));
    assert(next.output == u.output + text);
}

proof fn lemma_arguments(st: State, args: Seq<Expr>, i: int, ready: State) -> (way: Passing)
    requires
        0 <= i,
        arguments(st, args, i) matches Step::Done(s, _) && s == ready,
    ensures
        passing(args, i, way),
        way.states[0] == st,
        way.states.last() == ready,
    decreases args.len(),
{
    if args.len() == 0 {
        Passing { states: seq![st], computed: Seq::empty(), values: Seq::empty() }
    } else {
        let (u, v) = (execute(st, args[0])->Done_0, execute(st, args[0])->Done_1);
        let next = pass(u, i, args[0].type_decl, v)->Done_0;
        lemma_pass(u, v, i, args[0].type_decl, next);
        let rest = lemma_arguments(next, args.drop_first(), i + 1, ready);
        let way = Passing {
            states: seq![st] + rest.states,
            computed: seq![u] + rest.computed,
            values: seq![v] + rest.values,
        };
        assert forall|k: int|
            #![trigger args[k]]
            0 <= k < args.len() implies execute(way.states[k], args[k]) == Step::Done(
            way.computed[k],
            way.values[k],
        ) && (args[k].type_decl matches Some(t) && passes(
            way.computed[k],
            way.values[k],
            i + k,
            t,
            way.states[k + 1],
        )) && alike(way.computed[k], way.states[k + 1]) by {
            if k > 0 {
                assert(args.drop_first()[k - 1] == args[k]);
                assert(way.states[k] == rest.states[k - 1]);
                assert(way.states[k + 1] == rest.states[k]);
                assert(way.computed[k] == rest.computed[k - 1]);
                assert(way.values[k] == rest.values[k - 1]);
            } else {
                assert(way.states[1] == rest.states[0]);
            }
        }
        way
    }
}

/// A call computes its arguments one after the other and moves each of them, at
/// most six, into the register that the calling convention has for it: `%rdi`,
/// `%rsi`, `%rdx`, `%rcx`, `%r8` and `%r9`. The call itself comes next.
pub proof fn law_arguments_run(
    st: State,
    e: Expr,
    function: Seq<char>,
    args: Seq<Expr>,
    t: NEWTypes,
    after: State,
    result: Register,
)
    requires
        e.kind matches ExprKind::Call { callee, args: a, .. } && a@ == args && (
        callee.kind matches ExprKind::Ident(token) && token.name() == Some(function)),
        e.type_decl == Some(t),
        execute(st, e) == Step::Done(after, result),
    ensures
        args.len() <= 6,
        exists|way: Passing|
            #[trigger] passing(args, 0, way) && way.states[0] == st && call(
                way.states.last(),
                function,
                t,
            ) == Step::Done(after, result),
{
    let callee = *e.kind->Call_callee;
    assert(execute(st, e) == call_expr(st, callee, args, t));
    let ready = arguments(st, args, 0)->Done_0;
    assert(arguments(st, args, 0) is Done);
    let way = lemma_arguments(st, args, 0, ready);
    assert(passing(args, 0, way));
}

/// Whether the register of the `index`th argument is stored in the slot of a new
/// variable.
pub open spec fn receives(
    st: State,
    index: int,
    param: (NEWTypes, Token),
    next: State,
) -> bool {
    exists|p: Register, text: Seq<char>|
        {
            &&& param.1.name() matches Some(n) && lookup(next.scopes, n) == Some(p)
            &&& p is Stack && p.type_of() == Some(param.0)
            &&& next.output == st.output + text
            &&& #[trigger] reads(
                text,
                Instr::Mov(width(param.0), Place::InGpr(argument_gpr(index)), place(p)),
            )
        }
}

proof fn lemma_receives(st: State, index: int, param: (NEWTypes, Token), next: State)
    requires
        st.scopes.len() > 0,
        0 <= index <= usize::MAX,
        initialize(st, param.0, param.1, Register::Arg(index as usize, param.0)) matches Step::Done(
            s,
            _,
        ) && s == next,
    ensures
        receives(st, index, param, next),
        next.scopes.len() > 0,
        index < 6,
{
    let (t, token) = param;
    let arg = Register::Arg(index as usize, t);
    law_slot(st, t, token);
    let declared = declare_variable(st, t, token)->Done_0;
    let n = token.name()->0;
    let p = lookup(declared.scopes, n)->0;
    assert(load(declared, arg) == Step::Done(declared, arg));
    assert(variable(declared, token) == Step::Done(declared, p));
    lemma_operand(p);
    lemma_operand(arg);
    lemma_blanks();
    let text = instruction("\tmov"@, Some(t), "    "@, arg.operand(), p.operand())->0;
    lemma_instruction("\tmov"@, t, "    "@, arg.operand()->0, p.operand()->0);
    assert(gpr_name(argument_gpr(index), width(t)) == arg.operand()->0);
    let i = Instr::Mov(width(t), Place::InGpr(argument_gpr(index)), place(p));
    assert(reads(text, i));
    assert(next.output == st.output + text);
}

/// Whether the `k`th parameter is stored, where the `i`th is the first one.
spec fn stored(params: Seq<(NEWTypes, Token)>, i: int, states: Seq<State>, k: int) -> bool {
    k < 6 && receives(states[k - i], k, params[k], states[k - i + 1])
}

proof fn lemma_parameters(
    st: State,
    params: Seq<(NEWTypes, Token)>,
    i: int,
    begun: State,
) -> (states: Seq<State>)
    requires
        st.scopes.len() > 0,
        0 <= i <= params.len() && params.len() <= usize::MAX,
        parameters(st, params, i) matches Step::Done(s, _) && s == begun,
    ensures
        states.len() == params.len() - i + 1,
        states[0] == st,
        states.last() == begun,
        begun.scopes.len() > 0,
        forall|k: int| i <= k < params.len() ==> #[trigger] stored(params, i, states, k),
    decreases params.len() - i,
{
    if i < params.len() {
        let arg = Register::Arg(i as usize, params[i].0);
        let next = initialize(st, params[i].0, params[i].1, arg)->Done_0;
        lemma_receives(st, i, params[i], next);
        let rest = lemma_parameters(next, params, i + 1, begun);
        let states = seq![st] + rest;
        assert forall|k: int| i <= k < params.len() implies #[trigger] stored(
            params,
            i,
            states,
            k,
        ) by {
            let d = k - i;
            assert(states[d + 1] == rest[d]);
            if d > 0 {
                assert(states[d] == rest[d - 1]);
                assert(k - (i + 1) == d - 1 && k - (i + 1) + 1 == d);
                assert(stored(params, i + 1, rest, k));
            } else {
                assert(states[0] == st && rest[0] == next);
                assert(receives(st, i, params[i], next));
            }
        }
        states
    } else {
        seq![st]
    }
}

/// How the code of a function starts, up to its label.
pub open spec fn entry(function: Seq<char>) -> Seq<char> {
    "\n\t.text\n\t.globl _"@ + function + "\n_"@ + function + ":\n"@
}

/// Whether the machine has pushed the base pointer, put it where it was pushed to,
/// and made room for so many bytes.
pub open spec fn entered(m: Machine, n: Machine, size: int) -> bool {
    let base = m.gpr[Gpr::Rsp] - 8;
    &&& n.gpr[Gpr::Rbp] == base
    &&& n.gpr[Gpr::Rsp] == base - size
    &&& fetch(n.bytes, base, 8) == m.gpr[Gpr::Rbp]
    &&& forall|a: int| a < base || base + 8 <= a ==> #[trigger] n.bytes[a] == m.bytes[a]
    &&& forall|g: Gpr| g != Gpr::Rbp && g != Gpr::Rsp ==> #[trigger] n.gpr[g] == m.gpr[g]
}

/// Whether the machine has given the room back and popped the base pointer.
pub open spec fn left(m: Machine, n: Machine, size: int) -> bool {
    &&& n.gpr[Gpr::Rsp] == m.gpr[Gpr::Rsp] + size + 8
    &&& n.gpr[Gpr::Rbp] == fetch(m.bytes, m.gpr[Gpr::Rsp] + size, 8)
    &&& n.bytes == m.bytes
    &&& forall|g: Gpr| g != Gpr::Rbp && g != Gpr::Rsp ==> #[trigger] n.gpr[g] == m.gpr[g]
}

/// Room on the stack, made and given back.
pub(crate) proof fn lemma_room(size: nat)
    requires
        size > 0,
    ensures
        reads(
            room(size),
            Instr::Sub(8, Place::Number(size as int), Place::InGpr(Gpr::Rsp)),
        ),
        reads(
            room_back(size),
            Instr::Add(8, Place::Number(size as int), Place::InGpr(Gpr::Rsp)),
        ),
{
    reveal_strlit("\tsubq    $");
    reveal_strlit("\taddq    $");
    reveal_strlit("\tsub");
    reveal_strlit("\tadd");
    reveal_strlit("q");
    reveal_strlit("    ");
    reveal_strlit("$");
    reveal_strlit(",%rsp\n");
    reveal_strlit(",");
    reveal_strlit("%rsp");
    reveal_strlit("\n");
    lemma_blanks();
    let tail = ("$"@ + decimal(size as int)) + ","@ + "%rsp"@;
    assert(room(size) =~= ("\tsub"@ + "q"@) + "    "@ + tail + "\n"@);
    assert(room_back(size) =~= ("\tadd"@ + "q"@) + "    "@ + tail + "\n"@);
    lemma_line(room(size), "\tsub"@ + "q"@, "    "@, tail);
    lemma_line(room_back(size), "\tadd"@ + "q"@, "    "@, tail);
}

/// Moving the stack pointer within memory.
pub(crate) proof fn lemma_stack_pointer(m: Machine, size: int)
    requires
        valid(m),
        0 <= size < full(8),
    ensures
        ({
            let rsp = Place::InGpr(Gpr::Rsp);
            let n = exec(Instr::Sub(8, Place::Number(size), rsp), m);
            size <= m.gpr[Gpr::Rsp] ==> n.gpr[Gpr::Rsp] == m.gpr[Gpr::Rsp] - size && only_gpr(
                m,
                n,
                Gpr::Rsp,
            )
        }),
        ({
            let rsp = Place::InGpr(Gpr::Rsp);
            let n = exec(Instr::Add(8, Place::Number(size), rsp), m);
            m.gpr[Gpr::Rsp] + size < full(8) ==> n.gpr[Gpr::Rsp] == m.gpr[Gpr::Rsp] + size
                && only_gpr(m, n, Gpr::Rsp)
        }),
{
    let rsp = Place::InGpr(Gpr::Rsp);
    let x = m.gpr[Gpr::Rsp];
    assert(0 <= x < full(8));
    vstd::arithmetic::div_mod::lemma_small_mod(x as nat, full(8) as nat);
    vstd::arithmetic::div_mod::lemma_small_mod(size as nat, full(8) as nat);
    let by = number(m, Place::Number(size), 8);
    assert(by == size || by == size - full(8));
    let s = number(m, rsp, 8);
    assert(s == x || s == x - full(8));
    if size <= x {
        lemma_wrapped(s - by, x - size);
        lemma_put(m, rsp, 8, s - by);
    }
    if x + size < full(8) {
        lemma_wrapped(s + by, x + size);
        lemma_put(m, rsp, 8, s + by);
    }
}

proof fn lemma_wrapped(y: int, x: int)
    requires
        0 <= x < full(8),
        y == x || y == x - full(8) || y == x + full(8) || y == x - 2 * full(8),
    ensures
        y % full(8) == x,
{
    let unit = full(8);
    vstd::arithmetic::div_mod::lemma_small_mod(x as nat, unit as nat);
    vstd::arithmetic::div_mod::lemma_mod_add_multiples_vanish(x - unit, unit);
    vstd::arithmetic::div_mod::lemma_mod_add_multiples_vanish(x, unit);
    vstd::arithmetic::div_mod::lemma_mod_add_multiples_vanish(x - 2 * unit, unit);
}

/// The start of a function.
proof fn lemma_entered(before: Seq<char>, size: nat) -> (code: Seq<Instr>)
    ensures
        written(
            before,
            code,
            before + ("\tpushq   %rbp\n\tmovq    %rsp, %rbp\n"@ + room(size)),
        ),
        forall|m: Machine|
            valid(m) && m.gpr[Gpr::Rsp] >= 8 + size ==> entered(
                m,
                #[trigger] run(code, m),
                size as int,
            ),
{
    reveal_strlit("\tpushq   %rbp\n\tmovq    %rsp, %rbp\n");
    reveal_strlit("\tpushq");
    reveal_strlit("   ");
    reveal_strlit("%rbp");
    reveal_strlit("\n");
    reveal_strlit("\tmov");
    reveal_strlit("q");
    reveal_strlit("    ");
    reveal_strlit("%rsp");
    reveal_strlit(", ");
    lemma_blanks();
    let t1 = "\tpushq"@ + "   "@ + "%rbp"@ + "\n"@;
    let t2 = ("\tmov"@ + "q"@) + "    "@ + pair("%rsp"@, "%rbp"@) + "\n"@;
    assert("\tpushq   %rbp\n\tmovq    %rsp, %rbp\n"@ =~= t1 + t2);
    lemma_line(t1, "\tpushq"@, "   "@, "%rbp"@);
    lemma_line(t2, "\tmov"@ + "q"@, "    "@, pair("%rsp"@, "%rbp"@));
    let i1 = Instr::Push(Gpr::Rbp);
    let i2 = Instr::Mov(8, Place::InGpr(Gpr::Rsp), Place::InGpr(Gpr::Rbp));
    let i3 = Instr::Sub(8, Place::Number(size as int), Place::InGpr(Gpr::Rsp));
    lemma_one(before, t1, i1);
    lemma_one(before + t1, t2, i2);
    lemma_join(before, seq![i1], before + t1, seq![i2], before + t1 + t2);
    let c1 = seq![i1] + seq![i2];
    let half = before + t1 + t2;
    let after = before + ("\tpushq   %rbp\n\tmovq    %rsp, %rbp\n"@ + room(size));
    let c2 = if size > 0 {
        lemma_room(size);
        lemma_one(half, room(size), i3);
        assert(after =~= half + room(size));
        seq![i3]
    } else {
        lemma_nothing(half);
        assert(after =~= half);
        Seq::empty()
    };
    lemma_join(before, c1, half, c2, after);
    let code = c1 + c2;
    assert forall|m: Machine| valid(m) && m.gpr[Gpr::Rsp] >= 8 + size implies entered(
        m,
        #[trigger] run(code, m),
        size as int,
    ) by {
        lemma_entered_runs(m, size as int);
        let b = exec(i2, exec(i1, m));
        assert(run(c1, m) == b) by {
            assert(run(seq![i1], m) == exec(i1, m));
            assert(run(seq![i2], exec(i1, m)) == b);
        }
        if size > 0 {
            assert(run(c2, b) == exec(i3, b));
        } else {
            assert(run(c2, b) == b);
        }
    }
    code
}

proof fn lemma_entered_runs(m: Machine, size: int)
    requires
        valid(m),
        0 <= size,
        m.gpr[Gpr::Rsp] >= 8 + size,
    ensures
        ({
            let a = exec(Instr::Push(Gpr::Rbp), m);
            let b = exec(Instr::Mov(8, Place::InGpr(Gpr::Rsp), Place::InGpr(Gpr::Rbp)), a);
            let c = exec(Instr::Sub(8, Place::Number(size), Place::InGpr(Gpr::Rsp)), b);
            entered(m, c, size) && (size == 0 ==> entered(m, b, size))
        }),
{
    let top = m.gpr[Gpr::Rsp] - 8;
    let a = exec(Instr::Push(Gpr::Rbp), m);
    lemma_store(m.bytes, top, 8, m.gpr[Gpr::Rbp]);
    lemma_fetch_store(m.bytes, top, 8, m.gpr[Gpr::Rbp]);
    assert(power(8) == full(8)) by {
        reveal_with_fuel(power, 9);
    }
    assert(0 <= m.gpr[Gpr::Rbp] < full(8));
    assert(0 <= m.gpr[Gpr::Rsp] < full(8));
    vstd::arithmetic::div_mod::lemma_small_mod(m.gpr[Gpr::Rbp] as nat, full(8) as nat);
    vstd::arithmetic::div_mod::lemma_small_mod(top as nat, full(8) as nat);
    let b = exec(Instr::Mov(8, Place::InGpr(Gpr::Rsp), Place::InGpr(Gpr::Rbp)), a);
    assert(b.gpr[Gpr::Rbp] == top && b.gpr[Gpr::Rsp] == top);
    // moving the stack pointer looks at nothing but the registers
    let plain = Machine { bytes: m.bytes, ..b };
    assert(valid(plain)) by {
        assert forall|g: Gpr| 0 <= #[trigger] plain.gpr[g] < full(8) by {
            assert(0 <= m.gpr[g] < full(8));
        }
    }
    lemma_stack_pointer(plain, size);
    let c = exec(Instr::Sub(8, Place::Number(size), Place::InGpr(Gpr::Rsp)), b);
    let d = exec(Instr::Sub(8, Place::Number(size), Place::InGpr(Gpr::Rsp)), plain);
    assert(c.gpr =~= d.gpr && c.bytes == b.bytes);
}

/// The end of a function.
proof fn lemma_left(before: Seq<char>, size: nat) -> (code: Seq<Instr>)
    ensures
        written(before, code, before + (room_back(size) + "\tpopq    %rbp\n"@)),
        forall|m: Machine|
            valid(m) && m.gpr[Gpr::Rsp] + size < full(8) ==> left(
                m,
                #[trigger] run(code, m),
                size as int,
            ),
{
    reveal_strlit("\tpopq    %rbp\n");
    reveal_strlit("\tpopq");
    reveal_strlit("    ");
    reveal_strlit("%rbp");
    reveal_strlit("\n");
    lemma_blanks();
    let text = "\tpopq    %rbp\n"@;
    assert(text =~= "\tpopq"@ + "    "@ + "%rbp"@ + "\n"@);
    lemma_line(text, "\tpopq"@, "    "@, "%rbp"@);
    let i1 = Instr::Add(8, Place::Number(size as int), Place::InGpr(Gpr::Rsp));
    let i2 = Instr::Pop(Gpr::Rbp);
    let c1 = if size > 0 {
        lemma_room(size);
        lemma_one(before, room_back(size), i1);
        seq![i1]
    } else {
        lemma_nothing(before);
        assert(before + room_back(size) =~= before);
        Seq::empty()
    };
    let half = before + room_back(size);
    lemma_one(half, text, i2);
    lemma_join(before, c1, half, seq![i2], half + text);
    assert(half + text =~= before + (room_back(size) + text));
    let code = c1 + seq![i2];
    assert forall|m: Machine| valid(m) && m.gpr[Gpr::Rsp] + size < full(8) implies left(
        m,
        #[trigger] run(code, m),
        size as int,
    ) by {
        lemma_stack_pointer(m, size as int);
        if size > 0 {
            assert(run(c1, m) == exec(i1, m));
        } else {
            assert(run(c1, m) == m);
        }
        assert(run(seq![i2], run(c1, m)) == exec(i2, run(c1, m)));
    }
    code
}

/// Whether the lines from one text to the other enter a function that needs so many
/// bytes.
pub open spec fn enters(before: Seq<char>, after: Seq<char>, size: nat) -> bool {
    exists|code: Seq<Instr>| #[trigger]
        written(before, code, after) && forall|m: Machine|
            valid(m) && m.gpr[Gpr::Rsp] >= 8 + size ==> entered(
                m,
                #[trigger] run(code, m),
                size as int,
            )
}

/// Whether the lines from one text to the other leave a function that needs so many
/// bytes.
pub open spec fn leaves(before: Seq<char>, after: Seq<char>, size: nat) -> bool {
    exists|code: Seq<Instr>| #[trigger]
        written(before, code, after) && forall|m: Machine|
            valid(m) && m.gpr[Gpr::Rsp] + size < full(8) ==> left(
                m,
                #[trigger] run(code, m),
                size as int,
            )
}

/// Entering and leaving a function restores both pointers, where the stack pointer
/// and the base pointer that was pushed are left alone in between.
pub proof fn law_enter_leave(m: Machine, n: Machine, x: Machine, y: Machine, size: nat)
    requires
        entered(m, n, size as int),
        x.gpr[Gpr::Rsp] == n.gpr[Gpr::Rsp],
        fetch(x.bytes, n.gpr[Gpr::Rbp], 8) == fetch(n.bytes, n.gpr[Gpr::Rbp], 8),
        left(x, y, size as int),
    ensures
        y.gpr[Gpr::Rsp] == m.gpr[Gpr::Rsp],
        y.gpr[Gpr::Rbp] == m.gpr[Gpr::Rbp],
{
}

/// A function pushes the base pointer and makes room for its variables, stores each
/// argument in the slot of the parameter that it is meant for, and runs its body.
/// At its end it gives the same room back and pops the base pointer: where the body
/// has left the stack pointer and what was pushed alone, both pointers are what
/// they were when the function was entered.
#[verifier::rlimit(50)]
pub proof fn law_function_runs(
    st: State,
    stmt: Stmt,
    function: Seq<char>,
    params: Seq<(NEWTypes, Token)>,
    body: Seq<Stmt>,
    after: State,
)
    requires
        stmt matches Stmt::Function(_, token, p, b) && token.name() == Some(function) && p@
            == params && b@ == body,
        visit(st, stmt) matches Step::Done(s, _) && s == after,
        st.scopes.len() > 0,
    ensures
        params.len() <= 6,
        exists|states: Seq<State>, end: State, size: nat, done: Seq<char>|
            {
                &&& states.len() == params.len() + 1
                &&& st.stack_sizes[function] <= size < st.stack_sizes[function] + 16 && size % 16
                    == 0
                &&& #[trigger] enters(st.output + entry(function), states[0].output, size)
                &&& forall|k: int|
                    #![trigger params[k]]
                    0 <= k < params.len() ==> receives(states[k], k, params[k], states[k + 1])
                &&& states[0].scopes == st.scopes && states[0].function == Some(function)
                &&& statements(states.last(), body) matches Step::Done(s, _) && s == end
                &&& #[trigger] leaves(end.output + (function + "_epilogue:\n"@), done, size)
                &&& after.output == done + "\tret\n"@
            },
{
    assert(visit(st, stmt) == function_definition(st, function, params, body));
    assert(stmt->Function_2.len() == params.len());
    let size = aligned(st.stack_sizes[function] as nat, 16);
    let (roomy, begun, end) = lemma_function_parts(st, function, params, body, after);
    let states = lemma_parameters(roomy, params, 0, begun);
    if params.len() > 6 {
        assert(stored(params, 0, states, 6));
    }
    let start = st.output + entry(function);
    let closing = end.output + (function + "_epilogue:\n"@);
    let done = lemma_function_texts(st, function, roomy, end, after, size);
    assert forall|k: int|
        #![trigger params[k]]
        0 <= k < params.len() implies receives(states[k], k, params[k], states[k + 1]) by {
        assert(stored(params, 0, states, k));
    }
    assert(enters(start, states[0].output, size));
    assert(leaves(closing, done, size));
}

/// The states of the code generator in a function.
#[verifier::rlimit(50)]
proof fn lemma_function_parts(
    st: State,
    function: Seq<char>,
    params: Seq<(NEWTypes, Token)>,
    body: Seq<Stmt>,
    after: State,
) -> (parts: (State, State, State))
    requires
        function_definition(st, function, params, body) matches Step::Done(s, _) && s == after,
        st.scopes.len() > 0,
    ensures
        ({
            let (roomy, begun, end) = parts;
            let size = aligned(st.stack_sizes[function] as nat, 16);
            &&& st.stack_sizes[function] <= size < st.stack_sizes[function] + 16 && size % 16 == 0
            &&& roomy.output == st.output + function_head(function) + room(size)
            &&& roomy.scopes == st.scopes && roomy.function == Some(function)
            &&& parameters(roomy, params, 0) matches Step::Done(s, _) && s == begun
            &&& statements(begun, body) matches Step::Done(s, _) && s == end
            &&& after.output == end.output + (function + "_epilogue:\n"@) + room_back(size)
                + "\tpopq    %rbp\n\tret\n"@
        }),
{
    let named = State { function: Some(function), ..st };
    let size = aligned(st.stack_sizes[function] as nat, 16);
    let started = emit(named, function_head(function));
    let roomy = allocate_stack(started, function)->Done_0;
    assert(allocate_stack(started, function) is Done);
    let begun = function_start(named, function, params)->Done_0;
    law_aligned(st.stack_sizes[function] as nat, 16);
    assert(roomy.stack_sizes[function] == size);
    lemma_parameters_carry(false, roomy, params, 0);
    assert(begun.stack_sizes[function] == size && begun.scopes.len() > 0) by {
        reveal(carried);
        assert(resized(roomy.stack_sizes, begun.stack_sizes));
        assert(begun.stack_sizes.contains_key(function));
    }
    law_statements_carry(begun, body);
    let end = statements(begun, body)->Done_0;
    assert(statements(begun, body) is Done);
    assert(end.stack_sizes[function] == size) by {
        reveal(carried);
        assert(resized(begun.stack_sizes, end.stack_sizes));
        assert(end.stack_sizes.contains_key(function));
    }
    assert(function_end(end, function) is Done);
    assert(after.output == function_end(end, function)->Done_0.output);
    (roomy, begun, end)
}

/// What stands before and behind the body of a function.
proof fn lemma_function_texts(
    st: State,
    function: Seq<char>,
    roomy: State,
    end: State,
    after: State,
    size: nat,
) -> (done: Seq<char>)
    requires
        roomy.output == st.output + function_head(function) + room(size),
        after.output == end.output + (function + "_epilogue:\n"@) + room_back(size)
            + "\tpopq    %rbp\n\tret\n"@,
    ensures
        enters(st.output + entry(function), roomy.output, size),
        leaves(end.output + (function + "_epilogue:\n"@), done, size),
        after.output == done + "\tret\n"@,
{
    let start = st.output + entry(function);
    let head = "\tpushq   %rbp\n\tmovq    %rsp, %rbp\n"@;
    let first = lemma_entered(start, size);
    assert(":\n\tpushq   %rbp\n\tmovq    %rsp, %rbp\n"@ == ":\n"@ + head) by {
        reveal_strlit(":\n\tpushq   %rbp\n\tmovq    %rsp, %rbp\n");
        reveal_strlit(":\n");
        reveal_strlit("\tpushq   %rbp\n\tmovq    %rsp, %rbp\n");
        assert(":\n\tpushq   %rbp\n\tmovq    %rsp, %rbp\n"@ =~= ":\n"@ + head);
    }
    assert(function_head(function) =~= entry(function) + head);
    assert(roomy.output =~= start + (head + room(size)));
    let closing = end.output + (function + "_epilogue:\n"@);
    let last = lemma_left(closing, size);
    let done = closing + (room_back(size) + "\tpopq    %rbp\n"@);
    assert("\tpopq    %rbp\n\tret\n"@ == "\tpopq    %rbp\n"@ + "\tret\n"@) by {
        reveal_strlit("\tpopq    %rbp\n\tret\n");
        reveal_strlit("\tpopq    %rbp\n");
        reveal_strlit("\tret\n");
        assert("\tpopq    %rbp\n\tret\n"@ =~= "\tpopq    %rbp\n"@ + "\tret\n"@);
    }
    assert(after.output =~= done + "\tret\n"@);
    done
}

} // verus!
