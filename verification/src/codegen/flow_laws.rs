//! Which way the code of loops, branches and short-circuiting operators goes when
//! it is run.
//!
//! A program is a text, and the machine is at some position of it. Where a law
//! speaks of the code of a part, as of the body of a loop, it takes that code as
//! it is and says when the machine comes to its start and where it goes on from
//! its end.

use vstd::prelude::*;

use crate::codegen::ast::{Expr, ExprKind, Stmt};
use crate::codegen::frame_laws::{framed, law_expression_frames, starts_with};
use crate::codegen::label_laws::appended;
use crate::codegen::label_text::{defines, one_line_operand, whole_lines};
use crate::codegen::machine::{
    cond_name, exec, holds, is_width, line, name, pair, put, reads, Cond, Instr, Machine, Place,
};
use crate::codegen::model::{
    and_expr, and_left, and_right, either, emit, execute, if_statement, instruction, jump_line,
    label_line, logical_expr, next_label, only, or_expr, or_left, or_right, test_condition, visit,
    zero_test, State, Step,
};
use crate::codegen::register::Register;
use crate::codegen::run_laws::{
    lemma_blanks, lemma_instruction, lemma_line, lemma_operand, place, value, width_of,
};
use crate::codegen::statement_label_laws::{law_statement_labels, stmt_on_one_line};
use crate::codegen::statement_laws::{carried, law_statement_carries};
use crate::codegen::text::decimal;
use crate::common::token::TokenType;
use crate::common::types::{NEWTypes, Types};

verus! {

/// Whether a text stands at a position of a program.
pub open spec fn stands(program: Seq<char>, at: int, text: Seq<char>) -> bool {
    &&& 0 <= at
    &&& at + text.len() <= program.len()
    &&& forall|i: int| 0 <= i < text.len() ==> program[at + i] == #[trigger] text[i]
}

/// How a label is written.
pub open spec fn label_name(n: nat) -> Seq<char> {
    "L"@ + decimal(n as int)
}

/// Whether a line at a position of a program defines a label, and `next` is where
/// the line after it starts.
pub open spec fn label_at(program: Seq<char>, n: nat, at: int, next: int) -> bool {
    &&& stands(program, at, label_name(n) + ":\n"@)
    &&& at > 0 ==> program[at - 1] == '\n'
    &&& next == at + label_name(n).len() + 2
}

/// Whether a program defines a label, and `next` is where the line after it
/// starts.
pub open spec fn lands(program: Seq<char>, n: nat, next: int) -> bool {
    exists|at: int| #[trigger] label_at(program, n, at, next)
}

/// Whether a text is a jump to a label.
pub open spec fn jumps(text: Seq<char>, cond: Option<Cond>, n: nat) -> bool {
    match cond {
        None => line(text, "\tjmp"@, label_name(n)),
        Some(cond) => line(text, "\tj"@ + cond_name(cond), label_name(n)),
    }
}

/// Whether the machine runs an instruction at `at`.
pub open spec fn performs(
    program: Seq<char>,
    at: int,
    m: Machine,
    next: int,
    n: Machine,
    text: Seq<char>,
    i: Instr,
) -> bool {
    stands(program, at, text) && reads(text, i) && next == at + text.len() && n == exec(i, m)
}

/// Whether the machine runs a jump at `at`.
pub open spec fn turns(
    program: Seq<char>,
    at: int,
    m: Machine,
    next: int,
    text: Seq<char>,
    cond: Option<Cond>,
    label: nat,
) -> bool {
    &&& stands(program, at, text)
    &&& jumps(text, cond, label)
    &&& if cond is None || holds(m, cond->0) {
        lands(program, label, next)
    } else {
        next == at + text.len()
    }
}

/// Whether the machine goes from one position to another by running one line.
pub open spec fn steps(program: Seq<char>, at: int, m: Machine, next: int, n: Machine) -> bool {
    ||| exists|text: Seq<char>, i: Instr| #[trigger] performs(program, at, m, next, n, text, i)
    ||| n == m && exists|text: Seq<char>, cond: Option<Cond>, label: nat| #[trigger]
        turns(program, at, m, next, text, cond, label)
    ||| n == m && exists|label: nat| #[trigger] label_at(program, label, at, next)
}

/// Whether the machine goes from one position to another by running `k` lines.
pub open spec fn reaches_in(
    k: nat,
    program: Seq<char>,
    at: int,
    m: Machine,
    next: int,
    n: Machine,
) -> bool
    decreases k,
{
    if k == 0 {
        at == next && m == n
    } else {
        exists|a: int, x: Machine| #[trigger]
            steps(program, at, m, a, x) && reaches_in((k - 1) as nat, program, a, x, next, n)
    }
}

/// Whether the machine goes from one position to another.
pub open spec fn reaches(program: Seq<char>, at: int, m: Machine, next: int, n: Machine) -> bool {
    exists|k: nat| #[trigger] reaches_in(k, program, at, m, next, n)
}

/// Whether the machine goes from one position to another and nothing else
/// changes, whatever it holds.
pub open spec fn leads(program: Seq<char>, at: int, next: int) -> bool {
    forall|m: Machine| #[trigger] reaches(program, at, m, next, m)
}

/// Whether the machine goes on at `unequal` where the operands of the last `cmp`
/// were not equal, and at `equal` where they were.
pub open spec fn forks(program: Seq<char>, at: int, unequal: int, equal: int) -> bool {
    &&& forall|m: Machine|
        m.compared.0 != m.compared.1 ==> #[trigger] reaches(program, at, m, unequal, m)
    &&& forall|m: Machine|
        m.compared.0 == m.compared.1 ==> #[trigger] reaches(program, at, m, equal, m)
}

/// The machine once it has compared a value with 0.
pub open spec fn against_zero(m: Machine, v: Register) -> Machine {
    Machine { compared: (value(m, v), 0), ..m }
}

/// Whether the machine compares a value with 0.
pub open spec fn tests(program: Seq<char>, at: int, v: Register, next: int) -> bool {
    forall|m: Machine| #[trigger] reaches(program, at, m, next, against_zero(m, v))
}

/// Whether the machine compares four bytes of a place with 0, whatever type of
/// value is there.
pub open spec fn looks(program: Seq<char>, at: int, v: Register, next: int) -> bool {
    exists|text: Seq<char>|
        #[trigger] stands(program, at, text) && next == at + text.len() && line(
            text,
            "\tcmpl"@,
            pair(name(Place::Number(0), 4), name(place(v), width_of(v))),
        )
}

/// Whether the machine goes on at `nonzero` where a value is not 0, and at `zero`
/// where it is; `whole` is whether all bytes of the value are looked at, and no
/// others.
pub open spec fn decides(
    program: Seq<char>,
    at: int,
    v: Register,
    whole: bool,
    nonzero: int,
    zero: int,
) -> bool {
    exists|fork: int| #[trigger]
        forks(program, fork, nonzero, zero) && if whole {
            tests(program, at, v, fork)
        } else {
            looks(program, at, v, fork)
        }
}

/// Where a value decides, a machine that holds one that is not 0 goes on at
/// `nonzero`, and any other machine at `zero`.
pub proof fn law_decides(
    program: Seq<char>,
    at: int,
    v: Register,
    nonzero: int,
    zero: int,
    m: Machine,
)
    requires
        decides(program, at, v, true, nonzero, zero),
    ensures
        value(m, v) != 0 ==> reaches(program, at, m, nonzero, against_zero(m, v)),
        value(m, v) == 0 ==> reaches(program, at, m, zero, against_zero(m, v)),
{
    let fork = choose|fork: int| #[trigger]
        forks(program, fork, nonzero, zero) && tests(program, at, v, fork);
    let n = against_zero(m, v);
    let next = if value(m, v) != 0 {
        nonzero
    } else {
        zero
    };
    assert(reaches(program, at, m, fork, n));
    assert(reaches(program, fork, n, next, n));
    lemma_reach(program, at, m, fork, n, next, n);
}

/// Whether the code of a statement is the part of a program from one state of the
/// code generator to another.
pub open spec fn codes(program: Seq<char>, before: State, stmt: Stmt, after: State) -> bool {
    &&& visit(before, stmt) matches Step::Done(s, _) && s == after
    &&& starts_with(after.output, before.output)
    &&& starts_with(program, after.output)
}

/// Whether the code of an expression is the part of a program from one state of
/// the code generator to another.
pub open spec fn computes(
    program: Seq<char>,
    before: State,
    e: Expr,
    after: State,
    v: Register,
) -> bool {
    &&& execute(before, e) == Step::Done(after, v)
    &&& starts_with(after.output, before.output)
    &&& starts_with(program, after.output)
}

/// Whether two states differ in nothing but output, labels and the registers in
/// use.
pub open spec fn alike(s: State, t: State) -> bool {
    t == (State { output: t.output, labels: t.labels, in_use: t.in_use, ..s })
}

proof fn lemma_reach_in(
    k: nat,
    l: nat,
    program: Seq<char>,
    at: int,
    m: Machine,
    mid: int,
    x: Machine,
    next: int,
    n: Machine,
)
    requires
        reaches_in(k, program, at, m, mid, x),
        reaches_in(l, program, mid, x, next, n),
    ensures
        reaches_in(k + l, program, at, m, next, n),
    decreases k,
{
    if k > 0 {
        let (a, y) = choose|a: int, y: Machine| #[trigger]
            steps(program, at, m, a, y) && reaches_in((k - 1) as nat, program, a, y, mid, x);
        lemma_reach_in((k - 1) as nat, l, program, a, y, mid, x, next, n);
        assert(steps(program, at, m, a, y) && reaches_in(
            (k + l - 1) as nat,
            program,
            a,
            y,
            next,
            n,
        ));
    }
}

pub(crate) proof fn lemma_reach(
    program: Seq<char>,
    at: int,
    m: Machine,
    mid: int,
    x: Machine,
    next: int,
    n: Machine,
)
    requires
        reaches(program, at, m, mid, x),
        reaches(program, mid, x, next, n),
    ensures
        reaches(program, at, m, next, n),
{
    let k = choose|k: nat| #[trigger] reaches_in(k, program, at, m, mid, x);
    let l = choose|l: nat| #[trigger] reaches_in(l, program, mid, x, next, n);
    lemma_reach_in(k, l, program, at, m, mid, x, next, n);
}

pub(crate) proof fn lemma_step(program: Seq<char>, at: int, m: Machine, next: int, n: Machine)
    requires
        steps(program, at, m, next, n),
    ensures
        reaches(program, at, m, next, n),
{
    assert(reaches_in(0, program, next, n, next, n));
    assert(reaches_in(1, program, at, m, next, n));
}

/// What was appended stands where it was appended.
pub(crate) proof fn lemma_stands(program: Seq<char>, a: Seq<char>, text: Seq<char>)
    requires
        starts_with(program, a + text),
    ensures
        stands(program, a.len() as int, text),
        starts_with(program, a),
{
    assert forall|i: int| 0 <= i < text.len() implies program[a.len() + i] == #[trigger] text[i] by {
        assert((a + text)[a.len() + i] == text[i]);
    }
    assert forall|i: int| 0 <= i < a.len() implies #[trigger] program[i] == a[i] by {
        assert((a + text)[i] == a[i]);
    }
}

proof fn lemma_begins(a: Seq<char>, b: Seq<char>, c: Seq<char>)
    requires
        starts_with(a, b),
        starts_with(b, c),
    ensures
        starts_with(a, c),
{
    assert forall|i: int| 0 <= i < c.len() implies #[trigger] a[i] == c[i] by {
        assert(b[i] == c[i]);
    }
}

/// A label at the end of whole lines.
proof fn lemma_label(program: Seq<char>, a: Seq<char>, n: nat)
    requires
        whole_lines(a),
        starts_with(program, a + label_line(n)),
    ensures
        label_at(program, n, a.len() as int, (a + label_line(n)).len() as int),
        lands(program, n, (a + label_line(n)).len() as int),
        leads(program, a.len() as int, (a + label_line(n)).len() as int),
        whole_lines(a + label_line(n)),
{
    reveal_strlit("L");
    reveal_strlit(":\n");
    lemma_stands(program, a, label_line(n));
    assert(label_line(n) =~= label_name(n) + ":\n"@);
    if a.len() > 0 {
        assert(program[a.len() - 1] == a[a.len() - 1]);
    }
    let next = (a + label_line(n)).len() as int;
    assert(label_at(program, n, a.len() as int, next));
    assert forall|m: Machine| #[trigger] reaches(program, a.len() as int, m, next, m) by {
        assert(steps(program, a.len() as int, m, next, m));
        lemma_step(program, a.len() as int, m, next, m);
    }
}

/// The jumps of the code generator are jumps.
proof fn lemma_jumps(n: nat)
    ensures
        jumps(jump_line("\tjmp    L"@, n), None, n),
        jumps(jump_line("\tjmp     L"@, n), None, n),
        jumps(jump_line("\tje    L"@, n), Some(Cond::Equal), n),
        jumps(jump_line("\tjne    L"@, n), Some(Cond::NotEqual), n),
        jumps(jump_line("\tjne      L"@, n), Some(Cond::NotEqual), n),
        whole_lines(jump_line("\tjmp    L"@, n)),
        whole_lines(jump_line("\tjmp     L"@, n)),
        whole_lines(jump_line("\tje    L"@, n)),
        whole_lines(jump_line("\tjne    L"@, n)),
{
    reveal_strlit("L");
    reveal_strlit("e");
    reveal_strlit("ne");
    reveal_strlit("\tj");
    reveal_strlit("\tjmp");
    reveal_strlit("    ");
    reveal_strlit("     ");
    reveal_strlit("      ");
    reveal_strlit("\tjmp    L");
    reveal_strlit("\tjmp     L");
    reveal_strlit("\tje    L");
    reveal_strlit("\tjne    L");
    reveal_strlit("\tjne      L");
    reveal_strlit("\n");
    let l = label_name(n);
    assert(jump_line("\tjmp    L"@, n) =~= "\tjmp"@ + "    "@ + l + "\n"@);
    assert(jump_line("\tjmp     L"@, n) =~= "\tjmp"@ + "     "@ + l + "\n"@);
    assert(jump_line("\tje    L"@, n) =~= ("\tj"@ + "e"@) + "    "@ + l + "\n"@);
    assert(jump_line("\tjne    L"@, n) =~= ("\tj"@ + "ne"@) + "    "@ + l + "\n"@);
    assert(jump_line("\tjne      L"@, n) =~= ("\tj"@ + "ne"@) + "      "@ + l + "\n"@);
    lemma_line(jump_line("\tjmp    L"@, n), "\tjmp"@, "    "@, l);
    lemma_line(jump_line("\tjmp     L"@, n), "\tjmp"@, "     "@, l);
    lemma_line(jump_line("\tje    L"@, n), "\tj"@ + "e"@, "    "@, l);
    lemma_line(jump_line("\tjne    L"@, n), "\tj"@ + "ne"@, "    "@, l);
    lemma_line(jump_line("\tjne      L"@, n), "\tj"@ + "ne"@, "      "@, l);
}

/// A jump to a label.
proof fn lemma_jump(program: Seq<char>, a: Seq<char>, text: Seq<char>, n: nat, next: int)
    requires
        starts_with(program, a + text),
        jumps(text, None, n),
        lands(program, n, next),
    ensures
        leads(program, a.len() as int, next),
{
    lemma_stands(program, a, text);
    let at = a.len() as int;
    assert forall|m: Machine| #[trigger] reaches(program, at, m, next, m) by {
        assert(turns(program, at, m, next, text, None, n));
        lemma_step(program, at, m, next, m);
    }
}

/// A jump to a label where the operands of the last `cmp` were equal.
proof fn lemma_jump_equal(program: Seq<char>, a: Seq<char>, text: Seq<char>, n: nat, next: int)
    requires
        starts_with(program, a + text),
        jumps(text, Some(Cond::Equal), n),
        lands(program, n, next),
    ensures
        forks(program, a.len() as int, (a + text).len() as int, next),
{
    lemma_stands(program, a, text);
    let at = a.len() as int;
    let past = (a + text).len() as int;
    assert forall|m: Machine| m.compared.0 != m.compared.1 implies #[trigger] reaches(
        program,
        at,
        m,
        past,
        m,
    ) by {
        assert(turns(program, at, m, past, text, Some(Cond::Equal), n));
        lemma_step(program, at, m, past, m);
    }
    assert forall|m: Machine| m.compared.0 == m.compared.1 implies #[trigger] reaches(
        program,
        at,
        m,
        next,
        m,
    ) by {
        assert(turns(program, at, m, next, text, Some(Cond::Equal), n));
        lemma_step(program, at, m, next, m);
    }
}

/// A jump to a label where the operands of the last `cmp` were not equal.
proof fn lemma_jump_unequal(program: Seq<char>, a: Seq<char>, text: Seq<char>, n: nat, next: int)
    requires
        starts_with(program, a + text),
        jumps(text, Some(Cond::NotEqual), n),
        lands(program, n, next),
    ensures
        forks(program, a.len() as int, next, (a + text).len() as int),
{
    lemma_stands(program, a, text);
    let at = a.len() as int;
    let past = (a + text).len() as int;
    assert forall|m: Machine| m.compared.0 != m.compared.1 implies #[trigger] reaches(
        program,
        at,
        m,
        next,
        m,
    ) by {
        assert(turns(program, at, m, next, text, Some(Cond::NotEqual), n));
        lemma_step(program, at, m, next, m);
    }
    assert forall|m: Machine| m.compared.0 == m.compared.1 implies #[trigger] reaches(
        program,
        at,
        m,
        past,
        m,
    ) by {
        assert(turns(program, at, m, past, text, Some(Cond::NotEqual), n));
        lemma_step(program, at, m, past, m);
    }
}

/// A comparison with 0.
proof fn lemma_tests(program: Seq<char>, a: Seq<char>, text: Seq<char>, v: Register)
    requires
        starts_with(program, a + text),
        is_width(width_of(v)),
        reads(text, Instr::Cmp(width_of(v), Place::Number(0), place(v))),
    ensures
        tests(program, a.len() as int, v, (a + text).len() as int),
{
    lemma_stands(program, a, text);
    let at = a.len() as int;
    let next = (a + text).len() as int;
    let i = Instr::Cmp(width_of(v), Place::Number(0), place(v));
    assert forall|m: Machine| #[trigger]
        reaches(program, at, m, next, against_zero(m, v)) by {
        let n = against_zero(m, v);
        assert(exec(i, m) == n);
        assert(performs(program, at, m, next, n, text, i));
        lemma_step(program, at, m, next, n);
    }
}

/// Comparing four bytes with 0.
proof fn lemma_condition(v: Register)
    ensures
        v.operand() matches Some(operand) ==> {
            let text = "\tcmpl    $0, "@ + operand + "\n"@;
            &&& whole_lines(text)
            &&& line(text, "\tcmpl"@, pair(name(Place::Number(0), 4), name(place(v), width_of(v))))
            &&& width_of(v) == 4 ==> reads(text, Instr::Cmp(4, Place::Number(0), place(v)))
        },
{
    if let Some(operand) = v.operand() {
        lemma_operand(v);
        reveal_strlit("\tcmpl    $0, ");
        reveal_strlit("\tcmp");
        reveal_strlit("l");
        reveal_strlit("    ");
        reveal_strlit("$");
        reveal_strlit(", ");
        reveal_strlit("\n");
        let text = "\tcmpl    $0, "@ + operand + "\n"@;
        assert(decimal(0) =~= seq!['0']);
        let tail = pair("$"@ + decimal(0), operand);
        reveal_strlit("\tcmpl");
        assert("\tcmpl"@ =~= "\tcmp"@ + "l"@);
        assert(text =~= "\tcmpl"@ + "    "@ + tail + "\n"@);
        lemma_line(text, "\tcmpl"@, "    "@, tail);
    }
}

/// A statement leaves whole lines, and only appends to them.
proof fn lemma_statement_lines(st: State, stmt: Stmt)
    requires
        st.scopes.len() > 0,
        one_line_operand(st.function),
        stmt_on_one_line(stmt),
        whole_lines(st.output),
    ensures
        visit(st, stmt) matches Step::Done(after, _) ==> whole_lines(after.output) && starts_with(
            after.output,
            st.output,
        ) && after.scopes.len() > 0 && one_line_operand(after.function),
{
    law_statement_labels(st, stmt);
    law_statement_carries(st, stmt);
    if let Step::Done(after, _) = visit(st, stmt) {
        reveal(appended);
        reveal(defines);
        reveal(carried);
        let text = after.output.skip(st.output.len() as int);
        if text.len() > 0 {
            assert(after.output.last() == text.last());
        } else if after.output.len() > 0 {
            assert(after.output.last() == st.output.last());
        }
    }
}

/// A loop first goes to its condition, and so does the end of its body. Where the
/// condition is not 0, the next code to be run is that of the body; where it is 0,
/// it is what follows the loop.
#[verifier::rlimit(50)]
pub proof fn law_while_runs(
    st: State,
    stmt: Stmt,
    cond: Expr,
    body: Stmt,
    after: State,
    program: Seq<char>,
)
    requires
        stmt matches Stmt::While(_, c, b) && c == cond && *b == body,
        visit(st, stmt) matches Step::Done(s, _) && s == after,
        starts_with(program, after.output),
        st.scopes.len() > 0 && whole_lines(st.output),
        one_line_operand(st.function) && stmt_on_one_line(stmt),
    ensures
        exists|start: State, end: State, tested: State, decided: State, v: Register|
            {
                &&& #[trigger] codes(program, start, body, end)
                &&& #[trigger] computes(program, tested, cond, decided, v)
                &&& starts_with(start.output, st.output) && alike(st, start)
                &&& starts_with(tested.output, end.output) && alike(end, tested)
                &&& leads(program, st.output.len() as int, tested.output.len() as int)
                &&& leads(program, end.output.len() as int, tested.output.len() as int)
                &&& decides(
                    program,
                    decided.output.len() as int,
                    v,
                    width_of(v) == 4,
                    start.output.len() as int,
                    after.output.len() as int,
                )
            },
{
    let (first, last) = (st.labels, st.labels + 1);
    let jump = jump_line("\tjmp    L"@, last);
    let start = State {
        output: st.output + (jump + label_line(first)),
        labels: st.labels + 2,
        ..st
    };
    let end = visit(start, body)->Done_0;
    let tested = State { output: end.output + label_line(last), ..end };
    let decided = execute(tested, cond)->Done_0;
    let v = execute(tested, cond)->Done_1;
    assert(visit(start, body) is Done);
    assert(execute(tested, cond) is Done);
    lemma_jumps(first);
    lemma_jumps(last);
    let jumped = st.output + jump;
    assert(start.output =~= jumped + label_line(first));
    assert(whole_lines(jumped)) by {
        assert(jumped.last() == jump.last());
    }
    let operand = v.operand()->0;
    let compare = "\tcmpl    $0, "@ + operand + "\n"@;
    let back = jump_line("\tjne      L"@, first);
    lemma_condition(v);
    assert(after.output =~= (decided.output + compare) + back);
    // everything is a start of the program
    law_expression_frames(tested, cond);
    assert(starts_with(decided.output, tested.output)) by {
        reveal(framed);
    }
    lemma_stands(program, decided.output + compare, back);
    lemma_stands(program, decided.output, compare);
    lemma_begins(program, decided.output, tested.output);
    lemma_stands(program, end.output, label_line(last));
    law_statement_carries(start, body);
    assert(starts_with(end.output, start.output)) by {
        reveal(carried);
    }
    lemma_begins(program, end.output, start.output);
    lemma_stands(program, jumped, label_line(first));
    // where the labels are
    lemma_label(program, jumped, first);
    lemma_statement_lines(start, body);
    lemma_label(program, end.output, last);
    lemma_jump(program, st.output, jump, last, tested.output.len() as int);
    lemma_jump_unequal(
        program,
        decided.output + compare,
        back,
        first,
        start.output.len() as int,
    );
    if width_of(v) == 4 {
        lemma_tests(program, decided.output, compare, v);
    } else {
        assert(stands(program, decided.output.len() as int, compare));
    }
    assert(forks(
        program,
        (decided.output + compare).len() as int,
        start.output.len() as int,
        after.output.len() as int,
    ));
    assert(codes(program, start, body, end));
    assert(computes(program, tested, cond, decided, v));
}

/// Of two branches exactly one is run: the first one where the condition is not 0,
/// and the other one where it is. Either way what follows the statement is next.
#[verifier::rlimit(50)]
pub proof fn law_if_else_runs(
    st: State,
    stmt: Stmt,
    cond: Expr,
    first: Stmt,
    second: Stmt,
    after: State,
    program: Seq<char>,
)
    requires
        stmt matches Stmt::If(_, c, a, b) && c == cond && *a == first && *b == Some(second),
        visit(st, stmt) matches Step::Done(s, _) && s == after,
        starts_with(program, after.output),
        st.scopes.len() > 0 && whole_lines(st.output),
        one_line_operand(st.function) && stmt_on_one_line(stmt),
    ensures
        exists|
            decided: State,
            v: Register,
            one: State,
            one_end: State,
            other: State,
            other_end: State,
        |
            {
                &&& #[trigger] computes(program, st, cond, decided, v)
                &&& #[trigger] codes(program, one, first, one_end)
                &&& #[trigger] codes(program, other, second, other_end)
                &&& starts_with(one.output, decided.output) && alike(decided, one)
                &&& starts_with(other.output, one_end.output) && alike(one_end, other)
                &&& decides(
                    program,
                    decided.output.len() as int,
                    v,
                    width_of(v) == 4,
                    one.output.len() as int,
                    other.output.len() as int,
                )
                &&& leads(program, one_end.output.len() as int, after.output.len() as int)
                &&& leads(program, other_end.output.len() as int, after.output.len() as int)
            },
{
    let decided = execute(st, cond)->Done_0;
    let v = execute(st, cond)->Done_1;
    assert(execute(st, cond) is Done);
    let (done, skip) = (decided.labels, decided.labels + 1);
    let compare = "\tcmpl    $0, "@ + v.operand()->0 + "\n"@;
    let tested = test_condition(next_label(decided), v)->Done_0;
    assert(visit(st, stmt) == if_statement(st, cond, first, Some(second)));
    assert(if_statement(st, cond, first, Some(second)) == either(tested, first, second, done));
    assert(tested.output == decided.output + compare);
    let away = jump_line("\tje    L"@, skip);
    let one = emit(next_label(tested), away);
    let one_end = visit(one, first)->Done_0;
    assert(visit(one, first) is Done);
    let jump = jump_line("\tjmp    L"@, done);
    let other = emit(one_end, jump + label_line(skip));
    let other_end = visit(other, second)->Done_0;
    assert(visit(other, second) is Done);
    let jumped = one_end.output + jump;
    assert(other.output =~= jumped + label_line(skip));
    assert(after.output == other_end.output + label_line(done));
    lemma_condition(v);
    lemma_jumps(skip);
    lemma_jumps(done);
    law_expression_frames(st, cond);
    assert(starts_with(decided.output, st.output) && decided.scopes == st.scopes
        && decided.function == st.function) by {
        reveal(framed);
    }
    assert(whole_lines(one.output)) by {
        assert(one.output.last() == away.last());
    }
    lemma_statement_lines(one, first);
    assert(whole_lines(jumped)) by {
        assert(jumped.last() == jump.last());
    }
    // everything is a start of the program
    lemma_stands(program, other_end.output, label_line(done));
    assert(whole_lines(other.output)) by {
        reveal_strlit(":\n");
        assert(other.output.last() == label_line(skip).last());
    }
    lemma_statement_lines(other, second);
    lemma_begins(program, other_end.output, other.output);
    lemma_stands(program, jumped, label_line(skip));
    lemma_stands(program, one_end.output, jump);
    lemma_begins(program, one_end.output, one.output);
    lemma_stands(program, tested.output, away);
    lemma_stands(program, decided.output, compare);
    // where the labels are
    lemma_label(program, jumped, skip);
    lemma_label(program, other_end.output, done);
    lemma_jump(program, one_end.output, jump, done, after.output.len() as int);
    lemma_jump_equal(program, tested.output, away, skip, other.output.len() as int);
    if width_of(v) == 4 {
        lemma_tests(program, decided.output, compare, v);
    } else {
        assert(stands(program, decided.output.len() as int, compare));
    }
    assert(forks(
        program,
        tested.output.len() as int,
        one.output.len() as int,
        other.output.len() as int,
    ));
    assert(starts_with(one.output, decided.output)) by {
        assert(one.output =~= decided.output + (compare + away));
    }
    assert(computes(program, st, cond, decided, v));
    assert(codes(program, one, first, one_end));
    assert(codes(program, other, second, other_end));
}

/// A single branch is run where the condition is not 0, and passed over where it
/// is. Either way what follows the statement is next.
#[verifier::rlimit(50)]
pub proof fn law_if_runs(
    st: State,
    stmt: Stmt,
    cond: Expr,
    branch: Stmt,
    after: State,
    program: Seq<char>,
)
    requires
        stmt matches Stmt::If(_, c, a, b) && c == cond && *a == branch && *b is None,
        visit(st, stmt) matches Step::Done(s, _) && s == after,
        starts_with(program, after.output),
        st.scopes.len() > 0 && whole_lines(st.output),
        one_line_operand(st.function) && stmt_on_one_line(stmt),
    ensures
        exists|decided: State, v: Register, one: State, one_end: State|
            {
                &&& #[trigger] computes(program, st, cond, decided, v)
                &&& #[trigger] codes(program, one, branch, one_end)
                &&& starts_with(one.output, decided.output) && alike(decided, one)
                &&& decides(
                    program,
                    decided.output.len() as int,
                    v,
                    width_of(v) == 4,
                    one.output.len() as int,
                    after.output.len() as int,
                )
                &&& leads(program, one_end.output.len() as int, after.output.len() as int)
            },
{
    let decided = execute(st, cond)->Done_0;
    let v = execute(st, cond)->Done_1;
    assert(execute(st, cond) is Done);
    let done = decided.labels;
    let compare = "\tcmpl    $0, "@ + v.operand()->0 + "\n"@;
    let tested = test_condition(next_label(decided), v)->Done_0;
    assert(visit(st, stmt) == if_statement(st, cond, branch, None));
    assert(if_statement(st, cond, branch, None) == only(tested, branch, done));
    assert(tested.output == decided.output + compare);
    let away = jump_line("\tje    L"@, done);
    let one = emit(tested, away);
    let one_end = visit(one, branch)->Done_0;
    assert(visit(one, branch) is Done);
    assert(after.output == one_end.output + label_line(done));
    lemma_condition(v);
    lemma_jumps(done);
    law_expression_frames(st, cond);
    assert(starts_with(decided.output, st.output) && decided.scopes == st.scopes
        && decided.function == st.function) by {
        reveal(framed);
    }
    assert(whole_lines(one.output)) by {
        assert(one.output.last() == away.last());
    }
    lemma_statement_lines(one, branch);
    lemma_stands(program, one_end.output, label_line(done));
    lemma_begins(program, one_end.output, one.output);
    lemma_stands(program, tested.output, away);
    lemma_stands(program, decided.output, compare);
    lemma_label(program, one_end.output, done);
    lemma_jump_equal(program, tested.output, away, done, after.output.len() as int);
    if width_of(v) == 4 {
        lemma_tests(program, decided.output, compare, v);
    } else {
        assert(stands(program, decided.output.len() as int, compare));
    }
    assert(forks(
        program,
        tested.output.len() as int,
        one.output.len() as int,
        after.output.len() as int,
    ));
    assert(starts_with(one.output, decided.output)) by {
        assert(one.output =~= decided.output + (compare + away));
    }
    assert(computes(program, st, cond, decided, v));
    assert(codes(program, one, branch, one_end));
}

/// Whether the machine goes from one position to another, and all that changes is
/// that the `int` in `v` is then `x`.
pub open spec fn gives(program: Seq<char>, at: int, next: int, v: Register, x: int) -> bool {
    forall|m: Machine| #[trigger] reaches(program, at, m, next, put(m, place(v), 4, x))
}

proof fn lemma_forks_then(program: Seq<char>, at: int, unequal: int, next: int, equal: int)
    requires
        forks(program, at, unequal, equal),
        leads(program, unequal, next),
    ensures
        forks(program, at, next, equal),
{
    assert forall|m: Machine| m.compared.0 != m.compared.1 implies #[trigger] reaches(
        program,
        at,
        m,
        next,
        m,
    ) by {
        assert(reaches(program, at, m, unequal, m));
        assert(reaches(program, unequal, m, next, m));
        lemma_reach(program, at, m, unequal, m, next, m);
    }
}

proof fn lemma_gives_then(program: Seq<char>, at: int, mid: int, next: int, v: Register, x: int)
    requires
        gives(program, at, mid, v, x),
        leads(program, mid, next),
    ensures
        gives(program, at, next, v, x),
{
    assert forall|m: Machine| #[trigger]
        reaches(program, at, m, next, put(m, place(v), 4, x)) by {
        let n = put(m, place(v), 4, x);
        assert(reaches(program, at, m, mid, n));
        assert(reaches(program, mid, n, next, n));
        lemma_reach(program, at, m, mid, n, next, n);
    }
}

/// A comparison of all bytes of a value with 0.
proof fn lemma_compare(v: Register)
    ensures
        instruction("\tcmp"@, v.type_of(), "    "@, Some("$0"@), v.operand()) matches Some(text)
            ==> is_width(width_of(v)) && reads(
            text,
            Instr::Cmp(width_of(v), Place::Number(0), place(v)),
        ),
{
    if let Some(text) = instruction("\tcmp"@, v.type_of(), "    "@, Some("$0"@), v.operand()) {
        lemma_operand(v);
        lemma_blanks();
        lemma_instruction("\tcmp"@, v.type_of()->0, "    "@, "$0"@, v.operand()->0);
        reveal_strlit("$0");
        reveal_strlit("$");
        assert(decimal(0) =~= seq!['0']);
        assert("$0"@ =~= "$"@ + decimal(0));
    }
}

/// The lines that set an `int` to 1 or 0.
proof fn lemma_sets(program: Seq<char>, a: Seq<char>, text: Seq<char>, v: Register, x: int)
    requires
        starts_with(program, a + text),
        v is Scratch && width_of(v) == 4,
        v.operand() matches Some(operand) && (x == 1 && text == "\tmovl    $1, "@ + operand
            + "\n"@ || x == 0 && text == "\tmovl    $0, "@ + operand + "\n"@),
    ensures
        gives(program, a.len() as int, (a + text).len() as int, v, x),
        whole_lines(a + text),
{
    let operand = v.operand()->0;
    lemma_operand(v);
    reveal_strlit("\tmovl    $1, ");
    reveal_strlit("\tmovl    $0, ");
    reveal_strlit("\tmov");
    reveal_strlit("l");
    reveal_strlit("    ");
    reveal_strlit("$");
    reveal_strlit(", ");
    reveal_strlit("\n");
    assert(decimal(0) =~= seq!['0']);
    assert(decimal(1) =~= seq!['1']);
    let tail = pair("$"@ + decimal(x), operand);
    assert(text =~= ("\tmov"@ + "l"@) + "    "@ + tail + "\n"@);
    lemma_line(text, "\tmov"@ + "l"@, "    "@, tail);
    let i = Instr::Mov(4, Place::Number(x), place(v));
    assert(reads(text, i));
    lemma_stands(program, a, text);
    let (at, next) = (a.len() as int, (a + text).len() as int);
    assert forall|m: Machine| #[trigger]
        reaches(program, at, m, next, put(m, place(v), 4, x)) by {
        let n = put(m, place(v), 4, x);
        assert(performs(program, at, m, next, n, text, i));
        lemma_step(program, at, m, next, n);
    }
    assert((a + text).last() == text.last());
}

/// A test that comes to a jump where the value is 0.
proof fn lemma_zero_test(
    program: Seq<char>,
    st: State,
    v: Register,
    n: nat,
    after: State,
    next: int,
)
    requires
        zero_test(st, v, "\tje    L"@, n) matches Step::Done(s, _) && s == after,
        starts_with(program, after.output),
        lands(program, n, next),
    ensures
        decides(program, st.output.len() as int, v, true, after.output.len() as int, next),
{
    lemma_compare(v);
    lemma_jumps(n);
    let compare = instruction("\tcmp"@, v.type_of(), "    "@, Some("$0"@), v.operand())->0;
    let jump = jump_line("\tje    L"@, n);
    let compared = st.output + compare;
    assert(after.output =~= compared + jump);
    lemma_stands(program, compared, jump);
    lemma_tests(program, st.output, compare, v);
    lemma_jump_equal(program, compared, jump, n, next);
    assert(forks(program, compared.len() as int, after.output.len() as int, next));
}

/// A test that comes to a jump where the value is not 0.
proof fn lemma_nonzero_test(
    program: Seq<char>,
    st: State,
    v: Register,
    n: nat,
    after: State,
    next: int,
)
    requires
        zero_test(st, v, "\tjne    L"@, n) matches Step::Done(s, _) && s == after,
        starts_with(program, after.output),
        lands(program, n, next),
    ensures
        decides(program, st.output.len() as int, v, true, next, after.output.len() as int),
{
    lemma_compare(v);
    lemma_jumps(n);
    let compare = instruction("\tcmp"@, v.type_of(), "    "@, Some("$0"@), v.operand())->0;
    let jump = jump_line("\tjne    L"@, n);
    let compared = st.output + compare;
    assert(after.output =~= compared + jump);
    lemma_stands(program, compared, jump);
    lemma_tests(program, st.output, compare, v);
    lemma_jump_unequal(program, compared, jump, n, next);
    assert(forks(program, compared.len() as int, next, after.output.len() as int));
}

proof fn lemma_logical(st: State, e: Expr, left: Expr, right: Expr)
    requires
        e.kind matches ExprKind::Logical { left: l, token, right: r } && *l == left && *r == right,
    ensures
        e.kind->Logical_token.token is AmpAmp ==> execute(st, e) == and_expr(st, left, right),
        e.kind->Logical_token.token is PipePipe ==> execute(st, e) == or_expr(st, left, right),
{
    let token = e.kind->Logical_token;
    assert(execute(st, e) == logical_expr(st, left, token, right));
    match token.token {
        TokenType::AmpAmp => {
            assert(logical_expr(st, left, token, right) == and_expr(st, left, right));
        },
        TokenType::PipePipe => {
            assert(logical_expr(st, left, token, right) == or_expr(st, left, right));
        },
        _ => {},
    }
}

proof fn lemma_expression_starts(st: State, e: Expr)
    ensures
        execute(st, e) matches Step::Done(after, _) ==> starts_with(after.output, st.output),
{
    law_expression_frames(st, e);
    reveal(framed);
}

/// What comes behind the tests of `&&`.
proof fn lemma_and_end(
    program: Seq<char>,
    before: Seq<char>,
    v: Register,
    no_label: nat,
    end_label: nat,
    after: Seq<char>,
) -> (no: int)
    requires
        v is Scratch && width_of(v) == 4 && v.operand() is Some,
        after == before + ("\tmovl    $1, "@ + v.operand()->0 + "\n"@ + jump_line(
            "\tjmp    L"@,
            end_label,
        ) + label_line(no_label) + "\tmovl    $0, "@ + v.operand()->0 + "\n"@ + label_line(
            end_label,
        )),
        starts_with(program, after),
    ensures
        starts_with(program, before),
        lands(program, no_label, no),
        gives(program, before.len() as int, after.len() as int, v, 1),
        gives(program, no, after.len() as int, v, 0),
{
    let one = "\tmovl    $1, "@ + v.operand()->0 + "\n"@;
    let zero = "\tmovl    $0, "@ + v.operand()->0 + "\n"@;
    let jump = jump_line("\tjmp    L"@, end_label);
    let a = before + one;
    let b = a + jump;
    let c = b + label_line(no_label);
    let d = c + zero;
    assert(after =~= d + label_line(end_label));
    lemma_jumps(end_label);
    lemma_stands(program, d, label_line(end_label));
    lemma_stands(program, c, zero);
    lemma_stands(program, b, label_line(no_label));
    lemma_stands(program, a, jump);
    lemma_stands(program, before, one);
    assert(whole_lines(b)) by {
        assert(b.last() == jump.last());
    }
    lemma_label(program, b, no_label);
    lemma_sets(program, c, zero, v, 0);
    lemma_sets(program, before, one, v, 1);
    lemma_label(program, d, end_label);
    let end = after.len() as int;
    lemma_jump(program, a, jump, end_label, end);
    lemma_gives_then(program, before.len() as int, a.len() as int, end, v, 1);
    lemma_gives_then(program, c.len() as int, d.len() as int, end, v, 0);
    c.len() as int
}

/// What comes behind the tests of `||`.
proof fn lemma_or_end(
    program: Seq<char>,
    before: Seq<char>,
    v: Register,
    yes_label: nat,
    no_label: nat,
    end_label: nat,
    after: Seq<char>,
) -> (ends: (int, int))
    requires
        v is Scratch && width_of(v) == 4 && v.operand() is Some,
        after == before + (label_line(yes_label) + "\tmovl    $1, "@ + v.operand()->0 + "\n"@
            + jump_line("\tjmp     L"@, end_label) + label_line(no_label) + "\tmovl    $0, "@
            + v.operand()->0 + "\n"@ + label_line(end_label)),
        starts_with(program, after),
        whole_lines(before),
    ensures
        starts_with(program, before),
        leads(program, before.len() as int, ends.0),
        lands(program, yes_label, ends.0),
        lands(program, no_label, ends.1),
        gives(program, ends.0, after.len() as int, v, 1),
        gives(program, ends.1, after.len() as int, v, 0),
{
    let one = "\tmovl    $1, "@ + v.operand()->0 + "\n"@;
    let zero = "\tmovl    $0, "@ + v.operand()->0 + "\n"@;
    let jump = jump_line("\tjmp     L"@, end_label);
    let a = before + label_line(yes_label);
    let b = a + one;
    let c = b + jump;
    let d = c + label_line(no_label);
    let f = d + zero;
    assert(after =~= f + label_line(end_label));
    lemma_jumps(end_label);
    lemma_stands(program, f, label_line(end_label));
    lemma_stands(program, d, zero);
    lemma_stands(program, c, label_line(no_label));
    lemma_stands(program, b, jump);
    lemma_stands(program, a, one);
    lemma_stands(program, before, label_line(yes_label));
    lemma_label(program, before, yes_label);
    assert(whole_lines(c)) by {
        assert(c.last() == jump.last());
    }
    lemma_label(program, c, no_label);
    lemma_sets(program, a, one, v, 1);
    lemma_sets(program, d, zero, v, 0);
    lemma_label(program, f, end_label);
    let end = after.len() as int;
    lemma_jump(program, b, jump, end_label, end);
    lemma_gives_then(program, a.len() as int, b.len() as int, end, v, 1);
    lemma_gives_then(program, d.len() as int, f.len() as int, end, v, 0);
    (a.len() as int, d.len() as int)
}

/// `&&` runs the code of its right operand where the left one is not 0. Its value
/// is 1 where neither operand is 0; it is 0 where the right operand is 0, and where
/// the left one is, without the right one being run.
#[verifier::rlimit(50)]
pub proof fn law_and_runs(
    st: State,
    e: Expr,
    left: Expr,
    right: Expr,
    after: State,
    result: Register,
    program: Seq<char>,
)
    requires
        e.kind matches ExprKind::Logical { left: l, token, right: r } && *l == left && *r == right
            && token.token is AmpAmp,
        execute(st, e) == Step::Done(after, result),
        starts_with(program, after.output),
    ensures
        result is Scratch && result.type_of() == Some(NEWTypes::Primitive(Types::Int)),
        exists|s: State, l: Register, t: State, u: State, r: Register, yes: int, no: int|
            {
                &&& #[trigger] computes(program, st, left, s, l)
                &&& #[trigger] computes(program, t, right, u, r)
                &&& starts_with(t.output, s.output) && alike(s, t)
                &&& decides(program, s.output.len() as int, l, true, t.output.len() as int, no)
                &&& decides(program, u.output.len() as int, r, true, yes, no)
                &&& #[trigger] gives(program, yes, after.output.len() as int, result, 1)
                &&& #[trigger] gives(program, no, after.output.len() as int, result, 0)
            },
{
    lemma_logical(st, e, left, right);
    let s = execute(st, left)->Done_0;
    let l = execute(st, left)->Done_1;
    assert(execute(st, left) is Done);
    let no_label = s.labels;
    let t = zero_test(next_label(s), l, "\tje    L"@, no_label)->Done_0;
    assert(and_left(s, l) is Done && and_left(s, l)->Done_0 == t);
    let u = execute(t, right)->Done_0;
    let r = execute(t, right)->Done_1;
    assert(execute(t, right) is Done);
    assert(and_right(u, no_label, r) == Step::Done(after, result));
    let v = zero_test(u, r, "\tje    L"@, no_label)->Done_0;
    assert(zero_test(u, r, "\tje    L"@, no_label) is Done);
    let no = lemma_and_end(program, v.output, result, no_label, v.labels, after.output);
    let yes = v.output.len() as int;
    lemma_expression_starts(st, left);
    lemma_expression_starts(t, right);
    assert(starts_with(v.output, u.output));
    assert(starts_with(t.output, s.output));
    lemma_begins(program, v.output, u.output);
    lemma_begins(program, u.output, t.output);
    lemma_begins(program, t.output, s.output);
    lemma_zero_test(program, next_label(s), l, no_label, t, no);
    lemma_zero_test(program, u, r, no_label, v, no);
    assert(computes(program, st, left, s, l));
    assert(computes(program, t, right, u, r));
}

/// `||` runs the code of its right operand where the left one is 0. Its value is 0
/// where both operands are 0; it is 1 where the right operand is not 0, and where
/// the left one is not, without the right one being run.
#[verifier::rlimit(50)]
pub proof fn law_or_runs(
    st: State,
    e: Expr,
    left: Expr,
    right: Expr,
    after: State,
    result: Register,
    program: Seq<char>,
)
    requires
        e.kind matches ExprKind::Logical { left: l, token, right: r } && *l == left && *r == right
            && token.token is PipePipe,
        execute(st, e) == Step::Done(after, result),
        starts_with(program, after.output),
    ensures
        result is Scratch && result.type_of() == Some(NEWTypes::Primitive(Types::Int)),
        exists|s: State, l: Register, t: State, u: State, r: Register, yes: int, no: int|
            {
                &&& #[trigger] computes(program, st, left, s, l)
                &&& #[trigger] computes(program, t, right, u, r)
                &&& starts_with(t.output, s.output) && alike(s, t)
                &&& decides(program, s.output.len() as int, l, true, yes, t.output.len() as int)
                &&& decides(program, u.output.len() as int, r, true, yes, no)
                &&& #[trigger] gives(program, yes, after.output.len() as int, result, 1)
                &&& #[trigger] gives(program, no, after.output.len() as int, result, 0)
            },
{
    lemma_logical(st, e, left, right);
    let s = execute(st, left)->Done_0;
    let l = execute(st, left)->Done_1;
    assert(execute(st, left) is Done);
    let yes_label = s.labels;
    let t = zero_test(next_label(s), l, "\tjne    L"@, yes_label)->Done_0;
    assert(or_left(s, l) is Done && or_left(s, l)->Done_0 == t);
    let u = execute(t, right)->Done_0;
    let r = execute(t, right)->Done_1;
    assert(execute(t, right) is Done);
    assert(or_right(u, yes_label, r) == Step::Done(after, result));
    let no_label = u.labels;
    let v = zero_test(next_label(u), r, "\tje    L"@, no_label)->Done_0;
    assert(zero_test(next_label(u), r, "\tje    L"@, no_label) is Done);
    assert(whole_lines(v.output)) by {
        lemma_jumps(no_label);
        assert(v.output.last() == jump_line("\tje    L"@, no_label).last());
    }
    let (yes, no) = lemma_or_end(
        program,
        v.output,
        result,
        yes_label,
        no_label,
        v.labels,
        after.output,
    );
    lemma_expression_starts(st, left);
    lemma_expression_starts(t, right);
    assert(starts_with(v.output, u.output));
    assert(starts_with(t.output, s.output));
    lemma_begins(program, v.output, u.output);
    lemma_begins(program, u.output, t.output);
    lemma_begins(program, t.output, s.output);
    lemma_nonzero_test(program, next_label(s), l, yes_label, t, yes);
    lemma_zero_test(program, next_label(u), r, no_label, v, no);
    let fork = choose|fork: int| #[trigger]
        forks(program, fork, v.output.len() as int, no) && tests(
            program,
            u.output.len() as int,
            r,
            fork,
        );
    lemma_forks_then(program, fork, v.output.len() as int, yes, no);
    assert(decides(program, u.output.len() as int, r, true, yes, no));
    assert(computes(program, st, left, s, l));
    assert(computes(program, t, right, u, r));
}

} // verus!
