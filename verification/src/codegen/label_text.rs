//! Which labels a text defines.

use vstd::prelude::*;

use crate::codegen::model::{instruction, jump_line, label_line, short_instruction};
use crate::codegen::register::{
    argument_name, return_register, scratch_name, scratch_width, suffix, Register,
};
use crate::codegen::text::{decimal, digit, digits};
use crate::common::types::NEWTypes;

verus! {

/// Whether a text is within one line.
pub open spec fn one_line(text: Seq<char>) -> bool {
    forall|i: int| 0 <= i < text.len() ==> #[trigger] text[i] != '\n'
}

/// Whether a text is made of whole lines.
pub open spec fn whole_lines(text: Seq<char>) -> bool {
    text.len() > 0 ==> text.last() == '\n'
}

/// Whether the line that defines label `n` starts at position `i` of a text.
pub open spec fn defined_at(text: Seq<char>, n: nat, i: int) -> bool {
    &&& 0 <= i
    &&& i + label_line(n).len() <= text.len()
    &&& i > 0 ==> text[i - 1] == '\n'
    &&& text.subrange(i, i + label_line(n).len()) == label_line(n)
}

/// Whether a text is made of whole lines that define no labels but `labels`, and
/// each of these at most once.
#[verifier::opaque]
pub open spec fn defines(text: Seq<char>, labels: Set<nat>) -> bool {
    &&& whole_lines(text)
    &&& forall|n: nat, i: int| #[trigger] defined_at(text, n, i) ==> labels.contains(n)
    &&& forall|n: nat, i: int, j: int| #[trigger]
        defined_at(text, n, i) && #[trigger] defined_at(text, n, j) ==> i == j
}

/// Whether a text is made of whole lines that define no label.
pub open spec fn unlabelled(text: Seq<char>) -> bool {
    defines(text, Set::empty())
}

/// Whether a text, where there is one, defines no label.
pub open spec fn unlabelled_lines(text: Option<Seq<char>>) -> bool {
    text matches Some(lines) ==> unlabelled(lines)
}

/// Whether a text, where there is one, is within one line.
pub open spec fn one_line_operand(text: Option<Seq<char>>) -> bool {
    text matches Some(operand) ==> one_line(operand)
}

proof fn lemma_digits_inline(n: nat)
    ensures
        one_line(digits(n)),
        digits(n).len() > 0,
    decreases n,
{
    if n >= 10 {
        lemma_digits_inline(n / 10);
    }
}

pub(crate) proof fn lemma_decimal_inline(n: int)
    ensures
        one_line(decimal(n)),
{
    reveal_strlit("-");
    if n < 0 {
        lemma_digits_inline((-n) as nat);
    } else {
        lemma_digits_inline(n as nat);
    }
}

/// Different numbers are written differently.
proof fn lemma_digits_differ(m: nat, n: nat)
    requires
        digits(m) == digits(n),
    ensures
        m == n,
    decreases m,
{
    lemma_digits_inline(m / 10);
    lemma_digits_inline(n / 10);
    assert(digits(m).last() == digit(m % 10)[0]);
    assert(digits(n).last() == digit(n % 10)[0]);
    if m >= 10 && n >= 10 {
        assert(digits(m).drop_last() =~= digits(m / 10));
        assert(digits(n).drop_last() =~= digits(n / 10));
        lemma_digits_differ(m / 10, n / 10);
    }
}

/// The line that defines a label starts with `L` and is one line.
proof fn lemma_label_line(n: nat)
    ensures
        label_line(n).len() >= 3,
        label_line(n)[0] == 'L',
        label_line(n).last() == '\n',
        forall|i: int| 0 <= i < label_line(n).len() - 1 ==> #[trigger] label_line(n)[i] != '\n',
{
    reveal_strlit("L");
    reveal_strlit(":\n");
    lemma_digits_inline(n);
}

/// Different labels are defined by different lines.
proof fn lemma_labels_differ(m: nat, n: nat)
    requires
        label_line(m) == label_line(n),
    ensures
        m == n,
{
    reveal_strlit("L");
    reveal_strlit(":\n");
    let line = label_line(m);
    assert(line.subrange(1, line.len() - 2) =~= digits(m));
    assert(label_line(n).subrange(1, line.len() - 2) =~= digits(n));
    lemma_digits_differ(m, n);
}

pub(crate) proof fn lemma_label_defines(n: nat)
    ensures
        defines(label_line(n), set![n]),
{
    reveal(defines);
    let text = label_line(n);
    lemma_label_line(n);
    assert forall|m: nat, i: int| #[trigger] defined_at(text, m, i) implies m == n && i == 0 by {
        lemma_label_line(m);
        if i > 0 {
            assert(text[i - 1] == '\n');
        }
        let part = text.subrange(0, label_line(m).len() as int);
        assert(part.last() == text[label_line(m).len() - 1]);
        assert(part =~= text);
        lemma_labels_differ(m, n);
    }
}

/// One text after the other defines what both define.
pub(crate) proof fn lemma_join(a: Seq<char>, a_labels: Set<nat>, b: Seq<char>, b_labels: Set<nat>)
    requires
        defines(a, a_labels),
        defines(b, b_labels),
        a_labels.disjoint(b_labels),
    ensures
        defines(a + b, a_labels.union(b_labels)),
{
    reveal(defines);
    let text = a + b;
    assert forall|n: nat, i: int| #[trigger] defined_at(text, n, i) implies defined_at(a, n, i)
        || defined_at(b, n, i - a.len()) by {
        lemma_label_line(n);
        let len = label_line(n).len();
        if i + len <= a.len() {
            assert(a.subrange(i, i + len) =~= text.subrange(i, i + len));
        } else if i < a.len() {
            let k = a.len() - 1 - i;
            assert(text.subrange(i, i + len)[k] == a.last());
            assert(label_line(n)[k] != '\n');
        } else {
            assert(b.subrange(i - a.len(), i - a.len() + len) =~= text.subrange(i, i + len));
        }
    }
}

pub(crate) proof fn lemma_more_labels(text: Seq<char>, less: Set<nat>, more: Set<nat>)
    requires
        defines(text, less),
        less.subset_of(more),
    ensures
        defines(text, more),
{
    reveal(defines);
}

pub(crate) proof fn lemma_nothing()
    ensures
        unlabelled(Seq::empty()),
{
    reveal(defines);
    assert forall|n: nat, i: int| !#[trigger] defined_at(Seq::empty(), n, i) by {
        lemma_label_line(n);
    }
}

/// A line that does not start with `L` defines no label.
pub(crate) proof fn lemma_line(body: Seq<char>)
    requires
        one_line(body),
        body.len() > 0 ==> body[0] != 'L',
    ensures
        unlabelled(body + "\n"@),
{
    reveal(defines);
    reveal_strlit("\n");
    let text = body + "\n"@;
    assert forall|n: nat, i: int| !#[trigger] defined_at(text, n, i) by {
        lemma_label_line(n);
        if defined_at(text, n, i) {
            if i > 0 {
                assert(text[i - 1] == '\n');
            }
            assert(text.subrange(i, i + label_line(n).len())[0] == text[i]);
        }
    }
}

/// Lines that define no label, one after the other.
pub(crate) proof fn lemma_unlabelled_join(a: Seq<char>, b: Seq<char>)
    requires
        unlabelled(a),
        unlabelled(b),
    ensures
        unlabelled(a + b),
{
    lemma_join(a, Set::empty(), b, Set::empty());
    assert(Set::<nat>::empty().union(Set::<nat>::empty()) =~= Set::empty());
}

proof fn lemma_types_inline(t: NEWTypes)
    ensures
        one_line_operand(suffix(t)),
        one_line_operand(scratch_width(t)),
        one_line_operand(return_register(t)),
{
    reveal_strlit("b");
    reveal_strlit("d");
    reveal_strlit("l");
    reveal_strlit("q");
    reveal_strlit("");
    reveal_strlit("%al");
    reveal_strlit("%eax");
    reveal_strlit("%rax");
}

proof fn lemma_argument_inline(index: int, t: NEWTypes)
    ensures
        one_line_operand(argument_name(index, t)),
{
    reveal_strlit("%dil");
    reveal_strlit("%sil");
    reveal_strlit("%dl");
    reveal_strlit("%cl");
    reveal_strlit("%r8b");
    reveal_strlit("%r9b");
    reveal_strlit("%edi");
    reveal_strlit("%esi");
    reveal_strlit("%edx");
    reveal_strlit("%ecx");
    reveal_strlit("%r8d");
    reveal_strlit("%r9d");
    reveal_strlit("%rdi");
    reveal_strlit("%rsi");
    reveal_strlit("%rdx");
    reveal_strlit("%rcx");
    reveal_strlit("%r8");
    reveal_strlit("%r9");
}

pub(crate) proof fn lemma_scratch_inline(index: int)
    ensures
        one_line(scratch_name(index)),
{
    reveal_strlit("%r8");
    reveal_strlit("%r9");
    reveal_strlit("%r10");
    reveal_strlit("%r11");
}

/// Everything that an instruction is made of is within one line.
pub(crate) proof fn lemma_operands_inline()
    ensures
        forall|value: Register| one_line_operand(#[trigger] value.operand()),
        forall|t: NEWTypes| one_line_operand(#[trigger] suffix(t)),
        forall|t: NEWTypes| one_line_operand(#[trigger] return_register(t)),
        forall|index: int, t: NEWTypes| one_line_operand(#[trigger] argument_name(index, t)),
        forall|n: int| one_line(#[trigger] decimal(n)),
{
    assert forall|value: Register| one_line_operand(#[trigger] value.operand()) by {
        match value {
            Register::Scratch(index, t) => {
                lemma_types_inline(t);
                lemma_scratch_inline(index as int);
            },
            Register::Deref(index, _) => {
                reveal_strlit("(");
                reveal_strlit(")");
                lemma_scratch_inline(index as int);
            },
            Register::Stack(slot, _) => {
                reveal_strlit("-");
                reveal_strlit("(%rbp)");
                lemma_decimal_inline(slot.bp_offset as int);
            },
            Register::Arg(index, t) => lemma_argument_inline(index as int, t),
            Register::Void => {},
        }
    }
    assert forall|t: NEWTypes| one_line_operand(#[trigger] suffix(t)) by {
        lemma_types_inline(t);
    }
    assert forall|t: NEWTypes| one_line_operand(#[trigger] return_register(t)) by {
        lemma_types_inline(t);
    }
    assert forall|index: int, t: NEWTypes| one_line_operand(#[trigger] argument_name(index, t)) by {
        lemma_argument_inline(index, t);
    }
    assert forall|n: int| one_line(#[trigger] decimal(n)) by {
        lemma_decimal_inline(n);
    }
}

/// Whether an instruction can start with `head`.
pub open spec fn line_start(head: Seq<char>) -> bool {
    one_line(head) && head.len() > 0 && head[0] != 'L'
}

pub(crate) proof fn lemma_instruction(
    head: Seq<char>,
    t: Option<NEWTypes>,
    gap: Seq<char>,
    source: Option<Seq<char>>,
    target: Option<Seq<char>>,
)
    requires
        line_start(head),
        one_line(gap),
        one_line_operand(source),
        one_line_operand(target),
    ensures
        unlabelled_lines(instruction(head, t, gap, source, target)),
{
    if let Some(text) = instruction(head, t, gap, source, target) {
        reveal_strlit(", ");
        lemma_types_inline(t.unwrap());
        lemma_line(
            head + suffix(t.unwrap()).unwrap() + gap + source.unwrap() + ", "@ + target.unwrap(),
        );
    }
}

pub(crate) proof fn lemma_short_instruction(
    head: Seq<char>,
    t: Option<NEWTypes>,
    operand: Option<Seq<char>>,
)
    requires
        line_start(head),
        one_line_operand(operand),
    ensures
        unlabelled_lines(short_instruction(head, t, operand)),
{
    if let Some(text) = short_instruction(head, t, operand) {
        reveal_strlit(" ");
        lemma_types_inline(t.unwrap());
        lemma_line(head + suffix(t.unwrap()).unwrap() + " "@ + operand.unwrap());
    }
}

pub(crate) proof fn lemma_jump(head: Seq<char>, label: nat)
    requires
        line_start(head),
    ensures
        unlabelled(jump_line(head, label)),
{
    lemma_decimal_inline(label as int);
    lemma_line(head + decimal(label as int));
}

proof fn lemma_digits_are_digits(n: nat)
    ensures
        forall|i: int| 0 <= i < digits(n).len() ==> '0' <= #[trigger] digits(n)[i] <= '9',
    decreases n,
{
    if n >= 10 {
        lemma_digits_are_digits(n / 10);
        assert forall|i: int| 0 <= i < digits(n).len() implies '0' <= #[trigger] digits(
            n,
        )[i] <= '9' by {
            if i < digits(n / 10).len() {
                assert(digits(n)[i] == digits(n / 10)[i]);
            }
        }
    }
}

/// A line with a letter before a colon at its end defines no label.
pub(crate) proof fn lemma_named_line(text: Seq<char>)
    requires
        text.len() >= 3,
        text.last() == '\n',
        forall|i: int| 0 <= i < text.len() - 1 ==> #[trigger] text[i] != '\n',
        !('0' <= text[text.len() - 3] <= '9'),
    ensures
        unlabelled(text),
{
    reveal(defines);
    assert forall|n: nat, i: int| !#[trigger] defined_at(text, n, i) by {
        if defined_at(text, n, i) {
            let line = label_line(n);
            lemma_label_line(n);
            if i > 0 {
                assert(text[i - 1] == '\n');
            }
            assert(text.subrange(0, line.len() as int).last() == text[line.len() - 1]);
            assert(text.subrange(0, line.len() as int) =~= text);
            reveal_strlit("L");
            reveal_strlit(":\n");
            lemma_digits_inline(n);
            lemma_digits_are_digits(n);
            assert(line[line.len() - 3] == digits(n)[digits(n).len() - 1]);
        }
    }
}

/// Lines without `L` define no label.
pub(crate) proof fn lemma_no_label(text: Seq<char>)
    requires
        whole_lines(text),
        forall|i: int| 0 <= i < text.len() ==> #[trigger] text[i] != 'L',
    ensures
        unlabelled(text),
{
    reveal(defines);
    assert forall|n: nat, i: int| !#[trigger] defined_at(text, n, i) by {
        lemma_label_line(n);
        if defined_at(text, n, i) {
            assert(text.subrange(i, i + label_line(n).len())[0] == text[i]);
        }
    }
}

} // verus!
