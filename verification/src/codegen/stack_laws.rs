//! How the stack is laid out and kept aligned.

use vstd::prelude::*;

use crate::codegen::ast::Stmt;
use crate::codegen::frame_laws::starts_with;
use crate::codegen::model::{
    aligned, allocate_stack, block, count, declare_variable, emit, function_definition,
    function_head, function_start, initial, padding, pops, preamble, program, pushes, release_stack,
    room, room_back, statements, State, Step,
};
use crate::codegen::register::{scratch_name, Register, SCRATCH_REGISTERS};
use crate::codegen::register_laws::sound;
use crate::codegen::statement_laws::{
    carried, ends_in, law_aligned, law_statements_carry, lemma_block_carries, lemma_declare_carries,
    lemma_parameters_carry, plain_body, resized,
};
use crate::codegen::statement_register_laws::law_statements_registers;
use crate::common::environment::lookup;
use crate::common::token::Token;
use crate::common::types::NEWTypes;

verus! {

/// A block leaves the variables that were declared outside of it as they were,
/// and none that was declared in it, also where it comes to an error.
pub proof fn law_block_scopes(st: State, body: Seq<Stmt>)
    ensures
        ends_in(block(st, body, seq![Map::empty()] + st.scopes), st.scopes),
{
    lemma_block_carries(st, body);
}

/// A variable gets a slot of its own: the slot is aligned to its size, and lies
/// beyond what was taken of the stack frame before.
pub proof fn law_slot(st: State, t: NEWTypes, name: Token)
    requires
        st.scopes.len() > 0,
    ensures
        declare_variable(st, t, name) matches Step::Done(after, _) ==> {
            &&& name.name() matches Some(n) && lookup(after.scopes, n) matches Some(
                Register::Stack(slot, u),
            ) && u == t && slot.bp_offset == after.offset
            &&& after.offset % t.bytes() == 0
            &&& st.offset + t.bytes() <= after.offset
        },
{
    if let Step::Done(after, _) = declare_variable(st, t, name) {
        law_aligned(st.offset + t.bytes(), t.bytes());
    }
}

/// The slots of two variables of a function do not overlap, whatever stands
/// between their declarations.
pub proof fn law_slots_apart(
    st: State,
    first: (NEWTypes, Token),
    between: Seq<Stmt>,
    second: (NEWTypes, Token),
)
    requires
        st.scopes.len() > 0,
        plain_body(between),
    ensures
        declare_variable(st, first.0, first.1) matches Step::Done(s, _) ==> (statements(
            s,
            between,
        ) matches Step::Done(t, _) ==> (declare_variable(
            t,
            second.0,
            second.1,
        ) matches Step::Done(after, _) ==> s.offset + second.0.bytes() <= after.offset)),
{
    if let Step::Done(s, _) = declare_variable(st, first.0, first.1) {
        lemma_declare_carries(true, st, first.0, first.1);
        assert(s.scopes.len() > 0) by {
            reveal(carried);
        }
        law_statements_carry(s, between);
        if let Step::Done(t, _) = statements(s, between) {
            assert(t.scopes.len() > 0 && s.offset <= t.offset) by {
                reveal(carried);
            }
            law_slot(t, second.0, second.1);
        }
    }
}

/// What a function starts with.
pub open spec fn opening(function: Seq<char>, size: nat) -> Seq<char> {
    function_head(function) + room(size)
}

/// What a function ends with.
pub open spec fn closing(function: Seq<char>, size: nat) -> Seq<char> {
    function + "_epilogue:\n"@ + room_back(size) + "\tpopq    %rbp\n\tret\n"@
}

/// A function gives back exactly the stack that it made room for, and that is
/// the stack that its variables need, aligned to 16 bytes.
pub proof fn law_function_stack(
    st: State,
    function: Seq<char>,
    params: Seq<(NEWTypes, Token)>,
    body: Seq<Stmt>,
)
    requires
        st.scopes.len() > 0,
    ensures
        function_definition(st, function, params, body) matches Step::Done(after, _) ==> {
            let size = aligned(st.stack_sizes[function] as nat, 16);
            &&& size % 16 == 0
            &&& st.stack_sizes[function] <= size < st.stack_sizes[function] + 16
            &&& after.offset == 0
            &&& after.function is None
            &&& exists|middle: Seq<char>|
                after.output == st.output + opening(function, size) + #[trigger] (middle + closing(
                    function,
                    size,
                ))
        },
{
    let size = aligned(st.stack_sizes[function] as nat, 16);
    let named = State { function: Some(function), ..st };
    if let Step::Done(after, _) = function_definition(st, function, params, body) {
        let started = emit(named, function_head(function));
        let roomy = allocate_stack(started, function)->Done_0;
        assert(roomy.output =~= st.output + opening(function, size));
        assert(roomy.stack_sizes[function] == size);
        lemma_parameters_carry(false, roomy, params, 0);
        let s = function_start(named, function, params)->Done_0;
        assert(s.scopes.len() > 0 && starts_with(s.output, roomy.output)) by {
            reveal(carried);
        }
        assert(s.stack_sizes[function] == size) by {
            reveal(carried);
            assert(resized(roomy.stack_sizes, s.stack_sizes));
            assert(s.stack_sizes.contains_key(function));
        }
        law_statements_carry(s, body);
        let t = statements(s, body)->Done_0;
        assert(starts_with(t.output, s.output)) by {
            reveal(carried);
        }
        assert(t.stack_sizes[function] == size) by {
            reveal(carried);
            assert(resized(s.stack_sizes, t.stack_sizes));
            assert(t.stack_sizes.contains_key(function));
        }
        let middle = t.output.skip(roomy.output.len() as int);
        assert(t.output =~= roomy.output + middle);
        assert(after.output =~= st.output + opening(function, size) + (middle + closing(
            function,
            size,
        )));
    }
}

/// What is given back of the stack is what room was made for, a multiple of 16
/// bytes, wherever the size of the function's stack has not changed in between;
/// giving it back does not change that size.
pub proof fn law_room_given_back(st: State, function: Seq<char>, later: State)
    ensures
        allocate_stack(st, function) matches Step::Done(roomy, _) ==> {
            let size = aligned(st.stack_sizes[function] as nat, 16);
            &&& size % 16 == 0
            &&& roomy == (State {
                output: st.output + room(size),
                stack_sizes: st.stack_sizes.insert(function, size as usize),
                ..st
            })
            &&& later.stack_sizes.contains_key(function) && later.stack_sizes[function]
                == roomy.stack_sizes[function] ==> release_stack(later, function) == Step::Done(
                (State { output: later.output + room_back(size), ..later }),
                Register::Void,
            )
        },
{
}

/// Saving registers and padding keep the stack aligned to 16 bytes at a call.
pub proof fn law_call_alignment(in_use: Seq<bool>)
    ensures
        (8 * count(in_use, SCRATCH_REGISTERS as nat) + padding(in_use)) % 16 == 0,
{
}

/// The scratch registers in use among the first `n`, in order.
pub open spec fn saved(in_use: Seq<bool>, n: nat) -> Seq<int>
    decreases n,
{
    if n == 0 {
        Seq::empty()
    } else if in_use[n - 1] {
        saved(in_use, (n - 1) as nat).push(n - 1)
    } else {
        saved(in_use, (n - 1) as nat)
    }
}

/// One line for each register.
pub open spec fn lines(head: Seq<char>, registers: Seq<int>) -> Seq<char>
    decreases registers.len(),
{
    if registers.len() == 0 {
        Seq::empty()
    } else {
        lines(head, registers.drop_last()) + (head + scratch_name(registers.last()) + "\n"@)
    }
}

proof fn lemma_lines_front(head: Seq<char>, first: int, registers: Seq<int>)
    ensures
        lines(head, seq![first] + registers) == (head + scratch_name(first) + "\n"@) + lines(
            head,
            registers,
        ),
    decreases registers.len(),
{
    let all = seq![first] + registers;
    if registers.len() == 0 {
        assert(all.drop_last() =~= Seq::<int>::empty());
        assert(lines(head, all.drop_last()) =~= Seq::empty());
        assert(lines(head, all) =~= (head + scratch_name(first) + "\n"@) + lines(head, registers));
    } else {
        lemma_lines_front(head, first, registers.drop_last());
        assert(all.drop_last() =~= seq![first] + registers.drop_last());
        assert(lines(head, all) =~= (head + scratch_name(first) + "\n"@) + lines(head, registers));
    }
}

/// A call restores the registers that it saved, each from where it was put: the
/// last one first.
pub proof fn law_saved_registers(in_use: Seq<bool>, n: nat)
    ensures
        pushes(in_use, n) == lines("\tpushq   "@, saved(in_use, n)),
        pops(in_use, n) == lines("\tpopq   "@, saved(in_use, n).reverse()),
    decreases n,
{
    if n > 0 {
        law_saved_registers(in_use, (n - 1) as nat);
        let before = saved(in_use, (n - 1) as nat);
        if in_use[n - 1] {
            let all = saved(in_use, n);
            assert(all.drop_last() =~= before);
            assert(all.reverse() =~= seq![n - 1] + before.reverse());
            lemma_lines_front("\tpopq   "@, n - 1, before.reverse());
        }
    } else {
        assert(saved(in_use, n).reverse() =~= Seq::empty());
    }
}

/// The code generator starts in a state that it can be in.
pub proof fn law_initial(stack_sizes: Map<Seq<char>, usize>)
    ensures
        sound(initial(stack_sizes)),
{
}

/// A program starts with what every program starts with, and what was generated
/// before and the code of its statements come next; no scratch register stays in
/// use.
pub proof fn law_program(st: State, body: Seq<Stmt>)
    requires
        sound(st),
    ensures
        program(st, body) matches Step::Done(after, _) ==> {
            &&& starts_with(after.output, preamble() + st.output)
            &&& after.in_use == st.in_use
            &&& sound(after)
        },
{
    law_statements_carry(st, body);
    law_statements_registers(st, body);
    if let Step::Done(s, _) = statements(st, body) {
        assert(starts_with(s.output, st.output)) by {
            reveal(carried);
        }
        let text = preamble() + s.output;
        let start = preamble() + st.output;
        assert forall|i: int| 0 <= i < start.len() implies #[trigger] text[i] == start[i] by {
            if i >= preamble().len() {
                assert(s.output[i - preamble().len()] == st.output[i - preamble().len()]);
            }
        }
    }
}

} // verus!
