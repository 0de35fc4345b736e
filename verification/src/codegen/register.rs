//! Where the values of a program live, and how assembly names these places.

use vstd::pervasive::unreached;
use vstd::prelude::*;

use crate::codegen::text::{decimal, unsigned_string};
use crate::common::types::{NEWTypes, Types};

verus! {

/// A slot of the stack frame, found by its distance from the base pointer.
#[derive(Clone, Copy, PartialEq, Eq, Structural, Debug)]
pub struct StackRegister {
    pub bp_offset: usize,
}

impl StackRegister {
    pub fn new(bp_offset: usize) -> (register: Self)
        ensures
            register == (StackRegister { bp_offset }),
    {
        StackRegister { bp_offset }
    }
}

/// Where a value of some type lives.
#[derive(PartialEq, Debug)]
pub enum Register {
    /// In a scratch register, given by its index.
    Scratch(usize, NEWTypes),
    /// In memory, at the address that a scratch register holds.
    Deref(usize, NEWTypes),
    Stack(StackRegister, NEWTypes),
    /// In the register of an argument, given by its index.
    Arg(usize, NEWTypes),
    /// Nowhere: there is no value.
    Void,
}

impl Clone for Register {
    fn clone(&self) -> (copy: Self)
        ensures
            copy == *self,
    {
        match self {
            Register::Scratch(index, t) => Register::Scratch(*index, t.clone()),
            Register::Deref(index, t) => Register::Deref(*index, t.clone()),
            Register::Stack(slot, t) => Register::Stack(*slot, t.clone()),
            Register::Arg(index, t) => Register::Arg(*index, t.clone()),
            Register::Void => Register::Void,
        }
    }
}

/// The suffix of an instruction on values of a type that registers can hold.
pub open spec fn suffix(t: NEWTypes) -> Option<Seq<char>> {
    match t.representation() {
        Types::Char => Some("b"@),
        Types::Int => Some("l"@),
        Types::Long => Some("q"@),
        Types::Void => None,
    }
}

/// The register that a function returns a value of type `t` in.
pub open spec fn return_register(t: NEWTypes) -> Option<Seq<char>> {
    match t.representation() {
        Types::Char => Some("%al"@),
        Types::Int => Some("%eax"@),
        Types::Long => Some("%rax"@),
        Types::Void => None,
    }
}

/// The full-width name of a scratch register.
pub open spec fn scratch_name(index: int) -> Seq<char> {
    if index == 0 {
        "%r8"@
    } else if index == 1 {
        "%r9"@
    } else if index == 2 {
        "%r10"@
    } else {
        "%r11"@
    }
}

/// What is put behind the name of a scratch register that holds a value of
/// type `t`.
pub open spec fn scratch_width(t: NEWTypes) -> Option<Seq<char>> {
    match t.representation() {
        Types::Char => Some("b"@),
        Types::Int => Some("d"@),
        Types::Long => Some(""@),
        Types::Void => None,
    }
}

/// The name of the register of an argument.
pub open spec fn argument_name(index: int, t: NEWTypes) -> Option<Seq<char>> {
    match t.representation() {
        Types::Char => if index == 0 {
            Some("%dil"@)
        } else if index == 1 {
            Some("%sil"@)
        } else if index == 2 {
            Some("%dl"@)
        } else if index == 3 {
            Some("%cl"@)
        } else if index == 4 {
            Some("%r8b"@)
        } else if index == 5 {
            Some("%r9b"@)
        } else {
            None
        },
        Types::Int => if index == 0 {
            Some("%edi"@)
        } else if index == 1 {
            Some("%esi"@)
        } else if index == 2 {
            Some("%edx"@)
        } else if index == 3 {
            Some("%ecx"@)
        } else if index == 4 {
            Some("%r8d"@)
        } else if index == 5 {
            Some("%r9d"@)
        } else {
            None
        },
        Types::Long => if index == 0 {
            Some("%rdi"@)
        } else if index == 1 {
            Some("%rsi"@)
        } else if index == 2 {
            Some("%rdx"@)
        } else if index == 3 {
            Some("%rcx"@)
        } else if index == 4 {
            Some("%r8"@)
        } else if index == 5 {
            Some("%r9"@)
        } else {
            None
        },
        Types::Void => None,
    }
}

impl Register {
    /// The type of the value.
    pub open spec fn type_of(self) -> Option<NEWTypes> {
        match self {
            Register::Scratch(_, t) => Some(t),
            Register::Deref(_, t) => Some(t),
            Register::Stack(_, t) => Some(t),
            Register::Arg(_, t) => Some(t),
            Register::Void => None,
        }
    }

    /// The scratch register that the value keeps in use.
    pub open spec fn scratch(self) -> Option<int> {
        match self {
            Register::Scratch(index, _) => Some(index as int),
            Register::Deref(index, _) => Some(index as int),
            _ => None,
        }
    }

    /// How the place is written as an operand.
    pub open spec fn operand(self) -> Option<Seq<char>> {
        match self {
            Register::Scratch(index, t) => match scratch_width(t) {
                Some(width) => if index < SCRATCH_REGISTERS {
                    Some(scratch_name(index as int) + width)
                } else {
                    None
                },
                None => None,
            },
            Register::Deref(index, _) => if index < SCRATCH_REGISTERS {
                Some("("@ + scratch_name(index as int) + ")"@)
            } else {
                None
            },
            Register::Stack(slot, _) => Some("-"@ + decimal(slot.bp_offset as int) + "(%rbp)"@),
            Register::Arg(index, t) => argument_name(index as int, t),
            Register::Void => None,
        }
    }

    /// The place, with a value of another type in it.
    pub open spec fn with_type(self, t: NEWTypes) -> Option<Register> {
        match self {
            Register::Scratch(index, _) => Some(Register::Scratch(index, t)),
            Register::Deref(index, _) => Some(Register::Deref(index, t)),
            Register::Stack(slot, _) => Some(Register::Stack(slot, t)),
            Register::Arg(index, _) => Some(Register::Arg(index, t)),
            Register::Void => None,
        }
    }

    /// The place that a scratch register with a pointer in it points to.
    pub open spec fn pointee(self) -> Option<Register> {
        match self {
            Register::Scratch(index, NEWTypes::Pointer(to)) => Some(Register::Deref(index, *to)),
            _ => None,
        }
    }

    pub fn free(&self, scratch: &mut ScratchRegisters)
        requires
            self.scratch() matches Some(index) ==> index < SCRATCH_REGISTERS,
        ensures
            final(scratch).in_use@ == (match self.scratch() {
                Some(index) => old(scratch).in_use@.update(index, false),
                None => old(scratch).in_use@,
            }),
    {
        match self {
            Register::Scratch(index, _) => scratch.scratch_free(*index),
            Register::Deref(index, _) => scratch.scratch_free(*index),
            _ => {},
        }
    }

    pub fn name(&self) -> (name: String)
        requires
            self.operand() is Some,
        ensures
            self.operand() == Some(name@),
    {
        match self {
            Register::Scratch(index, t) => {
                ScratchRegisters::name(*index).to_owned().concat(scratch_width_str(t))
            },
            Register::Deref(index, _) => "(".to_owned().concat(
                ScratchRegisters::name(*index),
            ).concat(")"),
            Register::Stack(slot, _) => "-".to_owned().concat(
                unsigned_string(slot.bp_offset as u64).as_str(),
            ).concat("(%rbp)"),
            Register::Arg(index, t) => argument_str(*index, t).to_owned(),
            Register::Void => unreached(),
        }
    }

    pub fn get_type(&self) -> (t: NEWTypes)
        requires
            self.type_of() is Some,
        ensures
            self.type_of() == Some(t),
    {
        match self {
            Register::Scratch(_, t) => t.clone(),
            Register::Deref(_, t) => t.clone(),
            Register::Stack(_, t) => t.clone(),
            Register::Arg(_, t) => t.clone(),
            Register::Void => unreached(),
        }
    }

    pub fn set_type(&mut self, type_decl: NEWTypes)
        requires
            old(self).with_type(type_decl) is Some,
        ensures
            old(self).with_type(type_decl) == Some(*final(self)),
    {
        match self {
            Register::Scratch(_, t) => {
                *t = type_decl;
            },
            Register::Deref(_, t) => {
                *t = type_decl;
            },
            Register::Stack(_, t) => {
                *t = type_decl;
            },
            Register::Arg(_, t) => {
                *t = type_decl;
            },
            Register::Void => unreached(),
        }
    }

    pub fn convert_to_deref(self) -> (place: Register)
        requires
            self.pointee() is Some,
        ensures
            self.pointee() == Some(place),
    {
        match self {
            Register::Scratch(index, NEWTypes::Pointer(to)) => Register::Deref(index, *to),
            _ => unreached(),
        }
    }
}

impl NEWTypes {
    pub fn suffix(&self) -> (text: &'static str)
        requires
            suffix(*self) is Some,
        ensures
            suffix(*self) == Some(text@),
    {
        match self {
            NEWTypes::Primitive(Types::Char) => "b",
            NEWTypes::Primitive(Types::Int) | NEWTypes::Enum(_) => "l",
            NEWTypes::Primitive(Types::Long) | NEWTypes::Pointer(_) => "q",
            _ => unreached(),
        }
    }

    pub fn return_reg(&self) -> (text: &'static str)
        requires
            return_register(*self) is Some,
        ensures
            return_register(*self) == Some(text@),
    {
        match self {
            NEWTypes::Primitive(Types::Char) => "%al",
            NEWTypes::Primitive(Types::Int) | NEWTypes::Enum(_) => "%eax",
            NEWTypes::Primitive(Types::Long) | NEWTypes::Pointer(_) => "%rax",
            _ => unreached(),
        }
    }

    pub fn deref_at(&self) -> (to: Option<NEWTypes>)
        ensures
            to == (match *self {
                NEWTypes::Pointer(to) => Some(*to),
                _ => None,
            }),
    {
        match self {
            NEWTypes::Pointer(to) => Some((**to).clone()),
            _ => None,
        }
    }
}

fn scratch_width_str(t: &NEWTypes) -> (text: &'static str)
    requires
        scratch_width(*t) is Some,
    ensures
        scratch_width(*t) == Some(text@),
{
    match t {
        NEWTypes::Primitive(Types::Char) => "b",
        NEWTypes::Primitive(Types::Int) | NEWTypes::Enum(_) => "d",
        NEWTypes::Primitive(Types::Long) | NEWTypes::Pointer(_) => "",
        _ => unreached(),
    }
}

fn argument_str(index: usize, t: &NEWTypes) -> (text: &'static str)
    requires
        argument_name(index as int, *t) is Some,
    ensures
        argument_name(index as int, *t) == Some(text@),
{
    match t {
        NEWTypes::Primitive(Types::Char) => if index == 0 {
            "%dil"
        } else if index == 1 {
            "%sil"
        } else if index == 2 {
            "%dl"
        } else if index == 3 {
            "%cl"
        } else if index == 4 {
            "%r8b"
        } else if index == 5 {
            "%r9b"
        } else {
            unreached()
        },
        NEWTypes::Primitive(Types::Int) | NEWTypes::Enum(_) => if index == 0 {
            "%edi"
        } else if index == 1 {
            "%esi"
        } else if index == 2 {
            "%edx"
        } else if index == 3 {
            "%ecx"
        } else if index == 4 {
            "%r8d"
        } else if index == 5 {
            "%r9d"
        } else {
            unreached()
        },
        NEWTypes::Primitive(Types::Long) | NEWTypes::Pointer(_) => if index == 0 {
            "%rdi"
        } else if index == 1 {
            "%rsi"
        } else if index == 2 {
            "%rdx"
        } else if index == 3 {
            "%rcx"
        } else if index == 4 {
            "%r8"
        } else if index == 5 {
            "%r9"
        } else {
            unreached()
        },
        _ => unreached(),
    }
}

/// Number of scratch registers.
pub const SCRATCH_REGISTERS: usize = 4;

/// The first scratch register that is not in use.
pub open spec fn first_free(in_use: Seq<bool>) -> Option<int> {
    if !in_use[0] {
        Some(0)
    } else if !in_use[1] {
        Some(1)
    } else if !in_use[2] {
        Some(2)
    } else if !in_use[3] {
        Some(3)
    } else {
        None
    }
}

/// The registers in which intermediate values are held.
#[derive(Debug)]
pub struct ScratchRegisters {
    pub in_use: [bool; 4],
}

impl ScratchRegisters {
    /// None of them is in use.
    pub fn new() -> (registers: Self)
        ensures
            registers.in_use@ == seq![false, false, false, false],
    {
        let registers = ScratchRegisters { in_use: [false, false, false, false] };
        assert(registers.in_use@ =~= seq![false, false, false, false]);
        registers
    }

    /// The full-width name of a scratch register.
    pub fn name(index: usize) -> (name: &'static str)
        requires
            index < SCRATCH_REGISTERS,
        ensures
            name@ == scratch_name(index as int),
    {
        if index == 0 {
            "%r8"
        } else if index == 1 {
            "%r9"
        } else if index == 2 {
            "%r10"
        } else {
            "%r11"
        }
    }

    /// Puts the first free register to use.
    pub fn scratch_alloc(&mut self) -> (index: usize)
        requires
            first_free(old(self).in_use@) is Some,
        ensures
            first_free(old(self).in_use@) == Some(index as int),
            index < SCRATCH_REGISTERS,
            final(self).in_use@ == old(self).in_use@.update(index as int, true),
    {
        let index: usize = if !self.in_use[0] {
            0
        } else if !self.in_use[1] {
            1
        } else if !self.in_use[2] {
            2
        } else if !self.in_use[3] {
            3
        } else {
            unreached()
        };
        self.in_use[index] = true;
        index
    }

    pub fn scratch_free(&mut self, index: usize)
        requires
            index < SCRATCH_REGISTERS,
        ensures
            final(self).in_use@ == old(self).in_use@.update(index as int, false),
    {
        self.in_use[index] = false;
    }
}

} // verus!
