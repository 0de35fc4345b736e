//! The types of C values, their sizes and their ranges.

use vstd::prelude::*;

use crate::common::token::Token;

verus! {

/// The primitive types.
#[derive(Clone, Copy, PartialEq, Eq, Structural, Debug)]
pub enum Types {
    Void,
    Char,
    Int,
    Long,
}

impl Types {
    /// Number of bytes that a value of the type takes up.
    pub open spec fn bytes(self) -> nat {
        match self {
            Types::Void => 0,
            Types::Char => 1,
            Types::Int => 4,
            Types::Long => 8,
        }
    }

    /// The largest value of the type; `void` has none, for which 0 stands.
    pub open spec fn upper(self) -> int {
        match self {
            Types::Void => 0,
            Types::Char => i8::MAX as int,
            Types::Int => i32::MAX as int,
            Types::Long => i64::MAX as int,
        }
    }

    /// The smallest value of the type; `void` has none, for which 0 stands.
    pub open spec fn lower(self) -> int {
        match self {
            Types::Void => 0,
            Types::Char => i8::MIN as int,
            Types::Int => i32::MIN as int,
            Types::Long => i64::MIN as int,
        }
    }

    pub fn size(&self) -> (size: usize)
        ensures
            size == self.bytes(),
    {
        match self {
            Types::Void => 0,
            Types::Char => 1,
            Types::Int => 4,
            Types::Long => 8,
        }
    }

    pub fn max(&self) -> (max: i64)
        requires
            *self != Types::Void,
        ensures
            max == self.upper(),
    {
        match self {
            Types::Void => 0,
            Types::Char => i8::MAX as i64,
            Types::Int => i32::MAX as i64,
            Types::Long => i64::MAX,
        }
    }

    pub fn min(&self) -> (min: i64)
        requires
            *self != Types::Void,
        ensures
            min == self.lower(),
    {
        match self {
            Types::Void => 0,
            Types::Char => i8::MIN as i64,
            Types::Int => i32::MIN as i64,
            Types::Long => i64::MIN,
        }
    }
}

/// A declared struct or union: its name, or the token that opens it, and its
/// size in bytes.
#[derive(PartialEq, Debug)]
pub enum StructInfo {
    Named(String, usize),
    Anonymous(Token, usize),
}

impl Clone for StructInfo {
    fn clone(&self) -> (copy: Self)
        ensures
            copy == *self,
    {
        match self {
            StructInfo::Named(name, size) => StructInfo::Named(name.clone(), *size),
            StructInfo::Anonymous(token, size) => StructInfo::Anonymous(token.clone(), *size),
        }
    }
}

impl StructInfo {
    pub open spec fn bytes(self) -> nat {
        match self {
            StructInfo::Named(_, size) => size as nat,
            StructInfo::Anonymous(_, size) => size as nat,
        }
    }

    /// Whether both are the same declaration: a named one goes by its name, an
    /// anonymous one by the place where it is opened.
    pub open spec fn same(self, other: StructInfo) -> bool {
        match (self, other) {
            (StructInfo::Named(l, _), StructInfo::Named(r, _)) => l@ == r@,
            (StructInfo::Anonymous(l, _), StructInfo::Anonymous(r, _)) => l.line_index
                == r.line_index && l.column == r.column,
            _ => false,
        }
    }

    pub fn size(&self) -> (size: usize)
        ensures
            size == self.bytes(),
    {
        match self {
            StructInfo::Named(_, size) => *size,
            StructInfo::Anonymous(_, size) => *size,
        }
    }

    fn is_same(&self, other: &StructInfo) -> (same: bool)
        ensures
            same == self.same(*other),
    {
        match (self, other) {
            (StructInfo::Named(l, _), StructInfo::Named(r, _)) => *l == *r,
            (StructInfo::Anonymous(l, _), StructInfo::Anonymous(r, _)) => l.line_index
                == r.line_index && l.column == r.column,
            _ => false,
        }
    }
}

/// A type of the language.
#[derive(PartialEq, Debug)]
pub enum NEWTypes {
    Primitive(Types),
    Array { amount: usize, of: Box<NEWTypes> },
    Pointer(Box<NEWTypes>),
    Struct(StructInfo),
    Union(StructInfo),
    Enum(Option<String>),
}

impl Clone for NEWTypes {
    fn clone(&self) -> (copy: Self)
        ensures
            copy == *self,
        decreases self,
    {
        match self {
            NEWTypes::Primitive(primitive) => NEWTypes::Primitive(*primitive),
            NEWTypes::Array { amount, of } => NEWTypes::Array {
                amount: *amount,
                of: Box::new((**of).clone()),
            },
            NEWTypes::Pointer(to) => NEWTypes::Pointer(Box::new((**to).clone())),
            NEWTypes::Struct(info) => NEWTypes::Struct(info.clone()),
            NEWTypes::Union(info) => NEWTypes::Union(info.clone()),
            NEWTypes::Enum(None) => NEWTypes::Enum(None),
            NEWTypes::Enum(Some(name)) => NEWTypes::Enum(Some(name.clone())),
        }
    }
}

/// Whether an object of so many bytes can be addressed.
pub open spec fn addressable(bytes: nat) -> bool {
    bytes <= usize::MAX
}

impl NEWTypes {
    /// Number of bytes that a value of the type takes up.
    pub open spec fn bytes(self) -> nat
        decreases self,
    {
        match self {
            NEWTypes::Primitive(primitive) => primitive.bytes(),
            NEWTypes::Array { amount, of } => amount as nat * of.bytes(),
            NEWTypes::Pointer(_) => Types::Long.bytes(),
            NEWTypes::Struct(info) => info.bytes(),
            NEWTypes::Union(info) => info.bytes(),
            NEWTypes::Enum(_) => Types::Int.bytes(),
        }
    }

    /// Whether the size of the type, and of every type that is part of it, is
    /// addressable. What a pointer points to is no part of it.
    pub open spec fn measurable(self) -> bool
        decreases self,
    {
        match self {
            NEWTypes::Array { of, .. } => of.measurable() && addressable(self.bytes()),
            _ => addressable(self.bytes()),
        }
    }

    /// The size of a measurable type as a 64-bit constant.
    pub open spec fn size_constant(self) -> i64 {
        (self.bytes() as usize) as i64
    }

    pub open spec fn void(self) -> bool {
        self == NEWTypes::Primitive(Types::Void)
    }

    pub open spec fn integer(self) -> bool {
        match self {
            NEWTypes::Primitive(primitive) => primitive != Types::Void,
            NEWTypes::Enum(_) => true,
            _ => false,
        }
    }

    pub open spec fn scalar(self) -> bool {
        self.integer() || self is Pointer
    }

    /// The primitive type whose values a scalar type shares: an enum is an
    /// `int`, an address is a `long`.
    pub open spec fn representation(self) -> Types {
        match self {
            NEWTypes::Primitive(primitive) => primitive,
            NEWTypes::Enum(_) => Types::Int,
            NEWTypes::Pointer(_) => Types::Long,
            _ => Types::Void,
        }
    }

    /// Whether `value` is a value of the scalar type.
    pub open spec fn holds(self, value: int) -> bool {
        self.representation().lower() <= value <= self.representation().upper()
    }

    /// Whether both are the same type.
    pub open spec fn same(self, other: NEWTypes) -> bool
        decreases self,
    {
        match (self, other) {
            (NEWTypes::Primitive(l), NEWTypes::Primitive(r)) => l == r,
            (
                NEWTypes::Array { amount: l_amount, of: l },
                NEWTypes::Array { amount: r_amount, of: r },
            ) => l_amount == r_amount && l.same(*r),
            (NEWTypes::Pointer(l), NEWTypes::Pointer(r)) => l.same(*r),
            (NEWTypes::Struct(l), NEWTypes::Struct(r)) => l.same(r),
            (NEWTypes::Union(l), NEWTypes::Union(r)) => l.same(r),
            (NEWTypes::Enum(Some(l)), NEWTypes::Enum(Some(r))) => l@ == r@,
            (NEWTypes::Enum(None), NEWTypes::Enum(None)) => true,
            _ => false,
        }
    }

    pub fn size(&self) -> (size: usize)
        requires
            self.measurable(),
        ensures
            size == self.bytes(),
        decreases self,
    {
        match self {
            NEWTypes::Primitive(primitive) => primitive.size(),
            NEWTypes::Array { amount, of } => *amount * of.size(),
            NEWTypes::Pointer(_) => Types::Long.size(),
            NEWTypes::Struct(info) => info.size(),
            NEWTypes::Union(info) => info.size(),
            NEWTypes::Enum(_) => Types::Int.size(),
        }
    }

    pub fn is_void(&self) -> (void: bool)
        ensures
            void == self.void(),
    {
        matches!(self, NEWTypes::Primitive(Types::Void))
    }

    pub fn is_ptr(&self) -> (ptr: bool)
        ensures
            ptr == (self is Pointer),
    {
        matches!(self, NEWTypes::Pointer(_))
    }

    pub fn is_integer(&self) -> (integer: bool)
        ensures
            integer == self.integer(),
    {
        match self {
            NEWTypes::Primitive(primitive) => !matches!(primitive, Types::Void),
            NEWTypes::Enum(_) => true,
            _ => false,
        }
    }

    pub fn is_scalar(&self) -> (scalar: bool)
        ensures
            scalar == self.scalar(),
    {
        self.is_integer() || self.is_ptr()
    }

    pub fn is_same(&self, other: &NEWTypes) -> (same: bool)
        ensures
            same == self.same(*other),
        decreases self,
    {
        match (self, other) {
            (NEWTypes::Primitive(l), NEWTypes::Primitive(r)) => *l == *r,
            (
                NEWTypes::Array { amount: l_amount, of: l },
                NEWTypes::Array { amount: r_amount, of: r },
            ) => *l_amount == *r_amount && l.is_same(r),
            (NEWTypes::Pointer(l), NEWTypes::Pointer(r)) => l.is_same(r),
            (NEWTypes::Struct(l), NEWTypes::Struct(r)) => l.is_same(r),
            (NEWTypes::Union(l), NEWTypes::Union(r)) => l.is_same(r),
            (NEWTypes::Enum(Some(l)), NEWTypes::Enum(Some(r))) => *l == *r,
            (NEWTypes::Enum(None), NEWTypes::Enum(None)) => true,
            _ => false,
        }
    }

    pub fn get_primitive(&self) -> (primitive: Option<&Types>)
        ensures
            primitive == (match *self {
                NEWTypes::Primitive(primitive) => Some(&primitive),
                _ => None,
            }),
    {
        match self {
            NEWTypes::Primitive(primitive) => Some(primitive),
            _ => None,
        }
    }

    /// The largest value of a scalar type.
    pub fn max(&self) -> (max: i64)
        requires
            self.scalar(),
        ensures
            max == self.representation().upper(),
    {
        match self {
            NEWTypes::Primitive(primitive) => primitive.max(),
            NEWTypes::Enum(_) => Types::Int.max(),
            _ => Types::Long.max(),
        }
    }

    /// The smallest value of a scalar type.
    pub fn min(&self) -> (min: i64)
        requires
            self.scalar(),
        ensures
            min == self.representation().lower(),
    {
        match self {
            NEWTypes::Primitive(primitive) => primitive.min(),
            NEWTypes::Enum(_) => Types::Int.min(),
            _ => Types::Long.min(),
        }
    }
}

/// The type of an integer constant: `int` where it can hold it, else `long`.
pub open spec fn constant_type(n: int) -> Types {
    if i32::MIN <= n <= i32::MAX {
        Types::Int
    } else {
        Types::Long
    }
}

pub fn integer_type(n: i64) -> (primitive: Types)
    ensures
        primitive == constant_type(n as int),
{
    if i32::MIN as i64 <= n && n <= i32::MAX as i64 {
        Types::Int
    } else {
        Types::Long
    }
}

} // verus!
