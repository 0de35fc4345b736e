//! What constant folding asks of the type checker: the symbols in scope, the
//! types that type names stand for, and which types go together.

use vstd::prelude::*;

use crate::common::environment::{declare, lookup, Environment};
use crate::common::error::{error_at, Error, ErrorKind};
use crate::common::token::{Token, TokenType};
use crate::common::types::{NEWTypes, Types};
use crate::parser::expr::{DeclModifier, DeclType, ExprKind, SpecifierKind};

verus! {

/// Where a variable lives.
#[derive(PartialEq, Debug)]
pub enum Register {
    /// Nowhere: it is known at compile time.
    Literal(i64, NEWTypes),
    Stack(usize, NEWTypes),
}

#[derive(PartialEq, Debug)]
pub struct SymbolInfo {
    pub type_decl: NEWTypes,
    pub reg: Option<Register>,
}

/// What a name can stand for.
#[derive(PartialEq, Debug)]
pub enum Symbols {
    Variable(SymbolInfo),
    TypeDef(NEWTypes),
}

/// The symbols of each scope, the innermost one first.
pub type Scopes = Seq<Map<Seq<char>, Symbols>>;

/// The symbol of an enum constant.
pub open spec fn enum_constant(value: i32) -> Symbols {
    Symbols::Variable(
        SymbolInfo {
            type_decl: NEWTypes::Primitive(Types::Int),
            reg: Some(Register::Literal(value as i64, NEWTypes::Primitive(Types::Int))),
        },
    )
}

/// The scopes once the constants of an enum are declared, in order.
pub open spec fn declare_constants(scopes: Scopes, constants: Seq<(Token, i32)>) -> Scopes
    decreases constants.len(),
{
    if constants.len() == 0 {
        scopes
    } else {
        declare(
            declare_constants(scopes, constants.drop_last()),
            constants.last().0.name().unwrap(),
            enum_constant(constants.last().1),
        )
    }
}

impl SpecifierKind {
    pub open spec fn type_of(self) -> NEWTypes {
        match self {
            SpecifierKind::Primitive(primitive) => NEWTypes::Primitive(primitive),
            SpecifierKind::Struct(info) => NEWTypes::Struct(info),
            SpecifierKind::Union(info) => NEWTypes::Union(info),
            SpecifierKind::Enum(name, _) => NEWTypes::Enum(name),
        }
    }
}

/// The type that modifiers make of `base`, applied in order.
pub open spec fn modified(base: NEWTypes, modifiers: Seq<DeclModifier>) -> NEWTypes
    decreases modifiers.len(),
{
    if modifiers.len() == 0 {
        base
    } else {
        let inner = Box::new(modified(base, modifiers.drop_last()));
        match modifiers.last() {
            DeclModifier::Pointer => NEWTypes::Pointer(inner),
            DeclModifier::Array(amount) => NEWTypes::Array { amount, of: inner },
        }
    }
}

impl DeclType {
    /// The type that the type name stands for.
    pub open spec fn type_of(self) -> NEWTypes {
        modified(self.specifier.type_of(), self.modifiers@)
    }

    /// The constants that the type name declares.
    pub open spec fn constants(self) -> Seq<(Token, i32)> {
        match self.specifier {
            SpecifierKind::Enum(_, constants) => constants@,
            _ => Seq::empty(),
        }
    }

    /// Whether every constant that the type name declares has a name.
    pub open spec fn constants_named(self) -> bool {
        forall|i: int|
            0 <= i < self.constants().len() ==> (#[trigger] self.constants()[i]).0.name() is Some
    }
}

/// Keeps the symbols in scope.
pub struct TypeChecker {
    pub env: Environment<Symbols>,
}

impl View for TypeChecker {
    type V = Scopes;

    open spec fn view(&self) -> Scopes {
        self.env.scopes()
    }
}

impl TypeChecker {
    /// A checker with one scope, in which nothing is declared.
    pub fn new() -> (checker: Self)
        ensures
            checker@ == seq![Map::<Seq<char>, Symbols>::empty()],
    {
        TypeChecker { env: Environment::new(None) }
    }

    /// The symbol that an identifier stands for.
    pub fn get_symbol(&self, token: &Token) -> (symbol: Result<&Symbols, Error>)
        requires
            token.name() is Some,
        ensures
            match lookup(self@, token.name().unwrap()) {
                Some(symbol_) => symbol == Ok::<&Symbols, Error>(&symbol_),
                None => symbol == Err::<&Symbols, Error>(
                    error_at(*token, ErrorKind::UndeclaredSymbol(token.token->Ident_0)),
                ),
            },
    {
        let name = token.unwrap_string();
        match self.env.get_var(&name) {
            Some(symbol) => Ok(symbol),
            None => Err(Error::new(token, ErrorKind::UndeclaredSymbol(name))),
        }
    }

    fn declare_enum_constants(&mut self, constants: &Vec<(Token, i32)>)
        requires
            forall|i: int|
                0 <= i < constants@.len() ==> (#[trigger] constants@[i]).0.name() is Some,
        ensures
            final(self)@ == declare_constants(old(self)@, constants@),
    {
        let mut i: usize = 0;
        while i < constants.len()
            invariant
                i <= constants.len(),
                forall|i: int|
                    0 <= i < constants@.len() ==> (#[trigger] constants@[i]).0.name() is Some,
                self@ == declare_constants(old(self)@, constants@.take(i as int)),
            decreases constants.len() - i,
        {
            assert(constants@.take(i + 1).drop_last() =~= constants@.take(i as int));
            let name = constants[i].0.unwrap_string();
            let value: i32 = constants[i].1;
            self.env.declare_var(
                name,
                Symbols::Variable(
                    SymbolInfo {
                        type_decl: NEWTypes::Primitive(Types::Int),
                        reg: Some(
                            Register::Literal(value as i64, NEWTypes::Primitive(Types::Int)),
                        ),
                    },
                ),
            );
            i = i + 1;
        }
        assert(constants@.take(i as int) =~= constants@);
    }

    /// The type that a type name stands for, however large. The constants of an
    /// enum in it are declared on the way.
    pub fn parse_type(&mut self, decl_type: &DeclType) -> (parsed: Result<NEWTypes, Error>)
        requires
            decl_type.constants_named(),
        ensures
            final(self)@ == declare_constants(old(self)@, decl_type.constants()),
            parsed == Ok::<NEWTypes, Error>(decl_type.type_of()),
    {
        let mut parsed = match &decl_type.specifier {
            SpecifierKind::Primitive(primitive) => NEWTypes::Primitive(*primitive),
            SpecifierKind::Struct(info) => NEWTypes::Struct(info.clone()),
            SpecifierKind::Union(info) => NEWTypes::Union(info.clone()),
            SpecifierKind::Enum(name, constants) => {
                assert(decl_type.constants() == constants@);
                self.declare_enum_constants(constants);
                NEWTypes::Enum(
                    match name {
                        Some(name) => Some(name.clone()),
                        None => None,
                    },
                )
            },
        };
        let ghost base = parsed;
        let mut i: usize = 0;
        while i < decl_type.modifiers.len()
            invariant
                i <= decl_type.modifiers.len(),
                base == decl_type.specifier.type_of(),
                self@ == declare_constants(old(self)@, decl_type.constants()),
                parsed == modified(base, decl_type.modifiers@.take(i as int)),
            decreases decl_type.modifiers.len() - i,
        {
            assert(decl_type.modifiers@.take(i + 1).drop_last() =~= decl_type.modifiers@.take(
                i as int,
            ));
            parsed = match decl_type.modifiers[i] {
                DeclModifier::Pointer => NEWTypes::Pointer(Box::new(parsed)),
                DeclModifier::Array(amount) => NEWTypes::Array { amount, of: Box::new(parsed) },
            };
            i = i + 1;
        }
        assert(decl_type.modifiers@.take(i as int) =~= decl_type.modifiers@);
        Ok(parsed)
    }
}

/// Whether a value of type `right` can go where one of type `left` is expected.
/// The constant 0 can stand for a null pointer.
pub open spec fn compatible(left: NEWTypes, right: NEWTypes, right_is_zero: bool) -> bool {
    match (left, right) {
        (NEWTypes::Pointer(l), NEWTypes::Pointer(r)) => l.void() || r.void() || l.same(*r),
        (NEWTypes::Pointer(_), _) => right.integer() && right_is_zero,
        _ => left.integer() && right.integer() || left.same(right),
    }
}

impl NEWTypes {
    pub fn type_compatible(&self, other: &NEWTypes, other_expr: &ExprKind) -> (yes: bool)
        ensures
            yes == compatible(*self, *other, *other_expr == ExprKind::Literal(0)),
    {
        match (self, other) {
            (NEWTypes::Pointer(l), NEWTypes::Pointer(r)) => l.is_void() || r.is_void()
                || l.is_same(r),
            (NEWTypes::Pointer(_), _) => other.is_integer() && matches!(other_expr, ExprKind::Literal(0)),
            _ => self.is_integer() && other.is_integer() || self.is_same(other),
        }
    }
}

/// Whether a binary operator takes operands of these types: any two integers,
/// a pointer and an integer to be added to it or subtracted from it, and two
/// compatible pointers to be subtracted.
pub open spec fn valid_binary(
    token: TokenType,
    left: NEWTypes,
    right: NEWTypes,
    right_is_zero: bool,
) -> bool {
    if !left.scalar() || !right.scalar() {
        false
    } else if left is Pointer && right is Pointer {
        token is Minus && compatible(left, right, right_is_zero)
    } else if right is Pointer {
        token is Plus
    } else if left is Pointer {
        token is Plus || token is Minus
    } else {
        true
    }
}

pub fn is_valid_bin(
    token: &Token,
    left_type: &NEWTypes,
    right_type: &NEWTypes,
    right_expr: &ExprKind,
) -> (valid: bool)
    ensures
        valid == valid_binary(
            token.token,
            *left_type,
            *right_type,
            *right_expr == ExprKind::Literal(0),
        ),
{
    if !left_type.is_scalar() || !right_type.is_scalar() {
        false
    } else if left_type.is_ptr() && right_type.is_ptr() {
        matches!(token.token, TokenType::Minus) && left_type.type_compatible(right_type, right_expr)
    } else if right_type.is_ptr() {
        matches!(token.token, TokenType::Plus)
    } else if left_type.is_ptr() {
        matches!(token.token, TokenType::Plus) || matches!(token.token, TokenType::Minus)
    } else {
        true
    }
}

/// Whether an operand of type `operand` can be scaled where the other one is of
/// type `other`: the size of what a pointer points to is looked at only beside
/// an integer.
pub open spec fn scalable(operand: NEWTypes, other: NEWTypes) -> bool {
    match other {
        NEWTypes::Pointer(to) => operand is Pointer || to.measurable(),
        _ => true,
    }
}

/// What an operand of type `operand` is multiplied by where the other one is of
/// type `other`: an integer beside a pointer counts objects, not bytes.
pub open spec fn scale(operand: NEWTypes, other: NEWTypes) -> int {
    match other {
        NEWTypes::Pointer(to) => if !(operand is Pointer) && to.bytes() > 1 {
            to.size_constant() as int
        } else {
            1
        },
        _ => 1,
    }
}

/// What the left operand, or the right one, is scaled by.
#[derive(Clone, Copy, PartialEq, Eq, Structural, Debug)]
pub enum Scaled {
    Left(usize),
    Right(usize),
}

pub fn maybe_scale(left: &NEWTypes, right: &NEWTypes) -> (scaled: Option<Scaled>)
    requires
        scalable(*left, *right),
        scalable(*right, *left),
    ensures
        match scaled {
            Some(Scaled::Left(amount)) => scale(*left, *right) == amount as i64 && scale(
                *right,
                *left,
            ) == 1,
            Some(Scaled::Right(amount)) => scale(*right, *left) == amount as i64 && scale(
                *left,
                *right,
            ) == 1,
            None => scale(*left, *right) == 1 && scale(*right, *left) == 1,
        },
{
    match (left, right) {
        (NEWTypes::Pointer(_), NEWTypes::Pointer(_)) => None,
        (_, NEWTypes::Pointer(to)) => {
            let size = to.size();
            if size > 1 {
                Some(Scaled::Left(size))
            } else {
                None
            }
        },
        (NEWTypes::Pointer(to), _) => {
            let size = to.size();
            if size > 1 {
                Some(Scaled::Right(size))
            } else {
                None
            }
        },
        _ => None,
    }
}

} // verus!
