//! Folding of constant expressions.

use vstd::pervasive::unreached;
use vstd::prelude::*;

use crate::common::error::{error_at, Error, ErrorKind};
use crate::common::token::{Location, Token, TokenType};
use crate::common::types::{integer_type, NEWTypes, Types};
use crate::parser::expr::{constant, weight, DeclType, Expr, ExprKind, ValueKind};
use crate::parser::fold_spec::{
    abs, binary_rule, comparison_rule, const_cast_rule, converted, division_rule, fits_i64, fold,
    fold_after, fold_operands, ident_rule, logical_rule, quotient, remainder, shift_rule,
    ternary_rule, unary_rule, wider, Fold, Outcome, Rule,
};
use crate::parser::typechecker::{
    declare_constants, is_valid_bin, maybe_scale, Register, Scaled, Scopes, SymbolInfo, Symbols,
    TypeChecker,
};

verus! {

/// Whether `answer` is what `rule` says of a node: that it stays, what replaces
/// it, or an error.
pub open spec fn answers(answer: Result<Option<Expr>, Error>, rule: Rule) -> bool {
    match rule {
        Rule::Keep => answer == Ok::<Option<Expr>, Error>(None),
        Rule::Replace(expr) => answer == Ok::<Option<Expr>, Error>(Some(expr)),
        Rule::Fail(error) => answer == Err::<Option<Expr>, Error>(error),
        Rule::Stuck => false,
    }
}

/// Whether `answer` is how folding ended.
pub open spec fn ends(answer: Result<(), Error>, outcome: Outcome) -> bool {
    match outcome {
        Outcome::Folded => answer == Ok::<(), Error>(()),
        Outcome::Failed(error) => answer == Err::<(), Error>(error),
        Outcome::Stuck => false,
    }
}

/// The value of a folded expression, the error that folding ended with, or
/// `otherwise` where the expression is not constant.
pub open spec fn constant_value(folded: Fold, otherwise: Error) -> Result<i64, Error> {
    match folded.outcome {
        Outcome::Failed(error) => Err(error),
        _ => match folded.expr.kind {
            ExprKind::Literal(n) => Ok(n),
            _ => Err(otherwise),
        },
    }
}

/// One scope, in which nothing is declared.
pub open spec fn no_symbols() -> Scopes {
    seq![Map::empty()]
}

fn overflowing_add(left: i64, right: i64) -> (sum: (i64, bool))
    ensures
        sum.1 == !fits_i64(left + right),
        !sum.1 ==> sum.0 == left + right,
{
    match left.checked_add(right) {
        Some(value) => (value, false),
        None => (left.wrapping_add(right), true),
    }
}

fn overflowing_sub(left: i64, right: i64) -> (difference: (i64, bool))
    ensures
        difference.1 == !fits_i64(left - right),
        !difference.1 ==> difference.0 == left - right,
{
    match left.checked_sub(right) {
        Some(value) => (value, false),
        None => (left.wrapping_sub(right), true),
    }
}

fn overflowing_mul(left: i64, right: i64) -> (product: (i64, bool))
    ensures
        product.1 == !fits_i64(left * right),
        !product.1 ==> product.0 == left * right,
{
    match left.checked_mul(right) {
        Some(value) => (value, false),
        None => (left.wrapping_mul(right), true),
    }
}

fn overflowing_div(left: i64, right: i64) -> (result: (i64, bool))
    requires
        right != 0,
    ensures
        result.1 == !fits_i64(quotient(left as int, right as int)),
        !result.1 ==> result.0 == quotient(left as int, right as int),
{
    assert(left == 0 ==> abs(left as int) / abs(right as int) == 0) by {
        assert(0int / abs(right as int) == 0) by (nonlinear_arith)
            requires
                abs(right as int) > 0,
        ;
    }
    match left.checked_div(right) {
        Some(value) => (value, false),
        None => (left, true),
    }
}

/// Only one quotient of two 64-bit values is no such value.
pub(crate) proof fn lemma_quotient_fits(x: i64, y: i64)
    requires
        y != 0,
    ensures
        fits_i64(quotient(x as int, y as int)) == !(x == i64::MIN && y == -1),
        0 <= abs(x as int) % abs(y as int) < abs(y as int),
        x == 0 ==> abs(x as int) % abs(y as int) == 0,
{
    let a = abs(x as int);
    let b = abs(y as int);
    assert(0 <= a / b <= a && (b >= 2 ==> 2 * (a / b) <= a) && (b == 1 ==> a / b == a)) by (nonlinear_arith)
        requires
            a >= 0,
            b > 0,
    ;
    assert(0 <= a % b < b && (a == 0 ==> a % b == 0)) by (nonlinear_arith)
        requires
            a >= 0,
            b > 0,
    ;
}

fn overflowing_rem(left: i64, right: i64) -> (result: (i64, bool))
    requires
        right != 0,
    ensures
        result.1 == !fits_i64(quotient(left as int, right as int)),
        !result.1 ==> result.0 == remainder(left as int, right as int),
{
    proof {
        lemma_quotient_fits(left, right);
    }
    match left.checked_rem(right) {
        Some(value) => (value, false),
        None => (0, true),
    }
}

impl Expr {
    /// The constant `value` of a primitive type.
    pub fn new_literal(value: i64, primitive_type: Types) -> (literal: Self)
        ensures
            literal == constant(value, NEWTypes::Primitive(primitive_type)),
    {
        Expr {
            type_decl: Some(NEWTypes::Primitive(primitive_type)),
            kind: ExprKind::Literal(value),
            value_kind: ValueKind::Rvalue,
        }
    }

    fn type_overflow(value: i64, type_decl: &NEWTypes) -> (overflow: bool)
        requires
            type_decl.scalar(),
        ensures
            overflow == !type_decl.holds(value as int),
    {
        (value > type_decl.max()) || (value < type_decl.min())
    }

    /// The constant that an operation on operands of these types gives, from its
    /// 64-bit result and whether that overflowed.
    fn literal_type(
        token: &Token,
        left_type: NEWTypes,
        right_type: NEWTypes,
        operation: (i64, bool),
    ) -> (literal: Result<Expr, Error>)
        requires
            left_type.scalar(),
            right_type.scalar(),
        ensures
            literal == (if operation.1 || !wider(left_type, right_type).holds(operation.0 as int) {
                Err(error_at(*token, ErrorKind::IntegerOverflow(wider(left_type, right_type))))
            } else {
                Ok(constant(operation.0, wider(left_type, right_type)))
            }),
    {
        let (value, overflow) = operation;
        let result_type = if left_type.size() > right_type.size() {
            left_type
        } else {
            right_type
        };
        let result_type = if result_type.size() < Types::Int.size() {
            NEWTypes::Primitive(Types::Int)
        } else {
            result_type
        };
        // calculation can overflow or type from literal can overflow
        if overflow || Self::type_overflow(value, &result_type) {
            Err(Error::new(token, ErrorKind::IntegerOverflow(result_type)))
        } else {
            Ok(
                Expr {
                    kind: ExprKind::Literal(value),
                    type_decl: Some(result_type),
                    value_kind: ValueKind::Rvalue,
                },
            )
        }
    }

    /// The quotient or the remainder of two constants, which are scaled where need be.
    pub fn div_fold(
        token: &Token,
        left_type: NEWTypes,
        right_type: NEWTypes,
        left: i64,
        right: i64,
    ) -> (folded: Result<Expr, Error>)
        requires
            left_type.scalar(),
            right_type.scalar(),
            !(division_rule(
                *token,
                wider(left_type, right_type),
                left as int,
                right as int,
            ) is Stuck),
        ensures
            match division_rule(*token, wider(left_type, right_type), left as int, right as int) {
                Rule::Replace(expr) => folded == Ok::<Expr, Error>(expr),
                Rule::Fail(error) => folded == Err::<Expr, Error>(error),
                _ => false,
            },
    {
        if right == 0 {
            return Err(Error::new(token, ErrorKind::DivideByZero));
        }
        let operation = match token.token {
            TokenType::Slash => overflowing_div(left, right),
            TokenType::Mod => overflowing_rem(left, right),
            _ => unreached(),
        };
        Self::literal_type(token, left_type, right_type, operation)
    }

    /// A constant shifted by another.
    pub fn shift_fold(token: &Token, left_type: NEWTypes, left: i64, right: i64) -> (folded: Result<
        Expr,
        Error,
    >)
        requires
            left_type.scalar(),
            !(shift_rule(*token, left_type, left, right) is Stuck),
        ensures
            match shift_rule(*token, left_type, left, right) {
                Rule::Replace(expr) => folded == Ok::<Expr, Error>(expr),
                Rule::Fail(error) => folded == Err::<Expr, Error>(error),
                _ => false,
            },
    {
        // result type is only dependant on left operand
        let left_type = if left_type.size() < Types::Int.size() {
            NEWTypes::Primitive(Types::Int)
        } else {
            left_type
        };
        if right < 0 {
            return Err(Error::new(token, ErrorKind::NegativeShift));
        }
        let count: u32 = (right as u64 % 0x1_0000_0000) as u32;
        let overflow = count >= 64;
        let value: i64 = match token.token {
            TokenType::GreaterGreater => left.wrapping_shr(count),
            TokenType::LessLess => left.wrapping_shl(count),
            _ => unreached(),
        };
        if overflow || Self::type_overflow(value, &left_type) {
            Err(Error::new(token, ErrorKind::IntegerOverflow(left_type)))
        } else {
            Ok(
                Expr {
                    kind: ExprKind::Literal(value),
                    type_decl: Some(left_type),
                    value_kind: ValueKind::Rvalue,
                },
            )
        }
    }
}

impl Expr {
    /// The value of an expression that has to be constant where `token` stands.
    pub fn get_literal_constant(
        &mut self,
        typechecker: &mut TypeChecker,
        token: &Token,
        msg: &'static str,
    ) -> (value: Result<i64, Error>)
        requires
            !(fold(*old(self), old(typechecker)@).outcome is Stuck),
        ensures
            *final(self) == fold(*old(self), old(typechecker)@).expr,
            final(typechecker)@ == fold(*old(self), old(typechecker)@).scopes,
            value == constant_value(
                fold(*old(self), old(typechecker)@),
                error_at(*token, ErrorKind::NotIntegerConstant(msg)),
            ),
    {
        self.integer_const_fold(typechecker)?;

        if let ExprKind::Literal(n) = self.kind {
            Ok(n)
        } else {
            Err(Error::new(token, ErrorKind::NotIntegerConstant(msg)))
        }
    }

    /// The value of an expression in a preprocessor directive, where no symbols
    /// are in scope.
    pub fn preprocessor_constant<L: Location>(&mut self, pp: &L) -> (value: Result<i64, Error>)
        requires
            !(fold(*old(self), no_symbols()).outcome is Stuck),
        ensures
            *final(self) == fold(*old(self), no_symbols()).expr,
            value == constant_value(
                fold(*old(self), no_symbols()),
                error_at(*pp, ErrorKind::Regular("Invalid preprocessor constant expression")),
            ),
    {
        let mut typechecker = TypeChecker::new();
        self.integer_const_fold(&mut typechecker)?;

        if let ExprKind::Literal(n) = self.kind {
            Ok(n)
        } else {
            Err(Error::new(pp, ErrorKind::Regular("Invalid preprocessor constant expression")))
        }
    }

    /// Folds the expression as far as its constants allow.
    ///
    /// An operand that was folded before an error was found stays folded.
    pub fn integer_const_fold(&mut self, typechecker: &mut TypeChecker) -> (folded: Result<
        (),
        Error,
    >)
        requires
            !(fold(*old(self), old(typechecker)@).outcome is Stuck),
        ensures
            *final(self) == fold(*old(self), old(typechecker)@).expr,
            final(typechecker)@ == fold(*old(self), old(typechecker)@).scopes,
            ends(folded, fold(*old(self), old(typechecker)@).outcome),
        decreases weight(*old(self)), 1nat,
    {
        self.fold_operands(typechecker)?;

        let folded: Option<Expr> = match &mut self.kind {
            ExprKind::Ident(name) => Self::ident_fold(typechecker, name),
            ExprKind::Binary { left, token, right } => Self::binary_fold(left, token, right)?,
            ExprKind::Unary { token, right } => Self::unary_fold(token, right)?,
            ExprKind::Logical { left, token, right } => Self::logical_fold(token, left, right),
            ExprKind::Comparison { left, token, right } => Self::comp_fold(token, left, right)?,
            ExprKind::Cast { token, decl_type, expr } => {
                Self::const_cast(typechecker, token, decl_type, expr)?
            },
            ExprKind::Grouping { expr } => Some(take(expr)),
            ExprKind::Ternary { token, cond, true_expr, false_expr } => {
                Self::ternary_fold(token, cond, true_expr, false_expr)?
            },
            ExprKind::SizeofType { decl_type } => {
                let size: usize = typechecker.parse_type(decl_type)?.size();
                Some(Expr::new_literal(size as i64, integer_type(size as i64)))
            },
            _ => None,
        };

        if let Some(folded_expr) = folded {
            *self = folded_expr;
        }
        Ok(())
    }

    /// Folds the operands, the left one first.
    fn fold_operands(&mut self, typechecker: &mut TypeChecker) -> (folded: Result<(), Error>)
        requires
            !(fold_operands(*old(self), old(typechecker)@).outcome is Stuck),
        ensures
            *final(self) == fold_operands(*old(self), old(typechecker)@).expr,
            final(typechecker)@ == fold_operands(*old(self), old(typechecker)@).scopes,
            ends(folded, fold_operands(*old(self), old(typechecker)@).outcome),
        decreases weight(*old(self)), 0nat,
    {
        match &mut self.kind {
            ExprKind::Binary { left, right, .. } => Self::fold_both(typechecker, left, right),
            ExprKind::Logical { left, right, .. } => Self::fold_both(typechecker, left, right),
            ExprKind::Comparison { left, right, .. } => Self::fold_both(typechecker, left, right),
            ExprKind::Assign { l_expr, r_expr, .. } => Self::fold_both(typechecker, l_expr, r_expr),
            ExprKind::CompoundAssign { l_expr, r_expr, .. } => Self::fold_both(
                typechecker,
                l_expr,
                r_expr,
            ),
            ExprKind::Comma { left, right } => Self::fold_both(typechecker, left, right),
            ExprKind::Ternary { cond, true_expr, false_expr, .. } => {
                Self::fold_both(typechecker, cond, true_expr)?;
                false_expr.integer_const_fold(typechecker)
            },
            ExprKind::Unary { right, .. } => right.integer_const_fold(typechecker),
            ExprKind::Cast { expr, .. } => expr.integer_const_fold(typechecker),
            ExprKind::Grouping { expr } => expr.integer_const_fold(typechecker),
            ExprKind::ScaleUp { expr, .. } => expr.integer_const_fold(typechecker),
            ExprKind::ScaleDown { expr, .. } => expr.integer_const_fold(typechecker),
            ExprKind::MemberAccess { expr, .. } => expr.integer_const_fold(typechecker),
            ExprKind::PostUnary { left, .. } => left.integer_const_fold(typechecker),
            _ => Ok(()),
        }
    }

    fn fold_both(
        typechecker: &mut TypeChecker,
        left: &mut Expr,
        right: &mut Expr,
    ) -> (folded: Result<(), Error>)
        requires
            !(fold_after(fold(*old(left), old(typechecker)@), *old(right)).outcome is Stuck),
        ensures
            *final(left) == fold(*old(left), old(typechecker)@).expr,
            *final(right) == fold_after(fold(*old(left), old(typechecker)@), *old(right)).expr,
            final(typechecker)@ == fold_after(
                fold(*old(left), old(typechecker)@),
                *old(right),
            ).scopes,
            ends(folded, fold_after(fold(*old(left), old(typechecker)@), *old(right)).outcome),
        decreases weight(*old(left)) + weight(*old(right)), 2nat,
    {
        left.integer_const_fold(typechecker)?;
        right.integer_const_fold(typechecker)
    }

    /// The value of a variable that is known when compiling.
    fn ident_fold(typechecker: &TypeChecker, name: &Token) -> (folded: Option<Expr>)
        requires
            !(ident_rule(*name, typechecker@) is Stuck),
        ensures
            answers(Ok(folded), ident_rule(*name, typechecker@)),
    {
        match typechecker.get_symbol(name) {
            Ok(
                Symbols::Variable(SymbolInfo { reg: Some(Register::Literal(n, _)), type_decl }),
            ) => Some(Expr::new_literal(*n, *type_decl.get_primitive().unwrap())),
            _ => None,
        }
    }

    /// What a binary operator makes of folded operands.
    pub fn binary_fold(left: &Expr, token: &Token, right: &Expr) -> (folded: Result<
        Option<Expr>,
        Error,
    >)
        requires
            !(binary_rule(*token, *left, *right) is Stuck),
        ensures
            answers(folded, binary_rule(*token, *left, *right)),
    {
        match (&left.kind, &right.kind) {
            (ExprKind::Literal(left_n), ExprKind::Literal(right_n)) => {
                let (mut left_n, mut right_n): (i64, i64) = (*left_n, *right_n);
                let left_type = left.type_decl.as_ref().unwrap().clone();
                let right_type = right.type_decl.as_ref().unwrap().clone();

                if !is_valid_bin(token, &left_type, &right_type, &right.kind) {
                    return Err(
                        Error::new(
                            token,
                            ErrorKind::InvalidBinary(token.token.clone(), left_type, right_type),
                        ),
                    );
                }
                match maybe_scale(&left_type, &right_type) {
                    Some(Scaled::Left(amount)) => {
                        left_n = left_n * amount as i64;
                    },
                    Some(Scaled::Right(amount)) => {
                        right_n = right_n * amount as i64;
                    },
                    None => {},
                }

                let literal = match token.token {
                    TokenType::Plus => Self::literal_type(
                        token,
                        left_type,
                        right_type,
                        overflowing_add(left_n, right_n),
                    )?,
                    TokenType::Minus => Self::literal_type(
                        token,
                        left_type,
                        right_type,
                        overflowing_sub(left_n, right_n),
                    )?,
                    TokenType::Star => Self::literal_type(
                        token,
                        left_type,
                        right_type,
                        overflowing_mul(left_n, right_n),
                    )?,
                    TokenType::Slash | TokenType::Mod => Self::div_fold(
                        token,
                        left_type,
                        right_type,
                        left_n,
                        right_n,
                    )?,
                    TokenType::GreaterGreater | TokenType::LessLess => Self::shift_fold(
                        token,
                        left_type,
                        left_n,
                        right_n,
                    )?,
                    TokenType::Pipe => Self::literal_type(
                        token,
                        left_type,
                        right_type,
                        (left_n | right_n, false),
                    )?,
                    TokenType::Xor => Self::literal_type(
                        token,
                        left_type,
                        right_type,
                        (left_n ^ right_n, false),
                    )?,
                    TokenType::Amp => Self::literal_type(
                        token,
                        left_type,
                        right_type,
                        (left_n & right_n, false),
                    )?,
                    _ => unreached(),
                };
                Ok(Some(literal))
            },
            _ => Ok(None),
        }
    }

    /// What a unary operator makes of a folded operand.
    pub fn unary_fold(token: &Token, right: &Expr) -> (folded: Result<Option<Expr>, Error>)
        requires
            !(unary_rule(*token, *right) is Stuck),
        ensures
            answers(folded, unary_rule(*token, *right)),
    {
        match (&right.kind, &token.token) {
            (ExprKind::Literal(n), TokenType::Bang) => {
                Ok(Some(Expr::new_literal(if *n == 0 { 1 } else { 0 }, Types::Int)))
            },
            (ExprKind::Literal(n), TokenType::Minus | TokenType::Plus | TokenType::Tilde) => {
                let n: i64 = *n;
                let right_type = right.type_decl.as_ref().unwrap().clone();

                if !right_type.is_integer() {
                    return Err(
                        Error::new(
                            token,
                            ErrorKind::InvalidUnary(token.token.clone(), right_type, "integer"),
                        ),
                    );
                }
                let operation = match token.token {
                    TokenType::Plus => (n, false),
                    TokenType::Tilde => (!n, false),
                    _ => overflowing_sub(0, n),
                };
                Ok(
                    Some(
                        Self::literal_type(token, right_type.clone(), right_type, operation)?,
                    ),
                )
            },
            _ => Ok(None),
        }
    }

    /// What `&&` or `||` makes of folded operands.
    pub fn logical_fold(token: &Token, left: &Expr, right: &Expr) -> (folded: Option<Expr>)
        requires
            !(logical_rule(*token, *left, *right) is Stuck),
        ensures
            answers(Ok(folded), logical_rule(*token, *left, *right)),
    {
        match token.token {
            TokenType::AmpAmp => match (&left.kind, &right.kind) {
                (ExprKind::Literal(0), _) => Some(Expr::new_literal(0, Types::Int)),
                (ExprKind::Literal(left_n), ExprKind::Literal(right_n)) => if *left_n != 0
                    && *right_n != 0 {
                    Some(Expr::new_literal(1, Types::Int))
                } else {
                    Some(Expr::new_literal(0, Types::Int))
                },
                _ => None,
            },
            TokenType::PipePipe => match (&left.kind, &right.kind) {
                (ExprKind::Literal(1), _) => Some(Expr::new_literal(1, Types::Int)),
                (ExprKind::Literal(left_n), ExprKind::Literal(right_n)) => if *left_n == 0
                    && *right_n == 0 {
                    Some(Expr::new_literal(0, Types::Int))
                } else {
                    Some(Expr::new_literal(1, Types::Int))
                },
                _ => None,
            },
            _ => unreached(),
        }
    }

    /// What a comparison makes of folded operands.
    pub fn comp_fold(token: &Token, left: &Expr, right: &Expr) -> (folded: Result<
        Option<Expr>,
        Error,
    >)
        requires
            !(comparison_rule(*token, *left, *right) is Stuck),
        ensures
            answers(folded, comparison_rule(*token, *left, *right)),
    {
        match (&left.kind, &right.kind) {
            (ExprKind::Literal(left_n), ExprKind::Literal(right_n)) => {
                let (left_n, right_n): (i64, i64) = (*left_n, *right_n);
                let left_type = left.type_decl.as_ref().unwrap();
                let right_type = right.type_decl.as_ref().unwrap();

                if !left_type.type_compatible(right_type, &right.kind) || left_type.is_void()
                    || right_type.is_void() {
                    return Err(
                        Error::new(
                            token,
                            ErrorKind::InvalidComp(
                                token.token.clone(),
                                left_type.clone(),
                                right_type.clone(),
                            ),
                        ),
                    );
                }
                let holds = match token.token {
                    TokenType::BangEqual => left_n != right_n,
                    TokenType::EqualEqual => left_n == right_n,
                    TokenType::Greater => left_n > right_n,
                    TokenType::GreaterEqual => left_n >= right_n,
                    TokenType::Less => left_n < right_n,
                    TokenType::LessEqual => left_n <= right_n,
                    _ => unreached(),
                };
                Ok(Some(Expr::new_literal(if holds { 1 } else { 0 }, Types::Int)))
            },
            _ => Ok(None),
        }
    }

    /// What is left of a ternary is moved out of it.
    fn ternary_fold(
        token: &Token,
        cond: &Expr,
        true_expr: &mut Expr,
        false_expr: &mut Expr,
    ) -> (folded: Result<Option<Expr>, Error>)
        requires
            !(ternary_rule(*token, *cond, *old(true_expr), *old(false_expr)) is Stuck),
        ensures
            answers(folded, ternary_rule(*token, *cond, *old(true_expr), *old(false_expr))),
            !(folded matches Ok(Some(_))) ==> *final(true_expr) == *old(true_expr),
            !(folded matches Ok(Some(_))) ==> *final(false_expr) == *old(false_expr),
    {
        if let (ExprKind::Literal(_), ExprKind::Literal(_)) = (&true_expr.kind, &false_expr.kind) {
            let true_type = true_expr.type_decl.as_ref().unwrap();
            let false_type = false_expr.type_decl.as_ref().unwrap();

            if !true_type.type_compatible(false_type, &false_expr.kind) {
                return Err(
                    Error::new(
                        token,
                        ErrorKind::TypeMismatch(true_type.clone(), false_type.clone()),
                    ),
                );
            }
        }

        match &cond.kind {
            ExprKind::Literal(0) => Ok(Some(take(false_expr))),
            ExprKind::Literal(_) => Ok(Some(take(true_expr))),
            _ => Ok(None),
        }
    }

    fn const_cast(
        typechecker: &mut TypeChecker,
        token: &Token,
        decl_type: &DeclType,
        expr: &Expr,
    ) -> (folded: Result<Option<Expr>, Error>)
        requires
            !(const_cast_rule(*token, *decl_type, *expr) is Stuck),
        ensures
            answers(folded, const_cast_rule(*token, *decl_type, *expr)),
            final(typechecker)@ == (if expr.kind is Literal {
                declare_constants(old(typechecker)@, decl_type.constants())
            } else {
                old(typechecker)@
            }),
    {
        match &expr.kind {
            ExprKind::Literal(right) => {
                let right: i64 = *right;
                let new_type = typechecker.parse_type(decl_type)?;
                let old_type = expr.type_decl.as_ref().unwrap().clone();

                let (n, new_type) = Self::valid_cast(token, old_type, new_type, right)?;
                Ok(
                    Some(
                        Expr {
                            kind: ExprKind::Literal(n),
                            type_decl: Some(new_type),
                            value_kind: ValueKind::Rvalue,
                        },
                    ),
                )
            },
            _ => Ok(None),
        }
    }

    fn valid_cast(
        token: &Token,
        old_type: NEWTypes,
        new_type: NEWTypes,
        right_fold: i64,
    ) -> (cast: Result<(i64, NEWTypes), Error>)
        ensures
            cast == (if old_type.scalar() && new_type.scalar() {
                Ok((converted(new_type, right_fold), new_type))
            } else {
                Err(error_at(*token, ErrorKind::InvalidConstCast(old_type, new_type)))
            }),
    {
        let result: Option<i64> = if !old_type.is_scalar() || !new_type.is_scalar() {
            None
        } else {
            match &new_type {
                NEWTypes::Primitive(Types::Char) => Some(right_fold as i8 as i64),
                NEWTypes::Primitive(Types::Int) | NEWTypes::Enum(_) => Some(
                    right_fold as i32 as i64,
                ),
                NEWTypes::Primitive(Types::Long) | NEWTypes::Pointer(_) => Some(right_fold),
                _ => None,
            }
        };

        if let Some(result) = result {
            Ok((result, new_type))
        } else {
            Err(Error::new(token, ErrorKind::InvalidConstCast(old_type, new_type)))
        }
    }
}

/// Moves an expression out of its place.
fn take(expr: &mut Expr) -> (taken: Expr)
    ensures
        taken == *old(expr),
{
    let mut taken = Expr { kind: ExprKind::Nop, type_decl: None, value_kind: ValueKind::Rvalue };
    core::mem::swap(expr, &mut taken);
    taken
}

} // verus!
