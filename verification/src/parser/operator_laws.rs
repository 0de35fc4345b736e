//! Laws of the operators on constants.

use vstd::arithmetic::power2::{lemma2_to64, lemma_pow2_unfold, pow2};
use vstd::prelude::*;

use crate::common::token::{Token, TokenType};
use crate::common::types::{NEWTypes, Types};
use crate::parser::expr::{constant, Expr, ExprKind};
use crate::parser::fold_spec::{
    abs, binary_rule, compares, comparison_rule, division_rule, fits_i64, promoted, quotient,
    remainder, truth, unary_rule, Rule,
};
use crate::parser::typechecker::{compatible, scale};
use crate::parser::fold::lemma_quotient_fits;

verus! {

/// Dividing and multiplying back, with the remainder added, gives the dividend;
/// the remainder is smaller than the divisor and has the sign of the dividend.
pub proof fn law_division(x: int, y: int)
    requires
        y != 0,
    ensures
        quotient(x, y) * y + remainder(x, y) == x,
        abs(remainder(x, y)) < abs(y),
        remainder(x, y) != 0 ==> (remainder(x, y) < 0) == (x < 0),
{
    let a = abs(x);
    let b = abs(y);
    let q = a / b;
    let r = a % b;
    assert(q * b + r == a && 0 <= r < b) by (nonlinear_arith)
        requires
            b > 0,
            q == a / b,
            r == a % b,
    ;
    assert(q * b == (-q) * (-b) && (-q) * b == -(q * b) && q * (-b) == -(q * b)) by (nonlinear_arith);
}

/// Shifting right divides by a power of two and rounds down.
pub proof fn law_shift_right(x: i64, count: u32)
    requires
        count < 64,
    ensures
        pow2(count as nat) * (x >> count) <= x < pow2(count as nat) * ((x >> count) + 1),
    decreases count,
{
    lemma2_to64();
    if count == 0 {
        assert(x >> 0u32 == x) by (bit_vector);
    } else {
        let less = (count - 1) as u32;
        law_shift_right(x, less);
        lemma_pow2_unfold(count as nat);
        let before = x >> less;
        let after = x >> count;
        let power = pow2(less as nat);
        assert(2 * (x >> count) <= (x >> less) <= 2 * (x >> count) + 1) by (bit_vector)
            requires
                count < 64,
                less + 1 == count,
        ;
        assert(2 * power * after <= x < 2 * power * (after + 1)) by (nonlinear_arith)
            requires
                power * before <= x < power * (before + 1),
                2 * after <= before <= 2 * after + 1,
                power >= 0,
        ;
    }
}

/// Shifting left multiplies by a power of two, where 64 bits can hold the
/// result.
pub proof fn law_shift_left(x: i64, count: u32)
    requires
        count < 64,
        fits_i64(x * pow2(count as nat)),
    ensures
        x << count == x * pow2(count as nat),
    decreases count,
{
    lemma2_to64();
    if count == 0 {
        assert(x << 0u32 == x) by (bit_vector);
        let power = pow2(0);
        assert(x * power == x) by (nonlinear_arith)
            requires
                power == 1,
        ;
    } else {
        let less = (count - 1) as u32;
        lemma_pow2_unfold(count as nat);
        let power = pow2(less as nat);
        assert(x * (2 * power) == 2 * (x * power)) by (nonlinear_arith);
        law_shift_left(x, less);
        assert(x << count == 2 * (x << less)) by (bit_vector)
            requires
                count < 64,
                less + 1 == count,
                -0x4000_0000_0000_0000 <= (x << less) <= 0x3fff_ffff_ffff_ffff,
        ;
    }
}

/// What arithmetic gives is never narrower than an `int`, however narrow its
/// operands are.
pub proof fn law_promotion(token: Token, left: Expr, right: Expr)
    ensures
        binary_rule(token, left, right) matches Rule::Replace(folded) ==> folded.type_decl
            matches Some(t) && t.bytes() >= Types::Int.bytes(),
        unary_rule(token, right) matches Rule::Replace(folded) ==> folded.type_decl matches Some(t)
            && t.bytes() >= Types::Int.bytes(),
{
}

/// A pointer plus or minus an integer narrower than a pointer is a pointer of
/// the same type, as many objects further on as the integer says.
pub proof fn law_pointer_arithmetic(
    token: Token,
    left: Expr,
    right: Expr,
    pointer: NEWTypes,
    integer: NEWTypes,
)
    requires
        left.type_decl == Some(pointer) && pointer is Pointer,
        right.type_decl == Some(integer) && integer.integer(),
        integer.bytes() < pointer.bytes(),
        pointer->Pointer_0.bytes() <= i64::MAX,
    ensures
        binary_rule(token, left, right) matches Rule::Replace(folded) ==> {
            let bytes = pointer->Pointer_0.bytes();
            let size: nat = if bytes > 1 {
                bytes
            } else {
                1
            };
            &&& folded.type_decl == Some(pointer)
            &&& left.kind matches ExprKind::Literal(l)
            &&& right.kind matches ExprKind::Literal(r)
            &&& folded.kind matches ExprKind::Literal(n)
            &&& n == (if token.token is Plus {
                l + r * size
            } else {
                l - r * size
            })
        },
{
    if let (ExprKind::Literal(l), ExprKind::Literal(r)) = (left.kind, right.kind) {
        assert(l * scale(pointer, integer) == l);
    }
}

/// Where a quotient and a remainder fold, they are of the same type; multiplying
/// the quotient back and adding the remainder gives the dividend, and the
/// remainder is smaller than the divisor and has the sign of the dividend.
pub proof fn law_division_folds(slash: Token, modulo: Token, t: NEWTypes, x: i64, y: i64)
    requires
        slash.token is Slash,
        modulo.token is Mod,
        y != 0,
    ensures
        division_rule(slash, t, x as int, y as int) matches Rule::Replace(q) ==> (division_rule(
            modulo,
            t,
            x as int,
            y as int,
        ) matches Rule::Replace(r) ==> {
            &&& q.type_decl == r.type_decl
            &&& q.kind matches ExprKind::Literal(quotient)
            &&& r.kind matches ExprKind::Literal(remainder)
            &&& quotient * y + remainder == x
            &&& abs(remainder as int) < abs(y as int)
            &&& remainder != 0 ==> (remainder < 0) == (x < 0)
        }),
{
    law_division(x as int, y as int);
    lemma_quotient_fits(x, y);
}

/// The operators that do not depend on the order of their operands.
pub open spec fn commutes(token: TokenType) -> bool {
    match token {
        TokenType::Plus | TokenType::Star => true,
        TokenType::Amp | TokenType::Pipe | TokenType::Xor => true,
        _ => false,
    }
}

/// Adding, multiplying and combining the bits of two integers does not depend on
/// their order: it gives the same constant of the same type, or the same error.
/// Integer types of the same size have to be the same type, as any two primitive
/// types are: the type of the right operand is what an enum and an `int` give.
pub proof fn law_commutes(
    token: Token,
    left: Expr,
    right: Expr,
    left_type: NEWTypes,
    right_type: NEWTypes,
)
    requires
        commutes(token.token),
        left.type_decl == Some(left_type) && left_type.integer(),
        right.type_decl == Some(right_type) && right_type.integer(),
        left_type.bytes() == right_type.bytes() ==> left_type == right_type,
    ensures
        binary_rule(token, left, right) == binary_rule(token, right, left),
{
    if let (ExprKind::Literal(l), ExprKind::Literal(r)) = (left.kind, right.kind) {
        assert(l & r == r & l && l | r == r | l && l ^ r == r ^ l) by (bit_vector);
        assert(l * r == r * l) by (nonlinear_arith);
        assert(l * 1 == l && r * 1 == r);
    }
}

/// Two primitive types of the same size are the same type.
pub proof fn law_primitive_sizes(left: Types, right: Types)
    ensures
        left.bytes() == right.bytes() ==> left == right,
{
}

/// Negation and complement undo themselves, up to promotion: where the first one
/// folds, the second one gives the value back, in the promoted type. The
/// complement always folds.
pub proof fn law_unary_twice(token: Token, right: Expr, t: NEWTypes, n: i64)
    requires
        token.token is Minus || token.token is Tilde,
        right.kind == ExprKind::Literal(n),
        right.type_decl == Some(t) && t.integer(),
        t.holds(n as int),
    ensures
        unary_rule(token, right) matches Rule::Replace(once) ==> {
            &&& once.type_decl == Some(promoted(t))
            &&& unary_rule(token, once) == Rule::Replace(constant(n, promoted(t)))
        },
        token.token is Tilde ==> unary_rule(token, right) is Replace,
{
    assert(!n == -n - 1 && !(!n) == n) by (bit_vector);
    if let Rule::Replace(once) = unary_rule(token, right) {
        if let ExprKind::Literal(m) = once.kind {
            assert(!m == -m - 1) by (bit_vector);
        }
    }
}

/// Of `==` and `!=`, of `<` and `>=`, and of `>` and `<=`, one holds and the
/// other does not; and exactly one of `<`, `==` and `>` holds.
pub proof fn law_comparisons(l: i64, r: i64)
    ensures
        ({
            let equal = compares(TokenType::EqualEqual, l, r).unwrap();
            let less = compares(TokenType::Less, l, r).unwrap();
            let greater = compares(TokenType::Greater, l, r).unwrap();
            &&& compares(TokenType::BangEqual, l, r).unwrap() == !equal
            &&& compares(TokenType::GreaterEqual, l, r).unwrap() == !less
            &&& compares(TokenType::LessEqual, l, r).unwrap() == !greater
            &&& less || equal || greater
            &&& !(less && equal) && !(less && greater) && !(equal && greater)
        }),
{
}

/// The value that a comparison of two constants folds to.
pub open spec fn comparison_value(token: Token, left: Expr, right: Expr) -> int {
    match comparison_rule(token, left, right) {
        Rule::Replace(folded) => match folded.kind {
            ExprKind::Literal(n) => n as int,
            _ => -1,
        },
        _ => -1,
    }
}

/// A comparison of constants of compatible types folds to an `int` that is 0 or
/// 1, by how the values compare as signed numbers: exactly one of `<`, `==` and
/// `>` gives 1, and the other three give 1 where their opposites give 0.
pub proof fn law_comparison_folds(
    left: Expr,
    right: Expr,
    l: i64,
    r: i64,
    less: Token,
    less_equal: Token,
    equal: Token,
    not_equal: Token,
    greater: Token,
    greater_equal: Token,
)
    requires
        left.kind == ExprKind::Literal(l),
        right.kind == ExprKind::Literal(r),
        left.type_decl is Some && right.type_decl is Some,
        compatible(left.type_decl.unwrap(), right.type_decl.unwrap(), r == 0),
        !left.type_decl.unwrap().void() && !right.type_decl.unwrap().void(),
        less.token is Less && less_equal.token is LessEqual,
        equal.token is EqualEqual && not_equal.token is BangEqual,
        greater.token is Greater && greater_equal.token is GreaterEqual,
    ensures
        comparison_rule(less, left, right) == Rule::Replace(truth(l < r)),
        comparison_rule(equal, left, right) == Rule::Replace(truth(l == r)),
        comparison_rule(greater, left, right) == Rule::Replace(truth(l > r)),
        comparison_rule(less_equal, left, right) == Rule::Replace(truth(l <= r)),
        comparison_rule(not_equal, left, right) == Rule::Replace(truth(l != r)),
        comparison_rule(greater_equal, left, right) == Rule::Replace(truth(l >= r)),
        comparison_value(less, left, right) + comparison_value(equal, left, right)
            + comparison_value(greater, left, right) == 1,
        comparison_value(less_equal, left, right) == 1 - comparison_value(greater, left, right),
        comparison_value(greater_equal, left, right) == 1 - comparison_value(less, left, right),
        comparison_value(not_equal, left, right) == 1 - comparison_value(equal, left, right),
{
}

} // verus!
