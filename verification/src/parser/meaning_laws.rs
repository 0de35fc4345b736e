//! What constant expressions fold to, by what their operators mean.
//!
//! A law here takes an expression whose operands fold to constants, and says which
//! constant, of which type, or which error the whole comes to.

use vstd::prelude::*;

use crate::common::error::ErrorKind;
use crate::common::token::{Token, TokenType};
use crate::common::types::{NEWTypes, Types};
use crate::parser::expr::{Expr, ExprKind};
use crate::parser::fold_spec::{
    arithmetic_rule, binary_rule, fold, fold_after, fold_operands, logical_rule, node_rule,
    unary_rule, Outcome, Rule,
};
use crate::parser::typechecker::{compatible, Scopes};
use crate::parser::operator_laws::law_division;

verus! {

/// Whether an expression folds to the constant `n` of type `t`, with `after` in
/// scope then.
pub open spec fn folds(e: Expr, scopes: Scopes, n: int, t: NEWTypes, after: Scopes) -> bool {
    let f = fold(e, scopes);
    &&& f.outcome is Folded
    &&& f.expr.kind matches ExprKind::Literal(x) && x == n
    &&& f.expr.type_decl == Some(t)
    &&& f.scopes == after
}

/// Whether folding an expression comes to an error at a token.
pub open spec fn fails(e: Expr, scopes: Scopes, token: Token, kind: ErrorKind) -> bool {
    fold(e, scopes).outcome matches Outcome::Failed(error) && error.kind == kind && error.line_index
        == token.line_index && error.column == token.column && error.line_string
        == token.line_string
}

/// The number of bytes of a scalar type.
pub open spec fn scalar_size(t: NEWTypes) -> int {
    match t {
        NEWTypes::Primitive(Types::Char) => 1,
        NEWTypes::Primitive(Types::Int) => 4,
        NEWTypes::Enum(_) => 4,
        NEWTypes::Primitive(Types::Long) => 8,
        NEWTypes::Pointer(_) => 8,
        _ => 0,
    }
}

/// Whether a type is one of integers.
pub open spec fn of_integers(t: NEWTypes) -> bool {
    t is Enum || (t matches NEWTypes::Primitive(p) && p != Types::Void)
}

/// Whether a number fits in so many bytes, with its sign.
pub open spec fn fits(n: int, size: int) -> bool {
    if size == 1 {
        -0x80 <= n < 0x80
    } else if size == 4 {
        -0x8000_0000 <= n < 0x8000_0000
    } else {
        -0x8000_0000_0000_0000 <= n < 0x8000_0000_0000_0000
    }
}

/// The type of the result of arithmetic on two types: at least `int`, else the
/// larger one, and the right one of two that are equally large.
pub open spec fn common_type(l: NEWTypes, r: NEWTypes) -> NEWTypes {
    if scalar_size(l) < 4 && scalar_size(r) < 4 {
        NEWTypes::Primitive(Types::Int)
    } else if scalar_size(l) > scalar_size(r) {
        l
    } else {
        r
    }
}

/// The type that a value is computed in: at least `int`.
pub open spec fn at_least_int(t: NEWTypes) -> NEWTypes {
    if scalar_size(t) < 4 {
        NEWTypes::Primitive(Types::Int)
    } else {
        t
    }
}

/// Whether an expression folds to `n`, where the type can hold it, and else comes
/// to an overflow.
pub open spec fn computes(
    e: Expr,
    scopes: Scopes,
    token: Token,
    n: int,
    t: NEWTypes,
    after: Scopes,
) -> bool {
    if fits(n, scalar_size(t)) {
        folds(e, scopes, n, t, after)
    } else {
        fails(e, scopes, token, ErrorKind::IntegerOverflow(t))
    }
}

/// The quotient without its fraction.
pub open spec fn toward_zero(x: int, y: int) -> int {
    let q = (if x < 0 { -x } else { x }) / (if y < 0 { -y } else { y });
    if (x < 0) == (y < 0) {
        q
    } else {
        -q
    }
}

/// The `int` that a truth value is.
pub open spec fn truth_value(b: bool) -> int {
    if b {
        1
    } else {
        0
    }
}

pub(crate) proof fn lemma_binary(
    e: Expr,
    scopes: Scopes,
    token: Token,
    left: Expr,
    right: Expr,
    l: int,
    r: int,
    lt: NEWTypes,
    rt: NEWTypes,
    s: Scopes,
    after: Scopes,
) -> (node: (Expr, Expr))
    requires
        e.kind matches ExprKind::Binary { left: x, token: o, right: y } && *x == left && o == token
            && *y == right,
        folds(left, scopes, l, lt, s),
        folds(right, s, r, rt, after),
    ensures
        node.0.kind matches ExprKind::Literal(x) && x == l && node.0.type_decl == Some(lt),
        node.1.kind matches ExprKind::Literal(y) && y == r && node.1.type_decl == Some(rt),
        match binary_rule(token, node.0, node.1) {
            Rule::Keep => true,
            Rule::Replace(x) => fold(e, scopes).outcome is Folded && fold(e, scopes).expr == x
                && fold(e, scopes).scopes == after,
            Rule::Fail(x) => fold(e, scopes).outcome == Outcome::Failed(x),
            Rule::Stuck => fold(e, scopes).outcome is Stuck,
        },
{
    let a = fold(left, scopes);
    let b = fold_after(a, right);
    assert(b == fold(right, s));
    let node = fold_operands(e, scopes);
    assert(node.expr.kind matches ExprKind::Binary { left: x, token: o, right: y } && *x == a.expr
        && o == token && *y == b.expr);
    assert(node_rule(node.expr, node.scopes) == binary_rule(token, a.expr, b.expr));
    (a.expr, b.expr)
}

/// The sum, the difference or the product of two integers is exact, or comes to an
/// overflow; so is what `&`, `|` and `^` make of their bits.
pub proof fn law_arithmetic_folds(
    e: Expr,
    scopes: Scopes,
    token: Token,
    left: Expr,
    l: i64,
    lt: NEWTypes,
    s: Scopes,
    right: Expr,
    r: i64,
    rt: NEWTypes,
    after: Scopes,
)
    requires
        e.kind matches ExprKind::Binary { left: x, token: o, right: y } && *x == left && o == token
            && *y == right,
        folds(left, scopes, l as int, lt, s) && of_integers(lt),
        folds(right, s, r as int, rt, after) && of_integers(rt),
    ensures
        ({
            let t = common_type(lt, rt);
            match token.token {
                TokenType::Plus => computes(e, scopes, token, l + r, t, after),
                TokenType::Minus => computes(e, scopes, token, l - r, t, after),
                TokenType::Star => computes(e, scopes, token, l * r, t, after),
                TokenType::Amp => computes(e, scopes, token, (l & r) as int, t, after),
                TokenType::Pipe => computes(e, scopes, token, (l | r) as int, t, after),
                TokenType::Xor => computes(e, scopes, token, (l ^ r) as int, t, after),
                _ => true,
            }
        }),
{
    let (x, y) = lemma_binary(e, scopes, token, left, right, l as int, r as int, lt, rt, s, after);
    assert(l * 1 == l && r * 1 == r);
    assert(binary_rule(token, x, y) == arithmetic_rule(token, lt, rt, l as int, r as int));
}

/// There is no quotient and no remainder by 0. The quotient is without its
/// fraction; the remainder is what it leaves of the dividend. Where 64 bits cannot
/// hold the quotient, there is neither.
pub proof fn law_quotient_folds(
    e: Expr,
    scopes: Scopes,
    token: Token,
    left: Expr,
    l: i64,
    lt: NEWTypes,
    s: Scopes,
    right: Expr,
    r: i64,
    rt: NEWTypes,
    after: Scopes,
)
    requires
        e.kind matches ExprKind::Binary { left: x, token: o, right: y } && *x == left && o == token
            && *y == right,
        token.token is Slash || token.token is Mod,
        folds(left, scopes, l as int, lt, s) && of_integers(lt),
        folds(right, s, r as int, rt, after) && of_integers(rt),
    ensures
        ({
            let t = common_type(lt, rt);
            let q = toward_zero(l as int, r as int);
            if r == 0 {
                fails(e, scopes, token, ErrorKind::DivideByZero)
            } else if !fits(q, 8) {
                fails(e, scopes, token, ErrorKind::IntegerOverflow(t))
            } else if token.token is Slash {
                computes(e, scopes, token, q, t, after)
            } else {
                computes(e, scopes, token, l - q * r, t, after)
            }
        }),
{
    let (x, y) = lemma_binary(e, scopes, token, left, right, l as int, r as int, lt, rt, s, after);
    assert(l * 1 == l && r * 1 == r);
    assert(binary_rule(token, x, y) == arithmetic_rule(token, lt, rt, l as int, r as int));
    if r != 0 {
        law_division(l as int, r as int);
    }
}

/// A shift is computed in 64 bits and in the type of its left operand alone. There
/// is none by a negative count; only the low 32 bits of the count are looked at, and
/// it comes to an overflow where they are 64 or more.
pub proof fn law_shift_folds(
    e: Expr,
    scopes: Scopes,
    token: Token,
    left: Expr,
    l: i64,
    lt: NEWTypes,
    s: Scopes,
    right: Expr,
    r: i64,
    rt: NEWTypes,
    after: Scopes,
)
    requires
        e.kind matches ExprKind::Binary { left: x, token: o, right: y } && *x == left && o == token
            && *y == right,
        token.token is LessLess || token.token is GreaterGreater,
        folds(left, scopes, l as int, lt, s) && of_integers(lt),
        folds(right, s, r as int, rt, after) && of_integers(rt),
    ensures
        ({
            let t = at_least_int(lt);
            let count = r as int % 0x1_0000_0000;
            if r < 0 {
                fails(e, scopes, token, ErrorKind::NegativeShift)
            } else if count >= 64 {
                fails(e, scopes, token, ErrorKind::IntegerOverflow(t))
            } else if token.token is LessLess {
                computes(e, scopes, token, (l << (count as u32)) as int, t, after)
            } else {
                computes(e, scopes, token, (l >> (count as u32)) as int, t, after)
            }
        }),
{
    let (x, y) = lemma_binary(e, scopes, token, left, right, l as int, r as int, lt, rt, s, after);
    assert(l * 1 == l && r * 1 == r);
    assert(binary_rule(token, x, y) == arithmetic_rule(token, lt, rt, l as int, r as int));
}

/// An operator that does not take operands of these types comes to an error: two
/// pointers can only be subtracted, and only if they go together; an integer can
/// only be added to a pointer or subtracted from it; and nothing that is neither can
/// be computed with.
pub proof fn law_invalid_operands(
    e: Expr,
    scopes: Scopes,
    token: Token,
    left: Expr,
    l: i64,
    lt: NEWTypes,
    s: Scopes,
    right: Expr,
    r: i64,
    rt: NEWTypes,
    after: Scopes,
)
    requires
        e.kind matches ExprKind::Binary { left: x, token: o, right: y } && *x == left && o == token
            && *y == right,
        folds(left, scopes, l as int, lt, s),
        folds(right, s, r as int, rt, after),
        !(of_integers(lt) || lt is Pointer) || !(of_integers(rt) || rt is Pointer) || lt is Pointer
            && rt is Pointer && !(token.token is Minus) || rt is Pointer && of_integers(lt)
            && !(token.token is Plus) || lt is Pointer && of_integers(rt) && !(token.token is Plus
            || token.token is Minus) || lt is Pointer && rt is Pointer && !compatible(
            lt,
            rt,
            r == 0,
        ),
    ensures
        fails(e, scopes, token, ErrorKind::InvalidBinary(token.token, lt, rt)),
{
    let (x, y) = lemma_binary(e, scopes, token, left, right, l as int, r as int, lt, rt, s, after);
}

proof fn lemma_unary(
    e: Expr,
    scopes: Scopes,
    token: Token,
    right: Expr,
    r: int,
    rt: NEWTypes,
    after: Scopes,
) -> (node: Expr)
    requires
        e.kind matches ExprKind::Unary { token: o, right: y } && o == token && *y == right,
        folds(right, scopes, r, rt, after),
    ensures
        node.kind matches ExprKind::Literal(y) && y == r && node.type_decl == Some(rt),
        match unary_rule(token, node) {
            Rule::Keep => true,
            Rule::Replace(x) => fold(e, scopes).outcome is Folded && fold(e, scopes).expr == x
                && fold(e, scopes).scopes == after,
            Rule::Fail(x) => fold(e, scopes).outcome == Outcome::Failed(x),
            Rule::Stuck => fold(e, scopes).outcome is Stuck,
        },
{
    let b = fold(right, scopes);
    let node = fold_operands(e, scopes);
    assert(node.expr.kind matches ExprKind::Unary { token: o, right: y } && o == token && *y
        == b.expr);
    assert(node_rule(node.expr, node.scopes) == unary_rule(token, b.expr));
    b.expr
}

/// `!` gives the `int` 1 for 0, and 0 for anything else. `+` gives an integer, `-`
/// its negative and `~` the number whose bits are all other ones, in at least an
/// `int`; what is no integer they do not take.
pub proof fn law_unary_folds(
    e: Expr,
    scopes: Scopes,
    token: Token,
    right: Expr,
    r: i64,
    rt: NEWTypes,
    after: Scopes,
)
    requires
        e.kind matches ExprKind::Unary { token: o, right: y } && o == token && *y == right,
        folds(right, scopes, r as int, rt, after),
    ensures
        ({
            let t = at_least_int(rt);
            let refused = fails(
                e,
                scopes,
                token,
                ErrorKind::InvalidUnary(token.token, rt, "integer"),
            );
            match token.token {
                TokenType::Bang => folds(
                    e,
                    scopes,
                    truth_value(r == 0),
                    NEWTypes::Primitive(Types::Int),
                    after,
                ),
                TokenType::Plus => if of_integers(rt) {
                    computes(e, scopes, token, r as int, t, after)
                } else {
                    refused
                },
                TokenType::Minus => if of_integers(rt) {
                    computes(e, scopes, token, -r, t, after)
                } else {
                    refused
                },
                TokenType::Tilde => if of_integers(rt) {
                    computes(e, scopes, token, -r - 1, t, after)
                } else {
                    refused
                },
                _ => true,
            }
        }),
{
    let x = lemma_unary(e, scopes, token, right, r as int, rt, after);
    assert(!r == -r - 1) by (bit_vector);
}

proof fn lemma_logical(e: Expr, scopes: Scopes, token: Token, left: Expr, right: Expr) -> (node: (
    Expr,
    Expr,
))
    requires
        e.kind matches ExprKind::Logical { left: x, token: o, right: y } && *x == left && o == token
            && *y == right,
        fold(left, scopes).outcome is Folded,
        fold(right, fold(left, scopes).scopes).outcome is Folded,
    ensures
        node.0 == fold(left, scopes).expr,
        node.1 == fold(right, fold(left, scopes).scopes).expr,
        match logical_rule(token, node.0, node.1) {
            Rule::Replace(x) => fold(e, scopes).outcome is Folded && fold(e, scopes).expr == x
                && fold(e, scopes).scopes == fold(right, fold(left, scopes).scopes).scopes,
            Rule::Keep => fold(e, scopes).outcome is Folded && fold(e, scopes).expr.kind
                is Logical,
            _ => true,
        },
{
    let a = fold(left, scopes);
    let b = fold_after(a, right);
    assert(b == fold(right, a.scopes));
    let node = fold_operands(e, scopes);
    assert(node.expr.kind matches ExprKind::Logical { left: x, token: o, right: y } && *x == a.expr
        && o == token && *y == b.expr);
    assert(node_rule(node.expr, node.scopes) == logical_rule(token, a.expr, b.expr));
    (a.expr, b.expr)
}

/// `||` of two constants is the `int` 1 where one of them is not 0, and else 0;
/// `&&` is 1 where neither is 0, and else 0.
pub proof fn law_logical_folds(
    e: Expr,
    scopes: Scopes,
    token: Token,
    left: Expr,
    l: i64,
    lt: NEWTypes,
    s: Scopes,
    right: Expr,
    r: i64,
    rt: NEWTypes,
    after: Scopes,
)
    requires
        e.kind matches ExprKind::Logical { left: x, token: o, right: y } && *x == left && o == token
            && *y == right,
        token.token is AmpAmp || token.token is PipePipe,
        folds(left, scopes, l as int, lt, s),
        folds(right, s, r as int, rt, after),
    ensures
        folds(
            e,
            scopes,
            truth_value(
                if token.token is AmpAmp {
                    l != 0 && r != 0
                } else {
                    l != 0 || r != 0
                },
            ),
            NEWTypes::Primitive(Types::Int),
            after,
        ),
{
    let (x, y) = lemma_logical(e, scopes, token, left, right);
}

/// `0 && e` is 0 and `1 || e` is 1 for every `e` that folds without an error, whether
/// it is constant or not.
pub proof fn law_short_circuit_folds(
    e: Expr,
    scopes: Scopes,
    token: Token,
    left: Expr,
    l: i64,
    lt: NEWTypes,
    s: Scopes,
    right: Expr,
)
    requires
        e.kind matches ExprKind::Logical { left: x, token: o, right: y } && *x == left && o == token
            && *y == right,
        token.token is AmpAmp && l == 0 || token.token is PipePipe && l == 1,
        folds(left, scopes, l as int, lt, s),
        fold(right, s).outcome is Folded,
    ensures
        folds(e, scopes, l as int, NEWTypes::Primitive(Types::Int), fold(right, s).scopes),
{
    let (x, y) = lemma_logical(e, scopes, token, left, right);
}

/// `l || r` folds to what `!(!l && !r)` folds to, and neither `||` nor `&&` depends
/// on the order of constants that declare nothing.
pub proof fn law_logical_duality(
    or: Expr,
    swapped: Expr,
    and: Expr,
    not: Expr,
    scopes: Scopes,
    left: Expr,
    not_left: Expr,
    l: i64,
    lt: NEWTypes,
    right: Expr,
    not_right: Expr,
    r: i64,
    rt: NEWTypes,
)
    requires
        or.kind matches ExprKind::Logical { left: x, token, right: y } && *x == left && *y == right
            && token.token is PipePipe,
        swapped.kind matches ExprKind::Logical { left: x, token, right: y } && *x == right && *y
            == left && token.token is PipePipe,
        not_left.kind matches ExprKind::Unary { token, right: x } && *x == left && token.token
            is Bang,
        not_right.kind matches ExprKind::Unary { token, right: x } && *x == right && token.token
            is Bang,
        and.kind matches ExprKind::Logical { left: x, token, right: y } && *x == not_left && *y
            == not_right && token.token is AmpAmp,
        not.kind matches ExprKind::Unary { token, right: x } && *x == and && token.token is Bang,
        folds(left, scopes, l as int, lt, scopes),
        folds(right, scopes, r as int, rt, scopes),
    ensures
        fold(or, scopes).expr == fold(not, scopes).expr,
        fold(or, scopes).expr == fold(swapped, scopes).expr,
        fold(or, scopes).outcome is Folded && fold(not, scopes).outcome is Folded && fold(
            swapped,
            scopes,
        ).outcome is Folded,
{
    let plain = NEWTypes::Primitive(Types::Int);
    let (nl, nr) = (truth_value(l == 0), truth_value(r == 0));
    law_unary_folds(not_left, scopes, not_left.kind->Unary_token, left, l, lt, scopes);
    law_unary_folds(not_right, scopes, not_right.kind->Unary_token, right, r, rt, scopes);
    let token = and.kind->Logical_token;
    law_logical_folds(
        and,
        scopes,
        token,
        not_left,
        nl as i64,
        plain,
        scopes,
        not_right,
        nr as i64,
        plain,
        scopes,
    );
    let both = truth_value(nl != 0 && nr != 0);
    law_unary_folds(not, scopes, not.kind->Unary_token, and, both as i64, plain, scopes);
    let o = or.kind->Logical_token;
    law_logical_folds(or, scopes, o, left, l, lt, scopes, right, r, rt, scopes);
    let p = swapped.kind->Logical_token;
    law_logical_folds(swapped, scopes, p, right, r, rt, scopes, left, l, lt, scopes);
    lemma_rvalue(or, scopes);
    lemma_rvalue(not, scopes);
    lemma_rvalue(swapped, scopes);
}

/// What replaces `||`, `&&` or `!` is a value and no object.
proof fn lemma_rvalue(e: Expr, scopes: Scopes)
    requires
        e.kind is Logical || (e.kind matches ExprKind::Unary { token, .. } && token.token is Bang),
        fold(e, scopes).outcome is Folded,
        fold(e, scopes).expr.kind is Literal,
    ensures
        fold(e, scopes).expr.value_kind is Rvalue,
{
    let node = fold_operands(e, scopes);
    match e.kind {
        ExprKind::Logical { left, token, right } => {
            let a = fold(*left, scopes);
            let b = fold_after(a, *right);
            assert(node.expr.kind matches ExprKind::Logical { left: x, token: o, right: y } && *x
                == a.expr && o == token && *y == b.expr);
        },
        ExprKind::Unary { token, right } => {
            let b = fold(*right, scopes);
            assert(node.expr.kind matches ExprKind::Unary { token: o, right: y } && o == token && *y
                == b.expr);
        },
        _ => {},
    }
}

} // verus!
