//! What comparisons, conditional expressions, casts, sizes and pointers fold to, and
//! what becomes of expressions that are not constant.

use vstd::prelude::*;

use crate::common::environment::lookup;
use crate::common::error::{Error, ErrorKind};
use crate::common::token::{Token, TokenType};
use crate::common::types::{constant_type, NEWTypes, StructInfo, Types};
use crate::parser::expr::{DeclModifier, DeclType, Expr, ExprKind, SpecifierKind};
use crate::parser::fold::{constant_value, ends, no_symbols};
use crate::parser::fold_spec::{
    comparison_rule, const_cast_rule, fold, fold_after, fold_operands, node_rule, ternary_rule,
    Fold, Outcome, Rule,
};
use crate::parser::meaning_laws::{
    computes, fails, fits, folds, lemma_binary, of_integers, scalar_size, truth_value,
};
use crate::parser::typechecker::{
    compatible, declare_constants, enum_constant, Register, Scopes, SymbolInfo, Symbols,
};

verus! {

/// A comparison of two integers is the `int` 1 where it holds of them as signed
/// numbers, and else 0.
pub proof fn law_comparison_meaning(
    e: Expr,
    scopes: Scopes,
    token: Token,
    left: Expr,
    l: i64,
    lt: NEWTypes,
    s: Scopes,
    right: Expr,
    r: i64,
    rt: NEWTypes,
    after: Scopes,
)
    requires
        e.kind matches ExprKind::Comparison { left: x, token: o, right: y } && *x == left && o
            == token && *y == right,
        folds(left, scopes, l as int, lt, s) && of_integers(lt),
        folds(right, s, r as int, rt, after) && of_integers(rt),
    ensures
        ({
            let t = NEWTypes::Primitive(Types::Int);
            match token.token {
                TokenType::EqualEqual => folds(e, scopes, truth_value(l == r), t, after),
                TokenType::BangEqual => folds(e, scopes, truth_value(l != r), t, after),
                TokenType::Less => folds(e, scopes, truth_value(l < r), t, after),
                TokenType::LessEqual => folds(e, scopes, truth_value(l <= r), t, after),
                TokenType::Greater => folds(e, scopes, truth_value(l > r), t, after),
                TokenType::GreaterEqual => folds(e, scopes, truth_value(l >= r), t, after),
                _ => true,
            }
        }),
{
    lemma_comparison(e, scopes, token, left, right);
}

/// Whether a comparison operator holds of two numbers.
pub open spec fn holds_of(operator: TokenType, l: int, r: int) -> bool {
    match operator {
        TokenType::EqualEqual => l == r,
        TokenType::BangEqual => l != r,
        TokenType::Less => l < r,
        TokenType::LessEqual => l <= r,
        TokenType::Greater => l > r,
        _ => l >= r,
    }
}

/// Whether a token is a comparison operator.
pub open spec fn compares_numbers(operator: TokenType) -> bool {
    operator is EqualEqual || operator is BangEqual || operator is Less || operator is LessEqual
        || operator is Greater || operator is GreaterEqual
}

/// Constants whose types go together, and are not `void`, can be compared, as signed
/// numbers; others cannot.
pub proof fn law_comparison_types(
    e: Expr,
    scopes: Scopes,
    token: Token,
    left: Expr,
    l: i64,
    lt: NEWTypes,
    s: Scopes,
    right: Expr,
    r: i64,
    rt: NEWTypes,
    after: Scopes,
)
    requires
        e.kind matches ExprKind::Comparison { left: x, token: o, right: y } && *x == left && o
            == token && *y == right,
        compares_numbers(token.token),
        folds(left, scopes, l as int, lt, s),
        folds(right, s, r as int, rt, after),
    ensures
        if compatible(lt, rt, r == 0) && lt != NEWTypes::Primitive(Types::Void) && rt
            != NEWTypes::Primitive(Types::Void) {
            folds(
                e,
                scopes,
                truth_value(holds_of(token.token, l as int, r as int)),
                NEWTypes::Primitive(Types::Int),
                after,
            )
        } else {
            fails(e, scopes, token, ErrorKind::InvalidComp(token.token, lt, rt))
        },
{
    lemma_comparison(e, scopes, token, left, right);
}

proof fn lemma_comparison(e: Expr, scopes: Scopes, token: Token, left: Expr, right: Expr)
    requires
        e.kind matches ExprKind::Comparison { left: x, token: o, right: y } && *x == left && o
            == token && *y == right,
        fold(left, scopes).outcome is Folded,
        fold(right, fold(left, scopes).scopes).outcome is Folded,
    ensures
        ({
            let f = fold(e, scopes);
            let a = fold(left, scopes);
            let b = fold(right, a.scopes);
            match comparison_rule(token, a.expr, b.expr) {
                Rule::Replace(x) => f.outcome is Folded && f.expr == x && f.scopes == b.scopes,
                Rule::Fail(x) => f.outcome == Outcome::Failed(x),
                _ => true,
            }
        }),
{
    let a = fold(left, scopes);
    let b = fold_after(a, right);
    assert(b == fold(right, a.scopes));
    let node = fold_operands(e, scopes);
    assert(node.expr.kind matches ExprKind::Comparison { left: x, token: o, right: y } && *x
        == a.expr && o == token && *y == b.expr);
    assert(node_rule(node.expr, node.scopes) == comparison_rule(token, a.expr, b.expr));
}

/// Where the condition is a constant, what is left of a conditional expression is
/// its second operand, if the condition is not 0, or else its third one; the types
/// of two constants have to go together for that.
#[verifier::rlimit(50)]
pub proof fn law_conditional_folds(
    e: Expr,
    scopes: Scopes,
    token: Token,
    cond: Expr,
    c: i64,
    ct: NEWTypes,
    s: Scopes,
    yes: Expr,
    no: Expr,
)
    requires
        e.kind matches ExprKind::Ternary { token: o, cond: x, true_expr: y, false_expr: z } && o
            == token && *x == cond && *y == yes && *z == no,
        folds(cond, scopes, c as int, ct, s),
        fold(yes, s).outcome is Folded,
        fold(no, fold(yes, s).scopes).outcome is Folded,
        ({
            let y = fold(yes, s).expr;
            let n = fold(no, fold(yes, s).scopes).expr;
            y.kind is Literal && n.kind is Literal ==> (y.type_decl matches Some(a)
                && n.type_decl matches Some(b) && compatible(
                a,
                b,
                n.kind == ExprKind::Literal(0),
            ))
        }),
    ensures
        fold(e, scopes).outcome is Folded,
        fold(e, scopes).expr == if c != 0 {
            fold(yes, s).expr
        } else {
            fold(no, fold(yes, s).scopes).expr
        },
        fold(e, scopes).scopes == fold(no, fold(yes, s).scopes).scopes,
{
    let a = fold(cond, scopes);
    let y = fold_after(a, yes);
    let n = fold_after(y, no);
    assert(y == fold(yes, s));
    assert(n == fold(no, y.scopes));
    let node = fold_operands(e, scopes);
    assert(node.expr.kind matches ExprKind::Ternary {
        token: o,
        cond: p,
        true_expr: q,
        false_expr: r,
    } && o == token && *p == a.expr && *q == y.expr && *r == n.expr);
    assert(node_rule(node.expr, node.scopes) == ternary_rule(token, a.expr, y.expr, n.expr));
}

/// Two constants whose types do not go together cannot stand in one conditional
/// expression, whatever its condition is.
pub proof fn law_conditional_mismatch(
    e: Expr,
    scopes: Scopes,
    token: Token,
    cond: Expr,
    yes: Expr,
    y: i64,
    yt: NEWTypes,
    t: Scopes,
    no: Expr,
    n: i64,
    nt: NEWTypes,
    after: Scopes,
)
    requires
        e.kind matches ExprKind::Ternary { token: o, cond: x, true_expr: a, false_expr: b } && o
            == token && *x == cond && *a == yes && *b == no,
        fold(cond, scopes).outcome is Folded,
        folds(yes, fold(cond, scopes).scopes, y as int, yt, t),
        folds(no, t, n as int, nt, after),
        !compatible(yt, nt, n == 0),
    ensures
        fails(e, scopes, token, ErrorKind::TypeMismatch(yt, nt)),
{
    let c = fold(cond, scopes);
    let a = fold_after(c, yes);
    let b = fold_after(a, no);
    assert(a == fold(yes, c.scopes));
    assert(b == fold(no, a.scopes));
    let node = fold_operands(e, scopes);
    assert(node.expr.kind matches ExprKind::Ternary {
        token: o,
        cond: p,
        true_expr: q,
        false_expr: r,
    } && o == token && *p == c.expr && *q == a.expr && *r == b.expr);
    assert(node_rule(node.expr, node.scopes) == ternary_rule(token, c.expr, a.expr, b.expr));
}

/// The number that is left of `n` in so many bytes, with its sign.
pub open spec fn low_bytes(n: int, size: int) -> int {
    let unit: int = if size == 1 {
        0x100
    } else if size == 4 {
        0x1_0000_0000
    } else {
        0x1_0000_0000_0000_0000
    };
    let low = n % unit;
    if 2 * low >= unit {
        low - unit
    } else {
        low
    }
}

/// A cast of a constant to a scalar type leaves what its bytes can hold of it, in
/// that type; to or from anything else there is none. The type name is what the
/// cast is to.
#[verifier::rlimit(50)]
pub proof fn law_cast_folds(
    e: Expr,
    scopes: Scopes,
    token: Token,
    decl_type: DeclType,
    expr: Expr,
    n: i64,
    from: NEWTypes,
    after: Scopes,
)
    requires
        e.kind matches ExprKind::Cast { token: o, decl_type: d, expr: x } && o == token && d
            == decl_type && *x == expr,
        folds(expr, scopes, n as int, from, after),
        decl_type.constants_named(),
    ensures
        ({
            let to = decl_type.type_of();
            if (of_integers(from) || from is Pointer) && (of_integers(to) || to is Pointer) {
                folds(
                    e,
                    scopes,
                    low_bytes(n as int, scalar_size(to)),
                    to,
                    declare_constants(after, decl_type.constants()),
                )
            } else {
                fails(e, scopes, token, ErrorKind::InvalidConstCast(from, to))
            }
        }),
{
    let x = fold(expr, scopes);
    let node = fold_operands(e, scopes);
    assert(node.expr.kind matches ExprKind::Cast { token: o, decl_type: d, expr: y } && o == token
        && d == decl_type && *y == x.expr);
    assert(node_rule(node.expr, node.scopes) == const_cast_rule(token, decl_type, x.expr));
    lemma_low_bytes(n);
}

proof fn lemma_low_bytes(n: i64)
    ensures
        low_bytes(n as int, 1) == n as i8 as int,
        low_bytes(n as int, 4) == n as i32 as int,
        low_bytes(n as int, 8) == n as int,
{
    let b = n as i8;
    let w = n as i32;
    assert(-0x80 <= b < 0x80 && (n - b) % 0x100 == 0) by (bit_vector)
        requires
            b == n as i8,
    ;
    assert(-0x8000_0000 <= w < 0x8000_0000 && (n - w) % 0x1_0000_0000 == 0) by (bit_vector)
        requires
            w == n as i32,
    ;
}

/// The number of bytes of a type: an array takes up as many as its elements do.
pub open spec fn size_in_bytes(t: NEWTypes) -> int
    decreases t,
{
    match t {
        NEWTypes::Array { amount, of } => amount * size_in_bytes(*of),
        NEWTypes::Struct(info) => info.bytes() as int,
        NEWTypes::Union(info) => info.bytes() as int,
        _ => scalar_size(t),
    }
}

proof fn lemma_size(t: NEWTypes)
    ensures
        t.bytes() == size_in_bytes(t),
    decreases t,
{
    match t {
        NEWTypes::Array { amount, of } => lemma_size(*of),
        _ => {},
    }
}

/// The size of a type is the number of its bytes, as an `int` where that can hold
/// it, and else as a `long`.
pub proof fn law_size_folds(e: Expr, scopes: Scopes, decl_type: DeclType)
    requires
        e.kind matches ExprKind::SizeofType { decl_type: d } && d == decl_type,
        decl_type.constants_named(),
        decl_type.type_of().measurable(),
        size_in_bytes(decl_type.type_of()) <= i64::MAX,
    ensures
        ({
            let size = size_in_bytes(decl_type.type_of());
            folds(
                e,
                scopes,
                size,
                NEWTypes::Primitive(
                    if fits(size, 4) {
                        Types::Int
                    } else {
                        Types::Long
                    },
                ),
                declare_constants(scopes, decl_type.constants()),
            )
        }),
{
    lemma_size(decl_type.type_of());
    let node = fold_operands(e, scopes);
    assert(node.expr == e && node.scopes == scopes);
}

/// A type name stands for its specifier, and each further modifier makes a pointer
/// to, or an array of, what it stands for without that modifier.
pub proof fn law_type_names(d: DeclType, shorter: DeclType)
    ensures
        d.modifiers@.len() == 0 ==> d.type_of() == (match d.specifier {
            SpecifierKind::Primitive(p) => NEWTypes::Primitive(p),
            SpecifierKind::Struct(info) => NEWTypes::Struct(info),
            SpecifierKind::Union(info) => NEWTypes::Union(info),
            SpecifierKind::Enum(name, _) => NEWTypes::Enum(name),
        }),
        d.modifiers@.len() > 0 && shorter.specifier == d.specifier && shorter.modifiers@
            == d.modifiers@.drop_last() ==> d.type_of() == (match d.modifiers@.last() {
            DeclModifier::Pointer => NEWTypes::Pointer(Box::new(shorter.type_of())),
            DeclModifier::Array(amount) => NEWTypes::Array {
                amount,
                of: Box::new(shorter.type_of()),
            },
        }),
        d.constants() == (match d.specifier {
            SpecifierKind::Enum(_, constants) => constants@,
            _ => Seq::empty(),
        }),
{
}

/// A constant that an enum declares is known under its name then, as the last one
/// of that name; other names stand for what they stood for.
#[verifier::rlimit(50)]
pub proof fn law_enum_constants(scopes: Scopes, constants: Seq<(Token, i32)>, name: Seq<char>)
    requires
        scopes.len() > 0,
        forall|i: int| 0 <= i < constants.len() ==> (#[trigger] constants[i]).0.name() is Some,
    ensures
        declare_constants(scopes, constants).len() == scopes.len(),
        forall|i: int|
            #![trigger constants[i]]
            0 <= i < constants.len() && constants[i].0.name() == Some(name) && (forall|j: int|
                i < j < constants.len() ==> (#[trigger] constants[j]).0.name() != Some(name))
                ==> lookup(declare_constants(scopes, constants), name) == Some(
                Symbols::Variable(
                    SymbolInfo {
                        type_decl: NEWTypes::Primitive(Types::Int),
                        reg: Some(
                            Register::Literal(
                                constants[i].1 as i64,
                                NEWTypes::Primitive(Types::Int),
                            ),
                        ),
                    },
                ),
            ),
        (forall|i: int|
            0 <= i < constants.len() ==> (#[trigger] constants[i]).0.name() != Some(name))
            ==> lookup(declare_constants(scopes, constants), name) == lookup(scopes, name),
    decreases constants.len(),
{
    if constants.len() > 0 {
        let rest = constants.drop_last();
        assert forall|i: int| 0 <= i < rest.len() implies (#[trigger] rest[i]).0.name() is Some by {
            assert(constants[i].0.name() is Some);
        }
        law_enum_constants(scopes, rest, name);
        let before = declare_constants(scopes, rest);
        let last = constants.last();
        assert(constants[constants.len() - 1].0.name() is Some);
        let n = last.0.name()->0;
        let after = declare_constants(scopes, constants);
        assert(after[0] == before[0].insert(n, enum_constant(last.1)));
        if n != name {
            assert(after.drop_first() =~= before.drop_first());
            assert(lookup(after, name) == lookup(before, name));
            assert forall|i: int|
                #![trigger constants[i]]
                0 <= i < constants.len() && constants[i].0.name() == Some(name) && (forall|j: int|
                    i < j < constants.len() ==> (#[trigger] constants[j]).0.name() != Some(name))
                    implies lookup(after, name) == Some(
                Symbols::Variable(
                    SymbolInfo {
                        type_decl: NEWTypes::Primitive(Types::Int),
                        reg: Some(
                            Register::Literal(
                                constants[i].1 as i64,
                                NEWTypes::Primitive(Types::Int),
                            ),
                        ),
                    },
                ),
            ) by {
                assert(i < rest.len());
                assert(rest[i] == constants[i]);
                assert forall|j: int| i < j < rest.len() implies (#[trigger] rest[j]).0.name()
                    != Some(name) by {
                    assert(constants[j].0.name() != Some(name));
                }
            }
            if forall|i: int|
                0 <= i < constants.len() ==> (#[trigger] constants[i]).0.name() != Some(name) {
                assert forall|i: int| 0 <= i < rest.len() implies (#[trigger] rest[i]).0.name()
                    != Some(name) by {
                    assert(constants[i].0.name() != Some(name));
                }
            }
        } else {
            assert(lookup(after, name) == Some(
                enum_constant(last.1),
            ));
            assert forall|i: int|
                #![trigger constants[i]]
                0 <= i < constants.len() && constants[i].0.name() == Some(name) && (forall|j: int|
                    i < j < constants.len() ==> (#[trigger] constants[j]).0.name() != Some(name))
                    implies i == constants.len() - 1 by {
                if i < constants.len() - 1 {
                    assert(constants[constants.len() - 1].0.name() == Some(name));
                }
            }
        }
    }
}

/// A name folds to the enum constant that it stands for, and any other name stays.
pub proof fn law_name_folds(e: Expr, scopes: Scopes, name: Seq<char>)
    requires
        e.kind matches ExprKind::Ident(token) && token.name() == Some(name),
    ensures
        match lookup(scopes, name) {
            Some(Symbols::Variable(SymbolInfo { type_decl, reg: Some(Register::Literal(n, _)) })) => {
                type_decl matches NEWTypes::Primitive(_) ==> folds(
                    e,
                    scopes,
                    n as int,
                    type_decl,
                    scopes,
                )
            },
            _ => fold(e, scopes).outcome is Folded && fold(e, scopes).expr == e && fold(
                e,
                scopes,
            ).scopes == scopes,
        },
{
    let node = fold_operands(e, scopes);
    assert(node.expr == e && node.scopes == scopes);
}

/// Parentheses fold to what is in them.
pub proof fn law_grouping_folds(e: Expr, scopes: Scopes, inner: Expr)
    requires
        e.kind matches ExprKind::Grouping { expr } && *expr == inner,
    ensures
        fold(e, scopes).outcome == fold(inner, scopes).outcome,
        fold(e, scopes).scopes == fold(inner, scopes).scopes,
        fold(inner, scopes).outcome is Folded ==> fold(e, scopes).expr == fold(inner, scopes).expr,
{
    let x = fold(inner, scopes);
    let node = fold_operands(e, scopes);
    assert(node.expr.kind matches ExprKind::Grouping { expr } && *expr == x.expr);
}

/// An integer beside a pointer counts objects of the type that is pointed to. Where
/// 64 bits can hold as many bytes, a pointer and an integer, in either order, add up
/// to a pointer so many bytes further on, and an integer taken from a pointer gives
/// one so many bytes before it. Of two pointers the difference is that of their
/// bytes.
#[verifier::rlimit(50)]
pub proof fn law_pointer_folds(
    e: Expr,
    scopes: Scopes,
    token: Token,
    left: Expr,
    l: i64,
    lt: NEWTypes,
    s: Scopes,
    right: Expr,
    r: i64,
    rt: NEWTypes,
    after: Scopes,
    unit: int,
)
    requires
        e.kind matches ExprKind::Binary { left: x, token: o, right: y } && *x == left && o == token
            && *y == right,
        token.token is Plus || token.token is Minus,
        folds(left, scopes, l as int, lt, s),
        folds(right, s, r as int, rt, after),
        unit > 0,
    ensures
        lt matches NEWTypes::Pointer(to) && of_integers(rt) && scalar_size(rt) < 8
            && to.measurable() && size_in_bytes(*to) == unit && unit <= i64::MAX && fits(
            r * unit,
            8,
        ) ==> computes(
            e,
            scopes,
            token,
            if token.token is Plus {
                l + r * unit
            } else {
                l - r * unit
            },
            lt,
            after,
        ),
        rt matches NEWTypes::Pointer(to) && of_integers(lt) && token.token is Plus
            && to.measurable() && size_in_bytes(*to) == unit && unit <= i64::MAX && fits(
            l * unit,
            8,
        ) ==> computes(e, scopes, token, l * unit + r, rt, after),
        lt is Pointer && rt is Pointer && token.token is Minus && compatible(lt, rt, r == 0)
            ==> computes(e, scopes, token, l - r, rt, after),
{
    let (x, y) = lemma_binary(e, scopes, token, left, right, l as int, r as int, lt, rt, s, after);
    assert(l * 1 == l && r * 1 == r);
    if let NEWTypes::Pointer(to) = lt {
        lemma_size(*to);
    }
    if let NEWTypes::Pointer(to) = rt {
        lemma_size(*to);
    }
}

/// An error in the left operand is the error of the whole; so is one in the right
/// operand, where there is none in the left one.
pub proof fn law_errors_come_first(e: Expr, scopes: Scopes, left: Expr, right: Expr)
    requires
        match e.kind {
            ExprKind::Binary { left: x, right: y, .. } => *x == left && *y == right,
            ExprKind::Logical { left: x, right: y, .. } => *x == left && *y == right,
            ExprKind::Comparison { left: x, right: y, .. } => *x == left && *y == right,
            ExprKind::Assign { l_expr: x, r_expr: y, .. } => *x == left && *y == right,
            ExprKind::CompoundAssign { l_expr: x, r_expr: y, .. } => *x == left && *y == right,
            ExprKind::Comma { left: x, right: y } => *x == left && *y == right,
            _ => false,
        },
    ensures
        fold(left, scopes).outcome is Failed ==> fold(e, scopes).outcome == fold(
            left,
            scopes,
        ).outcome,
        fold(left, scopes).outcome is Folded && fold(
            right,
            fold(left, scopes).scopes,
        ).outcome is Failed ==> fold(e, scopes).outcome == fold(
            right,
            fold(left, scopes).scopes,
        ).outcome,
{
    let a = fold(left, scopes);
    let b = fold_after(a, right);
    let node = fold_operands(e, scopes);
    assert(node.outcome == b.outcome);
}

/// An operator one of whose operands is not constant stays, with its operands
/// folded; so do assignments and the comma operator, whatever their operands are.
pub proof fn law_not_constant(e: Expr, scopes: Scopes, left: Expr, right: Expr)
    requires
        fold(left, scopes).outcome is Folded,
        fold(right, fold(left, scopes).scopes).outcome is Folded,
        match e.kind {
            ExprKind::Binary { left: x, right: y, .. } => *x == left && *y == right,
            ExprKind::Comparison { left: x, right: y, .. } => *x == left && *y == right,
            ExprKind::Assign { l_expr: x, r_expr: y, .. } => *x == left && *y == right,
            ExprKind::CompoundAssign { l_expr: x, r_expr: y, .. } => *x == left && *y == right,
            ExprKind::Comma { left: x, right: y } => *x == left && *y == right,
            _ => false,
        },
        e.kind is Binary || e.kind is Comparison ==> !(fold(left, scopes).expr.kind is Literal)
            || !(fold(right, fold(left, scopes).scopes).expr.kind is Literal),
    ensures
        fold(e, scopes).outcome is Folded,
        fold(e, scopes).expr.type_decl == e.type_decl,
        ({
            let l = fold(left, scopes).expr;
            let r = fold(right, fold(left, scopes).scopes).expr;
            match (e.kind, fold(e, scopes).expr.kind) {
                (
                    ExprKind::Binary { token, .. },
                    ExprKind::Binary { left: x, token: o, right: y },
                ) => *x == l && *y == r && o == token,
                (
                    ExprKind::Comparison { token, .. },
                    ExprKind::Comparison { left: x, token: o, right: y },
                ) => *x == l && *y == r && o == token,
                (
                    ExprKind::Assign { token, .. },
                    ExprKind::Assign { l_expr: x, token: o, r_expr: y },
                ) => *x == l && *y == r && o == token,
                (
                    ExprKind::CompoundAssign { token, .. },
                    ExprKind::CompoundAssign { l_expr: x, token: o, r_expr: y },
                ) => *x == l && *y == r && o == token,
                (ExprKind::Comma { .. }, ExprKind::Comma { left: x, right: y }) => *x == l && *y
                    == r,
                _ => false,
            }
        }),
{
    let a = fold(left, scopes);
    let b = fold_after(a, right);
    assert(b == fold(right, a.scopes));
    let node = fold_operands(e, scopes);
    assert(node.outcome is Folded);
    assert(node_rule(node.expr, node.scopes) is Keep);
}

/// An integer constant is an `int` where that can hold it, and else a `long`.
pub proof fn law_constant_types(n: int)
    ensures
        constant_type(n) == if fits(n, 4) {
            Types::Int
        } else {
            Types::Long
        },
{
}

/// The sizes and ranges of types.
pub proof fn law_type_ranges(t: NEWTypes, n: int)
    requires
        of_integers(t) || t is Pointer,
    ensures
        t.bytes() == scalar_size(t),
        t.holds(n) == fits(n, scalar_size(t)),
{
}

/// A unary operator whose operand is not constant stays, with its operand folded; so
/// do `*` and `&` in any case, casts of what is not constant, member accesses,
/// increments and scaled operands.
pub proof fn law_operand_folds(e: Expr, scopes: Scopes, inner: Expr)
    requires
        fold(inner, scopes).outcome is Folded,
        match e.kind {
            ExprKind::Unary { token, right } => *right == inner && (!(fold(
                inner,
                scopes,
            ).expr.kind is Literal) || token.token is Star || token.token is Amp),
            ExprKind::Cast { expr, .. } => *expr == inner && !(fold(
                inner,
                scopes,
            ).expr.kind is Literal),
            ExprKind::ScaleUp { expr, .. } => *expr == inner,
            ExprKind::ScaleDown { expr, .. } => *expr == inner,
            ExprKind::MemberAccess { expr, .. } => *expr == inner,
            ExprKind::PostUnary { left, .. } => *left == inner,
            _ => false,
        },
    ensures
        fold(e, scopes).outcome is Folded,
        fold(e, scopes).scopes == fold(inner, scopes).scopes,
        fold(e, scopes).expr.type_decl == e.type_decl,
        ({
            let x = fold(inner, scopes).expr;
            match (e.kind, fold(e, scopes).expr.kind) {
                (ExprKind::Unary { token, .. }, ExprKind::Unary { token: o, right }) => o == token
                    && *right == x,
                (
                    ExprKind::Cast { token, decl_type, .. },
                    ExprKind::Cast { token: o, decl_type: d, expr },
                ) => o == token && d == decl_type && *expr == x,
                (
                    ExprKind::ScaleUp { shift_amount, .. },
                    ExprKind::ScaleUp { expr, shift_amount: n },
                ) => n == shift_amount && *expr == x,
                (
                    ExprKind::ScaleDown { shift_amount, .. },
                    ExprKind::ScaleDown { expr, shift_amount: n },
                ) => n == shift_amount && *expr == x,
                (
                    ExprKind::MemberAccess { token, member, .. },
                    ExprKind::MemberAccess { token: o, expr, member: m },
                ) => o == token && m == member && *expr == x,
                (ExprKind::PostUnary { token, .. }, ExprKind::PostUnary { token: o, left }) => o
                    == token && *left == x,
                _ => false,
            }
        }),
{
    let node = fold_operands(e, scopes);
    assert(node.outcome is Folded && node.scopes == fold(inner, scopes).scopes);
    assert(node_rule(node.expr, node.scopes) is Keep);
}

/// An error in the only operand is the error of the whole.
pub proof fn law_operand_error(e: Expr, scopes: Scopes, inner: Expr)
    requires
        fold(inner, scopes).outcome is Failed,
        match e.kind {
            ExprKind::Unary { right, .. } => *right == inner,
            ExprKind::Cast { expr, .. } => *expr == inner,
            ExprKind::Grouping { expr } => *expr == inner,
            ExprKind::Ternary { cond, .. } => *cond == inner,
            ExprKind::ScaleUp { expr, .. } => *expr == inner,
            ExprKind::ScaleDown { expr, .. } => *expr == inner,
            ExprKind::MemberAccess { expr, .. } => *expr == inner,
            ExprKind::PostUnary { left, .. } => *left == inner,
            _ => false,
        },
    ensures
        fold(e, scopes).outcome == fold(inner, scopes).outcome,
{
    let node = fold_operands(e, scopes);
    if let ExprKind::Ternary { token, cond, true_expr, false_expr } = e.kind {
        let c = fold(*cond, scopes);
        let t = fold_after(c, *true_expr);
        let f = fold_after(t, *false_expr);
        assert(t.outcome == c.outcome && f.outcome == c.outcome);
    }
    assert(node.outcome == fold(inner, scopes).outcome);
}

/// Constants, strings, calls, the size of an expression and the empty expression
/// stay as they are.
pub proof fn law_leaves_stay(e: Expr, scopes: Scopes)
    requires
        e.kind is Literal || e.kind is String || e.kind is Call || e.kind is SizeofExpr || e.kind
            is Nop,
    ensures
        fold(e, scopes).outcome is Folded && fold(e, scopes).expr == e,
        fold(e, scopes).scopes == scopes,
{
    let node = fold_operands(e, scopes);
    assert(node.expr == e && node.scopes == scopes);
}

/// A logical operator stays, with its operands folded, where it is not decided: its
/// left operand is not constant, or does not decide and the right one is not
/// constant.
pub proof fn law_logical_stays(e: Expr, scopes: Scopes, token: Token, left: Expr, right: Expr)
    requires
        e.kind matches ExprKind::Logical { left: x, token: o, right: y } && *x == left && o == token
            && *y == right,
        token.token is AmpAmp || token.token is PipePipe,
        fold(left, scopes).outcome is Folded,
        fold(right, fold(left, scopes).scopes).outcome is Folded,
        ({
            let l = fold(left, scopes).expr.kind;
            let r = fold(right, fold(left, scopes).scopes).expr.kind;
            !(l is Literal) || !(r is Literal) && (l matches ExprKind::Literal(n) && n != (
            if token.token is AmpAmp {
                0i64
            } else {
                1i64
            }))
        }),
    ensures
        fold(e, scopes).outcome is Folded,
        fold(e, scopes).expr.type_decl == e.type_decl,
        fold(e, scopes).expr.kind matches ExprKind::Logical { left: x, token: o, right: y } && *x
            == fold(left, scopes).expr && o == token && *y == fold(
            right,
            fold(left, scopes).scopes,
        ).expr,
{
    let a = fold(left, scopes);
    let b = fold_after(a, right);
    assert(b == fold(right, a.scopes));
    let node = fold_operands(e, scopes);
    assert(node.expr.kind matches ExprKind::Logical { left: x, token: o, right: y } && *x == a.expr
        && o == token && *y == b.expr);
    assert(node_rule(node.expr, node.scopes) is Keep);
}

/// A type is the same as itself, and types are the same only where what they are
/// made of is.
pub proof fn law_same_types(l: NEWTypes, r: NEWTypes)
    ensures
        l.same(l),
        l.same(r) == r.same(l),
        match (l, r) {
            (NEWTypes::Primitive(a), NEWTypes::Primitive(b)) => l.same(r) == (a == b),
            (NEWTypes::Pointer(a), NEWTypes::Pointer(b)) => l.same(r) == a.same(*b),
            (NEWTypes::Array { amount: m, of: a }, NEWTypes::Array { amount: n, of: b }) => l.same(
                r,
            ) == (m == n && a.same(*b)),
            (NEWTypes::Struct(a), NEWTypes::Struct(b)) => l.same(r) == a.same(b),
            (NEWTypes::Union(a), NEWTypes::Union(b)) => l.same(r) == a.same(b),
            (NEWTypes::Enum(a), NEWTypes::Enum(b)) => l.same(r) == (match (a, b) {
                (Some(x), Some(y)) => x@ == y@,
                (None, None) => true,
                _ => false,
            }),
            _ => !l.same(r),
        },
    decreases l,
{
    match (l, r) {
        (NEWTypes::Pointer(a), NEWTypes::Pointer(b)) => {
            law_same_types(*a, *b);
        },
        (NEWTypes::Array { amount: m, of: a }, NEWTypes::Array { amount: n, of: b }) => {
            law_same_types(*a, *b);
        },
        (NEWTypes::Pointer(a), _) => {
            law_same_types(*a, *a);
        },
        (NEWTypes::Array { amount: m, of: a }, _) => {
            law_same_types(*a, *a);
        },
        _ => {},
    }
}

/// Any two integers go together; a pointer goes with 0, with a pointer to the same
/// type, and with a pointer where one of the two is to `void`; an integer does not go
/// with a pointer.
pub proof fn law_compatible_types(l: NEWTypes, r: NEWTypes, zero: bool)
    ensures
        of_integers(l) && of_integers(r) ==> compatible(l, r, zero),
        l is Pointer && of_integers(r) ==> compatible(l, r, zero) == zero,
        of_integers(l) && r is Pointer ==> !compatible(l, r, zero),
        match (l, r) {
            (NEWTypes::Pointer(a), NEWTypes::Pointer(b)) => compatible(l, r, zero) == (*a
                == NEWTypes::Primitive(Types::Void) || *b == NEWTypes::Primitive(Types::Void)
                || a.same(*b)),
            _ => true,
        },
        l is Pointer && !(r is Pointer) && !of_integers(r) ==> !compatible(l, r, zero),
        !(l is Pointer) && !(of_integers(l) && of_integers(r)) ==> compatible(l, r, zero) == l.same(
            r,
        ),
{
}

/// The value of an expression that has to be constant is the constant that it folds
/// to, or else an error: the one that folding came to, or that it is not constant.
pub proof fn law_constant_value(f: Fold, otherwise: Error)
    requires
        !(f.outcome is Stuck),
    ensures
        f.outcome matches Outcome::Failed(error) ==> constant_value(f, otherwise) == Err::<
            i64,
            Error,
        >(error),
        f.outcome is Folded ==> (f.expr.kind matches ExprKind::Literal(n) ==> constant_value(
            f,
            otherwise,
        ) == Ok::<i64, Error>(n)),
        f.outcome is Folded && !(f.expr.kind is Literal) ==> constant_value(f, otherwise) == Err::<
            i64,
            Error,
        >(otherwise),
{
}

/// Folding answers with an error exactly where it ended with that error.
pub proof fn law_answers(answer: Result<(), Error>, outcome: Outcome)
    requires
        ends(answer, outcome),
    ensures
        answer is Ok <==> outcome is Folded,
        answer matches Err(error) ==> outcome == Outcome::Failed(error),
{
}

/// A conditional expression whose condition is not constant stays, with its operands
/// folded.
pub proof fn law_conditional_stays(
    e: Expr,
    scopes: Scopes,
    token: Token,
    cond: Expr,
    yes: Expr,
    no: Expr,
)
    requires
        e.kind matches ExprKind::Ternary { token: o, cond: x, true_expr: y, false_expr: z } && o
            == token && *x == cond && *y == yes && *z == no,
        ({
            let c = fold(cond, scopes);
            let y = fold(yes, c.scopes);
            let n = fold(no, y.scopes);
            &&& c.outcome is Folded && y.outcome is Folded && n.outcome is Folded
            &&& !(c.expr.kind is Literal)
            &&& !(y.expr.kind is Literal) || !(n.expr.kind is Literal)
        }),
    ensures
        fold(e, scopes).outcome is Folded,
        fold(e, scopes).expr.type_decl == e.type_decl,
        fold(e, scopes).expr.kind matches ExprKind::Ternary {
            token: o,
            cond: x,
            true_expr: y,
            false_expr: z,
        } && o == token && *x == fold(cond, scopes).expr && *y == fold(
            yes,
            fold(cond, scopes).scopes,
        ).expr && *z == fold(no, fold(yes, fold(cond, scopes).scopes).scopes).expr,
{
    let c = fold(cond, scopes);
    let y = fold_after(c, yes);
    let n = fold_after(y, no);
    assert(y == fold(yes, c.scopes));
    assert(n == fold(no, y.scopes));
    let node = fold_operands(e, scopes);
    assert(node.expr.kind matches ExprKind::Ternary {
        token: o,
        cond: p,
        true_expr: q,
        false_expr: r,
    } && o == token && *p == c.expr && *q == y.expr && *r == n.expr);
    assert(node_rule(node.expr, node.scopes) == ternary_rule(token, c.expr, y.expr, n.expr));
}

/// Where an operator comes to an error of its own, its operands stay folded. Where
/// its left operand comes to one, the right one stays as it was.
pub proof fn law_failed_operands(e: Expr, scopes: Scopes, token: Token, left: Expr, right: Expr)
    requires
        e.kind matches ExprKind::Binary { left: x, token: o, right: y } && *x == left && o == token
            && *y == right,
        fold(e, scopes).outcome is Failed,
    ensures
        ({
            let l = fold(left, scopes);
            fold(e, scopes).expr.kind matches ExprKind::Binary { left: x, token: o, right: y } && *x
                == l.expr && o == token && *y == if l.outcome is Folded {
                fold(right, l.scopes).expr
            } else {
                right
            }
        }),
        fold(e, scopes).expr.type_decl == e.type_decl,
{
    let a = fold(left, scopes);
    let b = fold_after(a, right);
    let node = fold_operands(e, scopes);
    assert(node.expr.kind matches ExprKind::Binary { left: x, token: o, right: y } && *x == a.expr
        && o == token && *y == b.expr);
}

/// A struct or union takes up as many bytes as were declared. Two with names are the
/// same by their names, two without by where they are opened, and one with a name is
/// never the same as one without.
pub proof fn law_declared_structs(l: StructInfo, r: StructInfo)
    ensures
        match l {
            StructInfo::Named(_, size) => l.bytes() == size,
            StructInfo::Anonymous(_, size) => l.bytes() == size,
        },
        l.same(r) == (match (l, r) {
            (StructInfo::Named(a, _), StructInfo::Named(b, _)) => a@ == b@,
            (StructInfo::Anonymous(a, _), StructInfo::Anonymous(b, _)) => a.line_index
                == b.line_index && a.column == b.column,
            _ => false,
        }),
{
}

/// No name is known where an expression of the preprocessor is folded: every name
/// stays.
pub proof fn law_preprocessor_names(e: Expr)
    requires
        e.kind matches ExprKind::Ident(token) && token.name() is Some,
    ensures
        fold(e, no_symbols()).outcome is Folded && fold(e, no_symbols()).expr == e,
{
    let name = e.kind->Ident_0.name()->0;
    law_name_folds(e, no_symbols(), name);
    assert(no_symbols().drop_first() =~= Seq::empty());
    assert(lookup(no_symbols().drop_first(), name) is None);
    assert(lookup(no_symbols(), name) is None);
}

} // verus!
