//! Laws of constant folding.

use vstd::prelude::*;

use crate::common::environment::{declare, lookup};
use crate::common::token::{Token, TokenType};
use crate::common::types::NEWTypes;
use crate::parser::expr::{weight, Expr, ExprKind};
use crate::parser::fold_spec::{
    binary_rule, compares, converted, fits_i64, fold, fold_after, fold_operands, ident_rule,
    node_rule, quotient, remainder, scopes_after, unary_rule, Fold, Outcome, Rule,
};
use crate::parser::typechecker::{
    declare_constants, enum_constant, Register, Scopes, SymbolInfo, Symbols,
};

verus! {

/// Whether `p` holds of `e` and of every operand in it that folding enters.
pub open spec fn every(e: Expr, p: spec_fn(Expr) -> bool) -> bool
    decreases e, 1nat,
{
    p(e) && every_operand(e, p)
}

/// Whether `p` holds of every operand of `e`, and of the operands in them.
pub open spec fn every_operand(e: Expr, p: spec_fn(Expr) -> bool) -> bool
    decreases e, 0nat,
{
    match e.kind {
        ExprKind::Binary { left, right, .. } => every(*left, p) && every(*right, p),
        ExprKind::Unary { right, .. } => every(*right, p),
        ExprKind::Logical { left, right, .. } => every(*left, p) && every(*right, p),
        ExprKind::Comparison { left, right, .. } => every(*left, p) && every(*right, p),
        ExprKind::Cast { expr, .. } => every(*expr, p),
        ExprKind::Grouping { expr } => every(*expr, p),
        ExprKind::Ternary { cond, true_expr, false_expr, .. } => {
            &&& every(*cond, p)
            &&& every(*true_expr, p)
            &&& every(*false_expr, p)
        },
        ExprKind::ScaleUp { expr, .. } => every(*expr, p),
        ExprKind::ScaleDown { expr, .. } => every(*expr, p),
        ExprKind::Assign { l_expr, r_expr, .. } => every(*l_expr, p) && every(*r_expr, p),
        ExprKind::CompoundAssign { l_expr, r_expr, .. } => every(*l_expr, p) && every(*r_expr, p),
        ExprKind::Comma { left, right } => every(*left, p) && every(*right, p),
        ExprKind::MemberAccess { expr, .. } => every(*expr, p),
        ExprKind::PostUnary { left, .. } => every(*left, p),
        _ => true,
    }
}

/// What has to hold of the single steps for folding to turn an expression whose
/// nodes are all `given` into one whose nodes are all `left`: folding operands
/// keeps a node `given`, and the rule of a `given` node with operands that are
/// `left` leaves what is `left`, and symbols that are `sound`.
pub open spec fn steps_keep(
    given: spec_fn(Expr) -> bool,
    left: spec_fn(Expr) -> bool,
    sound: spec_fn(Scopes) -> bool,
    defined: bool,
) -> bool {
    &&& forall|e: Expr, scopes: Scopes|
        #![trigger fold_operands(e, scopes)]
        given(e) ==> given(fold_operands(e, scopes).expr)
    &&& forall|node: Expr, scopes: Scopes|
        #![trigger node_rule(node, scopes)]
        given(node) && sound(scopes) && every_operand(node, left) ==> {
            &&& sound(scopes_after(node, scopes))
            &&& match node_rule(node, scopes) {
                Rule::Keep => left(node),
                Rule::Replace(expr) => every(expr, left),
                Rule::Fail(_) => true,
                Rule::Stuck => !defined,
            }
        }
}

/// What `steps_keep` is for.
pub open spec fn folding_keeps(
    folded: Fold,
    left: spec_fn(Expr) -> bool,
    sound: spec_fn(Scopes) -> bool,
    defined: bool,
) -> bool {
    match folded.outcome {
        Outcome::Folded => every(folded.expr, left) && sound(folded.scopes),
        Outcome::Failed(_) => true,
        Outcome::Stuck => !defined,
    }
}

pub(crate) proof fn lemma_folding_keeps(
    e: Expr,
    scopes: Scopes,
    given: spec_fn(Expr) -> bool,
    left: spec_fn(Expr) -> bool,
    sound: spec_fn(Scopes) -> bool,
    defined: bool,
)
    requires
        steps_keep(given, left, sound, defined),
        every(e, given),
        sound(scopes),
    ensures
        folding_keeps(fold(e, scopes), left, sound, defined),
    decreases weight(e), 1nat,
{
    lemma_operands_keep(e, scopes, given, left, sound, defined);
    let node = fold_operands(e, scopes);
    assert(given(node.expr));
}

pub(crate) proof fn lemma_operands_keep(
    e: Expr,
    scopes: Scopes,
    given: spec_fn(Expr) -> bool,
    left: spec_fn(Expr) -> bool,
    sound: spec_fn(Scopes) -> bool,
    defined: bool,
)
    requires
        steps_keep(given, left, sound, defined),
        every(e, given),
        sound(scopes),
    ensures
        match fold_operands(e, scopes).outcome {
            Outcome::Folded => every_operand(fold_operands(e, scopes).expr, left) && sound(
                fold_operands(e, scopes).scopes,
            ),
            Outcome::Failed(_) => true,
            Outcome::Stuck => !defined,
        },
    decreases weight(e), 0nat,
{
    match e.kind {
        ExprKind::Binary { left: l, right: r, .. } => {
            lemma_pair_keeps(*l, *r, scopes, given, left, sound, defined);
        },
        ExprKind::Logical { left: l, right: r, .. } => {
            lemma_pair_keeps(*l, *r, scopes, given, left, sound, defined);
        },
        ExprKind::Comparison { left: l, right: r, .. } => {
            lemma_pair_keeps(*l, *r, scopes, given, left, sound, defined);
        },
        ExprKind::Assign { l_expr, r_expr, .. } => {
            lemma_pair_keeps(*l_expr, *r_expr, scopes, given, left, sound, defined);
        },
        ExprKind::CompoundAssign { l_expr, r_expr, .. } => {
            lemma_pair_keeps(*l_expr, *r_expr, scopes, given, left, sound, defined);
        },
        ExprKind::Comma { left: l, right: r } => {
            lemma_pair_keeps(*l, *r, scopes, given, left, sound, defined);
        },
        ExprKind::Ternary { cond, true_expr, false_expr, .. } => {
            lemma_pair_keeps(*cond, *true_expr, scopes, given, left, sound, defined);
            let t = fold_after(fold(*cond, scopes), *true_expr);
            let f = fold_after(t, *false_expr);
            if t.outcome is Folded {
                lemma_folding_keeps(*false_expr, t.scopes, given, left, sound, defined);
            }
        },
        ExprKind::Unary { right: r, .. } => {
            lemma_folding_keeps(*r, scopes, given, left, sound, defined);
        },
        ExprKind::Cast { expr, .. } => {
            lemma_folding_keeps(*expr, scopes, given, left, sound, defined);
        },
        ExprKind::Grouping { expr } => {
            lemma_folding_keeps(*expr, scopes, given, left, sound, defined);
        },
        ExprKind::ScaleUp { expr, .. } => {
            lemma_folding_keeps(*expr, scopes, given, left, sound, defined);
        },
        ExprKind::ScaleDown { expr, .. } => {
            lemma_folding_keeps(*expr, scopes, given, left, sound, defined);
        },
        ExprKind::MemberAccess { expr, .. } => {
            lemma_folding_keeps(*expr, scopes, given, left, sound, defined);
        },
        ExprKind::PostUnary { left: l, .. } => {
            lemma_folding_keeps(*l, scopes, given, left, sound, defined);
        },
        _ => {},
    }
}

pub(crate) proof fn lemma_pair_keeps(
    l: Expr,
    r: Expr,
    scopes: Scopes,
    given: spec_fn(Expr) -> bool,
    left: spec_fn(Expr) -> bool,
    sound: spec_fn(Scopes) -> bool,
    defined: bool,
)
    requires
        steps_keep(given, left, sound, defined),
        every(l, given),
        every(r, given),
        sound(scopes),
    ensures
        folding_keeps(fold_after(fold(l, scopes), r), left, sound, defined),
        fold_after(fold(l, scopes), r).outcome is Folded ==> every(fold(l, scopes).expr, left),
    decreases weight(l) + weight(r), 2nat,
{
    lemma_folding_keeps(l, scopes, given, left, sound, defined);
    if fold(l, scopes).outcome is Folded {
        lemma_folding_keeps(r, fold(l, scopes).scopes, given, left, sound, defined);
    }
}

/// A cast gives a value of the type cast to, and leaves one that is already of
/// that type as it is.
pub proof fn law_cast(t: NEWTypes, n: i64)
    requires
        t.scalar(),
    ensures
        t.holds(converted(t, n) as int),
        t.holds(n as int) ==> converted(t, n) == n,
{
    assert(-128 <= n <= 127 ==> n as i8 as i64 == n) by (bit_vector);
    assert(-0x8000_0000 <= n <= 0x7fff_ffff ==> n as i32 as i64 == n) by (bit_vector);
}

/// What a name is bound to once a name is declared.
proof fn lemma_lookup_declared(scopes: Scopes, name: Seq<char>, symbol: Symbols, other: Seq<char>)
    requires
        scopes.len() > 0,
    ensures
        lookup(declare(scopes, name, symbol), other) == (if other == name {
            Some(symbol)
        } else {
            lookup(scopes, other)
        }),
{
    assert(declare(scopes, name, symbol).drop_first() =~= scopes.drop_first());
}

/// What a name is bound to once the constants of an enum are declared: what it
/// was bound to, or a constant.
proof fn lemma_lookup_constants(scopes: Scopes, constants: Seq<(Token, i32)>, name: Seq<char>)
    requires
        scopes.len() > 0,
    ensures
        declare_constants(scopes, constants).len() == scopes.len(),
        lookup(declare_constants(scopes, constants), name) == lookup(scopes, name) || exists|
            value: i32,
        |
            lookup(declare_constants(scopes, constants), name) == Some(
                #[trigger] enum_constant(value),
            ),
    decreases constants.len(),
{
    if constants.len() > 0 {
        let before = declare_constants(scopes, constants.drop_last());
        lemma_lookup_constants(scopes, constants.drop_last(), name);
        lemma_lookup_declared(
            before,
            constants.last().0.name().unwrap(),
            enum_constant(constants.last().1),
            name,
        );
    }
}

/// Whether the rule of a node leaves it as it is.
#[verifier::opaque]
pub open spec fn stays(node: Expr, scopes: Scopes) -> bool {
    node_rule(node, scopes) is Keep
}

/// The nodes that folding leaves as they are where `scopes` are in scope.
pub open spec fn kept(scopes: Scopes) -> spec_fn(Expr) -> bool {
    |e: Expr| stays(e, scopes)
}

/// Whether there is nothing left to fold in `e`.
pub open spec fn settled(e: Expr, scopes: Scopes) -> bool {
    every(e, kept(scopes))
}

/// Every name that is known in `before` is known in `after`.
spec fn knows_more(before: Scopes, after: Scopes) -> bool {
    after.len() > 0 && forall|name: Token|
        (#[trigger] ident_rule(name, after)) is Keep ==> ident_rule(name, before) is Keep
}

proof fn lemma_constants_known(before: Scopes, scopes: Scopes, constants: Seq<(Token, i32)>)
    requires
        knows_more(before, scopes),
    ensures
        knows_more(before, declare_constants(scopes, constants)),
{
    lemma_lookup_constants(scopes, constants, Seq::empty());
    assert forall|name: Token|
        (#[trigger] ident_rule(name, declare_constants(scopes, constants))) is Keep implies
        ident_rule(name, before) is Keep by {
        lemma_lookup_constants(scopes, constants, name.name().unwrap());
        assert(ident_rule(name, scopes) is Keep);
    }
}

/// Folding leaves nothing to fold.
proof fn lemma_folding_settles(e: Expr, scopes: Scopes)
    requires
        scopes.len() > 0,
    ensures
        fold(e, scopes).outcome is Folded ==> settled(fold(e, scopes).expr, scopes),
{
    let given = |e: Expr| true;
    let left = kept(scopes);
    let sound = |after: Scopes| knows_more(scopes, after);
    assert forall|node: Expr, after: Scopes|
        #![trigger node_rule(node, after)]
        given(node) && sound(after) && every_operand(node, left) implies {
        &&& sound(scopes_after(node, after))
        &&& match node_rule(node, after) {
            Rule::Keep => left(node),
            Rule::Replace(expr) => every(expr, left),
            Rule::Fail(_) => true,
            Rule::Stuck => true,
        }
    } by {
        reveal(stays);
        match node.kind {
            ExprKind::Cast { decl_type, .. } => {
                lemma_constants_known(scopes, after, decl_type.constants());
            },
            ExprKind::SizeofType { decl_type } => {
                lemma_constants_known(scopes, after, decl_type.constants());
            },
            ExprKind::Ident(name) => {
                assert(ident_rule(name, after) is Keep ==> ident_rule(name, scopes) is Keep);
            },
            _ => {},
        }
        if let Rule::Replace(expr) = node_rule(node, after) {
            if expr.kind is Literal {
                assert(every(expr, left));
            }
        }
    }
    assert forall|e: Expr| every(e, given) by {
        lemma_every_true(e, given);
    }
    lemma_folding_keeps(e, scopes, given, left, sound, false);
}

proof fn lemma_every_true(e: Expr, p: spec_fn(Expr) -> bool)
    requires
        forall|e: Expr| #[trigger] p(e),
    ensures
        every(e, p),
    decreases e,
{
    match e.kind {
        ExprKind::Binary { left, right, .. } => {
            lemma_every_true(*left, p);
            lemma_every_true(*right, p);
        },
        ExprKind::Logical { left, right, .. } => {
            lemma_every_true(*left, p);
            lemma_every_true(*right, p);
        },
        ExprKind::Comparison { left, right, .. } => {
            lemma_every_true(*left, p);
            lemma_every_true(*right, p);
        },
        ExprKind::Assign { l_expr, r_expr, .. } => {
            lemma_every_true(*l_expr, p);
            lemma_every_true(*r_expr, p);
        },
        ExprKind::CompoundAssign { l_expr, r_expr, .. } => {
            lemma_every_true(*l_expr, p);
            lemma_every_true(*r_expr, p);
        },
        ExprKind::Comma { left, right } => {
            lemma_every_true(*left, p);
            lemma_every_true(*right, p);
        },
        ExprKind::Ternary { cond, true_expr, false_expr, .. } => {
            lemma_every_true(*cond, p);
            lemma_every_true(*true_expr, p);
            lemma_every_true(*false_expr, p);
        },
        ExprKind::Unary { right, .. } => lemma_every_true(*right, p),
        ExprKind::Cast { expr, .. } => lemma_every_true(*expr, p),
        ExprKind::Grouping { expr } => lemma_every_true(*expr, p),
        ExprKind::ScaleUp { expr, .. } => lemma_every_true(*expr, p),
        ExprKind::ScaleDown { expr, .. } => lemma_every_true(*expr, p),
        ExprKind::MemberAccess { expr, .. } => lemma_every_true(*expr, p),
        ExprKind::PostUnary { left, .. } => lemma_every_true(*left, p),
        _ => {},
    }
}

/// A node that stays declares nothing.
proof fn lemma_kept_declares_nothing(node: Expr, scopes: Scopes)
    requires
        stays(node, scopes),
    ensures
        node_rule(node, scopes) is Keep,
        scopes_after(node, scopes) == scopes,
{
    reveal(stays);
}

/// Folding an expression in which nothing is left to fold changes nothing.
proof fn lemma_settled_stays(e: Expr, scopes: Scopes)
    requires
        settled(e, scopes),
    ensures
        fold(e, scopes) == (Fold { expr: e, scopes, outcome: Outcome::Folded }),
    decreases weight(e), 1nat,
{
    lemma_settled_operands_stay(e, scopes);
    assert(kept(scopes)(e));
    lemma_kept_declares_nothing(e, scopes);
}

proof fn lemma_settled_operands_stay(e: Expr, scopes: Scopes)
    requires
        every_operand(e, kept(scopes)),
    ensures
        fold_operands(e, scopes) == (Fold { expr: e, scopes, outcome: Outcome::Folded }),
    decreases weight(e), 0nat,
{
    match e.kind {
        ExprKind::Binary { left, right, .. } => lemma_settled_pair_stays(*left, *right, scopes),
        ExprKind::Logical { left, right, .. } => lemma_settled_pair_stays(*left, *right, scopes),
        ExprKind::Comparison { left, right, .. } => lemma_settled_pair_stays(
            *left,
            *right,
            scopes,
        ),
        ExprKind::Assign { l_expr, r_expr, .. } => lemma_settled_pair_stays(
            *l_expr,
            *r_expr,
            scopes,
        ),
        ExprKind::CompoundAssign { l_expr, r_expr, .. } => lemma_settled_pair_stays(
            *l_expr,
            *r_expr,
            scopes,
        ),
        ExprKind::Comma { left, right } => lemma_settled_pair_stays(*left, *right, scopes),
        ExprKind::Ternary { cond, true_expr, false_expr, .. } => {
            lemma_settled_pair_stays(*cond, *true_expr, scopes);
            lemma_settled_pair_stays(*true_expr, *false_expr, scopes);
        },
        ExprKind::Unary { right, .. } => lemma_settled_stays(*right, scopes),
        ExprKind::Cast { expr, .. } => lemma_settled_stays(*expr, scopes),
        ExprKind::Grouping { expr } => lemma_settled_stays(*expr, scopes),
        ExprKind::ScaleUp { expr, .. } => lemma_settled_stays(*expr, scopes),
        ExprKind::ScaleDown { expr, .. } => lemma_settled_stays(*expr, scopes),
        ExprKind::MemberAccess { expr, .. } => lemma_settled_stays(*expr, scopes),
        ExprKind::PostUnary { left, .. } => lemma_settled_stays(*left, scopes),
        _ => {},
    }
}

proof fn lemma_settled_pair_stays(left: Expr, right: Expr, scopes: Scopes)
    requires
        settled(left, scopes),
        settled(right, scopes),
    ensures
        fold(left, scopes) == (Fold { expr: left, scopes, outcome: Outcome::Folded }),
        fold_after(fold(left, scopes), right) == (Fold {
            expr: right,
            scopes,
            outcome: Outcome::Folded,
        }),
    decreases weight(left) + weight(right), 2nat,
{
    lemma_settled_stays(left, scopes);
    lemma_settled_stays(right, scopes);
}

/// Folding twice is folding once: where an expression was folded without an
/// error, nothing in the result is left to fold, and folding it again with the
/// same symbols in scope changes neither it nor the symbols.
pub proof fn law_fold_twice(e: Expr, scopes: Scopes)
    requires
        scopes.len() > 0,
        fold(e, scopes).outcome is Folded,
    ensures
        settled(fold(e, scopes).expr, scopes),
        fold(fold(e, scopes).expr, scopes) == (Fold { scopes, ..fold(e, scopes) }),
{
    lemma_folding_settles(e, scopes);
    lemma_settled_stays(fold(e, scopes).expr, scopes);
}

/// Whether a node that is a constant has a value of its type.
pub open spec fn in_range(e: Expr) -> bool {
    match (e.kind, e.type_decl) {
        (ExprKind::Literal(n), Some(t)) => t.holds(n as int),
        _ => true,
    }
}

/// Whether a symbol that is a constant has a value of its type.
pub open spec fn symbol_in_range(symbol: Symbols) -> bool {
    match symbol {
        Symbols::Variable(SymbolInfo { type_decl, reg: Some(Register::Literal(n, _)) }) => {
            type_decl.holds(n as int)
        },
        _ => true,
    }
}

/// Whether every constant in scope has a value of its type.
pub open spec fn symbols_in_range(scopes: Scopes) -> bool {
    scopes.len() > 0 && forall|name: Seq<char>|
        match #[trigger] lookup(scopes, name) {
            Some(symbol) => symbol_in_range(symbol),
            None => true,
        }
}

proof fn lemma_constants_in_range(scopes: Scopes, constants: Seq<(Token, i32)>)
    requires
        symbols_in_range(scopes),
    ensures
        symbols_in_range(declare_constants(scopes, constants)),
{
    lemma_lookup_constants(scopes, constants, Seq::empty());
    assert forall|name: Seq<char>|
        match #[trigger] lookup(declare_constants(scopes, constants), name) {
            Some(symbol) => symbol_in_range(symbol),
            None => true,
        } by {
        lemma_lookup_constants(scopes, constants, name);
        assert(match lookup(scopes, name) {
            Some(symbol) => symbol_in_range(symbol),
            None => true,
        });
    }
}

/// Folding only gives constants that their types can hold, out of constants
/// that theirs can hold.
pub proof fn law_constants_in_range(e: Expr, scopes: Scopes)
    requires
        every(e, |node: Expr| in_range(node)),
        symbols_in_range(scopes),
    ensures
        fold(e, scopes).outcome is Folded ==> {
            &&& every(fold(e, scopes).expr, |node: Expr| in_range(node))
            &&& symbols_in_range(fold(e, scopes).scopes)
        },
{
    let ranged = |node: Expr| in_range(node);
    let sound = |after: Scopes| symbols_in_range(after);
    assert forall|node: Expr, after: Scopes|
        #![trigger node_rule(node, after)]
        ranged(node) && sound(after) && every_operand(node, ranged) implies {
        &&& sound(scopes_after(node, after))
        &&& match node_rule(node, after) {
            Rule::Keep => ranged(node),
            Rule::Replace(expr) => every(expr, ranged),
            Rule::Fail(_) => true,
            Rule::Stuck => true,
        }
    } by {
        lemma_rule_in_range(node, after);
        match node.kind {
            ExprKind::Cast { decl_type, .. } => {
                lemma_constants_in_range(after, decl_type.constants());
            },
            ExprKind::SizeofType { decl_type } => {
                lemma_constants_in_range(after, decl_type.constants());
            },
            _ => {},
        }
        if let Rule::Replace(expr) = node_rule(node, after) {
            if expr.kind is Literal {
                assert(every(expr, ranged));
            }
        }
    }
    lemma_folding_keeps(e, scopes, ranged, ranged, sound, false);
}

/// The rule of an operator only gives constants that their types can hold.
proof fn lemma_rule_in_range(node: Expr, scopes: Scopes)
    requires
        symbols_in_range(scopes),
    ensures
        match node_rule(node, scopes) {
            Rule::Replace(expr) => node.kind is Grouping || node.kind is Ternary || in_range(expr),
            _ => true,
        },
{
    match node.kind {
        ExprKind::Ident(name) => {
            if name.name() is Some {
                assert(match lookup(scopes, name.name().unwrap()) {
                    Some(symbol) => symbol_in_range(symbol),
                    None => true,
                });
            }
        },
        ExprKind::Cast { decl_type, expr, .. } => {
            if let ExprKind::Literal(n) = expr.kind {
                if decl_type.type_of().scalar() {
                    law_cast(decl_type.type_of(), n);
                }
            }
        },
        _ => {},
    }
}

/// The operators of a binary node.
pub open spec fn binary_operator(token: TokenType) -> bool {
    match token {
        TokenType::Plus | TokenType::Minus | TokenType::Star | TokenType::Slash | TokenType::Mod => {
            true
        },
        TokenType::GreaterGreater | TokenType::LessLess => true,
        TokenType::Pipe | TokenType::Xor | TokenType::Amp => true,
        _ => false,
    }
}

/// Whether a node that is a constant is of an integer type.
pub open spec fn integer_constant(e: Expr) -> bool {
    e.kind is Literal ==> match e.type_decl {
        Some(t) => t.integer(),
        None => false,
    }
}

/// Whether a node is one that a parser builds of integer constants, names and
/// operators: it has an operator of its kind, casts to no pointer, and asks for no
/// size that cannot be measured.
pub open spec fn proper(e: Expr) -> bool {
    &&& integer_constant(e)
    &&& match e.kind {
        ExprKind::Ident(name) => name.name() is Some,
        ExprKind::Binary { token, .. } => binary_operator(token.token),
        ExprKind::Logical { token, .. } => token.token is AmpAmp || token.token is PipePipe,
        ExprKind::Comparison { token, .. } => compares(token.token, 0, 0) is Some,
        ExprKind::Cast { decl_type, .. } => decl_type.constants_named()
            && !(decl_type.type_of() is Pointer),
        ExprKind::SizeofType { decl_type } => decl_type.constants_named()
            && decl_type.type_of().measurable(),
        _ => true,
    }
}

/// Whether every constant in scope is of an integer type.
pub open spec fn integer_symbols(scopes: Scopes) -> bool {
    scopes.len() > 0 && forall|name: Seq<char>|
        match #[trigger] lookup(scopes, name) {
            Some(
                Symbols::Variable(SymbolInfo { type_decl, reg: Some(Register::Literal(n, _)) }),
            ) => type_decl is Primitive && type_decl.integer(),
            _ => true,
        }
}

pub(crate) proof fn lemma_constants_are_integers(scopes: Scopes, constants: Seq<(Token, i32)>)
    requires
        integer_symbols(scopes),
    ensures
        integer_symbols(declare_constants(scopes, constants)),
{
    let after = declare_constants(scopes, constants);
    lemma_lookup_constants(scopes, constants, Seq::empty());
    assert forall|name: Seq<char>|
        match #[trigger] lookup(after, name) {
            Some(
                Symbols::Variable(SymbolInfo { type_decl, reg: Some(Register::Literal(n, _)) }),
            ) => type_decl is Primitive && type_decl.integer(),
            _ => true,
        } by {
        lemma_lookup_constants(scopes, constants, name);
        let before = lookup(scopes, name);
    }
}

proof fn lemma_proper_rule(node: Expr, scopes: Scopes)
    requires
        proper(node),
        integer_symbols(scopes),
        every_operand(node, |e: Expr| integer_constant(e)),
    ensures
        match node_rule(node, scopes) {
            Rule::Keep => true,
            Rule::Replace(expr) => {
                node.kind is Grouping || node.kind is Ternary || (expr.kind is Literal
                    && integer_constant(expr))
            },
            Rule::Fail(_) => true,
            Rule::Stuck => false,
        },
{
    let p = |e: Expr| integer_constant(e);
    match node.kind {
        ExprKind::Binary { left, right, .. } => {
            assert(p(*left) && p(*right));
        },
        ExprKind::Comparison { left, right, .. } => {
            assert(p(*left) && p(*right));
        },
        ExprKind::Unary { right, .. } => {
            assert(p(*right));
        },
        ExprKind::Cast { expr, .. } => {
            assert(p(*expr));
        },
        ExprKind::Ternary { true_expr, false_expr, .. } => {
            assert(p(*true_expr) && p(*false_expr));
        },
        ExprKind::Ident(name) => {
            let symbol = lookup(scopes, name.name().unwrap());
        },
        _ => {},
    }
}

/// Folding is defined on every expression that a parser builds of integer
/// constants, names and operators: it ends with a folded expression or an error.
pub proof fn law_integer_folding_defined(e: Expr, scopes: Scopes)
    requires
        every(e, |node: Expr| proper(node)),
        integer_symbols(scopes),
    ensures
        !(fold(e, scopes).outcome is Stuck),
{
    let given = |node: Expr| proper(node);
    let left = |node: Expr| integer_constant(node);
    let sound = |after: Scopes| integer_symbols(after);
    assert forall|node: Expr, after: Scopes|
        #![trigger node_rule(node, after)]
        given(node) && sound(after) && every_operand(node, left) implies {
        &&& sound(scopes_after(node, after))
        &&& match node_rule(node, after) {
            Rule::Keep => left(node),
            Rule::Replace(expr) => every(expr, left),
            Rule::Fail(_) => true,
            Rule::Stuck => false,
        }
    } by {
        lemma_proper_rule(node, after);
        match node.kind {
            ExprKind::Cast { decl_type, .. } => {
                lemma_constants_are_integers(after, decl_type.constants());
            },
            ExprKind::SizeofType { decl_type } => {
                lemma_constants_are_integers(after, decl_type.constants());
            },
            _ => {},
        }
        if let Rule::Replace(expr) = node_rule(node, after) {
            if expr.kind is Literal {
                assert(every(expr, left));
            }
        }
    }
    lemma_folding_keeps(e, scopes, given, left, sound, true);
}

/// What an arithmetic operator makes of two values, computed without bounds.
pub open spec fn unbounded_arithmetic(token: TokenType, l: int, r: int) -> Option<int> {
    match token {
        TokenType::Plus => Some(l + r),
        TokenType::Minus => Some(l - r),
        TokenType::Star => Some(l * r),
        TokenType::Slash => Some(quotient(l, r)),
        TokenType::Mod => Some(remainder(l, r)),
        _ => None,
    }
}

/// The value of an expression of integer constants, parentheses and arithmetic
/// operators, computed without bounds.
pub open spec fn unbounded_value(e: Expr) -> Option<int>
    decreases e,
{
    match e.kind {
        ExprKind::Literal(n) => if integer_constant(e) {
            Some(n as int)
        } else {
            None
        },
        ExprKind::Grouping { expr } => unbounded_value(*expr),
        ExprKind::Unary { token, right } => match (token.token, unbounded_value(*right)) {
            (TokenType::Plus, Some(n)) => Some(n),
            (TokenType::Minus, Some(n)) => Some(-n),
            _ => None,
        },
        ExprKind::Binary { left, token, right } => match (
            unbounded_value(*left),
            unbounded_value(*right),
        ) {
            (Some(l), Some(r)) => unbounded_arithmetic(token.token, l, r),
            _ => None,
        },
        _ => None,
    }
}

/// Whether `e` is the integer constant `value`.
pub open spec fn is_integer_constant(e: Expr, value: int) -> bool {
    fits_i64(value) && e.kind == ExprKind::Literal(value as i64) && integer_constant(e)
}

proof fn lemma_binary_exact(token: Token, left: Expr, right: Expr, l: int, r: int)
    requires
        is_integer_constant(left, l),
        is_integer_constant(right, r),
        unbounded_arithmetic(token.token, l, r) is Some,
    ensures
        match binary_rule(token, left, right) {
            Rule::Replace(expr) => is_integer_constant(
                expr,
                unbounded_arithmetic(token.token, l, r).unwrap(),
            ),
            Rule::Fail(_) => true,
            _ => false,
        },
{
}

proof fn lemma_unary_exact(token: Token, right: Expr, r: int)
    requires
        is_integer_constant(right, r),
        token.token is Plus || token.token is Minus,
    ensures
        match unary_rule(token, right) {
            Rule::Replace(expr) => is_integer_constant(
                expr,
                if token.token is Plus {
                    r
                } else {
                    -r
                },
            ),
            Rule::Fail(_) => true,
            _ => false,
        },
{
}

/// Folding never wraps around: where integer arithmetic folds without an error,
/// it folds to the constant that computing without bounds gives.
pub proof fn law_arithmetic_exact(e: Expr, scopes: Scopes)
    requires
        unbounded_value(e) is Some,
        fold(e, scopes).outcome is Folded,
    ensures
        is_integer_constant(fold(e, scopes).expr, unbounded_value(e).unwrap()),
    decreases e,
{
    match e.kind {
        ExprKind::Grouping { expr } => law_arithmetic_exact(*expr, scopes),
        ExprKind::Unary { token, right } => {
            law_arithmetic_exact(*right, scopes);
            lemma_unary_exact(token, fold(*right, scopes).expr, unbounded_value(*right).unwrap());
        },
        ExprKind::Binary { left, token, right } => {
            let l = fold(*left, scopes);
            let r = fold_after(l, *right);
            law_arithmetic_exact(*left, scopes);
            law_arithmetic_exact(*right, l.scopes);
            lemma_binary_exact(
                token,
                l.expr,
                r.expr,
                unbounded_value(*left).unwrap(),
                unbounded_value(*right).unwrap(),
            );
        },
        _ => {},
    }
}

} // verus!
