//! When the code of an expression can be generated.

use vstd::prelude::*;

use crate::codegen::ast::{expr_size, exprs_size, Expr, ExprKind};
use crate::codegen::frame_laws::{framed, law_expression_frames, lemma_place_frames};
use crate::codegen::model::{
    address_of, allocate, and_expr, and_left, and_right, arguments, assign, assign_expr, bang,
    binary, binary_expr, call, call_expr, cast_down_expr, cast_up, cast_up_expr, count,
    dereferenced, dereferenced_place, execute, execute_l, literal, load, logical_expr, negate,
    next_label, operate, or_expr, or_left, or_right, pass, shift, shift_expr, unary_expr, zero_test,
    State, Step, MAX_ARGS,
};
use crate::codegen::register::{first_free, suffix, Register, SCRATCH_REGISTERS};
use crate::codegen::register_laws::{
    fresh, holding, law_expression_registers, lemma_arguments_registers, lemma_free_last,
    lemma_load_registers, lemma_place_registers, lemma_sound_after, lemma_zero_test_registers,
    sound,
};
use crate::common::environment::lookup;
use crate::common::token::{Token, TokenType};
use crate::common::types::{NEWTypes, Types};

verus! {

/// The types of the variables of each scope, the innermost scope first.
pub type VariableTypes = Seq<Map<Seq<char>, NEWTypes>>;

/// Whether the variables in scope are in the stack frame and of these types.
pub open spec fn typed(scopes: Seq<Map<Seq<char>, Register>>, types: VariableTypes) -> bool {
    &&& scopes.len() == types.len()
    &&& forall|i: int| 0 <= i < scopes.len() ==> #[trigger] scopes[i].dom() == types[i].dom()
    &&& forall|i: int, name: Seq<char>|
        0 <= i < scopes.len() && #[trigger] scopes[i].contains_key(name) ==> (
        scopes[i][name] matches Register::Stack(_, t) && t == types[i][name])
}

/// Where the value of an expression is.
pub enum Home {
    /// In the stack frame.
    Stack,
    /// In a scratch register.
    Scratch,
    /// Where a scratch register points to.
    Deref,
}

/// Where a value is once it is moved out of the stack frame.
pub open spec fn loaded(home: Home) -> Home {
    if home is Stack {
        Home::Scratch
    } else {
        home
    }
}

/// Where the value of an expression is.
pub open spec fn home(e: Expr) -> Home
    decreases expr_size(e),
{
    match e.kind {
        ExprKind::Ident(_) => Home::Stack,
        ExprKind::Grouping { expr } => home(*expr),
        ExprKind::Unary { token, right } => match token.token {
            TokenType::Bang | TokenType::Minus => home(*right),
            _ => Home::Scratch,
        },
        ExprKind::Binary { left, token, right } => if token.token is Minus {
            loaded(home(*left))
        } else {
            loaded(home(*right))
        },
        ExprKind::Assign { l_expr, .. } => place_home(*l_expr),
        ExprKind::CastDown { expr } => home(*expr),
        ExprKind::ScaleUp { expr, .. } => loaded(home(*expr)),
        ExprKind::ScaleDown { expr, .. } => loaded(home(*expr)),
        _ => Home::Scratch,
    }
}

/// Where an expression that is assigned to is.
pub open spec fn place_home(e: Expr) -> Home
    decreases expr_size(e),
{
    match e.kind {
        ExprKind::Grouping { expr } => place_home(*expr),
        ExprKind::Unary { .. } => Home::Deref,
        _ => Home::Stack,
    }
}

/// What a pointer of type `t` points to.
pub open spec fn pointed_to(t: Option<NEWTypes>) -> Option<NEWTypes> {
    match t {
        Some(NEWTypes::Pointer(to)) => Some(*to),
        _ => None,
    }
}

/// The type of the variable that a token names.
pub open spec fn variable_type(types: VariableTypes, name: Token) -> Option<NEWTypes> {
    match name.name() {
        Some(n) => lookup(types, n),
        None => None,
    }
}

/// The type of the value of an expression.
pub open spec fn value_type(types: VariableTypes, e: Expr) -> Option<NEWTypes>
    decreases expr_size(e),
{
    match e.kind {
        ExprKind::Number(_) => Some(NEWTypes::Primitive(Types::Int)),
        ExprKind::CharLit(_) => Some(NEWTypes::Primitive(Types::Char)),
        ExprKind::Grouping { expr } => value_type(types, *expr),
        ExprKind::Ident(name) => variable_type(types, name),
        ExprKind::Unary { token, right } => match token.token {
            TokenType::Amp => match value_type(types, *right) {
                Some(t) => Some(NEWTypes::Pointer(Box::new(t))),
                None => None,
            },
            TokenType::Star => pointed_to(value_type(types, *right)),
            _ => value_type(types, *right),
        },
        ExprKind::Binary { left, token, right } => if token.token is Minus {
            value_type(types, *left)
        } else {
            value_type(types, *right)
        },
        ExprKind::Logical { .. } => Some(NEWTypes::Primitive(Types::Int)),
        ExprKind::Assign { l_expr, .. } => place_type(types, *l_expr),
        ExprKind::Call { .. } => e.type_decl,
        ExprKind::CastUp { .. } => e.type_decl,
        ExprKind::CastDown { .. } => e.type_decl,
        ExprKind::ScaleUp { expr, .. } => value_type(types, *expr),
        ExprKind::ScaleDown { expr, .. } => value_type(types, *expr),
    }
}

/// The type of an expression that is assigned to.
pub open spec fn place_type(types: VariableTypes, e: Expr) -> Option<NEWTypes>
    decreases expr_size(e),
{
    match e.kind {
        ExprKind::Ident(name) => variable_type(types, name),
        ExprKind::Grouping { expr } => place_type(types, *expr),
        ExprKind::Unary { right, .. } => pointed_to(value_type(types, *right)),
        _ => None,
    }
}

/// Whether there is a type and registers can hold its values.
pub open spec fn fits_register(t: Option<NEWTypes>) -> bool {
    t matches Some(t) && suffix(t) is Some
}

/// Whether the code generator knows a binary operator.
pub open spec fn known_operator(token: TokenType) -> bool {
    match token {
        TokenType::Plus | TokenType::Minus | TokenType::Star | TokenType::Slash => true,
        TokenType::EqualEqual | TokenType::BangEqual => true,
        TokenType::Greater | TokenType::GreaterEqual => true,
        TokenType::Less | TokenType::LessEqual => true,
        _ => false,
    }
}

/// Whether an expression is one that passes checking and has a value: its
/// variables are declared, its operators are known, and registers can hold all
/// values in it.
pub open spec fn well_typed(types: VariableTypes, e: Expr) -> bool
    decreases expr_size(e),
{
    &&& fits_register(value_type(types, e))
    &&& match e.kind {
        ExprKind::Number(_) => true,
        ExprKind::CharLit(_) => true,
        ExprKind::Grouping { expr } => well_typed(types, *expr),
        ExprKind::Ident(_) => true,
        ExprKind::Unary { token, right } => well_typed(types, *right) && match token.token {
            TokenType::Bang | TokenType::Minus | TokenType::Amp | TokenType::Star => true,
            _ => false,
        },
        ExprKind::Binary { left, token, right } => known_operator(token.token) && well_typed(
            types,
            *left,
        ) && well_typed(types, *right),
        ExprKind::Logical { left, token, right } => (token.token is AmpAmp
            || token.token is PipePipe) && well_typed(types, *left) && well_typed(types, *right),
        ExprKind::Assign { l_expr, r_expr, .. } => well_typed_place(types, *l_expr)
            && well_typed(types, *r_expr),
        ExprKind::Call { callee, args, .. } => well_typed_call(types, *callee, args@),
        ExprKind::CastUp { expr } => well_typed(types, *expr) && fits_register(expr.type_decl),
        ExprKind::CastDown { expr } => well_typed(types, *expr),
        ExprKind::ScaleUp { expr, .. } => well_typed(types, *expr),
        ExprKind::ScaleDown { expr, .. } => well_typed(types, *expr),
    }
}

/// Whether an expression can be assigned to.
pub open spec fn well_typed_place(types: VariableTypes, e: Expr) -> bool
    decreases expr_size(e),
{
    &&& fits_register(place_type(types, e))
    &&& match e.kind {
        ExprKind::Ident(_) => true,
        ExprKind::Grouping { expr } => well_typed_place(types, *expr),
        ExprKind::Unary { token, right } => token.token is Star && well_typed(types, *right)
            && !(home(*right) is Deref),
        _ => false,
    }
}

/// Whether a function is called by its name, with arguments for which there are
/// registers.
pub open spec fn well_typed_call(types: VariableTypes, callee: Expr, args: Seq<Expr>) -> bool
    decreases exprs_size(args) + 2,
{
    &&& callee.kind matches ExprKind::Ident(name) && name.name() is Some
    &&& args.len() <= MAX_ARGS
    &&& well_typed_args(types, args)
}

pub open spec fn well_typed_args(types: VariableTypes, args: Seq<Expr>) -> bool
    decreases exprs_size(args) + 1,
{
    args.len() > 0 ==> {
        &&& well_typed(types, args[0])
        &&& fits_register(args[0].type_decl)
        &&& well_typed_args(types, args.drop_first())
    }
}

/// Number of registers that a value keeps in use.
pub open spec fn held(home: Home) -> nat {
    if home is Stack {
        0
    } else {
        1
    }
}

pub open spec fn max(a: nat, b: nat) -> nat {
    if a < b {
        b
    } else {
        a
    }
}

/// Number of free registers that an expression needs.
pub open spec fn needed(e: Expr) -> nat
    decreases expr_size(e),
{
    match e.kind {
        ExprKind::Ident(_) => 0,
        ExprKind::Grouping { expr } => needed(*expr),
        ExprKind::Unary { token, right } => match token.token {
            TokenType::Amp => max(needed(*right), held(home(*right)) + 1),
            TokenType::Star => max(needed(*right), 2),
            _ => needed(*right),
        },
        ExprKind::Binary { left, right, .. } => max(
            needed(*left),
            max(held(home(*left)) + needed(*right), 2),
        ),
        ExprKind::Logical { left, right, .. } => max(needed(*left), max(needed(*right), 1)),
        ExprKind::Assign { l_expr, r_expr, .. } => max(
            place_needed(*l_expr),
            held(place_home(*l_expr)) + max(needed(*r_expr), 1),
        ),
        ExprKind::Call { args, .. } => max(args_needed(args@), 1),
        ExprKind::CastUp { expr } => max(needed(*expr), held(home(*expr)) + 1),
        ExprKind::CastDown { expr } => needed(*expr),
        ExprKind::ScaleUp { expr, .. } => max(needed(*expr), 1),
        ExprKind::ScaleDown { expr, .. } => max(needed(*expr), 1),
        _ => 1,
    }
}

/// Number of free registers that an expression that is assigned to needs.
pub open spec fn place_needed(e: Expr) -> nat
    decreases expr_size(e),
{
    match e.kind {
        ExprKind::Grouping { expr } => place_needed(*expr),
        ExprKind::Unary { right, .. } => max(needed(*right), 1),
        _ => 0,
    }
}

pub open spec fn args_needed(args: Seq<Expr>) -> nat
    decreases exprs_size(args) + 1,
{
    if args.len() == 0 {
        0
    } else {
        max(needed(args[0]), args_needed(args.drop_first()))
    }
}

/// Number of labels that an expression takes.
pub open spec fn labels_taken(e: Expr) -> nat
    decreases expr_size(e),
{
    match e.kind {
        ExprKind::Grouping { expr } => labels_taken(*expr),
        ExprKind::Unary { right, .. } => labels_taken(*right),
        ExprKind::Binary { left, right, .. } => labels_taken(*left) + labels_taken(*right),
        ExprKind::Logical { left, token, right } => labels_taken(*left) + labels_taken(*right)
            + if token.token is PipePipe {
            3nat
        } else {
            2
        },
        ExprKind::Assign { l_expr, r_expr, .. } => labels_taken(*l_expr) + labels_taken(*r_expr),
        ExprKind::Call { args, .. } => args_labels(args@),
        ExprKind::CastUp { expr } => labels_taken(*expr),
        ExprKind::CastDown { expr } => labels_taken(*expr),
        ExprKind::ScaleUp { expr, .. } => labels_taken(*expr),
        ExprKind::ScaleDown { expr, .. } => labels_taken(*expr),
        _ => 0,
    }
}

pub open spec fn args_labels(args: Seq<Expr>) -> nat
    decreases exprs_size(args) + 1,
{
    if args.len() == 0 {
        0
    } else {
        labels_taken(args[0]) + args_labels(args.drop_first())
    }
}

/// Number of scratch registers that are free.
pub open spec fn free_registers(in_use: Seq<bool>) -> int {
    SCRATCH_REGISTERS - count(in_use, SCRATCH_REGISTERS as nat)
}

/// Whether a value is where `home` says, and of a type that registers can hold.
pub open spec fn usable(value: Register, home: Home) -> bool {
    &&& fits_register(value.type_of())
    &&& match value {
        Register::Stack(_, _) => home is Stack,
        Register::Scratch(index, _) => home is Scratch && index < SCRATCH_REGISTERS,
        Register::Deref(index, _) => home is Deref && index < SCRATCH_REGISTERS,
        _ => false,
    }
}

/// Whether a step succeeds with a value of type `t` in `home`, and takes `labels`
/// labels.
pub open spec fn succeeds(
    st: State,
    step: Step,
    home: Home,
    t: Option<NEWTypes>,
    labels: nat,
) -> bool {
    step matches Step::Done(after, value) && {
        &&& usable(value, home)
        &&& value.type_of() == t
        &&& after.labels == st.labels + labels
    }
}

/// Whether an expression is well typed, and there are as many registers and
/// labels as it takes.
pub open spec fn provided(types: VariableTypes, st: State, e: Expr) -> bool {
    &&& sound(st)
    &&& typed(st.scopes, types)
    &&& well_typed(types, e)
    &&& needed(e) <= free_registers(st.in_use)
    &&& st.labels + labels_taken(e) <= usize::MAX
}

proof fn lemma_lookup_typed(
    scopes: Seq<Map<Seq<char>, Register>>,
    types: VariableTypes,
    name: Seq<char>,
)
    requires
        typed(scopes, types),
    ensures
        lookup(types, name) matches Some(t) ==> (lookup(scopes, name) matches Some(
            Register::Stack(_, u),
        ) && u == t),
    decreases scopes.len(),
{
    if scopes.len() > 0 {
        let (inner, outer) = (scopes.drop_first(), types.drop_first());
        assert(scopes[0].dom() == types[0].dom());
        assert forall|i: int| 0 <= i < inner.len() implies #[trigger] inner[i].dom()
            == outer[i].dom() by {
            assert(scopes[i + 1].dom() == types[i + 1].dom());
        }
        assert forall|i: int, n: Seq<char>|
            0 <= i < inner.len() && #[trigger] inner[i].contains_key(n) implies (
        inner[i][n] matches Register::Stack(_, t) && t == outer[i][n]) by {
            assert(scopes[i + 1].contains_key(n));
        }
        lemma_lookup_typed(inner, outer, name);
        assert(scopes[0].contains_key(name) == types[0].contains_key(name));
    }
}

pub(crate) proof fn lemma_usable_operand(value: Register, home: Home)
    requires
        usable(value, home),
    ensures
        value.operand() is Some,
{
}

pub(crate) proof fn lemma_free_registers(in_use: Seq<bool>)
    requires
        in_use.len() == SCRATCH_REGISTERS,
    ensures
        free_registers(in_use) > 0 ==> first_free(in_use) is Some,
        first_free(in_use) matches Some(index) ==> 0 <= index < SCRATCH_REGISTERS,
{
    reveal_with_fuel(count, 5);
}

pub(crate) proof fn lemma_holding_registers(in_use: Seq<bool>, value: Register, home: Home)
    requires
        in_use.len() == SCRATCH_REGISTERS,
        fresh(in_use, value),
        usable(value, home),
    ensures
        holding(in_use, value).len() == SCRATCH_REGISTERS,
        free_registers(holding(in_use, value)) == free_registers(in_use) - held(home),
{
    reveal_with_fuel(count, 5);
}

proof fn lemma_literal_succeeds(st: State, head: Seq<char>, n: int, t: Types)
    requires
        sound(st),
        free_registers(st.in_use) > 0,
        !(t is Void),
    ensures
        succeeds(st, literal(st, head, n, t), Home::Scratch, Some(NEWTypes::Primitive(t)), 0),
{
    lemma_free_registers(st.in_use);
}

pub(crate) proof fn lemma_load_succeeds(st: State, value: Register, home: Home)
    requires
        st.in_use.len() == SCRATCH_REGISTERS,
        usable(value, home),
        home is Stack ==> free_registers(st.in_use) > 0,
    ensures
        succeeds(st, load(st, value), loaded(home), value.type_of(), 0),
{
    lemma_free_registers(st.in_use);
    lemma_usable_operand(value, home);
}

proof fn lemma_sign_succeeds(st: State, value: Register, home: Home)
    requires
        usable(value, home),
    ensures
        succeeds(st, bang(st, value), home, value.type_of(), 0),
        succeeds(st, negate(st, value), home, value.type_of(), 0),
{
    lemma_usable_operand(value, home);
}

proof fn lemma_address_succeeds(st: State, value: Register, home: Home)
    requires
        sound(st),
        usable(value, home),
        free_registers(st.in_use) > 0,
    ensures
        succeeds(
            st,
            address_of(st, value),
            Home::Scratch,
            Some(NEWTypes::Pointer(Box::new(value.type_of().unwrap()))),
            0,
        ),
{
    lemma_free_registers(st.in_use);
    lemma_usable_operand(value, home);
}

proof fn lemma_dereferenced_succeeds(st: State, value: Register, home: Home)
    requires
        sound(st),
        usable(value, home),
        fits_register(pointed_to(value.type_of())),
        2 - held(home) <= free_registers(st.in_use),
    ensures
        succeeds(st, dereferenced(st, value), Home::Scratch, pointed_to(value.type_of()), 0),
{
    lemma_free_registers(st.in_use);
    lemma_usable_operand(value, home);
    let to = pointed_to(value.type_of()).unwrap();
    let result = Register::Scratch(first_free(st.in_use).unwrap() as usize, to);
    lemma_holding_registers(st.in_use, result, Home::Scratch);
    lemma_load_succeeds(allocate(st), value, home);
    lemma_usable_operand(load(allocate(st), value)->Done_1, loaded(home));
    lemma_usable_operand(result, Home::Scratch);
}

proof fn lemma_place_succeeds(st: State, value: Register, home: Home)
    requires
        sound(st),
        usable(value, home),
        !(home is Deref),
        fits_register(pointed_to(value.type_of())),
        home is Stack ==> free_registers(st.in_use) > 0,
    ensures
        succeeds(st, dereferenced_place(st, value), Home::Deref, pointed_to(value.type_of()), 0),
{
    lemma_load_succeeds(st, value, home);
}

proof fn lemma_operate_succeeds(
    st: State,
    token: Token,
    left: Register,
    right: Register,
    left_home: Home,
    right_home: Home,
)
    requires
        known_operator(token.token),
        usable(left, left_home),
        usable(right, right_home),
    ensures
        token.token is Minus ==> succeeds(
            st,
            operate(st, token, left, right),
            left_home,
            left.type_of(),
            0,
        ),
        !(token.token is Minus) ==> succeeds(
            st,
            operate(st, token, left, right),
            right_home,
            right.type_of(),
            0,
        ),
{
    lemma_usable_operand(left, left_home);
    lemma_usable_operand(right, right_home);
}

proof fn lemma_binary_succeeds(
    st: State,
    token: Token,
    left: Register,
    right: Register,
    left_home: Home,
    right_home: Home,
)
    requires
        sound(st),
        known_operator(token.token),
        usable(left, left_home),
        usable(right, right_home),
        2 - held(left_home) - held(right_home) <= free_registers(st.in_use),
    ensures
        token.token is Minus ==> succeeds(
            st,
            binary(st, token, left, right),
            loaded(left_home),
            left.type_of(),
            0,
        ),
        !(token.token is Minus) ==> succeeds(
            st,
            binary(st, token, left, right),
            loaded(right_home),
            right.type_of(),
            0,
        ),
{
    lemma_load_succeeds(st, left, left_home);
    lemma_load_registers(st, left);
    let s = load(st, left)->Done_0;
    let l = load(st, left)->Done_1;
    if left is Stack {
        lemma_holding_registers(st.in_use, l, Home::Scratch);
    }
    lemma_load_succeeds(s, right, right_home);
    let t = load(s, right)->Done_0;
    let r = load(s, right)->Done_1;
    lemma_operate_succeeds(t, token, l, r, loaded(left_home), loaded(right_home));
}

proof fn lemma_assign_succeeds(
    st: State,
    place: Register,
    value: Register,
    place_home: Home,
    value_home: Home,
)
    requires
        sound(st),
        usable(place, place_home),
        usable(value, value_home),
        value_home is Stack ==> free_registers(st.in_use) > 0,
    ensures
        succeeds(st, assign(st, place, value), place_home, place.type_of(), 0),
{
    lemma_load_succeeds(st, value, value_home);
    lemma_usable_operand(place, place_home);
    lemma_usable_operand(load(st, value)->Done_1, loaded(value_home));
}

proof fn lemma_cast_up_succeeds(
    st: State,
    value: Register,
    home: Home,
    from: Option<NEWTypes>,
    to: NEWTypes,
)
    requires
        sound(st),
        usable(value, home),
        fits_register(from),
        suffix(to) is Some,
        free_registers(st.in_use) > 0,
    ensures
        succeeds(st, cast_up(st, value, from, to), Home::Scratch, Some(to), 0),
{
    lemma_free_registers(st.in_use);
    lemma_usable_operand(value, home);
}

proof fn lemma_shift_succeeds(
    st: State,
    head: Seq<char>,
    amount: usize,
    value: Register,
    home: Home,
)
    requires
        sound(st),
        usable(value, home),
        home is Stack ==> free_registers(st.in_use) > 0,
    ensures
        succeeds(st, shift(st, head, amount, value), loaded(home), value.type_of(), 0),
{
    lemma_load_succeeds(st, value, home);
    lemma_usable_operand(load(st, value)->Done_1, loaded(home));
}

proof fn lemma_pass_succeeds(
    st: State,
    i: int,
    t: Option<NEWTypes>,
    value: Register,
    home: Home,
)
    requires
        0 <= i < MAX_ARGS,
        fits_register(t),
        usable(value, home),
    ensures
        pass(st, i, t, value) matches Step::Done(after, _) && after.labels == st.labels
            && after.scopes == st.scopes,
{
    lemma_usable_operand(value, home);
}

proof fn lemma_call_succeeds(st: State, function: Seq<char>, t: NEWTypes)
    requires
        st.in_use.len() == SCRATCH_REGISTERS,
        suffix(t) is Some,
        free_registers(st.in_use) > 0,
    ensures
        succeeds(st, call(st, function, t), Home::Scratch, Some(t), 0),
{
    lemma_free_registers(st.in_use);
}

proof fn lemma_zero_test_succeeds(
    st: State,
    value: Register,
    home: Home,
    jump: Seq<char>,
    label: nat,
)
    requires
        usable(value, home),
    ensures
        zero_test(st, value, jump, label) is Done,
        zero_test(st, value, jump, label)->Done_0.labels == st.labels,
        zero_test(st, value, jump, label)->Done_0.scopes == st.scopes,
{
    lemma_usable_operand(value, home);
}

proof fn lemma_or_right_succeeds(
    in_use: Seq<bool>,
    st: State,
    label: nat,
    value: Register,
    home: Home,
)
    requires
        in_use.len() == SCRATCH_REGISTERS,
        free_registers(in_use) > 0,
        fresh(in_use, value),
        st.in_use == holding(in_use, value),
        usable(value, home),
        st.labels + 2 <= usize::MAX,
    ensures
        succeeds(
            st,
            or_right(st, label, value),
            Home::Scratch,
            Some(NEWTypes::Primitive(Types::Int)),
            2,
        ),
{
    lemma_zero_test_succeeds(next_label(st), value, home, "\tje    L"@, st.labels);
    lemma_zero_test_registers(in_use, next_label(st), value, "\tje    L"@, st.labels);
    lemma_free_registers(in_use);
}

proof fn lemma_and_right_succeeds(
    in_use: Seq<bool>,
    st: State,
    label: nat,
    value: Register,
    home: Home,
)
    requires
        in_use.len() == SCRATCH_REGISTERS,
        free_registers(in_use) > 0,
        fresh(in_use, value),
        st.in_use == holding(in_use, value),
        usable(value, home),
        st.labels + 1 <= usize::MAX,
    ensures
        succeeds(
            st,
            and_right(st, label, value),
            Home::Scratch,
            Some(NEWTypes::Primitive(Types::Int)),
            1,
        ),
{
    lemma_zero_test_succeeds(st, value, home, "\tje    L"@, label);
    lemma_zero_test_registers(in_use, st, value, "\tje    L"@, label);
    lemma_free_registers(in_use);
}

/// The state after a well-typed expression.
pub(crate) proof fn lemma_after(types: VariableTypes, st: State, e: Expr)
    requires
        provided(types, st, e),
        succeeds(st, execute(st, e), home(e), value_type(types, e), labels_taken(e)),
    ensures
        execute(st, e) matches Step::Done(after, value) && {
            &&& sound(after)
            &&& after.scopes == st.scopes
            &&& after.function == st.function
            &&& after.offset == st.offset
            &&& after.stack_sizes == st.stack_sizes
            &&& fresh(st.in_use, value)
            &&& after.in_use == holding(st.in_use, value)
            &&& free_registers(after.in_use) == free_registers(st.in_use) - held(home(e))
        },
{
    law_expression_registers(st, e);
    law_expression_frames(st, e);
    let after = execute(st, e)->Done_0;
    let value = execute(st, e)->Done_1;
    lemma_sound_after(st, after, value);
    lemma_holding_registers(st.in_use, value, home(e));
    reveal(framed);
}

/// Generating a well-typed expression succeeds wherever there are as many free
/// scratch registers and labels as it takes.
pub proof fn law_expression_succeeds(types: VariableTypes, st: State, e: Expr)
    requires
        provided(types, st, e),
    ensures
        succeeds(st, execute(st, e), home(e), value_type(types, e), labels_taken(e)),
    decreases expr_size(e),
{
    match e.kind {
        ExprKind::Number(n) => {
            lemma_literal_succeeds(st, "\tmovl    $"@, n as int, Types::Int);
        },
        ExprKind::CharLit(c) => {
            lemma_literal_succeeds(st, "\tmovb    $"@, c as int, Types::Char);
        },
        ExprKind::Grouping { expr } => law_expression_succeeds(types, st, *expr),
        ExprKind::Ident(name) => {
            lemma_lookup_typed(st.scopes, types, name.name().unwrap());
        },
        ExprKind::Unary { token, right } => lemma_unary_expr(types, st, e, token, *right),
        ExprKind::Binary { left, token, right } => {
            lemma_binary_expr(types, st, *left, token, *right);
        },
        ExprKind::Logical { left, token, right } => {
            if token.token is PipePipe {
                lemma_or_expr(types, st, *left, *right);
            } else {
                lemma_and_expr(types, st, *left, *right);
            }
            assert(logical_expr(st, *left, token, *right) == execute(st, e));
        },
        ExprKind::Assign { l_expr, r_expr, .. } => {
            lemma_assign_expr(types, st, *l_expr, *r_expr);
        },
        ExprKind::Call { callee, args, .. } => {
            lemma_call_value(types, st, *callee, args@, e.type_decl.unwrap());
        },
        ExprKind::CastUp { expr } => {
            law_expression_succeeds(types, st, *expr);
            lemma_after(types, st, *expr);
            let t = e.type_decl.unwrap();
            lemma_cast_up_succeeds(
                execute(st, *expr)->Done_0,
                execute(st, *expr)->Done_1,
                home(*expr),
                expr.type_decl,
                t,
            );
            assert(execute(st, e) == cast_up_expr(st, *expr, t));
        },
        ExprKind::CastDown { expr } => {
            law_expression_succeeds(types, st, *expr);
            assert(execute(st, e) == cast_down_expr(st, *expr, e.type_decl.unwrap()));
        },
        ExprKind::ScaleUp { expr, shift_amount } => {
            lemma_shift_expr(types, st, "sal"@, *expr, shift_amount);
        },
        ExprKind::ScaleDown { expr, shift_amount } => {
            lemma_shift_expr(types, st, "sar"@, *expr, shift_amount);
        },
    }
}

proof fn lemma_shift_expr(
    types: VariableTypes,
    st: State,
    head: Seq<char>,
    expr: Expr,
    amount: usize,
)
    requires
        provided(types, st, expr),
        free_registers(st.in_use) > 0,
    ensures
        succeeds(
            st,
            shift_expr(st, head, expr, amount),
            loaded(home(expr)),
            value_type(types, expr),
            labels_taken(expr),
        ),
    decreases expr_size(expr) + 1,
{
    law_expression_succeeds(types, st, expr);
    lemma_after(types, st, expr);
    lemma_shift_succeeds(
        execute(st, expr)->Done_0,
        head,
        amount,
        execute(st, expr)->Done_1,
        home(expr),
    );
}

proof fn lemma_unary_expr(types: VariableTypes, st: State, e: Expr, token: Token, right: Expr)
    requires
        provided(types, st, e),
        e.kind == (ExprKind::Unary { token, right: Box::new(right) }),
    ensures
        succeeds(st, execute(st, e), home(e), value_type(types, e), labels_taken(e)),
    decreases expr_size(right) + 1,
{
    law_expression_succeeds(types, st, right);
    lemma_after(types, st, right);
    let s = execute(st, right)->Done_0;
    let value = execute(st, right)->Done_1;
    lemma_sign_succeeds(s, value, home(right));
    if token.token is Amp {
        lemma_address_succeeds(s, value, home(right));
    } else if token.token is Star {
        lemma_dereferenced_succeeds(s, value, home(right));
    }
    assert(execute(st, e) == unary_expr(st, token, right));
}

proof fn lemma_binary_expr(
    types: VariableTypes,
    st: State,
    left: Expr,
    token: Token,
    right: Expr,
)
    requires
        sound(st),
        typed(st.scopes, types),
        known_operator(token.token),
        well_typed(types, left),
        well_typed(types, right),
        max(needed(left), max(held(home(left)) + needed(right), 2)) <= free_registers(st.in_use),
        st.labels + labels_taken(left) + labels_taken(right) <= usize::MAX,
    ensures
        token.token is Minus ==> succeeds(
            st,
            binary_expr(st, left, token, right),
            loaded(home(left)),
            value_type(types, left),
            labels_taken(left) + labels_taken(right),
        ),
        !(token.token is Minus) ==> succeeds(
            st,
            binary_expr(st, left, token, right),
            loaded(home(right)),
            value_type(types, right),
            labels_taken(left) + labels_taken(right),
        ),
    decreases expr_size(left) + expr_size(right) + 1,
{
    law_expression_succeeds(types, st, left);
    lemma_after(types, st, left);
    let s = execute(st, left)->Done_0;
    let l = execute(st, left)->Done_1;
    law_expression_succeeds(types, s, right);
    lemma_after(types, s, right);
    let t = execute(s, right)->Done_0;
    let r = execute(s, right)->Done_1;
    lemma_binary_succeeds(t, token, l, r, home(left), home(right));
}

proof fn lemma_or_expr(types: VariableTypes, st: State, left: Expr, right: Expr)
    requires
        sound(st),
        typed(st.scopes, types),
        well_typed(types, left),
        well_typed(types, right),
        max(needed(left), max(needed(right), 1)) <= free_registers(st.in_use),
        st.labels + labels_taken(left) + labels_taken(right) + 3 <= usize::MAX,
    ensures
        succeeds(
            st,
            or_expr(st, left, right),
            Home::Scratch,
            Some(NEWTypes::Primitive(Types::Int)),
            labels_taken(left) + labels_taken(right) + 3,
        ),
    decreases expr_size(left) + expr_size(right) + 1,
{
    law_expression_succeeds(types, st, left);
    lemma_after(types, st, left);
    let s = execute(st, left)->Done_0;
    let l = execute(st, left)->Done_1;
    lemma_zero_test_succeeds(next_label(s), l, home(left), "\tjne    L"@, s.labels);
    lemma_zero_test_registers(st.in_use, next_label(s), l, "\tjne    L"@, s.labels);
    let tested = or_left(s, l)->Done_0;
    law_expression_succeeds(types, tested, right);
    lemma_after(types, tested, right);
    let after = execute(tested, right)->Done_0;
    let r = execute(tested, right)->Done_1;
    lemma_or_right_succeeds(st.in_use, after, s.labels, r, home(right));
}

proof fn lemma_and_expr(types: VariableTypes, st: State, left: Expr, right: Expr)
    requires
        sound(st),
        typed(st.scopes, types),
        well_typed(types, left),
        well_typed(types, right),
        max(needed(left), max(needed(right), 1)) <= free_registers(st.in_use),
        st.labels + labels_taken(left) + labels_taken(right) + 2 <= usize::MAX,
    ensures
        succeeds(
            st,
            and_expr(st, left, right),
            Home::Scratch,
            Some(NEWTypes::Primitive(Types::Int)),
            labels_taken(left) + labels_taken(right) + 2,
        ),
    decreases expr_size(left) + expr_size(right) + 1,
{
    law_expression_succeeds(types, st, left);
    lemma_after(types, st, left);
    let s = execute(st, left)->Done_0;
    let l = execute(st, left)->Done_1;
    lemma_zero_test_succeeds(next_label(s), l, home(left), "\tje    L"@, s.labels);
    lemma_zero_test_registers(st.in_use, next_label(s), l, "\tje    L"@, s.labels);
    let tested = and_left(s, l)->Done_0;
    law_expression_succeeds(types, tested, right);
    lemma_after(types, tested, right);
    let after = execute(tested, right)->Done_0;
    let r = execute(tested, right)->Done_1;
    lemma_and_right_succeeds(st.in_use, after, s.labels, r, home(right));
}

proof fn lemma_place_expr(types: VariableTypes, st: State, e: Expr)
    requires
        sound(st),
        typed(st.scopes, types),
        well_typed_place(types, e),
        place_needed(e) <= free_registers(st.in_use),
        st.labels + labels_taken(e) <= usize::MAX,
    ensures
        succeeds(st, execute_l(st, e), place_home(e), place_type(types, e), labels_taken(e)),
        execute_l(st, e) matches Step::Done(after, place) && {
            &&& sound(after)
            &&& after.scopes == st.scopes
            &&& fresh(st.in_use, place)
            &&& after.in_use == holding(st.in_use, place)
            &&& free_registers(after.in_use) == free_registers(st.in_use) - held(place_home(e))
        },
    decreases expr_size(e),
{
    match e.kind {
        ExprKind::Grouping { expr } => lemma_place_expr(types, st, *expr),
        ExprKind::Unary { right, .. } => {
            law_expression_succeeds(types, st, *right);
            lemma_after(types, st, *right);
            let s = execute(st, *right)->Done_0;
            let value = execute(st, *right)->Done_1;
            lemma_place_succeeds(s, value, home(*right));
        },
        ExprKind::Ident(name) => {
            lemma_lookup_typed(st.scopes, types, name.name().unwrap());
        },
        _ => {},
    }
    lemma_place_registers(st, e);
    lemma_place_frames(st, e);
    let after = execute_l(st, e)->Done_0;
    let place = execute_l(st, e)->Done_1;
    lemma_sound_after(st, after, place);
    lemma_holding_registers(st.in_use, place, place_home(e));
    reveal(framed);
}

proof fn lemma_assign_expr(types: VariableTypes, st: State, l_expr: Expr, r_expr: Expr)
    requires
        sound(st),
        typed(st.scopes, types),
        well_typed_place(types, l_expr),
        well_typed(types, r_expr),
        max(
            place_needed(l_expr),
            held(place_home(l_expr)) + max(needed(r_expr), 1),
        ) <= free_registers(st.in_use),
        st.labels + labels_taken(l_expr) + labels_taken(r_expr) <= usize::MAX,
    ensures
        succeeds(
            st,
            assign_expr(st, l_expr, r_expr),
            place_home(l_expr),
            place_type(types, l_expr),
            labels_taken(l_expr) + labels_taken(r_expr),
        ),
    decreases expr_size(l_expr) + expr_size(r_expr) + 1,
{
    lemma_place_expr(types, st, l_expr);
    let s = execute_l(st, l_expr)->Done_0;
    let place = execute_l(st, l_expr)->Done_1;
    law_expression_succeeds(types, s, r_expr);
    lemma_after(types, s, r_expr);
    lemma_assign_succeeds(
        execute(s, r_expr)->Done_0,
        place,
        execute(s, r_expr)->Done_1,
        place_home(l_expr),
        home(r_expr),
    );
}

proof fn lemma_call_value(
    types: VariableTypes,
    st: State,
    callee: Expr,
    args: Seq<Expr>,
    t: NEWTypes,
)
    requires
        sound(st),
        typed(st.scopes, types),
        well_typed_call(types, callee, args),
        max(args_needed(args), 1) <= free_registers(st.in_use),
        st.labels + args_labels(args) <= usize::MAX,
        suffix(t) is Some,
    ensures
        succeeds(
            st,
            call_expr(st, callee, args, t),
            Home::Scratch,
            Some(t),
            args_labels(args),
        ),
    decreases exprs_size(args) + 3,
{
    lemma_call_expr(types, st, callee, args);
    if let ExprKind::Ident(name) = callee.kind {
        let s = arguments(st, args, 0)->Done_0;
        lemma_call_succeeds(s, name.name().unwrap(), t);
    }
}

/// The arguments of a call get into their registers.
pub(crate) proof fn lemma_call_expr(types: VariableTypes, st: State, callee: Expr, args: Seq<Expr>)
    requires
        sound(st),
        typed(st.scopes, types),
        well_typed_call(types, callee, args),
        args_needed(args) <= free_registers(st.in_use),
        st.labels + args_labels(args) <= usize::MAX,
    ensures
        arguments(st, args, 0) matches Step::Done(after, _) && {
            &&& after.labels == st.labels + args_labels(args)
            &&& after.in_use == st.in_use
            &&& after.scopes == st.scopes
        },
    decreases exprs_size(args) + 2,
{
    lemma_arguments(types, st, args, 0);
    lemma_arguments_registers(st, args, 0);
}

proof fn lemma_arguments(types: VariableTypes, st: State, args: Seq<Expr>, i: int)
    requires
        sound(st),
        typed(st.scopes, types),
        well_typed_args(types, args),
        0 <= i && i + args.len() <= MAX_ARGS,
        args_needed(args) <= free_registers(st.in_use),
        st.labels + args_labels(args) <= usize::MAX,
    ensures
        arguments(st, args, i) matches Step::Done(after, _) && after.labels == st.labels
            + args_labels(args) && after.scopes == st.scopes,
    decreases exprs_size(args) + 1,
{
    if args.len() > 0 {
        law_expression_succeeds(types, st, args[0]);
        lemma_after(types, st, args[0]);
        let s = execute(st, args[0])->Done_0;
        let value = execute(st, args[0])->Done_1;
        lemma_pass_succeeds(s, i, args[0].type_decl, value, home(args[0]));
        let t = pass(s, i, args[0].type_decl, value)->Done_0;
        lemma_free_last(st.in_use, s, value);
        lemma_arguments(types, t, args.drop_first(), i + 1);
    }
}

} // verus!
