use wrecc::codegen::ast::{Expr, ExprKind, Stmt};
use wrecc::codegen::codegen::{align_by, Compiler};
use wrecc::codegen::register::{Register, StackRegister};
use wrecc::common::environment::{Environment, NameMap};
use wrecc::common::error::{Error, ErrorKind};
use wrecc::common::token::{Token, TokenType};
use wrecc::common::types::{NEWTypes, Types};

fn int_type() -> NEWTypes {
    NEWTypes::Primitive(Types::Int)
}

fn char_type() -> NEWTypes {
    NEWTypes::Primitive(Types::Char)
}

fn long_type() -> NEWTypes {
    NEWTypes::Primitive(Types::Long)
}

fn void_type() -> NEWTypes {
    NEWTypes::Primitive(Types::Void)
}

fn pointer(to: NEWTypes) -> NEWTypes {
    NEWTypes::Pointer(Box::new(to))
}

fn token(kind: TokenType) -> Token {
    Token::new(kind, 3, 7, "line".to_string())
}

fn ident(name: &str) -> Token {
    token(TokenType::Ident(name.to_string()))
}

fn expr(kind: ExprKind, type_decl: NEWTypes) -> Expr {
    Expr { kind, type_decl: Some(type_decl) }
}

fn number(n: i32) -> Expr {
    expr(ExprKind::Number(n), int_type())
}

fn character(c: i8) -> Expr {
    expr(ExprKind::CharLit(c), char_type())
}

fn variable(name: &str) -> Expr {
    expr(ExprKind::Ident(ident(name)), int_type())
}

fn binary(left: Expr, operator: TokenType, right: Expr) -> Expr {
    expr(
        ExprKind::Binary { left: Box::new(left), token: token(operator), right: Box::new(right) },
        int_type(),
    )
}

fn unary(operator: TokenType, right: Expr) -> Expr {
    expr(ExprKind::Unary { token: token(operator), right: Box::new(right) }, int_type())
}

fn logical(left: Expr, operator: TokenType, right: Expr) -> Expr {
    expr(
        ExprKind::Logical { left: Box::new(left), token: token(operator), right: Box::new(right) },
        int_type(),
    )
}

fn assign(place: Expr, value: Expr) -> Expr {
    expr(
        ExprKind::Assign {
            l_expr: Box::new(place),
            token: token(TokenType::Equal),
            r_expr: Box::new(value),
        },
        int_type(),
    )
}

fn call(name: &str, args: Vec<Expr>, t: NEWTypes) -> Expr {
    expr(
        ExprKind::Call {
            left_paren: token(TokenType::LeftParen),
            callee: Box::new(variable(name)),
            args,
        },
        t,
    )
}

fn block(body: Vec<Stmt>) -> Stmt {
    Stmt::Block(token(TokenType::LeftBrace), body)
}

fn give(value: Option<Expr>) -> Stmt {
    Stmt::Return(token(TokenType::Keyword), value)
}

fn declare(t: NEWTypes, name: &str) -> Stmt {
    Stmt::DeclareVar(t, ident(name))
}

fn init(t: NEWTypes, name: &str, value: Expr) -> Stmt {
    Stmt::InitVar(t, ident(name), value)
}

fn function(name: &str, params: Vec<(NEWTypes, &str)>, body: Vec<Stmt>) -> Stmt {
    let params = params.into_iter().map(|(t, n)| (t, ident(n))).collect();
    Stmt::Function(int_type(), ident(name), params, body)
}

fn sizes(entries: &[(&str, usize)]) -> NameMap<usize> {
    let mut map = NameMap::new();
    for (name, size) in entries {
        map.insert(name.to_string(), *size);
    }
    map
}

/// The place of a value and the code that was generated for it.
fn value(e: Expr) -> (Register, String) {
    let mut compiler = Compiler::new(NameMap::new());
    let place = compiler.execute(&e).unwrap();
    (place, compiler.output().to_string())
}

/// The code of a program, without what every program starts with.
fn program(body: Vec<Stmt>, sizes: NameMap<usize>) -> String {
    let mut empty = Compiler::new(NameMap::new());
    empty.compile(&vec![]).unwrap();

    let mut compiler = Compiler::new(sizes);
    compiler.compile(&body).unwrap();
    compiler.output().strip_prefix(empty.output()).unwrap().to_string()
}

fn statements(body: Vec<Stmt>) -> String {
    program(body, NameMap::new())
}

fn rejected(e: Expr) -> Error {
    Compiler::new(NameMap::new()).execute(&e).unwrap_err()
}

#[test]
fn alignes_stack1() {
    let offset = 12;
    let result = align_by(offset, 8);

    assert_eq!(result, 16);
}

#[test]
fn alignes_stack2() {
    let offset = 9;
    let result = align_by(offset, 4);

    assert_eq!(result, 12);
}

#[test]
fn alignes_stackpointer1() {
    let offset = 31;
    let result = align_by(offset, 16);

    assert_eq!(result, 32);
}

#[test]
fn alignes_stackpointer2() {
    let offset = 5;
    let result = align_by(offset, 16);

    assert_eq!(result, 16);
}

#[test]
fn aligned_offsets_stay() {
    assert_eq!(align_by(0, 16), 0);
    assert_eq!(align_by(16, 16), 16);
    assert_eq!(align_by(align_by(13, 8), 8), align_by(13, 8));
    assert_eq!(align_by(7, 1), 7);
}

#[test]
fn a_program_starts_with_printint() {
    let mut compiler = Compiler::new(NameMap::new());
    compiler.compile(&vec![]).unwrap();
    assert_eq!(
        compiler.output(),
        "\t.text\n\t.cstring\nlC0:\n\t.string \"%d\\n\"\n\t.text\n\n_printint:\n\
         \tpushq   %rbp\n\tmovq    %rsp, %rbp\n\n\tsubq    $16, %rsp\n\tmovl    %edi, -4(%rbp)\n\
         \tmovl    -4(%rbp), %eax\n\tmovl    %eax, %esi\n\tleaq\tlC0(%rip), %rax\n\
         \tmovq\t%rax, %rdi\n\taddq    $16, %rsp\n\n\tmovl    $0, %eax\n\tcall    _printf\n\
         \tnop\n\tleave\n\tret\n"
    );
}

#[test]
fn constants_are_moved_into_scratch_registers() {
    assert_eq!(
        value(number(3)),
        (Register::Scratch(0, int_type()), "\tmovl    $3, %r8d\n".to_string())
    );
    assert_eq!(value(number(-2147483648)).1, "\tmovl    $-2147483648, %r8d\n");
    assert_eq!(
        value(character(97)),
        (Register::Scratch(0, char_type()), "\tmovb    $97, %r8b\n".to_string())
    );
    assert_eq!(value(character(-128)).1, "\tmovb    $-128, %r8b\n");
    assert_eq!(
        value(expr(ExprKind::Grouping { expr: Box::new(number(10)) }, int_type())).1,
        "\tmovl    $10, %r8d\n"
    );
}

#[test]
fn arithmetic() {
    let operands = "\tmovl    $1, %r8d\n\tmovl    $2, %r9d\n";
    assert_eq!(
        value(binary(number(1), TokenType::Plus, number(2))),
        (Register::Scratch(1, int_type()), format!("{operands}\taddl %r8d, %r9d\n\n"))
    );
    assert_eq!(
        value(binary(number(1), TokenType::Minus, number(2))),
        (Register::Scratch(0, int_type()), format!("{operands}\tsubl %r9d, %r8d\n\n"))
    );
    assert_eq!(
        value(binary(number(1), TokenType::Star, number(2))),
        (Register::Scratch(1, int_type()), format!("{operands}\timull %r8d, %r9d\n\n"))
    );
    assert_eq!(
        value(binary(number(1), TokenType::Slash, number(2))),
        (
            Register::Scratch(1, int_type()),
            format!("{operands}\tmovl %r8d, %eax\n\tcqo\n\tidivl %r9d\n\tmovl %eax, %r9d\n")
        )
    );
}

#[test]
fn comparisons() {
    let cases = [
        (TokenType::EqualEqual, "sete"),
        (TokenType::BangEqual, "setne"),
        (TokenType::Greater, "setg"),
        (TokenType::GreaterEqual, "setge"),
        (TokenType::Less, "setl"),
        (TokenType::LessEqual, "setle"),
    ];
    for (operator, set) in cases {
        assert_eq!(
            value(binary(number(1), operator, number(2))),
            (
                Register::Scratch(1, int_type()),
                format!(
                    "\tmovl    $1, %r8d\n\tmovl    $2, %r9d\n\tcmpl %r9d, %r8d\n\t{set} %al\n\
                     \tmovzbl %al, %r9d\n"
                )
            )
        );
    }
    assert_eq!(
        value(binary(character(1), TokenType::Less, character(2))).1,
        "\tmovb    $1, %r8b\n\tmovb    $2, %r9b\n\tcmpb %r9b, %r8b\n\tsetl %al\n\tmovb %al, %r9b\n"
    );
}

#[test]
fn unary_operators() {
    assert_eq!(
        value(unary(TokenType::Bang, number(1))),
        (
            Register::Scratch(0, int_type()),
            "\tmovl    $1, %r8d\n\tcmpl $0, %r8d\n\tsete %al\n\tmovzbl %al, %r8d\n".to_string()
        )
    );
    assert_eq!(
        value(unary(TokenType::Bang, character(1))).1,
        "\tmovb    $1, %r8b\n\tcmpb $0, %r8b\n\tsete %al\n\tmovb %al, %r8b\n"
    );
    assert_eq!(
        value(unary(TokenType::Minus, number(1))),
        (Register::Scratch(0, int_type()), "\tmovl    $1, %r8d\n\tnegl %r8d\n".to_string())
    );
}

#[test]
fn unknown_operators_are_rejected() {
    let plus = rejected(unary(TokenType::Plus, number(1)));
    assert_eq!(
        plus,
        Error {
            kind: ErrorKind::Regular("invalid unary operator"),
            line_index: 3,
            column: 7,
            line_string: "line".to_string(),
        }
    );
    let modulo = rejected(binary(number(1), TokenType::Mod, number(2)));
    assert_eq!(modulo.kind, ErrorKind::Regular("invalid binary operator"));
    // the operands come first
    let inner = rejected(binary(
        unary(TokenType::Tilde, number(1)),
        TokenType::Mod,
        number(2),
    ));
    assert_eq!(inner.kind, ErrorKind::Regular("invalid unary operator"));
}

#[test]
fn a_rejected_program_gets_no_start() {
    let mut compiler = Compiler::new(NameMap::new());
    let body = vec![
        Stmt::Expr(number(1)),
        Stmt::Expr(unary(TokenType::Plus, number(2))),
        Stmt::Expr(number(3)),
    ];
    let error = compiler.compile(&body).unwrap_err();
    assert_eq!(error.kind, ErrorKind::Regular("invalid unary operator"));
    assert_eq!(compiler.output(), "\tmovl    $1, %r8d\n\tmovl    $2, %r8d\n");
}

#[test]
fn logical_operators_short_circuit() {
    assert_eq!(
        value(logical(number(1), TokenType::PipePipe, number(2))),
        (
            Register::Scratch(0, int_type()),
            "\tmovl    $1, %r8d\n\tcmpl    $0, %r8d\n\tjne    L0\n\
             \tmovl    $2, %r8d\n\tcmpl    $0, %r8d\n\tje    L1\n\
             L0:\n\tmovl    $1, %r8d\n\tjmp     L2\nL1:\n\tmovl    $0, %r8d\nL2:\n"
                .to_string()
        )
    );
    assert_eq!(
        value(logical(number(1), TokenType::AmpAmp, number(2))),
        (
            Register::Scratch(0, int_type()),
            "\tmovl    $1, %r8d\n\tcmpl    $0, %r8d\n\tje    L0\n\
             \tmovl    $2, %r8d\n\tcmpl    $0, %r8d\n\tje    L0\n\
             \tmovl    $1, %r8d\n\tjmp    L1\nL0:\n\tmovl    $0, %r8d\nL1:\n"
                .to_string()
        )
    );
}

#[test]
fn labels_are_not_used_twice() {
    let inner = logical(number(1), TokenType::AmpAmp, number(2));
    let output = value(logical(inner, TokenType::AmpAmp, number(3))).1;
    for label in ["L0:", "L1:", "L2:", "L3:"] {
        assert_eq!(output.matches(label).count(), 1);
    }
    assert!(!output.contains("L4"));
}

#[test]
fn casts_and_scaling() {
    let up = ExprKind::CastUp { expr: Box::new(character(5)) };
    assert_eq!(
        value(expr(up, int_type())),
        (
            Register::Scratch(1, int_type()),
            "\tmovb    $5, %r8b\nmovsbl   %r8b, %r9d\n".to_string()
        )
    );
    let to_long = ExprKind::CastUp { expr: Box::new(number(5)) };
    assert_eq!(value(expr(to_long, long_type())).1, "\tmovl    $5, %r8d\nmovslq   %r8d, %r9\n");

    let down = ExprKind::CastDown { expr: Box::new(number(5)) };
    assert_eq!(
        value(expr(down, char_type())),
        (Register::Scratch(0, char_type()), "\tmovl    $5, %r8d\n".to_string())
    );

    let scale_up = ExprKind::ScaleUp { expr: Box::new(number(5)), shift_amount: 3 };
    assert_eq!(
        value(expr(scale_up, int_type())),
        (Register::Scratch(0, int_type()), "\tmovl    $5, %r8d\nsall   $3, %r8d\n".to_string())
    );
    let scale_down = ExprKind::ScaleDown { expr: Box::new(number(5)), shift_amount: 2 };
    assert_eq!(value(expr(scale_down, int_type())).1, "\tmovl    $5, %r8d\nsarl   $2, %r8d\n");
}

#[test]
fn variables_get_aligned_slots() {
    assert_eq!(
        statements(vec![
            init(char_type(), "c", character(1)),
            declare(long_type(), "l"),
            init(int_type(), "i", number(2)),
        ]),
        "\tmovb    $1, %r8b\n\tmovb    %r8b, -1(%rbp)\n\
         \tmovl    $2, %r8d\n\tmovl    %r8d, -20(%rbp)\n"
    );
    let mut compiler = Compiler::new(NameMap::new());
    compiler.compile(&vec![declare(char_type(), "c"), declare(long_type(), "l")]).unwrap();
    assert_eq!(compiler.current_bp_offset, 16);
    let array = NEWTypes::Array { amount: 3, of: Box::new(int_type()) };
    compiler.compile(&vec![declare(array, "a")]).unwrap();
    assert_eq!(compiler.current_bp_offset, 36);
    assert_eq!(
        compiler.execute(&variable("l")).unwrap(),
        Register::Stack(StackRegister::new(16), long_type())
    );
}

#[test]
fn variables_are_loaded_before_use() {
    assert_eq!(
        statements(vec![
            declare(int_type(), "x"),
            declare(int_type(), "y"),
            Stmt::Expr(assign(variable("x"), number(5))),
            Stmt::Expr(assign(variable("y"), variable("x"))),
            Stmt::Expr(binary(variable("x"), TokenType::Minus, variable("y"))),
        ]),
        "\tmovl    $5, %r8d\n\tmovl    %r8d, -4(%rbp)\n\
         \tmovl    -4(%rbp), %r8d\n\tmovl    %r8d, -8(%rbp)\n\
         \tmovl    -4(%rbp), %r8d\n\tmovl    -8(%rbp), %r9d\n\tsubl %r9d, %r8d\n\n"
    );
}

#[test]
fn pointers() {
    let address = unary(TokenType::Amp, variable("x"));
    let target = || unary(TokenType::Star, variable("p"));
    assert_eq!(
        statements(vec![
            declare(int_type(), "x"),
            init(pointer(int_type()), "p", address),
            Stmt::Expr(assign(target(), number(9))),
            init(int_type(), "y", target()),
        ]),
        "\tleaq    -4(%rbp), %r8\n\tmovq    %r8, -16(%rbp)\n\
         \tmovq    -16(%rbp), %r8\n\tmovl    $9, %r9d\n\tmovl    %r9d, (%r8)\n\
         \tmovq    -16(%rbp), %r9\n\tmovl    (%r9), %r8d\n\tmovl    %r8d, -20(%rbp)\n"
    );
}

#[test]
fn stored_values_come_from_registers() {
    let target = || unary(TokenType::Star, variable("p"));
    assert_eq!(
        statements(vec![
            declare(int_type(), "x"),
            declare(pointer(int_type()), "p"),
            Stmt::Expr(assign(target(), variable("x"))),
            Stmt::Expr(assign(variable("x"), target())),
            init(int_type(), "y", variable("x")),
        ]),
        "\tmovq    -16(%rbp), %r8\n\tmovl    -4(%rbp), %r9d\n\tmovl    %r9d, (%r8)\n\
         \tmovq    -16(%rbp), %r9\n\tmovl    (%r9), %r8d\n\tmovl    %r8d, -4(%rbp)\n\
         \tmovl    -4(%rbp), %r8d\n\tmovl    %r8d, -20(%rbp)\n"
    );
}

#[test]
fn calls_pass_arguments_in_registers() {
    assert_eq!(
        value(call("f", vec![number(1), character(2)], int_type())),
        (
            Register::Scratch(0, int_type()),
            "\tmovl    $1, %r8d\n\tmovl    %r8d, %edi\n\tmovb    $2, %r8b\n\tmovb    %r8b, %sil\n\
             \tcall    _f\n\tmovl    %eax, %r8d\n"
                .to_string()
        )
    );
    assert_eq!(
        value(call("f", vec![], void_type())),
        (Register::Void, "\tcall    _f\n".to_string())
    );
    let all = (1..7).map(number).collect();
    let output = value(call("f", all, void_type())).1;
    for name in ["%edi", "%esi", "%edx", "%ecx", "%r8d\n", "%r9d\n"] {
        assert!(output.contains(&format!("\tmovl    %r8d, {name}")));
    }
}

#[test]
fn calls_save_the_registers_in_use() {
    assert_eq!(
        value(binary(number(1), TokenType::Plus, call("f", vec![], int_type()))).1,
        "\tmovl    $1, %r8d\n\tpushq   %r8\n\tsubq    $8,%rsp\n\tcall    _f\n\taddq    $8,%rsp\n\
         \tpopq   %r8\n\tmovl    %eax, %r9d\n\taddl %r8d, %r9d\n\n"
    );
    let inner = binary(number(2), TokenType::Plus, call("f", vec![], int_type()));
    assert_eq!(
        value(binary(number(1), TokenType::Plus, inner)).1,
        "\tmovl    $1, %r8d\n\tmovl    $2, %r9d\n\tpushq   %r8\n\tpushq   %r9\n\tcall    _f\n\
         \tpopq   %r9\n\tpopq   %r8\n\tmovl    %eax, %r10d\n\taddl %r9d, %r10d\n\n\
         \taddl %r8d, %r10d\n\n"
    );
}

#[test]
fn conditions() {
    let condition = "\tmovl    $1, %r8d\n\tcmpl    $0, %r8d\n";
    assert_eq!(
        statements(vec![Stmt::If(
            token(TokenType::Keyword),
            number(1),
            Box::new(Stmt::Expr(number(2))),
            Box::new(None),
        )]),
        format!("{condition}\tje    L0\n\tmovl    $2, %r8d\nL0:\n")
    );
    assert_eq!(
        statements(vec![Stmt::If(
            token(TokenType::Keyword),
            number(1),
            Box::new(Stmt::Expr(number(2))),
            Box::new(Some(Stmt::Expr(number(3)))),
        )]),
        format!(
            "{condition}\tje    L1\n\tmovl    $2, %r8d\n\tjmp    L0\nL1:\n\tmovl    $3, %r8d\nL0:\n"
        )
    );
}

#[test]
fn loops() {
    assert_eq!(
        statements(vec![Stmt::While(
            token(TokenType::Keyword),
            number(1),
            Box::new(Stmt::Expr(number(2))),
        )]),
        "\tjmp    L1\nL0:\n\tmovl    $2, %r8d\nL1:\n\tmovl    $1, %r8d\n\tcmpl    $0, %r8d\n\
         \tjne      L0\n"
    );
}

#[test]
fn blocks_end_their_scope() {
    assert_eq!(
        statements(vec![
            declare(int_type(), "x"),
            block(vec![
                declare(int_type(), "x"),
                Stmt::Expr(assign(variable("x"), number(1))),
            ]),
            Stmt::Expr(assign(variable("x"), number(2))),
        ]),
        "\tmovl    $1, %r8d\n\tmovl    %r8d, -8(%rbp)\n\
         \tmovl    $2, %r8d\n\tmovl    %r8d, -4(%rbp)\n"
    );
}

#[test]
fn a_block_goes_on_in_the_enclosing_scope() {
    let mut outer = Environment::new(None);
    outer.declare_var("x".to_string(), Register::Stack(StackRegister::new(24), int_type()));
    let env = Environment::new(Some(Box::new(outer)));
    let mut compiler = Compiler::new(NameMap::new());
    compiler.block(&vec![declare(int_type(), "y")], env).unwrap();
    assert_eq!(
        compiler.execute(&variable("x")).unwrap(),
        Register::Stack(StackRegister::new(24), int_type())
    );
    assert_eq!(compiler.output(), "");
}

#[test]
fn functions() {
    let sum = binary(variable("a"), TokenType::Plus, variable("b"));
    assert_eq!(
        program(
            vec![function("add", vec![(int_type(), "a"), (int_type(), "b")], vec![give(Some(sum))])],
            sizes(&[("add", 8)])
        ),
        "\n\t.text\n\t.globl _add\n_add:\n\tpushq   %rbp\n\tmovq    %rsp, %rbp\n\
         \tsubq    $16,%rsp\n\tmovl    %edi, -4(%rbp)\n\tmovl    %esi, -8(%rbp)\n\
         \tmovl    -4(%rbp), %r8d\n\tmovl    -8(%rbp), %r9d\n\taddl %r8d, %r9d\n\n\
         \tmovl    %r9d, %eax\n\tjmp    add_epilogue\n\
         add_epilogue:\n\taddq    $16,%rsp\n\tpopq    %rbp\n\tret\n"
    );
}

#[test]
fn functions_without_variables_need_no_stack() {
    assert_eq!(
        program(vec![function("f", vec![], vec![give(None)])], sizes(&[("f", 0)])),
        "\n\t.text\n\t.globl _f\n_f:\n\tpushq   %rbp\n\tmovq    %rsp, %rbp\n\
         \tjmp    f_epilogue\nf_epilogue:\n\tpopq    %rbp\n\tret\n"
    );
}

#[test]
fn each_function_starts_a_stack_frame() {
    let mut compiler = Compiler::new(sizes(&[("f", 17), ("g", 32)]));
    let body = || vec![init(int_type(), "x", number(1))];
    compiler
        .compile(&vec![
            function("f", vec![], body()),
            Stmt::FunctionDeclaration(int_type(), ident("h"), vec![]),
            function("g", vec![], body()),
        ])
        .unwrap();
    assert_eq!(compiler.current_bp_offset, 0);
    assert_eq!(compiler.output().matches("%r8d, -4(%rbp)\n").count(), 2);
    assert_eq!(compiler.output().matches("$32,%rsp").count(), 4);
}

#[test]
fn statements_give_their_registers_back() {
    let body = (0..20).map(|n| Stmt::Expr(number(n))).collect();
    let mut compiler = Compiler::new(NameMap::new());
    compiler.compile(&body).unwrap();
    assert_eq!(compiler.output().matches("%r8d").count(), 20);
    assert_eq!(compiler.execute(&number(1)).unwrap(), Register::Scratch(0, int_type()));
    assert_eq!(compiler.execute(&number(1)).unwrap(), Register::Scratch(1, int_type()));
}

#[test]
fn enum_values_are_ints() {
    let t = NEWTypes::Enum(None);
    let down = ExprKind::CastDown { expr: Box::new(number(5)) };
    assert_eq!(
        statements(vec![init(t.clone(), "e", expr(down, t))]),
        "\tmovl    $5, %r8d\n\tmovl    %r8d, -4(%rbp)\n"
    );
}

#[test]
fn expressions_take_as_many_registers_as_they_need() {
    // a sum of sums on the left takes two
    let left = (0..50).fold(number(1), |sum, n| binary(sum, TokenType::Minus, number(n)));
    let (place, output) = value(left);
    assert_eq!(place, Register::Scratch(0, int_type()));
    assert!(!output.contains("%r10"));

    // one on the right takes one more with each level
    let right = [1, 2, 3].iter().rev().fold(number(4), |sum, n| {
        binary(number(*n), TokenType::Plus, sum)
    });
    let (place, output) = value(right);
    assert_eq!(place, Register::Scratch(3, int_type()));
    assert_eq!(
        output,
        "\tmovl    $1, %r8d\n\tmovl    $2, %r9d\n\tmovl    $3, %r10d\n\tmovl    $4, %r11d\n\
         \taddl %r10d, %r11d\n\n\taddl %r9d, %r11d\n\n\taddl %r8d, %r11d\n\n"
    );
}

#[test]
fn every_label_is_defined_once() {
    let condition = || logical(variable("x"), TokenType::PipePipe, number(0));
    let inner = Stmt::If(
        token(TokenType::Keyword),
        logical(condition(), TokenType::AmpAmp, number(1)),
        Box::new(Stmt::Expr(number(1))),
        Box::new(Some(Stmt::Expr(condition()))),
    );
    let repeat = Stmt::While(token(TokenType::Keyword), condition(), Box::new(block(vec![inner])));
    // a function whose name looks like a label
    let body = vec![function("L1", vec![(int_type(), "x")], vec![repeat, give(None)])];
    let mut compiler = Compiler::new(sizes(&[("L1", 4)]));
    compiler.compile(&body).unwrap();

    let labels: Vec<&str> = compiler
        .output()
        .lines()
        .filter(|line| line.starts_with('L') && !line.contains('_'))
        .collect();
    let mut distinct = labels.clone();
    distinct.sort();
    distinct.dedup();
    assert_eq!(distinct.len(), labels.len());
    // two of the loop and of the branches, two of `&&`, three of each `||`
    assert_eq!(labels.len(), 2 + 2 + 2 + 3 * 3);
    for n in 0..labels.len() {
        assert!(labels.contains(&format!("L{n}:").as_str()));
    }
}

#[test]
fn room_is_given_back() {
    let mut compiler = Compiler::new(sizes(&[("f", 20), ("g", 0)]));
    compiler.allocate_stack("f").unwrap();
    compiler.dealloc_stack("f").unwrap();
    compiler.allocate_stack("g").unwrap();
    compiler.dealloc_stack("g").unwrap();
    assert_eq!(compiler.output(), "\tsubq    $32,%rsp\n\taddq    $32,%rsp\n");
}

#[test]
fn the_offset_is_that_of_the_last_variable() {
    let mut compiler = Compiler::new(NameMap::new());
    assert_eq!(compiler.bp_offset(), 0);
    compiler.compile(&vec![declare(char_type(), "c"), declare(int_type(), "i")]).unwrap();
    assert_eq!(compiler.bp_offset(), 8);
    assert_eq!(compiler.bp_offset(), compiler.current_bp_offset);
}

#[test]
fn a_rejected_block_ends_its_scope_too() {
    let mut compiler = Compiler::new(NameMap::new());
    let error = compiler
        .compile(&vec![
            declare(int_type(), "x"),
            block(vec![
                declare(int_type(), "x"),
                Stmt::Expr(unary(TokenType::Plus, number(1))),
            ]),
        ])
        .unwrap_err();
    assert_eq!(error.kind, ErrorKind::Regular("invalid unary operator"));
    assert_eq!(
        compiler.execute(&variable("x")).unwrap(),
        Register::Stack(StackRegister::new(4), int_type())
    );
    assert_eq!(compiler.bp_offset(), 8);
}

#[test]
fn the_first_four_arguments_leave_scratch_registers_alone() {
    for i in 0..4 {
        let argument = Register::Arg(i, long_type()).name();
        for index in 0..4 {
            assert_ne!(Register::Scratch(index, long_type()).name(), argument);
        }
    }
    // the last two are scratch registers
    for i in 0..2 {
        assert_eq!(
            Register::Arg(4 + i, long_type()).name(),
            Register::Scratch(i, long_type()).name()
        );
    }
}

#[test]
fn well_formed_programs_are_generated() {
    let target = || unary(TokenType::Star, variable("p"));
    let up = expr(ExprKind::CastUp { expr: Box::new(character(1)) }, int_type());
    let scaled = ExprKind::ScaleUp { expr: Box::new(variable("x")), shift_amount: 2 };
    let body = vec![
        init(pointer(int_type()), "p", unary(TokenType::Amp, variable("x"))),
        Stmt::Expr(assign(target(), call("f", vec![target(), up], int_type()))),
        Stmt::Expr(assign(variable("x"), expr(scaled, int_type()))),
        Stmt::Expr(call("g", vec![variable("x")], void_type())),
        give(Some(binary(target(), TokenType::Plus, variable("x")))),
    ];
    assert_eq!(
        program(vec![function("f", vec![(int_type(), "x")], body)], sizes(&[("f", 16)])),
        "\n\t.text\n\t.globl _f\n_f:\n\tpushq   %rbp\n\tmovq    %rsp, %rbp\n\tsubq    $16,%rsp\n\
         \tmovl    %edi, -4(%rbp)\n\
         \tleaq    -4(%rbp), %r8\n\tmovq    %r8, -16(%rbp)\n\
         \tmovq    -16(%rbp), %r8\n\
         \tmovq    -16(%rbp), %r10\n\tmovl    (%r10), %r9d\n\tmovl    %r9d, %edi\n\
         \tmovb    $1, %r9b\nmovsbl   %r9b, %r10d\n\tmovl    %r10d, %esi\n\
         \tpushq   %r8\n\tsubq    $8,%rsp\n\tcall    _f\n\taddq    $8,%rsp\n\tpopq   %r8\n\
         \tmovl    %eax, %r9d\n\tmovl    %r9d, (%r8)\n\
         \tmovl    -4(%rbp), %r8d\nsall   $2, %r8d\n\tmovl    %r8d, -4(%rbp)\n\
         \tmovl    -4(%rbp), %edi\n\tcall    _g\n\
         \tmovq    -16(%rbp), %r9\n\tmovl    (%r9), %r8d\n\tmovl    -4(%rbp), %r9d\n\
         \taddl %r8d, %r9d\n\n\tmovl    %r9d, %eax\n\tjmp    f_epilogue\n\
         f_epilogue:\n\taddq    $16,%rsp\n\tpopq    %rbp\n\tret\n"
    );
}
