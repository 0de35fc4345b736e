//! Constant folding of expressions, written as source text.

use wrecc::common::error::{Error, ErrorKind};
use wrecc::common::token::{Token, TokenType};
use wrecc::common::types::{integer_type, NEWTypes, StructInfo, Types};
use wrecc::parser::expr::{DeclModifier, DeclType, Expr, ExprKind, SpecifierKind, ValueKind};
use wrecc::parser::typechecker::{Symbols, TypeChecker};

#[derive(Clone, PartialEq, Debug)]
enum Lexeme {
    Number(i64),
    Char(i64),
    Word(String),
    Sign(&'static str),
}

const SIGNS: [&str; 32] = [
    "<<", ">>", "&&", "||", "==", "!=", "<=", ">=", "++", "--", "+", "-", "*", "/", "%", "|", "^",
    "&", "~", "!", ">", "<", "=", "?", ":", ",", "(", ")", "{", "}", ";", ".",
];

fn scan(input: &str) -> Vec<(Lexeme, i32)> {
    let bytes = input.as_bytes();
    let mut lexemes = Vec::new();
    let mut i = 0;
    while i < bytes.len() {
        let start = i;
        if bytes[i] == b' ' {
            i += 1;
            continue;
        }
        if bytes[i].is_ascii_digit() {
            while i < bytes.len() && bytes[i].is_ascii_digit() {
                i += 1;
            }
            let value = input[start..i].parse::<i64>().unwrap();
            lexemes.push((Lexeme::Number(value), start as i32));
        } else if bytes[i] == b'\'' {
            assert_eq!(bytes[i + 2], b'\'');
            lexemes.push((Lexeme::Char(bytes[i + 1] as i64), start as i32));
            i += 3;
        } else if bytes[i].is_ascii_alphabetic() {
            while i < bytes.len() && bytes[i].is_ascii_alphanumeric() {
                i += 1;
            }
            lexemes.push((Lexeme::Word(input[start..i].to_string()), start as i32));
        } else {
            let sign = SIGNS.iter().find(|s| input[i..].starts_with(**s)).unwrap();
            lexemes.push((Lexeme::Sign(*sign), start as i32));
            i += sign.len();
        }
    }
    lexemes
}

struct Parser {
    line: String,
    lexemes: Vec<(Lexeme, i32)>,
    next: usize,
}

fn setup(input: &str) -> Parser {
    Parser { line: input.to_string(), lexemes: scan(input), next: 0 }
}

fn rvalue(kind: ExprKind) -> Expr {
    Expr { kind, type_decl: None, value_kind: ValueKind::Rvalue }
}

fn sign_type(sign: &str) -> TokenType {
    match sign {
        "<<" => TokenType::LessLess,
        ">>" => TokenType::GreaterGreater,
        "&&" => TokenType::AmpAmp,
        "||" => TokenType::PipePipe,
        "==" => TokenType::EqualEqual,
        "!=" => TokenType::BangEqual,
        "<=" => TokenType::LessEqual,
        ">=" => TokenType::GreaterEqual,
        "+" => TokenType::Plus,
        "-" => TokenType::Minus,
        "*" => TokenType::Star,
        "/" => TokenType::Slash,
        "%" => TokenType::Mod,
        "|" => TokenType::Pipe,
        "^" => TokenType::Xor,
        "&" => TokenType::Amp,
        "~" => TokenType::Tilde,
        "!" => TokenType::Bang,
        ">" => TokenType::Greater,
        "<" => TokenType::Less,
        "=" => TokenType::Equal,
        "?" => TokenType::Question,
        "(" => TokenType::LeftParen,
        _ => unreachable!("no token for {}", sign),
    }
}

impl Parser {
    fn column(&self) -> i32 {
        self.lexemes.get(self.next).map(|l| l.1).unwrap_or(self.line.len() as i32)
    }
    fn token(&self, token: TokenType) -> Token {
        Token::new(token, 1, self.column(), self.line.clone())
    }
    fn at(&self, sign: &str) -> bool {
        matches!(self.lexemes.get(self.next), Some((Lexeme::Sign(s), _)) if *s == sign)
    }
    fn eat(&mut self, sign: &str) -> bool {
        let found = self.at(sign);
        if found {
            self.next += 1;
        }
        found
    }
    fn expect(&mut self, sign: &str) {
        assert!(self.eat(sign), "expected {} in {}", sign, self.line);
    }
    /// The operator that comes next, if it is one of these.
    fn one_of(&mut self, signs: &[&str]) -> Option<Token> {
        let sign = match self.lexemes.get(self.next) {
            Some((Lexeme::Sign(s), _)) if signs.contains(s) => *s,
            _ => return None,
        };
        let token = self.token(sign_type(sign));
        self.next += 1;
        Some(token)
    }
    fn expression(&mut self) -> Result<Expr, Error> {
        let expr = self.comma();
        assert_eq!(self.next, self.lexemes.len(), "rest of {}", self.line);
        Ok(expr)
    }
    fn comma(&mut self) -> Expr {
        let mut expr = self.assignment();
        while self.eat(",") {
            let right = self.assignment();
            expr = rvalue(ExprKind::Comma { left: Box::new(expr), right: Box::new(right) });
        }
        expr
    }
    fn assignment(&mut self) -> Expr {
        let expr = self.ternary();
        if let Some(token) = self.one_of(&["="]) {
            let right = self.assignment();
            return rvalue(ExprKind::Assign {
                l_expr: Box::new(expr),
                token,
                r_expr: Box::new(right),
            });
        }
        expr
    }
    fn ternary(&mut self) -> Expr {
        let cond = self.binary(0);
        if let Some(token) = self.one_of(&["?"]) {
            let true_expr = self.comma();
            self.expect(":");
            let false_expr = self.ternary();
            return rvalue(ExprKind::Ternary {
                token,
                cond: Box::new(cond),
                true_expr: Box::new(true_expr),
                false_expr: Box::new(false_expr),
            });
        }
        cond
    }
    fn binary(&mut self, level: usize) -> Expr {
        let levels: [&[&str]; 10] = [
            &["||"],
            &["&&"],
            &["|"],
            &["^"],
            &["&"],
            &["==", "!="],
            &["<", ">", "<=", ">="],
            &["<<", ">>"],
            &["+", "-"],
            &["*", "/", "%"],
        ];
        if level == levels.len() {
            return self.unary();
        }
        let mut expr = self.binary(level + 1);
        while let Some(token) = self.one_of(levels[level]) {
            let (left, right) = (Box::new(expr), Box::new(self.binary(level + 1)));
            expr = rvalue(match level {
                0 | 1 => ExprKind::Logical { left, token, right },
                5 | 6 => ExprKind::Comparison { left, token, right },
                _ => ExprKind::Binary { left, token, right },
            });
        }
        expr
    }
    fn unary(&mut self) -> Expr {
        if let Some(token) = self.one_of(&["!", "-", "+", "~", "*", "&"]) {
            let right = Box::new(self.unary());
            return rvalue(ExprKind::Unary { token, right });
        }
        if self.at("(") && self.type_starts(self.next + 1) {
            let token = self.token(TokenType::LeftParen);
            self.next += 1;
            let decl_type = self.declared_type();
            self.expect(")");
            let expr = Box::new(self.unary());
            return rvalue(ExprKind::Cast { token, decl_type, expr });
        }
        let sizeof = Lexeme::Word("sizeof".to_string());
        if self.lexemes[self.next].0 == sizeof && self.type_starts(self.next + 2) {
            self.next += 2;
            let decl_type = self.declared_type();
            self.expect(")");
            return rvalue(ExprKind::SizeofType { decl_type });
        }
        self.primary()
    }
    fn primary(&mut self) -> Expr {
        let lexeme = self.lexemes[self.next].0.clone();
        match lexeme {
            Lexeme::Number(n) => {
                self.next += 1;
                Expr::new_literal(n, integer_type(n))
            }
            Lexeme::Char(c) => {
                self.next += 1;
                Expr::new_literal(c, Types::Char)
            }
            Lexeme::Word(name) => {
                let token = self.token(TokenType::Ident(name));
                self.next += 1;
                Expr { kind: ExprKind::Ident(token), type_decl: None, value_kind: ValueKind::Lvalue }
            }
            Lexeme::Sign(_) => {
                self.expect("(");
                let expr = Box::new(self.comma());
                self.expect(")");
                rvalue(ExprKind::Grouping { expr })
            }
        }
    }
    fn type_starts(&self, at: usize) -> bool {
        let words = ["void", "char", "int", "long", "struct", "enum"];
        matches!(self.lexemes.get(at), Some((Lexeme::Word(w), _)) if words.contains(&w.as_str()))
    }
    fn word(&mut self) -> String {
        let word = match &self.lexemes[self.next].0 {
            Lexeme::Word(word) => word.clone(),
            other => unreachable!("expected a word, found {:?}", other),
        };
        self.next += 1;
        word
    }
    fn declared_type(&mut self) -> DeclType {
        let token = self.token(TokenType::Keyword);
        let specifier = match self.word().as_str() {
            "void" => SpecifierKind::Primitive(Types::Void),
            "char" => SpecifierKind::Primitive(Types::Char),
            "int" => SpecifierKind::Primitive(Types::Int),
            "long" => SpecifierKind::Primitive(Types::Long),
            "struct" => {
                let open = self.token(TokenType::LeftBrace);
                self.expect("{");
                let member = self.declared_type();
                let size = TypeChecker::new().parse_type(&member).unwrap().size();
                self.word();
                self.expect(";");
                self.expect("}");
                SpecifierKind::Struct(StructInfo::Anonymous(open, size))
            }
            _ => {
                self.expect("{");
                let mut constants = Vec::new();
                while !self.eat("}") {
                    let column = self.token(TokenType::Keyword).column;
                    let name = TokenType::Ident(self.word());
                    self.expect("=");
                    let value = match self.lexemes[self.next].0 {
                        Lexeme::Number(n) => n as i32,
                        _ => unreachable!("enum constant without a number"),
                    };
                    self.next += 1;
                    self.eat(",");
                    constants.push((Token::new(name, 1, column, self.line.clone()), value));
                }
                SpecifierKind::Enum(None, constants)
            }
        };
        let mut modifiers = Vec::new();
        while self.eat("*") {
            modifiers.push(DeclModifier::Pointer);
        }
        DeclType { token, specifier, modifiers }
    }
}

fn setup_type(input: &str) -> NEWTypes {
    let decl_type = setup(input).declared_type();
    TypeChecker::new().parse_type(&decl_type).unwrap()
}

fn assert_fold(input: &str, expected: &str) -> Option<NEWTypes> {
    let mut actual = setup(input).expression().unwrap();
    actual.integer_const_fold(&mut TypeChecker::new()).unwrap();

    let mut expected = setup(expected).expression().unwrap();
    expected.integer_const_fold(&mut TypeChecker::new()).unwrap();

    assert_eq!(actual, expected);

    actual.type_decl
}

fn assert_fold_type(input: &str, expected: &str, expected_type: &str) {
    let actual_type = assert_fold(input, expected).expect("type of a foldable expression");
    assert_eq!(actual_type, setup_type(expected_type));
}

fn fold_error(input: &str) -> ErrorKind {
    setup(input)
        .expression()
        .unwrap()
        .integer_const_fold(&mut TypeChecker::new())
        .unwrap_err()
        .kind
}

#[test]
fn bit_fold() {
    assert_fold("-8 ^ -8", "0");
    assert_fold("1 ^ -8", "-7");

    assert_fold("-8 & -8", "-8");
    assert_fold("-8 & 1", "0");

    assert_fold("-8 | -8", "-8");
    assert_fold("1 | 1", "1");

    assert_fold_type("~0", "-1", "int");
}

#[test]
fn advanced_bit_fold() {
    assert_fold("~4 + !'c'", "-5");
    assert_fold("~4 ^ -'c'", "102");
}

#[test]
fn bit_vs_logical() {
    assert_fold("8 & 4", "0");
    assert_fold("8 && 4", "1");

    assert_fold("0 & 3", "0");
    assert_fold("1 && -0", "0");

    assert_fold("8 | 4", "12");
    assert_fold("8 || 4", "1");

    assert_fold("0 | 3", "3");
    assert_fold("1 || -0", "1");
}

#[test]
fn comp_fold() {
    assert_fold("1 == 0", "0");
    assert_fold("-2 == -2", "1");

    assert_fold("3 != -2", "1");
    assert_fold("3 != 3", "0");

    assert_fold("3 > -2", "1");
    assert_fold("3 > 3", "0");

    assert_fold("3 >= -2", "1");
    assert_fold("3 >= 3", "1");

    assert_fold("'c' <= -2", "0");
    assert_fold("3 <= -2", "0");

    assert_fold("(long*)4 == (long*)1", "0");
    assert_fold("(long*)4 > (long*)1", "1");
    assert!(matches!(fold_error("(int*)4 <= 1"), ErrorKind::InvalidComp(..)));
    assert!(matches!(fold_error("(long*)4 > (char*)1"), ErrorKind::InvalidComp(..)));
}

#[test]
fn shift_fold() {
    assert_fold("'1' << 5", "1568");
    assert_fold("'1' >> 2", "12");

    assert_fold_type("1 << (long)12", "4096", "int");
    assert_fold_type("(long)1 << (char)12", "(long)4096", "long");
    assert_fold_type("'1' << 12", "200704", "int");

    assert_fold_type("(long)-5 >> 42", "(long)-1", "long");
    assert_fold_type("(long)-5 << 42", "-21990232555520", "long");
}

#[test]
fn shift_fold_error() {
    assert!(matches!(
        fold_error("-16 << 33"),
        ErrorKind::IntegerOverflow(NEWTypes::Primitive(Types::Int))
    ));
    assert!(matches!(
        fold_error("(long)-5 >> 64"),
        ErrorKind::IntegerOverflow(NEWTypes::Primitive(Types::Long))
    ));

    // negative shift count is UB
    assert!(matches!(fold_error("16 << -2"), ErrorKind::NegativeShift));
    assert!(matches!(fold_error("4 >> -3"), ErrorKind::NegativeShift));

    assert!(matches!(fold_error("-16 << -2"), ErrorKind::NegativeShift));
    assert!(matches!(fold_error("-5 >> -1"), ErrorKind::NegativeShift));

    assert!(matches!(
        fold_error("2147483647 << 2"),
        ErrorKind::IntegerOverflow(NEWTypes::Primitive(Types::Int))
    ));
}

#[test]
fn div_fold() {
    assert_fold("5 / 2", "2");
    assert_fold("32 % 5", "2");

    assert_fold("-5 / 2", "-2");
    assert_fold("-32 % 5", "-2");

    assert_fold("5 / -2", "-2");
    assert_fold("32 % -5", "2");

    assert_fold("-5 / -2", "2");
    assert_fold("-32 % -5", "-2");

    assert_fold("(34 / 3) * 3 + 34 % 3", "34");
}

#[test]
fn div_fold_error() {
    assert!(matches!(fold_error("3 / 0"), ErrorKind::DivideByZero));
    assert!(matches!(fold_error("-5 % 0"), ErrorKind::DivideByZero));
}

#[test]
fn char_fold() {
    assert_fold_type("'1' + '1'", "98", "int");
    assert_fold("-'1'", "-49");
    assert_fold("!-'1'", "0");
}

#[test]
fn ptr_fold() {
    assert_fold_type("(long *)1 + 3", "(long*)25", "long*");
    assert_fold_type("2 + (char *)1 + 3", "(char*)6", "char*");

    assert!(matches!(
        fold_error("6 / (int *)1"),
        ErrorKind::InvalidBinary(_, NEWTypes::Primitive(Types::Int), NEWTypes::Pointer(_))
    ));

    assert!(matches!(
        fold_error("-(long *)1"),
        ErrorKind::InvalidUnary(_, NEWTypes::Pointer(_), "integer")
    ));
    assert!(matches!(
        fold_error("~(char *)1"),
        ErrorKind::InvalidUnary(_, NEWTypes::Pointer(_), "integer")
    ));
}

#[test]
fn ternary_fold() {
    assert_fold("1 == 2 ? 4 : 9", "9");
    assert_fold("(char*)1 ? 4 : 9", "4");

    assert_fold_type("1 - 2 ? (void*)4 : (long*)9 - 3", "(void*)4", "void*");

    assert!(matches!(
        fold_error("1 == 2 ? 4 : (long*)9"),
        ErrorKind::TypeMismatch(NEWTypes::Primitive(Types::Int), NEWTypes::Pointer(_))
    ));

    assert!(matches!(
        fold_error("1 == 2 ? (int*)4 : (long*)9"),
        ErrorKind::TypeMismatch(NEWTypes::Pointer(_), NEWTypes::Pointer(_))
    ));
}

#[test]
fn type_conversions() {
    assert_fold_type("4294967296 + 1", "4294967297", "long");
    assert_fold_type("2147483648 - 10", "(long)2147483638", "long");
    assert_fold_type("'1' * 2147483648", "105226698752", "long");

    assert_fold_type("'a'", "'a'", "char");
    assert_fold_type("-'a'", "-'a'", "int");
    assert_fold_type("+'a'", "(int)'a'", "int");

    assert_fold_type("2147483648", "2147483648", "long");

    assert_fold_type("-2147483649", "-2147483649", "long");
    assert_fold_type("(int)-2147483648", "(int)-2147483648", "int");
}

#[test]
fn overflow_fold() {
    assert!(matches!(
        fold_error("2147483647 + 1"),
        ErrorKind::IntegerOverflow(NEWTypes::Primitive(Types::Int))
    ));
    assert!(matches!(
        fold_error("9223372036854775807 * 2"),
        ErrorKind::IntegerOverflow(NEWTypes::Primitive(Types::Long))
    ));

    assert!(matches!(
        fold_error("(int)-2147483648 - 1"),
        ErrorKind::IntegerOverflow(NEWTypes::Primitive(Types::Int))
    ));
    assert!(matches!(
        fold_error("(int)-2147483648 * -1"),
        ErrorKind::IntegerOverflow(NEWTypes::Primitive(Types::Int))
    ));
    assert!(matches!(
        fold_error("-((int)-2147483648)"),
        ErrorKind::IntegerOverflow(NEWTypes::Primitive(Types::Int))
    ));

    assert_fold_type("(char)127 + 2", "129", "int");
    assert_fold_type("2147483648 + 1", "2147483649", "long");
}

#[test]
fn sub_fold_expressions() {
    assert_fold("1 + 2, 4 * 2", "3,8");
}

#[test]
fn const_cast() {
    assert_fold_type("(long)'1' + '1'", "(long)98", "long");
    assert_fold_type("(char)2147483648", "(char)0", "char");
    assert_fold_type("(int)2147483648", "(int)-2147483648", "int");

    assert_fold_type("!((long)'1' + '1')", "0", "int");

    assert!(matches!(
        fold_error("(struct {int age;})2"),
        ErrorKind::InvalidConstCast(
            NEWTypes::Primitive(Types::Int),
            NEWTypes::Struct(StructInfo::Anonymous(..)),
        )
    ));
}

#[test]
fn enum_constants_are_known() {
    let mut checker = TypeChecker::new();
    let mut expr = setup("sizeof(enum {red = 3, green = 5}) + red * green").expression().unwrap();
    expr.integer_const_fold(&mut checker).unwrap();
    assert_eq!(expr, Expr::new_literal(19, Types::Int));

    let green = Token::new(TokenType::Ident("green".to_string()), 1, 1, String::new());
    assert!(matches!(checker.get_symbol(&green), Ok(Symbols::Variable(_))));
    let mut name = setup("green").expression().unwrap();
    assert_eq!(name.get_literal_constant(&mut checker, &green, "array size"), Ok(5));
}

fn folded(input: &str) -> Expr {
    let mut expr = setup(input).expression().unwrap();
    expr.integer_const_fold(&mut TypeChecker::new()).unwrap();
    expr
}

fn long(value: i64) -> Expr {
    Expr::new_literal(value, Types::Long)
}

#[test]
fn sizes_of_types() {
    assert_eq!(folded("sizeof(char)"), Expr::new_literal(1, Types::Int));
    assert_eq!(folded("sizeof(int)"), Expr::new_literal(4, Types::Int));
    assert_eq!(folded("sizeof(long)"), Expr::new_literal(8, Types::Int));
    assert_eq!(folded("sizeof(char*)"), Expr::new_literal(8, Types::Int));
    assert_eq!(folded("sizeof(struct {long age;})"), Expr::new_literal(8, Types::Int));
}

fn longs(amount: usize, modifiers: &[DeclModifier]) -> DeclType {
    let mut all = vec![DeclModifier::Array(amount)];
    all.extend_from_slice(modifiers);
    DeclType {
        token: Token::new(TokenType::Keyword, 4, 9, "long a".to_string()),
        specifier: SpecifierKind::Primitive(Types::Long),
        modifiers: all,
    }
}

fn array_of_longs(amount: usize) -> NEWTypes {
    NEWTypes::Array { amount, of: Box::new(NEWTypes::Primitive(Types::Long)) }
}

#[test]
fn large_sizes() {
    let mut array = rvalue(ExprKind::SizeofType { decl_type: longs(268435456, &[]) });
    array.integer_const_fold(&mut TypeChecker::new()).unwrap();
    assert_eq!(array, long(2147483648));

    let pointer = longs(usize::MAX, &[DeclModifier::Pointer]);
    let mut pointer = rvalue(ExprKind::SizeofType { decl_type: pointer });
    pointer.integer_const_fold(&mut TypeChecker::new()).unwrap();
    assert_eq!(pointer, Expr::new_literal(8, Types::Int));
}

#[test]
fn casts_do_not_measure() {
    let cast = |decl_type, n| {
        rvalue(ExprKind::Cast {
            token: Token::new(TokenType::LeftParen, 4, 8, "(long a".to_string()),
            decl_type,
            expr: Box::new(Expr::new_literal(n, Types::Int)),
        })
    };
    let pointer = || NEWTypes::Pointer(Box::new(array_of_longs(usize::MAX)));
    let to_pointer = |n| cast(longs(usize::MAX, &[DeclModifier::Pointer]), n);

    let mut whole = to_pointer(7);
    whole.integer_const_fold(&mut TypeChecker::new()).unwrap();
    assert_eq!(whole.kind, ExprKind::Literal(7));
    assert_eq!(whole.type_decl, Some(pointer()));

    // two pointers are not scaled
    let mut difference = rvalue(ExprKind::Binary {
        left: Box::new(to_pointer(16)),
        token: Token::new(TokenType::Minus, 4, 20, "-".to_string()),
        right: Box::new(to_pointer(9)),
    });
    difference.integer_const_fold(&mut TypeChecker::new()).unwrap();
    assert_eq!(difference.kind, ExprKind::Literal(7));

    let error = cast(longs(usize::MAX, &[]), 7)
        .integer_const_fold(&mut TypeChecker::new())
        .unwrap_err();
    assert_eq!(
        error.kind,
        ErrorKind::InvalidConstCast(
            NEWTypes::Primitive(Types::Int),
            array_of_longs(usize::MAX)
        )
    );
    assert_eq!((error.line_index, error.column), (4, 8));
}

#[test]
fn names_that_are_not_constant_stay() {
    assert_eq!(folded("x"), setup("x").expression().unwrap());
    assert_eq!(folded("x + 1"), setup("x + 1").expression().unwrap());
    assert!(matches!(folded("-x").kind, ExprKind::Unary { .. }));
    assert!(matches!(folded("x < 2").kind, ExprKind::Comparison { .. }));
    assert!(matches!(folded("(char)x").kind, ExprKind::Cast { .. }));
    assert!(matches!(folded("x ? 1 : 2").kind, ExprKind::Ternary { .. }));
    // an operator that needs an object
    assert!(matches!(folded("*1").kind, ExprKind::Unary { .. }));
}

#[test]
fn parts_are_folded_where_the_whole_is_not() {
    let ExprKind::Assign { r_expr, .. } = folded("x = 2 * 3").kind else {
        unreachable!("an assignment stays one");
    };
    assert_eq!(*r_expr, Expr::new_literal(6, Types::Int));
    let ExprKind::Binary { right, .. } = folded("x + (2 * 3)").kind else {
        unreachable!("a sum with a variable stays one");
    };
    assert_eq!(*right, Expr::new_literal(6, Types::Int));
}

#[test]
fn logical_operators_on_one_constant() {
    assert_eq!(folded("0 && x"), Expr::new_literal(0, Types::Int));
    assert_eq!(folded("1 || x"), Expr::new_literal(1, Types::Int));
    // the constant has to be 1
    assert!(matches!(folded("2 || x").kind, ExprKind::Logical { .. }));
    assert!(matches!(folded("1 && x").kind, ExprKind::Logical { .. }));
    assert!(matches!(folded("x || 1").kind, ExprKind::Logical { .. }));
}

#[test]
fn the_smallest_long() {
    assert_eq!(folded("-9223372036854775807 - 1"), long(i64::MIN));
    for input in [
        "(-9223372036854775807 - 1) / -1",
        "(-9223372036854775807 - 1) % -1",
        "-(-9223372036854775807 - 1)",
        "-9223372036854775807 - 2",
    ] {
        assert!(matches!(
            fold_error(input),
            ErrorKind::IntegerOverflow(NEWTypes::Primitive(Types::Long))
        ));
    }
}

#[test]
fn shifts_are_powers_of_two() {
    assert_eq!(folded("3 << 5"), Expr::new_literal(96, Types::Int));
    assert_eq!(folded("-5 >> 1"), Expr::new_literal(-3, Types::Int));
    assert_eq!(folded("-1 >> 63"), Expr::new_literal(-1, Types::Int));
    assert_eq!(folded("(long)1 << 62"), long(4611686018427387904));
    assert_eq!(folded("(long)1 << 63"), long(i64::MIN));
    // the low 32 bits of the count
    assert_eq!(folded("7 << 4294967296"), Expr::new_literal(7, Types::Int));
}

#[test]
fn dividing_and_multiplying_back() {
    for (x, y) in [(34, 3), (-34, 3), (34, -3), (-34, -3), (0, 7)] {
        let quotient = format!("({x}) / ({y})");
        let remainder = format!("({x}) % ({y})");
        assert_eq!(
            folded(&format!("({quotient}) * ({y}) + ({remainder})")),
            Expr::new_literal(x, Types::Int)
        );
    }
}

#[test]
fn opposite_comparisons() {
    for (operator, opposite) in [("==", "!="), ("<", ">="), (">", "<=")] {
        for (l, r) in [(1, 2), (2, 1), (2, 2), (-1, 1)] {
            assert_eq!(
                folded(&format!("{l} {operator} {r}")),
                folded(&format!("!({l} {opposite} {r})"))
            );
        }
    }
}

#[test]
fn casts_bring_into_range() {
    assert_eq!(folded("(char)200"), Expr::new_literal(-56, Types::Char));
    assert_eq!(folded("(char)-128"), Expr::new_literal(-128, Types::Char));
    assert_eq!(folded("(int)4294967295"), Expr::new_literal(-1, Types::Int));
    assert_eq!(folded("(long)-1"), long(-1));
    assert_eq!(folded("(enum {a = 1})4294967297").kind, ExprKind::Literal(1));
    assert!(matches!(
        fold_error("(void)1"),
        ErrorKind::InvalidConstCast(_, NEWTypes::Primitive(Types::Void))
    ));
}

#[test]
fn pointers_count_objects() {
    assert_fold_type("(long*)16 - 1", "(long*)8", "long*");
    assert_fold_type("1 + (int*)4", "(int*)8", "int*");
    assert_fold_type("(long*)16 - (long*)8", "(long*)8", "long*");
    assert!(matches!(fold_error("1 - (int*)4"), ErrorKind::InvalidBinary(..)));
    assert!(matches!(fold_error("(int*)4 + (int*)4"), ErrorKind::InvalidBinary(..)));
}

#[test]
fn folding_twice_is_folding_once() {
    for input in ["1 + 2 * 3", "x + (1 + 1)", "1 ? x : 2", "(long)-5 >> 1, y = 3 - 4", "2 || x"] {
        let once = folded(input);
        let mut twice = folded(input);
        twice.integer_const_fold(&mut TypeChecker::new()).unwrap();
        assert_eq!(twice, once);
    }
}

#[test]
fn what_was_folded_before_an_error_stays_folded() {
    let mut expr = setup("(1 + 2) / (3 - 3)").expression().unwrap();
    let error = expr.integer_const_fold(&mut TypeChecker::new()).unwrap_err();
    assert_eq!(error.kind, ErrorKind::DivideByZero);
    assert_eq!(error.column, setup("(1 + 2) / (3 - 3)").lexemes[5].1);
    let ExprKind::Binary { left, right, .. } = expr.kind else {
        unreachable!("a failed division stays one");
    };
    assert_eq!(*left, Expr::new_literal(3, Types::Int));
    assert_eq!(*right, Expr::new_literal(0, Types::Int));
}

#[test]
fn the_first_error_counts() {
    assert!(matches!(fold_error("1 / 0 + (1 << -1)"), ErrorKind::DivideByZero));
    assert!(matches!(fold_error("(1 << -1) + 1 / 0"), ErrorKind::NegativeShift));
    assert!(matches!(fold_error("1 ? 2 : 1 / 0"), ErrorKind::DivideByZero));
}

#[test]
fn constants_that_are_asked_for() {
    let token = Token::new(TokenType::Keyword, 2, 5, "int a[x];".to_string());
    let mut checker = TypeChecker::new();
    let mut size = setup("2 * 3").expression().unwrap();
    assert_eq!(size.get_literal_constant(&mut checker, &token, "array size"), Ok(6));

    let mut name = setup("x").expression().unwrap();
    assert_eq!(
        name.get_literal_constant(&mut checker, &token, "array size"),
        Err(Error::new(&token, ErrorKind::NotIntegerConstant("array size")))
    );
    let mut division = setup("1 / 0").expression().unwrap();
    assert_eq!(
        division.get_literal_constant(&mut checker, &token, "array size").unwrap_err().kind,
        ErrorKind::DivideByZero
    );
}

#[test]
fn preprocessor_constants() {
    let pp = Token::new(TokenType::Keyword, 8, 1, "#if x".to_string());
    assert_eq!(setup("3 > 2").expression().unwrap().preprocessor_constant(&pp), Ok(1));
    assert_eq!(
        setup("x").expression().unwrap().preprocessor_constant(&pp),
        Err(Error::new(&pp, ErrorKind::Regular("Invalid preprocessor constant expression")))
    );
    assert_eq!(
        setup("1 % 0").expression().unwrap().preprocessor_constant(&pp).unwrap_err().kind,
        ErrorKind::DivideByZero
    );
}

#[test]
fn symbols_have_to_be_declared() {
    let name = Token::new(TokenType::Ident("x".to_string()), 1, 1, String::new());
    assert_eq!(
        TypeChecker::new().get_symbol(&name).unwrap_err().kind,
        ErrorKind::UndeclaredSymbol("x".to_string())
    );
}

fn operator(kind: TokenType) -> Token {
    Token::new(kind, 1, 1, String::new())
}

#[test]
fn the_order_of_operands_does_not_matter() {
    let values = ["7", "-8", "'a'", "(long)12", "2147483647", "(char)-1"];
    for sign in ["+", "*", "&", "|", "^"] {
        for x in values {
            for y in values {
                let mut one = setup(&format!("{x} {sign} {y}")).expression().unwrap();
                let mut other = setup(&format!("{y} {sign} {x}")).expression().unwrap();
                let first = one.integer_const_fold(&mut TypeChecker::new());
                let second = other.integer_const_fold(&mut TypeChecker::new());
                match (first, second) {
                    (Ok(()), Ok(())) => assert_eq!(one, other),
                    (Err(l), Err(r)) => assert_eq!(l.kind, r.kind),
                    _ => panic!("{x} {sign} {y} depends on the order"),
                }
            }
        }
    }
}

#[test]
fn negation_and_complement_undo_themselves() {
    for (n, t) in [(5, Types::Int), (-128, Types::Char), (i64::MAX, Types::Long), (0, Types::Int)] {
        for kind in [TokenType::Minus, TokenType::Tilde] {
            let token = operator(kind);
            let once = Expr::unary_fold(&token, &Expr::new_literal(n, t)).unwrap().unwrap();
            let twice = Expr::unary_fold(&token, &once).unwrap().unwrap();
            assert_eq!(twice.kind, ExprKind::Literal(n));
            assert_eq!(twice.type_decl, once.type_decl);
        }
    }
    let smallest = Expr::new_literal(i64::MIN, Types::Long);
    assert!(Expr::unary_fold(&operator(TokenType::Minus), &smallest).is_err());
    assert!(Expr::unary_fold(&operator(TokenType::Tilde), &smallest).is_ok());
}

#[test]
fn exactly_one_of_less_equal_and_greater() {
    let value = |kind, l, r| {
        let (l, r) = (Expr::new_literal(l, Types::Int), Expr::new_literal(r, Types::Long));
        let folded = Expr::comp_fold(&operator(kind), &l, &r).unwrap().unwrap();
        assert_eq!(folded.type_decl, Some(NEWTypes::Primitive(Types::Int)));
        match folded.kind {
            ExprKind::Literal(n) => n,
            _ => unreachable!("a comparison of constants is constant"),
        }
    };
    for (l, r) in [(1, 2), (2, 1), (-3, -3), (-1, 1), (0, 0)] {
        let less = value(TokenType::Less, l, r);
        let equal = value(TokenType::EqualEqual, l, r);
        let greater = value(TokenType::Greater, l, r);
        assert_eq!(less + equal + greater, 1);
        assert_eq!(value(TokenType::LessEqual, l, r), 1 - greater);
        assert_eq!(value(TokenType::GreaterEqual, l, r), 1 - less);
        assert_eq!(value(TokenType::BangEqual, l, r), 1 - equal);
    }
}

#[test]
fn quotient_and_remainder_are_of_one_type() {
    let (narrow, wide) = (NEWTypes::Primitive(Types::Int), NEWTypes::Primitive(Types::Long));
    for (x, y) in [(34, 3), (-34, 3), (34, -3), (-34, -3)] {
        let fold = |kind| {
            Expr::div_fold(&operator(kind), narrow.clone(), wide.clone(), x, y).unwrap()
        };
        let (q, r) = (fold(TokenType::Slash), fold(TokenType::Mod));
        assert_eq!(q.type_decl, r.type_decl);
        match (q.kind, r.kind) {
            (ExprKind::Literal(q), ExprKind::Literal(r)) => {
                assert_eq!(q * y + r, x);
                assert!(r.abs() < y.abs() && (r == 0 || (r < 0) == (x < 0)));
            }
            _ => unreachable!("a quotient of constants is constant"),
        }
    }
    assert_eq!(
        Expr::div_fold(&operator(TokenType::Mod), narrow, wide, 1, 0).unwrap_err().kind,
        ErrorKind::DivideByZero
    );
}

#[test]
fn operators_on_folded_operands() {
    let literal = |n| Expr::new_literal(n, Types::Int);
    let sum = Expr::binary_fold(&literal(2), &operator(TokenType::Plus), &literal(3));
    assert_eq!(sum.unwrap(), Some(literal(5)));
    let name = setup("x").expression().unwrap();
    let kept = Expr::binary_fold(&name, &operator(TokenType::Plus), &literal(3));
    assert_eq!(kept.unwrap(), None);
    let both = Expr::logical_fold(&operator(TokenType::AmpAmp), &literal(2), &literal(0));
    assert_eq!(both, Some(literal(0)));
    let shifted = Expr::shift_fold(
        &operator(TokenType::LessLess),
        NEWTypes::Primitive(Types::Char),
        3,
        2,
    );
    assert_eq!(shifted.unwrap(), literal(12));
}
