use alpaca::parser::ast::{Annotation, Expr, LiteralKind, Statement};
use alpaca::parser::error::{ErrorKind, ParserError};
use alpaca::parser::literal::parse_integer;
use alpaca::parser::statement::parse;
use alpaca::parser::Parser;
use alpaca::span::Span;
use alpaca::tokens::TokenKind;

type E = (Expr, Span);

fn span(start: usize, end: usize) -> Span {
    Span { start, end }
}

fn num(value: i64, start: usize, end: usize) -> E {
    (Expr::Literal(LiteralKind::Int(value)), span(start, end))
}

fn name(text: &str, start: usize, end: usize) -> E {
    (Expr::Ident(text.to_string()), span(start, end))
}

fn binary(op: TokenKind, lhs: E, rhs: E) -> E {
    let span = span(lhs.1.start, rhs.1.end);
    (
        Expr::Binary {
            op,
            lhs: Box::new(lhs),
            rhs: Box::new(rhs),
        },
        span,
    )
}

fn assign(target: E, value: E) -> E {
    let span = span(target.1.start, value.1.end);
    (
        Expr::Assignment {
            name: Box::new(target),
            value: Box::new(value),
        },
        span,
    )
}

fn expression(source: &str) -> Result<E, ParserError> {
    Parser::new(source, "test").parse_expression(1)
}

fn statement(source: &str) -> Result<(Statement, Span), ParserError> {
    Parser::new(source, "test").parse_statement()
}

fn expected(wanted: TokenKind, found: TokenKind, at: Span) -> ErrorKind {
    ErrorKind::Expected(vec![wanted], found, at)
}

fn same_kind(a: &ErrorKind, b: &ErrorKind) -> bool {
    match (a, b) {
        (ErrorKind::Expected(w1, f1, s1), ErrorKind::Expected(w2, f2, s2)) => {
            w1 == w2 && f1 == f2 && s1 == s2
        }
        (ErrorKind::Unclosed(t1, s1), ErrorKind::Unclosed(t2, s2)) => t1 == t2 && s1 == s2,
        (ErrorKind::Unexpected(t1, s1), ErrorKind::Unexpected(t2, s2)) => t1 == t2 && s1 == s2,
        (ErrorKind::Other(m1, s1), ErrorKind::Other(m2, s2)) => m1 == m2 && s1 == s2,
        _ => false,
    }
}

fn assert_error(error: &ParserError, kind: ErrorKind, help: Option<&str>) {
    assert!(
        same_kind(error.kind(), &kind),
        "{:?} is not {:?}",
        error.kind(),
        kind
    );
    assert_eq!(error.help().map(|h| h.as_str()), help);
}

#[test]
fn multiplication_binds_tighter_than_addition() {
    assert_eq!(
        expression("1 + 2 * 3").unwrap(),
        binary(
            TokenKind::Plus,
            num(1, 0, 1),
            binary(TokenKind::Star, num(2, 4, 5), num(3, 8, 9))
        )
    );
    assert_eq!(
        expression("1 * 2 + 3").unwrap(),
        binary(
            TokenKind::Plus,
            binary(TokenKind::Star, num(1, 0, 1), num(2, 4, 5)),
            num(3, 8, 9)
        )
    );
}

#[test]
fn every_tier_binds_tighter_than_the_one_below() {
    // a = b or c and d == e < f + g * h
    let tree = expression("a = b or c and d == e < f + g * h").unwrap();
    let product = binary(TokenKind::Star, name("g", 28, 29), name("h", 32, 33));
    let sum = binary(TokenKind::Plus, name("f", 24, 25), product);
    let less = binary(TokenKind::Less, name("e", 20, 21), sum);
    let equal = binary(TokenKind::EqualEqual, name("d", 15, 16), less);
    let and = binary(TokenKind::And, name("c", 9, 10), equal);
    let or = binary(TokenKind::Or, name("b", 4, 5), and);
    assert_eq!(tree, assign(name("a", 0, 1), or));
}

#[test]
fn subtraction_associates_to_the_left() {
    assert_eq!(
        expression("1 - 2 - 3").unwrap(),
        binary(
            TokenKind::Minus,
            binary(TokenKind::Minus, num(1, 0, 1), num(2, 4, 5)),
            num(3, 8, 9)
        )
    );
}

#[test]
fn assignment_associates_to_the_right() {
    assert_eq!(
        expression("a = b = c").unwrap(),
        assign(
            name("a", 0, 1),
            assign(name("b", 4, 5), name("c", 8, 9))
        )
    );
}

#[test]
fn the_target_of_an_assignment_is_any_expression() {
    assert_eq!(
        expression("1 + 2 = 3").unwrap(),
        assign(
            binary(TokenKind::Plus, num(1, 0, 1), num(2, 4, 5)),
            num(3, 8, 9)
        )
    );
}

#[test]
fn a_group_is_its_inner_expression() {
    assert_eq!(expression("(1)").unwrap(), num(1, 1, 2));
    assert_eq!(
        expression("(1 + 2) * 3").unwrap(),
        binary(
            TokenKind::Star,
            binary(TokenKind::Plus, num(1, 1, 2), num(2, 5, 6)),
            num(3, 10, 11)
        )
    );
}

#[test]
fn a_comma_makes_a_tuple() {
    assert_eq!(
        expression("(1,)").unwrap(),
        (Expr::Tuple(vec![num(1, 1, 2)]), span(0, 4))
    );
    assert_eq!(
        expression("(1, 2)").unwrap(),
        (Expr::Tuple(vec![num(1, 1, 2), num(2, 4, 5)]), span(0, 6))
    );
    assert_eq!(
        expression("( 1 , 2 , )").unwrap(),
        (Expr::Tuple(vec![num(1, 2, 3), num(2, 6, 7)]), span(0, 11))
    );
}

#[test]
fn unary_binds_tighter_than_binary() {
    let minus_one = (
        Expr::Unary {
            op: TokenKind::Minus,
            rhs: Box::new(num(1, 1, 2)),
        },
        span(0, 2),
    );
    assert_eq!(
        expression("-1 + 2").unwrap(),
        binary(TokenKind::Plus, minus_one, num(2, 5, 6))
    );
    let not_a = (
        Expr::Unary {
            op: TokenKind::Bang,
            rhs: Box::new(name("a", 1, 2)),
        },
        span(0, 2),
    );
    assert_eq!(
        expression("!a * b").unwrap(),
        binary(TokenKind::Star, not_a, name("b", 5, 6))
    );
}

#[test]
fn a_call_binds_tighter_than_unary() {
    let call = (
        Expr::Call {
            callee: Box::new(name("f", 1, 2)),
            args: vec![num(1, 3, 4)],
        },
        span(1, 5),
    );
    assert_eq!(
        expression("-f(1)").unwrap(),
        (
            Expr::Unary {
                op: TokenKind::Minus,
                rhs: Box::new(call)
            },
            span(0, 5)
        )
    );
}

#[test]
fn calls_take_lists_of_arguments() {
    assert_eq!(
        expression("f()").unwrap(),
        (
            Expr::Call {
                callee: Box::new(name("f", 0, 1)),
                args: vec![]
            },
            span(0, 3)
        )
    );
    let inner = (
        Expr::Call {
            callee: Box::new(name("f", 0, 1)),
            args: vec![num(1, 2, 3), name("x", 5, 6)],
        },
        span(0, 8),
    );
    assert_eq!(
        expression("f(1, x,)(2)").unwrap(),
        (
            Expr::Call {
                callee: Box::new(inner),
                args: vec![num(2, 9, 10)]
            },
            span(0, 11)
        )
    );
}

#[test]
fn arrays() {
    assert_eq!(expression("[]").unwrap(), (Expr::Array(vec![]), span(0, 2)));
    assert_eq!(
        expression("[1, 2]").unwrap(),
        (Expr::Array(vec![num(1, 1, 2), num(2, 4, 5)]), span(0, 6))
    );
    assert_eq!(
        expression("[1,]").unwrap(),
        (Expr::Array(vec![num(1, 1, 2)]), span(0, 4))
    );
}

#[test]
fn literals() {
    assert_eq!(expression("42").unwrap(), num(42, 0, 2));
    assert_eq!(
        expression("\"hello\"").unwrap(),
        (
            Expr::Literal(LiteralKind::String("hello".to_string())),
            span(1, 6)
        )
    );
    assert_eq!(
        expression("\"a\\nb\"").unwrap(),
        (
            Expr::Literal(LiteralKind::String("a\\nb".to_string())),
            span(1, 5)
        )
    );
    assert_eq!(
        expression("true").unwrap(),
        (Expr::Literal(LiteralKind::Bool(true)), span(0, 4))
    );
    assert_eq!(
        expression("false").unwrap(),
        (Expr::Literal(LiteralKind::Bool(false)), span(0, 5))
    );
    assert_eq!(expression("foo").unwrap(), name("foo", 0, 3));
}

#[test]
fn the_largest_integer_parses_and_the_next_does_not() {
    assert_eq!(
        expression("9223372036854775807").unwrap(),
        num(i64::MAX, 0, 19)
    );
    assert_error(
        &expression("9223372036854775808").unwrap_err(),
        ErrorKind::Other("Integer literal is out of range.".to_string(), span(0, 19)),
        Some("The largest integer is 9223372036854775807."),
    );
    assert!(expression("1 + 99999999999999999999").is_err());
}

#[test]
fn integer_conversion() {
    assert_eq!(parse_integer("42"), Some(42));
    assert_eq!(parse_integer("0"), Some(0));
    assert_eq!(parse_integer("007"), Some(7));
    assert_eq!(parse_integer("9223372036854775807"), Some(i64::MAX));
    assert_eq!(parse_integer("9223372036854775808"), None);
    assert_eq!(parse_integer("00000000000000000000000000001"), Some(1));
    assert_eq!(parse_integer(""), None);
    assert_eq!(parse_integer("12a"), None);
    assert_eq!(parse_integer("-1"), None);
    assert_eq!(parse_integer("+1"), None);
    assert_eq!(parse_integer("٣"), None);
}

#[test]
fn blocks_hold_statements() {
    let source = "do let x = 1 x end";
    let tree = expression(source).unwrap();
    let first = (
        Statement::Let {
            name: name("x", 7, 8),
            value: num(1, 11, 12),
        },
        span(3, 12),
    );
    let second = (Statement::Expression(name("x", 13, 14)), span(13, 14));
    assert_eq!(tree, (Expr::Block(vec![first, second]), span(0, 18)));
    assert_eq!(expression("do end").unwrap(), (Expr::Block(vec![]), span(0, 6)));
}

#[test]
fn conditionals() {
    let tree = expression("if a do 1 end").unwrap();
    let body = (
        Expr::Block(vec![(Statement::Expression(num(1, 8, 9)), span(8, 9))]),
        span(5, 13),
    );
    assert_eq!(
        tree,
        (
            Expr::If {
                condition: Box::new(name("a", 3, 4)),
                body: Box::new(body),
                else_: Box::new(None),
            },
            span(0, 13)
        )
    );
    let tree = expression("if a do end else do end").unwrap();
    assert_eq!(
        tree,
        (
            Expr::If {
                condition: Box::new(name("a", 3, 4)),
                body: Box::new((Expr::Block(vec![]), span(5, 11))),
                else_: Box::new(Some((Expr::Block(vec![]), span(17, 23)))),
            },
            span(0, 23)
        )
    );
    let nested = expression("if a do end else if b do end else 3").unwrap();
    let inner = (
        Expr::If {
            condition: Box::new(name("b", 20, 21)),
            body: Box::new((Expr::Block(vec![]), span(22, 28))),
            else_: Box::new(Some(num(3, 34, 35))),
        },
        span(17, 35),
    );
    assert_eq!(
        nested,
        (
            Expr::If {
                condition: Box::new(name("a", 3, 4)),
                body: Box::new((Expr::Block(vec![]), span(5, 11))),
                else_: Box::new(Some(inner)),
            },
            span(0, 35)
        )
    );
}

#[test]
fn loops() {
    assert_eq!(
        expression("for i in xs do end").unwrap(),
        (
            Expr::For {
                var: Box::new(name("i", 4, 5)),
                iter: Box::new(name("xs", 9, 11)),
                body: Box::new((Expr::Block(vec![]), span(12, 18))),
            },
            span(0, 18)
        )
    );
    assert_eq!(
        expression("while a < 3 do end").unwrap(),
        (
            Expr::While {
                expr: Box::new(binary(TokenKind::Less, name("a", 6, 7), num(3, 10, 11))),
                body: Box::new((Expr::Block(vec![]), span(12, 18))),
            },
            span(0, 18)
        )
    );
}

#[test]
fn a_for_loop_needs_in() {
    assert_error(
        &expression("for i xs do end").unwrap_err(),
        expected(
            TokenKind::Ident("in".to_string()),
            TokenKind::Ident("xs".to_string()),
            span(6, 8),
        ),
        None,
    );
}

#[test]
fn a_loop_needs_a_block() {
    assert_error(
        &expression("while a 1").unwrap_err(),
        expected(TokenKind::Do, TokenKind::Integer("1".to_string()), span(8, 9)),
        None,
    );
    assert_error(
        &expression("if a").unwrap_err(),
        expected(TokenKind::Do, TokenKind::EoF, span(4, 4)),
        None,
    );
}

#[test]
fn statements() {
    assert_eq!(
        statement("return 1 + 2").unwrap(),
        (
            Statement::Return(binary(TokenKind::Plus, num(1, 7, 8), num(2, 11, 12))),
            span(0, 12)
        )
    );
    assert_eq!(
        statement("let x = 5").unwrap(),
        (
            Statement::Let {
                name: name("x", 4, 5),
                value: num(5, 8, 9)
            },
            span(0, 9)
        )
    );
    assert_eq!(
        statement("f(1)").unwrap(),
        (
            Statement::Expression((
                Expr::Call {
                    callee: Box::new(name("f", 0, 1)),
                    args: vec![num(1, 2, 3)]
                },
                span(0, 4)
            )),
            span(0, 4)
        )
    );
}

#[test]
fn a_let_needs_a_name_and_an_equal_sign() {
    assert_error(
        &statement("let 1 = 2").unwrap_err(),
        ErrorKind::Unexpected(TokenKind::Integer("1".to_string()), span(4, 5)),
        Some("Expected a name."),
    );
    assert_error(
        &statement("let x 2").unwrap_err(),
        expected(
            TokenKind::Equal,
            TokenKind::Integer("2".to_string()),
            span(6, 7),
        ),
        None,
    );
}

#[test]
fn functions() {
    let source = "fun add(a: int, b) -> int do return a + b end";
    let body = (
        Expr::Block(vec![(
            Statement::Return(binary(
                TokenKind::Plus,
                name("a", 36, 37),
                name("b", 40, 41),
            )),
            span(29, 41),
        )]),
        span(26, 45),
    );
    assert_eq!(
        statement(source).unwrap(),
        (
            Statement::Function {
                name: name("add", 4, 7),
                public: false,
                params: vec!["a".to_string(), "b".to_string()],
                annotations: vec![(Annotation::Single("int".to_string()), span(11, 14))],
                return_annotation: Some((Annotation::Single("int".to_string()), span(22, 25))),
                body,
            },
            span(0, 45)
        )
    );
}

#[test]
fn public_functions() {
    assert_eq!(
        statement("fun pub f() do end").unwrap(),
        (
            Statement::Function {
                name: name("f", 8, 9),
                public: true,
                params: vec![],
                annotations: vec![],
                return_annotation: None,
                body: (Expr::Block(vec![]), span(12, 18)),
            },
            span(0, 18)
        )
    );
    assert_eq!(
        statement("fun pub() do end").unwrap(),
        (
            Statement::Function {
                name: name("pub", 4, 7),
                public: false,
                params: vec![],
                annotations: vec![],
                return_annotation: None,
                body: (Expr::Block(vec![]), span(10, 16)),
            },
            span(0, 16)
        )
    );
}

#[test]
fn malformed_functions() {
    assert_error(
        &statement("fun 1() do end").unwrap_err(),
        ErrorKind::Unexpected(TokenKind::Integer("1".to_string()), span(4, 5)),
        Some("Expected a function name."),
    );
    assert_error(
        &statement("fun f do end").unwrap_err(),
        expected(TokenKind::OpenParen, TokenKind::Do, span(6, 8)),
        None,
    );
    assert_error(
        &statement("fun f(1) do end").unwrap_err(),
        ErrorKind::Unexpected(TokenKind::Integer("1".to_string()), span(6, 7)),
        Some("Expected a parameter name."),
    );
    assert_error(
        &statement("fun f(a b) do end").unwrap_err(),
        expected(
            TokenKind::Comma,
            TokenKind::Ident("b".to_string()),
            span(8, 9),
        ),
        Some("Did you forget a comma?"),
    );
    assert_error(
        &statement("fun f(a: ) do end").unwrap_err(),
        ErrorKind::Unexpected(TokenKind::CloseParen, span(9, 10)),
        Some("Expected a type."),
    );
    assert_error(
        &statement("fun f() 1").unwrap_err(),
        expected(TokenKind::Do, TokenKind::Integer("1".to_string()), span(8, 9)),
        None,
    );
}

#[test]
fn annotations() {
    let single = |text: &str| Annotation::Single(text.to_string());
    let parse_one = |source: &str| Parser::new(source, "test").parse_annotation();
    assert_eq!(parse_one("int").unwrap(), (single("int"), span(0, 3)));
    assert_eq!(
        parse_one("(int, bool)").unwrap(),
        (
            Annotation::Tuple(vec![single("int"), single("bool")]),
            span(0, 11)
        )
    );
    assert_eq!(
        parse_one("()").unwrap(),
        (Annotation::Tuple(vec![]), span(0, 2))
    );
    assert_eq!(
        parse_one("[int,]").unwrap(),
        (Annotation::Array(vec![single("int")]), span(0, 6))
    );
    assert_eq!(
        parse_one("fun(int, [bool]) -> fun() -> int").unwrap(),
        (
            Annotation::Function {
                arg_types: vec![single("int"), Annotation::Array(vec![single("bool")])],
                ret_type: Box::new(Annotation::Function {
                    arg_types: vec![],
                    ret_type: Box::new(single("int")),
                }),
            },
            span(0, 32)
        )
    );
    assert_error(
        &parse_one("fun int").unwrap_err(),
        expected(
            TokenKind::OpenParen,
            TokenKind::Ident("int".to_string()),
            span(4, 7),
        ),
        None,
    );
    assert_error(
        &parse_one("fun() int").unwrap_err(),
        expected(
            TokenKind::Arrow,
            TokenKind::Ident("int".to_string()),
            span(6, 9),
        ),
        None,
    );
    assert_error(
        &parse_one("(int bool)").unwrap_err(),
        expected(
            TokenKind::Comma,
            TokenKind::Ident("bool".to_string()),
            span(5, 9),
        ),
        Some("Did you forget a comma?"),
    );
}

#[test]
fn a_missing_closer_is_an_error_with_advice() {
    assert_error(
        &expression("(1 2").unwrap_err(),
        expected(
            TokenKind::CloseParen,
            TokenKind::Integer("2".to_string()),
            span(3, 4),
        ),
        Some("Expeted to find a closing parenthesis."),
    );
    assert_error(
        &expression("(1, 2 3)").unwrap_err(),
        expected(
            TokenKind::Comma,
            TokenKind::Integer("3".to_string()),
            span(6, 7),
        ),
        Some("Did you forget a comma?"),
    );
    assert_error(
        &expression("[1 2]").unwrap_err(),
        expected(
            TokenKind::Comma,
            TokenKind::Integer("2".to_string()),
            span(3, 4),
        ),
        Some("Did you forget a comma?"),
    );
    assert_error(
        &expression("do 1").unwrap_err(),
        expected(TokenKind::End, TokenKind::EoF, span(4, 4)),
        Some("Did you forget an `end`?"),
    );
}

#[test]
fn a_token_that_starts_nothing_is_unexpected() {
    assert_error(
        &expression(")").unwrap_err(),
        ErrorKind::Unexpected(TokenKind::CloseParen, span(0, 1)),
        None,
    );
    assert_error(
        &expression("1 + ").unwrap_err(),
        ErrorKind::Unexpected(TokenKind::EoF, span(4, 4)),
        None,
    );
    assert_error(
        &expression("").unwrap_err(),
        ErrorKind::Unexpected(TokenKind::EoF, span(0, 0)),
        None,
    );
    assert_error(
        &expression("type").unwrap_err(),
        ErrorKind::Unexpected(TokenKind::Type, span(0, 4)),
        None,
    );
}

#[test]
fn lexical_errors_surface_as_unexpected_tokens() {
    assert_error(
        &expression("1 + $").unwrap_err(),
        ErrorKind::Unexpected(
            TokenKind::Error("Unknown character $".to_string()),
            span(4, 5),
        ),
        None,
    );
    assert_error(
        &expression("\"abc").unwrap_err(),
        ErrorKind::Unexpected(
            TokenKind::Error(
                "Unterminated string literal. Expected closing quote, instead found EoF (End of File)"
                    .to_string(),
            ),
            span(1, 4),
        ),
        None,
    );
}

#[test]
fn an_expression_stops_before_what_it_cannot_take() {
    let mut parser = Parser::new("1 + 2 3", "test");
    assert_eq!(
        parser.parse_expression(1).unwrap(),
        binary(TokenKind::Plus, num(1, 0, 1), num(2, 4, 5))
    );
    assert_eq!(parser.parse_expression(1).unwrap(), num(3, 6, 7));
    assert!(parser.parse_expression(1).is_err());
}

#[test]
fn the_minimum_precedence_bounds_the_operators_taken() {
    let mut parser = Parser::new("1 * 2 + 3", "test");
    assert_eq!(
        parser.parse_expression(7).unwrap(),
        binary(TokenKind::Star, num(1, 0, 1), num(2, 4, 5))
    );
    let mut parser = Parser::new("1 + 2", "test");
    assert_eq!(parser.parse_expression(8).unwrap(), num(1, 0, 1));
}

#[test]
fn recovery_keeps_the_statement_between_two_errors() {
    let mut parser = Parser::new("let = 1 let x = 2 let y = ", "test");
    let program = parser.parse_program();
    assert_eq!(
        program.statements,
        vec![(
            Statement::Let {
                name: name("x", 12, 13),
                value: num(2, 16, 17)
            },
            span(8, 17)
        )]
    );
    assert_eq!(program.errors.len(), 2);
    assert_error(
        &program.errors[0],
        ErrorKind::Unexpected(TokenKind::Equal, span(4, 5)),
        Some("Expected a name."),
    );
    assert_error(
        &program.errors[1],
        ErrorKind::Unexpected(TokenKind::EoF, span(26, 26)),
        None,
    );
}

#[test]
fn one_broken_statement_gives_one_error() {
    let mut parser = Parser::new("1 + ) ) ) 2 3 return 4", "test");
    let program = parser.parse_program();
    assert_eq!(program.errors.len(), 1);
    assert_error(
        &program.errors[0],
        ErrorKind::Unexpected(TokenKind::CloseParen, span(4, 5)),
        None,
    );
    assert_eq!(
        program.statements,
        vec![(Statement::Return(num(4, 21, 22)), span(14, 22))]
    );
}

#[test]
fn a_program_is_a_sequence_of_statements() {
    let program = parse("let x = 1\nx = x + 1\nreturn x", "main.alp").unwrap();
    assert_eq!(program.len(), 3);
    assert_eq!(
        program[2],
        (Statement::Return(name("x", 27, 28)), span(20, 28))
    );
    assert_eq!(parse("", "empty").unwrap(), vec![]);
    assert_eq!(parse(" # nothing\n", "empty").unwrap(), vec![]);
}

#[test]
fn a_program_with_errors_gives_the_errors() {
    let errors = parse("let x = )\nlet y = (1", "main.alp").unwrap_err();
    assert_eq!(errors.len(), 2);
    assert_error(
        &errors[0],
        ErrorKind::Unexpected(TokenKind::CloseParen, span(8, 9)),
        None,
    );
    assert_error(
        &errors[1],
        expected(TokenKind::CloseParen, TokenKind::EoF, span(20, 20)),
        Some("Expeted to find a closing parenthesis."),
    );
    let errors = parse("let x = \nlet y = (1", "main.alp").unwrap_err();
    assert_eq!(errors.len(), 2);
    assert_error(
        &errors[0],
        ErrorKind::Unexpected(TokenKind::Let, span(9, 12)),
        None,
    );
    assert_error(
        &errors[1],
        expected(TokenKind::CloseParen, TokenKind::EoF, span(19, 19)),
        Some("Expeted to find a closing parenthesis."),
    );
}

#[test]
fn errors_are_built_and_given_advice() {
    let error = ParserError::new(ErrorKind::Unclosed(TokenKind::OpenParen, span(1, 2)), None);
    assert_error(
        &error,
        ErrorKind::Unclosed(TokenKind::OpenParen, span(1, 2)),
        None,
    );
    assert_eq!(error.kind().span(), span(1, 2));
    let error = error.with_help("close it".to_string());
    assert_error(
        &error,
        ErrorKind::Unclosed(TokenKind::OpenParen, span(1, 2)),
        Some("close it"),
    );
    let error = error.with_help("really".to_string());
    assert_eq!(error.help().map(|h| h.as_str()), Some("really"));
    let error = ParserError::new(
        ErrorKind::Other("m".to_string(), span(0, 0)),
        Some("h".to_string()),
    );
    assert_error(&error, ErrorKind::Other("m".to_string(), span(0, 0)), Some("h"));
}

#[test]
fn the_parser_keeps_its_source_and_name() {
    let parser = Parser::new("1 + 2", "main.alp");
    assert_eq!(parser.source(), "1 + 2");
    assert_eq!(parser.filename(), "main.alp");
}

fn inside(inner: Span, outer: Span) -> bool {
    outer.start <= inner.start && inner.start <= inner.end && inner.end <= outer.end
}

fn check_expression(e: &E) {
    assert!(e.1.start <= e.1.end);
    let mut children: Vec<&E> = Vec::new();
    match &e.0 {
        Expr::Literal(_) | Expr::Ident(_) => {}
        Expr::Tuple(items) | Expr::Array(items) => children.extend(items.iter()),
        Expr::Unary { rhs, .. } => children.push(rhs),
        Expr::Binary { lhs, rhs, .. } => {
            children.push(lhs);
            children.push(rhs);
        }
        Expr::Call { callee, args } => {
            children.push(callee);
            children.extend(args.iter());
        }
        Expr::Assignment { name, value } => {
            children.push(name);
            children.push(value);
        }
        Expr::Block(statements) => {
            for s in statements {
                assert!(inside(s.1, e.1));
                check_statement(s);
            }
        }
        Expr::If {
            condition,
            body,
            else_,
        } => {
            children.push(condition);
            children.push(body);
            if let Some(other) = else_.as_ref() {
                children.push(other);
            }
        }
        Expr::For { var, iter, body } => {
            children.push(var);
            children.push(iter);
            children.push(body);
        }
        Expr::While { expr, body } => {
            children.push(expr);
            children.push(body);
        }
    }
    for child in children {
        assert!(inside(child.1, e.1), "{:?} not inside {:?}", child.1, e.1);
        check_expression(child);
    }
}

fn check_statement(s: &(Statement, Span)) {
    assert!(s.1.start <= s.1.end);
    match &s.0 {
        Statement::Expression(e) | Statement::Return(e) => {
            assert!(inside(e.1, s.1));
            check_expression(e);
        }
        Statement::Let { name, value } => {
            assert!(inside(name.1, s.1) && inside(value.1, s.1));
            check_expression(name);
            check_expression(value);
        }
        Statement::Function {
            name,
            annotations,
            return_annotation,
            body,
            ..
        } => {
            assert!(inside(name.1, s.1) && inside(body.1, s.1));
            for a in annotations {
                assert!(inside(a.1, s.1));
            }
            if let Some(a) = return_annotation {
                assert!(inside(a.1, s.1));
            }
            check_expression(body);
        }
    }
}

#[test]
fn spans_of_children_lie_within_their_parents() {
    let source = "fun pub área(xs: [int], f: fun(int) -> int) -> (int, int) do
    let total = 0  # running sum
    for x in xs do
        if f(x) >= 10 and !(x == 3) do total = total + -x * 2 end else do total = (total) end
    end
    while total > 100 do total = total / [1, 2, (3, 4,)](0) end
    return (total, \"größe\")
end
let y = área([1, 2], g)";
    let program = parse(source, "main.alp").unwrap();
    assert_eq!(program.len(), 2);
    for statement in &program {
        assert!(statement.1.end <= source.len());
        assert!(source.is_char_boundary(statement.1.start));
        assert!(source.is_char_boundary(statement.1.end));
        check_statement(statement);
    }
    assert_eq!(program[0].1, span(0, source.find("\nlet y").unwrap()));
    assert_eq!(&source[program[1].1.start..program[1].1.end], "let y = área([1, 2], g)");
}

#[test]
fn a_block_in_a_block() {
    assert_eq!(
        expression("do do end end").unwrap(),
        (
            Expr::Block(vec![(
                Statement::Expression((Expr::Block(vec![]), span(3, 9))),
                span(3, 9)
            )]),
            span(0, 13)
        )
    );
}

#[test]
fn an_error_in_a_block_ends_the_block() {
    assert_error(
        &expression("do let = 1 end").unwrap_err(),
        ErrorKind::Unexpected(TokenKind::Equal, span(7, 8)),
        Some("Expected a name."),
    );
    assert_error(
        &expression("do ) end").unwrap_err(),
        ErrorKind::Unexpected(TokenKind::CloseParen, span(3, 4)),
        None,
    );
}

#[test]
fn deep_nesting() {
    let depth = 200;
    let source = format!("{}1{}", "(".repeat(depth), ")".repeat(depth));
    assert_eq!(expression(&source).unwrap(), num(1, depth, depth + 1));
    let source = format!("{}1", "-".repeat(depth));
    let mut tree = expression(&source).unwrap();
    for i in 0..depth {
        assert_eq!(tree.1, span(i, depth + 1));
        tree = match tree.0 {
            Expr::Unary { op, rhs } => {
                assert_eq!(op, TokenKind::Minus);
                *rhs
            }
            other => panic!("{:?}", other),
        };
    }
    assert_eq!(tree, num(1, depth, depth + 1));
}

#[test]
fn a_statement_that_breaks_off_does_not_take_the_next_one() {
    let mut parser = Parser::new("let x = \nlet y = 2\nlet z = ", "test");
    let program = parser.parse_program();
    assert_eq!(
        program.statements,
        vec![(
            Statement::Let {
                name: name("y", 13, 14),
                value: num(2, 17, 18)
            },
            span(9, 18)
        )]
    );
    assert_eq!(program.errors.len(), 2);
    assert_error(
        &program.errors[0],
        ErrorKind::Unexpected(TokenKind::Let, span(9, 12)),
        None,
    );
    assert_error(
        &program.errors[1],
        ErrorKind::Unexpected(TokenKind::EoF, span(27, 27)),
        None,
    );
}

#[test]
fn an_unexpected_token_is_not_taken() {
    let mut parser = Parser::new(") 1", "test");
    assert_error(
        &parser.parse_expression(1).unwrap_err(),
        ErrorKind::Unexpected(TokenKind::CloseParen, span(0, 1)),
        None,
    );
    assert_error(
        &parser.parse_statement().unwrap_err(),
        ErrorKind::Unexpected(TokenKind::CloseParen, span(0, 1)),
        None,
    );
    let program = parser.parse_program();
    assert_eq!(program.errors.len(), 1);
    assert_eq!(program.statements, vec![]);
}

#[test]
fn stray_tokens_between_statements_give_one_error() {
    let mut parser = Parser::new("let a = 1 ) ] , let b = 2", "test");
    let program = parser.parse_program();
    assert_eq!(program.statements.len(), 2);
    assert_eq!(program.errors.len(), 1);
    assert_error(
        &program.errors[0],
        ErrorKind::Unexpected(TokenKind::CloseParen, span(10, 11)),
        None,
    );
}
