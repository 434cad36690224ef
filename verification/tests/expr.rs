use pratt_front::ast::{Expr, Lit};
use pratt_front::error::Error;
use pratt_front::parser::expr::Operator;
use pratt_front::parser::Parser;
use pratt_front::token::{Span, TokenKind};

fn parse(input: &str) -> Expr {
    let mut parser = Parser::new(input);
    let expr = parser.expression().expect("an expression");
    assert!(parser.errors().is_empty());
    expr
}

fn fail(input: &str) -> (Error, Vec<Error>) {
    let mut parser = Parser::new(input);
    let error = parser.expression().expect_err("no expression");
    (error, parser.into_errors())
}

fn num(value: usize) -> Expr {
    Expr::Literal(Lit::Int(value))
}

fn name(text: &str) -> Expr {
    Expr::Ident(text.to_string())
}

fn infix(op: TokenKind, lhs: Expr, rhs: Expr) -> Expr {
    Expr::InfixOp { op, lhs: Box::new(lhs), rhs: Box::new(rhs) }
}

fn prefix(op: TokenKind, operand: Expr) -> Expr {
    Expr::PrefixOp { op, operand: Box::new(operand) }
}

fn postfix(op: TokenKind, operand: Expr) -> Expr {
    Expr::PostfixOp { op, operand: Box::new(operand) }
}

#[test]
fn multiplication_binds_tighter_than_addition() {
    assert_eq!(
        parse("1+2*3"),
        infix(TokenKind::Plus, num(1), infix(TokenKind::Times, num(2), num(3)))
    );
    assert_eq!(
        parse("1*2+3"),
        infix(TokenKind::Plus, infix(TokenKind::Times, num(1), num(2)), num(3))
    );
}

#[test]
fn power_associates_to_the_right() {
    assert_eq!(
        parse("2^3^2"),
        infix(TokenKind::Caret, num(2), infix(TokenKind::Caret, num(3), num(2)))
    );
}

#[test]
fn postfix_binds_tighter_than_prefix() {
    // The operand of `-` is read at power 51, and `!` binds at 101.
    assert_eq!(
        parse("-a!"),
        prefix(TokenKind::Minus, postfix(TokenKind::Bang, name("a")))
    );
    assert_eq!(
        parse("(-a)!"),
        postfix(TokenKind::Bang, prefix(TokenKind::Minus, name("a")))
    );
}

#[test]
fn binary_operators_associate_to_the_left() {
    assert_eq!(
        parse("1-2-3"),
        infix(TokenKind::Minus, infix(TokenKind::Minus, num(1), num(2)), num(3))
    );
    assert_eq!(
        parse("8/4/2"),
        infix(TokenKind::Slash, infix(TokenKind::Slash, num(8), num(4)), num(2))
    );
}

#[test]
fn the_levels_of_precedence() {
    // a || b && c == d < e + f * g
    let product = infix(TokenKind::Times, name("f"), name("g"));
    let sum = infix(TokenKind::Plus, name("e"), product);
    let less = infix(TokenKind::LAngle, name("d"), sum);
    let equal = infix(TokenKind::Eqq, name("c"), less);
    let and = infix(TokenKind::And, name("b"), equal);
    assert_eq!(parse("a || b && c == d < e + f * g"), infix(TokenKind::Or, name("a"), and));
    assert_eq!(
        parse("a <> b"),
        infix(TokenKind::Neq, name("a"), name("b"))
    );
    assert_eq!(
        parse("a >= b != c <= d"),
        infix(
            TokenKind::Neq,
            infix(TokenKind::Geq, name("a"), name("b")),
            infix(TokenKind::Leq, name("c"), name("d"))
        )
    );
}

#[test]
fn prefix_binds_tighter_than_any_infix_operator() {
    assert_eq!(
        parse("-a*b"),
        infix(TokenKind::Times, prefix(TokenKind::Minus, name("a")), name("b"))
    );
    assert_eq!(
        parse("-a^b"),
        infix(TokenKind::Caret, prefix(TokenKind::Minus, name("a")), name("b"))
    );
    assert_eq!(
        parse("!+-a"),
        prefix(TokenKind::Bang, prefix(TokenKind::Plus, prefix(TokenKind::Minus, name("a"))))
    );
    assert_eq!(
        parse("a - -b"),
        infix(TokenKind::Minus, name("a"), prefix(TokenKind::Minus, name("b")))
    );
}

#[test]
fn postfix_operators_stack() {
    assert_eq!(
        parse("a!!"),
        postfix(TokenKind::Bang, postfix(TokenKind::Bang, name("a")))
    );
    assert_eq!(
        parse("a! + b"),
        infix(TokenKind::Plus, postfix(TokenKind::Bang, name("a")), name("b"))
    );
    assert_eq!(
        parse("a ^ b!"),
        infix(TokenKind::Caret, name("a"), postfix(TokenKind::Bang, name("b")))
    );
}

#[test]
fn a_group_leaves_no_node() {
    assert_eq!(
        parse("(1+2)*3"),
        infix(TokenKind::Times, infix(TokenKind::Plus, num(1), num(2)), num(3))
    );
    assert_eq!(parse("((a))"), name("a"));
    assert_eq!(
        parse("(2^3)^2"),
        infix(TokenKind::Caret, infix(TokenKind::Caret, num(2), num(3)), num(2))
    );
}

#[test]
fn literals() {
    assert_eq!(parse("0"), num(0));
    assert_eq!(parse("007"), num(7));
    assert_eq!(parse("18446744073709551615"), num(18446744073709551615));
    assert_eq!(parse("1.5"), Expr::Literal(Lit::Float("1.5".to_string())));
    assert_eq!(parse(".5e-3"), Expr::Literal(Lit::Float(".5e-3".to_string())));
    assert_eq!(parse(r#""hi""#), Expr::Literal(Lit::Str("hi".to_string())));
    assert_eq!(parse(r#""""#), Expr::Literal(Lit::Str(String::new())));
    assert_eq!(parse(r#""a\"b""#), Expr::Literal(Lit::Str(r#"a\"b"#.to_string())));
    assert_eq!(parse("\"é\""), Expr::Literal(Lit::Str("é".to_string())));
}

#[test]
fn calls() {
    assert_eq!(parse("f()"), Expr::FnCall { name: "f".to_string(), args: vec![] });
    assert_eq!(
        parse("f(a, 1+2)"),
        Expr::FnCall {
            name: "f".to_string(),
            args: vec![name("a"), infix(TokenKind::Plus, num(1), num(2))]
        }
    );
    assert_eq!(
        parse("f(a,)"),
        Expr::FnCall { name: "f".to_string(), args: vec![name("a")] }
    );
    assert_eq!(
        parse("f(g(x))!"),
        postfix(
            TokenKind::Bang,
            Expr::FnCall {
                name: "f".to_string(),
                args: vec![Expr::FnCall { name: "g".to_string(), args: vec![name("x")] }]
            }
        )
    );
}

#[test]
fn an_expression_ends_before_a_terminator() {
    for input in ["a+b;", "a+b)", "a+b}", "a+b,", "a+b"] {
        let mut parser = Parser::new(input);
        assert_eq!(
            parser.expression(),
            Ok(infix(TokenKind::Plus, name("a"), name("b")))
        );
        assert_eq!(parser.span(), Span { start: 2, end: 3 });
        assert!(parser.errors().is_empty());
    }
}

#[test]
fn an_operator_that_binds_too_loosely_stays_behind_the_cursor() {
    let mut parser = Parser::new("a*b+c");
    assert_eq!(
        parser.parse_expression(10),
        Ok(infix(TokenKind::Times, name("a"), name("b")))
    );
    assert_eq!(parser.peek(), TokenKind::Plus);
    let mut parser = Parser::new("a!");
    assert_eq!(parser.parse_expression(102), Ok(name("a")));
    assert_eq!(parser.peek(), TokenKind::Bang);
    let mut parser = Parser::new("a^b");
    assert_eq!(
        parser.parse_expression(22),
        Ok(infix(TokenKind::Caret, name("a"), name("b")))
    );
    let mut parser = Parser::new("a^b");
    assert_eq!(parser.parse_expression(23), Ok(name("a")));
}

#[test]
fn a_token_that_starts_no_expression_is_an_error() {
    let (error, recorded) = fail(";");
    assert_eq!(
        error,
        Error::new(
            "Unknown start of expression: `;`".to_string(),
            "E004".to_string(),
            Span { start: 0, end: 1 }
        )
    );
    assert_eq!(recorded, vec![error]);
    let (error, _) = fail("");
    assert_eq!(error.message, "Unknown start of expression: `<EOF>`");
    assert_eq!(error.span, Span { start: 0, end: 0 });
    let (error, _) = fail("1 + * 2");
    assert_eq!(error.message, "Unknown start of expression: `*`");
    assert_eq!(error.span, Span { start: 4, end: 5 });
    let (error, _) = fail("f(,)");
    assert_eq!(error.message, "Unknown start of expression: `,`");
}

#[test]
fn a_token_that_is_no_operator_is_an_error_and_stays() {
    let mut parser = Parser::new("a b");
    let error = parser.expression().expect_err("no expression");
    assert_eq!(
        error,
        Error::new(
            "Unknown operator: `an identifier`".to_string(),
            "E005".to_string(),
            Span { start: 2, end: 3 }
        )
    );
    assert_eq!(parser.peek(), TokenKind::Ident);
    assert_eq!(parser.errors(), &vec![error]);
    let (error, _) = fail("a = b");
    assert_eq!(error.message, "Unknown operator: `=`");
    let (error, _) = fail("f(a b)");
    assert_eq!(error.message, "Unknown operator: `an identifier`");
    let (error, _) = fail("a @");
    assert_eq!(error.message, "Unknown operator: `<?>`");
}

#[test]
fn an_integer_that_does_not_fit_is_an_error() {
    let (error, recorded) = fail("99999999999999999999999999");
    assert_eq!(
        error,
        Error::new(
            "Invalid integer literal: `99999999999999999999999999`".to_string(),
            "E006".to_string(),
            Span { start: 0, end: 26 }
        )
    );
    assert_eq!(recorded.len(), 1);
    let (error, _) = fail("1 + 18446744073709551616");
    assert_eq!(error.code, "E006");
}

#[test]
fn a_missing_parenthesis_is_recorded_and_the_expression_stands() {
    let mut parser = Parser::new("(a + b");
    assert_eq!(
        parser.expression(),
        Ok(infix(TokenKind::Plus, name("a"), name("b")))
    );
    assert_eq!(
        parser.errors(),
        &vec![Error::new(
            "Expected to consume ) but got <EOF>".to_string(),
            "E001".to_string(),
            Span { start: 6, end: 6 }
        )]
    );
    let mut parser = Parser::new("(a; ;");
    assert_eq!(parser.expression(), Ok(name("a")));
    assert_eq!(
        parser.errors(),
        &vec![Error::new(
            "Expected to consume ) but got ;".to_string(),
            "E001".to_string(),
            Span { start: 2, end: 3 }
        )]
    );
    assert_eq!(parser.peek(), TokenKind::SemiColon);
}

#[test]
fn a_call_that_is_not_closed_is_an_error() {
    let (error, recorded) = fail("f(a;");
    assert_eq!(error.message, "Unknown start of expression: `;`");
    assert_eq!(recorded, vec![error]);
    let (error, _) = fail("f(a");
    assert_eq!(error.message, "Unknown start of expression: `<EOF>`");
    assert_eq!(error.span, Span { start: 3, end: 3 });
}

#[test]
fn binding_powers() {
    assert_eq!(TokenKind::Or.infix_binding_power(), Some((1, 2)));
    assert_eq!(TokenKind::And.infix_binding_power(), Some((3, 4)));
    assert_eq!(TokenKind::Eqq.infix_binding_power(), Some((5, 6)));
    assert_eq!(TokenKind::Neq.infix_binding_power(), Some((5, 6)));
    for op in [TokenKind::LAngle, TokenKind::RAngle, TokenKind::Leq, TokenKind::Geq] {
        assert_eq!(op.infix_binding_power(), Some((7, 8)));
    }
    assert_eq!(TokenKind::Plus.infix_binding_power(), Some((9, 10)));
    assert_eq!(TokenKind::Minus.infix_binding_power(), Some((9, 10)));
    assert_eq!(TokenKind::Times.infix_binding_power(), Some((11, 12)));
    assert_eq!(TokenKind::Slash.infix_binding_power(), Some((11, 12)));
    assert_eq!(TokenKind::Caret.infix_binding_power(), Some((22, 21)));
    assert_eq!(TokenKind::Bang.infix_binding_power(), None);
    assert_eq!(TokenKind::Ident.infix_binding_power(), None);
    for op in [TokenKind::Plus, TokenKind::Minus, TokenKind::Bang] {
        assert_eq!(op.prefix_binding_power(), ((), 51));
    }
    assert_eq!(TokenKind::Bang.postfix_binding_power(), Some((101, ())));
    assert_eq!(TokenKind::Plus.postfix_binding_power(), None);
}
