use pratt_front::ast::{Expr, Lit, Stmt};
use pratt_front::error::Error;
use pratt_front::parser::Parser;
use pratt_front::token::{Span, TokenKind};

fn statement(input: &str) -> (Stmt, Vec<Error>) {
    let mut parser = Parser::new(input);
    let stmt = parser.statement();
    (stmt, parser.into_errors())
}

fn clean(input: &str) -> Stmt {
    let (stmt, errors) = statement(input);
    assert_eq!(errors, vec![]);
    stmt
}

fn number(value: usize) -> Expr {
    Expr::Literal(Lit::Int(value))
}

fn name(text: &str) -> Expr {
    Expr::Ident(text.to_string())
}

fn let_(var_name: &str, value: Expr) -> Stmt {
    Stmt::Let { var_name: var_name.to_string(), value }
}

fn assign(var_name: &str, value: Expr) -> Stmt {
    Stmt::Assignment { var_name: var_name.to_string(), value }
}

fn e001(message: &str, start: usize, end: usize) -> Error {
    Error::new(message.to_string(), "E001".to_string(), Span { start, end })
}

#[test]
fn a_let_statement() {
    assert_eq!(clean("let x = 5;"), let_("x", number(5)));
    assert_eq!(
        clean("let total = a + 1;"),
        let_(
            "total",
            Expr::InfixOp {
                op: TokenKind::Plus,
                lhs: Box::new(name("a")),
                rhs: Box::new(number(1))
            }
        )
    );
}

#[test]
fn an_assignment() {
    assert_eq!(clean("x = y;"), assign("x", name("y")));
    assert_eq!(
        clean("x = f(1);"),
        assign("x", Expr::FnCall { name: "f".to_string(), args: vec![number(1)] })
    );
}

#[test]
fn a_block() {
    assert_eq!(clean("{}"), Stmt::Block { stmts: vec![] });
    assert_eq!(
        clean("{ let x = 1; x = 2; { } }"),
        Stmt::Block {
            stmts: vec![
                let_("x", number(1)),
                assign("x", number(2)),
                Stmt::Block { stmts: vec![] }
            ]
        }
    );
}

#[test]
fn an_if_statement() {
    assert_eq!(
        clean("if (a) { x = 1; }"),
        Stmt::IfStmt {
            condition: name("a"),
            body: vec![assign("x", number(1))],
            else_branch: None
        }
    );
    assert_eq!(
        clean("if (a) { } else { x = 1; }"),
        Stmt::IfStmt {
            condition: name("a"),
            body: vec![],
            else_branch: Some(Box::new(Stmt::Block { stmts: vec![assign("x", number(1))] }))
        }
    );
    assert_eq!(
        clean("if (a) { } else if (b) { } else { }"),
        Stmt::IfStmt {
            condition: name("a"),
            body: vec![],
            else_branch: Some(Box::new(Stmt::IfStmt {
                condition: name("b"),
                body: vec![],
                else_branch: Some(Box::new(Stmt::Block { stmts: vec![] }))
            }))
        }
    );
}

#[test]
fn a_statement_stops_behind_itself() {
    let mut parser = Parser::new("let x = 5; y = 1;");
    assert_eq!(parser.statement(), let_("x", number(5)));
    assert_eq!(parser.span(), Span { start: 9, end: 10 });
    assert_eq!(parser.text(), ";");
    assert_eq!(parser.statement(), assign("y", number(1)));
    assert_eq!(parser.next(), None);
    assert!(parser.errors().is_empty());
}

#[test]
fn a_let_without_a_name_takes_the_text_of_the_token() {
    let (stmt, errors) = statement("let 5 = 1;");
    assert_eq!(stmt, let_("5", number(1)));
    assert_eq!(
        errors,
        vec![e001("Expected identifier after `let`, but found `an integer literal`", 4, 5)]
    );
}

#[test]
fn a_missing_semicolon_is_recorded_and_the_statement_stands() {
    let (stmt, errors) = statement("let x = 5");
    assert_eq!(stmt, let_("x", number(5)));
    assert_eq!(errors, vec![e001("Expected to consume ; but got <EOF>", 9, 9)]);
    let (stmt, errors) = statement("x = 5 }");
    assert_eq!(stmt, assign("x", number(5)));
    assert_eq!(errors, vec![e001("Expected to consume ; but got }", 6, 7)]);
}

#[test]
fn a_missing_equals_sign_is_recorded() {
    let (stmt, errors) = statement("let x 5;");
    assert_eq!(
        stmt,
        Stmt::Error(Error::new(
            "Unknown start of expression: `;`".to_string(),
            "E004".to_string(),
            Span { start: 7, end: 8 }
        ))
    );
    assert_eq!(errors.len(), 2);
    assert_eq!(errors[0], e001("Expected to consume = but got an integer literal", 6, 7));
}

#[test]
fn a_failed_expression_leaves_an_error_statement() {
    let (stmt, errors) = statement("let x = ;");
    let error = Error::new(
        "Unknown start of expression: `;`".to_string(),
        "E004".to_string(),
        Span { start: 8, end: 9 },
    );
    assert_eq!(stmt, Stmt::Error(error.clone()));
    assert_eq!(errors, vec![error]);
    let (stmt, errors) = statement("x = a b;");
    let error = Error::new(
        "Unknown operator: `an identifier`".to_string(),
        "E005".to_string(),
        Span { start: 6, end: 7 },
    );
    assert_eq!(stmt, Stmt::Error(error.clone()));
    assert_eq!(errors, vec![error]);
}

#[test]
fn a_token_that_starts_no_statement_is_consumed() {
    let mut parser = Parser::new(") x = 1;");
    let error = Error::new(
        "Unknown start of statement )".to_string(),
        "E002".to_string(),
        Span { start: 0, end: 1 },
    );
    assert_eq!(parser.statement(), Stmt::Error(error.clone()));
    assert_eq!(parser.errors(), &vec![error]);
    assert_eq!(parser.statement(), assign("x", number(1)));
}

#[test]
fn the_end_of_input_starts_no_statement() {
    let mut parser = Parser::new(" ");
    let error = Error::new(
        "Unknown start of statement <EOF>".to_string(),
        "E002".to_string(),
        Span { start: 1, end: 1 },
    );
    assert_eq!(parser.statement(), Stmt::Error(error.clone()));
    assert_eq!(parser.statement(), Stmt::Error(error.clone()));
    assert_eq!(parser.errors(), &vec![error.clone(), error]);
}

#[test]
fn an_if_wants_a_block() {
    let (stmt, errors) = statement("if (a) x = 1;");
    let error = e001("Expected a block after `if` statement, but found `an identifier`", 7, 8);
    assert_eq!(stmt, Stmt::Error(error.clone()));
    assert_eq!(errors, vec![error]);
}

#[test]
fn an_else_wants_an_if_or_a_block() {
    let (stmt, errors) = statement("if (a) { } else x = 1;");
    let error = e001(
        "Expected a block or an `if` after `else` statement, but found `an identifier`",
        16,
        17,
    );
    assert_eq!(
        stmt,
        Stmt::IfStmt {
            condition: name("a"),
            body: vec![],
            else_branch: Some(Box::new(Stmt::Error(error.clone())))
        }
    );
    assert_eq!(errors, vec![error]);
}

#[test]
fn a_bad_statement_stays_inside_its_block() {
    let (stmt, errors) = statement("{ let x = 1; ) y = 2; }");
    let error = Error::new(
        "Unknown start of statement )".to_string(),
        "E002".to_string(),
        Span { start: 13, end: 14 },
    );
    assert_eq!(
        stmt,
        Stmt::Block {
            stmts: vec![let_("x", number(1)), Stmt::Error(error.clone()), assign("y", number(2))]
        }
    );
    assert_eq!(errors, vec![error]);
}

#[test]
fn a_block_that_is_not_closed_ends_with_the_input() {
    let (stmt, errors) = statement("{ x = 1;");
    assert_eq!(stmt, Stmt::Block { stmts: vec![assign("x", number(1))] });
    assert_eq!(errors, vec![e001("Expected to consume } but got <EOF>", 8, 8)]);
}

#[test]
fn consume_takes_one_token_and_records_a_mismatch() {
    let mut parser = Parser::new("a ; b");
    assert_eq!(parser.consume(TokenKind::Ident), Ok(()));
    assert!(parser.errors().is_empty());
    let error = e001("Expected to consume = but got ;", 2, 3);
    assert_eq!(parser.consume(TokenKind::Eq), Err(error.clone()));
    assert_eq!(parser.errors(), &vec![error]);
    assert_eq!(parser.consume_stmt(TokenKind::Ident), None);
    let error = e001("Expected to consume ; but got <EOF>", 5, 5);
    assert_eq!(parser.consume_stmt(TokenKind::SemiColon), Some(Stmt::Error(error.clone())));
    assert_eq!(parser.errors().len(), 2);
    assert_eq!(parser.errors()[1], error);
}

#[test]
fn the_cursor_of_the_parser() {
    let mut parser = Parser::new("fn f");
    assert_eq!(parser.span(), Span { start: 0, end: 0 });
    assert_eq!(parser.text(), "");
    assert!(parser.at(TokenKind::KwFn));
    assert_eq!(parser.peek(), TokenKind::KwFn);
    assert_eq!(parser.peek_span(), Span { start: 0, end: 2 });
    assert_eq!(parser.next(), Some(TokenKind::KwFn));
    assert_eq!(parser.next(), Some(TokenKind::Ident));
    assert_eq!(parser.text(), "f");
    assert_eq!(parser.span(), Span { start: 3, end: 4 });
    assert_eq!(parser.next(), None);
    assert_eq!(parser.span(), Span { start: 4, end: 4 });
    assert_eq!(parser.next(), None);
    assert_eq!(parser.peek(), TokenKind::EOF);
    assert_eq!(parser.peek_span(), Span { start: 4, end: 4 });
}
