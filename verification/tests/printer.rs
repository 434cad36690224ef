use pratt_front::ast::{Expr, Item, Lit, Stmt, Type};
use pratt_front::parser::expr::Operator;
use pratt_front::parser::Parser;
use pratt_front::printer::{print, print_expr, print_item, print_stmt, print_type};
use pratt_front::token::TokenKind;

fn text(bytes: Vec<u8>) -> String {
    String::from_utf8(bytes).expect("UTF-8")
}

fn number(value: usize) -> Expr {
    Expr::Literal(Lit::Int(value))
}

fn name(text: &str) -> Expr {
    Expr::Ident(text.to_string())
}

fn infix(op: TokenKind, lhs: Expr, rhs: Expr) -> Expr {
    Expr::InfixOp { op, lhs: Box::new(lhs), rhs: Box::new(rhs) }
}

fn ty(name: &str, generics: Vec<Type>) -> Type {
    Type { name: name.to_string(), generics }
}

fn written(e: &Expr) -> String {
    let mut out = Vec::new();
    print_expr(e, &mut out);
    text(out)
}

fn sample() -> Vec<Item> {
    let condition = infix(
        TokenKind::And,
        infix(TokenKind::Leq, name("a"), number(10)),
        Expr::PrefixOp { op: TokenKind::Bang, operand: Box::new(name("done")) },
    );
    let call = Expr::FnCall {
        name: "max".to_string(),
        args: vec![
            name("a"),
            Expr::PostfixOp { op: TokenKind::Bang, operand: Box::new(number(3)) },
            Expr::Literal(Lit::Str("x \\\" y é".to_string())),
        ],
    };
    let body = vec![
        Stmt::Let { var_name: "x".to_string(), value: call },
        Stmt::IfStmt {
            condition,
            body: vec![Stmt::Assignment {
                var_name: "x".to_string(),
                value: infix(
                    TokenKind::Caret,
                    Expr::Literal(Lit::Float("1.5e3".to_string())),
                    Expr::PrefixOp { op: TokenKind::Minus, operand: Box::new(number(2)) },
                ),
            }],
            else_branch: Some(Box::new(Stmt::IfStmt {
                condition: name("b"),
                body: vec![],
                else_branch: Some(Box::new(Stmt::Block {
                    stmts: vec![Stmt::Block { stmts: vec![] }],
                })),
            })),
        },
        Stmt::Assignment {
            var_name: "y".to_string(),
            value: Expr::FnCall { name: "f".to_string(), args: vec![] },
        },
    ];
    vec![
        Item::Struct {
            name: ty("Pair", vec![ty("A", vec![]), ty("List", vec![ty("B", vec![])])]),
            members: vec![
                ("first".to_string(), ty("A", vec![])),
                ("second".to_string(), ty("List", vec![ty("B", vec![])])),
            ],
        },
        Item::Struct { name: ty("Unit", vec![]), members: vec![] },
        Item::Function {
            name: "run".to_string(),
            parameters: vec![
                ("a".to_string(), ty("Int", vec![])),
                ("b".to_string(), ty("Map", vec![ty("K", vec![]), ty("V", vec![])])),
            ],
            body,
        },
        Item::Function { name: "idle".to_string(), parameters: vec![], body: vec![] },
    ]
}

#[test]
fn the_canonical_form_of_expressions() {
    assert_eq!(written(&number(0)), "0 ");
    assert_eq!(written(&number(1203)), "1203 ");
    assert_eq!(written(&number(usize::MAX)), format!("{} ", usize::MAX));
    assert_eq!(written(&name("abc")), "abc ");
    assert_eq!(written(&Expr::Literal(Lit::Float("1.5".to_string()))), "1.5 ");
    assert_eq!(written(&Expr::Literal(Lit::Str("hi".to_string()))), "\"hi\" ");
    assert_eq!(
        written(&infix(TokenKind::Plus, number(1), infix(TokenKind::Times, number(2), number(3)))),
        "( 1 ) + ( ( 2 ) * ( 3 ) ) "
    );
    assert_eq!(
        written(&Expr::PrefixOp { op: TokenKind::Minus, operand: Box::new(name("a")) }),
        "- ( a ) "
    );
    assert_eq!(
        written(&Expr::PostfixOp { op: TokenKind::Bang, operand: Box::new(name("a")) }),
        "( a ) ! "
    );
    assert_eq!(
        written(&Expr::FnCall { name: "f".to_string(), args: vec![name("a"), number(1)] }),
        "f ( a , 1 ) "
    );
    assert_eq!(written(&Expr::FnCall { name: "f".to_string(), args: vec![] }), "f ( ) ");
    assert_eq!(written(&infix(TokenKind::Neq, name("a"), name("b"))), "( a ) != ( b ) ");
    assert_eq!(written(&infix(TokenKind::Or, name("a"), name("b"))), "( a ) || ( b ) ");
}

#[test]
fn the_canonical_form_of_types_statements_and_items() {
    let mut out = Vec::new();
    print_type(&ty("Map", vec![ty("K", vec![]), ty("List", vec![ty("V", vec![])])]), &mut out);
    assert_eq!(text(out), "Map < K , List < V > > ");
    let mut out = Vec::new();
    print_stmt(&Stmt::Let { var_name: "x".to_string(), value: number(5) }, &mut out);
    assert_eq!(text(out), "let x = 5 ; ");
    let mut out = Vec::new();
    print_stmt(
        &Stmt::IfStmt {
            condition: name("a"),
            body: vec![Stmt::Assignment { var_name: "x".to_string(), value: number(1) }],
            else_branch: Some(Box::new(Stmt::Block { stmts: vec![] })),
        },
        &mut out,
    );
    assert_eq!(text(out), "if ( a ) { x = 1 ; } else { } ");
    let mut out = Vec::new();
    print_item(
        &Item::Function {
            name: "f".to_string(),
            parameters: vec![("a".to_string(), ty("Int", vec![]))],
            body: vec![Stmt::Let { var_name: "x".to_string(), value: name("a") }],
        },
        &mut out,
    );
    assert_eq!(text(out), "fn f ( a : Int ) { let x = a ; } ");
    let mut out = Vec::new();
    print_item(
        &Item::Struct {
            name: ty("P", vec![]),
            members: vec![
                ("x".to_string(), ty("Int", vec![])),
                ("y".to_string(), ty("Int", vec![])),
            ],
        },
        &mut out,
    );
    assert_eq!(text(out), "struct P { x : Int , y : Int } ");
    assert_eq!(print(&vec![]), Vec::<u8>::new());
}

#[test]
fn the_canonical_text_of_a_tree_parses_to_the_tree() {
    let items = sample();
    let canonical = text(print(&items));
    let (parsed, errors) = Parser::parse_with_errors(&canonical);
    assert_eq!(errors, vec![]);
    assert_eq!(parsed, items);
    assert_eq!(text(print(&parsed)), canonical);
}

#[test]
fn the_canonical_text_of_a_parsed_tree_parses_to_the_same_tree() {
    let source = "struct S<T> { a: T }\n\
                  fn f(x: Int, y: S<Int>) {\n\
                      let z = -x! + 2 * (y - 1) ^ 2 ^ f(x, \"s\");\n\
                      if (z <= 3 || z <> 4 && !z) { z = 1.5e-3; } else if (z) { } else { { } }\n\
                  }";
    let (first, errors) = Parser::parse_with_errors(source);
    assert_eq!(errors, vec![]);
    let canonical = text(print(&first));
    let (second, errors) = Parser::parse_with_errors(&canonical);
    assert_eq!(errors, vec![]);
    assert_eq!(second, first);
}

#[test]
fn an_error_node_has_no_written_form() {
    let (items, errors) = Parser::parse_with_errors("fn f() { ? } ?");
    assert_eq!(errors.len(), 2);
    assert_eq!(text(print(&items)), "fn f ( ) { } ");
}

#[test]
fn every_expression_has_its_tree_back() {
    let operators = [
        TokenKind::Or,
        TokenKind::And,
        TokenKind::Eqq,
        TokenKind::Neq,
        TokenKind::LAngle,
        TokenKind::RAngle,
        TokenKind::Leq,
        TokenKind::Geq,
        TokenKind::Plus,
        TokenKind::Minus,
        TokenKind::Times,
        TokenKind::Slash,
        TokenKind::Caret,
    ];
    for first in operators {
        for second in operators {
            for tree in [
                infix(first, name("a"), infix(second, name("b"), name("c"))),
                infix(second, infix(first, name("a"), name("b")), name("c")),
            ] {
                let canonical = written(&tree);
                let mut parser = Parser::new(&canonical);
                assert_eq!(parser.expression(), Ok(tree));
                assert!(parser.errors().is_empty());
            }
        }
    }
}

#[test]
fn binding_powers_decide_which_operator_takes_the_operand_between_two() {
    let operators = [
        (TokenKind::Or, "||"),
        (TokenKind::And, "&&"),
        (TokenKind::Eqq, "=="),
        (TokenKind::Neq, "!="),
        (TokenKind::LAngle, "<"),
        (TokenKind::RAngle, ">"),
        (TokenKind::Leq, "<="),
        (TokenKind::Geq, ">="),
        (TokenKind::Plus, "+"),
        (TokenKind::Minus, "-"),
        (TokenKind::Times, "*"),
        (TokenKind::Slash, "/"),
        (TokenKind::Caret, "^"),
    ];
    for (first, first_text) in operators {
        for (second, second_text) in operators {
            let source = format!("a {} b {} c", first_text, second_text);
            let (_, right) = first.infix_binding_power().expect("infix");
            let (left, _) = second.infix_binding_power().expect("infix");
            let expected = if right < left {
                infix(first, name("a"), infix(second, name("b"), name("c")))
            } else {
                infix(second, infix(first, name("a"), name("b")), name("c"))
            };
            let mut parser = Parser::new(&source);
            assert_eq!(parser.expression(), Ok(expected));
        }
    }
}

#[test]
fn a_copy_of_a_tree_equals_the_tree() {
    let items = sample();
    let copies: Vec<Item> = items.iter().map(|item| item.clone()).collect();
    assert_eq!(copies, items);
    let (with_errors, _) = Parser::parse_with_errors("fn f() { ? } fn (");
    let copies: Vec<Item> = with_errors.iter().map(|item| item.clone()).collect();
    assert_eq!(copies, with_errors);
}
