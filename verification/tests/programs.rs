use pratt_front::ast::{Item, Stmt};
use pratt_front::parser::Parser;

fn clean_stmt(stmt: &Stmt) -> bool {
    match stmt {
        Stmt::Let { .. } | Stmt::Assignment { .. } => true,
        Stmt::IfStmt { body, else_branch, .. } => {
            body.iter().all(clean_stmt) && else_branch.iter().all(|branch| clean_stmt(branch))
        }
        Stmt::Block { stmts } => stmts.iter().all(clean_stmt),
        Stmt::Error(_) => false,
    }
}

fn clean_item(item: &Item) -> bool {
    match item {
        Item::Struct { .. } => true,
        Item::Function { body, .. } => body.iter().all(clean_stmt),
        Item::Error(_) => false,
    }
}

#[test]
fn valid_programs_parse_without_error_nodes_and_diagnostics() {
    let programs = [
        "",
        "struct Empty { }",
        "fn main() { }",
        "fn f(a: Int) { let x = a; }",
        "struct Point { x: Float, y: Float }\nfn norm(p: Point) { let n = p; }",
        "fn f(a: List<Int>, b: Map<K, List<V>>,) { a = b; }",
        "fn g() { if (a < b) { a = b; } else if (a == b) { } else { b = a; } }",
        "fn h() { { { let deep = ((((1)))); } } }",
        "fn k() { x = f(g(1, 2), h(), \"s\",) + -3 ^ !b! * 2.5e10 / .5; }",
        "// a comment only\nfn c() { } // and one more",
        "fn l() { let a = 1 || 2 && 3 == 4 != 5 < 6 > 7 <= 8 >= 9 + 10 - 11 * 12 / 13 ^ 14; }",
    ];
    for program in programs {
        let (items, errors) = Parser::parse_with_errors(program);
        assert_eq!(errors, vec![], "{}", program);
        assert!(items.iter().all(clean_item), "{}", program);
    }
}

#[test]
fn programs_outside_the_grammar_leave_a_diagnostic() {
    let programs = [
        "fn",
        "fn f",
        "fn f(",
        "fn f() {",
        "fn f() { let }",
        "fn f() { let x = 1 }",
        "fn f() { x 1; }",
        "fn f() { if a { } }",
        "fn f() { if (a) b = 1; }",
        "fn f() { if (a) { } else b = 1; }",
        "fn f() { x = 1 + ; }",
        "fn f() { x = (1; }",
        "fn f() { x = f(1; }",
        "fn f() { x = 1 2; }",
        "fn f() { x = 99999999999999999999999999; }",
        "fn f(a) { }",
        "fn f(a: ) { }",
        "fn f(a: List<Int) { }",
        "struct { }",
        "struct S { a }",
        "struct S { a: Int",
        "let x = 1;",
        "fn f() { } }",
        "fn f() { @ }",
    ];
    for program in programs {
        let (items, errors) = Parser::parse_with_errors(program);
        assert!(!errors.is_empty(), "{}", program);
        assert!(!items.is_empty(), "{}", program);
    }
}
