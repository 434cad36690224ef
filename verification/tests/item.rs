use pratt_front::ast::{Expr, Item, Lit, Stmt, Type};
use pratt_front::error::Error;
use pratt_front::parser::Parser;
use pratt_front::token::{Span, TokenKind};

fn ty(name: &str) -> Type {
    Type { name: name.to_string(), generics: vec![] }
}

fn generic(name: &str, generics: Vec<Type>) -> Type {
    Type { name: name.to_string(), generics }
}

fn field(name: &str, ty: Type) -> (String, Type) {
    (name.to_string(), ty)
}

fn e001(message: &str, start: usize, end: usize) -> Error {
    Error::new(message.to_string(), "E001".to_string(), Span { start, end })
}

fn function(name: &str, parameters: Vec<(String, Type)>, body: Vec<Stmt>) -> Item {
    Item::Function { name: name.to_string(), parameters, body }
}

#[test]
fn a_function_with_one_parameter_and_one_statement() {
    let (items, errors) = Parser::parse_with_errors("fn f(a: Int) { let x = a; }");
    assert_eq!(
        items,
        vec![function(
            "f",
            vec![field("a", ty("Int"))],
            vec![Stmt::Let { var_name: "x".to_string(), value: Expr::Ident("a".to_string()) }]
        )]
    );
    assert_eq!(errors, vec![]);
    assert_eq!(Parser::parse("fn f(a: Int) { let x = a; }"), items);
}

#[test]
fn a_malformed_item_leaves_its_neighbours_alone() {
    let input = "fn f(a: Int) { let x = a; } fn (b: Int) { let y = b; } fn g() { }";
    let (items, errors) = Parser::parse_with_errors(input);
    let error = e001("Expected identifier as function name, but found `(`", 31, 32);
    assert_eq!(
        items,
        vec![
            function(
                "f",
                vec![field("a", ty("Int"))],
                vec![Stmt::Let { var_name: "x".to_string(), value: Expr::Ident("a".to_string()) }]
            ),
            Item::Error(error.clone()),
            function("g", vec![], vec![]),
        ]
    );
    assert_eq!(errors, vec![error]);
}

#[test]
fn a_struct() {
    let (items, errors) = Parser::parse_with_errors("struct Point { x: Int, y: Int }");
    assert_eq!(
        items,
        vec![Item::Struct {
            name: ty("Point"),
            members: vec![field("x", ty("Int")), field("y", ty("Int"))]
        }]
    );
    assert_eq!(errors, vec![]);
    let (items, errors) =
        Parser::parse_with_errors("struct Pair<A, B> { first: A, second: List<B>, }");
    assert_eq!(
        items,
        vec![Item::Struct {
            name: generic("Pair", vec![ty("A"), ty("B")]),
            members: vec![
                field("first", ty("A")),
                field("second", generic("List", vec![ty("B")]))
            ]
        }]
    );
    assert_eq!(errors, vec![]);
    assert_eq!(
        Parser::parse("struct Unit { }"),
        vec![Item::Struct { name: ty("Unit"), members: vec![] }]
    );
}

#[test]
fn types() {
    let mut parser = Parser::new("Int");
    assert_eq!(parser.type_(), ty("Int"));
    let mut parser = Parser::new("List<Int>");
    assert_eq!(parser.type_(), generic("List", vec![ty("Int")]));
    let mut parser = Parser::new("Map<K, List<V>>");
    assert_eq!(
        parser.type_(),
        generic("Map", vec![ty("K"), generic("List", vec![ty("V")])])
    );
    assert!(parser.errors().is_empty());
    let mut parser = Parser::new("List< >");
    assert_eq!(parser.type_(), ty("List"));
    assert!(parser.errors().is_empty());
    let mut parser = Parser::new("List<A,> x");
    assert_eq!(parser.type_(), generic("List", vec![ty("A")]));
    assert_eq!(parser.peek(), TokenKind::Ident);
}

#[test]
fn a_type_without_a_name_is_recorded_and_takes_the_text() {
    let mut parser = Parser::new("5<Int>");
    assert_eq!(parser.type_(), generic("5", vec![ty("Int")]));
    assert_eq!(
        parser.errors(),
        &vec![e001("Expected identifier as start of type, but found `an integer literal`", 0, 1)]
    );
    let mut parser = Parser::new("");
    assert_eq!(parser.type_(), ty(""));
    assert_eq!(
        parser.errors(),
        &vec![e001("Expected identifier as start of type, but found `<EOF>`", 0, 0)]
    );
}

#[test]
fn generics_that_are_not_closed_end_with_the_input() {
    let mut parser = Parser::new("List<Int");
    assert_eq!(parser.type_(), generic("List", vec![ty("Int")]));
    assert_eq!(parser.errors(), &vec![e001("Expected to consume > but got <EOF>", 8, 8)]);
}

#[test]
fn several_items() {
    let input = "struct A { } // first\nfn f() { }\nstruct B { b: A }";
    let (items, errors) = Parser::parse_with_errors(input);
    assert_eq!(
        items,
        vec![
            Item::Struct { name: ty("A"), members: vec![] },
            function("f", vec![], vec![]),
            Item::Struct { name: ty("B"), members: vec![field("b", ty("A"))] },
        ]
    );
    assert_eq!(errors, vec![]);
    assert_eq!(Parser::parse(""), vec![]);
    assert_eq!(Parser::parse("  // nothing\n"), vec![]);
}

#[test]
fn a_token_that_starts_no_item_is_skipped_up_to_the_next_item() {
    let (items, errors) = Parser::parse_with_errors("x = 1; fn f() { }");
    let error = Error::new(
        "Unknown start of item: `an identifier`".to_string(),
        "E003".to_string(),
        Span { start: 0, end: 1 },
    );
    assert_eq!(items, vec![Item::Error(error.clone()), function("f", vec![], vec![])]);
    assert_eq!(errors, vec![error]);
    let (items, errors) = Parser::parse_with_errors("; ; ;");
    assert_eq!(items.len(), 1);
    assert_eq!(errors.len(), 1);
    assert_eq!(errors[0].message, "Unknown start of item: `;`");
}

#[test]
fn a_function_wants_a_block() {
    let (items, errors) = Parser::parse_with_errors("fn f() x struct S { }");
    let error = e001("Expected a block after function header, but found `an identifier`", 7, 8);
    assert_eq!(
        items,
        vec![Item::Error(error.clone()), Item::Struct { name: ty("S"), members: vec![] }]
    );
    assert_eq!(errors, vec![error]);
    let (items, errors) = Parser::parse_with_errors("fn f()");
    let error = e001("Expected a block after function header, but found `<EOF>`", 6, 6);
    assert_eq!(items, vec![Item::Error(error.clone())]);
    assert_eq!(errors, vec![error]);
}

#[test]
fn a_keyword_where_the_function_name_belongs_starts_the_next_item() {
    let (items, errors) = Parser::parse_with_errors("fn fn g() { }");
    let error = e001("Expected identifier as function name, but found `fn`", 3, 5);
    assert_eq!(items, vec![Item::Error(error.clone()), function("g", vec![], vec![])]);
    assert_eq!(errors, vec![error]);
}

#[test]
fn a_parameter_without_a_name_is_recorded_and_takes_the_text() {
    let (items, errors) = Parser::parse_with_errors("fn f(1: Int, b: Int) { }");
    assert_eq!(
        items,
        vec![function("f", vec![field("1", ty("Int")), field("b", ty("Int"))], vec![])]
    );
    assert_eq!(
        errors,
        vec![e001(
            "Expected identifier as function parameter, but found `an integer literal`",
            5,
            6
        )]
    );
    let (items, errors) = Parser::parse_with_errors("struct S { 1: Int }");
    assert_eq!(
        items,
        vec![Item::Struct { name: ty("S"), members: vec![field("1", ty("Int"))] }]
    );
    assert_eq!(
        errors,
        vec![e001("Expected identifier as struct member, but found `an integer literal`", 11, 12)]
    );
}

#[test]
fn a_missing_colon_is_recorded() {
    let (items, errors) = Parser::parse_with_errors("fn f(a Int) { }");
    assert_eq!(items.len(), 1);
    assert_eq!(errors[0], e001("Expected to consume : but got an identifier", 7, 10));
}

#[test]
fn a_bad_statement_stays_inside_its_function() {
    let (items, errors) = Parser::parse_with_errors("fn f() { let x = ; } fn g() { }");
    let first = Error::new(
        "Unknown start of expression: `;`".to_string(),
        "E004".to_string(),
        Span { start: 17, end: 18 },
    );
    let second = Error::new(
        "Unknown start of statement ;".to_string(),
        "E002".to_string(),
        Span { start: 17, end: 18 },
    );
    assert_eq!(
        items,
        vec![
            function(
                "f",
                vec![],
                vec![Stmt::Error(first.clone()), Stmt::Error(second.clone())]
            ),
            function("g", vec![], vec![]),
        ]
    );
    assert_eq!(errors, vec![first, second]);
}

#[test]
fn diagnostics_come_in_source_order() {
    let (_, errors) = Parser::parse_with_errors("fn f(1: 2) { let 3 = 4 } ?");
    let starts: Vec<usize> = errors.iter().map(|e| e.span.start).collect();
    assert_eq!(starts, vec![5, 8, 17, 23, 25, 26]);
    assert_eq!(errors[4].code, "E002");
    assert_eq!(errors[5].message, "Expected to consume } but got <EOF>");
}

#[test]
fn a_float_keeps_its_text() {
    let items = Parser::parse("fn f() { x = 1.50; }");
    assert_eq!(
        items,
        vec![function(
            "f",
            vec![],
            vec![Stmt::Assignment {
                var_name: "x".to_string(),
                value: Expr::Literal(Lit::Float("1.50".to_string()))
            }]
        )]
    );
}

#[test]
fn file_goes_on_from_where_the_cursor_stands() {
    let mut parser = Parser::new("fn f() { } struct S { }");
    assert_eq!(parser.item(), function("f", vec![], vec![]));
    assert_eq!(parser.file(), vec![Item::Struct { name: ty("S"), members: vec![] }]);
    assert_eq!(parser.file(), vec![]);
    assert!(parser.errors().is_empty());
}

#[test]
fn an_error_copies_itself() {
    let error = e001("m", 1, 2);
    let copy = error.clone();
    assert_eq!(copy, error);
    assert_eq!(copy.message, "m");
    assert_eq!(copy.code, "E001");
    assert_eq!(copy.span, Span { start: 1, end: 2 });
    let list = generic("List", vec![ty("Int")]);
    assert_eq!(list.clone(), list);
}
