use pratt_front::lexer::Lexer;
use pratt_front::scan::{scan_raw, scan_token};
use pratt_front::token::{Span, Token, TokenKind};

fn kinds(input: &str) -> Vec<TokenKind> {
    let mut lexer = Lexer::new(input);
    let mut found = Vec::new();
    loop {
        let kind = lexer.next();
        if kind == TokenKind::EOF {
            return found;
        }
        found.push(kind);
    }
}

fn spans(input: &str) -> Vec<(TokenKind, usize, usize)> {
    let mut lexer = Lexer::new(input);
    let mut found = Vec::new();
    loop {
        let kind = lexer.next();
        let span = lexer.span();
        if kind == TokenKind::EOF {
            return found;
        }
        found.push((kind, span.start, span.end));
    }
}

#[test]
fn digits_are_an_int_and_never_a_float() {
    let mut lexer = Lexer::new("123");
    assert_eq!(lexer.next(), TokenKind::Int);
    assert_eq!(lexer.span(), Span { start: 0, end: 3 });
    assert_eq!(lexer.text(), "123");
    assert_eq!(lexer.next(), TokenKind::EOF);
    assert_eq!(kinds("123"), vec![TokenKind::Int]);
}

#[test]
fn floats_take_a_fraction_or_an_exponent() {
    assert_eq!(spans("1.5"), vec![(TokenKind::Float, 0, 3)]);
    assert_eq!(spans(".5"), vec![(TokenKind::Float, 0, 2)]);
    assert_eq!(spans("1e5"), vec![(TokenKind::Float, 0, 3)]);
    assert_eq!(spans("1.25E-10"), vec![(TokenKind::Float, 0, 8)]);
    assert_eq!(spans("2e+3"), vec![(TokenKind::Float, 0, 4)]);
}

#[test]
fn a_number_ends_where_the_float_rule_stops() {
    assert_eq!(spans("1."), vec![(TokenKind::Int, 0, 1), (TokenKind::Dot, 1, 2)]);
    assert_eq!(spans("1e"), vec![(TokenKind::Int, 0, 1), (TokenKind::Ident, 1, 2)]);
    assert_eq!(
        spans("1e+"),
        vec![(TokenKind::Int, 0, 1), (TokenKind::Ident, 1, 2), (TokenKind::Plus, 2, 3)]
    );
    assert_eq!(spans("1.5.5"), vec![(TokenKind::Float, 0, 3), (TokenKind::Float, 3, 5)]);
}

#[test]
fn end_of_input_is_the_empty_span_at_the_end_and_stays() {
    let mut lexer = Lexer::new("ab ");
    assert_eq!(lexer.span(), Span { start: 0, end: 0 });
    assert_eq!(lexer.next(), TokenKind::Ident);
    assert_eq!(lexer.next(), TokenKind::EOF);
    assert_eq!(lexer.span(), Span { start: 3, end: 3 });
    assert_eq!(lexer.next(), TokenKind::EOF);
    assert_eq!(lexer.next(), TokenKind::EOF);
    assert_eq!(lexer.span(), Span { start: 3, end: 3 });
    assert_eq!(lexer.text(), "");
}

#[test]
fn empty_input_is_end_of_input() {
    let mut lexer = Lexer::new("");
    assert_eq!(lexer.peek(), TokenKind::EOF);
    assert_eq!(lexer.next(), TokenKind::EOF);
    assert_eq!(lexer.span(), Span { start: 0, end: 0 });
}

#[test]
fn peek_is_repeatable_and_consumes_nothing() {
    let mut lexer = Lexer::new("let x");
    assert_eq!(lexer.peek(), TokenKind::KwLet);
    assert_eq!(lexer.peek(), TokenKind::KwLet);
    assert!(lexer.at(TokenKind::KwLet));
    assert!(!lexer.at(TokenKind::Ident));
    assert_eq!(lexer.span(), Span { start: 0, end: 0 });
    assert_eq!(
        lexer.peek_token(),
        Token { kind: TokenKind::KwLet, span: Span { start: 0, end: 3 } }
    );
    assert_eq!(lexer.next(), TokenKind::KwLet);
    assert_eq!(lexer.peek(), TokenKind::Ident);
    assert_eq!(lexer.span(), Span { start: 0, end: 3 });
    assert_eq!(lexer.next(), TokenKind::Ident);
    assert_eq!(lexer.text(), "x");
}

#[test]
fn keywords_are_whole_words() {
    assert_eq!(
        kinds("let if else fn struct"),
        vec![
            TokenKind::KwLet,
            TokenKind::KwIf,
            TokenKind::KwElse,
            TokenKind::KwFn,
            TokenKind::KwStruct
        ]
    );
    assert_eq!(
        kinds("lets iff elsewhere fnord structs Let"),
        vec![TokenKind::Ident; 6]
    );
    assert_eq!(kinds("a_b1 Z9"), vec![TokenKind::Ident, TokenKind::Ident]);
    assert_eq!(kinds("_x"), vec![TokenKind::Under, TokenKind::Ident]);
}

#[test]
fn punctuation_and_operators() {
    assert_eq!(
        kinds(". : , ; ^ = _ + - * / !"),
        vec![
            TokenKind::Dot,
            TokenKind::Colon,
            TokenKind::Comma,
            TokenKind::SemiColon,
            TokenKind::Caret,
            TokenKind::Eq,
            TokenKind::Under,
            TokenKind::Plus,
            TokenKind::Minus,
            TokenKind::Times,
            TokenKind::Slash,
            TokenKind::Bang
        ]
    );
    assert_eq!(
        kinds("&& || == != <> <= >= < >"),
        vec![
            TokenKind::And,
            TokenKind::Or,
            TokenKind::Eqq,
            TokenKind::Neq,
            TokenKind::Neq,
            TokenKind::Leq,
            TokenKind::Geq,
            TokenKind::LAngle,
            TokenKind::RAngle
        ]
    );
    assert_eq!(
        kinds("()[]{}"),
        vec![
            TokenKind::LParen,
            TokenKind::RParen,
            TokenKind::LSquare,
            TokenKind::RSquare,
            TokenKind::LBrace,
            TokenKind::RBrace
        ]
    );
}

#[test]
fn the_longest_operator_wins() {
    assert_eq!(spans("==="), vec![(TokenKind::Eqq, 0, 2), (TokenKind::Eq, 2, 3)]);
    assert_eq!(spans("!=="), vec![(TokenKind::Neq, 0, 2), (TokenKind::Eq, 2, 3)]);
    assert_eq!(spans(">>"), vec![(TokenKind::RAngle, 0, 1), (TokenKind::RAngle, 1, 2)]);
    assert_eq!(spans("a<=b"), vec![
        (TokenKind::Ident, 0, 1),
        (TokenKind::Leq, 1, 3),
        (TokenKind::Ident, 3, 4)
    ]);
}

#[test]
fn string_literals_keep_their_quotes_in_the_span() {
    assert_eq!(spans(r#""abc""#), vec![(TokenKind::String, 0, 5)]);
    assert_eq!(spans(r#""""#), vec![(TokenKind::String, 0, 2)]);
    assert_eq!(spans(r#""a\"b""#), vec![(TokenKind::String, 0, 6)]);
    assert_eq!(spans(r#""a\\""#), vec![(TokenKind::String, 0, 5)]);
    assert_eq!(
        spans(r#""a" "b""#),
        vec![(TokenKind::String, 0, 3), (TokenKind::String, 4, 7)]
    );
    let mut lexer = Lexer::new(r#""a\"b""#);
    assert_eq!(lexer.next(), TokenKind::String);
    assert_eq!(lexer.text(), r#""a\"b""#);
    assert_eq!(lexer.unquoted(), r#"a\"b"#);
}

#[test]
fn a_string_that_is_not_closed_is_an_error_token() {
    assert_eq!(
        spans(r#""abc"#),
        vec![(TokenKind::Error, 0, 1), (TokenKind::Ident, 1, 4)]
    );
    assert_eq!(
        spans(r#""a\n""#),
        vec![
            (TokenKind::Error, 0, 1),
            (TokenKind::Ident, 1, 2),
            (TokenKind::Error, 2, 3),
            (TokenKind::Ident, 3, 4),
            (TokenKind::Error, 4, 5)
        ]
    );
}

#[test]
fn whitespace_and_comments_are_skipped() {
    assert_eq!(
        spans("  a // note ; b\n\t b"),
        vec![(TokenKind::Ident, 2, 3), (TokenKind::Ident, 18, 19)]
    );
    assert_eq!(kinds("// only a comment"), vec![]);
    assert_eq!(kinds(" \t\r\n\x0c"), vec![]);
    assert_eq!(spans("a/b"), vec![
        (TokenKind::Ident, 0, 1),
        (TokenKind::Slash, 1, 2),
        (TokenKind::Ident, 2, 3)
    ]);
}

#[test]
fn the_scanner_hands_out_whitespace_and_comments() {
    assert_eq!(scan_raw("  a".as_bytes(), 0), (TokenKind::Whitespace, 2));
    assert_eq!(scan_raw("// c\nx".as_bytes(), 0), (TokenKind::Comment, 4));
    assert_eq!(scan_raw("// c\nx".as_bytes(), 4), (TokenKind::Whitespace, 5));
    assert_eq!(
        scan_token("// c\nx".as_bytes(), 0),
        Token { kind: TokenKind::Ident, span: Span { start: 5, end: 6 } }
    );
    assert_eq!(
        scan_token("x".as_bytes(), 1),
        Token { kind: TokenKind::EOF, span: Span { start: 1, end: 1 } }
    );
}

#[test]
fn input_that_matches_no_rule_is_an_error_token_of_one_character() {
    assert_eq!(spans("@"), vec![(TokenKind::Error, 0, 1)]);
    assert_eq!(spans("a & b"), vec![
        (TokenKind::Ident, 0, 1),
        (TokenKind::Error, 2, 3),
        (TokenKind::Ident, 4, 5)
    ]);
    assert_eq!(spans("|"), vec![(TokenKind::Error, 0, 1)]);
    assert_eq!(spans("é"), vec![(TokenKind::Error, 0, 2)]);
    assert_eq!(spans("€x"), vec![(TokenKind::Error, 0, 3), (TokenKind::Ident, 3, 4)]);
    assert_eq!(spans("😀😀"), vec![(TokenKind::Error, 0, 4), (TokenKind::Error, 4, 8)]);
    let mut lexer = Lexer::new("a€");
    lexer.next();
    assert_eq!(lexer.next(), TokenKind::Error);
    assert_eq!(lexer.text(), "€");
}

#[test]
fn strings_and_comments_may_hold_any_character() {
    assert_eq!(spans("\"é€\" x"), vec![(TokenKind::String, 0, 7), (TokenKind::Ident, 8, 9)]);
    let mut lexer = Lexer::new("\"é€\"");
    assert_eq!(lexer.next(), TokenKind::String);
    assert_eq!(lexer.unquoted(), "é€");
    assert_eq!(kinds("// é€\nx"), vec![TokenKind::Ident]);
}

#[test]
fn kinds_have_their_text_for_messages() {
    assert_eq!(TokenKind::EOF.as_str(), "<EOF>");
    assert_eq!(TokenKind::Ident.as_str(), "an identifier");
    assert_eq!(TokenKind::Dot.as_str(), ".");
    assert_eq!(TokenKind::Neq.as_str(), "!=");
    assert_eq!(TokenKind::KwStruct.as_str(), "struct");
    assert_eq!(TokenKind::Int.as_str(), "an integer literal");
}
