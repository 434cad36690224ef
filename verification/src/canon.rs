//! The canonical written form of a syntax tree: which trees have one,
//! the tokens that spell a tree, and the text that the tokens make.
//!
//! In the canonical form every operand of an operator stands in
//! parentheses, list elements are separated by commas, and every token is
//! followed by one blank.

use crate::ast::{ExprView, ItemView, LitView, StmtView, TypeView};
use crate::model::{infix_power, postfix_power, prefix_power};
use crate::scan::{
    has_digit, is_alpha, is_digit, number_token, string_end, word_kind, ByteClass, AMPERSAND, BANG,
    BLANK, CARET, COLON, COMMA, DIGIT_0, DOT, EQUALS, GREATER, LBRACE, LESS, LOWER_C, LOWER_E,
    LOWER_F, LOWER_I, LOWER_L, LOWER_N, LOWER_R, LOWER_S, LOWER_T, LOWER_U, LPAREN, MINUS, PIPE,
    PLUS, QUOTE, RBRACE, RPAREN, SEMICOLON, SLASH, STAR,
};
use crate::stream::Lexeme;
use crate::token::TokenKind;
use vstd::prelude::*;
use vstd::utf8::encode_utf8;

verus! {

/// A token as it is written: its kind and its bytes.
pub struct Piece {
    pub kind: TokenKind,
    pub text: Seq<u8>,
}

/// The kind and the bytes of a token of a stream.
pub open spec fn piece_of(l: Lexeme) -> Piece {
    Piece { kind: l.kind, text: l.text }
}

/// How a keyword, an operator or a punctuation mark is written. The
/// kinds that have no one written form have the empty one here.
pub open spec fn spelling(kind: TokenKind) -> Seq<u8> {
    match kind {
        TokenKind::Colon => seq![COLON],
        TokenKind::Comma => seq![COMMA],
        TokenKind::SemiColon => seq![SEMICOLON],
        TokenKind::Caret => seq![CARET],
        TokenKind::Eq => seq![EQUALS],
        TokenKind::Plus => seq![PLUS],
        TokenKind::Minus => seq![MINUS],
        TokenKind::Times => seq![STAR],
        TokenKind::Slash => seq![SLASH],
        TokenKind::Bang => seq![BANG],
        TokenKind::And => seq![AMPERSAND, AMPERSAND],
        TokenKind::Or => seq![PIPE, PIPE],
        TokenKind::Eqq => seq![EQUALS, EQUALS],
        TokenKind::Neq => seq![BANG, EQUALS],
        TokenKind::Leq => seq![LESS, EQUALS],
        TokenKind::Geq => seq![GREATER, EQUALS],
        TokenKind::LAngle => seq![LESS],
        TokenKind::RAngle => seq![GREATER],
        TokenKind::LParen => seq![LPAREN],
        TokenKind::RParen => seq![RPAREN],
        TokenKind::LBrace => seq![LBRACE],
        TokenKind::RBrace => seq![RBRACE],
        TokenKind::KwLet => seq![LOWER_L, LOWER_E, LOWER_T],
        TokenKind::KwIf => seq![LOWER_I, LOWER_F],
        TokenKind::KwElse => seq![LOWER_E, LOWER_L, LOWER_S, LOWER_E],
        TokenKind::KwFn => seq![LOWER_F, LOWER_N],
        TokenKind::KwStruct => seq![LOWER_S, LOWER_T, LOWER_R, LOWER_U, LOWER_C, LOWER_T],
        _ => Seq::empty(),
    }
}

/// The piece of a keyword, an operator or a punctuation mark.
pub open spec fn mark(kind: TokenKind) -> Piece {
    Piece { kind, text: spelling(kind) }
}

/// The piece of a name.
pub open spec fn word(name: Seq<char>) -> Piece {
    Piece { kind: TokenKind::Ident, text: encode_utf8(name) }
}

/// The digits of a number in base ten, without leading zeros.
pub open spec fn digits(n: nat) -> Seq<u8>
    decreases n,
{
    if n < 10 {
        seq![(DIGIT_0 + n) as u8]
    } else {
        digits(n / 10).push((DIGIT_0 + n % 10) as u8)
    }
}

// Which trees have a canonical form

/// A name is an identifier that is no keyword.
pub open spec fn valid_name(name: Seq<char>) -> bool {
    let text = encode_utf8(name);
    &&& text.len() > 0
    &&& is_alpha(text[0])
    &&& forall|i: int| 0 <= i < text.len() ==> ByteClass::IdentContinue.holds(#[trigger] text[i])
    &&& word_kind(text) == TokenKind::Ident
}

/// The text of a float is one that the number rule reads whole, as a float.
pub open spec fn valid_float(literal: Seq<char>) -> bool {
    let text = encode_utf8(literal);
    &&& text.len() > 0
    &&& is_digit(text[0]) || (text[0] == DOT && has_digit(text, 1))
    &&& number_token(text, 0) == (TokenKind::Float, text.len() as int)
}

/// The body of a string is one that the string rule reads up to the
/// closing quote: it holds no quote and no backslash but in the pairs
/// `\"` and `\\`.
pub open spec fn valid_string(body: Seq<char>) -> bool {
    string_end(encode_utf8(body).push(QUOTE), 0) == Some(encode_utf8(body).len() as int + 1)
}

/// An expression has a canonical form where its names, floats and strings
/// have one, its integers fit a `usize`, and each operator stands where
/// the binding-power tables have it.
pub open spec fn valid_expr(e: ExprView) -> bool
    decreases e,
{
    match e {
        ExprView::Literal(LitView::Int(value)) => value <= usize::MAX,
        ExprView::Literal(LitView::Float(literal)) => valid_float(literal),
        ExprView::Literal(LitView::Str(body)) => valid_string(body),
        ExprView::Ident(name) => valid_name(name),
        ExprView::FnCall { name, args } => valid_name(name) && forall|i: int|
            0 <= i < args.len() ==> valid_expr(#[trigger] args[i]),
        ExprView::PrefixOp { op, operand } => prefix_power(op) is Some && valid_expr(*operand),
        ExprView::InfixOp { op, lhs, rhs } => infix_power(op) is Some && valid_expr(*lhs)
            && valid_expr(*rhs),
        ExprView::PostfixOp { op, operand } => postfix_power(op) is Some && valid_expr(*operand),
    }
}

/// A type has a canonical form where its name and its arguments have one.
pub open spec fn valid_type(t: TypeView) -> bool
    decreases t,
{
    valid_name(t.name) && forall|i: int|
        0 <= i < t.generics.len() ==> valid_type(#[trigger] t.generics[i])
}

/// Parameters or members have a canonical form where their names and types
/// have one.
pub open spec fn valid_fields(fields: Seq<(Seq<char>, TypeView)>) -> bool {
    forall|i: int|
        0 <= i < fields.len() ==> valid_name((#[trigger] fields[i]).0) && valid_type(fields[i].1)
}

/// A statement has a canonical form where its parts have one, it holds no
/// error node, and every `else` branch is an `if` or a block.
pub open spec fn valid_stmt(s: StmtView) -> bool
    decreases s,
{
    match s {
        StmtView::Let { var_name, value } => valid_name(var_name) && valid_expr(value),
        StmtView::Assignment { var_name, value } => valid_name(var_name) && valid_expr(value),
        StmtView::IfStmt { condition, body, else_branch } => {
            &&& valid_expr(condition)
            &&& forall|i: int| 0 <= i < body.len() ==> valid_stmt(#[trigger] body[i])
            &&& match else_branch {
                Some(branch) => (*branch is IfStmt || *branch is Block) && valid_stmt(*branch),
                None => true,
            }
        },
        StmtView::Block { stmts } => forall|i: int|
            0 <= i < stmts.len() ==> valid_stmt(#[trigger] stmts[i]),
        StmtView::Error(_) => false,
    }
}

/// Statements have a canonical form where each of them has one.
pub open spec fn valid_stmts(stmts: Seq<StmtView>) -> bool {
    forall|i: int| 0 <= i < stmts.len() ==> valid_stmt(#[trigger] stmts[i])
}

/// An item has a canonical form where its parts have one and it is no
/// error node.
pub open spec fn valid_item(item: ItemView) -> bool {
    match item {
        ItemView::Struct { name, members } => valid_type(name) && valid_fields(members),
        ItemView::Function { name, parameters, body } => valid_name(name) && valid_fields(
            parameters,
        ) && valid_stmts(body),
        ItemView::Error(_) => false,
    }
}

/// Items have a canonical form where each of them has one.
pub open spec fn valid_items(items: Seq<ItemView>) -> bool {
    forall|i: int| 0 <= i < items.len() ==> valid_item(#[trigger] items[i])
}

// The tokens that spell a tree

/// A comma, where `more` elements follow in a list.
pub open spec fn separator(more: bool) -> Seq<Piece> {
    if more {
        seq![mark(TokenKind::Comma)]
    } else {
        Seq::empty()
    }
}

/// The tokens of an expression. The operands of an operator stand in
/// parentheses.
pub open spec fn expr_pieces(e: ExprView) -> Seq<Piece>
    decreases e, 0nat,
{
    match e {
        ExprView::Literal(LitView::Int(value)) => seq![
            Piece { kind: TokenKind::Int, text: digits(value) },
        ],
        ExprView::Literal(LitView::Float(literal)) => seq![
            Piece { kind: TokenKind::Float, text: encode_utf8(literal) },
        ],
        ExprView::Literal(LitView::Str(body)) => seq![
            Piece { kind: TokenKind::String, text: seq![QUOTE] + encode_utf8(body).push(QUOTE) },
        ],
        ExprView::Ident(name) => seq![word(name)],
        ExprView::FnCall { name, args } => seq![word(name), mark(TokenKind::LParen)]
            + args_pieces(args) + seq![mark(TokenKind::RParen)],
        ExprView::PrefixOp { op, operand } => seq![mark(op)] + group_pieces(*operand),
        ExprView::InfixOp { op, lhs, rhs } => group_pieces(*lhs) + seq![mark(op)] + group_pieces(
            *rhs,
        ),
        ExprView::PostfixOp { op, operand } => group_pieces(*operand) + seq![mark(op)],
    }
}

/// An expression in parentheses.
pub open spec fn group_pieces(e: ExprView) -> Seq<Piece>
    decreases e, 1nat,
{
    seq![mark(TokenKind::LParen)] + expr_pieces(e) + seq![mark(TokenKind::RParen)]
}

/// The tokens of the arguments of a call, with a comma between two of them.
pub open spec fn args_pieces(args: Seq<ExprView>) -> Seq<Piece>
    decreases args, 0nat,
{
    if args.len() == 0 {
        Seq::empty()
    } else {
        expr_pieces(args[0]) + separator(args.len() > 1) + args_pieces(
            args.subrange(1, args.len() as int),
        )
    }
}

/// The tokens of a type. Angle brackets stand only around arguments.
pub open spec fn type_pieces(t: TypeView) -> Seq<Piece>
    decreases t, 0nat,
{
    if t.generics.len() == 0 {
        seq![word(t.name)]
    } else {
        seq![word(t.name), mark(TokenKind::LAngle)] + types_pieces(t.generics) + seq![
            mark(TokenKind::RAngle),
        ]
    }
}

/// The tokens of generic arguments, with a comma between two of them.
pub open spec fn types_pieces(types: Seq<TypeView>) -> Seq<Piece>
    decreases types, 0nat,
{
    if types.len() == 0 {
        Seq::empty()
    } else {
        type_pieces(types[0]) + separator(types.len() > 1) + types_pieces(
            types.subrange(1, types.len() as int),
        )
    }
}

/// The tokens of parameters or members, with a comma between two of them.
pub open spec fn fields_pieces(fields: Seq<(Seq<char>, TypeView)>) -> Seq<Piece>
    decreases fields.len(),
{
    if fields.len() == 0 {
        Seq::empty()
    } else {
        seq![word(fields[0].0), mark(TokenKind::Colon)] + type_pieces(fields[0].1) + separator(
            fields.len() > 1,
        ) + fields_pieces(fields.subrange(1, fields.len() as int))
    }
}

/// The tokens of a statement. An error node has none.
pub open spec fn stmt_pieces(s: StmtView) -> Seq<Piece>
    decreases s, 0nat,
{
    match s {
        StmtView::Let { var_name, value } => seq![
            mark(TokenKind::KwLet),
            word(var_name),
            mark(TokenKind::Eq),
        ] + expr_pieces(value) + seq![mark(TokenKind::SemiColon)],
        StmtView::Assignment { var_name, value } => seq![word(var_name), mark(TokenKind::Eq)]
            + expr_pieces(value) + seq![mark(TokenKind::SemiColon)],
        StmtView::IfStmt { condition, body, else_branch } => seq![
            mark(TokenKind::KwIf),
            mark(TokenKind::LParen),
        ] + expr_pieces(condition) + seq![mark(TokenKind::RParen)] + block_pieces(body)
            + match else_branch {
            Some(branch) => seq![mark(TokenKind::KwElse)] + stmt_pieces(*branch),
            None => Seq::empty(),
        },
        StmtView::Block { stmts } => block_pieces(stmts),
        StmtView::Error(_) => Seq::empty(),
    }
}

/// Statements between braces.
pub open spec fn block_pieces(stmts: Seq<StmtView>) -> Seq<Piece>
    decreases stmts, 1nat,
{
    seq![mark(TokenKind::LBrace)] + stmts_pieces(stmts) + seq![mark(TokenKind::RBrace)]
}

/// The tokens of statements in a row.
pub open spec fn stmts_pieces(stmts: Seq<StmtView>) -> Seq<Piece>
    decreases stmts, 0nat,
{
    if stmts.len() == 0 {
        Seq::empty()
    } else {
        stmt_pieces(stmts[0]) + stmts_pieces(stmts.subrange(1, stmts.len() as int))
    }
}

/// The tokens of an item. An error node has none.
pub open spec fn item_pieces(item: ItemView) -> Seq<Piece> {
    match item {
        ItemView::Struct { name, members } => seq![mark(TokenKind::KwStruct)] + type_pieces(name)
            + seq![mark(TokenKind::LBrace)] + fields_pieces(members) + seq![
            mark(TokenKind::RBrace),
        ],
        ItemView::Function { name, parameters, body } => seq![
            mark(TokenKind::KwFn),
            word(name),
            mark(TokenKind::LParen),
        ] + fields_pieces(parameters) + seq![mark(TokenKind::RParen)] + block_pieces(body),
        ItemView::Error(_) => Seq::empty(),
    }
}

/// The tokens of items in a row.
pub open spec fn items_pieces(items: Seq<ItemView>) -> Seq<Piece>
    decreases items.len(),
{
    if items.len() == 0 {
        Seq::empty()
    } else {
        item_pieces(items[0]) + items_pieces(items.subrange(1, items.len() as int))
    }
}

/// The text that pieces make: each followed by one blank.
pub open spec fn render(pieces: Seq<Piece>) -> Seq<u8>
    decreases pieces.len(),
{
    if pieces.len() == 0 {
        Seq::empty()
    } else {
        pieces[0].text.push(BLANK) + render(pieces.subrange(1, pieces.len() as int))
    }
}

/// The canonical text of a list of items.
pub open spec fn canonical_text(items: Seq<ItemView>) -> Seq<u8> {
    render(items_pieces(items))
}

} // verus!
