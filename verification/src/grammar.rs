//! The grammar of the language, as a recognizer of token streams.
//!
//! The grammar knows neither trees nor binding powers nor recovery: an
//! expression is a row of operands, each with its prefix operators in
//! front and its postfix operators behind, with one infix operator between
//! two of them. A function of this file gives the index behind the
//! construct that starts at `i`, or `None` where the tokens form none.

use crate::literal::decimal;
use crate::model::{ends_expression, infix_power, postfix_power, prefix_power};
use crate::stream::{peek_kind, Lexeme};
use crate::token::TokenKind;
use vstd::prelude::*;

verus! {

/// True when `j` lies behind `i` and inside the stream: the bound under
/// which the functions of this file recurse.
pub open spec fn ahead(ts: Seq<Lexeme>, i: nat, j: nat) -> bool {
    i < j <= ts.len()
}

/// The index behind an optional comma.
pub open spec fn past_comma(ts: Seq<Lexeme>, i: nat) -> nat {
    if peek_kind(ts, i) == TokenKind::Comma {
        i + 1
    } else {
        i
    }
}

/// An operand: a literal, a name, a call, an expression in parentheses,
/// or a prefix operator and an operand. An integer literal must fit.
pub open spec fn operand_end(ts: Seq<Lexeme>, i: nat) -> Option<nat>
    decreases ts.len() - i, 1int,
{
    let k = peek_kind(ts, i);
    if i >= ts.len() {
        None
    } else if k == TokenKind::Int {
        if decimal(ts[i as int].text) <= usize::MAX {
            Some(i + 1)
        } else {
            None
        }
    } else if k == TokenKind::Float || k == TokenKind::String {
        Some(i + 1)
    } else if k == TokenKind::Ident {
        if peek_kind(ts, i + 1) != TokenKind::LParen {
            Some(i + 1)
        } else {
            match args_end(ts, i + 2) {
                Some(j) => Some(j + 1),
                None => None,
            }
        }
    } else if k == TokenKind::LParen {
        match expr_end(ts, i + 1) {
            Some(j) => if peek_kind(ts, j) == TokenKind::RParen {
                Some(j + 1)
            } else {
                None
            },
            None => None,
        }
    } else if prefix_power(k) is Some {
        operand_end(ts, i + 1)
    } else {
        None
    }
}

/// What follows an operand, up to a token that ends the expression:
/// postfix operators, and infix operators with an operand each.
pub open spec fn tail_end(ts: Seq<Lexeme>, i: nat) -> Option<nat>
    decreases ts.len() - i, 0int,
{
    let k = peek_kind(ts, i);
    if ends_expression(k) {
        Some(i)
    } else if postfix_power(k) is Some {
        tail_end(ts, i + 1)
    } else if infix_power(k) is Some {
        match operand_end(ts, i + 1) {
            Some(j) => if ahead(ts, i, j) {
                tail_end(ts, j)
            } else {
                None
            },
            None => None,
        }
    } else {
        None
    }
}

/// An expression: an operand and what follows it.
pub open spec fn expr_end(ts: Seq<Lexeme>, i: nat) -> Option<nat>
    decreases ts.len() - i, 2int,
{
    match operand_end(ts, i) {
        Some(j) => if ahead(ts, i, j) {
            tail_end(ts, j)
        } else {
            None
        },
        None => None,
    }
}

/// The arguments of a call, each followed by an optional comma, up to
/// the closing parenthesis.
pub open spec fn args_end(ts: Seq<Lexeme>, i: nat) -> Option<nat>
    decreases ts.len() - i, 3int,
{
    if peek_kind(ts, i) == TokenKind::RParen {
        Some(i)
    } else {
        match expr_end(ts, i) {
            Some(j) => if ahead(ts, i, j) {
                args_end(ts, past_comma(ts, j))
            } else {
                None
            },
            None => None,
        }
    }
}

/// A type: a name, and between angle brackets its arguments.
pub open spec fn type_end(ts: Seq<Lexeme>, i: nat) -> Option<nat>
    decreases ts.len() - i, 0int,
{
    if peek_kind(ts, i) != TokenKind::Ident {
        None
    } else if peek_kind(ts, i + 1) != TokenKind::LAngle {
        Some(i + 1)
    } else {
        match generics_end(ts, i + 2) {
            Some(j) => Some(j + 1),
            None => None,
        }
    }
}

/// Generic arguments, each followed by an optional comma, up to the
/// closing angle bracket.
pub open spec fn generics_end(ts: Seq<Lexeme>, i: nat) -> Option<nat>
    decreases ts.len() - i, 1int,
{
    if peek_kind(ts, i) == TokenKind::RAngle {
        Some(i)
    } else {
        match type_end(ts, i) {
            Some(j) => if ahead(ts, i, j) {
                generics_end(ts, past_comma(ts, j))
            } else {
                None
            },
            None => None,
        }
    }
}

/// Parameters or members: a name, a colon and a type each, followed by
/// an optional comma, up to the token `close`.
pub open spec fn fields_end(ts: Seq<Lexeme>, i: nat, close: TokenKind) -> Option<nat>
    decreases ts.len() - i,
{
    if peek_kind(ts, i) == close {
        Some(i)
    } else if peek_kind(ts, i) != TokenKind::Ident || peek_kind(ts, i + 1) != TokenKind::Colon {
        None
    } else {
        match type_end(ts, i + 2) {
            Some(j) => if ahead(ts, i, j) {
                fields_end(ts, past_comma(ts, j), close)
            } else {
                None
            },
            None => None,
        }
    }
}

/// An expression followed by a semicolon.
pub open spec fn value_end(ts: Seq<Lexeme>, i: nat) -> Option<nat> {
    match expr_end(ts, i) {
        Some(j) => if peek_kind(ts, j) == TokenKind::SemiColon {
            Some(j + 1)
        } else {
            None
        },
        None => None,
    }
}

/// A statement: `let` name `=` value `;`, name `=` value `;`, `if`
/// `(` condition `)` block with an optional `else` branch, or a block.
pub open spec fn stmt_end(ts: Seq<Lexeme>, i: nat) -> Option<nat>
    decreases ts.len() - i, 2int,
{
    let k = peek_kind(ts, i);
    if k == TokenKind::KwLet {
        if peek_kind(ts, i + 1) == TokenKind::Ident && peek_kind(ts, i + 2) == TokenKind::Eq {
            value_end(ts, i + 3)
        } else {
            None
        }
    } else if k == TokenKind::Ident {
        if peek_kind(ts, i + 1) == TokenKind::Eq {
            value_end(ts, i + 2)
        } else {
            None
        }
    } else if k == TokenKind::KwIf {
        if_end(ts, i)
    } else if k == TokenKind::LBrace {
        block_end(ts, i)
    } else {
        None
    }
}

/// An `if` statement, whose keyword stands at `i`. The branch behind
/// `else` is another `if` or a block.
pub open spec fn if_end(ts: Seq<Lexeme>, i: nat) -> Option<nat>
    decreases ts.len() - i, 1int,
{
    if peek_kind(ts, i) != TokenKind::KwIf || peek_kind(ts, i + 1) != TokenKind::LParen {
        None
    } else {
        match expr_end(ts, i + 2) {
            Some(j) => if peek_kind(ts, j) == TokenKind::RParen && ahead(ts, i, j) {
                match block_end(ts, j + 1) {
                    Some(m) => if peek_kind(ts, m) != TokenKind::KwElse {
                        Some(m)
                    } else if ahead(ts, i, m) && (peek_kind(ts, m + 1) == TokenKind::KwIf
                        || peek_kind(ts, m + 1) == TokenKind::LBrace) {
                        stmt_end(ts, m + 1)
                    } else {
                        None
                    },
                    None => None,
                }
            } else {
                None
            },
            None => None,
        }
    }
}

/// A block: statements between braces.
pub open spec fn block_end(ts: Seq<Lexeme>, i: nat) -> Option<nat>
    decreases ts.len() - i, 0int,
{
    if peek_kind(ts, i) != TokenKind::LBrace {
        None
    } else {
        match stmts_end(ts, i + 1) {
            Some(j) => Some(j + 1),
            None => None,
        }
    }
}

/// Statements up to the closing brace.
pub open spec fn stmts_end(ts: Seq<Lexeme>, i: nat) -> Option<nat>
    decreases ts.len() - i, 3int,
{
    if peek_kind(ts, i) == TokenKind::RBrace {
        Some(i)
    } else {
        match stmt_end(ts, i) {
            Some(j) => if ahead(ts, i, j) {
                stmts_end(ts, j)
            } else {
                None
            },
            None => None,
        }
    }
}

/// An item: `fn` name `(` parameters `)` block, or `struct` type `{`
/// members `}`.
pub open spec fn item_end(ts: Seq<Lexeme>, i: nat) -> Option<nat> {
    let k = peek_kind(ts, i);
    if k == TokenKind::KwFn {
        if peek_kind(ts, i + 1) == TokenKind::Ident && peek_kind(ts, i + 2) == TokenKind::LParen {
            match fields_end(ts, i + 3, TokenKind::RParen) {
                Some(j) => block_end(ts, j + 1),
                None => None,
            }
        } else {
            None
        }
    } else if k == TokenKind::KwStruct {
        match type_end(ts, i + 1) {
            Some(j) => if peek_kind(ts, j) == TokenKind::LBrace {
                match fields_end(ts, j + 1, TokenKind::RBrace) {
                    Some(m) => Some(m + 1),
                    None => None,
                }
            } else {
                None
            },
            None => None,
        }
    } else {
        None
    }
}

/// Items up to the end of input.
pub open spec fn items_end(ts: Seq<Lexeme>, i: nat) -> Option<nat>
    decreases ts.len() - i,
{
    if peek_kind(ts, i) == TokenKind::EOF {
        Some(i)
    } else {
        match item_end(ts, i) {
            Some(j) => if ahead(ts, i, j) {
                items_end(ts, j)
            } else {
                None
            },
            None => None,
        }
    }
}

/// True when the stream is a program of the grammar.
pub open spec fn is_program(ts: Seq<Lexeme>) -> bool {
    items_end(ts, 0) is Some
}

} // verus!
