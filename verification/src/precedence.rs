//! How binding powers decide the shape of a tree: which of two infix
//! operators takes the operand between them, and that a postfix operator
//! takes its operand before a prefix operator does.

use crate::ast::{ExprView, LitView};
use crate::canon::{expr_pieces, mark, piece_of, valid_expr};
use crate::error::ErrorView;
use crate::literal::string_body;
use crate::model::{
    bump, ends_expression, expression, infix_power, operand, operators, postfix_power, prefix_power,
    Parsed, State,
};
use crate::roundtrip::{after, lemma_digits, lemma_operators_end, lemma_reads_split, reads};
use crate::scan::QUOTE;
use crate::stream::{peek_kind, Lexeme};
use crate::token::TokenKind;
use vstd::prelude::*;

verus! {

/// A literal or a name: an expression of one token.
pub open spec fn atomic(e: ExprView) -> bool {
    (e is Literal || e is Ident) && valid_expr(e)
}

/// The tree of an infix operator with its two operands.
pub open spec fn infix(op: TokenKind, lhs: ExprView, rhs: ExprView) -> ExprView {
    ExprView::InfixOp { op, lhs: Box::new(lhs), rhs: Box::new(rhs) }
}

/// The left binding power of an infix operator.
pub open spec fn left_power(op: TokenKind) -> u8 {
    let powers = infix_power(op)->0;
    powers.0
}

/// The right binding power of an infix operator.
pub open spec fn right_power(op: TokenKind) -> u8 {
    let powers = infix_power(op)->0;
    powers.1
}

/// An atom is read as an operand, whatever follows it but an opening
/// parenthesis behind a name.
pub proof fn lemma_atom(ts: Seq<Lexeme>, s: State, e: ExprView)
    requires
        atomic(e),
        reads(ts, s.index, expr_pieces(e)),
        peek_kind(ts, s.index + 1) != TokenKind::LParen,
    ensures
        expr_pieces(e).len() == 1,
        operand(ts, s) == (Parsed { value: Ok::<ExprView, ErrorView>(e), state: after(s, 1) }),
{
    let pieces = expr_pieces(e);
    assert(pieces[0] == piece_of(ts[s.index as int]));
    match e {
        ExprView::Literal(LitView::Int(value)) => {
            lemma_digits(value);
        },
        ExprView::Literal(LitView::Float(literal)) => {
            vstd::utf8::encode_utf8_decode_utf8(literal);
        },
        ExprView::Literal(LitView::Str(body)) => {
            vstd::utf8::encode_utf8_decode_utf8(body);
            let quoted = seq![QUOTE] + vstd::utf8::encode_utf8(body).push(
                QUOTE,
            );
            assert(string_body(quoted) =~= vstd::utf8::encode_utf8(body));
        },
        ExprView::Ident(name) => {
            vstd::utf8::encode_utf8_decode_utf8(name);
        },
        _ => {},
    }
}

/// Of two infix operators in a row, the second takes the operand between
/// them where its left power is greater than the right power of the
/// first; else the first takes it. So `1 + 2 * 3` is `1 + (2 * 3)`,
/// `1 - 2 - 3` is `(1 - 2) - 3`, and `2 ^ 3 ^ 2` is `2 ^ (3 ^ 2)`.
pub proof fn infix_operators_group_by_binding_power(
    ts: Seq<Lexeme>,
    s: State,
    a: ExprView,
    first: TokenKind,
    b: ExprView,
    second: TokenKind,
    c: ExprView,
)
    requires
        atomic(a),
        atomic(b),
        atomic(c),
        infix_power(first) is Some,
        infix_power(second) is Some,
        reads(
            ts,
            s.index,
            expr_pieces(a) + seq![mark(first)] + expr_pieces(b) + seq![mark(second)] + expr_pieces(
                c,
            ),
        ),
        ends_expression(peek_kind(ts, s.index + 5)),
    ensures
        expression(ts, s, 0) == (Parsed {
            value: Ok::<ExprView, ErrorView>(
                if right_power(first) < left_power(second) {
                    infix(first, a, infix(second, b, c))
                } else {
                    infix(second, infix(first, a, b), c)
                },
            ),
            state: after(s, 5),
        }),
{
    let pa = expr_pieces(a);
    let pb = expr_pieces(b);
    let pc = expr_pieces(c);
    let m1 = seq![mark(first)];
    let m2 = seq![mark(second)];
    lemma_reads_split(ts, s.index, pa + m1 + pb + m2, pc);
    lemma_reads_split(ts, s.index, pa + m1 + pb, m2);
    lemma_reads_split(ts, s.index, pa + m1, pb);
    lemma_reads_split(ts, s.index, pa, m1);
    assert(m1[0] == piece_of(ts[(s.index + 1) as int]));
    let s1 = after(s, 1);
    let s2 = after(s, 2);
    let s3 = after(s, 3);
    let s4 = after(s, 4);
    let s5 = after(s, 5);
    assert(bump(ts, s1) == s2 && bump(ts, s3) == s4);
    lemma_atom(ts, s, a);
    lemma_atom(ts, s2, b);
    lemma_atom(ts, s4, c);
    let r1 = right_power(first);
    let l2 = left_power(second);
    let r2 = right_power(second);
    // The last operand, read for the second operator.
    assert(expression(ts, s4, r2) == (Parsed { value: Ok::<ExprView, ErrorView>(c), state: s5 }));
    if r1 < l2 {
        let inner = infix(second, b, c);
        lemma_operators_end(ts, s5, r1, inner);
        assert(expression(ts, s2, r1) == (Parsed {
            value: Ok::<ExprView, ErrorView>(inner),
            state: s5,
        }));
        lemma_operators_end(ts, s5, 0, infix(first, a, inner));
    } else {
        assert(expression(ts, s2, r1) == (Parsed {
            value: Ok::<ExprView, ErrorView>(b),
            state: s3,
        }));
        let inner = infix(first, a, b);
        lemma_operators_end(ts, s5, 0, infix(second, inner, c));
        assert(operators(ts, s3, 0, inner) == (Parsed {
            value: Ok::<ExprView, ErrorView>(infix(second, inner, c)),
            state: s5,
        }));
    }
}

/// A postfix operator behind the operand of a prefix operator takes the
/// operand first, for it binds more tightly: `-a!` is `-(a!)`.
pub proof fn postfix_binds_before_prefix(
    ts: Seq<Lexeme>,
    s: State,
    before: TokenKind,
    a: ExprView,
    behind: TokenKind,
)
    requires
        atomic(a),
        prefix_power(before) is Some,
        postfix_power(behind) is Some,
        reads(ts, s.index, seq![mark(before)] + expr_pieces(a) + seq![mark(behind)]),
        ends_expression(peek_kind(ts, s.index + 3)),
    ensures
        expression(ts, s, 0) == (Parsed {
            value: Ok::<ExprView, ErrorView>(
                ExprView::PrefixOp {
                    op: before,
                    operand: Box::new(ExprView::PostfixOp { op: behind, operand: Box::new(a) }),
                },
            ),
            state: after(s, 3),
        }),
{
    let pa = expr_pieces(a);
    let m1 = seq![mark(before)];
    let m2 = seq![mark(behind)];
    lemma_reads_split(ts, s.index, m1 + pa, m2);
    lemma_reads_split(ts, s.index, m1, pa);
    assert(m1[0] == piece_of(ts[s.index as int]));
    assert(m2[0] == piece_of(ts[(s.index + 2) as int]));
    let s1 = after(s, 1);
    let s3 = after(s, 3);
    lemma_atom(ts, s1, a);
    let right = prefix_power(before)->0;
    let inner = ExprView::PostfixOp { op: behind, operand: Box::new(a) };
    lemma_operators_end(ts, s3, right, inner);
    assert(expression(ts, s1, right) == (Parsed {
        value: Ok::<ExprView, ErrorView>(inner),
        state: s3,
    }));
}

} // verus!
