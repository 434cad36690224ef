//! Parsing the canonical form of a tree gives the tree back.

use crate::ast::{ExprView, ItemView, LitView, StmtView, TypeView};
use crate::canon::{
    args_pieces, block_pieces, canonical_text, digits, expr_pieces, fields_pieces, group_pieces,
    item_pieces, items_pieces, mark, piece_of, separator, stmt_pieces, stmts_pieces, type_pieces,
    types_pieces, valid_expr, valid_fields, valid_item, valid_items, valid_name, valid_stmt,
    valid_stmts, valid_type, word, Piece,
};
use crate::error::{ErrorView, Wanted};
use crate::literal::{decimal, digit_value, string_body};
use crate::model::{
    arguments, assignment, binding, block, bump, conditional, ends_expression, expect, expression,
    fields, file, generics, infix_power, item, items, kind, operand, operators, otherwise,
    prefix_power, skip_comma, start, statement, statements, type_, Parsed, State,
};
use crate::rescan::{lemma_items_lexable, lemma_render_stream};
use crate::scan::{is_digit, DIGIT_0, QUOTE};
use crate::stream::{lexemes, peek_kind, Lexeme};
use crate::token::TokenKind;
use vstd::prelude::*;
use vstd::utf8::{encode_utf8, encode_utf8_decode_utf8};

verus! {

/// True when the stream holds the given pieces from index `at` on, and
/// at least one token behind them.
pub open spec fn reads(ts: Seq<Lexeme>, at: nat, pieces: Seq<Piece>) -> bool {
    &&& at + pieces.len() < ts.len()
    &&& forall|k: int| 0 <= k < pieces.len() ==> #[trigger] pieces[k] == piece_of(ts[at + k])
}

/// The state `n` tokens further on, with nothing new recorded.
pub open spec fn after(s: State, n: nat) -> State {
    State { index: s.index + n, errors: s.errors }
}

/// A stream that holds two runs of pieces in a row holds each of them.
pub proof fn lemma_reads_split(ts: Seq<Lexeme>, at: nat, a: Seq<Piece>, b: Seq<Piece>)
    requires
        reads(ts, at, a + b),
    ensures
        reads(ts, at, a),
        reads(ts, at + a.len(), b),
{
    assert forall|k: int| 0 <= k < a.len() implies #[trigger] a[k] == piece_of(ts[at + k]) by {
        assert((a + b)[k] == a[k]);
    }
    assert forall|k: int| 0 <= k < b.len() implies #[trigger] b[k] == piece_of(
        ts[at + a.len() + k],
    ) by {
        assert((a + b)[a.len() + k] == b[k]);
    }
}

/// The digits of a number count to it, and are digits.
pub proof fn lemma_digits(n: nat)
    ensures
        decimal(digits(n)) == n,
        digits(n).len() > 0,
        forall|i: int| 0 <= i < digits(n).len() ==> is_digit(#[trigger] digits(n)[i]),
    decreases n,
{
    if n < 10 {
        let d = digits(n);
        assert(d.drop_last() =~= Seq::<u8>::empty());
        assert(decimal(d.drop_last()) == 0);
        assert(d.last() == (DIGIT_0 + n) as u8);
    } else {
        lemma_digits(n / 10);
        let d = digits(n);
        assert(d.drop_last() =~= digits(n / 10));
        assert(d.last() == (DIGIT_0 + n % 10) as u8);
        assert(digit_value(d.last()) == n % 10);
    }
}

/// A canonical expression starts with a token that starts an operand.
pub proof fn lemma_first_piece(e: ExprView)
    requires
        valid_expr(e),
    ensures
        expr_pieces(e).len() > 0,
        ({
            let k = expr_pieces(e)[0].kind;
            k == TokenKind::Int || k == TokenKind::Float || k == TokenKind::String || k
                == TokenKind::Ident || k == TokenKind::LParen || prefix_power(k) is Some
        }),
{
}

/// Behind a token that ends an expression no operator is read.
pub proof fn lemma_operators_end(ts: Seq<Lexeme>, s: State, min: u8, lhs: ExprView)
    requires
        ends_expression(kind(ts, s)),
    ensures
        operators(ts, s, min, lhs) == (Parsed { value: Ok::<ExprView, ErrorView>(lhs), state: s }),
{
}

/// The expression parser reads a canonical expression whole and gives
/// its tree, where a token that ends an expression follows it.
#[verifier::rlimit(20)]
pub proof fn lemma_expression(ts: Seq<Lexeme>, s: State, e: ExprView, min: u8)
    requires
        valid_expr(e),
        reads(ts, s.index, expr_pieces(e)),
        ends_expression(peek_kind(ts, s.index + expr_pieces(e).len())),
        min == 0 || !(e is InfixOp || e is PostfixOp),
    ensures
        expr_pieces(e).len() > 0,
        expression(ts, s, min) == (Parsed {
            value: Ok::<ExprView, ErrorView>(e),
            state: after(s, expr_pieces(e).len()),
        }),
    decreases e, 0nat,
{
    let pieces = expr_pieces(e);
    let n = pieces.len();
    lemma_first_piece(e);
    assert(pieces[0] == piece_of(ts[s.index as int]));
    let end = after(s, n);
    match e {
        ExprView::Literal(LitView::Int(value)) => {
            lemma_digits(value);
            assert(operand(ts, s) == (Parsed { value: Ok::<ExprView, ErrorView>(e), state: end }));
            lemma_operators_end(ts, end, min, e);
        },
        ExprView::Literal(LitView::Float(literal)) => {
            encode_utf8_decode_utf8(literal);
            assert(operand(ts, s) == (Parsed { value: Ok::<ExprView, ErrorView>(e), state: end }));
            lemma_operators_end(ts, end, min, e);
        },
        ExprView::Literal(LitView::Str(body)) => {
            encode_utf8_decode_utf8(body);
            let quoted = seq![QUOTE] + encode_utf8(body).push(QUOTE);
            assert(string_body(quoted) =~= encode_utf8(body));
            assert(operand(ts, s) == (Parsed { value: Ok::<ExprView, ErrorView>(e), state: end }));
            lemma_operators_end(ts, end, min, e);
        },
        ExprView::Ident(name) => {
            encode_utf8_decode_utf8(name);
            assert(operand(ts, s) == (Parsed { value: Ok::<ExprView, ErrorView>(e), state: end }));
            lemma_operators_end(ts, end, min, e);
        },
        ExprView::FnCall { name, args } => {
            encode_utf8_decode_utf8(name);
            let head = seq![word(name), mark(TokenKind::LParen)];
            let list = args_pieces(args);
            let close = seq![mark(TokenKind::RParen)];
            lemma_reads_split(ts, s.index, head + list, close);
            lemma_reads_split(ts, s.index, head, list);
            assert(head[1] == piece_of(ts[(s.index + 1) as int]));
            assert(close[0] == piece_of(ts[(s.index + 2 + list.len()) as int]));
            lemma_arguments(ts, after(s, 2), args, Seq::empty());
            assert(Seq::<ExprView>::empty() + args =~= args);
            assert(bump(ts, bump(ts, s)) == after(s, 2));
            assert(expect(ts, after(after(s, 2), list.len()), TokenKind::RParen).state == end);
            assert(operand(ts, s) == (Parsed { value: Ok::<ExprView, ErrorView>(e), state: end }));
            lemma_operators_end(ts, end, min, e);
        },
        ExprView::PrefixOp { op, operand: inner } => {
            let group = group_pieces(*inner);
            lemma_reads_split(ts, s.index, seq![mark(op)], group);
            lemma_group(ts, after(s, 1), *inner);
            let behind = after(after(s, 1), group.len());
            assert(behind == end);
            let right = prefix_power(op)->0;
            lemma_operators_end(ts, end, right, *inner);
            assert(expression(ts, after(s, 1), right) == (Parsed {
                value: Ok::<ExprView, ErrorView>(*inner),
                state: end,
            }));
            assert(bump(ts, s) == after(s, 1));
            assert(operand(ts, s) == (Parsed { value: Ok::<ExprView, ErrorView>(e), state: end }));
            lemma_operators_end(ts, end, min, e);
        },
        ExprView::InfixOp { op, lhs, rhs } => {
            let left_group = group_pieces(*lhs);
            let right_group = group_pieces(*rhs);
            lemma_reads_split(ts, s.index, left_group + seq![mark(op)], right_group);
            lemma_reads_split(ts, s.index, left_group, seq![mark(op)]);
            lemma_group(ts, s, *lhs);
            let at_op = after(s, left_group.len());
            assert(seq![mark(op)][0] == piece_of(ts[at_op.index as int]));
            assert(kind(ts, at_op) == op);
            lemma_group(ts, after(at_op, 1), *rhs);
            let behind = after(after(at_op, 1), right_group.len());
            assert(behind == end);
            let powers = infix_power(op)->0;
            let right = powers.1;
            lemma_operators_end(ts, end, right, *rhs);
            assert(bump(ts, at_op) == after(at_op, 1));
            assert(expression(ts, after(at_op, 1), right) == (Parsed {
                value: Ok::<ExprView, ErrorView>(*rhs),
                state: end,
            }));
            lemma_operators_end(ts, end, min, e);
            assert(operators(ts, at_op, min, *lhs) == (Parsed {
                value: Ok::<ExprView, ErrorView>(e),
                state: end,
            }));
        },
        ExprView::PostfixOp { op, operand: inner } => {
            let group = group_pieces(*inner);
            lemma_reads_split(ts, s.index, group, seq![mark(op)]);
            lemma_group(ts, s, *inner);
            let at_op = after(s, group.len());
            assert(seq![mark(op)][0] == piece_of(ts[at_op.index as int]));
            assert(kind(ts, at_op) == op);
            assert(bump(ts, at_op) == end);
            lemma_operators_end(ts, end, min, e);
            assert(operators(ts, at_op, min, *inner) == (Parsed {
                value: Ok::<ExprView, ErrorView>(e),
                state: end,
            }));
        },
    }
}

/// An operand in parentheses is read as the expression between them.
pub proof fn lemma_group(ts: Seq<Lexeme>, s: State, e: ExprView)
    requires
        valid_expr(e),
        reads(ts, s.index, group_pieces(e)),
    ensures
        group_pieces(e).len() == expr_pieces(e).len() + 2,
        operand(ts, s) == (Parsed {
            value: Ok::<ExprView, ErrorView>(e),
            state: after(s, group_pieces(e).len()),
        }),
    decreases e, 1nat,
{
    let open = seq![mark(TokenKind::LParen)];
    let inner = expr_pieces(e);
    let close = seq![mark(TokenKind::RParen)];
    lemma_reads_split(ts, s.index, open + inner, close);
    lemma_reads_split(ts, s.index, open, inner);
    assert(open[0] == piece_of(ts[s.index as int]));
    assert(close[0] == piece_of(ts[(s.index + 1 + inner.len()) as int]));
    lemma_expression(ts, after(s, 1), e, 0);
    assert(bump(ts, s) == after(s, 1));
    let behind = after(after(s, 1), inner.len());
    assert(expect(ts, behind, TokenKind::RParen).state == after(s, group_pieces(e).len()));
}

/// The arguments of a canonical call are read up to the closing
/// parenthesis.
pub proof fn lemma_arguments(ts: Seq<Lexeme>, s: State, args: Seq<ExprView>, done: Seq<ExprView>)
    requires
        forall|i: int| 0 <= i < args.len() ==> valid_expr(#[trigger] args[i]),
        reads(ts, s.index, args_pieces(args)),
        peek_kind(ts, s.index + args_pieces(args).len()) == TokenKind::RParen,
    ensures
        arguments(ts, s, done) == (Parsed {
            value: Ok::<Seq<ExprView>, ErrorView>(done + args),
            state: after(s, args_pieces(args).len()),
        }),
    decreases args, 0nat,
{
    if args.len() == 0 {
        assert(done + args =~= done);
    } else {
        let first = expr_pieces(args[0]);
        let more = args.len() > 1;
        let rest = args.subrange(1, args.len() as int);
        lemma_reads_split(ts, s.index, first + separator(more), args_pieces(rest));
        lemma_reads_split(ts, s.index, first, separator(more));
        lemma_first_piece(args[0]);
        assert(first[0] == piece_of(ts[s.index as int]));
        let behind = after(s, first.len());
        if more {
            assert(separator(more)[0] == piece_of(ts[behind.index as int]));
        } else {
            assert(args_pieces(rest) =~= Seq::<Piece>::empty());
        }
        lemma_expression(ts, s, args[0], 0);
        assert forall|i: int| 0 <= i < rest.len() implies valid_expr(#[trigger] rest[i]) by {
            assert(rest[i] == args[i + 1]);
        }
        let next = skip_comma(ts, behind);
        assert(next == after(behind, separator(more).len()));
        lemma_arguments(ts, next, rest, done.push(args[0]));
        assert(done.push(args[0]) + rest =~= done + args);
    }
}

/// A canonical type is read whole, where no `<` follows it.
pub proof fn lemma_type(ts: Seq<Lexeme>, s: State, t: TypeView)
    requires
        valid_type(t),
        reads(ts, s.index, type_pieces(t)),
        peek_kind(ts, s.index + type_pieces(t).len()) != TokenKind::LAngle,
    ensures
        type_pieces(t).len() > 0,
        type_(ts, s) == (Parsed { value: t, state: after(s, type_pieces(t).len()) }),
    decreases t, 0nat,
{
    encode_utf8_decode_utf8(t.name);
    if t.generics.len() == 0 {
        let pieces = seq![word(t.name)];
        assert(pieces[0] == piece_of(ts[s.index as int]));
        assert(t.generics =~= Seq::<TypeView>::empty());
        assert(bump(ts, s) == after(s, 1));
    } else {
        let head = seq![word(t.name), mark(TokenKind::LAngle)];
        let list = types_pieces(t.generics);
        let close = seq![mark(TokenKind::RAngle)];
        lemma_reads_split(ts, s.index, head + list, close);
        lemma_reads_split(ts, s.index, head, list);
        assert(head[0] == piece_of(ts[s.index as int]));
        assert(head[1] == piece_of(ts[(s.index + 1) as int]));
        assert(close[0] == piece_of(ts[(s.index + 2 + list.len()) as int]));
        lemma_generics(ts, after(s, 2), t.generics, Seq::empty());
        assert(Seq::<TypeView>::empty() + t.generics =~= t.generics);
        assert(bump(ts, bump(ts, s)) == after(s, 2));
        let end = after(s, type_pieces(t).len());
        assert(expect(ts, after(after(s, 2), list.len()), TokenKind::RAngle).state == end);
    }
}

/// Canonical generic arguments are read up to the closing angle bracket.
pub proof fn lemma_generics(ts: Seq<Lexeme>, s: State, types: Seq<TypeView>, done: Seq<TypeView>)
    requires
        forall|i: int| 0 <= i < types.len() ==> valid_type(#[trigger] types[i]),
        reads(ts, s.index, types_pieces(types)),
        peek_kind(ts, s.index + types_pieces(types).len()) == TokenKind::RAngle,
    ensures
        generics(ts, s, done) == (Parsed {
            value: done + types,
            state: after(s, types_pieces(types).len()),
        }),
    decreases types, 0nat,
{
    if types.len() == 0 {
        assert(done + types =~= done);
    } else {
        let first = type_pieces(types[0]);
        let more = types.len() > 1;
        let rest = types.subrange(1, types.len() as int);
        lemma_reads_split(ts, s.index, first + separator(more), types_pieces(rest));
        lemma_reads_split(ts, s.index, first, separator(more));
        assert(first[0] == piece_of(ts[s.index as int]));
        let behind = after(s, first.len());
        if more {
            assert(separator(more)[0] == piece_of(ts[behind.index as int]));
        } else {
            assert(types_pieces(rest) =~= Seq::<Piece>::empty());
        }
        lemma_type(ts, s, types[0]);
        assert forall|i: int| 0 <= i < rest.len() implies valid_type(#[trigger] rest[i]) by {
            assert(rest[i] == types[i + 1]);
        }
        let next = skip_comma(ts, behind);
        assert(next == after(behind, separator(more).len()));
        lemma_generics(ts, next, rest, done.push(types[0]));
        assert(done.push(types[0]) + rest =~= done + types);
    }
}

/// Canonical parameters or members are read up to the token that closes
/// their list.
pub proof fn lemma_fields(
    ts: Seq<Lexeme>,
    s: State,
    list: Seq<(Seq<char>, TypeView)>,
    close: TokenKind,
    wanted: Wanted,
    done: Seq<(Seq<char>, TypeView)>,
)
    requires
        valid_fields(list),
        reads(ts, s.index, fields_pieces(list)),
        peek_kind(ts, s.index + fields_pieces(list).len()) == close,
        close == TokenKind::RParen || close == TokenKind::RBrace,
    ensures
        fields(ts, s, close, wanted, done) == (Parsed {
            value: done + list,
            state: after(s, fields_pieces(list).len()),
        }),
    decreases list.len(),
{
    if list.len() == 0 {
        assert(done + list =~= done);
    } else {
        let head = seq![word(list[0].0), mark(TokenKind::Colon)];
        let ty = type_pieces(list[0].1);
        let more = list.len() > 1;
        let rest = list.subrange(1, list.len() as int);
        lemma_reads_split(ts, s.index, head + ty + separator(more), fields_pieces(rest));
        lemma_reads_split(ts, s.index, head + ty, separator(more));
        lemma_reads_split(ts, s.index, head, ty);
        assert(head[0] == piece_of(ts[s.index as int]));
        assert(head[1] == piece_of(ts[(s.index + 1) as int]));
        encode_utf8_decode_utf8(list[0].0);
        let behind = after(s, 2 + ty.len());
        if more {
            assert(separator(more)[0] == piece_of(ts[behind.index as int]));
        } else {
            assert(fields_pieces(rest) =~= Seq::<Piece>::empty());
        }
        lemma_type(ts, after(s, 2), list[0].1);
        assert(after(after(s, 2), ty.len()) == behind);
        assert(bump(ts, s) == after(s, 1));
        assert(expect(ts, after(s, 1), TokenKind::Colon).state == after(s, 2));
        assert forall|i: int| 0 <= i < rest.len() implies valid_name((#[trigger] rest[i]).0)
            && valid_type(rest[i].1) by {
            assert(rest[i] == list[i + 1]);
        }
        let next = skip_comma(ts, behind);
        assert(next == after(behind, separator(more).len()));
        lemma_fields(ts, next, rest, close, wanted, done.push(list[0]));
        assert(done.push(list[0]) + rest =~= done + list);
    }
}

/// A canonical statement starts with `let`, a name, `if` or a brace.
pub proof fn lemma_first_stmt_piece(st: StmtView)
    requires
        valid_stmt(st),
    ensures
        stmt_pieces(st).len() > 0,
        ({
            let k = stmt_pieces(st)[0].kind;
            k == TokenKind::KwLet || k == TokenKind::Ident || k == TokenKind::KwIf || k
                == TokenKind::LBrace
        }),
        st is IfStmt ==> stmt_pieces(st)[0].kind == TokenKind::KwIf,
        st is Block ==> stmt_pieces(st)[0].kind == TokenKind::LBrace,
{
    match st {
        StmtView::Block { stmts } => {
            assert(block_pieces(stmts)[0] == mark(TokenKind::LBrace));
        },
        _ => {},
    }
}

/// The statement parser reads a canonical statement whole and gives its
/// tree, where no `else` follows it.
pub proof fn lemma_statement(ts: Seq<Lexeme>, s: State, st: StmtView)
    requires
        valid_stmt(st),
        reads(ts, s.index, stmt_pieces(st)),
        peek_kind(ts, s.index + stmt_pieces(st).len()) != TokenKind::KwElse,
    ensures
        stmt_pieces(st).len() > 0,
        statement(ts, s) == (Parsed { value: st, state: after(s, stmt_pieces(st).len()) }),
    decreases st, 0nat,
{
    lemma_first_stmt_piece(st);
    let pieces = stmt_pieces(st);
    assert(pieces[0] == piece_of(ts[s.index as int]));
    let end = after(s, pieces.len());
    match st {
        StmtView::Let { var_name, value } => {
            let head = seq![mark(TokenKind::KwLet), word(var_name), mark(TokenKind::Eq)];
            let body = expr_pieces(value);
            let close = seq![mark(TokenKind::SemiColon)];
            lemma_reads_split(ts, s.index, head + body, close);
            lemma_reads_split(ts, s.index, head, body);
            assert(head[1] == piece_of(ts[(s.index + 1) as int]));
            assert(head[2] == piece_of(ts[(s.index + 2) as int]));
            assert(close[0] == piece_of(ts[(s.index + 3 + body.len()) as int]));
            encode_utf8_decode_utf8(var_name);
            lemma_expression(ts, after(s, 3), value, 0);
            assert(bump(ts, s) == after(s, 1));
            assert(bump(ts, after(s, 1)) == after(s, 2));
            assert(expect(ts, after(s, 2), TokenKind::Eq).state == after(s, 3));
            let behind = after(after(s, 3), body.len());
            assert(expect(ts, behind, TokenKind::SemiColon).state == end);
            assert(binding(ts, s) == (Parsed { value: st, state: end }));
        },
        StmtView::Assignment { var_name, value } => {
            let head = seq![word(var_name), mark(TokenKind::Eq)];
            let body = expr_pieces(value);
            let close = seq![mark(TokenKind::SemiColon)];
            lemma_reads_split(ts, s.index, head + body, close);
            lemma_reads_split(ts, s.index, head, body);
            assert(head[1] == piece_of(ts[(s.index + 1) as int]));
            assert(close[0] == piece_of(ts[(s.index + 2 + body.len()) as int]));
            encode_utf8_decode_utf8(var_name);
            lemma_expression(ts, after(s, 2), value, 0);
            assert(bump(ts, s) == after(s, 1));
            assert(expect(ts, after(s, 1), TokenKind::Eq).state == after(s, 2));
            let behind = after(after(s, 2), body.len());
            assert(expect(ts, behind, TokenKind::SemiColon).state == end);
            assert(assignment(ts, s) == (Parsed { value: st, state: end }));
        },
        StmtView::IfStmt { condition, body, else_branch } => {
            let head = seq![mark(TokenKind::KwIf), mark(TokenKind::LParen)];
            let test = expr_pieces(condition);
            let close = seq![mark(TokenKind::RParen)];
            let block = block_pieces(body);
            let tail = match else_branch {
                Some(branch) => seq![mark(TokenKind::KwElse)] + stmt_pieces(*branch),
                None => Seq::empty(),
            };
            lemma_reads_split(ts, s.index, head + test + close + block, tail);
            lemma_reads_split(ts, s.index, head + test + close, block);
            lemma_reads_split(ts, s.index, head + test, close);
            lemma_reads_split(ts, s.index, head, test);
            assert(head[1] == piece_of(ts[(s.index + 1) as int]));
            assert(close[0] == piece_of(ts[(s.index + 2 + test.len()) as int]));
            lemma_expression(ts, after(s, 2), condition, 0);
            assert(bump(ts, s) == after(s, 1));
            assert(expect(ts, after(s, 1), TokenKind::LParen).state == after(s, 2));
            let closed = after(s, 3 + test.len());
            assert(expect(ts, after(after(s, 2), test.len()), TokenKind::RParen).state == closed);
            assert(block[0] == piece_of(ts[closed.index as int]));
            assert(block[0] == mark(TokenKind::LBrace));
            lemma_block(ts, closed, body);
            let behind = after(closed, block.len());
            match else_branch {
                Some(branch) => {
                    let rest = stmt_pieces(*branch);
                    lemma_reads_split(ts, behind.index, seq![mark(TokenKind::KwElse)], rest);
                    assert(seq![mark(TokenKind::KwElse)][0] == piece_of(ts[behind.index as int]));
                    lemma_first_stmt_piece(*branch);
                    assert(rest[0] == piece_of(ts[(behind.index + 1) as int]));
                    lemma_statement(ts, after(behind, 1), *branch);
                    assert(bump(ts, behind) == after(behind, 1));
                    assert(after(after(behind, 1), rest.len()) == end);
                    assert(otherwise(ts, behind) == (Parsed {
                        value: Some(Box::new(*branch)),
                        state: end,
                    }));
                },
                None => {
                    assert(behind == end);
                    assert(otherwise(ts, behind) == (Parsed {
                        value: None::<Box<StmtView>>,
                        state: end,
                    }));
                },
            }
            assert(conditional(ts, s) == (Parsed { value: st, state: end }));
        },
        StmtView::Block { stmts } => {
            lemma_block(ts, s, stmts);
        },
        StmtView::Error(_) => {},
    }
}

/// A canonical block is read from its opening to its closing brace.
pub proof fn lemma_block(ts: Seq<Lexeme>, s: State, stmts: Seq<StmtView>)
    requires
        valid_stmts(stmts),
        reads(ts, s.index, block_pieces(stmts)),
    ensures
        block_pieces(stmts).len() == stmts_pieces(stmts).len() + 2,
        block(ts, s) == (Parsed { value: stmts, state: after(s, block_pieces(stmts).len()) }),
    decreases stmts, 1nat,
{
    let open = seq![mark(TokenKind::LBrace)];
    let inner = stmts_pieces(stmts);
    let close = seq![mark(TokenKind::RBrace)];
    lemma_reads_split(ts, s.index, open + inner, close);
    lemma_reads_split(ts, s.index, open, inner);
    assert(open[0] == piece_of(ts[s.index as int]));
    assert(close[0] == piece_of(ts[(s.index + 1 + inner.len()) as int]));
    lemma_statements(ts, after(s, 1), stmts, Seq::empty());
    assert(Seq::<StmtView>::empty() + stmts =~= stmts);
    assert(bump(ts, s) == after(s, 1));
    let behind = after(after(s, 1), inner.len());
    assert(expect(ts, behind, TokenKind::RBrace).state == after(s, block_pieces(stmts).len()));
}

/// Canonical statements are read up to the closing brace.
pub proof fn lemma_statements(ts: Seq<Lexeme>, s: State, stmts: Seq<StmtView>, done: Seq<StmtView>)
    requires
        valid_stmts(stmts),
        reads(ts, s.index, stmts_pieces(stmts)),
        peek_kind(ts, s.index + stmts_pieces(stmts).len()) == TokenKind::RBrace,
    ensures
        statements(ts, s, done) == (Parsed {
            value: done + stmts,
            state: after(s, stmts_pieces(stmts).len()),
        }),
    decreases stmts, 0nat,
{
    if stmts.len() == 0 {
        assert(done + stmts =~= done);
    } else {
        let first = stmt_pieces(stmts[0]);
        let rest = stmts.subrange(1, stmts.len() as int);
        lemma_reads_split(ts, s.index, first, stmts_pieces(rest));
        lemma_first_stmt_piece(stmts[0]);
        assert(first[0] == piece_of(ts[s.index as int]));
        let behind = after(s, first.len());
        assert forall|i: int| 0 <= i < rest.len() implies valid_stmt(#[trigger] rest[i]) by {
            assert(rest[i] == stmts[i + 1]);
        }
        if rest.len() > 0 {
            lemma_first_stmt_piece(rest[0]);
            let following = stmt_pieces(rest[0]);
            lemma_reads_split(
                ts,
                behind.index,
                following,
                stmts_pieces(rest.subrange(1, rest.len() as int)),
            );
            assert(following[0] == piece_of(ts[behind.index as int]));
        } else {
            assert(stmts_pieces(rest) =~= Seq::<Piece>::empty());
        }
        lemma_statement(ts, s, stmts[0]);
        lemma_statements(ts, behind, rest, done.push(stmts[0]));
        assert(done.push(stmts[0]) + rest =~= done + stmts);
    }
}

/// A canonical item starts with `fn` or `struct`.
pub proof fn lemma_first_item_piece(it: ItemView)
    requires
        valid_item(it),
    ensures
        item_pieces(it).len() > 0,
        item_pieces(it)[0].kind == TokenKind::KwFn || item_pieces(it)[0].kind
            == TokenKind::KwStruct,
{
    match it {
        ItemView::Struct { name, members } => {
            let pieces = item_pieces(it);
            assert(pieces[0] == mark(TokenKind::KwStruct));
        },
        ItemView::Function { name, parameters, body } => {
            let pieces = item_pieces(it);
            assert(pieces[0] == mark(TokenKind::KwFn));
        },
        ItemView::Error(_) => {},
    }
}

/// The item parser reads a canonical item whole and gives its tree.
pub proof fn lemma_item(ts: Seq<Lexeme>, s: State, it: ItemView)
    requires
        valid_item(it),
        reads(ts, s.index, item_pieces(it)),
    ensures
        item_pieces(it).len() > 0,
        item(ts, s) == (Parsed { value: it, state: after(s, item_pieces(it).len()) }),
{
    lemma_first_item_piece(it);
    let pieces = item_pieces(it);
    assert(pieces[0] == piece_of(ts[s.index as int]));
    let end = after(s, pieces.len());
    assert(bump(ts, s) == after(s, 1));
    match it {
        ItemView::Struct { name, members } => {
            let head = seq![mark(TokenKind::KwStruct)];
            let ty = type_pieces(name);
            let open = seq![mark(TokenKind::LBrace)];
            let list = fields_pieces(members);
            let close = seq![mark(TokenKind::RBrace)];
            lemma_reads_split(ts, s.index, head + ty + open + list, close);
            lemma_reads_split(ts, s.index, head + ty + open, list);
            lemma_reads_split(ts, s.index, head + ty, open);
            lemma_reads_split(ts, s.index, head, ty);
            assert(open[0] == piece_of(ts[(s.index + 1 + ty.len()) as int]));
            assert(close[0] == piece_of(ts[(s.index + 2 + ty.len() + list.len()) as int]));
            lemma_type(ts, after(s, 1), name);
            let named = after(after(s, 1), ty.len());
            assert(expect(ts, named, TokenKind::LBrace).state == after(named, 1));
            lemma_fields(
                ts,
                after(named, 1),
                members,
                TokenKind::RBrace,
                Wanted::Member,
                Seq::empty(),
            );
            assert(Seq::<(Seq<char>, TypeView)>::empty() + members =~= members);
            let listed = after(after(named, 1), list.len());
            assert(expect(ts, listed, TokenKind::RBrace).state == end);
        },
        ItemView::Function { name, parameters, body } => {
            let head = seq![mark(TokenKind::KwFn), word(name), mark(TokenKind::LParen)];
            let list = fields_pieces(parameters);
            let close = seq![mark(TokenKind::RParen)];
            let block = block_pieces(body);
            lemma_reads_split(ts, s.index, head + list + close, block);
            lemma_reads_split(ts, s.index, head + list, close);
            lemma_reads_split(ts, s.index, head, list);
            assert(head[1] == piece_of(ts[(s.index + 1) as int]));
            assert(head[2] == piece_of(ts[(s.index + 2) as int]));
            assert(close[0] == piece_of(ts[(s.index + 3 + list.len()) as int]));
            encode_utf8_decode_utf8(name);
            assert(bump(ts, after(s, 1)) == after(s, 2));
            assert(expect(ts, after(s, 2), TokenKind::LParen).state == after(s, 3));
            lemma_fields(
                ts,
                after(s, 3),
                parameters,
                TokenKind::RParen,
                Wanted::Parameter,
                Seq::empty(),
            );
            assert(Seq::<(Seq<char>, TypeView)>::empty() + parameters =~= parameters);
            let listed = after(after(s, 3), list.len());
            let closed = after(listed, 1);
            assert(expect(ts, listed, TokenKind::RParen).state == closed);
            assert(block[0] == piece_of(ts[closed.index as int]));
            assert(block[0] == mark(TokenKind::LBrace));
            lemma_block(ts, closed, body);
            assert(after(closed, block.len()) == end);
        },
        ItemView::Error(_) => {},
    }
}

/// Canonical items are read up to the end of input.
pub proof fn lemma_items(ts: Seq<Lexeme>, s: State, list: Seq<ItemView>, done: Seq<ItemView>)
    requires
        valid_items(list),
        reads(ts, s.index, items_pieces(list)),
        peek_kind(ts, s.index + items_pieces(list).len()) == TokenKind::EOF,
    ensures
        items(ts, s, done) == (Parsed {
            value: done + list,
            state: after(s, items_pieces(list).len()),
        }),
    decreases list.len(),
{
    if list.len() == 0 {
        assert(done + list =~= done);
    } else {
        let first = item_pieces(list[0]);
        let rest = list.subrange(1, list.len() as int);
        lemma_reads_split(ts, s.index, first, items_pieces(rest));
        lemma_first_item_piece(list[0]);
        assert(first[0] == piece_of(ts[s.index as int]));
        lemma_item(ts, s, list[0]);
        assert forall|i: int| 0 <= i < rest.len() implies valid_item(#[trigger] rest[i]) by {
            assert(rest[i] == list[i + 1]);
        }
        lemma_items(ts, after(s, first.len()), rest, done.push(list[0]));
        assert(done.push(list[0]) + rest =~= done + list);
    }
}

/// A stream that holds the canonical tokens of valid items and then the
/// end of input parses to exactly these items, without a diagnostic.
pub proof fn lemma_canonical_tokens(ts: Seq<Lexeme>, list: Seq<ItemView>)
    requires
        valid_items(list),
        reads(ts, 0, items_pieces(list)),
        peek_kind(ts, items_pieces(list).len()) == TokenKind::EOF,
    ensures
        file(ts) == (Parsed {
            value: list,
            state: State { index: items_pieces(list).len(), errors: Seq::empty() },
        }),
{
    lemma_items(ts, start(), list, Seq::empty());
    assert(Seq::<ItemView>::empty() + list =~= list);
}

/// Parsing the canonical text of valid items gives exactly these items,
/// and no diagnostic: the written form of a tree reads back as the tree.
pub proof fn lemma_round_trip(list: Seq<ItemView>)
    requires
        valid_items(list),
        canonical_text(list).len() <= usize::MAX,
    ensures
        file(lexemes(canonical_text(list))) == (Parsed {
            value: list,
            state: State { index: items_pieces(list).len(), errors: Seq::empty() },
        }),
{
    let pieces = items_pieces(list);
    let text = canonical_text(list);
    assert(Seq::<u8>::empty() + text =~= text);
    lemma_items_lexable(list);
    lemma_render_stream(Seq::empty(), pieces);
    let ts = lexemes(text);
    assert(reads(ts, 0, pieces));
    lemma_canonical_tokens(ts, list);
}

} // verus!
