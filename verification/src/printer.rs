//! The printer: writes a syntax tree in its canonical form, as UTF-8
//! bytes. An error node has no written form and leaves nothing.

use crate::ast::{
    exprs_view, fields_view, items_view, lemma_block_view, lemma_call_view, lemma_if_view,
    lemma_type_view, stmts_view, types_view, Expr, ExprView, Item, ItemView, Lit, Stmt, StmtView,
    Type, TypeView,
};
use crate::canon::{
    args_pieces, block_pieces, canonical_text, digits, expr_pieces, fields_pieces, group_pieces,
    item_pieces, items_pieces, mark, render, separator, spelling, stmt_pieces, stmts_pieces,
    type_pieces, types_pieces, word, Piece,
};
use crate::scan::{
    AMPERSAND, BANG, BLANK, CARET, COLON, COMMA, DIGIT_0, EQUALS, GREATER, LBRACE, LESS, LOWER_C,
    LOWER_E, LOWER_F, LOWER_I, LOWER_L, LOWER_N, LOWER_R, LOWER_S, LOWER_T, LOWER_U, LPAREN, MINUS,
    PIPE, PLUS, QUOTE, RBRACE, RPAREN, SEMICOLON, SLASH, STAR,
};
use crate::token::TokenKind;
use vstd::prelude::*;
use vstd::utf8::encode_utf8;

verus! {

/// The text of pieces in a row is the texts of the runs in a row.
pub proof fn lemma_render_concat(a: Seq<Piece>, b: Seq<Piece>)
    ensures
        render(a + b) == render(a) + render(b),
    decreases a.len(),
{
    if a.len() == 0 {
        assert(a + b =~= b);
        assert(render(a) + render(b) =~= render(b));
    } else {
        let rest = a.subrange(1, a.len() as int);
        lemma_render_concat(rest, b);
        assert((a + b).subrange(1, (a + b).len() as int) =~= rest + b);
        assert((a + b)[0] == a[0]);
        assert(render(a + b) =~= render(a) + render(b));
    }
}

/// The text of one piece is its bytes and a blank.
pub proof fn lemma_render_one(p: Piece)
    ensures
        render(seq![p]) == p.text.push(BLANK),
{
    let one = seq![p];
    assert(one.subrange(1, 1) =~= Seq::<Piece>::empty());
    assert(render(one.subrange(1, 1)) =~= Seq::<u8>::empty());
    assert(render(one) =~= p.text.push(BLANK));
}

/// Writes one piece, given by its bytes.
fn write(out: &mut Vec<u8>, text: &[u8])
    ensures
        final(out)@ == old(out)@ + text@.push(BLANK),
{
    out.extend_from_slice(text);
    out.push(BLANK);
    assert(out@ =~= old(out)@ + text@.push(BLANK));
}

/// Writes a name.
fn write_word(out: &mut Vec<u8>, name: &String)
    ensures
        final(out)@ == old(out)@ + render(seq![word(name@)]),
{
    proof {
        lemma_render_one(word(name@));
    }
    write(out, name.as_str().as_bytes());
}

/// Writes a keyword, an operator or a punctuation mark.
fn write_mark(out: &mut Vec<u8>, kind: TokenKind)
    ensures
        final(out)@ == old(out)@ + render(seq![mark(kind)]),
{
    proof {
        lemma_render_one(mark(kind));
    }
    match kind {
        TokenKind::Colon => out.push(COLON),
        TokenKind::Comma => out.push(COMMA),
        TokenKind::SemiColon => out.push(SEMICOLON),
        TokenKind::Caret => out.push(CARET),
        TokenKind::Eq => out.push(EQUALS),
        TokenKind::Plus => out.push(PLUS),
        TokenKind::Minus => out.push(MINUS),
        TokenKind::Times => out.push(STAR),
        TokenKind::Slash => out.push(SLASH),
        TokenKind::Bang => out.push(BANG),
        TokenKind::And => {
            out.push(AMPERSAND);
            out.push(AMPERSAND);
        },
        TokenKind::Or => {
            out.push(PIPE);
            out.push(PIPE);
        },
        TokenKind::Eqq => {
            out.push(EQUALS);
            out.push(EQUALS);
        },
        TokenKind::Neq => {
            out.push(BANG);
            out.push(EQUALS);
        },
        TokenKind::Leq => {
            out.push(LESS);
            out.push(EQUALS);
        },
        TokenKind::Geq => {
            out.push(GREATER);
            out.push(EQUALS);
        },
        TokenKind::LAngle => out.push(LESS),
        TokenKind::RAngle => out.push(GREATER),
        TokenKind::LParen => out.push(LPAREN),
        TokenKind::RParen => out.push(RPAREN),
        TokenKind::LBrace => out.push(LBRACE),
        TokenKind::RBrace => out.push(RBRACE),
        TokenKind::KwLet => {
            out.push(LOWER_L);
            out.push(LOWER_E);
            out.push(LOWER_T);
        },
        TokenKind::KwIf => {
            out.push(LOWER_I);
            out.push(LOWER_F);
        },
        TokenKind::KwElse => {
            out.push(LOWER_E);
            out.push(LOWER_L);
            out.push(LOWER_S);
            out.push(LOWER_E);
        },
        TokenKind::KwFn => {
            out.push(LOWER_F);
            out.push(LOWER_N);
        },
        TokenKind::KwStruct => {
            out.push(LOWER_S);
            out.push(LOWER_T);
            out.push(LOWER_R);
            out.push(LOWER_U);
            out.push(LOWER_C);
            out.push(LOWER_T);
        },
        _ => {},
    }
    out.push(BLANK);
    assert(out@ =~= old(out)@ + spelling(kind).push(BLANK));
}

/// Writes a comma where more elements follow.
fn write_separator(out: &mut Vec<u8>, more: bool)
    ensures
        final(out)@ == old(out)@ + render(separator(more)),
{
    if more {
        write_mark(out, TokenKind::Comma);
    } else {
        assert(out@ + render(separator(more)) =~= out@);
    }
}

/// Writes the digits of a number, without a blank behind them.
fn write_digits(out: &mut Vec<u8>, n: usize)
    ensures
        final(out)@ == old(out)@ + digits(n as nat),
    decreases n,
{
    if n < 10 {
        out.push(DIGIT_0 + n as u8);
        assert(out@ =~= old(out)@ + digits(n as nat));
    } else {
        write_digits(out, n / 10);
        out.push(DIGIT_0 + (n % 10) as u8);
        assert(out@ =~= old(out)@ + digits(n as nat));
    }
}

/// Writes an expression.
pub fn print_expr(e: &Expr, out: &mut Vec<u8>)
    ensures
        final(out)@ == old(out)@ + render(expr_pieces(e@)),
    decreases e, 0nat,
{
    match e {
        Expr::Literal(Lit::Int(value)) => {
            proof {
                lemma_render_one(Piece { kind: TokenKind::Int, text: digits(*value as nat) });
            }
            write_digits(out, *value);
            out.push(BLANK);
            assert(out@ =~= old(out)@ + digits(*value as nat).push(BLANK));
        },
        Expr::Literal(Lit::Float(literal)) => {
            proof {
                lemma_render_one(Piece { kind: TokenKind::Float, text: encode_utf8(literal@) });
            }
            write(out, literal.as_str().as_bytes());
        },
        Expr::Literal(Lit::Str(body)) => {
            let ghost text = seq![QUOTE] + encode_utf8(body@).push(QUOTE);
            proof {
                lemma_render_one(Piece { kind: TokenKind::String, text });
            }
            out.push(QUOTE);
            out.extend_from_slice(body.as_str().as_bytes());
            out.push(QUOTE);
            out.push(BLANK);
            assert(out@ =~= old(out)@ + text.push(BLANK));
        },
        Expr::Ident(name) => {
            write_word(out, name);
        },
        Expr::FnCall { name, args } => {
            let ghost head = seq![word(name@), mark(TokenKind::LParen)];
            let ghost list = args_pieces(exprs_view(args@));
            let ghost close = seq![mark(TokenKind::RParen)];
            proof {
                lemma_call_view(*name, *args);
                assert(head =~= seq![word(name@)] + seq![mark(TokenKind::LParen)]);
                lemma_render_concat(seq![word(name@)], seq![mark(TokenKind::LParen)]);
                lemma_render_concat(head, list);
                lemma_render_concat(head + list, close);
            }
            write_word(out, name);
            write_mark(out, TokenKind::LParen);
            print_args(args, out);
            write_mark(out, TokenKind::RParen);
            assert(out@ =~= old(out)@ + render(head + list + close));
        },
        Expr::PrefixOp { op, operand } => {
            proof {
                lemma_render_concat(seq![mark(*op)], group_pieces(operand@));
            }
            write_mark(out, *op);
            print_group(operand, out);
            assert(out@ =~= old(out)@ + render(seq![mark(*op)] + group_pieces(operand@)));
        },
        Expr::InfixOp { op, lhs, rhs } => {
            proof {
                lemma_render_concat(group_pieces(lhs@), seq![mark(*op)]);
                lemma_render_concat(group_pieces(lhs@) + seq![mark(*op)], group_pieces(rhs@));
            }
            print_group(lhs, out);
            write_mark(out, *op);
            print_group(rhs, out);
            assert(out@ =~= old(out)@ + render(
                group_pieces(lhs@) + seq![mark(*op)] + group_pieces(rhs@),
            ));
        },
        Expr::PostfixOp { op, operand } => {
            proof {
                lemma_render_concat(group_pieces(operand@), seq![mark(*op)]);
            }
            print_group(operand, out);
            write_mark(out, *op);
            assert(out@ =~= old(out)@ + render(group_pieces(operand@) + seq![mark(*op)]));
        },
    }
}

/// Writes an expression in parentheses.
fn print_group(e: &Expr, out: &mut Vec<u8>)
    ensures
        final(out)@ == old(out)@ + render(group_pieces(e@)),
    decreases e, 1nat,
{
    let ghost open = seq![mark(TokenKind::LParen)];
    let ghost close = seq![mark(TokenKind::RParen)];
    proof {
        lemma_render_concat(open, expr_pieces(e@));
        lemma_render_concat(open + expr_pieces(e@), close);
    }
    write_mark(out, TokenKind::LParen);
    print_expr(e, out);
    write_mark(out, TokenKind::RParen);
    assert(out@ =~= old(out)@ + render(open + expr_pieces(e@) + close));
}

/// Writes the arguments of a call, with a comma between two of them.
fn print_args(args: &Vec<Expr>, out: &mut Vec<u8>)
    ensures
        final(out)@ == old(out)@ + render(args_pieces(exprs_view(args@))),
    decreases args, 0nat,
{
    let ghost all = exprs_view(args@);
    let mut i: usize = 0;
    assert(all.subrange(0, all.len() as int) =~= all);
    while i < args.len()
        invariant
            i <= args.len(),
            all == exprs_view(args@),
            out@ + render(args_pieces(all.subrange(i as int, all.len() as int))) == old(out)@
                + render(args_pieces(all)),
        decreases args.len() - i,
    {
        let ghost left = all.subrange(i as int, all.len() as int);
        let ghost rest = all.subrange(i + 1, all.len() as int);
        let ghost before = out@;
        let more = i + 1 < args.len();
        proof {
            assert(left.subrange(1, left.len() as int) =~= rest);
            assert(left[0] == args@[i as int]@);
            lemma_render_concat(expr_pieces(left[0]) + separator(more), args_pieces(rest));
            lemma_render_concat(expr_pieces(left[0]), separator(more));
        }
        print_expr(&args[i], out);
        write_separator(out, more);
        assert(out@ + render(args_pieces(rest)) =~= before + render(args_pieces(left)));
        i = i + 1;
    }
    assert(all.subrange(i as int, all.len() as int) =~= Seq::<ExprView>::empty());
    assert(out@ + render(args_pieces(Seq::<ExprView>::empty())) =~= out@);
}

/// Writes a type.
pub fn print_type(t: &Type, out: &mut Vec<u8>)
    ensures
        final(out)@ == old(out)@ + render(type_pieces(t@)),
    decreases t, 0nat,
{
    proof {
        lemma_type_view(*t);
    }
    if t.generics.len() == 0 {
        write_word(out, &t.name);
    } else {
        let ghost head = seq![word(t.name@), mark(TokenKind::LAngle)];
        let ghost list = types_pieces(types_view(t.generics@));
        let ghost close = seq![mark(TokenKind::RAngle)];
        proof {
            assert(head =~= seq![word(t.name@)] + seq![mark(TokenKind::LAngle)]);
            lemma_render_concat(seq![word(t.name@)], seq![mark(TokenKind::LAngle)]);
            lemma_render_concat(head, list);
            lemma_render_concat(head + list, close);
        }
        write_word(out, &t.name);
        write_mark(out, TokenKind::LAngle);
        print_types(&t.generics, out);
        write_mark(out, TokenKind::RAngle);
        assert(out@ =~= old(out)@ + render(head + list + close));
    }
}

/// Writes generic arguments, with a comma between two of them.
fn print_types(types: &Vec<Type>, out: &mut Vec<u8>)
    ensures
        final(out)@ == old(out)@ + render(types_pieces(types_view(types@))),
    decreases types, 0nat,
{
    let ghost all = types_view(types@);
    let mut i: usize = 0;
    assert(all.subrange(0, all.len() as int) =~= all);
    while i < types.len()
        invariant
            i <= types.len(),
            all == types_view(types@),
            out@ + render(types_pieces(all.subrange(i as int, all.len() as int))) == old(out)@
                + render(types_pieces(all)),
        decreases types.len() - i,
    {
        let ghost left = all.subrange(i as int, all.len() as int);
        let ghost rest = all.subrange(i + 1, all.len() as int);
        let ghost before = out@;
        let more = i + 1 < types.len();
        proof {
            assert(left.subrange(1, left.len() as int) =~= rest);
            assert(left[0] == types@[i as int]@);
            lemma_render_concat(type_pieces(left[0]) + separator(more), types_pieces(rest));
            lemma_render_concat(type_pieces(left[0]), separator(more));
        }
        print_type(&types[i], out);
        write_separator(out, more);
        assert(out@ + render(types_pieces(rest)) =~= before + render(types_pieces(left)));
        i = i + 1;
    }
    assert(all.subrange(i as int, all.len() as int) =~= Seq::<TypeView>::empty());
    assert(out@ + render(types_pieces(Seq::<TypeView>::empty())) =~= out@);
}

/// Writes parameters or members, with a comma between two of them.
fn print_fields(list: &Vec<(String, Type)>, out: &mut Vec<u8>)
    ensures
        final(out)@ == old(out)@ + render(fields_pieces(fields_view(list@))),
{
    let ghost all = fields_view(list@);
    let mut i: usize = 0;
    assert(all.subrange(0, all.len() as int) =~= all);
    while i < list.len()
        invariant
            i <= list.len(),
            all == fields_view(list@),
            out@ + render(fields_pieces(all.subrange(i as int, all.len() as int))) == old(out)@
                + render(fields_pieces(all)),
        decreases list.len() - i,
    {
        let ghost left = all.subrange(i as int, all.len() as int);
        let ghost rest = all.subrange(i + 1, all.len() as int);
        let ghost before = out@;
        let more = i + 1 < list.len();
        let ghost head = seq![word(left[0].0), mark(TokenKind::Colon)];
        proof {
            assert(left.subrange(1, left.len() as int) =~= rest);
            assert(left[0] == (list@[i as int].0@, list@[i as int].1@));
            assert(head =~= seq![word(left[0].0)] + seq![mark(TokenKind::Colon)]);
            lemma_render_concat(seq![word(left[0].0)], seq![mark(TokenKind::Colon)]);
            lemma_render_concat(head, type_pieces(left[0].1));
            lemma_render_concat(head + type_pieces(left[0].1), separator(more));
            lemma_render_concat(
                head + type_pieces(left[0].1) + separator(more),
                fields_pieces(rest),
            );
        }
        write_word(out, &list[i].0);
        write_mark(out, TokenKind::Colon);
        print_type(&list[i].1, out);
        write_separator(out, more);
        assert(out@ + render(fields_pieces(rest)) =~= before + render(fields_pieces(left)));
        i = i + 1;
    }
    assert(all.subrange(i as int, all.len() as int) =~= Seq::<(Seq<char>, TypeView)>::empty());
    assert(out@ + render(fields_pieces(Seq::<(Seq<char>, TypeView)>::empty())) =~= out@);
}

/// Writes a statement.
#[verifier::rlimit(20)]
pub fn print_stmt(st: &Stmt, out: &mut Vec<u8>)
    ensures
        final(out)@ == old(out)@ + render(stmt_pieces(st@)),
    decreases st, 0nat,
{
    match st {
        Stmt::Let { var_name, value } => {
            let ghost head = seq![
                mark(TokenKind::KwLet),
                word(var_name@),
                mark(TokenKind::Eq),
            ];
            let ghost close = seq![mark(TokenKind::SemiColon)];
            proof {
                let a = seq![mark(TokenKind::KwLet)];
                let b = seq![word(var_name@)];
                let c = seq![mark(TokenKind::Eq)];
                assert(head =~= a + b + c);
                lemma_render_concat(a, b);
                lemma_render_concat(a + b, c);
                lemma_render_concat(head, expr_pieces(value@));
                lemma_render_concat(head + expr_pieces(value@), close);
            }
            write_mark(out, TokenKind::KwLet);
            write_word(out, var_name);
            write_mark(out, TokenKind::Eq);
            print_expr(value, out);
            write_mark(out, TokenKind::SemiColon);
            assert(out@ =~= old(out)@ + render(head + expr_pieces(value@) + close));
        },
        Stmt::Assignment { var_name, value } => {
            let ghost head = seq![word(var_name@), mark(TokenKind::Eq)];
            let ghost close = seq![mark(TokenKind::SemiColon)];
            proof {
                let a = seq![word(var_name@)];
                let b = seq![mark(TokenKind::Eq)];
                assert(head =~= a + b);
                lemma_render_concat(a, b);
                lemma_render_concat(head, expr_pieces(value@));
                lemma_render_concat(head + expr_pieces(value@), close);
            }
            write_word(out, var_name);
            write_mark(out, TokenKind::Eq);
            print_expr(value, out);
            write_mark(out, TokenKind::SemiColon);
            assert(out@ =~= old(out)@ + render(head + expr_pieces(value@) + close));
        },
        Stmt::IfStmt { condition, body, else_branch } => {
            let ghost head = seq![mark(TokenKind::KwIf), mark(TokenKind::LParen)];
            let ghost test = expr_pieces(condition@);
            let ghost close = seq![mark(TokenKind::RParen)];
            let ghost block = block_pieces(stmts_view(body@));
            let ghost tail = match else_branch {
                Some(branch) => seq![mark(TokenKind::KwElse)] + stmt_pieces(branch@),
                None => Seq::empty(),
            };
            proof {
                lemma_if_view(*condition, *body, *else_branch);
                let a = seq![mark(TokenKind::KwIf)];
                let b = seq![mark(TokenKind::LParen)];
                assert(head =~= a + b);
                lemma_render_concat(a, b);
                lemma_render_concat(head, test);
                lemma_render_concat(head + test, close);
                lemma_render_concat(head + test + close, block);
                lemma_render_concat(head + test + close + block, tail);
            }
            write_mark(out, TokenKind::KwIf);
            write_mark(out, TokenKind::LParen);
            print_expr(condition, out);
            write_mark(out, TokenKind::RParen);
            print_block(body, out);
            match else_branch {
                Some(branch) => {
                    proof {
                        lemma_render_concat(seq![mark(TokenKind::KwElse)], stmt_pieces(branch@));
                    }
                    write_mark(out, TokenKind::KwElse);
                    print_stmt(branch, out);
                },
                None => {},
            }
            assert(out@ =~= old(out)@ + render(head + test + close + block + tail));
        },
        Stmt::Block { stmts } => {
            proof {
                lemma_block_view(*stmts);
            }
            print_block(stmts, out);
        },
        Stmt::Error(_) => {
            assert(out@ + render(Seq::<Piece>::empty()) =~= out@);
        },
    }
}

/// Writes statements between braces.
fn print_block(stmts: &Vec<Stmt>, out: &mut Vec<u8>)
    ensures
        final(out)@ == old(out)@ + render(block_pieces(stmts_view(stmts@))),
    decreases stmts, 1nat,
{
    let ghost open = seq![mark(TokenKind::LBrace)];
    let ghost inner = stmts_pieces(stmts_view(stmts@));
    let ghost close = seq![mark(TokenKind::RBrace)];
    proof {
        lemma_render_concat(open, inner);
        lemma_render_concat(open + inner, close);
    }
    write_mark(out, TokenKind::LBrace);
    print_stmts(stmts, out);
    write_mark(out, TokenKind::RBrace);
    assert(out@ =~= old(out)@ + render(open + inner + close));
}

/// Writes statements in a row.
fn print_stmts(stmts: &Vec<Stmt>, out: &mut Vec<u8>)
    ensures
        final(out)@ == old(out)@ + render(stmts_pieces(stmts_view(stmts@))),
    decreases stmts, 0nat,
{
    let ghost all = stmts_view(stmts@);
    let mut i: usize = 0;
    assert(all.subrange(0, all.len() as int) =~= all);
    while i < stmts.len()
        invariant
            i <= stmts.len(),
            all == stmts_view(stmts@),
            out@ + render(stmts_pieces(all.subrange(i as int, all.len() as int))) == old(out)@
                + render(stmts_pieces(all)),
        decreases stmts.len() - i,
    {
        let ghost left = all.subrange(i as int, all.len() as int);
        let ghost rest = all.subrange(i + 1, all.len() as int);
        let ghost before = out@;
        proof {
            assert(left.subrange(1, left.len() as int) =~= rest);
            assert(left[0] == stmts@[i as int]@);
            lemma_render_concat(stmt_pieces(left[0]), stmts_pieces(rest));
        }
        print_stmt(&stmts[i], out);
        assert(out@ + render(stmts_pieces(rest)) =~= before + render(stmts_pieces(left)));
        i = i + 1;
    }
    assert(all.subrange(i as int, all.len() as int) =~= Seq::<StmtView>::empty());
    assert(out@ + render(stmts_pieces(Seq::<StmtView>::empty())) =~= out@);
}

/// Writes an item.
pub fn print_item(item: &Item, out: &mut Vec<u8>)
    ensures
        final(out)@ == old(out)@ + render(item_pieces(item@)),
{
    match item {
        Item::Struct { name, members } => {
            let ghost head = seq![mark(TokenKind::KwStruct)];
            let ghost ty = type_pieces(name@);
            let ghost open = seq![mark(TokenKind::LBrace)];
            let ghost list = fields_pieces(fields_view(members@));
            let ghost close = seq![mark(TokenKind::RBrace)];
            proof {
                lemma_render_concat(head, ty);
                lemma_render_concat(head + ty, open);
                lemma_render_concat(head + ty + open, list);
                lemma_render_concat(head + ty + open + list, close);
            }
            write_mark(out, TokenKind::KwStruct);
            print_type(name, out);
            write_mark(out, TokenKind::LBrace);
            print_fields(members, out);
            write_mark(out, TokenKind::RBrace);
            assert(out@ =~= old(out)@ + render(head + ty + open + list + close));
        },
        Item::Function { name, parameters, body } => {
            let ghost head = seq![
                mark(TokenKind::KwFn),
                word(name@),
                mark(TokenKind::LParen),
            ];
            let ghost list = fields_pieces(fields_view(parameters@));
            let ghost close = seq![mark(TokenKind::RParen)];
            let ghost block = block_pieces(stmts_view(body@));
            proof {
                let a = seq![mark(TokenKind::KwFn)];
                let b = seq![word(name@)];
                let c = seq![mark(TokenKind::LParen)];
                assert(head =~= a + b + c);
                lemma_render_concat(a, b);
                lemma_render_concat(a + b, c);
                lemma_render_concat(head, list);
                lemma_render_concat(head + list, close);
                lemma_render_concat(head + list + close, block);
            }
            write_mark(out, TokenKind::KwFn);
            write_word(out, name);
            write_mark(out, TokenKind::LParen);
            print_fields(parameters, out);
            write_mark(out, TokenKind::RParen);
            print_block(body, out);
            assert(out@ =~= old(out)@ + render(head + list + close + block));
        },
        Item::Error(_) => {
            assert(out@ + render(Seq::<Piece>::empty()) =~= out@);
        },
    }
}

/// The canonical text of a list of items, as UTF-8 bytes.
pub fn print(items: &Vec<Item>) -> (text: Vec<u8>)
    ensures
        text@ == canonical_text(items_view(items@)),
{
    let ghost all = items_view(items@);
    let mut out: Vec<u8> = Vec::new();
    let mut i: usize = 0;
    assert(all.subrange(0, all.len() as int) =~= all);
    assert(out@ + render(items_pieces(all)) =~= render(items_pieces(all)));
    while i < items.len()
        invariant
            i <= items.len(),
            all == items_view(items@),
            out@ + render(items_pieces(all.subrange(i as int, all.len() as int))) == render(
                items_pieces(all),
            ),
        decreases items.len() - i,
    {
        let ghost left = all.subrange(i as int, all.len() as int);
        let ghost rest = all.subrange(i + 1, all.len() as int);
        let ghost before = out@;
        proof {
            assert(left.subrange(1, left.len() as int) =~= rest);
            assert(left[0] == items@[i as int]@);
            lemma_render_concat(item_pieces(left[0]), items_pieces(rest));
        }
        print_item(&items[i], &mut out);
        assert(out@ + render(items_pieces(rest)) =~= before + render(items_pieces(left)));
        i = i + 1;
    }
    assert(all.subrange(i as int, all.len() as int) =~= Seq::<ItemView>::empty());
    assert(out@ + render(items_pieces(Seq::<ItemView>::empty())) =~= out@);
    out
}

} // verus!
