//! Scanning the canonical text of pieces gives the pieces back.

use crate::ast::{ExprView, ItemView, LitView, StmtView, TypeView};
use crate::canon::{
    args_pieces, block_pieces, digits, expr_pieces, fields_pieces, group_pieces, item_pieces,
    items_pieces, mark, piece_of, render, separator, spelling, stmt_pieces, stmts_pieces,
    type_pieces, types_pieces, valid_expr, valid_fields, valid_item, valid_items, valid_name,
    valid_stmt, valid_stmts, valid_type, word, Piece,
};
use crate::roundtrip::lemma_digits;
use crate::scan::{
    exponent_end, fraction_end, has, has_digit, is_alpha, is_digit, lemma_next_token,
    lemma_raw_token_bounds, lemma_run_end, next_token, number_token, raw_token, run_end, string_end,
    word_kind, ByteClass, BACKSLASH, BLANK, DOT, LOWER_E, MINUS, PLUS, QUOTE, UPPER_E,
};
use crate::stream::{lemma_lexemes_from, lexeme_of, lexemes_from};
use crate::token::TokenKind;
use vstd::prelude::*;
use vstd::utf8::encode_utf8;

verus! {

/// True when the scanner reads the piece back wherever a blank follows
/// it: a name is an identifier and no keyword, an integer a run of
/// digits, a float and a string what their rules read whole, and every
/// other piece is written as its kind is spelled.
#[verifier::opaque]
pub open spec fn lexable(p: Piece) -> bool {
    let text = p.text;
    match p.kind {
        TokenKind::Ident => {
            &&& text.len() > 0
            &&& is_alpha(text[0])
            &&& forall|i: int|
                0 <= i < text.len() ==> ByteClass::IdentContinue.holds(#[trigger] text[i])
            &&& word_kind(text) == TokenKind::Ident
        },
        TokenKind::Int => {
            &&& text.len() > 0
            &&& forall|i: int| 0 <= i < text.len() ==> is_digit(#[trigger] text[i])
        },
        TokenKind::Float => {
            &&& text.len() > 0
            &&& is_digit(text[0]) || (text[0] == DOT && has_digit(text, 1))
            &&& number_token(text, 0) == (TokenKind::Float, text.len() as int)
        },
        TokenKind::String => {
            &&& text.len() >= 2
            &&& text[0] == QUOTE
            &&& string_end(text, 1) == Some(text.len() as int)
        },
        kind => text.len() > 0 && text == spelling(kind),
    }
}

/// True when each of the pieces is lexable.
pub open spec fn all_lexable(pieces: Seq<Piece>) -> bool {
    forall|k: int| 0 <= k < pieces.len() ==> lexable(#[trigger] pieces[k])
}

/// True when `src` holds `text` from offset `pos` on.
pub open spec fn holds_at(src: Seq<u8>, pos: int, text: Seq<u8>) -> bool {
    &&& 0 <= pos
    &&& pos + text.len() <= src.len()
    &&& forall|i: int| 0 <= i < text.len() ==> src[pos + i] == #[trigger] text[i]
}

/// A run inside a text that is followed by a byte of another class is
/// the same run wherever the text stands.
pub proof fn lemma_run_shift(src: Seq<u8>, pos: int, text: Seq<u8>, i: int, class: ByteClass)
    requires
        holds_at(src, pos, text),
        0 <= i <= text.len(),
        pos + text.len() == src.len() || !class.holds(src[pos + text.len()]),
    ensures
        run_end(src, pos + i, class) == pos + run_end(text, i, class),
    decreases text.len() - i,
{
    if i < text.len() {
        assert(src[pos + i] == text[i]);
        if class.holds(text[i]) {
            lemma_run_shift(src, pos, text, i + 1, class);
        }
    }
}

/// A string literal read inside a text is the same literal wherever the
/// text stands.
pub proof fn lemma_string_shift(src: Seq<u8>, pos: int, text: Seq<u8>, i: int)
    requires
        holds_at(src, pos, text),
        0 <= i,
        string_end(text, i) is Some,
    ensures
        string_end(src, pos + i) == Some(pos + string_end(text, i)->0),
    decreases text.len() - i,
{
    if i < text.len() {
        assert(src[pos + i] == text[i]);
        if text[i] == QUOTE {
        } else if text[i] == BACKSLASH {
            assert(src[pos + i + 1] == text[i + 1]);
            lemma_string_shift(src, pos, text, i + 2);
        } else {
            lemma_string_shift(src, pos, text, i + 1);
        }
    }
}

/// A number read whole inside a text is the same number where the text
/// stands in front of a blank or the end.
pub proof fn lemma_number_shift(src: Seq<u8>, pos: int, text: Seq<u8>)
    requires
        holds_at(src, pos, text),
        text.len() > 0,
        pos + text.len() == src.len() || src[pos + text.len()] == BLANK,
        number_token(text, 0).1 == text.len(),
    ensures
        number_token(src, pos) == (number_token(text, 0).0, pos + text.len()),
{
    let n = text.len() as int;
    let d = run_end(text, 0, ByteClass::Digit);
    lemma_run_end(text, 0, ByteClass::Digit);
    lemma_run_shift(src, pos, text, 0, ByteClass::Digit);
    assert(run_end(src, pos, ByteClass::Digit) == pos + d);
    if d < n {
        assert(src[pos + d] == text[d]);
    }
    if d + 1 < n {
        assert(src[pos + d + 1] == text[d + 1]);
    }
    let f = fraction_end(text, d);
    if has(text, d, DOT) && has_digit(text, d + 1) {
        lemma_run_end(text, d + 1, ByteClass::Digit);
        lemma_run_shift(src, pos, text, d + 1, ByteClass::Digit);
    }
    assert(fraction_end(src, pos + d) == pos + f);
    if f < n {
        assert(src[pos + f] == text[f]);
    }
    if f + 1 < n {
        assert(src[pos + f + 1] == text[f + 1]);
    }
    if f + 2 < n {
        assert(src[pos + f + 2] == text[f + 2]);
    }
    if has(text, f, LOWER_E) || has(text, f, UPPER_E) {
        let s = if has(text, f + 1, PLUS) || has(text, f + 1, MINUS) {
            f + 2
        } else {
            f + 1
        };
        if has_digit(text, s) {
            lemma_run_end(text, s, ByteClass::Digit);
            lemma_run_shift(src, pos, text, s, ByteClass::Digit);
        }
    }
    assert(exponent_end(src, pos + f) == pos + exponent_end(text, f));
}

/// The scanner reads a lexable piece back where a blank follows it.
pub proof fn lemma_scan_piece(src: Seq<u8>, pos: int, p: Piece)
    requires
        lexable(p),
        holds_at(src, pos, p.text),
        pos + p.text.len() < src.len(),
        src[pos + p.text.len()] == BLANK,
    ensures
        raw_token(src, pos) == (p.kind, pos + p.text.len()),
        src.subrange(pos, pos + p.text.len()) == p.text,
        p.text.len() > 0,
        !ByteClass::Space.holds(src[pos]),
        !p.kind.is_trivia(),
        p.kind != TokenKind::EOF,
{
    reveal(lexable);
    let text = p.text;
    let n = text.len() as int;
    assert(src.subrange(pos, pos + n) =~= text);
    assert(src[pos] == text[0]);
    if n > 1 {
        assert(src[pos + 1] == text[1]);
    }
    match p.kind {
        TokenKind::Ident => {
            lemma_run_window(src, pos, text, ByteClass::IdentContinue);
        },
        TokenKind::Int => {
            lemma_run_window(src, pos, text, ByteClass::Digit);
        },
        TokenKind::Float => {
            lemma_number_shift(src, pos, text);
        },
        TokenKind::String => {
            lemma_string_shift(src, pos, text, 1);
        },
        TokenKind::KwLet | TokenKind::KwIf | TokenKind::KwElse | TokenKind::KwFn
        | TokenKind::KwStruct => {
            assert forall|i: int| 0 <= i < text.len() implies ByteClass::IdentContinue.holds(
                #[trigger] text[i],
            ) by {}
            lemma_run_window(src, pos, text, ByteClass::IdentContinue);
        },
        _ => {},
    }
}

/// A text made of bytes of one class, followed by a byte of another
/// class, is a run of that class.
pub proof fn lemma_run_window(src: Seq<u8>, pos: int, text: Seq<u8>, class: ByteClass)
    requires
        holds_at(src, pos, text),
        forall|i: int| 0 <= i < text.len() ==> class.holds(#[trigger] text[i]),
        pos + text.len() == src.len() || !class.holds(src[pos + text.len()]),
    ensures
        run_end(src, pos, class) == pos + text.len(),
{
    lemma_run_shift(src, pos, text, 0, class);
    lemma_run_full(text, 0, class);
}

/// A text made of bytes of one class is one run.
pub proof fn lemma_run_full(text: Seq<u8>, i: int, class: ByteClass)
    requires
        0 <= i <= text.len(),
        forall|k: int| 0 <= k < text.len() ==> class.holds(#[trigger] text[k]),
    ensures
        run_end(text, i, class) == text.len(),
    decreases text.len() - i,
{
    if i < text.len() {
        lemma_run_full(text, i + 1, class);
    }
}

/// Where the text of pieces stands behind `front`, the first piece
/// stands at the end of `front`, a blank behind it, and behind the blank
/// the text of the other pieces.
pub proof fn lemma_render_head(front: Seq<u8>, pieces: Seq<Piece>)
    requires
        pieces.len() > 0,
    ensures
        ({
            let src = front + render(pieces);
            let pos = front.len() as int;
            let n = pieces[0].text.len() as int;
            let rest = pieces.subrange(1, pieces.len() as int);
            &&& holds_at(src, pos, pieces[0].text)
            &&& pos + n < src.len()
            &&& src[pos + n] == BLANK
            &&& src.subrange(pos + n + 1, src.len() as int) == render(rest)
            &&& src == (front + pieces[0].text.push(BLANK)) + render(rest)
        }),
{
    let src = front + render(pieces);
    let pos = front.len() as int;
    let p = pieces[0];
    let n = p.text.len() as int;
    let rest = pieces.subrange(1, pieces.len() as int);
    let written = p.text.push(BLANK);
    assert(render(pieces) == written + render(rest));
    assert forall|i: int| 0 <= i < n implies src[pos + i] == #[trigger] p.text[i] by {
        assert(src[pos + i] == render(pieces)[i]);
        assert(render(pieces)[i] == written[i]);
    }
    assert(src[pos + n] == render(pieces)[n]);
    assert(render(pieces)[n] == written[n]);
    assert(src.subrange(pos + n + 1, src.len() as int) =~= render(rest));
    assert(src =~= (front + written) + render(rest));
}

/// The stream read from where a lexable piece stands in front of a blank
/// starts with that piece and goes on from the blank.
pub proof fn lemma_first_lexeme(src: Seq<u8>, pos: int, p: Piece)
    requires
        lexable(p),
        holds_at(src, pos, p.text),
        pos + p.text.len() < src.len() <= usize::MAX,
        src[pos + p.text.len()] == BLANK,
    ensures
        lexemes_from(src, pos).len() > 0,
        piece_of(lexemes_from(src, pos)[0]) == p,
        lexemes_from(src, pos) == seq![lexemes_from(src, pos)[0]] + lexemes_from(
            src,
            pos + p.text.len(),
        ),
{
    lemma_scan_piece(src, pos, p);
    lemma_raw_token_bounds(src, pos);
    lemma_next_token(src, pos);
    lemma_lexemes_from(src, pos);
    let t = next_token(src, pos);
    assert(t.span.start == pos && t.span.end == pos + p.text.len());
    assert(piece_of(lexeme_of(src, t)) == p);
}

/// The stream of the text that lexable pieces make, read from where
/// their text starts, holds exactly these pieces and the end-of-input
/// marker.
#[verifier::rlimit(20)]
pub proof fn lemma_render_stream(front: Seq<u8>, pieces: Seq<Piece>)
    requires
        all_lexable(pieces),
        (front + render(pieces)).len() <= usize::MAX,
    ensures
        ({
            let stream = lexemes_from(front + render(pieces), front.len() as int);
            &&& stream.len() == pieces.len() + 1
            &&& stream.last().kind == TokenKind::EOF
            &&& forall|k: int| 0 <= k < pieces.len() ==> #[trigger] pieces[k] == piece_of(stream[k])
        }),
    decreases pieces.len(),
{
    let src = front + render(pieces);
    let pos = front.len() as int;
    if pieces.len() == 0 {
        assert(src =~= front);
        lemma_next_token(src, pos);
        lemma_lexemes_from(src, pos);
    } else {
        let p = pieces[0];
        let n = p.text.len() as int;
        let rest = pieces.subrange(1, pieces.len() as int);
        lemma_render_head(front, pieces);
        lemma_first_lexeme(src, pos, p);
        assert(all_lexable(rest)) by {
            assert forall|k: int| 0 <= k < rest.len() implies lexable(#[trigger] rest[k]) by {
                assert(rest[k] == pieces[k + 1]);
            }
        }
        lemma_render_stream(front + p.text.push(BLANK), rest);
        lemma_blank(src, pos + n, rest);
        let tail = lexemes_from(src, pos + n + 1);
        let stream = lexemes_from(src, pos);
        assert(stream == seq![stream[0]] + tail);
        assert forall|k: int| 0 <= k < pieces.len() implies #[trigger] pieces[k] == piece_of(
            stream[k],
        ) by {
            if k > 0 {
                assert(stream[k] == tail[k - 1]);
                assert(rest[k - 1] == pieces[k]);
            }
        }
    }
}

/// One blank between two pieces is skipped: the stream read from the
/// blank is the stream read from the byte behind it.
pub proof fn lemma_blank(src: Seq<u8>, at: int, rest: Seq<Piece>)
    requires
        0 <= at < src.len() <= usize::MAX,
        src[at] == BLANK,
        all_lexable(rest),
        src.subrange(at + 1, src.len() as int) == render(rest),
    ensures
        lexemes_from(src, at) == lexemes_from(src, at + 1),
{
    lemma_run_end(src, at, ByteClass::Space);
    lemma_run_end(src, at + 1, ByteClass::Space);
    if rest.len() > 0 {
        let p = rest[0];
        lemma_first_byte(p);
        let written = p.text.push(BLANK);
        assert(render(rest) == written + render(rest.subrange(1, rest.len() as int)));
        assert(src[at + 1] == src.subrange(at + 1, src.len() as int)[0]);
        assert(render(rest)[0] == written[0]);
        assert(written[0] == p.text[0]);
        assert(!ByteClass::Space.holds(src[at + 1]));
    } else {
        assert(render(rest) =~= Seq::<u8>::empty());
        assert(src.subrange(at + 1, src.len() as int).len() == 0);
    }
    assert(run_end(src, at + 1, ByteClass::Space) == at + 1);
    assert(run_end(src, at, ByteClass::Space) == at + 1);
    assert(raw_token(src, at) == (TokenKind::Whitespace, at + 1));
    assert(next_token(src, at) == next_token(src, at + 1));
    lemma_next_token(src, at + 1);
}

/// A lexable piece is not empty and does not start with whitespace.
pub proof fn lemma_first_byte(p: Piece)
    requires
        lexable(p),
    ensures
        p.text.len() > 0,
        !ByteClass::Space.holds(p.text[0]),
{
    reveal(lexable);
}

/// Pieces in a row are lexable where each run of them is.
pub proof fn lemma_lexable_concat(a: Seq<Piece>, b: Seq<Piece>)
    requires
        all_lexable(a),
        all_lexable(b),
    ensures
        all_lexable(a + b),
{
    assert forall|k: int| 0 <= k < (a + b).len() implies lexable(#[trigger] (a + b)[k]) by {
        if k < a.len() {
            assert((a + b)[k] == a[k]);
        } else {
            assert((a + b)[k] == b[k - a.len()]);
        }
    }
}

/// Keywords, operators and punctuation marks are lexable as spelled.
pub proof fn lemma_mark_lexable(kind: TokenKind)
    requires
        spelling(kind).len() > 0,
    ensures
        lexable(mark(kind)),
        all_lexable(seq![mark(kind)]),
{
    reveal(lexable);
}

/// A valid name is lexable.
pub proof fn lemma_word_lexable(name: Seq<char>)
    requires
        valid_name(name),
    ensures
        lexable(word(name)),
        all_lexable(seq![word(name)]),
{
    reveal(lexable);
}

/// The pieces of a valid expression are lexable.
pub proof fn lemma_expr_lexable(e: ExprView)
    requires
        valid_expr(e),
    ensures
        all_lexable(expr_pieces(e)),
    decreases e, 0nat,
{
    match e {
        ExprView::Literal(LitView::Int(value)) => {
            lemma_digits(value);
            assert(lexable(Piece { kind: TokenKind::Int, text: digits(value) })) by {
                reveal(lexable);
            }
        },
        ExprView::Literal(LitView::Float(literal)) => {
            assert(lexable(Piece { kind: TokenKind::Float, text: encode_utf8(literal) })) by {
                reveal(lexable);
            }
        },
        ExprView::Literal(LitView::Str(body)) => {
            let inner = encode_utf8(body).push(QUOTE);
            let text = seq![QUOTE] + inner;
            assert(holds_at(text, 1, inner));
            lemma_string_shift(text, 1, inner, 0);
            assert(lexable(Piece { kind: TokenKind::String, text })) by {
                reveal(lexable);
            }
        },
        ExprView::Ident(name) => {
            lemma_word_lexable(name);
        },
        ExprView::FnCall { name, args } => {
            lemma_word_lexable(name);
            lemma_mark_lexable(TokenKind::LParen);
            lemma_mark_lexable(TokenKind::RParen);
            lemma_args_lexable(args);
            let head = seq![word(name), mark(TokenKind::LParen)];
            assert(head =~= seq![word(name)] + seq![mark(TokenKind::LParen)]);
            lemma_lexable_concat(seq![word(name)], seq![mark(TokenKind::LParen)]);
            lemma_lexable_concat(head, args_pieces(args));
            lemma_lexable_concat(head + args_pieces(args), seq![mark(TokenKind::RParen)]);
        },
        ExprView::PrefixOp { op, operand } => {
            lemma_mark_lexable(op);
            lemma_group_lexable(*operand);
            lemma_lexable_concat(seq![mark(op)], group_pieces(*operand));
        },
        ExprView::InfixOp { op, lhs, rhs } => {
            lemma_mark_lexable(op);
            lemma_group_lexable(*lhs);
            lemma_group_lexable(*rhs);
            lemma_lexable_concat(group_pieces(*lhs), seq![mark(op)]);
            lemma_lexable_concat(group_pieces(*lhs) + seq![mark(op)], group_pieces(*rhs));
        },
        ExprView::PostfixOp { op, operand } => {
            lemma_mark_lexable(op);
            lemma_group_lexable(*operand);
            lemma_lexable_concat(group_pieces(*operand), seq![mark(op)]);
        },
    }
}

/// The pieces of a valid expression in parentheses are lexable.
pub proof fn lemma_group_lexable(e: ExprView)
    requires
        valid_expr(e),
    ensures
        all_lexable(group_pieces(e)),
    decreases e, 1nat,
{
    lemma_mark_lexable(TokenKind::LParen);
    lemma_mark_lexable(TokenKind::RParen);
    lemma_expr_lexable(e);
    lemma_lexable_concat(seq![mark(TokenKind::LParen)], expr_pieces(e));
    lemma_lexable_concat(
        seq![mark(TokenKind::LParen)] + expr_pieces(e),
        seq![mark(TokenKind::RParen)],
    );
}

/// A comma is a lexable separator, and so is none.
pub proof fn lemma_separator_lexable(more: bool)
    ensures
        all_lexable(separator(more)),
{
    lemma_mark_lexable(TokenKind::Comma);
}

/// The pieces of valid arguments are lexable.
pub proof fn lemma_args_lexable(args: Seq<ExprView>)
    requires
        forall|i: int| 0 <= i < args.len() ==> valid_expr(#[trigger] args[i]),
    ensures
        all_lexable(args_pieces(args)),
    decreases args, 0nat,
{
    if args.len() > 0 {
        let rest = args.subrange(1, args.len() as int);
        assert forall|i: int| 0 <= i < rest.len() implies valid_expr(#[trigger] rest[i]) by {
            assert(rest[i] == args[i + 1]);
        }
        lemma_expr_lexable(args[0]);
        lemma_separator_lexable(args.len() > 1);
        lemma_args_lexable(rest);
        lemma_lexable_concat(expr_pieces(args[0]), separator(args.len() > 1));
        lemma_lexable_concat(
            expr_pieces(args[0]) + separator(args.len() > 1),
            args_pieces(rest),
        );
    }
}

/// The pieces of a valid type are lexable.
pub proof fn lemma_type_lexable(t: TypeView)
    requires
        valid_type(t),
    ensures
        all_lexable(type_pieces(t)),
    decreases t, 0nat,
{
    lemma_word_lexable(t.name);
    if t.generics.len() > 0 {
        lemma_mark_lexable(TokenKind::LAngle);
        lemma_mark_lexable(TokenKind::RAngle);
        lemma_types_lexable(t.generics);
        let head = seq![word(t.name), mark(TokenKind::LAngle)];
        assert(head =~= seq![word(t.name)] + seq![mark(TokenKind::LAngle)]);
        lemma_lexable_concat(seq![word(t.name)], seq![mark(TokenKind::LAngle)]);
        lemma_lexable_concat(head, types_pieces(t.generics));
        lemma_lexable_concat(head + types_pieces(t.generics), seq![mark(TokenKind::RAngle)]);
    }
}

/// The pieces of valid generic arguments are lexable.
pub proof fn lemma_types_lexable(types: Seq<TypeView>)
    requires
        forall|i: int| 0 <= i < types.len() ==> valid_type(#[trigger] types[i]),
    ensures
        all_lexable(types_pieces(types)),
    decreases types, 0nat,
{
    if types.len() > 0 {
        let rest = types.subrange(1, types.len() as int);
        assert forall|i: int| 0 <= i < rest.len() implies valid_type(#[trigger] rest[i]) by {
            assert(rest[i] == types[i + 1]);
        }
        lemma_type_lexable(types[0]);
        lemma_separator_lexable(types.len() > 1);
        lemma_types_lexable(rest);
        lemma_lexable_concat(type_pieces(types[0]), separator(types.len() > 1));
        lemma_lexable_concat(
            type_pieces(types[0]) + separator(types.len() > 1),
            types_pieces(rest),
        );
    }
}

/// The pieces of valid parameters or members are lexable.
pub proof fn lemma_fields_lexable(list: Seq<(Seq<char>, TypeView)>)
    requires
        valid_fields(list),
    ensures
        all_lexable(fields_pieces(list)),
    decreases list.len(),
{
    if list.len() > 0 {
        let rest = list.subrange(1, list.len() as int);
        assert forall|i: int| 0 <= i < rest.len() implies valid_name((#[trigger] rest[i]).0)
            && valid_type(rest[i].1) by {
            assert(rest[i] == list[i + 1]);
        }
        lemma_word_lexable(list[0].0);
        lemma_mark_lexable(TokenKind::Colon);
        lemma_type_lexable(list[0].1);
        lemma_separator_lexable(list.len() > 1);
        lemma_fields_lexable(rest);
        let head = seq![word(list[0].0), mark(TokenKind::Colon)];
        assert(head =~= seq![word(list[0].0)] + seq![mark(TokenKind::Colon)]);
        lemma_lexable_concat(seq![word(list[0].0)], seq![mark(TokenKind::Colon)]);
        lemma_lexable_concat(head, type_pieces(list[0].1));
        lemma_lexable_concat(head + type_pieces(list[0].1), separator(list.len() > 1));
        lemma_lexable_concat(
            head + type_pieces(list[0].1) + separator(list.len() > 1),
            fields_pieces(rest),
        );
    }
}

/// The pieces of a valid statement are lexable.
pub proof fn lemma_stmt_lexable(st: StmtView)
    requires
        valid_stmt(st),
    ensures
        all_lexable(stmt_pieces(st)),
    decreases st, 0nat,
{
    match st {
        StmtView::Let { var_name, value } => {
            lemma_mark_lexable(TokenKind::KwLet);
            lemma_word_lexable(var_name);
            lemma_mark_lexable(TokenKind::Eq);
            lemma_mark_lexable(TokenKind::SemiColon);
            lemma_expr_lexable(value);
            let head = seq![mark(TokenKind::KwLet), word(var_name), mark(TokenKind::Eq)];
            assert(head =~= seq![mark(TokenKind::KwLet)] + seq![word(var_name)] + seq![
                mark(TokenKind::Eq),
            ]);
            lemma_lexable_concat(seq![mark(TokenKind::KwLet)], seq![word(var_name)]);
            lemma_lexable_concat(
                seq![mark(TokenKind::KwLet)] + seq![word(var_name)],
                seq![mark(TokenKind::Eq)],
            );
            lemma_lexable_concat(head, expr_pieces(value));
            lemma_lexable_concat(head + expr_pieces(value), seq![mark(TokenKind::SemiColon)]);
        },
        StmtView::Assignment { var_name, value } => {
            lemma_word_lexable(var_name);
            lemma_mark_lexable(TokenKind::Eq);
            lemma_mark_lexable(TokenKind::SemiColon);
            lemma_expr_lexable(value);
            let head = seq![word(var_name), mark(TokenKind::Eq)];
            assert(head =~= seq![word(var_name)] + seq![mark(TokenKind::Eq)]);
            lemma_lexable_concat(seq![word(var_name)], seq![mark(TokenKind::Eq)]);
            lemma_lexable_concat(head, expr_pieces(value));
            lemma_lexable_concat(head + expr_pieces(value), seq![mark(TokenKind::SemiColon)]);
        },
        StmtView::IfStmt { condition, body, else_branch } => {
            lemma_mark_lexable(TokenKind::KwIf);
            lemma_mark_lexable(TokenKind::LParen);
            lemma_mark_lexable(TokenKind::RParen);
            lemma_expr_lexable(condition);
            lemma_block_lexable(body);
            let head = seq![mark(TokenKind::KwIf), mark(TokenKind::LParen)];
            assert(head =~= seq![mark(TokenKind::KwIf)] + seq![mark(TokenKind::LParen)]);
            lemma_lexable_concat(seq![mark(TokenKind::KwIf)], seq![mark(TokenKind::LParen)]);
            lemma_lexable_concat(head, expr_pieces(condition));
            lemma_lexable_concat(head + expr_pieces(condition), seq![mark(TokenKind::RParen)]);
            let front = head + expr_pieces(condition) + seq![mark(TokenKind::RParen)];
            lemma_lexable_concat(front, block_pieces(body));
            let tail = match else_branch {
                Some(branch) => seq![mark(TokenKind::KwElse)] + stmt_pieces(*branch),
                None => Seq::empty(),
            };
            match else_branch {
                Some(branch) => {
                    lemma_mark_lexable(TokenKind::KwElse);
                    lemma_stmt_lexable(*branch);
                    lemma_lexable_concat(seq![mark(TokenKind::KwElse)], stmt_pieces(*branch));
                },
                None => {},
            }
            lemma_lexable_concat(front + block_pieces(body), tail);
        },
        StmtView::Block { stmts } => {
            lemma_block_lexable(stmts);
        },
        StmtView::Error(_) => {},
    }
}

/// The pieces of a block of valid statements are lexable.
pub proof fn lemma_block_lexable(stmts: Seq<StmtView>)
    requires
        valid_stmts(stmts),
    ensures
        all_lexable(block_pieces(stmts)),
    decreases stmts, 1nat,
{
    lemma_mark_lexable(TokenKind::LBrace);
    lemma_mark_lexable(TokenKind::RBrace);
    lemma_stmts_lexable(stmts);
    lemma_lexable_concat(seq![mark(TokenKind::LBrace)], stmts_pieces(stmts));
    lemma_lexable_concat(
        seq![mark(TokenKind::LBrace)] + stmts_pieces(stmts),
        seq![mark(TokenKind::RBrace)],
    );
}

/// The pieces of valid statements are lexable.
pub proof fn lemma_stmts_lexable(stmts: Seq<StmtView>)
    requires
        valid_stmts(stmts),
    ensures
        all_lexable(stmts_pieces(stmts)),
    decreases stmts, 0nat,
{
    if stmts.len() > 0 {
        let rest = stmts.subrange(1, stmts.len() as int);
        assert forall|i: int| 0 <= i < rest.len() implies valid_stmt(#[trigger] rest[i]) by {
            assert(rest[i] == stmts[i + 1]);
        }
        lemma_stmt_lexable(stmts[0]);
        lemma_stmts_lexable(rest);
        lemma_lexable_concat(stmt_pieces(stmts[0]), stmts_pieces(rest));
    }
}

/// The pieces of a valid item are lexable.
pub proof fn lemma_item_lexable(it: ItemView)
    requires
        valid_item(it),
    ensures
        all_lexable(item_pieces(it)),
{
    match it {
        ItemView::Struct { name, members } => {
            lemma_mark_lexable(TokenKind::KwStruct);
            lemma_mark_lexable(TokenKind::LBrace);
            lemma_mark_lexable(TokenKind::RBrace);
            lemma_type_lexable(name);
            lemma_fields_lexable(members);
            let a = seq![mark(TokenKind::KwStruct)] + type_pieces(name);
            lemma_lexable_concat(seq![mark(TokenKind::KwStruct)], type_pieces(name));
            lemma_lexable_concat(a, seq![mark(TokenKind::LBrace)]);
            lemma_lexable_concat(a + seq![mark(TokenKind::LBrace)], fields_pieces(members));
            lemma_lexable_concat(
                a + seq![mark(TokenKind::LBrace)] + fields_pieces(members),
                seq![mark(TokenKind::RBrace)],
            );
        },
        ItemView::Function { name, parameters, body } => {
            lemma_mark_lexable(TokenKind::KwFn);
            lemma_word_lexable(name);
            lemma_mark_lexable(TokenKind::LParen);
            lemma_mark_lexable(TokenKind::RParen);
            lemma_fields_lexable(parameters);
            lemma_block_lexable(body);
            let head = seq![mark(TokenKind::KwFn), word(name), mark(TokenKind::LParen)];
            assert(head =~= seq![mark(TokenKind::KwFn)] + seq![word(name)] + seq![
                mark(TokenKind::LParen),
            ]);
            lemma_lexable_concat(seq![mark(TokenKind::KwFn)], seq![word(name)]);
            lemma_lexable_concat(
                seq![mark(TokenKind::KwFn)] + seq![word(name)],
                seq![mark(TokenKind::LParen)],
            );
            lemma_lexable_concat(head, fields_pieces(parameters));
            lemma_lexable_concat(head + fields_pieces(parameters), seq![mark(TokenKind::RParen)]);
            lemma_lexable_concat(
                head + fields_pieces(parameters) + seq![mark(TokenKind::RParen)],
                block_pieces(body),
            );
        },
        ItemView::Error(_) => {},
    }
}

/// Every piece of the canonical form of valid items is lexable.
pub proof fn lemma_items_lexable(list: Seq<ItemView>)
    requires
        valid_items(list),
    ensures
        all_lexable(items_pieces(list)),
    decreases list.len(),
{
    if list.len() > 0 {
        let rest = list.subrange(1, list.len() as int);
        assert forall|i: int| 0 <= i < rest.len() implies valid_item(#[trigger] rest[i]) by {
            assert(rest[i] == list[i + 1]);
        }
        lemma_item_lexable(list[0]);
        lemma_items_lexable(rest);
        lemma_lexable_concat(item_pieces(list[0]), items_pieces(rest));
    }
}

} // verus!
