//! The tokens of a text have the shapes that the canonical form asks for:
//! an identifier token is a valid name, a float token a valid float, and
//! a string token holds a valid string between its quotes.

use crate::canon::{valid_float, valid_name, valid_string};
use crate::literal::string_body;
use crate::scan::{
    fraction_end, has, has_digit, lemma_run_end, lemma_string_end, number_token, run_end,
    string_end, ByteClass, BACKSLASH, DOT, LOWER_E, MINUS, PLUS, QUOTE, UPPER_E,
};
use crate::stream::{
    lemma_boundary_after_ascii, lemma_boundary_at, lemma_lexemes_tokens, lexemes, token_in, Lexeme,
};
use crate::token::TokenKind;
use vstd::prelude::*;
use vstd::utf8::{
    decode_utf8, decode_utf8_encode_utf8, encode_utf8, is_char_boundary,
    is_char_boundary_iff_not_is_continuation_byte, is_char_boundary_start_end_of_seq, valid_utf8,
    valid_utf8_split,
};

verus! {

/// True when the text of the token has the shape that a tree with a
/// canonical form asks of it.
pub open spec fn shaped(l: Lexeme) -> bool {
    match l.kind {
        TokenKind::Ident => valid_name(decode_utf8(l.text)),
        TokenKind::Float => valid_float(decode_utf8(l.text)),
        TokenKind::String => valid_string(decode_utf8(string_body(l.text))),
        _ => true,
    }
}

/// True when each token of the stream has the shape of its kind.
pub open spec fn all_shaped(ts: Seq<Lexeme>) -> bool {
    forall|i: int| 0 <= i < ts.len() ==> shaped(#[trigger] ts[i])
}

/// The part of valid UTF-8 between two character boundaries is valid
/// UTF-8, and encoding what it decodes to gives it back.
pub proof fn lemma_part_valid(src: Seq<u8>, start: int, end: int)
    requires
        valid_utf8(src),
        0 <= start <= end <= src.len(),
        is_char_boundary(src, start),
        is_char_boundary(src, end),
    ensures
        valid_utf8(src.subrange(start, end)),
        encode_utf8(decode_utf8(src.subrange(start, end))) == src.subrange(start, end),
{
    valid_utf8_split(src, end);
    let front = src.subrange(0, end);
    if start < end {
        is_char_boundary_iff_not_is_continuation_byte(src, start);
        is_char_boundary_iff_not_is_continuation_byte(front, start);
    } else {
        is_char_boundary_start_end_of_seq(front);
    }
    valid_utf8_split(front, start);
    assert(front.subrange(start, end) =~= src.subrange(start, end));
    decode_utf8_encode_utf8(src.subrange(start, end));
}

/// A run read in a text is, inside a part of the text that holds it,
/// the same run.
pub proof fn lemma_run_inside(src: Seq<u8>, pos: int, end: int, i: int, class: ByteClass)
    requires
        0 <= pos <= pos + i <= end <= src.len(),
        run_end(src, pos + i, class) <= end,
    ensures
        run_end(src.subrange(pos, end), i, class) == run_end(src, pos + i, class) - pos,
    decreases end - pos - i,
{
    lemma_run_end(src, pos + i, class);
    if pos + i < end {
        if class.holds(src[pos + i]) {
            lemma_run_inside(src, pos, end, i + 1, class);
        }
    }
}

/// A string literal read in a text is, inside the part of the text that
/// it covers, the same literal.
pub proof fn lemma_string_inside(src: Seq<u8>, pos: int, end: int, i: int)
    requires
        0 <= pos <= pos + i <= end <= src.len(),
        string_end(src, pos + i) == Some(end),
    ensures
        string_end(src.subrange(pos, end), i) == Some(end - pos),
    decreases end - pos - i,
{
    lemma_string_end(src, pos + i);
    if pos + i < end {
        if src[pos + i] == QUOTE {
        } else if src[pos + i] == BACKSLASH {
            lemma_string_inside(src, pos, end, i + 2);
        } else {
            lemma_string_inside(src, pos, end, i + 1);
        }
    }
}

/// A number read in a text is, inside the part of the text that it
/// covers, the same number.
pub proof fn lemma_number_inside(src: Seq<u8>, pos: int)
    requires
        0 <= pos < src.len(),
    ensures
        number_token(src.subrange(pos, number_token(src, pos).1), 0) == (
            number_token(src, pos).0,
            number_token(src, pos).1 - pos,
        ),
{
    let end = number_token(src, pos).1;
    let d = run_end(src, pos, ByteClass::Digit);
    lemma_run_end(src, pos, ByteClass::Digit);
    let f = fraction_end(src, d);
    if has(src, d, DOT) && has_digit(src, d + 1) {
        lemma_run_end(src, d + 1, ByteClass::Digit);
    }
    let signed = has(src, f + 1, PLUS) || has(src, f + 1, MINUS);
    let s = if signed {
        f + 2
    } else {
        f + 1
    };
    let exponent = (has(src, f, LOWER_E) || has(src, f, UPPER_E)) && has_digit(src, s);
    if exponent {
        lemma_run_end(src, s, ByteClass::Digit);
    }
    lemma_run_inside(src, pos, end, 0, ByteClass::Digit);
    if has(src, d, DOT) && has_digit(src, d + 1) {
        lemma_run_inside(src, pos, end, d + 1 - pos, ByteClass::Digit);
    }
    if exponent {
        lemma_run_inside(src, pos, end, s - pos, ByteClass::Digit);
    }
}

/// A token of valid UTF-8 has the shape of its kind.
pub proof fn lemma_token_shaped(src: Seq<u8>, l: Lexeme)
    requires
        valid_utf8(src),
        token_in(src, l),
    ensures
        shaped(l),
{
    let start = l.span.start as int;
    let end = l.span.end as int;
    let text = l.text;
    if l.kind == TokenKind::Ident {
        lemma_part_valid(src, start, end);
        lemma_run_end(src, start, ByteClass::IdentContinue);
    } else if l.kind == TokenKind::Float {
        lemma_part_valid(src, start, end);
        lemma_number_inside(src, start);
    } else if l.kind == TokenKind::String {
        lemma_string_end(src, start + 1);
        lemma_boundary_after_ascii(src, start + 1);
        lemma_boundary_at(src, end - 1);
        lemma_part_valid(src, start + 1, end - 1);
        let body = string_body(text);
        assert(body =~= src.subrange(start + 1, end - 1));
        assert(body.push(QUOTE) =~= src.subrange(start + 1, end));
        lemma_string_inside(src, start + 1, end, 0);
    }
}

/// Every token of the stream of valid UTF-8 has the shape of its kind.
pub proof fn lemma_stream_shaped(src: Seq<u8>)
    requires
        valid_utf8(src),
        src.len() <= usize::MAX,
    ensures
        all_shaped(lexemes(src)),
{
    assert forall|i: int| 0 <= i < lexemes(src).len() implies shaped(
        #[trigger] lexemes(src)[i],
    ) by {
        lemma_lexemes_tokens(src, 0, i);
        lemma_token_shaped(src, lexemes(src)[i]);
    }
}

} // verus!
