//! The token stream of a text as a mathematical sequence, and the facts
//! about UTF-8 that let a token's text be cut out of the source.

use crate::scan::{
    eof_token, fraction_end, has, has_digit, is_alpha, is_digit, lemma_next_token,
    lemma_raw_token_bounds, lemma_run_end, lemma_string_end, next_token, number_token, raw_token,
    run_end, ByteClass, DOT, LOWER_E, MINUS, PLUS, QUOTE, UPPER_E,
};
use crate::token::{Span, Token, TokenKind};
use vstd::prelude::*;
use vstd::utf8::*;

verus! {

/// A token together with the bytes it covers.
pub struct Lexeme {
    pub kind: TokenKind,
    pub span: Span,
    pub text: Seq<u8>,
}

/// The token with the bytes that it covers in `src`.
pub open spec fn lexeme_of(src: Seq<u8>, t: Token) -> Lexeme {
    Lexeme {
        kind: t.kind,
        span: t.span,
        text: src.subrange(t.span.start as int, t.span.end as int),
    }
}

/// The tokens of `src` from offset `pos` on, without whitespace and
/// comments, closed by the end-of-input marker.
pub open spec fn lexemes_from(src: Seq<u8>, pos: int) -> Seq<Lexeme>
    decreases src.len() - pos,
{
    let t = next_token(src, pos);
    if t.kind != TokenKind::EOF && pos < t.span.end <= src.len() {
        seq![lexeme_of(src, t)] + lexemes_from(src, t.span.end as int)
    } else {
        seq![lexeme_of(src, t)]
    }
}

/// The token stream of a whole text.
pub open spec fn lexemes(src: Seq<u8>) -> Seq<Lexeme> {
    lexemes_from(src, 0)
}

/// What the parser may rely on in a stream: it ends with the end-of-input
/// marker, which occurs nowhere else, and holds no whitespace or comment.
pub open spec fn well_formed(ts: Seq<Lexeme>) -> bool {
    &&& ts.len() > 0
    &&& ts.last().kind == TokenKind::EOF
    &&& forall|i: int| 0 <= i < ts.len() - 1 ==> (#[trigger] ts[i]).kind != TokenKind::EOF
    &&& forall|i: int| 0 <= i < ts.len() ==> !(#[trigger] ts[i]).kind.is_trivia()
}

/// The stream read from `pos` is well formed, starts with the token found
/// from `pos`, and goes on behind that token unless it is the
/// end-of-input marker.
pub proof fn lemma_lexemes_from(src: Seq<u8>, pos: int)
    requires
        0 <= pos <= src.len() <= usize::MAX,
    ensures
        well_formed(lexemes_from(src, pos)),
        lexemes_from(src, pos)[0] == lexeme_of(src, next_token(src, pos)),
        next_token(src, pos).kind == TokenKind::EOF ==> lexemes_from(src, pos).len() == 1,
        next_token(src, pos).kind != TokenKind::EOF ==> lexemes_from(src, pos) =~= seq![
            lexeme_of(src, next_token(src, pos)),
        ] + lexemes_from(src, next_token(src, pos).span.end as int),
    decreases src.len() - pos,
{
    lemma_next_token(src, pos);
    let t = next_token(src, pos);
    if t.kind != TokenKind::EOF {
        lemma_lexemes_from(src, t.span.end as int);
        let rest = lexemes_from(src, t.span.end as int);
        let all = lexemes_from(src, pos);
        assert(all =~= seq![lexeme_of(src, t)] + rest);
        assert forall|i: int| 0 <= i < all.len() - 1 implies (#[trigger] all[i]).kind
            != TokenKind::EOF by {
            if i > 0 {
                assert(all[i] == rest[i - 1]);
            }
        }
        assert forall|i: int| 0 <= i < all.len() implies !(#[trigger] all[i]).kind.is_trivia() by {
            if i > 0 {
                assert(all[i] == rest[i - 1]);
            }
        }
    }
}

/// In valid UTF-8 a character starts right behind every ASCII byte.
pub proof fn lemma_boundary_after_ascii(src: Seq<u8>, i: int)
    requires
        valid_utf8(src),
        0 < i <= src.len(),
        src[i - 1] < 0x80,
    ensures
        is_char_boundary(src, i),
{
    if i == src.len() {
        is_char_boundary_start_end_of_seq(src);
    } else {
        is_char_boundary_iff_not_is_continuation_byte(src, i - 1);
        valid_utf8_split(src, i - 1);
        let tail = src.subrange(i - 1, src.len() as int);
        assert(tail[0] == src[i - 1]);
        assert(valid_utf8(tail));
        assert(length_of_first_scalar(tail) == 1);
        let rest = pop_first_scalar(tail);
        assert(rest =~= src.subrange(i, src.len() as int));
        assert(valid_utf8(rest));
        assert(rest.len() > 0);
        assert(valid_first_scalar(rest));
        assert(rest[0] == src[i]);
        assert(!is_continuation_byte(src[i]));
        is_char_boundary_iff_not_is_continuation_byte(src, i);
    }
}

/// An offset is a character boundary of valid UTF-8 when it is the end of
/// the text or the byte there is no continuation byte.
pub proof fn lemma_boundary_at(src: Seq<u8>, i: int)
    requires
        valid_utf8(src),
        0 <= i <= src.len(),
        i < src.len() ==> !is_continuation_byte(src[i]),
    ensures
        is_char_boundary(src, i),
{
    if i == src.len() {
        is_char_boundary_start_end_of_seq(src);
    } else {
        is_char_boundary_iff_not_is_continuation_byte(src, i);
    }
}

/// Every token of valid UTF-8 ends where a character ends.
pub proof fn lemma_raw_token_boundary(src: Seq<u8>, pos: int)
    requires
        valid_utf8(src),
        0 <= pos < src.len(),
    ensures
        is_char_boundary(src, raw_token(src, pos).1),
{
    lemma_raw_token_bounds(src, pos);
    let (kind, end) = raw_token(src, pos);
    let b = src[pos];
    if kind == TokenKind::Error {
        lemma_run_end(src, pos + 1, ByteClass::Continuation);
        lemma_boundary_at(src, end);
    } else if kind == TokenKind::Comment {
        lemma_run_end(src, pos + 2, ByteClass::NotNewline);
        lemma_boundary_at(src, end);
    } else if kind == TokenKind::String {
        lemma_string_end(src, pos + 1);
        lemma_boundary_after_ascii(src, end);
    } else if kind == TokenKind::Whitespace {
        lemma_run_end(src, pos, ByteClass::Space);
        lemma_boundary_after_ascii(src, end);
    } else if is_alpha(b) {
        lemma_run_end(src, pos, ByteClass::IdentContinue);
        lemma_boundary_after_ascii(src, end);
    } else if kind == TokenKind::Int || kind == TokenKind::Float {
        lemma_number_last_digit(src, pos);
        lemma_boundary_after_ascii(src, end);
    } else {
        lemma_boundary_after_ascii(src, end);
    }
}

/// A numeric literal ends with a digit.
pub proof fn lemma_number_last_digit(src: Seq<u8>, pos: int)
    requires
        0 <= pos < src.len(),
        is_digit(src[pos]) || (src[pos] == DOT && has_digit(src, pos + 1)),
    ensures
        pos < number_token(src, pos).1 <= src.len(),
        is_digit(src[number_token(src, pos).1 - 1]),
{
    let d = run_end(src, pos, ByteClass::Digit);
    lemma_run_end(src, pos, ByteClass::Digit);
    let f = fraction_end(src, d);
    if has(src, d, DOT) && has_digit(src, d + 1) {
        lemma_run_end(src, d + 1, ByteClass::Digit);
    }
    if has(src, f, LOWER_E) || has(src, f, UPPER_E) {
        let s = if has(src, f + 1, PLUS) || has(src, f + 1, MINUS) {
            f + 2
        } else {
            f + 1
        };
        if has_digit(src, s) {
            lemma_run_end(src, s, ByteClass::Digit);
        }
    }
}

/// The token found from a character boundary of valid UTF-8 starts and
/// ends at character boundaries.
pub proof fn lemma_next_token_boundary(src: Seq<u8>, pos: int)
    requires
        valid_utf8(src),
        0 <= pos <= src.len() <= usize::MAX,
        is_char_boundary(src, pos),
    ensures
        is_char_boundary(src, next_token(src, pos).span.start as int),
        is_char_boundary(src, next_token(src, pos).span.end as int),
    decreases src.len() - pos,
{
    if pos < src.len() {
        lemma_raw_token_bounds(src, pos);
        lemma_raw_token_boundary(src, pos);
        let (kind, end) = raw_token(src, pos);
        if kind.is_trivia() {
            lemma_next_token_boundary(src, end);
        }
    } else {
        is_char_boundary_start_end_of_seq(src);
    }
}

/// The kind and the span of a token of a stream.
pub open spec fn token_of(l: Lexeme) -> Token {
    Token { kind: l.kind, span: l.span }
}

/// The token that a fresh cursor holds before it has consumed any.
pub open spec fn initial_token() -> Token {
    Token { kind: TokenKind::Error, span: Span { start: 0, end: 0 } }
}

/// The kind of the token that a cursor at index `i` looks at. Behind the
/// end of the stream it is the end-of-input marker again.
pub open spec fn peek_kind(ts: Seq<Lexeme>, i: nat) -> TokenKind {
    if i < ts.len() {
        ts[i as int].kind
    } else {
        TokenKind::EOF
    }
}

/// The span of the token that a cursor at index `i` looks at.
pub open spec fn peek_span(ts: Seq<Lexeme>, i: nat) -> Span {
    if i < ts.len() {
        ts[i as int].span
    } else if ts.len() > 0 {
        ts.last().span
    } else {
        Span { start: 0, end: 0 }
    }
}

/// The index of a cursor after it has consumed the token at index `i`.
/// The end-of-input marker can be consumed once; behind it nothing moves.
pub open spec fn advance(ts: Seq<Lexeme>, i: nat) -> nat {
    if i < ts.len() {
        i + 1
    } else {
        i
    }
}

/// The token that a cursor at index `i` has consumed last.
pub open spec fn current_token(ts: Seq<Lexeme>, i: nat) -> Token {
    if 0 < i <= ts.len() {
        token_of(ts[i - 1])
    } else {
        initial_token()
    }
}

/// The bytes of the token that a cursor at index `i` has consumed last.
pub open spec fn current_text(ts: Seq<Lexeme>, i: nat) -> Seq<u8> {
    if 0 < i <= ts.len() {
        ts[i - 1].text
    } else {
        Seq::empty()
    }
}

/// True when `l` is a token of `src` as the grammar defines it.
pub open spec fn token_in(src: Seq<u8>, l: Lexeme) -> bool {
    &&& l == lexeme_of(src, token_of(l))
    &&& l.span.start <= l.span.end <= src.len()
    &&& l.kind == TokenKind::EOF ==> token_of(l) == eof_token(src)
    &&& l.kind != TokenKind::EOF ==> (l.kind, l.span.end as int) == raw_token(
        src,
        l.span.start as int,
    ) && l.span.start < l.span.end
    &&& valid_utf8(src) ==> is_char_boundary(src, l.span.start as int) && is_char_boundary(
        src,
        l.span.end as int,
    )
}

/// Each element of the stream of a text is a token of that text.
pub proof fn lemma_lexemes_tokens(src: Seq<u8>, pos: int, i: int)
    requires
        0 <= pos <= src.len() <= usize::MAX,
        valid_utf8(src) ==> is_char_boundary(src, pos),
        0 <= i < lexemes_from(src, pos).len(),
    ensures
        token_in(src, lexemes_from(src, pos)[i]),
        pos <= lexemes_from(src, pos)[i].span.start,
    decreases src.len() - pos,
{
    lemma_next_token(src, pos);
    lemma_lexemes_from(src, pos);
    if valid_utf8(src) {
        lemma_next_token_boundary(src, pos);
    }
    let t = next_token(src, pos);
    if i > 0 {
        lemma_lexemes_tokens(src, t.span.end as int, i - 1);
    }
}

/// A string literal is at least two bytes long and stands between quotes;
/// an integer literal is a run of digits.
pub proof fn lemma_literal_shape(src: Seq<u8>, l: Lexeme)
    requires
        token_in(src, l),
    ensures
        l.kind == TokenKind::String ==> l.text.len() >= 2 && l.text[0] == QUOTE && l.text.last()
            == QUOTE,
        l.kind == TokenKind::Int ==> l.text.len() >= 1 && forall|k: int|
            0 <= k < l.text.len() ==> is_digit(#[trigger] l.text[k]),
{
    let start = l.span.start as int;
    if l.kind == TokenKind::String {
        lemma_string_end(src, start + 1);
        lemma_run_end(src, start, ByteClass::IdentContinue);
    }
    if l.kind == TokenKind::Int {
        lemma_run_end(src, start, ByteClass::Digit);
        lemma_run_end(src, start, ByteClass::IdentContinue);
        lemma_number_last_digit_or_none(src, start);
    }
}

/// The number rule gives `Int` only where the literal is the run of digits.
pub proof fn lemma_number_last_digit_or_none(src: Seq<u8>, pos: int)
    requires
        0 <= pos < src.len(),
    ensures
        number_token(src, pos).0 == TokenKind::Int ==> number_token(src, pos).1 == run_end(
            src,
            pos,
            ByteClass::Digit,
        ),
{
}

/// True when the tokens of the stream stand in the order of the text.
pub open spec fn ordered(ts: Seq<Lexeme>) -> bool {
    forall|i: int, j: int|
        0 <= i <= j < ts.len() ==> (#[trigger] ts[i]).span.start <= (#[trigger] ts[j]).span.start
}

/// The tokens of a text stand in the order of the text.
pub proof fn lemma_lexemes_ordered(src: Seq<u8>, pos: int)
    requires
        0 <= pos <= src.len() <= usize::MAX,
    ensures
        ordered(lexemes_from(src, pos)),
        forall|i: int|
            0 <= i < lexemes_from(src, pos).len() ==> pos <= (#[trigger] lexemes_from(
                src,
                pos,
            )[i]).span.start,
    decreases src.len() - pos,
{
    lemma_next_token(src, pos);
    lemma_lexemes_from(src, pos);
    let t = next_token(src, pos);
    let all = lexemes_from(src, pos);
    if t.kind != TokenKind::EOF {
        let rest = lexemes_from(src, t.span.end as int);
        lemma_lexemes_ordered(src, t.span.end as int);
        assert forall|i: int| 0 <= i < all.len() implies pos <= (#[trigger] all[i]).span.start by {
            if i > 0 {
                assert(all[i] == rest[i - 1]);
            }
        }
        assert forall|i: int, j: int| 0 <= i <= j < all.len() implies (#[trigger] all[i]).span.start
            <= (#[trigger] all[j]).span.start by {
            if i > 0 {
                assert(all[i] == rest[i - 1]);
                assert(all[j] == rest[j - 1]);
            } else if j > 0 {
                assert(all[j] == rest[j - 1]);
            }
        }
    }
}

} // verus!
