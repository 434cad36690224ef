//! The cursor over the token stream of a text: one token of lookahead,
//! and the span and text of the token consumed last.

use crate::literal::string_body;
use crate::scan::{lemma_next_token, next_token, scan_token};
use crate::stream::{
    advance, current_text, current_token, lemma_boundary_after_ascii, lemma_boundary_at,
    lemma_lexemes_from, lemma_lexemes_tokens, lemma_literal_shape, lexeme_of, lexemes, lexemes_from,
    peek_kind, peek_span, token_in, well_formed, Lexeme,
};
pub use crate::token::{Span, Token, TokenKind};
use vstd::prelude::*;
use vstd::string::StringSliceAdditionalSpecFns;
use vstd::utf8::{
    decode_utf8, encode_utf8_decode_utf8, encode_utf8_valid_utf8, is_char_boundary,
    is_char_boundary_iff_not_is_continuation_byte, is_char_boundary_start_end_of_seq, valid_utf8,
};

verus! {

/// A cursor over the tokens of a text. Whitespace and comments are
/// skipped; behind the last token stands the end-of-input marker.
pub struct Lexer<'a> {
    input: &'a str,
    /// Offset behind the token consumed last.
    pos: usize,
    /// The token consumed last.
    token: Token,
    /// The token behind `pos`, once it has been looked at.
    lookahead: Option<Token>,
    /// How many tokens have been consumed.
    index: Ghost<nat>,
}

impl<'a> Lexer<'a> {
    /// The bytes of the text.
    pub closed spec fn source(&self) -> Seq<u8> {
        self.input.spec_bytes()
    }

    /// The token stream of the text.
    pub open spec fn stream(&self) -> Seq<Lexeme> {
        lexemes(self.source())
    }

    /// The number of tokens consumed, the end-of-input marker included.
    pub closed spec fn index(&self) -> nat {
        self.index@
    }

    /// What every operation keeps: the cursor stands at a token of the text,
    /// and the slots hold what the stream says.
    pub closed spec fn wf(&self) -> bool {
        let src = self.source();
        let ts = lexemes(src);
        let k = if self.index@ < ts.len() {
            self.index@ as int
        } else {
            ts.len() - 1
        };
        &&& src.len() <= usize::MAX
        &&& valid_utf8(src)
        &&& self.pos <= src.len()
        &&& is_char_boundary(src, self.pos as int)
        &&& self.index@ <= ts.len()
        &&& lexemes_from(src, self.pos as int) =~= ts.subrange(k, ts.len() as int)
        &&& self.token == current_token(ts, self.index@)
        &&& (self.lookahead matches Some(t) ==> t == next_token(src, self.pos as int))
    }

    /// In a well-formed cursor the index lies inside the stream or right
    /// behind it, the stream is well formed and made of tokens of the text.
    pub proof fn lemma_wf(&self)
        requires
            self.wf(),
        ensures
            self.index() <= self.stream().len(),
            well_formed(self.stream()),
            self.source().len() <= usize::MAX,
            valid_utf8(self.source()),
            forall|i: int|
                0 <= i < self.stream().len() ==> token_in(
                    self.source(),
                    #[trigger] self.stream()[i],
                ),
    {
        let src = self.source();
        lemma_lexemes_from(src, 0);
        is_char_boundary_start_end_of_seq(src);
        assert forall|i: int| 0 <= i < self.stream().len() implies token_in(
            src,
            #[trigger] self.stream()[i],
        ) by {
            lemma_lexemes_tokens(src, 0, i);
        }
    }

    /// A cursor in front of the first token of `inp`.
    pub fn new(inp: &'a str) -> (lexer: Self)
        ensures
            lexer.wf(),
            lexer.source() == inp.spec_bytes(),
            lexer.index() == 0,
    {
        // The length of a text fits a `usize`.
        let _length: usize = inp.as_bytes().len();
        proof {
            let src = inp.spec_bytes();
            encode_utf8_valid_utf8(inp@);
            is_char_boundary_start_end_of_seq(src);
            lemma_lexemes_from(src, 0);
            assert(lexemes(src).subrange(0, lexemes(src).len() as int) =~= lexemes(src));
        }
        Lexer {
            input: inp,
            pos: 0,
            token: Token { kind: TokenKind::Error, span: Span { start: 0, end: 0 } },
            lookahead: None,
            index: Ghost(0),
        }
    }

    /// Reads the token behind the cursor into the lookahead slot.
    fn fill(&mut self) -> (t: Token)
        requires
            old(self).wf(),
        ensures
            final(self).wf(),
            final(self).input == old(self).input,
            final(self).pos == old(self).pos,
            final(self).index == old(self).index,
            final(self).token == old(self).token,
            t == next_token(old(self).source(), old(self).pos as int),
            t.kind == peek_kind(old(self).stream(), old(self).index()),
            t.span == peek_span(old(self).stream(), old(self).index()),
    {
        proof {
            let src = self.source();
            lemma_lexemes_from(src, 0);
            lemma_lexemes_from(src, self.pos as int);
            let ts = lexemes(src);
            let k = if self.index@ < ts.len() {
                self.index@ as int
            } else {
                ts.len() - 1
            };
            assert(ts.subrange(k, ts.len() as int)[0] == ts[k]);
        }
        match self.lookahead {
            Some(t) => t,
            None => {
                let t = scan_token(self.input.as_bytes(), self.pos);
                self.lookahead = Some(t);
                t
            },
        }
    }

    /// Consumes the token behind the cursor and gives its kind. At the
    /// end of the text that is the end-of-input marker, every time.
    pub fn next(&mut self) -> (kind: TokenKind)
        requires
            old(self).wf(),
        ensures
            final(self).wf(),
            final(self).source() == old(self).source(),
            final(self).index() == advance(old(self).stream(), old(self).index()),
            kind == peek_kind(old(self).stream(), old(self).index()),
    {
        let t = self.fill();
        proof {
            let src = self.source();
            let ts = lexemes(src);
            let n = ts.len() as int;
            lemma_next_token(src, self.pos as int);
            lemma_lexemes_from(src, 0);
            lemma_lexemes_from(src, self.pos as int);
            lemma_lexemes_tokens(src, self.pos as int, 0);
            let k = if self.index@ < ts.len() {
                self.index@ as int
            } else {
                n - 1
            };
            assert(ts.subrange(k, n)[0] == ts[k]);
            assert(ts[k] == lexeme_of(src, t));
            if t.kind != TokenKind::EOF {
                assert(lexemes_from(src, t.span.end as int) =~= lexemes_from(
                    src,
                    self.pos as int,
                ).subrange(1, n - k));
                assert(lexemes_from(src, t.span.end as int) =~= ts.subrange(k + 1, n));
                lemma_lexemes_from(src, t.span.end as int);
            } else {
                assert(lexemes_from(src, src.len() as int) =~= seq![lexeme_of(src, t)]);
                assert(ts.subrange(n - 1, n) =~= seq![ts[n - 1]]);
            }
        }
        self.lookahead = None;
        self.token = t;
        self.pos = t.span.end;
        proof {
            self.index@ = advance(self.stream(), self.index@);
        }
        t.kind
    }

    /// The kind of the token behind the cursor, which stays where it is.
    pub fn peek(&mut self) -> (kind: TokenKind)
        requires
            old(self).wf(),
        ensures
            final(self).wf(),
            final(self).source() == old(self).source(),
            final(self).index() == old(self).index(),
            kind == peek_kind(old(self).stream(), old(self).index()),
    {
        let t = self.fill();
        t.kind
    }

    /// The token behind the cursor, which stays where it is.
    pub fn peek_token(&mut self) -> (t: Token)
        requires
            old(self).wf(),
        ensures
            final(self).wf(),
            final(self).source() == old(self).source(),
            final(self).index() == old(self).index(),
            t.kind == peek_kind(old(self).stream(), old(self).index()),
            t.span == peek_span(old(self).stream(), old(self).index()),
    {
        self.fill()
    }

    /// The span of the token consumed last; the empty span at offset 0
    /// before the first.
    pub fn span(&self) -> (span: Span)
        requires
            self.wf(),
        ensures
            span == current_token(self.stream(), self.index()).span,
    {
        self.token.span
    }

    /// True when the token behind the cursor is of the given kind.
    pub fn at(&mut self, kind: TokenKind) -> (r: bool)
        requires
            old(self).wf(),
        ensures
            final(self).wf(),
            final(self).source() == old(self).source(),
            final(self).index() == old(self).index(),
            r == (peek_kind(old(self).stream(), old(self).index()) == kind),
    {
        self.peek() == kind
    }

    /// The part of the text between two character boundaries.
    fn slice(&self, start: usize, end: usize) -> (text: &'a str)
        requires
            self.wf(),
            start <= end <= self.source().len(),
            is_char_boundary(self.source(), start as int),
            is_char_boundary(self.source(), end as int),
        ensures
            text.spec_bytes() == self.source().subrange(start as int, end as int),
            text@ == decode_utf8(self.source().subrange(start as int, end as int)),
    {
        let ghost src = self.source();
        let (_, tail) = self.input.split_at(start);
        proof {
            encode_utf8_valid_utf8(tail@);
            assert(tail.spec_bytes() =~= src.subrange(start as int, src.len() as int));
            if end < src.len() {
                is_char_boundary_iff_not_is_continuation_byte(src, end as int);
                assert(tail.spec_bytes()[end - start] == src[end as int]);
            }
            lemma_boundary_at(tail.spec_bytes(), end - start);
        }
        let (text, _) = tail.split_at(end - start);
        proof {
            assert(text.spec_bytes() =~= src.subrange(start as int, end as int));
            encode_utf8_decode_utf8(text@);
        }
        text
    }

    /// The text of the token consumed last; empty before the first.
    pub fn text(&self) -> (text: &'a str)
        requires
            self.wf(),
        ensures
            text.spec_bytes() == current_text(self.stream(), self.index()),
            text@ == decode_utf8(current_text(self.stream(), self.index())),
    {
        proof {
            self.lemma_wf();
            let src = self.source();
            is_char_boundary_start_end_of_seq(src);
            if self.index@ == 0 {
                assert(src.subrange(0, 0) =~= Seq::<u8>::empty());
            } else {
                assert(token_in(src, self.stream()[self.index@ - 1]));
            }
        }
        self.slice(self.token.span.start, self.token.span.end)
    }

    /// What the string literal consumed last holds between its quotes.
    pub fn unquoted(&self) -> (text: &'a str)
        requires
            self.wf(),
            self.index() > 0,
            current_token(self.stream(), self.index()).kind == TokenKind::String,
        ensures
            text@ == decode_utf8(string_body(current_text(self.stream(), self.index()))),
    {
        proof {
            self.lemma_wf();
            let src = self.source();
            let l = self.stream()[self.index@ - 1];
            assert(token_in(src, l));
            lemma_literal_shape(src, l);
            assert(src[l.span.start as int] == l.text[0]);
            assert(src[l.span.end - 1] == l.text.last());
            lemma_boundary_after_ascii(src, l.span.start + 1);
            lemma_boundary_at(src, l.span.end - 1);
            assert(src.subrange(l.span.start + 1, l.span.end - 1) =~= string_body(l.text));
        }
        self.slice(self.token.span.start + 1, self.token.span.end - 1)
    }
}

} // verus!
