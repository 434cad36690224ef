//! The parser: a cursor over the token stream with the list of
//! diagnostics, and on top of it the expression, statement, type and item
//! parsers.

pub mod expr;
pub mod stmt;

use crate::ast::{errors_view, Stmt, StmtView};
use crate::error::Error;
use crate::lexer::Lexer;
use crate::literal::string_body;
use crate::model::{bump, expect, kind, record, span, start, State};
use crate::stream::{current_text, current_token, lexemes, Lexeme};
use crate::token::{Span, TokenKind};
use vstd::prelude::*;
use vstd::string::StringSliceAdditionalSpecFns;
use vstd::utf8::decode_utf8;

verus! {

/// The parser of one text: the cursor over its tokens, and the
/// diagnostics recorded so far.
pub struct Parser<'a> {
    lexer: Lexer<'a>,
    errors: Vec<Error>,
}

impl<'a> Parser<'a> {
    /// The bytes of the text.
    pub closed spec fn source(&self) -> Seq<u8> {
        self.lexer.source()
    }

    /// The token stream of the text.
    pub open spec fn stream(&self) -> Seq<Lexeme> {
        lexemes(self.source())
    }

    /// How far the parse has come, and what it has recorded.
    pub closed spec fn state(&self) -> State {
        State { index: self.lexer.index(), errors: errors_view(self.errors@) }
    }

    /// What every operation keeps: the cursor is in good order.
    pub closed spec fn wf(&self) -> bool {
        self.lexer.wf()
    }

    /// The number of tokens that are left to consume.
    pub open spec fn remaining(&self) -> int {
        self.stream().len() - self.state().index
    }

    /// True when `self` is a parser in good order over the text of
    /// `before`: what every operation keeps.
    pub open spec fn continues(&self, before: &Self) -> bool {
        self.wf() && self.source() == before.source()
    }

    /// In a well-formed parser the cursor lies inside the stream or right
    /// behind it.
    pub proof fn lemma_wf(&self)
        requires
            self.wf(),
        ensures
            self.state().index <= self.stream().len(),
            self.stream().len() > 0,
    {
        self.lexer.lemma_wf();
    }

    /// A parser in front of the first token of `inp`, with nothing recorded.
    pub fn new(inp: &'a str) -> (parser: Self)
        ensures
            parser.wf(),
            parser.source() == inp.spec_bytes(),
            parser.state() == start(),
    {
        let parser = Parser { lexer: Lexer::new(inp), errors: Vec::new() };
        assert(parser.state().errors =~= start().errors);
        parser
    }

    /// Consumes the token behind the cursor and gives its kind; `None` at
    /// the end of input.
    pub fn next(&mut self) -> (found: Option<TokenKind>)
        requires
            old(self).wf(),
        ensures
            final(self).continues(old(self)),
            final(self).state() == bump(old(self).stream(), old(self).state()),
            found == if kind(old(self).stream(), old(self).state()) == TokenKind::EOF {
                None
            } else {
                Some(kind(old(self).stream(), old(self).state()))
            },
    {
        let found = self.lexer.next();
        if found == TokenKind::EOF {
            None
        } else {
            Some(found)
        }
    }

    /// The kind of the token behind the cursor, which stays where it is.
    pub fn peek(&mut self) -> (found: TokenKind)
        requires
            old(self).wf(),
        ensures
            final(self).continues(old(self)),
            final(self).state() == old(self).state(),
            found == kind(old(self).stream(), old(self).state()),
    {
        self.lexer.peek()
    }

    /// The span of the token behind the cursor, which stays where it is.
    pub fn peek_span(&mut self) -> (at: Span)
        requires
            old(self).wf(),
        ensures
            final(self).continues(old(self)),
            final(self).state() == old(self).state(),
            at == span(old(self).stream(), old(self).state()),
    {
        self.lexer.peek_token().span
    }

    /// The span of the token consumed last.
    pub fn span(&self) -> (at: Span)
        requires
            self.wf(),
        ensures
            at == current_token(self.stream(), self.state().index).span,
    {
        self.lexer.span()
    }

    /// True when the token behind the cursor is of the given kind.
    pub fn at(&mut self, wanted: TokenKind) -> (found: bool)
        requires
            old(self).wf(),
        ensures
            final(self).continues(old(self)),
            final(self).state() == old(self).state(),
            found == (kind(old(self).stream(), old(self).state()) == wanted),
    {
        self.lexer.at(wanted)
    }

    /// The text of the token consumed last.
    pub fn text(&self) -> (text: &'a str)
        requires
            self.wf(),
        ensures
            text.spec_bytes() == current_text(self.stream(), self.state().index),
            text@ == decode_utf8(current_text(self.stream(), self.state().index)),
    {
        self.lexer.text()
    }

    /// What the string literal consumed last holds between its quotes.
    pub fn unquoted(&self) -> (text: &'a str)
        requires
            self.wf(),
            self.state().index > 0,
            current_token(self.stream(), self.state().index).kind == TokenKind::String,
        ensures
            text@ == decode_utf8(string_body(current_text(self.stream(), self.state().index))),
    {
        self.lexer.unquoted()
    }

    /// The diagnostics recorded so far, oldest first.
    pub fn errors(&self) -> (errors: &Vec<Error>)
        ensures
            errors_view(errors@) == self.state().errors,
    {
        &self.errors
    }

    /// Ends the parse and hands out its diagnostics.
    pub fn into_errors(self) -> (errors: Vec<Error>)
        ensures
            errors_view(errors@) == self.state().errors,
    {
        self.errors
    }

    /// Records a diagnostic.
    pub fn report(&mut self, error: &Error)
        requires
            old(self).wf(),
        ensures
            final(self).continues(old(self)),
            final(self).state() == record(old(self).state(), error@),
    {
        let copy = error.clone();
        self.errors.push(copy);
        assert(errors_view(self.errors@) =~= errors_view(old(self).errors@).push(error@));
    }

    /// Consumes one token. Where it is not of the expected kind, the
    /// diagnostic is recorded and returned.
    pub fn consume(&mut self, expected: TokenKind) -> (outcome: Result<(), Error>)
        requires
            old(self).wf(),
        ensures
            final(self).continues(old(self)),
            final(self).state() == expect(old(self).stream(), old(self).state(), expected).state,
            match outcome {
                Ok(_) => expect(old(self).stream(), old(self).state(), expected).value is None,
                Err(error) => expect(old(self).stream(), old(self).state(), expected).value
                    == Some(error@),
            },
    {
        let found = self.lexer.peek_token();
        self.lexer.next();
        if found.kind == expected {
            Ok(())
        } else {
            let error = Error::unexpected_token(expected, found.kind, found.span);
            self.report(&error);
            Err(error)
        }
    }

    /// Consumes one token. Where it is not of the expected kind, the
    /// diagnostic is recorded and returned as an error statement.
    pub fn consume_stmt(&mut self, expected: TokenKind) -> (outcome: Option<Stmt>)
        requires
            old(self).wf(),
        ensures
            final(self).continues(old(self)),
            final(self).state() == expect(old(self).stream(), old(self).state(), expected).state,
            match outcome {
                None => expect(old(self).stream(), old(self).state(), expected).value is None,
                Some(stmt) => expect(old(self).stream(), old(self).state(), expected).value
                    matches Some(error) && stmt@ == StmtView::Error(error),
            },
    {
        match self.consume(expected) {
            Ok(_) => None,
            Err(error) => Some(Stmt::Error(error)),
        }
    }
}

} // verus!
