//! Types, statements and items, by recursive descent.

use crate::ast::{
    errors_view, fields_view, items_view, lemma_block_view, lemma_if_view, lemma_type_view,
    stmts_view, types_view, Item, ItemView, Stmt, Type,
};
use crate::error::{Error, Wanted};
use crate::model::{
    abandon, assignment, binding, block, conditional, fields, file, generics, item, items, kind,
    otherwise, record, statement, statements, synchronize, type_,
};
use crate::parser::Parser;
use crate::stream::lexemes;
use crate::token::TokenKind;
use vstd::prelude::*;
use vstd::string::StringSliceAdditionalSpecFns;

verus! {

impl<'a> Parser<'a> {
    /// Parses a whole text into its items. A malformed item becomes an
    /// error item and leaves the items around it as they are.
    pub fn parse(input: &str) -> (items: Vec<Item>)
        ensures
            items_view(items@) == file(lexemes(input.spec_bytes())).value,
    {
        let mut parser = Parser::new(input);
        parser.file()
    }

    /// Parses a whole text into its items and the diagnostics of the
    /// parse, in the order in which they were recorded.
    pub fn parse_with_errors(input: &str) -> (outcome: (Vec<Item>, Vec<Error>))
        ensures
            items_view(outcome.0@) == file(lexemes(input.spec_bytes())).value,
            errors_view(outcome.1@) == file(lexemes(input.spec_bytes())).state.errors,
    {
        let mut parser = Parser::new(input);
        let items = parser.file();
        (items, parser.into_errors())
    }

    /// Parses items up to the end of input.
    pub fn file(&mut self) -> (list: Vec<Item>)
        requires
            old(self).wf(),
        ensures
            final(self).continues(old(self)),
            final(self).state() == items(old(self).stream(), old(self).state(), Seq::empty()).state,
            items_view(list@) == items(old(self).stream(), old(self).state(), Seq::empty()).value,
    {
        let ghost ts = self.stream();
        let ghost begin = self.state();
        let mut list: Vec<Item> = Vec::new();
        assert(items_view(list@) =~= Seq::empty());
        loop
            invariant
                self.continues(old(self)),
                ts == old(self).stream(),
                begin == old(self).state(),
                items(ts, self.state(), items_view(list@)) == items(ts, begin, Seq::empty()),
            decreases self.remaining(),
        {
            proof {
                self.lemma_wf();
            }
            if self.at(TokenKind::EOF) {
                return list;
            }
            let ghost done = items_view(list@);
            let next = self.item();
            proof {
                self.lemma_wf();
            }
            list.push(next);
            assert(items_view(list@) =~= done.push(next@));
        }
    }

    /// Parses one item: a function or a struct. An item that cannot be
    /// made out is recorded and becomes an error item; the cursor then
    /// stands at the next `fn` or `struct`, or at the end of input.
    pub fn item(&mut self) -> (parsed: Item)
        requires
            old(self).wf(),
        ensures
            final(self).continues(old(self)),
            final(self).state() == item(old(self).stream(), old(self).state()).state,
            parsed@ == item(old(self).stream(), old(self).state()).value,
            old(self).state().index <= final(self).state().index,
            kind(old(self).stream(), old(self).state()) != TokenKind::EOF ==> old(
                self,
            ).state().index < final(self).state().index,
    {
        proof {
            self.lemma_wf();
        }
        let leading = self.peek();
        match leading {
            TokenKind::KwFn => {
                self.next();
                let found = self.peek();
                if found != TokenKind::Ident {
                    let at = self.peek_span();
                    return self.abandon(Error::mismatch(Wanted::FunctionName, found, at));
                }
                self.next();
                let name = self.text().to_owned();
                let _ = self.consume(TokenKind::LParen);
                let parameters = self.fields(TokenKind::RParen, Wanted::Parameter);
                let _ = self.consume(TokenKind::RParen);
                let found = self.peek();
                if found != TokenKind::LBrace {
                    let at = self.peek_span();
                    return self.abandon(Error::mismatch(Wanted::FunctionBody, found, at));
                }
                let body = self.block();
                Item::Function { name, parameters, body }
            },
            TokenKind::KwStruct => {
                self.next();
                let name = self.type_();
                let _ = self.consume(TokenKind::LBrace);
                let members = self.fields(TokenKind::RBrace, Wanted::Member);
                let _ = self.consume(TokenKind::RBrace);
                Item::Struct { name, members }
            },
            _ => {
                let at = self.peek_span();
                self.abandon(Error::unknown_item(leading, at))
            },
        }
    }

    /// Gives an item up: records why, and moves the cursor to the next
    /// token that can start an item.
    fn abandon(&mut self, error: Error) -> (parsed: Item)
        requires
            old(self).wf(),
        ensures
            final(self).continues(old(self)),
            final(self).state() == abandon(old(self).stream(), old(self).state(), error@).state,
            parsed@ == ItemView::Error(error@),
            old(self).state().index <= final(self).state().index,
            kind(old(self).stream(), old(self).state()) != TokenKind::EOF && kind(
                old(self).stream(),
                old(self).state(),
            ) != TokenKind::KwFn && kind(old(self).stream(), old(self).state())
                != TokenKind::KwStruct ==> old(self).state().index < final(self).state().index,
    {
        self.report(&error);
        let ghost ts = self.stream();
        let ghost begin = self.state();
        loop
            invariant
                self.continues(old(self)),
                ts == old(self).stream(),
                begin == record(old(self).state(), error@),
                begin.index <= self.state().index,
                synchronize(ts, self.state()) == synchronize(ts, begin),
                kind(ts, begin) != TokenKind::EOF && kind(ts, begin) != TokenKind::KwFn && kind(
                    ts,
                    begin,
                ) != TokenKind::KwStruct ==> begin.index < self.state().index || kind(
                    ts,
                    self.state(),
                ) == kind(ts, begin),
            decreases self.remaining(),
        {
            proof {
                self.lemma_wf();
            }
            let found = self.peek();
            match found {
                TokenKind::KwFn | TokenKind::KwStruct | TokenKind::EOF => {
                    return Item::Error(error);
                },
                _ => {
                    self.next();
                },
            }
        }
    }

    /// Parses the parameters of a function or the members of a struct up
    /// to the token `close`, which stays behind the cursor.
    fn fields(&mut self, close: TokenKind, wanted: Wanted) -> (list: Vec<(String, Type)>)
        requires
            old(self).wf(),
        ensures
            final(self).continues(old(self)),
            final(self).state() == fields(
                old(self).stream(),
                old(self).state(),
                close,
                wanted,
                Seq::empty(),
            ).state,
            fields_view(list@) == fields(
                old(self).stream(),
                old(self).state(),
                close,
                wanted,
                Seq::empty(),
            ).value,
            old(self).state().index <= final(self).state().index,
    {
        let ghost ts = self.stream();
        let ghost begin = self.state();
        let mut list: Vec<(String, Type)> = Vec::new();
        assert(fields_view(list@) =~= Seq::empty());
        loop
            invariant
                self.continues(old(self)),
                ts == old(self).stream(),
                begin == old(self).state(),
                begin.index <= self.state().index,
                fields(ts, self.state(), close, wanted, fields_view(list@)) == fields(
                    ts,
                    begin,
                    close,
                    wanted,
                    Seq::empty(),
                ),
            decreases self.remaining(),
        {
            proof {
                self.lemma_wf();
            }
            let found = self.peek();
            if found == close || found == TokenKind::EOF {
                return list;
            }
            let at = self.peek_span();
            self.next();
            if found != TokenKind::Ident {
                let error = Error::mismatch(wanted, found, at);
                self.report(&error);
            }
            let name = self.text().to_owned();
            let _ = self.consume(TokenKind::Colon);
            let ty = self.type_();
            proof {
                self.lemma_wf();
            }
            let ghost done = fields_view(list@);
            list.push((name, ty));
            assert(fields_view(list@) =~= done.push((name@, ty@)));
            if self.at(TokenKind::Comma) {
                self.next();
            }
        }
    }

    /// Parses a type: its name, and between angle brackets its generic
    /// arguments. A token that is no identifier is recorded and its text
    /// taken as the name.
    pub fn type_(&mut self) -> (ty: Type)
        requires
            old(self).wf(),
        ensures
            final(self).continues(old(self)),
            final(self).state() == type_(old(self).stream(), old(self).state()).state,
            ty@ == type_(old(self).stream(), old(self).state()).value,
            old(self).state().index <= final(self).state().index,
            kind(old(self).stream(), old(self).state()) != TokenKind::EOF ==> old(
                self,
            ).state().index < final(self).state().index,
        decreases old(self).remaining(), 0int,
    {
        proof {
            self.lemma_wf();
        }
        let found = self.peek();
        let at = self.peek_span();
        self.next();
        if found != TokenKind::Ident {
            let error = Error::mismatch(Wanted::TypeName, found, at);
            self.report(&error);
        }
        let name = self.text().to_owned();
        let mut generics: Vec<Type> = Vec::new();
        assert(types_view(generics@) =~= Seq::empty());
        if self.at(TokenKind::LAngle) {
            self.next();
            generics = self.generics();
            let _ = self.consume(TokenKind::RAngle);
        }
        let ty = Type { name, generics };
        proof {
            lemma_type_view(ty);
        }
        ty
    }

    /// Parses generic arguments up to the closing angle bracket, which
    /// stays behind the cursor.
    fn generics(&mut self) -> (list: Vec<Type>)
        requires
            old(self).wf(),
        ensures
            final(self).continues(old(self)),
            final(self).state() == generics(
                old(self).stream(),
                old(self).state(),
                Seq::empty(),
            ).state,
            types_view(list@) == generics(
                old(self).stream(),
                old(self).state(),
                Seq::empty(),
            ).value,
            old(self).state().index <= final(self).state().index,
        decreases old(self).remaining(), 1int,
    {
        let ghost ts = self.stream();
        let ghost begin = self.state();
        let mut list: Vec<Type> = Vec::new();
        assert(types_view(list@) =~= Seq::empty());
        loop
            invariant
                self.continues(old(self)),
                ts == old(self).stream(),
                begin == old(self).state(),
                begin.index <= self.state().index,
                generics(ts, self.state(), types_view(list@)) == generics(ts, begin, Seq::empty()),
            decreases self.remaining(),
        {
            proof {
                self.lemma_wf();
            }
            let found = self.peek();
            if found == TokenKind::RAngle || found == TokenKind::EOF {
                return list;
            }
            let ty = self.type_();
            proof {
                self.lemma_wf();
            }
            let ghost done = types_view(list@);
            list.push(ty);
            assert(types_view(list@) =~= done.push(ty@));
            if self.at(TokenKind::Comma) {
                self.next();
            }
        }
    }

    /// Parses one statement. A token that can start none is recorded and
    /// consumed, unless it is the end of input, and becomes an error
    /// statement; so does an expression that cannot be made out.
    pub fn statement(&mut self) -> (stmt: Stmt)
        requires
            old(self).wf(),
        ensures
            final(self).continues(old(self)),
            final(self).state() == statement(old(self).stream(), old(self).state()).state,
            stmt@ == statement(old(self).stream(), old(self).state()).value,
            old(self).state().index <= final(self).state().index,
            kind(old(self).stream(), old(self).state()) != TokenKind::EOF ==> old(
                self,
            ).state().index < final(self).state().index,
        decreases old(self).remaining(), 2int,
    {
        proof {
            self.lemma_wf();
        }
        let leading = self.peek();
        match leading {
            TokenKind::KwLet => self.binding(),
            TokenKind::Ident => self.assignment(),
            TokenKind::KwIf => self.conditional(),
            TokenKind::LBrace => {
                let stmts = self.block();
                proof {
                    lemma_block_view(stmts);
                }
                Stmt::Block { stmts }
            },
            _ => {
                let at = self.peek_span();
                let error = Error::unknown_statement(leading, at);
                if leading != TokenKind::EOF {
                    self.next();
                }
                self.report(&error);
                Stmt::Error(error)
            },
        }
    }

    /// Parses a `let` statement, whose keyword stands behind the cursor.
    fn binding(&mut self) -> (stmt: Stmt)
        requires
            old(self).wf(),
            kind(old(self).stream(), old(self).state()) == TokenKind::KwLet,
        ensures
            final(self).continues(old(self)),
            final(self).state() == binding(old(self).stream(), old(self).state()).state,
            stmt@ == binding(old(self).stream(), old(self).state()).value,
            old(self).state().index < final(self).state().index,
    {
        proof {
            self.lemma_wf();
        }
        self.next();
        let found = self.peek();
        let at = self.peek_span();
        self.next();
        if found != TokenKind::Ident {
            let error = Error::mismatch(Wanted::LetName, found, at);
            self.report(&error);
        }
        let var_name = self.text().to_owned();
        let _ = self.consume_stmt(TokenKind::Eq);
        match self.expression() {
            Ok(value) => {
                let _ = self.consume(TokenKind::SemiColon);
                Stmt::Let { var_name, value }
            },
            Err(error) => Stmt::Error(error),
        }
    }

    /// Parses an assignment, whose target stands behind the cursor.
    fn assignment(&mut self) -> (stmt: Stmt)
        requires
            old(self).wf(),
            kind(old(self).stream(), old(self).state()) == TokenKind::Ident,
        ensures
            final(self).continues(old(self)),
            final(self).state() == assignment(old(self).stream(), old(self).state()).state,
            stmt@ == assignment(old(self).stream(), old(self).state()).value,
            old(self).state().index < final(self).state().index,
    {
        proof {
            self.lemma_wf();
        }
        self.next();
        let var_name = self.text().to_owned();
        let _ = self.consume(TokenKind::Eq);
        match self.expression() {
            Ok(value) => {
                let _ = self.consume(TokenKind::SemiColon);
                Stmt::Assignment { var_name, value }
            },
            Err(error) => Stmt::Error(error),
        }
    }

    /// Parses an `if` statement, whose keyword stands behind the cursor.
    fn conditional(&mut self) -> (stmt: Stmt)
        requires
            old(self).wf(),
            kind(old(self).stream(), old(self).state()) == TokenKind::KwIf,
        ensures
            final(self).continues(old(self)),
            final(self).state() == conditional(old(self).stream(), old(self).state()).state,
            stmt@ == conditional(old(self).stream(), old(self).state()).value,
            old(self).state().index < final(self).state().index,
        decreases old(self).remaining(), 1int,
    {
        proof {
            self.lemma_wf();
        }
        self.next();
        let _ = self.consume(TokenKind::LParen);
        let condition = match self.expression() {
            Ok(e) => e,
            Err(error) => {
                return Stmt::Error(error);
            },
        };
        let _ = self.consume(TokenKind::RParen);
        proof {
            self.lemma_wf();
        }
        let found = self.peek();
        if found != TokenKind::LBrace {
            let at = self.peek_span();
            let error = Error::mismatch(Wanted::IfBody, found, at);
            self.report(&error);
            return Stmt::Error(error);
        }
        let body = self.block();
        proof {
            self.lemma_wf();
        }
        let else_branch = self.otherwise();
        proof {
            lemma_if_view(condition, body, else_branch);
        }
        Stmt::IfStmt { condition, body, else_branch }
    }

    /// Parses what follows the block of an `if`.
    fn otherwise(&mut self) -> (branch: Option<Box<Stmt>>)
        requires
            old(self).wf(),
        ensures
            final(self).continues(old(self)),
            final(self).state() == otherwise(old(self).stream(), old(self).state()).state,
            match branch {
                Some(stmt) => otherwise(old(self).stream(), old(self).state()).value == Some(
                    Box::new(stmt@),
                ),
                None => otherwise(old(self).stream(), old(self).state()).value is None,
            },
            old(self).state().index <= final(self).state().index,
        decreases old(self).remaining(), 0int,
    {
        proof {
            self.lemma_wf();
        }
        if !self.at(TokenKind::KwElse) {
            return None;
        }
        self.next();
        let found = self.peek();
        if found == TokenKind::KwIf || found == TokenKind::LBrace {
            Some(Box::new(self.statement()))
        } else {
            let at = self.peek_span();
            let error = Error::mismatch(Wanted::ElseBody, found, at);
            self.report(&error);
            Some(Box::new(Stmt::Error(error)))
        }
    }

    /// Parses a block, whose opening brace stands behind the cursor, up
    /// to and with its closing brace.
    fn block(&mut self) -> (stmts: Vec<Stmt>)
        requires
            old(self).wf(),
            kind(old(self).stream(), old(self).state()) == TokenKind::LBrace,
        ensures
            final(self).continues(old(self)),
            final(self).state() == block(old(self).stream(), old(self).state()).state,
            stmts_view(stmts@) == block(old(self).stream(), old(self).state()).value,
            old(self).state().index < final(self).state().index,
        decreases old(self).remaining(), 0int,
    {
        proof {
            self.lemma_wf();
        }
        self.next();
        let stmts = self.statements();
        let _ = self.consume(TokenKind::RBrace);
        stmts
    }

    /// Parses statements up to a closing brace, which stays behind the
    /// cursor, or the end of input.
    fn statements(&mut self) -> (list: Vec<Stmt>)
        requires
            old(self).wf(),
        ensures
            final(self).continues(old(self)),
            final(self).state() == statements(
                old(self).stream(),
                old(self).state(),
                Seq::empty(),
            ).state,
            stmts_view(list@) == statements(
                old(self).stream(),
                old(self).state(),
                Seq::empty(),
            ).value,
            old(self).state().index <= final(self).state().index,
        decreases old(self).remaining(), 3int,
    {
        let ghost ts = self.stream();
        let ghost begin = self.state();
        let mut list: Vec<Stmt> = Vec::new();
        assert(stmts_view(list@) =~= Seq::empty());
        loop
            invariant
                self.continues(old(self)),
                ts == old(self).stream(),
                begin == old(self).state(),
                begin.index <= self.state().index,
                statements(ts, self.state(), stmts_view(list@)) == statements(
                    ts,
                    begin,
                    Seq::empty(),
                ),
            decreases self.remaining(),
        {
            proof {
                self.lemma_wf();
            }
            let found = self.peek();
            if found == TokenKind::RBrace || found == TokenKind::EOF {
                return list;
            }
            let stmt = self.statement();
            proof {
                self.lemma_wf();
            }
            let ghost done = stmts_view(list@);
            list.push(stmt);
            assert(stmts_view(list@) =~= done.push(stmt@));
        }
    }
}

} // verus!
