//! Only a program of the grammar parses without a diagnostic: whatever
//! the grammar does not allow is recorded.

use crate::accept::lemma_operand_end;
use crate::ast::{ExprView, ItemView, StmtView, TypeView};
use crate::error::{ErrorView, Wanted};
use crate::grammar::{
    ahead, args_end, block_end, expr_end, fields_end, generics_end, if_end, is_program, item_end,
    items_end, operand_end, stmt_end, stmts_end, tail_end, type_end, value_end,
};
use crate::model::{
    arguments, behind_unless_end, block, bump, conditional, ends_expression, expect, expression,
    fields, file, finish_binding, generics, infix_power, item, items, kind, moved, operand,
    operators, postfix_power, prefix_power, record, skip_comma, span, start, statement, statements,
    text, type_, State,
};
use crate::progress::{
    follows, lemma_arguments_progress, lemma_block_progress, lemma_expression_progress,
    lemma_fields_progress, lemma_finish_progress, lemma_follows, lemma_generics_progress,
    lemma_item_progress, lemma_items_progress, lemma_operand_progress, lemma_operators_progress,
    lemma_otherwise_progress, lemma_same_errors, lemma_statement_progress,
    lemma_statements_progress, lemma_synchronize_progress, lemma_type_progress,
};
use crate::stream::Lexeme;
use crate::token::TokenKind;
use vstd::prelude::*;
use vstd::utf8::decode_utf8;

verus! {

/// A state with one more diagnostic is not followed by a state with
/// the diagnostics before it.
pub proof fn lemma_recorded(ts: Seq<Lexeme>, s: State, a: State, e: ErrorView, r: State)
    requires
        follows(ts, s, a),
        follows(ts, record(a, e), r),
    ensures
        r.errors != s.errors,
{
    assert(s.errors.len() <= a.errors.len());
    assert(record(a, e).errors.len() == a.errors.len() + 1);
}

/// Consuming an expected token without a diagnostic means that it was
/// there.
pub proof fn lemma_expected(ts: Seq<Lexeme>, s: State, a: State, k: TokenKind, r: State)
    requires
        follows(ts, s, a),
        follows(ts, expect(ts, a, k).state, r),
        r.errors == s.errors,
    ensures
        kind(ts, a) == k,
        expect(ts, a, k).state == bump(ts, a),
        a.errors == s.errors,
{
    if kind(ts, a) != k {
        let e = ErrorView::unexpected_token(k, kind(ts, a), span(ts, a));
        lemma_follows(ts, s, s, s);
        lemma_follows(ts, s, a, bump(ts, a));
        lemma_recorded(ts, s, bump(ts, a), e, r);
    }
    lemma_follows(ts, a, a, a);
    lemma_follows(ts, a, bump(ts, a), r);
    lemma_same_errors(ts, s, a, r);
}

/// Where the operators behind an operand are read without a diagnostic
/// and what is left is the rest of an expression of the grammar, what
/// stood behind the operand was one too.
pub proof fn lemma_strict_operators(ts: Seq<Lexeme>, s: State, min: u8, lhs: ExprView, end: nat)
    requires
        s.index <= ts.len(),
        operators(ts, s, min, lhs).value is Ok,
        operators(ts, s, min, lhs).state.errors == s.errors,
        tail_end(ts, operators(ts, s, min, lhs).state.index) == Some(end),
    ensures
        tail_end(ts, s.index) == Some(end),
    decreases ts.len() - s.index, 0int,
{
    let op = kind(ts, s);
    if ends_expression(op) {
    } else if let Some(left) = postfix_power(op) {
        if left >= min {
            lemma_strict_operators(
                ts,
                bump(ts, s),
                min,
                ExprView::PostfixOp { op, operand: Box::new(lhs) },
                end,
            );
        }
    } else if let Some((left, right)) = infix_power(op) {
        if left >= min {
            let behind = bump(ts, s);
            let rhs = expression(ts, behind, right);
            lemma_expression_progress(ts, behind, right);
            let next = ExprView::InfixOp { op, lhs: Box::new(lhs), rhs: Box::new(rhs.value->Ok_0) };
            lemma_operators_progress(ts, rhs.state, min, next);
            lemma_same_errors(ts, behind, rhs.state, operators(ts, rhs.state, min, next).state);
            lemma_strict_operators(ts, rhs.state, min, next, end);
            lemma_strict_expression(ts, behind, right, end);
        }
    } else {
        let e = ErrorView::unknown_operator(op, span(ts, s));
        lemma_follows(ts, s, s, s);
        lemma_follows(ts, record(s, e), record(s, e), record(s, e));
        lemma_recorded(ts, s, s, e, record(s, e));
    }
}

/// Where an expression is read without a diagnostic and what is left is
/// the rest of an expression of the grammar, the whole was one.
pub proof fn lemma_strict_expression(ts: Seq<Lexeme>, s: State, min: u8, end: nat)
    requires
        s.index <= ts.len(),
        expression(ts, s, min).value is Ok,
        expression(ts, s, min).state.errors == s.errors,
        tail_end(ts, expression(ts, s, min).state.index) == Some(end),
    ensures
        expr_end(ts, s.index) == Some(end),
    decreases ts.len() - s.index, 2int,
{
    let first = operand(ts, s);
    lemma_operand_progress(ts, s);
    let e = first.value->Ok_0;
    lemma_operators_progress(ts, first.state, min, e);
    lemma_same_errors(ts, s, first.state, operators(ts, first.state, min, e).state);
    lemma_strict_operators(ts, first.state, min, e, end);
    lemma_strict_operand(ts, s, end);
}

/// Where an operand is read without a diagnostic and what is left is the
/// rest of an expression of the grammar, there stood an operand of the
/// grammar, and behind it the rest of that expression.
pub proof fn lemma_strict_operand(ts: Seq<Lexeme>, s: State, end: nat)
    requires
        s.index <= ts.len(),
        operand(ts, s).value is Ok,
        operand(ts, s).state.errors == s.errors,
        tail_end(ts, operand(ts, s).state.index) == Some(end),
    ensures
        operand_end(ts, s.index) is Some,
        ahead(ts, s.index, operand_end(ts, s.index)->0),
        tail_end(ts, operand_end(ts, s.index)->0) == Some(end),
    decreases ts.len() - s.index, 1int,
{
    let k = kind(ts, s);
    let behind = bump(ts, s);
    lemma_follows(ts, s, s, s);
    if k == TokenKind::Int || k == TokenKind::Float || k == TokenKind::String {
    } else if k == TokenKind::Ident {
        if kind(ts, behind) == TokenKind::LParen {
            let from = bump(ts, behind);
            let list = arguments(ts, from, Seq::empty());
            lemma_arguments_progress(ts, from, Seq::empty());
            lemma_follows(ts, s, from, list.state);
            let closed = expect(ts, list.state, TokenKind::RParen).state;
            lemma_follows(ts, closed, closed, closed);
            lemma_expected(ts, s, list.state, TokenKind::RParen, closed);
            lemma_strict_arguments(ts, from, Seq::empty());
        }
    } else if k == TokenKind::LParen {
        let inner = expression(ts, behind, 0);
        lemma_expression_progress(ts, behind, 0);
        lemma_follows(ts, s, behind, inner.state);
        let closed = expect(ts, inner.state, TokenKind::RParen).state;
        lemma_follows(ts, closed, closed, closed);
        lemma_expected(ts, s, inner.state, TokenKind::RParen, closed);
        lemma_strict_expression(ts, behind, 0, inner.state.index);
    } else if let Some(right) = prefix_power(k) {
        lemma_expression_progress(ts, behind, right);
        lemma_strict_expression(ts, behind, right, end);
        lemma_operand_end(ts, behind.index);
    } else {
        let e = ErrorView::unknown_expression(k, span(ts, s));
        lemma_follows(ts, record(s, e), record(s, e), record(s, e));
        lemma_recorded(ts, s, s, e, record(s, e));
    }
}

/// Where the arguments of a call are read without a diagnostic up to a
/// closing parenthesis, they were arguments of the grammar.
pub proof fn lemma_strict_arguments(ts: Seq<Lexeme>, s: State, done: Seq<ExprView>)
    requires
        s.index <= ts.len(),
        arguments(ts, s, done).value is Ok,
        arguments(ts, s, done).state.errors == s.errors,
        kind(ts, arguments(ts, s, done).state) == TokenKind::RParen,
    ensures
        args_end(ts, s.index) == Some(arguments(ts, s, done).state.index),
    decreases ts.len() - s.index, 3int,
{
    if kind(ts, s) != TokenKind::RParen {
        let arg = expression(ts, s, 0);
        lemma_expression_progress(ts, s, 0);
        let next = skip_comma(ts, arg.state);
        let more = done.push(arg.value->Ok_0);
        lemma_follows(ts, arg.state, arg.state, arg.state);
        lemma_arguments_progress(ts, next, more);
        lemma_follows(ts, arg.state, next, arguments(ts, next, more).state);
        lemma_same_errors(ts, s, arg.state, arguments(ts, next, more).state);
        lemma_strict_arguments(ts, next, more);
        lemma_expression_stops(ts, s);
        lemma_strict_expression(ts, s, 0, arg.state.index);
    }
}

/// With the least binding power an expression is read up to a token that
/// ends it.
pub proof fn lemma_expression_stops(ts: Seq<Lexeme>, s: State)
    requires
        expression(ts, s, 0).value is Ok,
    ensures
        ends_expression(kind(ts, expression(ts, s, 0).state)),
        tail_end(ts, expression(ts, s, 0).state.index) == Some(
            expression(ts, s, 0).state.index,
        ),
{
    let first = operand(ts, s);
    if moved(ts, s, first.state) {
        lemma_operators_stop(ts, first.state, first.value->Ok_0);
    } else {
        lemma_operand_progress(ts, s);
    }
}

/// With the least binding power the operators behind an operand are read
/// up to a token that ends the expression.
pub proof fn lemma_operators_stop(ts: Seq<Lexeme>, s: State, lhs: ExprView)
    requires
        operators(ts, s, 0, lhs).value is Ok,
        s.index <= ts.len(),
    ensures
        ends_expression(kind(ts, operators(ts, s, 0, lhs).state)),
    decreases ts.len() - s.index,
{
    let op = kind(ts, s);
    if ends_expression(op) {
    } else if let Some(left) = postfix_power(op) {
        lemma_operators_stop(ts, bump(ts, s), ExprView::PostfixOp { op, operand: Box::new(lhs) });
    } else if let Some((left, right)) = infix_power(op) {
        let rhs = expression(ts, bump(ts, s), right);
        lemma_expression_progress(ts, bump(ts, s), right);
        lemma_operators_stop(
            ts,
            rhs.state,
            ExprView::InfixOp { op, lhs: Box::new(lhs), rhs: Box::new(rhs.value->Ok_0) },
        );
    }
}

/// Where a type is read without a diagnostic, it was a type of the
/// grammar.
pub proof fn lemma_strict_type(ts: Seq<Lexeme>, s: State)
    requires
        s.index <= ts.len(),
        type_(ts, s).state.errors == s.errors,
    ensures
        type_end(ts, s.index) == Some(type_(ts, s).state.index),
    decreases ts.len() - s.index, 0int,
{
    let k = kind(ts, s);
    let e = ErrorView::mismatch(Wanted::TypeName, k, span(ts, s));
    let behind = if k == TokenKind::Ident {
        bump(ts, s)
    } else {
        record(bump(ts, s), e)
    };
    lemma_follows(ts, behind, behind, behind);
    if kind(ts, behind) == TokenKind::LAngle {
        let from = bump(ts, behind);
        lemma_generics_progress(ts, from, Seq::empty());
        lemma_strict_generics(ts, from, Seq::empty());
    }
}

/// Where generic arguments are read without a diagnostic up to a closing
/// angle bracket, they were generic arguments of the grammar.
pub proof fn lemma_strict_generics(ts: Seq<Lexeme>, s: State, done: Seq<TypeView>)
    requires
        s.index <= ts.len(),
        generics(ts, s, done).state.errors == s.errors,
        kind(ts, generics(ts, s, done).state) == TokenKind::RAngle,
    ensures
        generics_end(ts, s.index) == Some(generics(ts, s, done).state.index),
    decreases ts.len() - s.index, 1int,
{
    if !(kind(ts, s) == TokenKind::RAngle || kind(ts, s) == TokenKind::EOF) {
        let arg = type_(ts, s);
        lemma_type_progress(ts, s);
        let next = skip_comma(ts, arg.state);
        let more = done.push(arg.value);
        lemma_generics_progress(ts, next, more);
        lemma_same_errors(ts, s, arg.state, generics(ts, next, more).state);
        lemma_strict_generics(ts, next, more);
        lemma_strict_type(ts, s);
    }
}

/// Where parameters or members are read without a diagnostic up to the
/// token that closes their list, they were parameters or members of the
/// grammar.
pub proof fn lemma_strict_fields(
    ts: Seq<Lexeme>,
    s: State,
    close: TokenKind,
    wanted: Wanted,
    done: Seq<(Seq<char>, TypeView)>,
)
    requires
        s.index <= ts.len(),
        close == TokenKind::RParen || close == TokenKind::RBrace,
        fields(ts, s, close, wanted, done).state.errors == s.errors,
        kind(ts, fields(ts, s, close, wanted, done).state) == close,
    ensures
        fields_end(ts, s.index, close) == Some(fields(ts, s, close, wanted, done).state.index),
    decreases ts.len() - s.index,
{
    let k = kind(ts, s);
    if !(k == close || k == TokenKind::EOF) {
        let name = decode_utf8(text(ts, s));
        let e = ErrorView::mismatch(wanted, k, span(ts, s));
        let named = if k == TokenKind::Ident {
            bump(ts, s)
        } else {
            record(bump(ts, s), e)
        };
        let from = expect(ts, named, TokenKind::Colon).state;
        let ty = type_(ts, from);
        let next = skip_comma(ts, ty.state);
        let more = done.push((name, ty.value));
        lemma_type_progress(ts, from);
        lemma_follows(ts, ty.state, ty.state, ty.state);
        lemma_fields_progress(ts, next, close, wanted, more);
        lemma_strict_type(ts, from);
        lemma_strict_fields(ts, next, close, wanted, more);
    }
}

/// Where a value and its semicolon are read without a diagnostic, there
/// stood an expression of the grammar and a semicolon.
pub proof fn lemma_strict_value(
    ts: Seq<Lexeme>,
    s: State,
    make: spec_fn(ExprView) -> StmtView,
)
    requires
        s.index <= ts.len(),
        finish_binding(ts, expression(ts, s, 0), make).state.errors == s.errors,
    ensures
        value_end(ts, s.index) == Some(
            finish_binding(ts, expression(ts, s, 0), make).state.index,
        ),
{
    let value = expression(ts, s, 0);
    lemma_expression_progress(ts, s, 0);
    lemma_strict_expression(ts, s, 0, value.state.index);
}

/// Where a statement is read without a diagnostic, it was a statement of
/// the grammar.
pub proof fn lemma_strict_statement(ts: Seq<Lexeme>, s: State)
    requires
        s.index <= ts.len(),
        statement(ts, s).state.errors == s.errors,
    ensures
        stmt_end(ts, s.index) == Some(statement(ts, s).state.index),
    decreases ts.len() - s.index, 2int,
{
    let k = kind(ts, s);
    let behind = bump(ts, s);
    if k == TokenKind::KwLet {
        let found = kind(ts, behind);
        let var_name = decode_utf8(text(ts, behind));
        let e = ErrorView::mismatch(Wanted::LetName, found, span(ts, behind));
        let named = if found == TokenKind::Ident {
            bump(ts, behind)
        } else {
            record(bump(ts, behind), e)
        };
        let from = expect(ts, named, TokenKind::Eq).state;
        let make = |e: ExprView| StmtView::Let { var_name, value: e };
        lemma_finish_progress(ts, from, make);
        lemma_strict_value(ts, from, make);
    } else if k == TokenKind::Ident {
        let var_name = decode_utf8(text(ts, s));
        let from = expect(ts, behind, TokenKind::Eq).state;
        let make = |e: ExprView| StmtView::Assignment { var_name, value: e };
        lemma_finish_progress(ts, from, make);
        lemma_strict_value(ts, from, make);
    } else if k == TokenKind::KwIf {
        lemma_strict_conditional(ts, s);
    } else if k == TokenKind::LBrace {
        lemma_strict_block(ts, s);
    } else {
        let e = ErrorView::unknown_statement(k, span(ts, s));
        let a = behind_unless_end(ts, s);
        lemma_follows(ts, record(a, e), record(a, e), record(a, e));
    }
}

/// Where an `if` statement is read without a diagnostic, it was one of
/// the grammar.
pub proof fn lemma_strict_conditional(ts: Seq<Lexeme>, s: State)
    requires
        s.index <= ts.len(),
        kind(ts, s) == TokenKind::KwIf,
        conditional(ts, s).state.errors == s.errors,
    ensures
        if_end(ts, s.index) == Some(conditional(ts, s).state.index),
    decreases ts.len() - s.index, 1int,
{
    let behind = bump(ts, s);
    let from = expect(ts, behind, TokenKind::LParen).state;
    let condition = expression(ts, from, 0);
    let r = conditional(ts, s).state;
    lemma_expression_progress(ts, from, 0);
    if condition.value is Ok {
        let closed = expect(ts, condition.state, TokenKind::RParen).state;
        if kind(ts, closed) != TokenKind::LBrace || !moved(ts, s, closed) {
        } else {
            let body = block(ts, closed);
            lemma_block_progress(ts, closed);
            lemma_otherwise_progress(ts, body.state);
            lemma_follows(ts, closed, body.state, r);
            lemma_strict_expression(ts, from, 0, condition.state.index);
            lemma_strict_block(ts, closed);
            if kind(ts, body.state) == TokenKind::KwElse {
                let after = bump(ts, body.state);
                let next = kind(ts, after);
                if next == TokenKind::KwIf || next == TokenKind::LBrace {
                    lemma_strict_statement(ts, after);
                }
            }
        }
    }
}

/// Where a block is read without a diagnostic, it was a block of the
/// grammar.
pub proof fn lemma_strict_block(ts: Seq<Lexeme>, s: State)
    requires
        s.index <= ts.len(),
        kind(ts, s) == TokenKind::LBrace,
        block(ts, s).state.errors == s.errors,
    ensures
        block_end(ts, s.index) == Some(block(ts, s).state.index),
    decreases ts.len() - s.index, 0int,
{
    let from = bump(ts, s);
    lemma_statements_progress(ts, from, Seq::empty());
    lemma_strict_statements(ts, from, Seq::empty());
}

/// Where statements are read without a diagnostic up to a closing brace,
/// they were statements of the grammar.
pub proof fn lemma_strict_statements(ts: Seq<Lexeme>, s: State, done: Seq<StmtView>)
    requires
        s.index <= ts.len(),
        statements(ts, s, done).state.errors == s.errors,
        kind(ts, statements(ts, s, done).state) == TokenKind::RBrace,
    ensures
        stmts_end(ts, s.index) == Some(statements(ts, s, done).state.index),
    decreases ts.len() - s.index, 3int,
{
    if !(kind(ts, s) == TokenKind::RBrace || kind(ts, s) == TokenKind::EOF) {
        let stmt = statement(ts, s);
        lemma_statement_progress(ts, s);
        let more = done.push(stmt.value);
        lemma_statements_progress(ts, stmt.state, more);
        lemma_same_errors(ts, s, stmt.state, statements(ts, stmt.state, more).state);
        lemma_strict_statements(ts, stmt.state, more);
        lemma_strict_statement(ts, s);
    }
}

/// Where an item is read without a diagnostic, it was an item of the
/// grammar.
pub proof fn lemma_strict_item(ts: Seq<Lexeme>, s: State)
    requires
        s.index <= ts.len(),
        item(ts, s).state.errors == s.errors,
    ensures
        item_end(ts, s.index) == Some(item(ts, s).state.index),
{
    let k = kind(ts, s);
    let behind = bump(ts, s);
    let r = item(ts, s).state;
    if k == TokenKind::KwFn {
        if kind(ts, behind) != TokenKind::Ident {
            let e = ErrorView::mismatch(
                Wanted::FunctionName,
                kind(ts, behind),
                span(ts, behind),
            );
            lemma_synchronize_progress(ts, record(behind, e));
        } else {
            let named = bump(ts, behind);
            let opened = expect(ts, named, TokenKind::LParen).state;
            let parameters = fields(ts, opened, TokenKind::RParen, Wanted::Parameter, Seq::empty());
            let closed = expect(ts, parameters.state, TokenKind::RParen).state;
            lemma_fields_progress(ts, opened, TokenKind::RParen, Wanted::Parameter, Seq::empty());
            if kind(ts, closed) != TokenKind::LBrace {
                let e = ErrorView::mismatch(
                    Wanted::FunctionBody,
                    kind(ts, closed),
                    span(ts, closed),
                );
                lemma_synchronize_progress(ts, record(closed, e));
            } else {
                lemma_block_progress(ts, closed);
                lemma_expected(ts, s, parameters.state, TokenKind::RParen, r);
                lemma_strict_fields(
                    ts,
                    opened,
                    TokenKind::RParen,
                    Wanted::Parameter,
                    Seq::empty(),
                );
                lemma_strict_block(ts, closed);
            }
        }
    } else if k == TokenKind::KwStruct {
        let name = type_(ts, behind);
        let opened = expect(ts, name.state, TokenKind::LBrace).state;
        lemma_type_progress(ts, behind);
        lemma_fields_progress(ts, opened, TokenKind::RBrace, Wanted::Member, Seq::empty());
        lemma_same_errors(ts, behind, name.state, r);
        lemma_strict_type(ts, behind);
        lemma_strict_fields(ts, opened, TokenKind::RBrace, Wanted::Member, Seq::empty());
    } else {
        let e = ErrorView::unknown_item(k, span(ts, s));
        lemma_synchronize_progress(ts, record(s, e));
    }
}

/// Where items are read without a diagnostic, they were items of the
/// grammar up to the end of input.
pub proof fn lemma_strict_items(ts: Seq<Lexeme>, s: State, done: Seq<ItemView>)
    requires
        s.index <= ts.len(),
        items(ts, s, done).state.errors == s.errors,
    ensures
        items_end(ts, s.index) == Some(items(ts, s, done).state.index),
    decreases ts.len() - s.index,
{
    if kind(ts, s) != TokenKind::EOF {
        let next = item(ts, s);
        lemma_item_progress(ts, s);
        let more = done.push(next.value);
        lemma_items_progress(ts, next.state, more);
        lemma_same_errors(ts, s, next.state, items(ts, next.state, more).state);
        lemma_strict_items(ts, next.state, more);
        lemma_strict_item(ts, s);
    }
}

/// A stream that parses without a diagnostic is a program of the
/// grammar.
pub proof fn lemma_clean_parse_is_program(ts: Seq<Lexeme>)
    requires
        file(ts).state.errors == Seq::<ErrorView>::empty(),
    ensures
        is_program(ts),
{
    lemma_strict_items(ts, start(), Seq::empty());
}

} // verus!
