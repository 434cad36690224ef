//! A program of the grammar parses without a diagnostic, to a tree that
//! holds no error node.

use crate::ast::{ExprView, ItemView, StmtView, TypeView};
use crate::canon::{
    valid_expr, valid_fields, valid_item, valid_items, valid_stmt, valid_stmts, valid_type,
};
use crate::error::{ErrorView, Wanted};
use crate::grammar::{
    ahead, args_end, block_end, expr_end, fields_end, generics_end, if_end, is_program, item_end,
    items_end, operand_end, past_comma, stmt_end, stmts_end, tail_end, type_end, value_end,
};
use crate::model::{
    arguments, block, bump, conditional, ends_expression, expect, expression, fields, file,
    finish_binding, generics, infix_power, item, items, kind, operand, operators, postfix_power,
    prefix_power, skip_comma, start, statement, statements, text, type_, ExprResult, State,
};
use crate::shape::all_shaped;
use crate::stream::{peek_kind, Lexeme};
use crate::token::TokenKind;
use vstd::prelude::*;

verus! {

/// True when no error node stands in the statement or below it.
pub open spec fn clean_stmt(st: StmtView) -> bool
    decreases st,
{
    match st {
        StmtView::Let { .. } => true,
        StmtView::Assignment { .. } => true,
        StmtView::IfStmt { condition, body, else_branch } => {
            &&& forall|i: int| 0 <= i < body.len() ==> clean_stmt(#[trigger] body[i])
            &&& match else_branch {
                Some(branch) => clean_stmt(*branch),
                None => true,
            }
        },
        StmtView::Block { stmts } => forall|i: int|
            0 <= i < stmts.len() ==> clean_stmt(#[trigger] stmts[i]),
        StmtView::Error(_) => false,
    }
}

/// True when no error node stands in the statements or below them.
pub open spec fn clean_stmts(stmts: Seq<StmtView>) -> bool {
    forall|i: int| 0 <= i < stmts.len() ==> clean_stmt(#[trigger] stmts[i])
}

/// True when no error node stands in the item or below it.
pub open spec fn clean_item(it: ItemView) -> bool {
    match it {
        ItemView::Struct { .. } => true,
        ItemView::Function { name, parameters, body } => clean_stmts(body),
        ItemView::Error(_) => false,
    }
}

/// True when no error node stands in the items or below them.
pub open spec fn clean_items(list: Seq<ItemView>) -> bool {
    forall|i: int| 0 <= i < list.len() ==> clean_item(#[trigger] list[i])
}

/// The state at index `i` with the diagnostics of `s`.
pub open spec fn at(s: State, i: nat) -> State {
    State { index: i, errors: s.errors }
}

/// What holds where the expression parser has read a part of an
/// expression of the grammar that ends at `end`: it gave a tree, recorded
/// nothing, and what is left of the expression starts behind the cursor.
pub open spec fn accepted(ts: Seq<Lexeme>, s: State, r: ExprResult, end: nat) -> bool {
    &&& r.value is Ok
    &&& r.state.errors == s.errors
    &&& s.index <= r.state.index <= ts.len()
    &&& tail_end(ts, r.state.index) == Some(end)
}

/// What follows an operand ends at a token that ends the expression.
pub proof fn lemma_tail_end(ts: Seq<Lexeme>, i: nat)
    requires
        tail_end(ts, i) is Some,
        i <= ts.len(),
    ensures
        i <= tail_end(ts, i)->0 <= ts.len(),
        ends_expression(peek_kind(ts, tail_end(ts, i)->0)),
        tail_end(ts, tail_end(ts, i)->0) == tail_end(ts, i),
    decreases ts.len() - i,
{
    let k = peek_kind(ts, i);
    if ends_expression(k) {
    } else if postfix_power(k) is Some {
        lemma_tail_end(ts, i + 1);
    } else if infix_power(k) is Some {
        lemma_tail_end(ts, operand_end(ts, i + 1)->0);
    }
}

/// An operand is not empty and ends inside the stream. So do the
/// arguments of a call, which end at the closing parenthesis.
pub proof fn lemma_operand_end(ts: Seq<Lexeme>, i: nat)
    requires
        operand_end(ts, i) is Some,
    ensures
        ahead(ts, i, operand_end(ts, i)->0),
    decreases ts.len() - i, 1int,
{
    let k = peek_kind(ts, i);
    if k == TokenKind::Ident && peek_kind(ts, i + 1) == TokenKind::LParen {
        lemma_args_end(ts, i + 2);
    } else if k == TokenKind::LParen {
        lemma_expr_end(ts, i + 1);
    } else if prefix_power(k) is Some && k != TokenKind::Int && k != TokenKind::Float && k
        != TokenKind::String && k != TokenKind::Ident {
        lemma_operand_end(ts, i + 1);
    }
}

/// An expression is not empty and ends inside the stream, at a token
/// that ends an expression.
pub proof fn lemma_expr_end(ts: Seq<Lexeme>, i: nat)
    requires
        expr_end(ts, i) is Some,
    ensures
        ahead(ts, i, expr_end(ts, i)->0),
        ends_expression(peek_kind(ts, expr_end(ts, i)->0)),
    decreases ts.len() - i, 2int,
{
    lemma_tail_end(ts, operand_end(ts, i)->0);
}

/// The arguments of a call end at the closing parenthesis.
pub proof fn lemma_args_end(ts: Seq<Lexeme>, i: nat)
    requires
        args_end(ts, i) is Some,
    ensures
        i <= args_end(ts, i)->0,
        peek_kind(ts, args_end(ts, i)->0) == TokenKind::RParen,
    decreases ts.len() - i, 3int,
{
    if peek_kind(ts, i) != TokenKind::RParen {
        lemma_args_end(ts, past_comma(ts, expr_end(ts, i)->0));
    }
}

/// The operators behind an operand of an expression of the grammar are
/// read without a diagnostic; with the least binding power, to its end.
pub proof fn lemma_accept_operators(ts: Seq<Lexeme>, s: State, min: u8, lhs: ExprView)
    requires
        tail_end(ts, s.index) is Some,
        s.index <= ts.len(),
    ensures
        accepted(ts, s, operators(ts, s, min, lhs), tail_end(ts, s.index)->0),
        min == 0 ==> operators(ts, s, min, lhs).state.index == tail_end(ts, s.index)->0,
        all_shaped(ts) && valid_expr(lhs) ==> valid_expr(operators(ts, s, min, lhs).value->Ok_0),
    decreases ts.len() - s.index, 0int,
{
    let op = kind(ts, s);
    if ends_expression(op) {
    } else if let Some(left) = postfix_power(op) {
        if left >= min {
            lemma_accept_operators(
                ts,
                bump(ts, s),
                min,
                ExprView::PostfixOp { op, operand: Box::new(lhs) },
            );
        }
    } else if let Some((left, right)) = infix_power(op) {
        if left >= min {
            let behind = bump(ts, s);
            lemma_operand_end(ts, behind.index);
            lemma_accept_expression(ts, behind, right);
            let rhs = expression(ts, behind, right);
            lemma_accept_operators(
                ts,
                rhs.state,
                min,
                ExprView::InfixOp { op, lhs: Box::new(lhs), rhs: Box::new(rhs.value->Ok_0) },
            );
        }
    }
}

/// An expression of the grammar is read without a diagnostic; with the
/// least binding power, to its end.
pub proof fn lemma_accept_expression(ts: Seq<Lexeme>, s: State, min: u8)
    requires
        expr_end(ts, s.index) is Some,
    ensures
        accepted(ts, s, expression(ts, s, min), expr_end(ts, s.index)->0),
        s.index < expression(ts, s, min).state.index,
        min == 0 ==> expression(ts, s, min).state.index == expr_end(ts, s.index)->0,
        all_shaped(ts) ==> valid_expr(expression(ts, s, min).value->Ok_0),
    decreases ts.len() - s.index, 2int,
{
    lemma_accept_operand(ts, s, expr_end(ts, s.index)->0);
    let first = operand(ts, s);
    lemma_accept_operators(ts, first.state, min, first.value->Ok_0);
}

/// An operand of the grammar is read without a diagnostic. A prefix
/// operator may take postfix operators behind its operand with it.
pub proof fn lemma_accept_operand(ts: Seq<Lexeme>, s: State, end: nat)
    requires
        operand_end(ts, s.index) is Some,
        tail_end(ts, operand_end(ts, s.index)->0) == Some(end),
    ensures
        accepted(ts, s, operand(ts, s), end),
        s.index < operand(ts, s).state.index,
        all_shaped(ts) ==> valid_expr(operand(ts, s).value->Ok_0),
    decreases ts.len() - s.index, 1int,
{
    let k = kind(ts, s);
    let behind = bump(ts, s);
    if k == TokenKind::Int || k == TokenKind::Float || k == TokenKind::String {
    } else if k == TokenKind::Ident {
        if kind(ts, behind) == TokenKind::LParen {
            lemma_accept_arguments(ts, bump(ts, behind), Seq::empty());
            lemma_args_end(ts, s.index + 2);
        }
    } else if k == TokenKind::LParen {
        lemma_accept_expression(ts, behind, 0);
    } else if let Some(right) = prefix_power(k) {
        lemma_operand_end(ts, s.index + 1);
        lemma_accept_expression(ts, behind, right);
    }
}

/// The arguments of a call of the grammar are read without a diagnostic
/// up to the closing parenthesis.
pub proof fn lemma_accept_arguments(ts: Seq<Lexeme>, s: State, done: Seq<ExprView>)
    requires
        args_end(ts, s.index) is Some,
    ensures
        arguments(ts, s, done).value is Ok,
        arguments(ts, s, done).state == at(s, args_end(ts, s.index)->0),
        all_shaped(ts) && (forall|i: int| 0 <= i < done.len() ==> valid_expr(#[trigger] done[i]))
            ==> forall|i: int|
            0 <= i < arguments(ts, s, done).value->Ok_0.len() ==> valid_expr(
                #[trigger] arguments(ts, s, done).value->Ok_0[i],
            ),
    decreases ts.len() - s.index, 3int,
{
    if kind(ts, s) != TokenKind::RParen {
        lemma_accept_expression(ts, s, 0);
        let arg = expression(ts, s, 0);
        lemma_accept_arguments(ts, skip_comma(ts, arg.state), done.push(arg.value->Ok_0));
    }
}

/// A type of the grammar is read without a diagnostic, to its end.
pub proof fn lemma_accept_type(ts: Seq<Lexeme>, s: State)
    requires
        type_end(ts, s.index) is Some,
    ensures
        type_(ts, s).state == at(s, type_end(ts, s.index)->0),
        ahead(ts, s.index, type_end(ts, s.index)->0),
        all_shaped(ts) ==> valid_type(type_(ts, s).value),
    decreases ts.len() - s.index, 0int,
{
    let behind = bump(ts, s);
    if kind(ts, behind) == TokenKind::LAngle {
        lemma_accept_generics(ts, bump(ts, behind), Seq::empty());
    }
}

/// Generic arguments of the grammar are read without a diagnostic up
/// to the closing angle bracket.
pub proof fn lemma_accept_generics(ts: Seq<Lexeme>, s: State, done: Seq<TypeView>)
    requires
        generics_end(ts, s.index) is Some,
    ensures
        generics(ts, s, done).state == at(s, generics_end(ts, s.index)->0),
        peek_kind(ts, generics_end(ts, s.index)->0) == TokenKind::RAngle,
        s.index <= generics_end(ts, s.index)->0,
        all_shaped(ts) && (forall|i: int| 0 <= i < done.len() ==> valid_type(#[trigger] done[i]))
            ==> forall|i: int|
            0 <= i < generics(ts, s, done).value.len() ==> valid_type(
                #[trigger] generics(ts, s, done).value[i],
            ),
    decreases ts.len() - s.index, 1int,
{
    if kind(ts, s) != TokenKind::RAngle {
        lemma_accept_type(ts, s);
        let arg = type_(ts, s);
        lemma_accept_generics(ts, skip_comma(ts, arg.state), done.push(arg.value));
    }
}

/// Parameters or members of the grammar are read without a diagnostic
/// up to the token that closes their list.
pub proof fn lemma_accept_fields(
    ts: Seq<Lexeme>,
    s: State,
    close: TokenKind,
    wanted: Wanted,
    done: Seq<(Seq<char>, TypeView)>,
)
    requires
        fields_end(ts, s.index, close) is Some,
        close == TokenKind::RParen || close == TokenKind::RBrace,
    ensures
        fields(ts, s, close, wanted, done).state == at(s, fields_end(ts, s.index, close)->0),
        peek_kind(ts, fields_end(ts, s.index, close)->0) == close,
        s.index <= fields_end(ts, s.index, close)->0,
        all_shaped(ts) && valid_fields(done) ==> valid_fields(
            fields(ts, s, close, wanted, done).value,
        ),
    decreases ts.len() - s.index,
{
    if kind(ts, s) != close {
        let named = bump(ts, s);
        let typed = expect(ts, named, TokenKind::Colon).state;
        lemma_accept_type(ts, typed);
        let ty = type_(ts, typed);
        lemma_accept_fields(
            ts,
            skip_comma(ts, ty.state),
            close,
            wanted,
            done.push((vstd::utf8::decode_utf8(text(ts, s)), ty.value)),
        );
    }
}

/// A value and its semicolon are read without a diagnostic, and the
/// statement is built from the value.
pub proof fn lemma_accept_value(
    ts: Seq<Lexeme>,
    s: State,
    make: spec_fn(ExprView) -> StmtView,
)
    requires
        value_end(ts, s.index) is Some,
    ensures
        ({
            let r = finish_binding(ts, expression(ts, s, 0), make);
            &&& r.state == at(s, value_end(ts, s.index)->0)
            &&& r.value == make(expression(ts, s, 0).value->Ok_0)
            &&& ahead(ts, s.index, value_end(ts, s.index)->0)
            &&& all_shaped(ts) ==> valid_expr(expression(ts, s, 0).value->Ok_0)
        }),
{
    lemma_accept_expression(ts, s, 0);
}

/// A statement of the grammar is read without a diagnostic, to its end,
/// and leaves no error node.
pub proof fn lemma_accept_statement(ts: Seq<Lexeme>, s: State)
    requires
        stmt_end(ts, s.index) is Some,
    ensures
        statement(ts, s).state == at(s, stmt_end(ts, s.index)->0),
        clean_stmt(statement(ts, s).value),
        ahead(ts, s.index, stmt_end(ts, s.index)->0),
        all_shaped(ts) ==> valid_stmt(statement(ts, s).value),
        peek_kind(ts, s.index) == TokenKind::KwIf ==> statement(ts, s).value is IfStmt,
        peek_kind(ts, s.index) == TokenKind::LBrace ==> statement(ts, s).value is Block,
    decreases ts.len() - s.index, 2int,
{
    let k = kind(ts, s);
    let behind = bump(ts, s);
    if k == TokenKind::KwLet {
        let var_name = vstd::utf8::decode_utf8(text(ts, behind));
        let from = expect(ts, bump(ts, behind), TokenKind::Eq).state;
        lemma_accept_value(ts, from, |e: ExprView| StmtView::Let { var_name, value: e });
    } else if k == TokenKind::Ident {
        let var_name = vstd::utf8::decode_utf8(text(ts, s));
        let from = expect(ts, behind, TokenKind::Eq).state;
        lemma_accept_value(ts, from, |e: ExprView| StmtView::Assignment { var_name, value: e });
    } else if k == TokenKind::KwIf {
        lemma_accept_conditional(ts, s);
    } else if k == TokenKind::LBrace {
        lemma_accept_block(ts, s);
    }
}

/// An `if` statement of the grammar is read without a diagnostic, to
/// its end, and leaves no error node.
pub proof fn lemma_accept_conditional(ts: Seq<Lexeme>, s: State)
    requires
        if_end(ts, s.index) is Some,
    ensures
        conditional(ts, s).state == at(s, if_end(ts, s.index)->0),
        clean_stmt(conditional(ts, s).value),
        ahead(ts, s.index, if_end(ts, s.index)->0),
        all_shaped(ts) ==> valid_stmt(conditional(ts, s).value),
        conditional(ts, s).value is IfStmt,
    decreases ts.len() - s.index, 1int,
{
    let from = expect(ts, bump(ts, s), TokenKind::LParen).state;
    lemma_accept_expression(ts, from, 0);
    let condition = expression(ts, from, 0);
    let closed = expect(ts, condition.state, TokenKind::RParen).state;
    lemma_accept_block(ts, closed);
    let body = block(ts, closed);
    if kind(ts, body.state) == TokenKind::KwElse {
        lemma_accept_statement(ts, bump(ts, body.state));
    }
}

/// A block of the grammar is read without a diagnostic, to its end, and
/// holds no error node.
pub proof fn lemma_accept_block(ts: Seq<Lexeme>, s: State)
    requires
        block_end(ts, s.index) is Some,
    ensures
        block(ts, s).state == at(s, block_end(ts, s.index)->0),
        clean_stmts(block(ts, s).value),
        ahead(ts, s.index, block_end(ts, s.index)->0),
        all_shaped(ts) ==> valid_stmts(block(ts, s).value),
    decreases ts.len() - s.index, 0int,
{
    lemma_accept_statements(ts, bump(ts, s), Seq::empty());
}

/// Statements of the grammar are read without a diagnostic up to the
/// closing brace, and none of them is or holds an error node.
pub proof fn lemma_accept_statements(ts: Seq<Lexeme>, s: State, done: Seq<StmtView>)
    requires
        stmts_end(ts, s.index) is Some,
        clean_stmts(done),
    ensures
        statements(ts, s, done).state == at(s, stmts_end(ts, s.index)->0),
        clean_stmts(statements(ts, s, done).value),
        peek_kind(ts, stmts_end(ts, s.index)->0) == TokenKind::RBrace,
        s.index <= stmts_end(ts, s.index)->0,
        all_shaped(ts) && valid_stmts(done) ==> valid_stmts(statements(ts, s, done).value),
    decreases ts.len() - s.index, 3int,
{
    if kind(ts, s) != TokenKind::RBrace {
        lemma_accept_statement(ts, s);
        let stmt = statement(ts, s);
        lemma_accept_statements(ts, stmt.state, done.push(stmt.value));
    }
}

/// An item of the grammar is read without a diagnostic, to its end, and
/// holds no error node.
pub proof fn lemma_accept_item(ts: Seq<Lexeme>, s: State)
    requires
        item_end(ts, s.index) is Some,
    ensures
        item(ts, s).state == at(s, item_end(ts, s.index)->0),
        clean_item(item(ts, s).value),
        ahead(ts, s.index, item_end(ts, s.index)->0),
        all_shaped(ts) ==> valid_item(item(ts, s).value),
{
    let k = kind(ts, s);
    let behind = bump(ts, s);
    if k == TokenKind::KwFn {
        let opened = expect(ts, bump(ts, behind), TokenKind::LParen).state;
        lemma_accept_fields(ts, opened, TokenKind::RParen, Wanted::Parameter, Seq::empty());
        let parameters = fields(ts, opened, TokenKind::RParen, Wanted::Parameter, Seq::empty());
        let closed = expect(ts, parameters.state, TokenKind::RParen).state;
        lemma_accept_block(ts, closed);
    } else if k == TokenKind::KwStruct {
        lemma_accept_type(ts, behind);
        let name = type_(ts, behind);
        let opened = expect(ts, name.state, TokenKind::LBrace).state;
        lemma_accept_fields(ts, opened, TokenKind::RBrace, Wanted::Member, Seq::empty());
    }
}

/// Items of the grammar are read without a diagnostic up to the end of
/// input, and none of them is or holds an error node.
pub proof fn lemma_accept_items(ts: Seq<Lexeme>, s: State, done: Seq<ItemView>)
    requires
        items_end(ts, s.index) is Some,
        clean_items(done),
    ensures
        items(ts, s, done).state == at(s, items_end(ts, s.index)->0),
        clean_items(items(ts, s, done).value),
        all_shaped(ts) && valid_items(done) ==> valid_items(items(ts, s, done).value),
    decreases ts.len() - s.index,
{
    if kind(ts, s) != TokenKind::EOF {
        lemma_accept_item(ts, s);
        let next = item(ts, s);
        lemma_accept_items(ts, next.state, done.push(next.value));
    }
}

/// A program of the grammar parses without a diagnostic, to items none
/// of which is or holds an error node.
pub proof fn lemma_program_parses_clean(ts: Seq<Lexeme>)
    requires
        is_program(ts),
    ensures
        file(ts).state.errors == Seq::<ErrorView>::empty(),
        clean_items(file(ts).value),
        all_shaped(ts) ==> valid_items(file(ts).value),
{
    lemma_accept_items(ts, start(), Seq::empty());
}

} // verus!
