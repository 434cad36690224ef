//! The diagnostics of a parse stand in the order of the text.

use crate::ast::{ExprView, ItemView, StmtView, TypeView};
use crate::error::{ErrorView, Wanted};
use crate::model::{
    abandon, arguments, behind_unless_end, block, bump, conditional, ends_expression, expect,
    expression, fields, file, finish_binding, generics, infix_power, item, items, kind, moved,
    operand, operators, otherwise, postfix_power, prefix_power, record, skip_comma, span, start,
    statement, statements, synchronize, text, type_, State,
};
use crate::stream::{ordered, peek_span, Lexeme};
use crate::token::TokenKind;
use vstd::prelude::*;
use vstd::utf8::decode_utf8;

verus! {

/// The offset at which the token at index `i` starts.
pub open spec fn start_at(ts: Seq<Lexeme>, i: nat) -> int {
    peek_span(ts, i).start as int
}

/// True when each diagnostic starts at or behind the one before it.
pub open spec fn in_order(errors: Seq<ErrorView>) -> bool {
    forall|i: int, j: int|
        0 <= i <= j < errors.len() ==> (#[trigger] errors[i]).span.start <= (
        #[trigger] errors[j]).span.start
}

/// True when state `r` has come from state `s` by moving forward and
/// recording diagnostics in the order of the text: each new one starts
/// between the token at the cursor of `s` and the token at the cursor of
/// `r`, and at or behind the new one before it.
pub open spec fn in_turn(ts: Seq<Lexeme>, s: State, r: State) -> bool {
    &&& s.index <= r.index
    &&& s.errors.is_prefix_of(r.errors)
    &&& forall|k: int|
        s.errors.len() <= k < r.errors.len() ==> start_at(ts, s.index) <= (
        #[trigger] r.errors[k]).span.start <= start_at(ts, r.index)
    &&& forall|i: int, j: int|
        s.errors.len() <= i <= j < r.errors.len() ==> (#[trigger] r.errors[i]).span.start <= (
        #[trigger] r.errors[j]).span.start
}

/// In an ordered stream a token further on starts further on.
pub proof fn lemma_start_at(ts: Seq<Lexeme>, i: nat, j: nat)
    requires
        ordered(ts),
        i <= j,
    ensures
        start_at(ts, i) <= start_at(ts, j),
{
    if ts.len() > 0 {
        let a = if i < ts.len() {
            i as int
        } else {
            ts.len() - 1
        };
        let b = if j < ts.len() {
            j as int
        } else {
            ts.len() - 1
        };
        assert(ts[a].span.start <= ts[b].span.start);
    }
}

/// A state has come from itself in turn; so has the state behind a token
/// or an optional comma; and two steps in turn make one.
pub proof fn lemma_in_turn(ts: Seq<Lexeme>, a: State, b: State, c: State)
    requires
        ordered(ts),
    ensures
        in_turn(ts, a, a),
        in_turn(ts, a, bump(ts, a)),
        in_turn(ts, a, skip_comma(ts, a)),
        in_turn(ts, a, behind_unless_end(ts, a)),
        in_turn(ts, a, b) && in_turn(ts, b, c) ==> in_turn(ts, a, c),
{
    assert(a.errors.is_prefix_of(a.errors));
    if in_turn(ts, a, b) && in_turn(ts, b, c) {
        lemma_start_at(ts, a.index, b.index);
        lemma_start_at(ts, b.index, c.index);
        assert(a.errors.is_prefix_of(c.errors));
        assert forall|k: int| a.errors.len() <= k < c.errors.len() implies start_at(ts, a.index)
            <= (#[trigger] c.errors[k]).span.start <= start_at(ts, c.index) by {
            if k < b.errors.len() {
                assert(c.errors[k] == b.errors[k]);
            }
        }
        assert forall|i: int, j: int| a.errors.len() <= i <= j < c.errors.len() implies (
        #[trigger] c.errors[i]).span.start <= (#[trigger] c.errors[j]).span.start by {
            if i < b.errors.len() {
                assert(c.errors[i] == b.errors[i]);
            }
            if j < b.errors.len() {
                assert(c.errors[j] == b.errors[j]);
            }
        }
    }
}

/// Recording a diagnostic at the token where the cursor stands, or
/// stood one token before, is in turn.
pub proof fn lemma_record_in_turn(ts: Seq<Lexeme>, a: State, e: ErrorView)
    requires
        ordered(ts),
        e.span == span(ts, a),
    ensures
        in_turn(ts, a, record(a, e)),
        in_turn(ts, a, record(bump(ts, a), e)),
        in_turn(ts, a, record(behind_unless_end(ts, a), e)),
{
    lemma_start_at(ts, a.index, a.index + 1);
    assert(a.errors.is_prefix_of(record(a, e).errors));
    assert(a.errors.is_prefix_of(record(bump(ts, a), e).errors));
}

/// Consuming an expected token is in turn.
pub proof fn lemma_expect_in_turn(ts: Seq<Lexeme>, a: State, k: TokenKind)
    requires
        ordered(ts),
    ensures
        in_turn(ts, a, expect(ts, a, k).state),
{
    lemma_in_turn(ts, a, a, a);
    lemma_record_in_turn(ts, a, ErrorView::unexpected_token(k, kind(ts, a), span(ts, a)));
}

/// Two steps in turn make one.
pub proof fn lemma_then(ts: Seq<Lexeme>, a: State, b: State, c: State)
    requires
        ordered(ts),
        in_turn(ts, a, b),
        in_turn(ts, b, c),
    ensures
        in_turn(ts, a, c),
{
    lemma_in_turn(ts, a, b, c);
}

/// An operand records in turn.
pub proof fn lemma_operand_in_turn(ts: Seq<Lexeme>, s: State)
    requires
        ordered(ts),
    ensures
        in_turn(ts, s, operand(ts, s).state),
    decreases ts.len() - s.index, 1int,
{
    let k = kind(ts, s);
    let behind = bump(ts, s);
    lemma_in_turn(ts, s, s, s);
    if k == TokenKind::Int {
        lemma_record_in_turn(
            ts,
            s,
            ErrorView::invalid_integer(decode_utf8(text(ts, s)), span(ts, s)),
        );
    } else if k == TokenKind::Ident {
        if kind(ts, behind) == TokenKind::LParen {
            let from = bump(ts, behind);
            lemma_in_turn(ts, behind, behind, behind);
            lemma_then(ts, s, behind, from);
            lemma_arguments_in_turn(ts, from, Seq::empty());
            let list = arguments(ts, from, Seq::empty());
            lemma_then(ts, s, from, list.state);
            lemma_expect_in_turn(ts, list.state, TokenKind::RParen);
            lemma_then(ts, s, list.state, expect(ts, list.state, TokenKind::RParen).state);
        }
    } else if k == TokenKind::LParen {
        lemma_expression_in_turn(ts, behind, 0);
        let inner = expression(ts, behind, 0);
        lemma_then(ts, s, behind, inner.state);
        lemma_expect_in_turn(ts, inner.state, TokenKind::RParen);
        lemma_then(ts, s, inner.state, expect(ts, inner.state, TokenKind::RParen).state);
    } else if let Some(right) = prefix_power(k) {
        lemma_expression_in_turn(ts, behind, right);
        lemma_then(ts, s, behind, expression(ts, behind, right).state);
    } else {
        lemma_record_in_turn(ts, s, ErrorView::unknown_expression(k, span(ts, s)));
    }
}

/// The arguments of a call record in turn.
pub proof fn lemma_arguments_in_turn(ts: Seq<Lexeme>, s: State, done: Seq<ExprView>)
    requires
        ordered(ts),
    ensures
        in_turn(ts, s, arguments(ts, s, done).state),
    decreases ts.len() - s.index, 3int,
{
    lemma_in_turn(ts, s, s, s);
    if kind(ts, s) != TokenKind::RParen {
        lemma_expression_in_turn(ts, s, 0);
        let arg = expression(ts, s, 0);
        if arg.value is Ok && moved(ts, s, arg.state) {
            let next = skip_comma(ts, arg.state);
            lemma_then(ts, s, arg.state, next);
            lemma_arguments_in_turn(ts, next, done.push(arg.value->Ok_0));
            lemma_then(ts, s, next, arguments(ts, next, done.push(arg.value->Ok_0)).state);
        }
    }
}

/// An expression records in turn.
pub proof fn lemma_expression_in_turn(ts: Seq<Lexeme>, s: State, min: u8)
    requires
        ordered(ts),
    ensures
        in_turn(ts, s, expression(ts, s, min).state),
    decreases ts.len() - s.index, 2int,
{
    lemma_operand_in_turn(ts, s);
    let first = operand(ts, s);
    if first.value is Ok && moved(ts, s, first.state) {
        lemma_operators_in_turn(ts, first.state, min, first.value->Ok_0);
        lemma_then(ts, s, first.state, operators(ts, first.state, min, first.value->Ok_0).state);
    }
}

/// The operators behind an operand record in turn.
pub proof fn lemma_operators_in_turn(ts: Seq<Lexeme>, s: State, min: u8, lhs: ExprView)
    requires
        ordered(ts),
    ensures
        in_turn(ts, s, operators(ts, s, min, lhs).state),
    decreases ts.len() - s.index, 0int,
{
    let op = kind(ts, s);
    if ends_expression(op) {
    } else if let Some(left) = postfix_power(op) {
        if left >= min {
            let next = ExprView::PostfixOp { op, operand: Box::new(lhs) };
            lemma_operators_in_turn(ts, bump(ts, s), min, next);
        }
    } else if let Some((left, right)) = infix_power(op) {
        if left >= min {
            lemma_expression_in_turn(ts, bump(ts, s), right);
            let rhs = expression(ts, bump(ts, s), right);
            if rhs.value is Ok && moved(ts, s, rhs.state) {
                let next = ExprView::InfixOp {
                    op,
                    lhs: Box::new(lhs),
                    rhs: Box::new(rhs.value->Ok_0),
                };
                lemma_operators_in_turn(ts, rhs.state, min, next);
                lemma_then(ts, s, rhs.state, operators(ts, rhs.state, min, next).state);
            }
        }
    }
}

/// The state behind a name: the token is consumed, and recorded where
/// it is no identifier.
pub proof fn lemma_named_in_turn(ts: Seq<Lexeme>, s: State, wanted: Wanted)
    requires
        ordered(ts),
    ensures
        in_turn(
            ts,
            s,
            if kind(ts, s) == TokenKind::Ident {
                bump(ts, s)
            } else {
                record(bump(ts, s), ErrorView::mismatch(wanted, kind(ts, s), span(ts, s)))
            },
        ),
{
}

/// A type records in turn.
pub proof fn lemma_type_in_turn(ts: Seq<Lexeme>, s: State)
    requires
        ordered(ts),
    ensures
        in_turn(ts, s, type_(ts, s).state),
    decreases ts.len() - s.index, 0int,
{
    let k = kind(ts, s);
    let behind = if k == TokenKind::Ident {
        bump(ts, s)
    } else {
        record(bump(ts, s), ErrorView::mismatch(Wanted::TypeName, k, span(ts, s)))
    };
    if kind(ts, behind) == TokenKind::LAngle {
        let from = bump(ts, behind);
        lemma_generics_in_turn(ts, from, Seq::empty());
        let list = generics(ts, from, Seq::empty());
        lemma_then(ts, s, from, list.state);
        lemma_then(ts, s, list.state, expect(ts, list.state, TokenKind::RAngle).state);
    }
}

/// Generic arguments record in turn.
pub proof fn lemma_generics_in_turn(ts: Seq<Lexeme>, s: State, done: Seq<TypeView>)
    requires
        ordered(ts),
    ensures
        in_turn(ts, s, generics(ts, s, done).state),
    decreases ts.len() - s.index, 1int,
{
    lemma_in_turn(ts, s, s, s);
    if !(kind(ts, s) == TokenKind::RAngle || kind(ts, s) == TokenKind::EOF) {
        lemma_type_in_turn(ts, s);
        let arg = type_(ts, s);
        if moved(ts, s, arg.state) {
            let next = skip_comma(ts, arg.state);
            lemma_in_turn(ts, arg.state, arg.state, arg.state);
            lemma_then(ts, s, arg.state, next);
            lemma_generics_in_turn(ts, next, done.push(arg.value));
            lemma_then(ts, s, next, generics(ts, next, done.push(arg.value)).state);
        }
    }
}

/// Parameters or members record in turn.
pub proof fn lemma_fields_in_turn(
    ts: Seq<Lexeme>,
    s: State,
    close: TokenKind,
    wanted: Wanted,
    done: Seq<(Seq<char>, TypeView)>,
)
    requires
        ordered(ts),
    ensures
        in_turn(ts, s, fields(ts, s, close, wanted, done).state),
    decreases ts.len() - s.index,
{
    let k = kind(ts, s);
    if !(k == close || k == TokenKind::EOF) {
        let name = decode_utf8(text(ts, s));
        let named = if k == TokenKind::Ident {
            bump(ts, s)
        } else {
            record(bump(ts, s), ErrorView::mismatch(wanted, k, span(ts, s)))
        };
        let from = expect(ts, named, TokenKind::Colon).state;
        lemma_type_in_turn(ts, from);
        let ty = type_(ts, from);
        lemma_then(ts, s, from, ty.state);
        if moved(ts, s, ty.state) {
            let next = skip_comma(ts, ty.state);
            let more = done.push((name, ty.value));
            lemma_fields_in_turn(ts, next, close, wanted, more);
            lemma_then(ts, s, next, fields(ts, next, close, wanted, more).state);
        }
    }
}

/// A value and its semicolon record in turn.
pub proof fn lemma_finish_in_turn(
    ts: Seq<Lexeme>,
    s: State,
    make: spec_fn(ExprView) -> StmtView,
)
    requires
        ordered(ts),
    ensures
        in_turn(ts, s, finish_binding(ts, expression(ts, s, 0), make).state),
{
    lemma_expression_in_turn(ts, s, 0);
    let value = expression(ts, s, 0);
    lemma_then(ts, s, value.state, expect(ts, value.state, TokenKind::SemiColon).state);
}

/// A statement records in turn.
pub proof fn lemma_statement_in_turn(ts: Seq<Lexeme>, s: State)
    requires
        ordered(ts),
    ensures
        in_turn(ts, s, statement(ts, s).state),
    decreases ts.len() - s.index, 2int,
{
    let k = kind(ts, s);
    let behind = bump(ts, s);
    if k == TokenKind::KwLet {
        let found = kind(ts, behind);
        let var_name = decode_utf8(text(ts, behind));
        let named = if found == TokenKind::Ident {
            bump(ts, behind)
        } else {
            record(bump(ts, behind), ErrorView::mismatch(Wanted::LetName, found, span(ts, behind)))
        };
        let from = expect(ts, named, TokenKind::Eq).state;
        lemma_expect_in_turn(ts, named, TokenKind::Eq);
        let make = |e: ExprView| StmtView::Let { var_name, value: e };
        lemma_finish_in_turn(ts, from, make);
        lemma_then(ts, s, from, finish_binding(ts, expression(ts, from, 0), make).state);
    } else if k == TokenKind::Ident {
        let var_name = decode_utf8(text(ts, s));
        let from = expect(ts, behind, TokenKind::Eq).state;
        lemma_expect_in_turn(ts, behind, TokenKind::Eq);
        let make = |e: ExprView| StmtView::Assignment { var_name, value: e };
        lemma_finish_in_turn(ts, from, make);
        lemma_then(ts, s, from, finish_binding(ts, expression(ts, from, 0), make).state);
    } else if k == TokenKind::KwIf {
        lemma_conditional_in_turn(ts, s);
    } else if k == TokenKind::LBrace {
        lemma_block_in_turn(ts, s);
    }
}

/// An `if` statement records in turn.
pub proof fn lemma_conditional_in_turn(ts: Seq<Lexeme>, s: State)
    requires
        ordered(ts),
    ensures
        in_turn(ts, s, conditional(ts, s).state),
    decreases ts.len() - s.index, 1int,
{
    let behind = bump(ts, s);
    let from = expect(ts, behind, TokenKind::LParen).state;
    lemma_expression_in_turn(ts, from, 0);
    let condition = expression(ts, from, 0);
    lemma_then(ts, s, from, condition.state);
    if condition.value is Ok {
        let closed = expect(ts, condition.state, TokenKind::RParen).state;
        lemma_expect_in_turn(ts, condition.state, TokenKind::RParen);
        if kind(ts, closed) != TokenKind::LBrace || !moved(ts, s, closed) {
        } else {
            lemma_block_in_turn(ts, closed);
            let body = block(ts, closed);
            lemma_then(ts, s, closed, body.state);
            if moved(ts, s, body.state) {
                lemma_otherwise_in_turn(ts, body.state);
                lemma_then(ts, s, body.state, otherwise(ts, body.state).state);
            }
        }
    }
}

/// What follows the block of an `if` records in turn.
pub proof fn lemma_otherwise_in_turn(ts: Seq<Lexeme>, s: State)
    requires
        ordered(ts),
    ensures
        in_turn(ts, s, otherwise(ts, s).state),
    decreases ts.len() - s.index, 0int,
{
    if kind(ts, s) == TokenKind::KwElse {
        let after = bump(ts, s);
        let next = kind(ts, after);
        if next == TokenKind::KwIf || next == TokenKind::LBrace {
            lemma_statement_in_turn(ts, after);
        }
    }
}

/// A block records in turn.
pub proof fn lemma_block_in_turn(ts: Seq<Lexeme>, s: State)
    requires
        ordered(ts),
    ensures
        in_turn(ts, s, block(ts, s).state),
    decreases ts.len() - s.index, 0int,
{
    if kind(ts, s) == TokenKind::LBrace {
        let from = bump(ts, s);
        lemma_statements_in_turn(ts, from, Seq::empty());
    }
}

/// Statements record in turn.
pub proof fn lemma_statements_in_turn(ts: Seq<Lexeme>, s: State, done: Seq<StmtView>)
    requires
        ordered(ts),
    ensures
        in_turn(ts, s, statements(ts, s, done).state),
    decreases ts.len() - s.index, 3int,
{
    lemma_in_turn(ts, s, s, s);
    if !(kind(ts, s) == TokenKind::RBrace || kind(ts, s) == TokenKind::EOF) {
        lemma_statement_in_turn(ts, s);
        let stmt = statement(ts, s);
        if moved(ts, s, stmt.state) {
            lemma_statements_in_turn(ts, stmt.state, done.push(stmt.value));
            lemma_then(ts, s, stmt.state, statements(ts, stmt.state, done.push(stmt.value)).state);
        }
    }
}

/// Skipping to the next item is in turn.
pub proof fn lemma_synchronize_in_turn(ts: Seq<Lexeme>, s: State)
    requires
        ordered(ts),
    ensures
        in_turn(ts, s, synchronize(ts, s)),
    decreases ts.len() - s.index,
{
    let k = kind(ts, s);
    if !(k == TokenKind::KwFn || k == TokenKind::KwStruct || k == TokenKind::EOF) {
        lemma_synchronize_in_turn(ts, bump(ts, s));
    }
}

/// Giving an item up at the token where the cursor stands is in turn.
pub proof fn lemma_abandon_in_turn(ts: Seq<Lexeme>, s: State, e: ErrorView)
    requires
        ordered(ts),
        e.span == span(ts, s),
    ensures
        in_turn(ts, s, abandon(ts, s, e).state),
{
    lemma_synchronize_in_turn(ts, record(s, e));
    lemma_then(ts, s, record(s, e), synchronize(ts, record(s, e)));
}

/// An item records in turn.
pub proof fn lemma_item_in_turn(ts: Seq<Lexeme>, s: State)
    requires
        ordered(ts),
    ensures
        in_turn(ts, s, item(ts, s).state),
{
    let k = kind(ts, s);
    let behind = bump(ts, s);
    if k == TokenKind::KwFn {
        if kind(ts, behind) != TokenKind::Ident {
            let e = ErrorView::mismatch(
                Wanted::FunctionName,
                kind(ts, behind),
                span(ts, behind),
            );
            lemma_abandon_in_turn(ts, behind, e);
        } else {
            let named = bump(ts, behind);
            let opened = expect(ts, named, TokenKind::LParen).state;
            lemma_fields_in_turn(ts, opened, TokenKind::RParen, Wanted::Parameter, Seq::empty());
            let parameters = fields(ts, opened, TokenKind::RParen, Wanted::Parameter, Seq::empty());
            lemma_then(ts, s, opened, parameters.state);
            let closed = expect(ts, parameters.state, TokenKind::RParen).state;
            if kind(ts, closed) != TokenKind::LBrace {
                let e = ErrorView::mismatch(
                    Wanted::FunctionBody,
                    kind(ts, closed),
                    span(ts, closed),
                );
                lemma_abandon_in_turn(ts, closed, e);
                lemma_then(ts, s, closed, abandon(ts, closed, e).state);
            } else {
                lemma_block_in_turn(ts, closed);
                lemma_then(ts, s, closed, block(ts, closed).state);
            }
        }
    } else if k == TokenKind::KwStruct {
        lemma_type_in_turn(ts, behind);
        let name = type_(ts, behind);
        let opened = expect(ts, name.state, TokenKind::LBrace).state;
        lemma_fields_in_turn(ts, opened, TokenKind::RBrace, Wanted::Member, Seq::empty());
        let members = fields(ts, opened, TokenKind::RBrace, Wanted::Member, Seq::empty());
        lemma_then(ts, s, opened, members.state);
        lemma_expect_in_turn(ts, members.state, TokenKind::RBrace);
        lemma_then(ts, s, members.state, expect(ts, members.state, TokenKind::RBrace).state);
    } else {
        lemma_abandon_in_turn(ts, s, ErrorView::unknown_item(k, span(ts, s)));
    }
}

/// Items record in turn.
pub proof fn lemma_items_in_turn(ts: Seq<Lexeme>, s: State, done: Seq<ItemView>)
    requires
        ordered(ts),
    ensures
        in_turn(ts, s, items(ts, s, done).state),
    decreases ts.len() - s.index,
{
    if kind(ts, s) != TokenKind::EOF {
        lemma_item_in_turn(ts, s);
        let next = item(ts, s);
        if moved(ts, s, next.state) {
            lemma_items_in_turn(ts, next.state, done.push(next.value));
            lemma_then(ts, s, next.state, items(ts, next.state, done.push(next.value)).state);
        }
    }
}

/// The diagnostics of the parse of an ordered stream stand in the order
/// of the text.
pub proof fn lemma_diagnostics_in_order(ts: Seq<Lexeme>)
    requires
        ordered(ts),
    ensures
        in_order(file(ts).state.errors),
{
    lemma_items_in_turn(ts, start(), Seq::empty());
}

} // verus!
