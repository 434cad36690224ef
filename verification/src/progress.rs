//! The parser only moves forward, never past the end of the stream, and
//! never takes a diagnostic back. Where it gives a tree, it has moved.

use crate::ast::{ExprView, ItemView, StmtView, TypeView};
use crate::error::{ErrorView, Wanted};
use crate::model::{
    arguments, block, bump, conditional, ends_expression, expect, expression, fields,
    finish_binding, generics, infix_power, item, items, kind, moved, operand, operators, otherwise,
    postfix_power, prefix_power, record, skip_comma, span, statement, statements, synchronize, text,
    type_, ExprResult, State,
};
use crate::stream::Lexeme;
use crate::token::TokenKind;
use vstd::prelude::*;

verus! {

/// True when state `r` can follow state `s` in a parse of `ts`: the
/// cursor has not moved back, it has not left the stream, and the
/// diagnostics of `s` are still the first of `r`.
pub open spec fn follows(ts: Seq<Lexeme>, s: State, r: State) -> bool {
    &&& s.index <= r.index
    &&& s.index <= ts.len() ==> r.index <= ts.len()
    &&& s.errors.is_prefix_of(r.errors)
}

/// A state follows itself, and following is transitive.
pub proof fn lemma_follows(ts: Seq<Lexeme>, a: State, b: State, c: State)
    ensures
        follows(ts, a, a),
        follows(ts, a, b) && follows(ts, b, c) ==> follows(ts, a, c),
        follows(ts, a, bump(ts, a)),
        forall|k: TokenKind| follows(ts, a, #[trigger] expect(ts, a, k).state),
        follows(ts, a, skip_comma(ts, a)),
{
}

/// Recording a diagnostic keeps the cursor and the earlier diagnostics.
pub proof fn lemma_record_follows(ts: Seq<Lexeme>, a: State, b: State, e: ErrorView)
    requires
        follows(ts, a, b),
    ensures
        follows(ts, a, record(b, e)),
{
}

/// A state that follows another and has no more diagnostics has the same.
pub proof fn lemma_same_errors(ts: Seq<Lexeme>, a: State, b: State, c: State)
    requires
        follows(ts, a, b),
        follows(ts, b, c),
        c.errors == a.errors,
    ensures
        b.errors == a.errors,
{
}

/// What holds of every result of the expression parser: the state
/// behind it follows the state before it; where it gave a tree the cursor
/// has moved, and where it gave none a diagnostic is recorded.
pub open spec fn expression_progress(ts: Seq<Lexeme>, s: State, r: ExprResult) -> bool {
    &&& follows(ts, s, r.state)
    &&& r.value is Ok ==> s.index < r.state.index
    &&& r.value is Err ==> s.errors.len() < r.state.errors.len()
}

/// What holds of every result of the expression parser holds of an
/// operand.
pub proof fn lemma_operand_progress(ts: Seq<Lexeme>, s: State)
    ensures
        expression_progress(ts, s, operand(ts, s)),
    decreases ts.len() - s.index, 1int,
{
    let k = kind(ts, s);
    let behind = bump(ts, s);
    if k == TokenKind::Int {
    } else if k == TokenKind::Ident {
        if kind(ts, behind) == TokenKind::LParen {
            let from = bump(ts, behind);
            lemma_arguments_progress(ts, from, Seq::empty());
        }
    } else if k == TokenKind::LParen {
        lemma_expression_progress(ts, behind, 0);
    } else if let Some(right) = prefix_power(k) {
        lemma_expression_progress(ts, behind, right);
    }
}

/// The state behind the arguments of a call follows the state in front of
/// them, and where they fail a diagnostic is recorded.
pub proof fn lemma_arguments_progress(ts: Seq<Lexeme>, s: State, done: Seq<ExprView>)
    ensures
        follows(ts, s, arguments(ts, s, done).state),
        arguments(ts, s, done).value is Err ==> s.errors.len() < arguments(
            ts,
            s,
            done,
        ).state.errors.len(),
    decreases ts.len() - s.index, 3int,
{
    if kind(ts, s) != TokenKind::RParen {
        lemma_expression_progress(ts, s, 0);
        let arg = expression(ts, s, 0);
        if arg.value is Ok && moved(ts, s, arg.state) {
            let next = skip_comma(ts, arg.state);
            lemma_arguments_progress(ts, next, done.push(arg.value->Ok_0));
        }
    }
}

/// What holds of every result of the expression parser holds of an
/// expression.
pub proof fn lemma_expression_progress(ts: Seq<Lexeme>, s: State, min: u8)
    ensures
        expression_progress(ts, s, expression(ts, s, min)),
    decreases ts.len() - s.index, 2int,
{
    lemma_operand_progress(ts, s);
    let first = operand(ts, s);
    if first.value is Ok && moved(ts, s, first.state) {
        lemma_operators_progress(ts, first.state, min, first.value->Ok_0);
    }
}

/// The state behind the operators follows the state behind the operand,
/// and where they fail a diagnostic is recorded.
pub proof fn lemma_operators_progress(ts: Seq<Lexeme>, s: State, min: u8, lhs: ExprView)
    ensures
        follows(ts, s, operators(ts, s, min, lhs).state),
        operators(ts, s, min, lhs).value is Err ==> s.errors.len() < operators(
            ts,
            s,
            min,
            lhs,
        ).state.errors.len(),
    decreases ts.len() - s.index, 0int,
{
    let op = kind(ts, s);
    if ends_expression(op) {
    } else if let Some(left) = postfix_power(op) {
        if left >= min {
            let next = ExprView::PostfixOp { op, operand: Box::new(lhs) };
            lemma_operators_progress(ts, bump(ts, s), min, next);
        }
    } else if let Some((left, right)) = infix_power(op) {
        if left >= min {
            lemma_expression_progress(ts, bump(ts, s), right);
            let rhs = expression(ts, bump(ts, s), right);
            if rhs.value is Ok && moved(ts, s, rhs.state) {
                let next = ExprView::InfixOp {
                    op,
                    lhs: Box::new(lhs),
                    rhs: Box::new(rhs.value->Ok_0),
                };
                lemma_operators_progress(ts, rhs.state, min, next);
            }
        }
    }
}

/// A type takes a token, unless the cursor stands behind the stream.
pub proof fn lemma_type_progress(ts: Seq<Lexeme>, s: State)
    ensures
        follows(ts, s, type_(ts, s).state),
        s.index < ts.len() ==> s.index < type_(ts, s).state.index,
    decreases ts.len() - s.index, 0int,
{
    let k = kind(ts, s);
    let e = ErrorView::mismatch(Wanted::TypeName, k, span(ts, s));
    lemma_record_follows(ts, s, bump(ts, s), e);
    let behind = if k == TokenKind::Ident {
        bump(ts, s)
    } else {
        record(bump(ts, s), e)
    };
    if kind(ts, behind) == TokenKind::LAngle {
        let from = bump(ts, behind);
        lemma_generics_progress(ts, from, Seq::empty());
    }
}

/// The state behind generic arguments follows the state in front of them.
pub proof fn lemma_generics_progress(ts: Seq<Lexeme>, s: State, done: Seq<TypeView>)
    ensures
        follows(ts, s, generics(ts, s, done).state),
    decreases ts.len() - s.index, 1int,
{
    if !(kind(ts, s) == TokenKind::RAngle || kind(ts, s) == TokenKind::EOF) {
        lemma_type_progress(ts, s);
        let arg = type_(ts, s);
        if moved(ts, s, arg.state) {
            let next = skip_comma(ts, arg.state);
            lemma_generics_progress(ts, next, done.push(arg.value));
        }
    }
}

/// The state behind parameters or members follows the state in front of
/// them.
pub proof fn lemma_fields_progress(
    ts: Seq<Lexeme>,
    s: State,
    close: TokenKind,
    wanted: Wanted,
    done: Seq<(Seq<char>, TypeView)>,
)
    ensures
        follows(ts, s, fields(ts, s, close, wanted, done).state),
    decreases ts.len() - s.index,
{
    let k = kind(ts, s);
    if !(k == close || k == TokenKind::EOF) {
        let name = vstd::utf8::decode_utf8(text(ts, s));
        let e = ErrorView::mismatch(wanted, k, span(ts, s));
        let named = if k == TokenKind::Ident {
            bump(ts, s)
        } else {
            record(bump(ts, s), e)
        };
        let from = expect(ts, named, TokenKind::Colon).state;
        lemma_type_progress(ts, from);
        let ty = type_(ts, from);
        if moved(ts, s, ty.state) {
            let next = skip_comma(ts, ty.state);
            lemma_fields_progress(ts, next, close, wanted, done.push((name, ty.value)));
            lemma_follows(
                ts,
                s,
                next,
                fields(ts, next, close, wanted, done.push((name, ty.value))).state,
            );
        }
    }
}

/// The end of a binding follows the start of its value.
pub proof fn lemma_finish_progress(
    ts: Seq<Lexeme>,
    s: State,
    make: spec_fn(ExprView) -> StmtView,
)
    ensures
        follows(ts, s, finish_binding(ts, expression(ts, s, 0), make).state),
{
    lemma_expression_progress(ts, s, 0);
}

/// A statement takes a token, unless the cursor stands at the end of
/// input.
pub proof fn lemma_statement_progress(ts: Seq<Lexeme>, s: State)
    ensures
        follows(ts, s, statement(ts, s).state),
        kind(ts, s) != TokenKind::EOF ==> s.index < statement(ts, s).state.index,
    decreases ts.len() - s.index, 2int,
{
    let k = kind(ts, s);
    let behind = bump(ts, s);
    if k == TokenKind::KwLet {
        let found = kind(ts, behind);
        let var_name = vstd::utf8::decode_utf8(text(ts, behind));
        let e = ErrorView::mismatch(
            Wanted::LetName,
            found,
            span(ts, behind),
        );
        let named = if found == TokenKind::Ident {
            bump(ts, behind)
        } else {
            record(bump(ts, behind), e)
        };
        let from = expect(ts, named, TokenKind::Eq).state;
        let make = |e: ExprView| StmtView::Let { var_name, value: e };
        lemma_finish_progress(ts, from, make);
    } else if k == TokenKind::Ident {
        let var_name = vstd::utf8::decode_utf8(text(ts, s));
        let from = expect(ts, behind, TokenKind::Eq).state;
        let make = |e: ExprView| StmtView::Assignment { var_name, value: e };
        lemma_finish_progress(ts, from, make);
    } else if k == TokenKind::KwIf {
        lemma_conditional_progress(ts, s);
    } else if k == TokenKind::LBrace {
        lemma_block_progress(ts, s);
    }
}

/// An `if` statement takes at least its keyword.
pub proof fn lemma_conditional_progress(ts: Seq<Lexeme>, s: State)
    requires
        kind(ts, s) == TokenKind::KwIf,
    ensures
        follows(ts, s, conditional(ts, s).state),
        s.index < conditional(ts, s).state.index,
    decreases ts.len() - s.index, 1int,
{
    let behind = bump(ts, s);
    let from = expect(ts, behind, TokenKind::LParen).state;
    lemma_expression_progress(ts, from, 0);
    let condition = expression(ts, from, 0);
    lemma_follows(ts, s, from, condition.state);
    if condition.value is Ok {
        let closed = expect(ts, condition.state, TokenKind::RParen).state;
        if kind(ts, closed) != TokenKind::LBrace || !moved(ts, s, closed) {
        } else {
            lemma_block_progress(ts, closed);
            let body = block(ts, closed);
            lemma_follows(ts, s, closed, body.state);
            if moved(ts, s, body.state) {
                lemma_otherwise_progress(ts, body.state);
            }
        }
    }
}

/// The state behind an `else` branch follows the state in front of it.
pub proof fn lemma_otherwise_progress(ts: Seq<Lexeme>, s: State)
    ensures
        follows(ts, s, otherwise(ts, s).state),
    decreases ts.len() - s.index, 0int,
{
    if kind(ts, s) == TokenKind::KwElse {
        let after = bump(ts, s);
        let next = kind(ts, after);
        if next == TokenKind::KwIf || next == TokenKind::LBrace {
            lemma_statement_progress(ts, after);
        }
    }
}

/// A block takes at least its opening brace.
pub proof fn lemma_block_progress(ts: Seq<Lexeme>, s: State)
    ensures
        follows(ts, s, block(ts, s).state),
        kind(ts, s) == TokenKind::LBrace ==> s.index < block(ts, s).state.index,
    decreases ts.len() - s.index, 0int,
{
    if kind(ts, s) == TokenKind::LBrace {
        let from = bump(ts, s);
        lemma_statements_progress(ts, from, Seq::empty());
    }
}

/// The state behind statements follows the state in front of them.
pub proof fn lemma_statements_progress(ts: Seq<Lexeme>, s: State, done: Seq<StmtView>)
    ensures
        follows(ts, s, statements(ts, s, done).state),
    decreases ts.len() - s.index, 3int,
{
    if !(kind(ts, s) == TokenKind::RBrace || kind(ts, s) == TokenKind::EOF) {
        lemma_statement_progress(ts, s);
        let stmt = statement(ts, s);
        if moved(ts, s, stmt.state) {
            lemma_statements_progress(ts, stmt.state, done.push(stmt.value));
        }
    }
}

/// Skipping to the next item moves forward, records nothing, and takes a
/// token that can start no item.
pub proof fn lemma_synchronize_progress(ts: Seq<Lexeme>, s: State)
    ensures
        follows(ts, s, synchronize(ts, s)),
        synchronize(ts, s).errors == s.errors,
        kind(ts, s) != TokenKind::KwFn && kind(ts, s) != TokenKind::KwStruct && kind(ts, s)
            != TokenKind::EOF ==> s.index < synchronize(ts, s).index,
    decreases ts.len() - s.index,
{
    let k = kind(ts, s);
    if !(k == TokenKind::KwFn || k == TokenKind::KwStruct || k == TokenKind::EOF) {
        lemma_synchronize_progress(ts, bump(ts, s));
    }
}

/// An item takes a token, unless the cursor stands at the end of input.
pub proof fn lemma_item_progress(ts: Seq<Lexeme>, s: State)
    ensures
        follows(ts, s, item(ts, s).state),
        kind(ts, s) != TokenKind::EOF ==> s.index < item(ts, s).state.index,
{
    let k = kind(ts, s);
    let behind = bump(ts, s);
    if k == TokenKind::KwFn {
        if kind(ts, behind) != TokenKind::Ident {
            let e = ErrorView::mismatch(
                Wanted::FunctionName,
                kind(ts, behind),
                span(ts, behind),
            );
            lemma_synchronize_progress(ts, record(behind, e));
        } else {
            let named = bump(ts, behind);
            let opened = expect(ts, named, TokenKind::LParen).state;
            lemma_follows(ts, s, behind, opened);
            lemma_fields_progress(ts, opened, TokenKind::RParen, Wanted::Parameter, Seq::empty());
            let parameters = fields(ts, opened, TokenKind::RParen, Wanted::Parameter, Seq::empty());
            let closed = expect(ts, parameters.state, TokenKind::RParen).state;
            if kind(ts, closed) != TokenKind::LBrace {
                let e = ErrorView::mismatch(
                    Wanted::FunctionBody,
                    kind(ts, closed),
                    span(ts, closed),
                );
                lemma_synchronize_progress(ts, record(closed, e));
            } else {
                lemma_block_progress(ts, closed);
            }
        }
    } else if k == TokenKind::KwStruct {
        lemma_type_progress(ts, behind);
        let name = type_(ts, behind);
        let opened = expect(ts, name.state, TokenKind::LBrace).state;
        lemma_fields_progress(ts, opened, TokenKind::RBrace, Wanted::Member, Seq::empty());
        let members = fields(ts, opened, TokenKind::RBrace, Wanted::Member, Seq::empty());
        lemma_follows(ts, s, opened, members.state);
    } else {
        let e = ErrorView::unknown_item(k, span(ts, s));
        lemma_synchronize_progress(ts, record(s, e));
    }
}

/// The state behind items follows the state in front of them.
pub proof fn lemma_items_progress(ts: Seq<Lexeme>, s: State, done: Seq<ItemView>)
    ensures
        follows(ts, s, items(ts, s, done).state),
    decreases ts.len() - s.index,
{
    if kind(ts, s) != TokenKind::EOF {
        lemma_item_progress(ts, s);
        let next = item(ts, s);
        if moved(ts, s, next.state) {
            lemma_items_progress(ts, next.state, done.push(next.value));
        }
    }
}

// The bound under which the functions of the model recurse always holds:
// each of them goes on as its text says.

/// An expression whose first operand is read goes on with the operators.
pub proof fn lemma_expression_unfolds(ts: Seq<Lexeme>, s: State, min: u8)
    requires
        s.index <= ts.len(),
        operand(ts, s).value is Ok,
    ensures
        expression(ts, s, min) == operators(
            ts,
            operand(ts, s).state,
            min,
            operand(ts, s).value->Ok_0,
        ),
{
    lemma_operand_progress(ts, s);
}

/// Behind an infix operator that binds tightly enough and its right
/// operand, the operators go on.
pub proof fn lemma_operators_unfold(ts: Seq<Lexeme>, s: State, min: u8, lhs: ExprView)
    requires
        s.index <= ts.len(),
        !ends_expression(kind(ts, s)),
        postfix_power(kind(ts, s)) is None,
        infix_power(kind(ts, s)) matches Some(powers) && powers.0 >= min && expression(
            ts,
            bump(ts, s),
            powers.1,
        ).value is Ok,
    ensures
        ({
            let op = kind(ts, s);
            let powers = infix_power(op)->0;
            let rhs = expression(ts, bump(ts, s), powers.1);
            operators(ts, s, min, lhs) == operators(
                ts,
                rhs.state,
                min,
                ExprView::InfixOp { op, lhs: Box::new(lhs), rhs: Box::new(rhs.value->Ok_0) },
            )
        }),
{
    let powers = infix_power(kind(ts, s))->0;
    lemma_expression_progress(ts, bump(ts, s), powers.1);
}

/// Behind an argument that is read, the arguments go on.
pub proof fn lemma_arguments_unfold(ts: Seq<Lexeme>, s: State, done: Seq<ExprView>)
    requires
        s.index <= ts.len(),
        kind(ts, s) != TokenKind::RParen,
        expression(ts, s, 0).value is Ok,
    ensures
        arguments(ts, s, done) == arguments(
            ts,
            skip_comma(ts, expression(ts, s, 0).state),
            done.push(expression(ts, s, 0).value->Ok_0),
        ),
{
    lemma_expression_progress(ts, s, 0);
}

/// Behind a generic argument, the generic arguments go on.
pub proof fn lemma_generics_unfold(ts: Seq<Lexeme>, s: State, done: Seq<TypeView>)
    requires
        kind(ts, s) != TokenKind::RAngle,
        kind(ts, s) != TokenKind::EOF,
    ensures
        generics(ts, s, done) == generics(
            ts,
            skip_comma(ts, type_(ts, s).state),
            done.push(type_(ts, s).value),
        ),
{
    lemma_type_progress(ts, s);
}

/// Behind a statement, the statements go on.
pub proof fn lemma_statements_unfold(ts: Seq<Lexeme>, s: State, done: Seq<StmtView>)
    requires
        kind(ts, s) != TokenKind::RBrace,
        kind(ts, s) != TokenKind::EOF,
    ensures
        statements(ts, s, done) == statements(
            ts,
            statement(ts, s).state,
            done.push(statement(ts, s).value),
        ),
{
    lemma_statement_progress(ts, s);
}

/// Behind an item, the items go on.
pub proof fn lemma_items_unfold(ts: Seq<Lexeme>, s: State, done: Seq<ItemView>)
    requires
        kind(ts, s) != TokenKind::EOF,
    ensures
        items(ts, s, done) == items(ts, item(ts, s).state, done.push(item(ts, s).value)),
{
    lemma_item_progress(ts, s);
}

} // verus!
