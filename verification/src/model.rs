//! What the parser computes, as mathematical functions on a token stream.
//!
//! A function of this file takes the stream, the state of the parse (how
//! many tokens are consumed, which diagnostics are recorded) and gives the
//! tree together with the state behind it. The executable parser is proved
//! to compute exactly these functions.

use crate::ast::{ExprView, ItemView, LitView, StmtView, TypeView};
use crate::error::{ErrorView, Wanted};
use crate::literal::{decimal, string_body};
use crate::stream::{advance, peek_kind, peek_span, Lexeme};
use crate::token::{Span, TokenKind};
use vstd::prelude::*;
use vstd::utf8::decode_utf8;

verus! {

/// The state of a parse: the index of the token behind the cursor, and
/// the diagnostics recorded so far, oldest first.
pub struct State {
    pub index: nat,
    pub errors: Seq<ErrorView>,
}

/// A result of the parser together with the state behind it.
pub struct Parsed<T> {
    pub value: T,
    pub state: State,
}

/// The state before anything is consumed.
pub open spec fn start() -> State {
    State { index: 0, errors: Seq::empty() }
}

/// The kind of the token behind the cursor.
pub open spec fn kind(ts: Seq<Lexeme>, s: State) -> TokenKind {
    peek_kind(ts, s.index)
}

/// The span of the token behind the cursor.
pub open spec fn span(ts: Seq<Lexeme>, s: State) -> Span {
    peek_span(ts, s.index)
}

/// The bytes of the token behind the cursor.
pub open spec fn text(ts: Seq<Lexeme>, s: State) -> Seq<u8> {
    if s.index < ts.len() {
        ts[s.index as int].text
    } else if ts.len() > 0 {
        ts.last().text
    } else {
        Seq::empty()
    }
}

/// The state after the token behind the cursor is consumed.
pub open spec fn bump(ts: Seq<Lexeme>, s: State) -> State {
    State { index: advance(ts, s.index), errors: s.errors }
}

/// The state after a diagnostic is recorded.
pub open spec fn record(s: State, error: ErrorView) -> State {
    State { index: s.index, errors: s.errors.push(error) }
}

/// True when the cursor has moved forward between two states and stands
/// inside the stream or right behind it. The functions of this file
/// recurse only where it has, which is what makes them well founded; the
/// lemmas of `progress` show that it always has where they ask.
pub open spec fn moved(ts: Seq<Lexeme>, before: State, after: State) -> bool {
    before.index < after.index <= ts.len()
}

/// Consuming one token that should be of kind `expected`: where it is of
/// another kind the diagnostic is recorded, and returned.
pub open spec fn expect(ts: Seq<Lexeme>, s: State, expected: TokenKind) -> Parsed<
    Option<ErrorView>,
> {
    let found = kind(ts, s);
    if found == expected {
        Parsed { value: None, state: bump(ts, s) }
    } else {
        let error = ErrorView::unexpected_token(expected, found, span(ts, s));
        Parsed { value: Some(error), state: record(bump(ts, s), error) }
    }
}

/// The state behind an optional comma.
pub open spec fn skip_comma(ts: Seq<Lexeme>, s: State) -> State {
    if kind(ts, s) == TokenKind::Comma {
        bump(ts, s)
    } else {
        s
    }
}

// Binding powers: higher binds tighter; an infix operator associates to
// the left where its left power is the smaller one, to the right where
// it is the greater one.

/// The right binding power of a prefix operator.
pub open spec fn prefix_power(op: TokenKind) -> Option<u8> {
    match op {
        TokenKind::Plus | TokenKind::Minus | TokenKind::Bang => Some(51u8),
        _ => None,
    }
}

/// The left and the right binding power of an infix operator.
pub open spec fn infix_power(op: TokenKind) -> Option<(u8, u8)> {
    match op {
        TokenKind::Or => Some((1u8, 2u8)),
        TokenKind::And => Some((3u8, 4u8)),
        TokenKind::Eqq | TokenKind::Neq => Some((5u8, 6u8)),
        TokenKind::LAngle | TokenKind::RAngle | TokenKind::Leq | TokenKind::Geq => Some(
            (7u8, 8u8),
        ),
        TokenKind::Plus | TokenKind::Minus => Some((9u8, 10u8)),
        TokenKind::Times | TokenKind::Slash => Some((11u8, 12u8)),
        TokenKind::Caret => Some((22u8, 21u8)),
        _ => None,
    }
}

/// The left binding power of a postfix operator.
pub open spec fn postfix_power(op: TokenKind) -> Option<u8> {
    match op {
        TokenKind::Bang => Some(101u8),
        _ => None,
    }
}

/// The tokens behind which an expression ends.
pub open spec fn ends_expression(k: TokenKind) -> bool {
    k == TokenKind::EOF || k == TokenKind::RParen || k == TokenKind::RBrace || k
        == TokenKind::Comma || k == TokenKind::SemiColon
}

// Expressions

/// What the expression parser gives: a tree, or the diagnostic of the
/// token that it could not take.
pub type ExprResult = Parsed<Result<ExprView, ErrorView>>;

/// One operand: a literal, a name, a call, a group in parentheses, or a
/// prefix operator with its operand.
pub open spec fn operand(ts: Seq<Lexeme>, s: State) -> ExprResult
    decreases ts.len() - s.index, 1int,
{
    let k = kind(ts, s);
    let behind = bump(ts, s);
    if k == TokenKind::Int {
        let value = decimal(text(ts, s));
        if value <= usize::MAX {
            Parsed { value: Ok(ExprView::Literal(LitView::Int(value))), state: behind }
        } else {
            let error = ErrorView::invalid_integer(decode_utf8(text(ts, s)), span(ts, s));
            Parsed { value: Err(error), state: record(behind, error) }
        }
    } else if k == TokenKind::Float {
        Parsed {
            value: Ok(ExprView::Literal(LitView::Float(decode_utf8(text(ts, s))))),
            state: behind,
        }
    } else if k == TokenKind::String {
        Parsed {
            value: Ok(ExprView::Literal(LitView::Str(decode_utf8(string_body(text(ts, s)))))),
            state: behind,
        }
    } else if k == TokenKind::Ident {
        let name = decode_utf8(text(ts, s));
        if kind(ts, behind) != TokenKind::LParen {
            Parsed { value: Ok(ExprView::Ident(name)), state: behind }
        } else {
            let list = arguments(ts, bump(ts, behind), Seq::empty());
            match list.value {
                Ok(args) => Parsed {
                    value: Ok(ExprView::FnCall { name, args }),
                    state: expect(ts, list.state, TokenKind::RParen).state,
                },
                Err(error) => Parsed { value: Err(error), state: list.state },
            }
        }
    } else if k == TokenKind::LParen {
        let inner = expression(ts, behind, 0);
        match inner.value {
            Ok(e) => Parsed {
                value: Ok(e),
                state: expect(ts, inner.state, TokenKind::RParen).state,
            },
            Err(_) => inner,
        }
    } else if let Some(right) = prefix_power(k) {
        let inner = expression(ts, behind, right);
        match inner.value {
            Ok(e) => Parsed {
                value: Ok(ExprView::PrefixOp { op: k, operand: Box::new(e) }),
                state: inner.state,
            },
            Err(_) => inner,
        }
    } else {
        let error = ErrorView::unknown_expression(k, span(ts, s));
        Parsed { value: Err(error), state: record(s, error) }
    }
}

/// The arguments of a call from the cursor up to the closing parenthesis,
/// each followed by an optional comma, behind those in `done`.
pub open spec fn arguments(ts: Seq<Lexeme>, s: State, done: Seq<ExprView>) -> Parsed<
    Result<Seq<ExprView>, ErrorView>,
>
    decreases ts.len() - s.index, 3int,
{
    if kind(ts, s) == TokenKind::RParen {
        Parsed { value: Ok(done), state: s }
    } else {
        let arg = expression(ts, s, 0);
        match arg.value {
            Ok(e) => if moved(ts, s, arg.state) {
                arguments(ts, skip_comma(ts, arg.state), done.push(e))
            } else {
                Parsed { value: Ok(done.push(e)), state: arg.state }
            },
            Err(error) => Parsed { value: Err(error), state: arg.state },
        }
    }
}

/// An expression whose operators all bind at least as tightly as `min`.
pub open spec fn expression(ts: Seq<Lexeme>, s: State, min: u8) -> ExprResult
    decreases ts.len() - s.index, 2int,
{
    let first = operand(ts, s);
    match first.value {
        Ok(e) => if moved(ts, s, first.state) {
            operators(ts, first.state, min, e)
        } else {
            first
        },
        Err(_) => first,
    }
}

/// The operators that follow the operand `lhs`: a postfix operator wraps
/// what stands to its left, an infix operator takes the expression to its
/// right that binds at least as tightly as its right power; an operator
/// whose left power is under `min` is left to the caller.
pub open spec fn operators(ts: Seq<Lexeme>, s: State, min: u8, lhs: ExprView) -> ExprResult
    decreases ts.len() - s.index, 0int,
{
    let op = kind(ts, s);
    if ends_expression(op) {
        Parsed { value: Ok(lhs), state: s }
    } else if let Some(left) = postfix_power(op) {
        if left < min {
            Parsed { value: Ok(lhs), state: s }
        } else {
            operators(ts, bump(ts, s), min, ExprView::PostfixOp { op, operand: Box::new(lhs) })
        }
    } else if let Some((left, right)) = infix_power(op) {
        if left < min {
            Parsed { value: Ok(lhs), state: s }
        } else {
            let rhs = expression(ts, bump(ts, s), right);
            match rhs.value {
                Ok(e) => if moved(ts, s, rhs.state) {
                    operators(
                        ts,
                        rhs.state,
                        min,
                        ExprView::InfixOp { op, lhs: Box::new(lhs), rhs: Box::new(e) },
                    )
                } else {
                    rhs
                },
                Err(_) => rhs,
            }
        }
    } else {
        let error = ErrorView::unknown_operator(op, span(ts, s));
        Parsed { value: Err(error), state: record(s, error) }
    }
}

// Types

/// A type: its name, and between angle brackets its arguments. A token
/// that is no identifier is recorded and its text taken as the name.
pub open spec fn type_(ts: Seq<Lexeme>, s: State) -> Parsed<TypeView>
    decreases ts.len() - s.index, 0int,
{
    let k = kind(ts, s);
    let name = decode_utf8(text(ts, s));
    let behind = if k == TokenKind::Ident {
        bump(ts, s)
    } else {
        record(bump(ts, s), ErrorView::mismatch(Wanted::TypeName, k, span(ts, s)))
    };
    if kind(ts, behind) == TokenKind::LAngle {
        let list = generics(ts, bump(ts, behind), Seq::empty());
        Parsed {
            value: TypeView { name, generics: list.value },
            state: expect(ts, list.state, TokenKind::RAngle).state,
        }
    } else {
        Parsed { value: TypeView { name, generics: Seq::empty() }, state: behind }
    }
}

/// The generic arguments from the cursor up to the closing angle bracket
/// or the end of input, each followed by an optional comma.
pub open spec fn generics(ts: Seq<Lexeme>, s: State, done: Seq<TypeView>) -> Parsed<Seq<TypeView>>
    decreases ts.len() - s.index, 1int,
{
    if kind(ts, s) == TokenKind::RAngle || kind(ts, s) == TokenKind::EOF {
        Parsed { value: done, state: s }
    } else {
        let arg = type_(ts, s);
        if moved(ts, s, arg.state) {
            generics(ts, skip_comma(ts, arg.state), done.push(arg.value))
        } else {
            Parsed { value: done.push(arg.value), state: arg.state }
        }
    }
}

// Statements

/// The statement that a failed expression leaves, or the one that `make`
/// builds from the value once the closing semicolon is consumed; a missing
/// semicolon is recorded and does not stop the statement.
pub open spec fn finish_binding(
    ts: Seq<Lexeme>,
    value: ExprResult,
    make: spec_fn(ExprView) -> StmtView,
) -> Parsed<StmtView> {
    match value.value {
        Ok(e) => Parsed {
            value: make(e),
            state: expect(ts, value.state, TokenKind::SemiColon).state,
        },
        Err(error) => Parsed { value: StmtView::Error(error), state: value.state },
    }
}

/// A `let` statement, whose keyword stands behind the cursor. A token
/// that is no identifier is recorded and its text taken as the name.
pub open spec fn binding(ts: Seq<Lexeme>, s: State) -> Parsed<StmtView> {
    let behind = bump(ts, s);
    let found = kind(ts, behind);
    let var_name = decode_utf8(text(ts, behind));
    let named = if found == TokenKind::Ident {
        bump(ts, behind)
    } else {
        record(bump(ts, behind), ErrorView::mismatch(Wanted::LetName, found, span(ts, behind)))
    };
    let value = expression(ts, expect(ts, named, TokenKind::Eq).state, 0);
    finish_binding(ts, value, |e: ExprView| StmtView::Let { var_name, value: e })
}

/// An assignment, whose target stands behind the cursor.
pub open spec fn assignment(ts: Seq<Lexeme>, s: State) -> Parsed<StmtView> {
    let var_name = decode_utf8(text(ts, s));
    let value = expression(ts, expect(ts, bump(ts, s), TokenKind::Eq).state, 0);
    finish_binding(ts, value, |e: ExprView| StmtView::Assignment { var_name, value: e })
}

/// An `if` statement, whose keyword stands behind the cursor: the
/// condition in parentheses, a block, and what `otherwise` finds.
pub open spec fn conditional(ts: Seq<Lexeme>, s: State) -> Parsed<StmtView>
    decreases ts.len() - s.index, 1int,
{
    let condition = expression(ts, expect(ts, bump(ts, s), TokenKind::LParen).state, 0);
    match condition.value {
        Ok(c) => {
            let closed = expect(ts, condition.state, TokenKind::RParen).state;
            if kind(ts, closed) != TokenKind::LBrace || !moved(ts, s, closed) {
                let error = ErrorView::mismatch(Wanted::IfBody, kind(ts, closed), span(ts, closed));
                Parsed { value: StmtView::Error(error), state: record(closed, error) }
            } else {
                let body = block(ts, closed);
                if moved(ts, s, body.state) {
                    let branch = otherwise(ts, body.state);
                    Parsed {
                        value: StmtView::IfStmt {
                            condition: c,
                            body: body.value,
                            else_branch: branch.value,
                        },
                        state: branch.state,
                    }
                } else {
                    Parsed {
                        value: StmtView::IfStmt {
                            condition: c,
                            body: body.value,
                            else_branch: None,
                        },
                        state: body.state,
                    }
                }
            }
        },
        Err(error) => Parsed { value: StmtView::Error(error), state: condition.state },
    }
}

/// What follows the block of an `if`: nothing, or `else` and then either
/// another `if` or a block. Anything else behind `else` is recorded and
/// stands in the tree as an error statement.
pub open spec fn otherwise(ts: Seq<Lexeme>, s: State) -> Parsed<Option<Box<StmtView>>>
    decreases ts.len() - s.index, 0int,
{
    if kind(ts, s) != TokenKind::KwElse {
        Parsed { value: None, state: s }
    } else {
        let after = bump(ts, s);
        let next = kind(ts, after);
        if next == TokenKind::KwIf || next == TokenKind::LBrace {
            let branch = statement(ts, after);
            Parsed { value: Some(Box::new(branch.value)), state: branch.state }
        } else {
            let error = ErrorView::mismatch(Wanted::ElseBody, next, span(ts, after));
            Parsed { value: Some(Box::new(StmtView::Error(error))), state: record(after, error) }
        }
    }
}

/// One statement, told by its first token: `let`, an assignment, `if` or
/// a block. Any other token is recorded and consumed, unless it is the end
/// of input, and leaves an error statement.
pub open spec fn statement(ts: Seq<Lexeme>, s: State) -> Parsed<StmtView>
    decreases ts.len() - s.index, 2int,
{
    let k = kind(ts, s);
    if k == TokenKind::KwLet {
        binding(ts, s)
    } else if k == TokenKind::Ident {
        assignment(ts, s)
    } else if k == TokenKind::KwIf {
        conditional(ts, s)
    } else if k == TokenKind::LBrace {
        let body = block(ts, s);
        Parsed { value: StmtView::Block { stmts: body.value }, state: body.state }
    } else {
        let error = ErrorView::unknown_statement(k, span(ts, s));
        Parsed { value: StmtView::Error(error), state: record(behind_unless_end(ts, s), error) }
    }
}

/// The state behind the token at the cursor, which the end-of-input
/// marker does not leave.
pub open spec fn behind_unless_end(ts: Seq<Lexeme>, s: State) -> State {
    if kind(ts, s) == TokenKind::EOF {
        s
    } else {
        bump(ts, s)
    }
}

/// A block whose opening brace stands behind the cursor: the statements
/// up to the closing brace, which is consumed.
pub open spec fn block(ts: Seq<Lexeme>, s: State) -> Parsed<Seq<StmtView>>
    decreases ts.len() - s.index, 0int,
{
    if kind(ts, s) == TokenKind::LBrace {
        let body = statements(ts, bump(ts, s), Seq::empty());
        Parsed { value: body.value, state: expect(ts, body.state, TokenKind::RBrace).state }
    } else {
        Parsed { value: Seq::empty(), state: s }
    }
}

/// The statements from the cursor up to a closing brace or the end of
/// input, behind those in `done`.
pub open spec fn statements(ts: Seq<Lexeme>, s: State, done: Seq<StmtView>) -> Parsed<
    Seq<StmtView>,
>
    decreases ts.len() - s.index, 3int,
{
    if kind(ts, s) == TokenKind::RBrace || kind(ts, s) == TokenKind::EOF {
        Parsed { value: done, state: s }
    } else {
        let stmt = statement(ts, s);
        if moved(ts, s, stmt.state) {
            statements(ts, stmt.state, done.push(stmt.value))
        } else {
            Parsed { value: done.push(stmt.value), state: stmt.state }
        }
    }
}

// Items

/// The fields of a struct or the parameters of a function from the cursor
/// up to the token `close` or the end of input, behind those in `done`:
/// a name, a colon, a type and an optional comma each. A name that is no
/// identifier is recorded and its text taken.
pub open spec fn fields(
    ts: Seq<Lexeme>,
    s: State,
    close: TokenKind,
    wanted: Wanted,
    done: Seq<(Seq<char>, TypeView)>,
) -> Parsed<Seq<(Seq<char>, TypeView)>>
    decreases ts.len() - s.index,
{
    let k = kind(ts, s);
    if k == close || k == TokenKind::EOF {
        Parsed { value: done, state: s }
    } else {
        let name = decode_utf8(text(ts, s));
        let named = if k == TokenKind::Ident {
            bump(ts, s)
        } else {
            record(bump(ts, s), ErrorView::mismatch(wanted, k, span(ts, s)))
        };
        let ty = type_(ts, expect(ts, named, TokenKind::Colon).state);
        if moved(ts, s, ty.state) {
            fields(ts, skip_comma(ts, ty.state), close, wanted, done.push((name, ty.value)))
        } else {
            Parsed { value: done.push((name, ty.value)), state: ty.state }
        }
    }
}

/// The state at the next token that can start an item, or at the end of
/// input: where the parser goes on behind an item that it gave up.
pub open spec fn synchronize(ts: Seq<Lexeme>, s: State) -> State
    decreases ts.len() - s.index,
{
    let k = kind(ts, s);
    if k == TokenKind::KwFn || k == TokenKind::KwStruct || k == TokenKind::EOF {
        s
    } else {
        synchronize(ts, bump(ts, s))
    }
}

/// The item that is given up with `error`.
pub open spec fn abandon(ts: Seq<Lexeme>, s: State, error: ErrorView) -> Parsed<ItemView> {
    Parsed { value: ItemView::Error(error), state: synchronize(ts, record(s, error)) }
}

/// One item, told by its first token: a function or a struct. A function
/// without a name or a body, and any other token, is recorded and given
/// up.
pub open spec fn item(ts: Seq<Lexeme>, s: State) -> Parsed<ItemView> {
    let k = kind(ts, s);
    let behind = bump(ts, s);
    if k == TokenKind::KwFn {
        if kind(ts, behind) != TokenKind::Ident {
            abandon(
                ts,
                behind,
                ErrorView::mismatch(Wanted::FunctionName, kind(ts, behind), span(ts, behind)),
            )
        } else {
            let name = decode_utf8(text(ts, behind));
            let opened = expect(ts, bump(ts, behind), TokenKind::LParen).state;
            let parameters = fields(
                ts,
                opened,
                TokenKind::RParen,
                Wanted::Parameter,
                Seq::empty(),
            );
            let closed = expect(ts, parameters.state, TokenKind::RParen).state;
            if kind(ts, closed) != TokenKind::LBrace {
                abandon(
                    ts,
                    closed,
                    ErrorView::mismatch(Wanted::FunctionBody, kind(ts, closed), span(ts, closed)),
                )
            } else {
                let body = block(ts, closed);
                Parsed {
                    value: ItemView::Function {
                        name,
                        parameters: parameters.value,
                        body: body.value,
                    },
                    state: body.state,
                }
            }
        }
    } else if k == TokenKind::KwStruct {
        let name = type_(ts, behind);
        let opened = expect(ts, name.state, TokenKind::LBrace).state;
        let members = fields(ts, opened, TokenKind::RBrace, Wanted::Member, Seq::empty());
        Parsed {
            value: ItemView::Struct { name: name.value, members: members.value },
            state: expect(ts, members.state, TokenKind::RBrace).state,
        }
    } else {
        abandon(ts, s, ErrorView::unknown_item(k, span(ts, s)))
    }
}

/// The items from the cursor up to the end of input, behind those in `done`.
pub open spec fn items(ts: Seq<Lexeme>, s: State, done: Seq<ItemView>) -> Parsed<Seq<ItemView>>
    decreases ts.len() - s.index,
{
    if kind(ts, s) == TokenKind::EOF {
        Parsed { value: done, state: s }
    } else {
        let next = item(ts, s);
        if moved(ts, s, next.state) {
            items(ts, next.state, done.push(next.value))
        } else {
            Parsed { value: done.push(next.value), state: next.state }
        }
    }
}

/// The items of a whole token stream, and the diagnostics of the parse.
pub open spec fn file(ts: Seq<Lexeme>) -> Parsed<Seq<ItemView>> {
    items(ts, start(), Seq::empty())
}

} // verus!
