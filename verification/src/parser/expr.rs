//! Expressions, by precedence climbing.

use crate::ast::{exprs_view, lemma_call_view, Expr, ExprView, Lit};
use crate::error::{Error, ErrorView};
use crate::literal::parse_decimal;
use crate::model::{arguments, expression, operand, operators};
use crate::parser::Parser;
use crate::token::TokenKind;
use vstd::prelude::*;

verus! {

/// How tightly an operator binds what stands beside it.
pub trait Operator {
    spec fn prefix_power(&self) -> Option<u8>;

    spec fn infix_power(&self) -> Option<(u8, u8)>;

    spec fn postfix_power(&self) -> Option<u8>;

    /// Prefix operators bind their operand to the right.
    fn prefix_binding_power(&self) -> (power: ((), u8))
        requires
            self.prefix_power() is Some,
        ensures
            self.prefix_power() == Some(power.1),
    ;

    /// Infix operators bind two operands, lhs and rhs.
    fn infix_binding_power(&self) -> (power: Option<(u8, u8)>)
        ensures
            power == self.infix_power(),
    ;

    /// Postfix operators bind their operand to the left.
    fn postfix_binding_power(&self) -> (power: Option<(u8, ())>)
        ensures
            match power {
                Some((left, _)) => self.postfix_power() == Some(left),
                None => self.postfix_power() is None,
            },
    ;
}

impl Operator for TokenKind {
    open spec fn prefix_power(&self) -> Option<u8> {
        crate::model::prefix_power(*self)
    }

    open spec fn infix_power(&self) -> Option<(u8, u8)> {
        crate::model::infix_power(*self)
    }

    open spec fn postfix_power(&self) -> Option<u8> {
        crate::model::postfix_power(*self)
    }

    fn prefix_binding_power(&self) -> (power: ((), u8)) {
        ((), 51)
    }

    fn infix_binding_power(&self) -> (power: Option<(u8, u8)>) {
        let result: (u8, u8) = match self {
            TokenKind::Or => (1, 2),
            TokenKind::And => (3, 4),
            TokenKind::Eqq | TokenKind::Neq => (5, 6),
            TokenKind::LAngle | TokenKind::RAngle | TokenKind::Leq | TokenKind::Geq => (7, 8),
            TokenKind::Plus | TokenKind::Minus => (9, 10),
            TokenKind::Times | TokenKind::Slash => (11, 12),
            TokenKind::Caret => (22, 21),
            _ => {
                return None;
            },
        };
        Some(result)
    }

    fn postfix_binding_power(&self) -> (power: Option<(u8, ())>) {
        match self {
            TokenKind::Bang => Some((101, ())),
            _ => None,
        }
    }
}

/// The value of what the expression parser returns.
pub open spec fn outcome_view(outcome: Result<Expr, Error>) -> Result<ExprView, ErrorView> {
    match outcome {
        Ok(e) => Ok(e@),
        Err(error) => Err(error@),
    }
}

impl<'a> Parser<'a> {
    /// Parses a whole expression.
    #[inline]
    pub fn expression(&mut self) -> (outcome: Result<Expr, Error>)
        requires
            old(self).wf(),
        ensures
            final(self).continues(old(self)),
            final(self).state() == expression(old(self).stream(), old(self).state(), 0).state,
            outcome_view(outcome) == expression(old(self).stream(), old(self).state(), 0).value,
            old(self).state().index <= final(self).state().index,
            outcome is Ok ==> old(self).state().index < final(self).state().index,
    {
        self.parse_expression(0)
    }

    /// Parses an expression whose operators all bind at least as tightly
    /// as `binding_power`. An operator that binds less tightly stays
    /// behind the cursor. A token that can neither start an operand nor
    /// follow one is recorded, and returned as the error.
    pub fn parse_expression(&mut self, binding_power: u8) -> (outcome: Result<Expr, Error>)
        requires
            old(self).wf(),
        ensures
            final(self).continues(old(self)),
            final(self).state() == expression(
                old(self).stream(),
                old(self).state(),
                binding_power,
            ).state,
            outcome_view(outcome) == expression(
                old(self).stream(),
                old(self).state(),
                binding_power,
            ).value,
            old(self).state().index <= final(self).state().index,
            outcome is Ok ==> old(self).state().index < final(self).state().index,
        decreases old(self).remaining(), 2int,
    {
        let ghost ts = self.stream();
        let ghost begin = self.state();
        let mut lhs = match self.operand() {
            Ok(e) => e,
            Err(error) => {
                return Err(error);
            },
        };
        loop
            invariant
                self.continues(old(self)),
                ts == old(self).stream(),
                begin == old(self).state(),
                begin.index < self.state().index,
                operators(ts, self.state(), binding_power, lhs@) == expression(
                    ts,
                    begin,
                    binding_power,
                ),
            decreases self.remaining(),
        {
            proof {
                self.lemma_wf();
            }
            let op = self.peek();
            match op {
                TokenKind::EOF
                | TokenKind::RParen
                | TokenKind::RBrace
                | TokenKind::Comma
                | TokenKind::SemiColon => {
                    return Ok(lhs);
                },
                _ => {},
            }
            if let Some((left, _)) = op.postfix_binding_power() {
                if left < binding_power {
                    return Ok(lhs);
                }
                self.next();
                lhs = Expr::PostfixOp { op, operand: Box::new(lhs) };
                continue ;
            }
            if let Some((left, right)) = op.infix_binding_power() {
                if left < binding_power {
                    return Ok(lhs);
                }
                self.next();
                let rhs = match self.parse_expression(right) {
                    Ok(e) => e,
                    Err(error) => {
                        return Err(error);
                    },
                };
                proof {
                    self.lemma_wf();
                }
                lhs = Expr::InfixOp { op, lhs: Box::new(lhs), rhs: Box::new(rhs) };
                continue ;
            }
            let at = self.peek_span();
            let error = Error::unknown_operator(op, at);
            self.report(&error);
            return Err(error);
        }
    }

    /// Parses one operand: a literal, a name, a call, a group in
    /// parentheses, or a prefix operator with its operand.
    fn operand(&mut self) -> (outcome: Result<Expr, Error>)
        requires
            old(self).wf(),
        ensures
            final(self).continues(old(self)),
            final(self).state() == operand(old(self).stream(), old(self).state()).state,
            outcome_view(outcome) == operand(old(self).stream(), old(self).state()).value,
            old(self).state().index <= final(self).state().index,
            outcome is Ok ==> old(self).state().index < final(self).state().index,
        decreases old(self).remaining(), 1int,
    {
        proof {
            self.lemma_wf();
        }
        let found = self.peek();
        match found {
            TokenKind::Int => {
                self.next();
                let text = self.text();
                match parse_decimal(text.as_bytes()) {
                    Some(value) => Ok(Expr::Literal(Lit::Int(value))),
                    None => {
                        let error = Error::invalid_integer(text, self.span());
                        self.report(&error);
                        Err(error)
                    },
                }
            },
            TokenKind::Float => {
                self.next();
                Ok(Expr::Literal(Lit::Float(self.text().to_owned())))
            },
            TokenKind::String => {
                self.next();
                Ok(Expr::Literal(Lit::Str(self.unquoted().to_owned())))
            },
            TokenKind::Ident => {
                self.next();
                let name = self.text().to_owned();
                if !self.at(TokenKind::LParen) {
                    Ok(Expr::Ident(name))
                } else {
                    self.next();
                    match self.arguments() {
                        Ok(args) => {
                            let _ = self.consume(TokenKind::RParen);
                            proof {
                                lemma_call_view(name, args);
                            }
                            Ok(Expr::FnCall { name, args })
                        },
                        Err(error) => Err(error),
                    }
                }
            },
            TokenKind::LParen => {
                // A group leaves no node of its own.
                self.next();
                match self.parse_expression(0) {
                    Ok(e) => {
                        let _ = self.consume(TokenKind::RParen);
                        Ok(e)
                    },
                    Err(error) => Err(error),
                }
            },
            TokenKind::Plus | TokenKind::Minus | TokenKind::Bang => {
                self.next();
                let ((), right) = found.prefix_binding_power();
                match self.parse_expression(right) {
                    Ok(e) => Ok(Expr::PrefixOp { op: found, operand: Box::new(e) }),
                    Err(error) => Err(error),
                }
            },
            _ => {
                let at = self.peek_span();
                let error = Error::unknown_expression(found, at);
                self.report(&error);
                Err(error)
            },
        }
    }

    /// Parses the arguments of a call up to the closing parenthesis, which
    /// stays behind the cursor.
    fn arguments(&mut self) -> (outcome: Result<Vec<Expr>, Error>)
        requires
            old(self).wf(),
        ensures
            final(self).continues(old(self)),
            final(self).state() == arguments(
                old(self).stream(),
                old(self).state(),
                Seq::empty(),
            ).state,
            match outcome {
                Ok(args) => arguments(old(self).stream(), old(self).state(), Seq::empty()).value
                    == Ok::<Seq<ExprView>, ErrorView>(exprs_view(args@)),
                Err(error) => arguments(old(self).stream(), old(self).state(), Seq::empty()).value
                    == Err::<Seq<ExprView>, ErrorView>(error@),
            },
            old(self).state().index <= final(self).state().index,
        decreases old(self).remaining(), 3int,
    {
        let ghost ts = self.stream();
        let ghost begin = self.state();
        let mut args: Vec<Expr> = Vec::new();
        assert(exprs_view(args@) =~= Seq::empty());
        loop
            invariant
                self.continues(old(self)),
                ts == old(self).stream(),
                begin == old(self).state(),
                begin.index <= self.state().index,
                arguments(ts, self.state(), exprs_view(args@)) == arguments(
                    ts,
                    begin,
                    Seq::empty(),
                ),
            decreases self.remaining(),
        {
            proof {
                self.lemma_wf();
            }
            if self.at(TokenKind::RParen) {
                return Ok(args);
            }
            let ghost done = exprs_view(args@);
            match self.parse_expression(0) {
                Ok(e) => {
                    proof {
                        self.lemma_wf();
                    }
                    args.push(e);
                    assert(exprs_view(args@) =~= done.push(e@));
                    if self.at(TokenKind::Comma) {
                        self.next();
                    }
                },
                Err(error) => {
                    return Err(error);
                },
            }
        }
    }
}

} // verus!
