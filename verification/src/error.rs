//! Diagnostics: what went wrong, under which code, and where.

use crate::token::{Span, TokenKind};
use vstd::prelude::*;
use vstd::string::StringExecFns;

verus! {

/// One recorded problem of a parse.
#[derive(Debug, PartialEq, Eq)]
pub struct Error {
    pub message: String,
    pub code: String,
    pub span: Span,
}

/// The mathematical value of an [`Error`].
pub struct ErrorView {
    pub message: Seq<char>,
    pub code: Seq<char>,
    pub span: Span,
}

impl View for Error {
    type V = ErrorView;

    open spec fn view(&self) -> ErrorView {
        ErrorView { message: self.message@, code: self.code@, span: self.span }
    }
}

impl Clone for Error {
    fn clone(&self) -> (copy: Self)
        ensures
            copy@ == self@,
    {
        Error { message: self.message.clone(), code: self.code.clone(), span: self.span }
    }
}

impl Error {
    /// A diagnostic with the given message, code and span.
    pub fn new(msg: String, code: String, span: Span) -> (error: Self)
        ensures
            error@ == (ErrorView { message: msg@, code: code@, span }),
    {
        Error { message: msg, code, span }
    }
}

/// What the parser wanted where it found a token of another kind.
#[derive(Clone, Copy, Debug, PartialEq, Eq, Structural)]
pub enum Wanted {
    LetName,
    TypeName,
    FunctionName,
    Parameter,
    Member,
    FunctionBody,
    IfBody,
    ElseBody,
}

impl Wanted {
    /// How the message starts: up to the backtick that opens the quotation
    /// of the kind found.
    pub open spec fn lead(self) -> Seq<char> {
        match self {
            Wanted::LetName => "Expected identifier after `let`, but found `"@,
            Wanted::TypeName => "Expected identifier as start of type, but found `"@,
            Wanted::FunctionName => "Expected identifier as function name, but found `"@,
            Wanted::Parameter => "Expected identifier as function parameter, but found `"@,
            Wanted::Member => "Expected identifier as struct member, but found `"@,
            Wanted::FunctionBody => "Expected a block after function header, but found `"@,
            Wanted::IfBody => "Expected a block after `if` statement, but found `"@,
            Wanted::ElseBody => "Expected a block or an `if` after `else` statement, but found `"@,
        }
    }

    /// How the message starts.
    pub fn lead_str(&self) -> (text: &'static str)
        ensures
            text@ == self.lead(),
    {
        match self {
            Wanted::LetName => "Expected identifier after `let`, but found `",
            Wanted::TypeName => "Expected identifier as start of type, but found `",
            Wanted::FunctionName => "Expected identifier as function name, but found `",
            Wanted::Parameter => "Expected identifier as function parameter, but found `",
            Wanted::Member => "Expected identifier as struct member, but found `",
            Wanted::FunctionBody => "Expected a block after function header, but found `",
            Wanted::IfBody => "Expected a block after `if` statement, but found `",
            Wanted::ElseBody => "Expected a block or an `if` after `else` statement, but found `",
        }
    }
}

impl ErrorView {
    /// A token of another kind than the one that had to be consumed.
    pub open spec fn unexpected_token(
        expected: TokenKind,
        found: TokenKind,
        at: Span,
    ) -> ErrorView {
        ErrorView {
            message: "Expected to consume "@ + expected.display() + " but got "@ + found.display(),
            code: "E001"@,
            span: at,
        }
    }

    /// A token of another kind than a construct wants at this place.
    pub open spec fn mismatch(wanted: Wanted, found: TokenKind, at: Span) -> ErrorView {
        ErrorView { message: wanted.lead() + found.display() + "`"@, code: "E001"@, span: at }
    }

    /// A token that starts no statement.
    pub open spec fn unknown_statement(found: TokenKind, at: Span) -> ErrorView {
        ErrorView {
            message: "Unknown start of statement "@ + found.display(),
            code: "E002"@,
            span: at,
        }
    }

    /// A token that starts no item.
    pub open spec fn unknown_item(found: TokenKind, at: Span) -> ErrorView {
        ErrorView {
            message: "Unknown start of item: `"@ + found.display() + "`"@,
            code: "E003"@,
            span: at,
        }
    }

    /// A token that starts no expression.
    pub open spec fn unknown_expression(found: TokenKind, at: Span) -> ErrorView {
        ErrorView {
            message: "Unknown start of expression: `"@ + found.display() + "`"@,
            code: "E004"@,
            span: at,
        }
    }

    /// A token behind an operand that is no operator and does not end the
    /// expression.
    pub open spec fn unknown_operator(found: TokenKind, at: Span) -> ErrorView {
        ErrorView {
            message: "Unknown operator: `"@ + found.display() + "`"@,
            code: "E005"@,
            span: at,
        }
    }

    /// An integer literal, given by its text, that no `usize` holds.
    pub open spec fn invalid_integer(literal: Seq<char>, at: Span) -> ErrorView {
        ErrorView {
            message: "Invalid integer literal: `"@ + literal + "`"@,
            code: "E006"@,
            span: at,
        }
    }
}

/// The three texts in a row.
pub fn join(first: &str, second: &str, third: &str) -> (text: String)
    ensures
        text@ == first@ + second@ + third@,
{
    let mut text = first.to_owned();
    text.append(second);
    text.append(third);
    text
}

impl Error {
    /// A token of another kind than the one that had to be consumed.
    pub fn unexpected_token(expected: TokenKind, found: TokenKind, at: Span) -> (error: Self)
        ensures
            error@ == ErrorView::unexpected_token(expected, found, at),
    {
        let mut message = join("Expected to consume ", expected.as_str(), " but got ");
        message.append(found.as_str());
        Error { message, code: "E001".to_owned(), span: at }
    }

    /// A token of another kind than a construct wants at this place.
    pub fn mismatch(wanted: Wanted, found: TokenKind, at: Span) -> (error: Self)
        ensures
            error@ == ErrorView::mismatch(wanted, found, at),
    {
        Error {
            message: join(wanted.lead_str(), found.as_str(), "`"),
            code: "E001".to_owned(),
            span: at,
        }
    }

    /// A token that starts no statement.
    pub fn unknown_statement(found: TokenKind, at: Span) -> (error: Self)
        ensures
            error@ == ErrorView::unknown_statement(found, at),
    {
        let message = join("Unknown start of statement ", found.as_str(), "");
        proof {
            reveal_strlit("");
            assert("Unknown start of statement "@ + found.display() + ""@
                =~= "Unknown start of statement "@ + found.display());
        }
        Error { message, code: "E002".to_owned(), span: at }
    }

    /// A token that starts no item.
    pub fn unknown_item(found: TokenKind, at: Span) -> (error: Self)
        ensures
            error@ == ErrorView::unknown_item(found, at),
    {
        Error {
            message: join("Unknown start of item: `", found.as_str(), "`"),
            code: "E003".to_owned(),
            span: at,
        }
    }

    /// A token that starts no expression.
    pub fn unknown_expression(found: TokenKind, at: Span) -> (error: Self)
        ensures
            error@ == ErrorView::unknown_expression(found, at),
    {
        Error {
            message: join("Unknown start of expression: `", found.as_str(), "`"),
            code: "E004".to_owned(),
            span: at,
        }
    }

    /// A token behind an operand that is no operator and does not end the
    /// expression.
    pub fn unknown_operator(found: TokenKind, at: Span) -> (error: Self)
        ensures
            error@ == ErrorView::unknown_operator(found, at),
    {
        Error {
            message: join("Unknown operator: `", found.as_str(), "`"),
            code: "E005".to_owned(),
            span: at,
        }
    }

    /// An integer literal, given by its text, that no `usize` holds.
    pub fn invalid_integer(literal: &str, at: Span) -> (error: Self)
        ensures
            error@ == ErrorView::invalid_integer(literal@, at),
    {
        Error {
            message: join("Invalid integer literal: `", literal, "`"),
            code: "E006".to_owned(),
            span: at,
        }
    }
}

} // verus!
