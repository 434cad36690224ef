//! Lexical categories, source spans and tokens.

use vstd::prelude::*;

verus! {

/// The closed set of lexical categories.
#[derive(Clone, Copy, Debug, PartialEq, Eq, Hash, Structural)]
pub enum TokenKind {
    // Punctuation
    Dot,
    Colon,
    Comma,
    SemiColon,
    Caret,
    Eq,
    Under,
    // Arithmetic, logical and relational operators
    Plus,
    Minus,
    Times,
    Slash,
    Bang,
    And,
    Or,
    Eqq,
    Neq,
    Leq,
    Geq,
    // Brackets
    LAngle,
    RAngle,
    LParen,
    RParen,
    LSquare,
    RSquare,
    LBrace,
    RBrace,
    // Literals and names
    String,
    Int,
    Float,
    Ident,
    // Keywords
    KwLet,
    KwIf,
    KwElse,
    KwFn,
    KwStruct,
    // Skipped by the cursor, never handed to the parser
    Whitespace,
    Comment,
    // Input that matches no rule
    Error,
    // Synthetic end-of-input marker
    EOF,
}

impl TokenKind {
    /// The text that stands for this kind in diagnostics.
    pub open spec fn display(self) -> Seq<char> {
        match self {
            TokenKind::Dot => "."@,
            TokenKind::Colon => ":"@,
            TokenKind::Comma => ","@,
            TokenKind::SemiColon => ";"@,
            TokenKind::Caret => "^"@,
            TokenKind::Eq => "="@,
            TokenKind::Under => "_"@,
            TokenKind::Plus => "+"@,
            TokenKind::Minus => "-"@,
            TokenKind::Times => "*"@,
            TokenKind::Slash => "/"@,
            TokenKind::Bang => "!"@,
            TokenKind::And => "&&"@,
            TokenKind::Or => "||"@,
            TokenKind::Eqq => "=="@,
            TokenKind::Neq => "!="@,
            TokenKind::Leq => "<="@,
            TokenKind::Geq => ">="@,
            TokenKind::LAngle => "<"@,
            TokenKind::RAngle => ">"@,
            TokenKind::LParen => "("@,
            TokenKind::RParen => ")"@,
            TokenKind::LSquare => "["@,
            TokenKind::RSquare => "]"@,
            TokenKind::LBrace => "{"@,
            TokenKind::RBrace => "}"@,
            TokenKind::String => "a string literal"@,
            TokenKind::Int => "an integer literal"@,
            TokenKind::Float => "a float literal"@,
            TokenKind::Ident => "an identifier"@,
            TokenKind::KwLet => "let"@,
            TokenKind::KwIf => "if"@,
            TokenKind::KwElse => "else"@,
            TokenKind::KwFn => "fn"@,
            TokenKind::KwStruct => "struct"@,
            TokenKind::Whitespace => "<WS>"@,
            TokenKind::Comment => "<comment>"@,
            TokenKind::Error => "<?>"@,
            TokenKind::EOF => "<EOF>"@,
        }
    }

    /// True for the two kinds that the cursor skips.
    pub open spec fn is_trivia(self) -> bool {
        self == TokenKind::Whitespace || self == TokenKind::Comment
    }

    /// The text that stands for this kind in diagnostics.
    pub fn as_str(&self) -> (text: &'static str)
        ensures
            text@ == self.display(),
    {
        match self {
            TokenKind::Dot => ".",
            TokenKind::Colon => ":",
            TokenKind::Comma => ",",
            TokenKind::SemiColon => ";",
            TokenKind::Caret => "^",
            TokenKind::Eq => "=",
            TokenKind::Under => "_",
            TokenKind::Plus => "+",
            TokenKind::Minus => "-",
            TokenKind::Times => "*",
            TokenKind::Slash => "/",
            TokenKind::Bang => "!",
            TokenKind::And => "&&",
            TokenKind::Or => "||",
            TokenKind::Eqq => "==",
            TokenKind::Neq => "!=",
            TokenKind::Leq => "<=",
            TokenKind::Geq => ">=",
            TokenKind::LAngle => "<",
            TokenKind::RAngle => ">",
            TokenKind::LParen => "(",
            TokenKind::RParen => ")",
            TokenKind::LSquare => "[",
            TokenKind::RSquare => "]",
            TokenKind::LBrace => "{",
            TokenKind::RBrace => "}",
            TokenKind::String => "a string literal",
            TokenKind::Int => "an integer literal",
            TokenKind::Float => "a float literal",
            TokenKind::Ident => "an identifier",
            TokenKind::KwLet => "let",
            TokenKind::KwIf => "if",
            TokenKind::KwElse => "else",
            TokenKind::KwFn => "fn",
            TokenKind::KwStruct => "struct",
            TokenKind::Whitespace => "<WS>",
            TokenKind::Comment => "<comment>",
            TokenKind::Error => "<?>",
            TokenKind::EOF => "<EOF>",
        }
    }
}

/// A half-open range of byte offsets into the source text.
#[derive(Clone, Copy, Debug, PartialEq, Eq, Hash, Structural)]
pub struct Span {
    pub start: usize,
    pub end: usize,
}

/// One lexical unit: its category and where it stands in the source.
#[derive(Clone, Copy, Debug, PartialEq, Eq, Hash, Structural)]
pub struct Token {
    pub kind: TokenKind,
    pub span: Span,
}

} // verus!
