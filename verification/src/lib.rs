//! Front end of a small imperative language: a tokenizer and an
//! error-tolerant parser that combines recursive descent with precedence
//! climbing.
//!
//! Every executable function is verified against a mathematical model:
//! `scan` and `stream` say what the tokens of a text are, `model` says
//! which tree and which diagnostics the parser gives for a token stream,
//! and `canon` says how a tree is written. Over these stand the laws of
//! the front end, collected in `laws`: a text parses without a diagnostic
//! exactly when it is a program of the grammar in `grammar`, the written
//! form of a tree parses to the tree, diagnostics come in the order of the
//! text, and binding powers decide the shape of an expression.

pub mod accept;
pub mod ast;
pub mod canon;
pub mod error;
pub mod grammar;
pub mod laws;
pub mod lexer;
pub mod literal;
pub mod model;
pub mod order;
pub mod parser;
pub mod precedence;
pub mod printer;
pub mod progress;
pub mod rescan;
pub mod roundtrip;
pub mod scan;
pub mod shape;
pub mod stream;
pub mod strict;
pub mod token;
