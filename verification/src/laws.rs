//! What holds of every text and of every tree, stated over the functions
//! that the contracts of the parser and of the printer speak of.
//!
//! `file(lexemes(src))` is what `Parser::parse_with_errors` returns for a
//! text with the bytes `src`, and `canonical_text(items)` is what `print`
//! writes for a tree with the value `items`.

use crate::accept::{clean_items, lemma_program_parses_clean};
use crate::ast::ItemView;
use crate::canon::{canonical_text, items_pieces, valid_items};
use crate::error::ErrorView;
use crate::grammar::is_program;
use crate::model::{abandon, bump, file, kind, record, synchronize, Parsed, State};
use crate::order::{in_order, lemma_diagnostics_in_order};
use crate::roundtrip::lemma_round_trip;
use crate::shape::lemma_stream_shaped;
use crate::stream::{lemma_lexemes_ordered, lexemes, Lexeme};
use crate::strict::lemma_clean_parse_is_program;
use crate::token::TokenKind;
use vstd::prelude::*;
use vstd::utf8::valid_utf8;

verus! {

/// A program of the grammar parses without a diagnostic, to a tree that
/// holds no error node.
pub proof fn valid_programs_parse_clean(src: Seq<u8>)
    requires
        is_program(lexemes(src)),
    ensures
        file(lexemes(src)).state.errors == Seq::<ErrorView>::empty(),
        clean_items(file(lexemes(src)).value),
{
    lemma_program_parses_clean(lexemes(src));
}

/// Only a program of the grammar parses without a diagnostic.
pub proof fn clean_parses_are_valid_programs(src: Seq<u8>)
    requires
        file(lexemes(src)).state.errors == Seq::<ErrorView>::empty(),
    ensures
        is_program(lexemes(src)),
{
    lemma_clean_parse_is_program(lexemes(src));
}

/// The canonical text of a valid tree parses to that tree, without a
/// diagnostic.
pub proof fn canonical_text_parses_to_its_tree(items: Seq<ItemView>)
    requires
        valid_items(items),
        canonical_text(items).len() <= usize::MAX,
    ensures
        file(lexemes(canonical_text(items))) == (Parsed {
            value: items,
            state: State { index: items_pieces(items).len(), errors: Seq::empty() },
        }),
{
    lemma_round_trip(items);
}

/// The canonical text of a valid tree is a program of the grammar.
pub proof fn canonical_text_is_a_valid_program(items: Seq<ItemView>)
    requires
        valid_items(items),
        canonical_text(items).len() <= usize::MAX,
    ensures
        is_program(lexemes(canonical_text(items))),
{
    lemma_round_trip(items);
    lemma_clean_parse_is_program(lexemes(canonical_text(items)));
}

/// The tree of a program of the grammar is a valid tree: it has a
/// canonical text.
pub proof fn valid_programs_have_valid_trees(src: Seq<u8>)
    requires
        valid_utf8(src),
        src.len() <= usize::MAX,
        is_program(lexemes(src)),
    ensures
        valid_items(file(lexemes(src)).value),
{
    lemma_stream_shaped(src);
    lemma_program_parses_clean(lexemes(src));
}

/// Parsing a program of the grammar, printing the tree and parsing what
/// was printed gives the same tree again, without a diagnostic.
pub proof fn reparsing_gives_the_same_tree(src: Seq<u8>)
    requires
        valid_utf8(src),
        src.len() <= usize::MAX,
        is_program(lexemes(src)),
        canonical_text(file(lexemes(src)).value).len() <= usize::MAX,
    ensures
        file(lexemes(canonical_text(file(lexemes(src)).value))).value == file(lexemes(src)).value,
        file(lexemes(canonical_text(file(lexemes(src)).value))).state.errors == Seq::<
            ErrorView,
        >::empty(),
{
    valid_programs_have_valid_trees(src);
    lemma_round_trip(file(lexemes(src)).value);
}

/// The diagnostics of a parse stand in the order of the text: each
/// starts at or behind the one recorded before it.
pub proof fn diagnostics_are_in_source_order(src: Seq<u8>)
    requires
        src.len() <= usize::MAX,
    ensures
        in_order(file(lexemes(src)).state.errors),
{
    lemma_lexemes_ordered(src, 0);
    lemma_diagnostics_in_order(lexemes(src));
}

/// Behind an item that the parser gave up, parsing goes on at a token
/// that starts an item, or at the end of input.
pub proof fn recovery_stops_at_an_item(ts: Seq<Lexeme>, s: State, error: ErrorView)
    ensures
        ({
            let k = kind(ts, abandon(ts, s, error).state);
            k == TokenKind::KwFn || k == TokenKind::KwStruct || k == TokenKind::EOF
        }),
        abandon(ts, s, error).state.errors == s.errors.push(error),
{
    lemma_synchronize_stops(ts, record(s, error));
}

/// Skipping to the next item stops at a token that starts an item, or
/// at the end of input, and records nothing.
pub proof fn lemma_synchronize_stops(ts: Seq<Lexeme>, s: State)
    ensures
        ({
            let k = kind(ts, synchronize(ts, s));
            k == TokenKind::KwFn || k == TokenKind::KwStruct || k == TokenKind::EOF
        }),
        synchronize(ts, s).errors == s.errors,
    decreases ts.len() - s.index,
{
    let k = kind(ts, s);
    if !(k == TokenKind::KwFn || k == TokenKind::KwStruct || k == TokenKind::EOF) {
        lemma_synchronize_stops(ts, bump(ts, s));
    }
}

} // verus!
