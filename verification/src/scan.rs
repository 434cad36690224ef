//! The token grammar over bytes, and the scanner that is proved against it.

use crate::token::{Span, Token, TokenKind};
use vstd::prelude::*;

verus! {

/// The ASCII bytes that the grammar names.
pub const TAB: u8 = 9;
pub const LINE_FEED: u8 = 10;
pub const FORM_FEED: u8 = 12;
pub const CARRIAGE_RETURN: u8 = 13;
pub const BLANK: u8 = 32;
pub const BANG: u8 = 33;
pub const QUOTE: u8 = 34;
pub const AMPERSAND: u8 = 38;
pub const LPAREN: u8 = 40;
pub const RPAREN: u8 = 41;
pub const STAR: u8 = 42;
pub const PLUS: u8 = 43;
pub const COMMA: u8 = 44;
pub const MINUS: u8 = 45;
pub const DOT: u8 = 46;
pub const SLASH: u8 = 47;
pub const DIGIT_0: u8 = 48;
pub const DIGIT_9: u8 = 57;
pub const COLON: u8 = 58;
pub const SEMICOLON: u8 = 59;
pub const LESS: u8 = 60;
pub const EQUALS: u8 = 61;
pub const GREATER: u8 = 62;
pub const UPPER_A: u8 = 65;
pub const UPPER_E: u8 = 69;
pub const UPPER_Z: u8 = 90;
pub const LSQUARE: u8 = 91;
pub const BACKSLASH: u8 = 92;
pub const RSQUARE: u8 = 93;
pub const CARET: u8 = 94;
pub const UNDERSCORE: u8 = 95;
pub const LOWER_A: u8 = 97;
pub const LOWER_C: u8 = 99;
pub const LOWER_E: u8 = 101;
pub const LOWER_F: u8 = 102;
pub const LOWER_I: u8 = 105;
pub const LOWER_L: u8 = 108;
pub const LOWER_N: u8 = 110;
pub const LOWER_R: u8 = 114;
pub const LOWER_S: u8 = 115;
pub const LOWER_T: u8 = 116;
pub const LOWER_U: u8 = 117;
pub const LOWER_Z: u8 = 122;
pub const LBRACE: u8 = 123;
pub const PIPE: u8 = 124;
pub const RBRACE: u8 = 125;

/// Classes of bytes whose maximal runs make up tokens.
#[derive(Clone, Copy, Debug, PartialEq, Eq, Structural)]
pub enum ByteClass {
    /// `0` to `9`.
    Digit,
    /// Letters, digits and `_`.
    IdentContinue,
    /// Blank, tab, line feed, carriage return, form feed.
    Space,
    /// Every byte but the line feed.
    NotNewline,
    /// The second and later bytes of a multi-byte character.
    Continuation,
}

/// True for `0` to `9`.
pub open spec fn is_digit(b: u8) -> bool {
    DIGIT_0 <= b <= DIGIT_9
}

/// True for the letters `a` to `z` and `A` to `Z`.
pub open spec fn is_alpha(b: u8) -> bool {
    (LOWER_A <= b <= LOWER_Z) || (UPPER_A <= b <= UPPER_Z)
}

impl ByteClass {
    /// True when the byte belongs to the class.
    pub open spec fn holds(self, b: u8) -> bool {
        match self {
            ByteClass::Digit => is_digit(b),
            ByteClass::IdentContinue => is_alpha(b) || is_digit(b) || b == UNDERSCORE,
            ByteClass::Space => b == BLANK || b == TAB || b == LINE_FEED || b == CARRIAGE_RETURN
                || b == FORM_FEED,
            ByteClass::NotNewline => b != LINE_FEED,
            ByteClass::Continuation => 0x80 <= b <= 0xbf,
        }
    }

    /// Tells whether the byte belongs to the class.
    pub fn test(&self, b: u8) -> (r: bool)
        ensures
            r == self.holds(b),
    {
        match self {
            ByteClass::Digit => DIGIT_0 <= b && b <= DIGIT_9,
            ByteClass::IdentContinue => (LOWER_A <= b && b <= LOWER_Z) || (UPPER_A <= b && b
                <= UPPER_Z) || (DIGIT_0 <= b && b <= DIGIT_9) || b == UNDERSCORE,
            ByteClass::Space => b == BLANK || b == TAB || b == LINE_FEED || b == CARRIAGE_RETURN
                || b == FORM_FEED,
            ByteClass::NotNewline => b != LINE_FEED,
            ByteClass::Continuation => 0x80 <= b && b <= 0xbf,
        }
    }
}

/// The end of the longest run of bytes of `class` that starts at `pos`.
pub open spec fn run_end(src: Seq<u8>, pos: int, class: ByteClass) -> int
    decreases src.len() - pos,
{
    if 0 <= pos < src.len() && class.holds(src[pos]) {
        run_end(src, pos + 1, class)
    } else {
        pos
    }
}

/// A run ends inside the text, holds only bytes of its class, and stops
/// in front of a byte of another class or at the end of the text.
pub proof fn lemma_run_end(src: Seq<u8>, pos: int, class: ByteClass)
    requires
        0 <= pos <= src.len(),
    ensures
        pos <= run_end(src, pos, class) <= src.len(),
        forall|i: int| pos <= i < run_end(src, pos, class) ==> class.holds(#[trigger] src[i]),
        run_end(src, pos, class) < src.len() ==> !class.holds(src[run_end(src, pos, class)]),
    decreases src.len() - pos,
{
    if pos < src.len() && class.holds(src[pos]) {
        lemma_run_end(src, pos + 1, class);
    }
}

/// Finds the end of the longest run of bytes of `class` from `pos` on.
pub fn scan_run(src: &[u8], pos: usize, class: ByteClass) -> (end: usize)
    requires
        pos <= src.len(),
    ensures
        end == run_end(src@, pos as int, class),
        pos <= end <= src.len(),
{
    let mut i: usize = pos;
    while i < src.len() && class.test(src[i])
        invariant
            pos <= i <= src.len(),
            run_end(src@, i as int, class) == run_end(src@, pos as int, class),
        decreases src.len() - i,
    {
        i = i + 1;
    }
    i
}

/// True when the byte at offset `i` exists and is `b`.
pub open spec fn has(src: Seq<u8>, i: int, b: u8) -> bool {
    0 <= i < src.len() && src[i] == b
}

/// True when the byte at offset `i` exists and is a digit.
pub open spec fn has_digit(src: Seq<u8>, i: int) -> bool {
    0 <= i < src.len() && is_digit(src[i])
}

/// Where a number ends whose integer part ends at `d`, after an optional
/// fraction: a dot followed by at least one digit.
pub open spec fn fraction_end(src: Seq<u8>, d: int) -> int {
    if has(src, d, DOT) && has_digit(src, d + 1) {
        run_end(src, d + 1, ByteClass::Digit)
    } else {
        d
    }
}

/// Where a number ends whose mantissa ends at `f`, after an optional
/// exponent: `e` or `E`, an optional sign, and at least one digit.
pub open spec fn exponent_end(src: Seq<u8>, f: int) -> int {
    if has(src, f, LOWER_E) || has(src, f, UPPER_E) {
        let s = if has(src, f + 1, PLUS) || has(src, f + 1, MINUS) {
            f + 2
        } else {
            f + 1
        };
        if has_digit(src, s) {
            run_end(src, s, ByteClass::Digit)
        } else {
            f
        }
    } else {
        f
    }
}

/// The numeric literal at `pos`: an `Int` when it is nothing but digits,
/// a `Float` when a fraction or an exponent follows them.
pub open spec fn number_token(src: Seq<u8>, pos: int) -> (TokenKind, int) {
    let d = run_end(src, pos, ByteClass::Digit);
    let e = exponent_end(src, fraction_end(src, d));
    (
        if e == d {
            TokenKind::Int
        } else {
            TokenKind::Float
        },
        e,
    )
}

/// The kind of a word: one of the five keywords, or an identifier.
pub open spec fn word_kind(word: Seq<u8>) -> TokenKind {
    if word =~= seq![LOWER_L, LOWER_E, LOWER_T] {
        TokenKind::KwLet
    } else if word =~= seq![LOWER_I, LOWER_F] {
        TokenKind::KwIf
    } else if word =~= seq![LOWER_E, LOWER_L, LOWER_S, LOWER_E] {
        TokenKind::KwElse
    } else if word =~= seq![LOWER_F, LOWER_N] {
        TokenKind::KwFn
    } else if word =~= seq![LOWER_S, LOWER_T, LOWER_R, LOWER_U, LOWER_C, LOWER_T] {
        TokenKind::KwStruct
    } else {
        TokenKind::Ident
    }
}

/// Where the string literal ends whose body is read from `pos` on: just
/// behind the closing quote. In the body a backslash must be followed by a
/// quote or a backslash. `None` when the literal is not closed.
pub open spec fn string_end(src: Seq<u8>, pos: int) -> Option<int>
    decreases src.len() - pos,
{
    if !(0 <= pos < src.len()) {
        None
    } else if src[pos] == QUOTE {
        Some(pos + 1)
    } else if src[pos] == BACKSLASH {
        if has(src, pos + 1, QUOTE) || has(src, pos + 1, BACKSLASH) {
            string_end(src, pos + 2)
        } else {
            None
        }
    } else {
        string_end(src, pos + 1)
    }
}

/// Where the error token ends that starts at `pos`: behind the one
/// character that matched no rule, however many bytes encode it.
pub open spec fn error_end(src: Seq<u8>, pos: int) -> int {
    run_end(src, pos + 1, ByteClass::Continuation)
}

/// The kind of a token that is one byte long whatever follows it.
pub open spec fn single_kind(b: u8) -> Option<TokenKind> {
    if b == COLON {
        Some(TokenKind::Colon)
    } else if b == COMMA {
        Some(TokenKind::Comma)
    } else if b == SEMICOLON {
        Some(TokenKind::SemiColon)
    } else if b == CARET {
        Some(TokenKind::Caret)
    } else if b == UNDERSCORE {
        Some(TokenKind::Under)
    } else if b == PLUS {
        Some(TokenKind::Plus)
    } else if b == MINUS {
        Some(TokenKind::Minus)
    } else if b == STAR {
        Some(TokenKind::Times)
    } else if b == LPAREN {
        Some(TokenKind::LParen)
    } else if b == RPAREN {
        Some(TokenKind::RParen)
    } else if b == LSQUARE {
        Some(TokenKind::LSquare)
    } else if b == RSQUARE {
        Some(TokenKind::RSquare)
    } else if b == LBRACE {
        Some(TokenKind::LBrace)
    } else if b == RBRACE {
        Some(TokenKind::RBrace)
    } else {
        None
    }
}

/// The token that starts at `pos`, whitespace and comments included: its
/// kind and the offset where it ends. Each rule takes the longest match;
/// a run of digits is an `Int` although the float rule matches it too.
pub open spec fn raw_token(src: Seq<u8>, pos: int) -> (TokenKind, int)
    recommends
        0 <= pos < src.len(),
{
    let b = src[pos];
    if ByteClass::Space.holds(b) {
        (TokenKind::Whitespace, run_end(src, pos, ByteClass::Space))
    } else if is_alpha(b) {
        let end = run_end(src, pos, ByteClass::IdentContinue);
        (word_kind(src.subrange(pos, end)), end)
    } else if is_digit(b) {
        number_token(src, pos)
    } else if b == DOT {
        if has_digit(src, pos + 1) {
            number_token(src, pos)
        } else {
            (TokenKind::Dot, pos + 1)
        }
    } else if b == QUOTE {
        match string_end(src, pos + 1) {
            Some(end) => (TokenKind::String, end),
            None => (TokenKind::Error, error_end(src, pos)),
        }
    } else if b == SLASH {
        if has(src, pos + 1, SLASH) {
            (TokenKind::Comment, run_end(src, pos + 2, ByteClass::NotNewline))
        } else {
            (TokenKind::Slash, pos + 1)
        }
    } else if b == EQUALS {
        if has(src, pos + 1, EQUALS) {
            (TokenKind::Eqq, pos + 2)
        } else {
            (TokenKind::Eq, pos + 1)
        }
    } else if b == BANG {
        if has(src, pos + 1, EQUALS) {
            (TokenKind::Neq, pos + 2)
        } else {
            (TokenKind::Bang, pos + 1)
        }
    } else if b == LESS {
        if has(src, pos + 1, EQUALS) {
            (TokenKind::Leq, pos + 2)
        } else if has(src, pos + 1, GREATER) {
            (TokenKind::Neq, pos + 2)
        } else {
            (TokenKind::LAngle, pos + 1)
        }
    } else if b == GREATER {
        if has(src, pos + 1, EQUALS) {
            (TokenKind::Geq, pos + 2)
        } else {
            (TokenKind::RAngle, pos + 1)
        }
    } else if b == AMPERSAND {
        if has(src, pos + 1, AMPERSAND) {
            (TokenKind::And, pos + 2)
        } else {
            (TokenKind::Error, error_end(src, pos))
        }
    } else if b == PIPE {
        if has(src, pos + 1, PIPE) {
            (TokenKind::Or, pos + 2)
        } else {
            (TokenKind::Error, error_end(src, pos))
        }
    } else {
        match single_kind(b) {
            Some(kind) => (kind, pos + 1),
            None => (TokenKind::Error, error_end(src, pos)),
        }
    }
}

/// Every token is at least one byte long and ends inside the text.
pub proof fn lemma_raw_token_bounds(src: Seq<u8>, pos: int)
    requires
        0 <= pos < src.len(),
    ensures
        pos < raw_token(src, pos).1 <= src.len(),
        raw_token(src, pos).0 != TokenKind::EOF,
{
    lemma_run_end(src, pos, ByteClass::Space);
    lemma_run_end(src, pos, ByteClass::IdentContinue);
    lemma_number_bounds(src, pos);
    lemma_string_end(src, pos + 1);
    lemma_run_end(src, pos + 1, ByteClass::Continuation);
    if pos + 2 <= src.len() {
        lemma_run_end(src, pos + 2, ByteClass::NotNewline);
    }
}

/// A numeric literal ends inside the text, and is not empty where the
/// text has a digit at its start, or a dot and a digit.
pub proof fn lemma_number_bounds(src: Seq<u8>, pos: int)
    requires
        0 <= pos < src.len(),
    ensures
        pos <= number_token(src, pos).1 <= src.len(),
        is_digit(src[pos]) || (src[pos] == DOT && has_digit(src, pos + 1)) ==> pos < number_token(
            src,
            pos,
        ).1,
{
    let d = run_end(src, pos, ByteClass::Digit);
    lemma_run_end(src, pos, ByteClass::Digit);
    let f = fraction_end(src, d);
    if has(src, d, DOT) && has_digit(src, d + 1) {
        lemma_run_end(src, d + 1, ByteClass::Digit);
    }
    if has(src, f, LOWER_E) || has(src, f, UPPER_E) {
        let s = if has(src, f + 1, PLUS) || has(src, f + 1, MINUS) {
            f + 2
        } else {
            f + 1
        };
        if has_digit(src, s) {
            lemma_run_end(src, s, ByteClass::Digit);
        }
    }
}

/// A string literal that is closed ends inside the text, with a quote.
pub proof fn lemma_string_end(src: Seq<u8>, pos: int)
    requires
        0 <= pos,
    ensures
        string_end(src, pos) matches Some(end) ==> pos < end <= src.len() && src[end - 1] == QUOTE,
    decreases src.len() - pos,
{
    if pos < src.len() && src[pos] != QUOTE {
        if src[pos] == BACKSLASH {
            if has(src, pos + 1, QUOTE) || has(src, pos + 1, BACKSLASH) {
                lemma_string_end(src, pos + 2);
            }
        } else {
            lemma_string_end(src, pos + 1);
        }
    }
}

/// Reads the numeric literal at `pos`.
pub fn scan_number(src: &[u8], pos: usize) -> (r: (TokenKind, usize))
    requires
        pos < src.len(),
    ensures
        (r.0, r.1 as int) == number_token(src@, pos as int),
        pos <= r.1 <= src.len(),
{
    proof {
        lemma_number_bounds(src@, pos as int);
    }
    let d: usize = scan_run(src, pos, ByteClass::Digit);
    let mut f: usize = d;
    if d < src.len() && src[d] == DOT && d + 1 < src.len() && ByteClass::Digit.test(src[d + 1]) {
        f = scan_run(src, d + 1, ByteClass::Digit);
    }
    let mut e: usize = f;
    if f < src.len() && (src[f] == LOWER_E || src[f] == UPPER_E) {
        let signed: bool = f + 1 < src.len() && (src[f + 1] == PLUS || src[f + 1] == MINUS);
        if signed {
            if f + 2 < src.len() && ByteClass::Digit.test(src[f + 2]) {
                e = scan_run(src, f + 2, ByteClass::Digit);
            }
        } else if f + 1 < src.len() && ByteClass::Digit.test(src[f + 1]) {
            e = scan_run(src, f + 1, ByteClass::Digit);
        }
    }
    if e == d {
        (TokenKind::Int, e)
    } else {
        (TokenKind::Float, e)
    }
}

/// Tells a keyword from an identifier.
pub fn scan_word_kind(src: &[u8], start: usize, end: usize) -> (kind: TokenKind)
    requires
        start <= end <= src.len(),
    ensures
        kind == word_kind(src@.subrange(start as int, end as int)),
{
    let ghost word = src@.subrange(start as int, end as int);
    let n: usize = end - start;
    if n == 3 && src[start] == LOWER_L && src[start + 1] == LOWER_E && src[start + 2] == LOWER_T {
        TokenKind::KwLet
    } else if n == 2 && src[start] == LOWER_I && src[start + 1] == LOWER_F {
        TokenKind::KwIf
    } else if n == 4 && src[start] == LOWER_E && src[start + 1] == LOWER_L && src[start + 2]
        == LOWER_S && src[start + 3] == LOWER_E {
        TokenKind::KwElse
    } else if n == 2 && src[start] == LOWER_F && src[start + 1] == LOWER_N {
        TokenKind::KwFn
    } else if n == 6 && src[start] == LOWER_S && src[start + 1] == LOWER_T && src[start + 2]
        == LOWER_R && src[start + 3] == LOWER_U && src[start + 4] == LOWER_C && src[start + 5]
        == LOWER_T {
        TokenKind::KwStruct
    } else {
        proof {
            let l = seq![LOWER_L, LOWER_E, LOWER_T];
            let i = seq![LOWER_I, LOWER_F];
            let e = seq![LOWER_E, LOWER_L, LOWER_S, LOWER_E];
            let f = seq![LOWER_F, LOWER_N];
            let t = seq![LOWER_S, LOWER_T, LOWER_R, LOWER_U, LOWER_C, LOWER_T];
            if word =~= l {
                assert(word[0] == l[0] && word[1] == l[1] && word[2] == l[2]);
            }
            if word =~= i {
                assert(word[0] == i[0] && word[1] == i[1]);
            }
            if word =~= e {
                assert(word[0] == e[0] && word[1] == e[1] && word[2] == e[2] && word[3] == e[3]);
            }
            if word =~= f {
                assert(word[0] == f[0] && word[1] == f[1]);
            }
            if word =~= t {
                assert(word[0] == t[0] && word[1] == t[1] && word[2] == t[2] && word[3] == t[3]
                    && word[4] == t[4] && word[5] == t[5]);
            }
        }
        TokenKind::Ident
    }
}

/// Looks for the end of the string literal whose body is read from `pos` on.
pub fn scan_string(src: &[u8], pos: usize) -> (r: Option<usize>)
    requires
        pos <= src.len(),
    ensures
        match r {
            Some(end) => string_end(src@, pos as int) == Some(end as int),
            None => string_end(src@, pos as int) is None,
        },
{
    let mut i: usize = pos;
    loop
        invariant
            pos <= i <= src.len(),
            string_end(src@, i as int) == string_end(src@, pos as int),
        decreases src.len() - i,
    {
        if i >= src.len() {
            return None;
        }
        let b: u8 = src[i];
        if b == QUOTE {
            return Some(i + 1);
        } else if b == BACKSLASH {
            if i + 1 < src.len() && (src[i + 1] == QUOTE || src[i + 1] == BACKSLASH) {
                i = i + 2;
            } else {
                return None;
            }
        } else {
            i = i + 1;
        }
    }
}

/// Reads the token that starts at `pos`, whitespace and comments included.
pub fn scan_raw(src: &[u8], pos: usize) -> (r: (TokenKind, usize))
    requires
        pos < src.len(),
    ensures
        (r.0, r.1 as int) == raw_token(src@, pos as int),
        pos < r.1 <= src.len(),
{
    proof {
        lemma_raw_token_bounds(src@, pos as int);
    }
    let b: u8 = src[pos];
    let second: bool = pos + 1 < src.len();
    if ByteClass::Space.test(b) {
        (TokenKind::Whitespace, scan_run(src, pos, ByteClass::Space))
    } else if (LOWER_A <= b && b <= LOWER_Z) || (UPPER_A <= b && b <= UPPER_Z) {
        let end: usize = scan_run(src, pos, ByteClass::IdentContinue);
        (scan_word_kind(src, pos, end), end)
    } else if ByteClass::Digit.test(b) {
        scan_number(src, pos)
    } else if b == DOT {
        if second && ByteClass::Digit.test(src[pos + 1]) {
            scan_number(src, pos)
        } else {
            (TokenKind::Dot, pos + 1)
        }
    } else if b == QUOTE {
        match scan_string(src, pos + 1) {
            Some(end) => (TokenKind::String, end),
            None => (TokenKind::Error, scan_run(src, pos + 1, ByteClass::Continuation)),
        }
    } else if b == SLASH {
        if second && src[pos + 1] == SLASH {
            (TokenKind::Comment, scan_run(src, pos + 2, ByteClass::NotNewline))
        } else {
            (TokenKind::Slash, pos + 1)
        }
    } else if b == EQUALS {
        if second && src[pos + 1] == EQUALS {
            (TokenKind::Eqq, pos + 2)
        } else {
            (TokenKind::Eq, pos + 1)
        }
    } else if b == BANG {
        if second && src[pos + 1] == EQUALS {
            (TokenKind::Neq, pos + 2)
        } else {
            (TokenKind::Bang, pos + 1)
        }
    } else if b == LESS {
        if second && src[pos + 1] == EQUALS {
            (TokenKind::Leq, pos + 2)
        } else if second && src[pos + 1] == GREATER {
            (TokenKind::Neq, pos + 2)
        } else {
            (TokenKind::LAngle, pos + 1)
        }
    } else if b == GREATER {
        if second && src[pos + 1] == EQUALS {
            (TokenKind::Geq, pos + 2)
        } else {
            (TokenKind::RAngle, pos + 1)
        }
    } else if b == AMPERSAND {
        if second && src[pos + 1] == AMPERSAND {
            (TokenKind::And, pos + 2)
        } else {
            (TokenKind::Error, scan_run(src, pos + 1, ByteClass::Continuation))
        }
    } else if b == PIPE {
        if second && src[pos + 1] == PIPE {
            (TokenKind::Or, pos + 2)
        } else {
            (TokenKind::Error, scan_run(src, pos + 1, ByteClass::Continuation))
        }
    } else {
        match scan_single(b) {
            Some(kind) => (kind, pos + 1),
            None => (TokenKind::Error, scan_run(src, pos + 1, ByteClass::Continuation)),
        }
    }
}

/// The kind of a token that is one byte long whatever follows it.
pub fn scan_single(b: u8) -> (kind: Option<TokenKind>)
    ensures
        kind == single_kind(b),
{
    if b == COLON {
        Some(TokenKind::Colon)
    } else if b == COMMA {
        Some(TokenKind::Comma)
    } else if b == SEMICOLON {
        Some(TokenKind::SemiColon)
    } else if b == CARET {
        Some(TokenKind::Caret)
    } else if b == UNDERSCORE {
        Some(TokenKind::Under)
    } else if b == PLUS {
        Some(TokenKind::Plus)
    } else if b == MINUS {
        Some(TokenKind::Minus)
    } else if b == STAR {
        Some(TokenKind::Times)
    } else if b == LPAREN {
        Some(TokenKind::LParen)
    } else if b == RPAREN {
        Some(TokenKind::RParen)
    } else if b == LSQUARE {
        Some(TokenKind::LSquare)
    } else if b == RSQUARE {
        Some(TokenKind::RSquare)
    } else if b == LBRACE {
        Some(TokenKind::LBrace)
    } else if b == RBRACE {
        Some(TokenKind::RBrace)
    } else {
        None
    }
}

/// The end-of-input marker of a text: the empty span at its end.
pub open spec fn eof_token(src: Seq<u8>) -> Token {
    Token {
        kind: TokenKind::EOF,
        span: Span { start: src.len() as usize, end: src.len() as usize },
    }
}

/// The first token at or behind `pos` that is neither whitespace nor a
/// comment, or the end-of-input marker when there is none.
pub open spec fn next_token(src: Seq<u8>, pos: int) -> Token
    decreases src.len() - pos,
{
    if !(0 <= pos < src.len()) {
        eof_token(src)
    } else {
        let (kind, end) = raw_token(src, pos);
        if kind.is_trivia() && pos < end <= src.len() {
            next_token(src, end)
        } else {
            Token { kind, span: Span { start: pos as usize, end: end as usize } }
        }
    }
}

/// What holds of the token that the cursor finds from `pos`: it is never
/// trivia, it lies behind `pos` and inside the text, and only the
/// end-of-input marker is empty.
pub proof fn lemma_next_token(src: Seq<u8>, pos: int)
    requires
        0 <= pos <= src.len() <= usize::MAX,
    ensures
        ({
            let t = next_token(src, pos);
            &&& !t.kind.is_trivia()
            &&& pos <= t.span.start <= t.span.end <= src.len()
            &&& t.kind == TokenKind::EOF <==> t.span.start == t.span.end
            &&& t.kind == TokenKind::EOF ==> t == eof_token(src)
            &&& t.kind != TokenKind::EOF ==> (t.kind, t.span.end as int) == raw_token(
                src,
                t.span.start as int,
            )
        }),
    decreases src.len() - pos,
{
    if pos < src.len() {
        lemma_raw_token_bounds(src, pos);
        let (kind, end) = raw_token(src, pos);
        if kind.is_trivia() {
            lemma_next_token(src, end);
        }
    }
}

/// Skips whitespace and comments from `pos` on and reads the token behind them.
pub fn scan_token(src: &[u8], pos: usize) -> (t: Token)
    requires
        pos <= src.len(),
    ensures
        t == next_token(src@, pos as int),
{
    let mut i: usize = pos;
    loop
        invariant
            pos <= i <= src.len(),
            next_token(src@, i as int) == next_token(src@, pos as int),
        decreases src.len() - i,
    {
        if i >= src.len() {
            return Token { kind: TokenKind::EOF, span: Span { start: src.len(), end: src.len() } };
        }
        let (kind, end) = scan_raw(src, i);
        match kind {
            TokenKind::Whitespace | TokenKind::Comment => {
                i = end;
            },
            _ => {
                return Token { kind, span: Span { start: i, end } };
            },
        }
    }
}

} // verus!
