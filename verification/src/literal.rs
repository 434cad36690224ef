//! The values of literals: what a run of digits counts to, and what a
//! string literal holds between its quotes.

use crate::scan::{is_digit, DIGIT_0, DIGIT_9};
use vstd::prelude::*;

verus! {

/// What a digit counts; 0 for every other byte.
pub open spec fn digit_value(b: u8) -> nat {
    if is_digit(b) {
        (b - DIGIT_0) as nat
    } else {
        0
    }
}

/// The number that a run of digits writes in base ten.
pub open spec fn decimal(digits: Seq<u8>) -> nat
    decreases digits.len(),
{
    if digits.len() == 0 {
        0
    } else {
        decimal(digits.drop_last()) * 10 + digit_value(digits.last())
    }
}

/// A string literal without its two quotes.
pub open spec fn string_body(literal: Seq<u8>) -> Seq<u8> {
    if literal.len() >= 2 {
        literal.subrange(1, literal.len() - 1)
    } else {
        Seq::empty()
    }
}

/// A run of digits counts at least what any of its beginnings counts.
pub proof fn lemma_decimal_prefix(digits: Seq<u8>, n: int)
    requires
        0 <= n <= digits.len(),
    ensures
        decimal(digits.subrange(0, n)) <= decimal(digits),
    decreases digits.len() - n,
{
    if n == digits.len() {
        assert(digits.subrange(0, n) =~= digits);
    } else {
        lemma_decimal_prefix(digits, n + 1);
        let longer = digits.subrange(0, n + 1);
        assert(longer.drop_last() =~= digits.subrange(0, n));
    }
}

/// Counts a run of digits; `None` where the number does not fit.
pub fn parse_decimal(digits: &[u8]) -> (value: Option<usize>)
    ensures
        match value {
            Some(v) => v == decimal(digits@),
            None => decimal(digits@) > usize::MAX,
        },
{
    let mut total: usize = 0;
    let mut i: usize = 0;
    while i < digits.len()
        invariant
            i <= digits.len(),
            total == decimal(digits@.subrange(0, i as int)),
        decreases digits.len() - i,
    {
        let b: u8 = digits[i];
        let d: usize = if DIGIT_0 <= b && b <= DIGIT_9 {
            (b - DIGIT_0) as usize
        } else {
            0
        };
        proof {
            let longer = digits@.subrange(0, i + 1);
            assert(longer.drop_last() =~= digits@.subrange(0, i as int));
            assert(longer.last() == b);
            assert(decimal(longer) == total * 10 + d);
            lemma_decimal_prefix(digits@, i + 1);
        }
        match total.checked_mul(10) {
            Some(tens) => match tens.checked_add(d) {
                Some(sum) => {
                    total = sum;
                },
                None => {
                    return None;
                },
            },
            None => {
                return None;
            },
        }
        i = i + 1;
    }
    proof {
        assert(digits@.subrange(0, i as int) =~= digits@);
    }
    Some(total)
}

} // verus!
