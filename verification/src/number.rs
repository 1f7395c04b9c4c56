//! Decimal numbers: the value of a string of digits, and its computation
//! within the range of `i64`.
use crate::chars::{digit_value, is_decimal_digit};
use vstd::prelude::*;

verus! {

/// The value of a string of digits in base ten; the empty string counts 0.
pub open spec fn decimal_value(digits: Seq<char>) -> nat
    decreases digits.len(),
{
    if digits.len() == 0 {
        0
    } else {
        10 * decimal_value(digits.drop_last()) + digit_value(digits.last())
    }
}

/// The value of a prefix of a string of digits never exceeds the value of
/// the whole string.
pub proof fn lemma_decimal_value_prefix(digits: Seq<char>, k: int)
    requires
        0 <= k <= digits.len(),
    ensures
        decimal_value(digits.take(k)) <= decimal_value(digits),
    decreases digits.len(),
{
    if k == digits.len() {
        assert(digits.take(k) =~= digits);
    } else {
        assert(digits.drop_last().take(k) =~= digits.take(k));
        lemma_decimal_value_prefix(digits.drop_last(), k);
    }
}

/// One more digit multiplies the value by ten and adds the digit.
pub proof fn lemma_decimal_value_step(digits: Seq<char>, k: int)
    requires
        0 <= k < digits.len(),
    ensures
        decimal_value(digits.take(k + 1)) == 10 * decimal_value(digits.take(k)) + digit_value(
            digits[k],
        ),
{
    assert(digits.take(k + 1).drop_last() =~= digits.take(k));
}

/// The number that a string of decimal digits denotes, or `None` if it is
/// above `i64::MAX`.
pub fn parse_decimal(digits: &Vec<char>) -> (value: Option<i64>)
    requires
        forall|i: int| 0 <= i < digits@.len() ==> is_decimal_digit(#[trigger] digits@[i]),
    ensures
        value is Some <==> decimal_value(digits@) <= i64::MAX,
        value matches Some(v) ==> v == decimal_value(digits@),
{
    let mut acc: i64 = 0;
    let mut i: usize = 0;
    while i < digits.len()
        invariant
            i <= digits@.len(),
            0 <= acc,
            acc == decimal_value(digits@.take(i as int)),
            forall|i: int| 0 <= i < digits@.len() ==> is_decimal_digit(#[trigger] digits@[i]),
        decreases digits@.len() - i,
    {
        let c: char = digits[i];
        let d: i64 = (c as u32 - '0' as u32) as i64;
        proof {
            lemma_decimal_value_step(digits@, i as int);
            lemma_decimal_value_prefix(digits@, i as int + 1);
            assert(d == digit_value(c));
        }
        let next = match acc.checked_mul(10) {
            Some(tens) => tens.checked_add(d),
            None => None,
        };
        match next {
            Some(sum) => {
                acc = sum;
            },
            None => {
                return None;
            },
        }
        i += 1;
    }
    assert(digits@.take(i as int) =~= digits@);
    Some(acc)
}

} // verus!
