//! Classes of characters: white space and decimal digits.
use vstd::prelude::*;

verus! {

/// Whether `c` has the Unicode property `White_Space`, as
/// `char::is_whitespace` reports it.
pub uninterp spec fn is_white_space(c: char) -> bool;

/// `char::is_whitespace` of std decides the property `White_Space` of a
/// character. Its table is not restated here: the answer is known to proofs
/// only under the name [`is_white_space`], a function of the character alone.
pub assume_specification[ char::is_whitespace ](c: char) -> (b: bool)
    ensures
        b == is_white_space(c),
;

/// The ASCII digits `0` to `9`.
pub open spec fn is_decimal_digit(c: char) -> bool {
    '0' <= c <= '9'
}

/// The number that the digit `c` stands for.
pub open spec fn digit_value(c: char) -> nat
    recommends
        is_decimal_digit(c),
{
    (c as int - '0' as int) as nat
}

/// The predicate that ends a run of white space.
pub open spec fn not_white_space() -> spec_fn(char) -> bool {
    |c: char| !is_white_space(c)
}

/// The predicate that ends a run of digits.
pub open spec fn not_decimal_digit() -> spec_fn(char) -> bool {
    |c: char| !is_decimal_digit(c)
}

/// Whether `c` ends a run of white space.
pub fn is_not_white_space(c: char) -> (stop: bool)
    ensures
        stop == !is_white_space(c),
{
    !c.is_whitespace()
}

/// Whether `c` ends a run of decimal digits.
pub fn is_not_decimal_digit(c: char) -> (stop: bool)
    ensures
        stop == !is_decimal_digit(c),
{
    !('0' <= c && c <= '9')
}

} // verus!
