//! The grammar of the token stream, as mathematics over `Seq<char>`: what
//! the first token of a text is, and what text is left behind it.
use crate::chars::{is_decimal_digit, not_decimal_digit, not_white_space};
use crate::number::decimal_value;
use crate::runs::{lemma_stop_index_is_first, stop_index};
use crate::token_type::{LexError, TokenType};
use vstd::prelude::*;

verus! {

/// `s` without its leading white space.
pub open spec fn skip_white_space(s: Seq<char>) -> Seq<char> {
    s.skip(stop_index(s, not_white_space()) as int)
}

/// The number of digits that `s` starts with.
pub open spec fn leading_digits(s: Seq<char>) -> nat {
    stop_index(s, not_decimal_digit())
}

/// The token that a single character spells, if it spells one.
pub open spec fn symbol_token(c: char) -> Option<TokenType> {
    if c == '+' {
        Some(TokenType::Plus)
    } else if c == '-' {
        Some(TokenType::Minus)
    } else if c == '*' {
        Some(TokenType::Asterisk)
    } else if c == '/' {
        Some(TokenType::Slash)
    } else if c == '(' {
        Some(TokenType::LParen)
    } else if c == ')' {
        Some(TokenType::RParen)
    } else {
        None
    }
}

/// What a run of digits yields: its value, or an error if the value does not
/// fit in an `i64`.
pub open spec fn integer_token(digits: Seq<char>) -> Result<TokenType, LexError> {
    if decimal_value(digits) <= i64::MAX {
        Ok(TokenType::Integer(decimal_value(digits) as i64))
    } else {
        Err(LexError::NumericOverflow)
    }
}

/// One step of tokenizing the text `s`: the outcome, and the text that is
/// left for the next step.
///
/// Leading white space is dropped first. Then:
/// - no character left: `Eof`, and nothing remains;
/// - a digit: the whole run of digits is one integer (or an overflow), and
///   the text resumes right behind the run;
/// - one of `+ - * / ( )`: that token, and the text resumes at the first
///   character behind it that is no white space;
/// - any other character: `Eof`, and the text stays where it is, so that
///   such a character ends the stream for good.
pub open spec fn scan(s: Seq<char>) -> (Result<TokenType, LexError>, Seq<char>) {
    let t = skip_white_space(s);
    if t.len() == 0 {
        (Ok(TokenType::Eof), t)
    } else if is_decimal_digit(t[0]) {
        let n = leading_digits(t) as int;
        (integer_token(t.take(n)), t.skip(n))
    } else {
        match symbol_token(t[0]) {
            Some(token) => (Ok(token), skip_white_space(t.skip(1))),
            None => (Ok(TokenType::Eof), t),
        }
    }
}

/// The text that is left after `n` steps on `s`.
pub open spec fn text_after(s: Seq<char>, n: nat) -> Seq<char>
    decreases n,
{
    if n == 0 {
        s
    } else {
        scan(text_after(s, (n - 1) as nat)).1
    }
}

/// The outcome of step number `n` on `s`, counting from 0.
pub open spec fn nth_token(s: Seq<char>, n: nat) -> Result<TokenType, LexError> {
    scan(text_after(s, n)).0
}

/// Skipping white space twice is skipping it once.
pub proof fn lemma_skip_white_space_idempotent(s: Seq<char>)
    ensures
        skip_white_space(skip_white_space(s)) == skip_white_space(s),
{
    let t = skip_white_space(s);
    lemma_stop_index_is_first(s, not_white_space());
    if t.len() > 0 {
        assert(t[0] == s[stop_index(s, not_white_space()) as int]);
    }
    assert(stop_index(t, not_white_space()) == 0);
    assert(t.skip(0) =~= t);
}

} // verus!
