//! Laws of the token stream, proved from the grammar.
use crate::chars::{is_decimal_digit, is_white_space, not_decimal_digit, not_white_space};
use crate::grammar::{
    integer_token, lemma_skip_white_space_idempotent, nth_token, scan, skip_white_space,
    symbol_token, text_after,
};
use crate::runs::{lemma_first_stop_is_stop_index, lemma_stop_index_is_first, stop_index};
use crate::token_type::{LexError, TokenType};
use vstd::prelude::*;

verus! {

/// The end of input repeats: a step that yields `Eof` leaves a text on which
/// the next step yields `Eof` again and changes nothing.
pub proof fn lemma_end_of_input_repeats(s: Seq<char>)
    requires
        scan(s).0 == Ok::<TokenType, LexError>(TokenType::Eof),
    ensures
        scan(scan(s).1) == (
            Ok::<TokenType, LexError>(TokenType::Eof),
            scan(s).1,
        ),
{
    lemma_skip_white_space_idempotent(s);
}

/// The end of input is final: once a step on `s` has yielded `Eof`, every
/// later step yields `Eof` too.
pub proof fn lemma_end_of_input_is_final(s: Seq<char>, i: nat, j: nat)
    requires
        i <= j,
        nth_token(s, i) == Ok::<TokenType, LexError>(TokenType::Eof),
    ensures
        nth_token(s, j) == Ok::<TokenType, LexError>(TokenType::Eof),
    decreases j - i,
{
    if i < j {
        lemma_end_of_input_is_final(s, i, (j - 1) as nat);
        lemma_end_of_input_repeats(text_after(s, (j - 1) as nat));
    }
}

/// White space in front of a text changes neither its first token nor what
/// is left behind that token.
pub proof fn lemma_leading_white_space_is_ignored(space: Seq<char>, s: Seq<char>)
    requires
        forall|i: int| 0 <= i < space.len() ==> is_white_space(#[trigger] space[i]),
    ensures
        scan(space + s) == scan(s),
{
    let k = stop_index(s, not_white_space()) as int;
    lemma_stop_index_is_first(s, not_white_space());
    assert forall|i: int| 0 <= i < space.len() + k implies !not_white_space()(
        #[trigger] (space + s)[i],
    ) by {
        if i >= space.len() {
            assert((space + s)[i] == s[i - space.len()]);
        }
    }
    if k < s.len() {
        assert((space + s)[space.len() + k] == s[k]);
    }
    lemma_first_stop_is_stop_index(space + s, not_white_space(), space.len() + k);
    assert(skip_white_space(space + s) =~= skip_white_space(s));
}

/// A text of nothing but white space, the empty text among them, yields `Eof`
/// and leaves nothing.
pub proof fn lemma_blank_text_is_end_of_input(s: Seq<char>)
    requires
        forall|i: int| 0 <= i < s.len() ==> is_white_space(#[trigger] s[i]),
    ensures
        scan(s) == (Ok::<TokenType, LexError>(TokenType::Eof), Seq::<char>::empty()),
{
    assert forall|i: int| 0 <= i < s.len() implies !not_white_space()(#[trigger] s[i]) by {}
    lemma_first_stop_is_stop_index(s, not_white_space(), s.len() as int);
    assert(skip_white_space(s) =~= Seq::<char>::empty());
}

/// A run of digits is one token: where a text starts with the digits `run`
/// and goes on with `rest`, which starts with no digit, the first token is the
/// integer that `run` denotes, and `rest` is left as it is.
pub proof fn lemma_digit_run_is_one_token(run: Seq<char>, rest: Seq<char>)
    requires
        run.len() > 0,
        forall|i: int| 0 <= i < run.len() ==> is_decimal_digit(#[trigger] run[i]),
        !is_white_space(run[0]),
        rest.len() > 0 ==> !is_decimal_digit(rest[0]),
    ensures
        scan(run + rest) == (integer_token(run), rest),
{
    let s = run + rest;
    assert(s[0] == run[0]);
    assert(stop_index(s, not_white_space()) == 0);
    assert(skip_white_space(s) =~= s);
    assert forall|i: int| 0 <= i < run.len() implies !not_decimal_digit()(#[trigger] s[i]) by {
        assert(s[i] == run[i]);
    }
    if rest.len() > 0 {
        assert(s[run.len() as int] == rest[0]);
    }
    lemma_first_stop_is_stop_index(s, not_decimal_digit(), run.len() as int);
    assert(s.take(run.len() as int) =~= run);
    assert(s.skip(run.len() as int) =~= rest);
}

/// A symbol is one token: where a text starts with one of `+ - * / ( )`, the
/// first token is that symbol's, and what is left is the text behind the
/// symbol without its leading white space.
pub proof fn lemma_symbol_is_one_token(c: char, token: TokenType, rest: Seq<char>)
    requires
        symbol_token(c) == Some(token),
        !is_white_space(c),
    ensures
        scan(seq![c] + rest) == (Ok::<TokenType, LexError>(token), skip_white_space(rest)),
{
    let s = seq![c] + rest;
    assert(s[0] == c);
    assert(stop_index(s, not_white_space()) == 0);
    assert(skip_white_space(s) =~= s);
    assert(s.skip(1) =~= rest);
}

/// The cursor only moves forward: what a step leaves is a suffix of what it
/// started from, and a step that yields anything but `Eof` consumes at least
/// one character.
pub proof fn lemma_step_moves_forward(s: Seq<char>)
    ensures
        scan(s).1.len() <= s.len(),
        scan(s).1 == s.skip(s.len() - scan(s).1.len()),
        scan(s).0 != Ok::<TokenType, LexError>(TokenType::Eof) ==> scan(s).1.len()
            < s.len(),
{
    let t = skip_white_space(s);
    let a = stop_index(s, not_white_space()) as int;
    lemma_stop_index_is_first(s, not_white_space());
    assert(t.len() == s.len() - a);
    if t.len() > 0 {
        let n = stop_index(t, not_decimal_digit()) as int;
        lemma_stop_index_is_first(t, not_decimal_digit());
        assert(t.skip(n) =~= s.skip(a + n));
        let u = t.skip(1);
        let b = stop_index(u, not_white_space()) as int;
        lemma_stop_index_is_first(u, not_white_space());
        assert(skip_white_space(u) =~= s.skip(a + 1 + b));
    }
}

} // verus!
