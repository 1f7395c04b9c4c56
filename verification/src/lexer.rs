//! The executable tokenizer.
use crate::chars::{
    is_decimal_digit, is_not_decimal_digit, is_not_white_space, not_decimal_digit,
    not_white_space,
};
use crate::grammar::{integer_token, leading_digits, scan};
use crate::laws::{lemma_end_of_input_repeats, lemma_step_moves_forward};
use crate::number::parse_decimal;
use crate::runs::{accepts_front, lemma_filter_stops_at_stop_index, refuses_all, total};
use crate::token_type::{LexError, TokenType};
use vstd::prelude::*;
use vstd::std_specs::iter::IteratorSpec;

verus! {

/// A cursor over a text that hands out its tokens one by one.
///
/// The view of a lexer is the text that it has not consumed yet; its first
/// character, if there is one, is the lookahead.
pub struct Lexer {
    source: Vec<char>,
    pos: usize,
}

impl View for Lexer {
    type V = Seq<char>;

    closed spec fn view(&self) -> Seq<char> {
        self.source@.skip(self.pos as int)
    }
}

/// The first character of `s`, if it has one.
pub open spec fn front(s: Seq<char>) -> Option<char> {
    if s.len() > 0 {
        Some(s[0])
    } else {
        None
    }
}

/// `s` without its first character; the empty text stays empty.
pub open spec fn advance(s: Seq<char>) -> Seq<char> {
    if s.len() > 0 {
        s.skip(1)
    } else {
        s
    }
}

/// The characters of `source`, in order.
fn collect_chars(source: &str) -> (chars: Vec<char>)
    ensures
        chars@ == source@,
{
    broadcast use vstd::string::group_string_axioms;

    let mut iter = source.chars();
    let mut chars: Vec<char> = Vec::new();
    loop
        invariant
            chars@ + iter.remaining() == source@,
            iter.decrease() is Some,
        decreases iter.decrease()->0,
    {
        match iter.next() {
            Some(c) => {
                chars.push(c);
                assert(chars@ + iter.remaining() =~= source@);
            },
            None => {
                assert(chars@ =~= source@);
                return chars;
            },
        }
    }
}

impl Lexer {
    #[verifier::type_invariant]
    spec fn within_source(self) -> bool {
        self.pos <= self.source@.len()
    }

    /// A lexer at the start of `source`.
    pub fn new(source: &str) -> (lexer: Self)
        ensures
            lexer@ == source@,
    {
        let lexer = Lexer { source: collect_chars(source), pos: 0 };
        assert(lexer@ =~= source@);
        lexer
    }

    /// Produces the next token and moves behind it, as [`scan`] says.
    ///
    /// - White space before the token is skipped.
    /// - A run of digits is one `Integer`. If its value is above `i64::MAX`
    ///   the result is `NumericOverflow`; the run is consumed all the same.
    /// - After one of `+ - * / ( )` the white space behind it is consumed too.
    /// - At the end of the text the result is `Eof`. A character that starts
    ///   no token gives `Eof` as well and is not consumed, so from the first
    ///   `Eof` on every call returns `Eof` and leaves the lexer as it is.
    pub fn next_token(&mut self) -> (result: Result<TokenType, LexError>)
        ensures
            result == scan(old(self)@).0,
            final(self)@ == scan(old(self)@).1,
            result == Ok::<TokenType, LexError>(TokenType::Eof) ==> scan(final(self)@) == (
                result,
                final(self)@,
            ),
            final(self)@.len() <= old(self)@.len(),
            result != Ok::<TokenType, LexError>(TokenType::Eof) ==> final(self)@.len() < old(
                self,
            )@.len(),
    {
        proof {
            if scan(self@).0 == Ok::<TokenType, LexError>(TokenType::Eof) {
                lemma_end_of_input_repeats(self@);
            }
            lemma_step_moves_forward(self@);
        }
        self.advance_ch_until(is_not_white_space);
        proof {
            lemma_filter_stops_at_stop_index(
                is_not_white_space,
                not_white_space(),
                old(self)@,
                self@,
            );
        }
        let ghost token_start = self@;
        let token = match self.ch() {
            Some(c) => {
                if '0' <= c && c <= '9' {
                    return self.read_integer();
                } else if c == '+' {
                    TokenType::Plus
                } else if c == '-' {
                    TokenType::Minus
                } else if c == '*' {
                    TokenType::Asterisk
                } else if c == '/' {
                    TokenType::Slash
                } else if c == '(' {
                    TokenType::LParen
                } else if c == ')' {
                    TokenType::RParen
                } else {
                    return Ok(TokenType::Eof);
                }
            },
            None => {
                return Ok(TokenType::Eof);
            },
        };
        self.advance_next_char_until(is_not_white_space);
        proof {
            lemma_filter_stops_at_stop_index(
                is_not_white_space,
                not_white_space(),
                token_start.skip(1),
                self@,
            );
        }
        Ok(token)
    }

    /// The lookahead: the character under the cursor.
    pub fn ch(&self) -> (c: Option<char>)
        ensures
            c == front(self@),
    {
        proof {
            use_type_invariant(self);
        }
        if self.pos < self.source.len() {
            Some(self.source[self.pos])
        } else {
            None
        }
    }

    /// Moves the cursor one character on, unless it is at the end.
    pub fn advance_char(&mut self)
        ensures
            final(self)@ == advance(old(self)@),
    {
        proof {
            use_type_invariant(&*self);
        }
        if self.pos < self.source.len() {
            self.pos += 1;
            assert(final(self)@ =~= old(self)@.skip(1));
        }
    }

    /// Moves the cursor one character on and returns the new lookahead.
    pub fn next_char(&mut self) -> (c: Option<char>)
        ensures
            final(self)@ == advance(old(self)@),
            c == front(final(self)@),
    {
        self.advance_char();
        self.ch()
    }

    /// Moves the cursor one character on, and then further to the first
    /// character that `filter` accepts, or to the end if it accepts none.
    pub fn advance_next_char_until<F: Fn(char) -> bool>(&mut self, filter: F)
        requires
            total(filter),
        ensures
            final(self)@.len() <= advance(old(self)@).len(),
            final(self)@ == advance(old(self)@).skip(
                advance(old(self)@).len() - final(self)@.len(),
            ),
            refuses_all(
                filter,
                advance(old(self)@).take(advance(old(self)@).len() - final(self)@.len()),
            ),
            accepts_front(filter, final(self)@),
    {
        self.advance_char();
        self.advance_ch_until(filter);
    }

    /// Moves the cursor to the first character, from the lookahead on, that
    /// `filter` accepts, or to the end if it accepts none.
    pub fn advance_ch_until<F: Fn(char) -> bool>(&mut self, filter: F)
        requires
            total(filter),
        ensures
            final(self)@.len() <= old(self)@.len(),
            final(self)@ == old(self)@.skip(old(self)@.len() - final(self)@.len()),
            refuses_all(filter, old(self)@.take(old(self)@.len() - final(self)@.len())),
            accepts_front(filter, final(self)@),
    {
        let ghost start = self@;
        let ghost mut n: int = 0;
        loop
            invariant
                total(filter),
                0 <= n <= start.len(),
                self@ == start.skip(n),
                refuses_all(filter, start.take(n)),
            ensures
                accepts_front(filter, self@),
            decreases start.len() - n,
        {
            match self.ch() {
                Some(cch) => {
                    if filter(cch) {
                        break ;
                    }
                    self.advance_char();
                    proof {
                        assert(start.skip(n).skip(1) =~= start.skip(n + 1));
                        assert forall|i: int| 0 <= i < n + 1 implies call_ensures(
                            filter,
                            (#[trigger] start.take(n + 1)[i],),
                            false,
                        ) by {
                            if i < n {
                                assert(start.take(n + 1)[i] == start.take(n)[i]);
                            }
                        }
                        n = n + 1;
                    }
                },
                None => {
                    break ;
                },
            }
        }
    }

    /// Reads the run of digits under the cursor as one integer token and
    /// leaves the cursor on the first character behind the run.
    pub fn read_integer(&mut self) -> (result: Result<TokenType, LexError>)
        requires
            old(self)@.len() > 0,
            is_decimal_digit(old(self)@[0]),
        ensures
            result == integer_token(old(self)@.take(leading_digits(old(self)@) as int)),
            final(self)@ == old(self)@.skip(leading_digits(old(self)@) as int),
    {
        let integer = self.read_chars_until(is_not_decimal_digit);
        proof {
            let tail = old(self)@.skip(1);
            assert(tail =~= old(self)@.drop_first());
            assert(self@ =~= tail.skip(integer@.len() - 1));
            assert(integer@.skip(1) =~= tail.take(integer@.len() - 1));
            lemma_filter_stops_at_stop_index(
                is_not_decimal_digit,
                not_decimal_digit(),
                tail,
                self@,
            );
            assert forall|i: int| 0 <= i < integer@.len() implies is_decimal_digit(
                #[trigger] integer@[i],
            ) by {
                if i > 0 {
                    assert(integer@[i] == integer@.skip(1)[i - 1]);
                }
            }
        }
        match parse_decimal(&integer) {
            Some(value) => Ok(TokenType::Integer(value)),
            None => Err(LexError::NumericOverflow),
        }
    }

    /// Collects the lookahead and the characters behind it up to the first
    /// that `filter` accepts, and leaves the cursor on that one, or at the end
    /// if `filter` accepts none. The lookahead itself is not put to `filter`.
    pub fn read_chars_until<F: Fn(char) -> bool>(&mut self, filter: F) -> (string: Vec<char>)
        requires
            old(self)@.len() > 0,
            total(filter),
        ensures
            1 <= string@.len() <= old(self)@.len(),
            string@ == old(self)@.take(string@.len() as int),
            final(self)@ == old(self)@.skip(string@.len() as int),
            refuses_all(filter, string@.skip(1)),
            accepts_front(filter, final(self)@),
    {
        let ghost start = self@;
        let ghost mut n: int = 1;
        let mut string: Vec<char> = Vec::new();
        match self.ch() {
            Some(first) => string.push(first),
            None => {},
        }
        assert(string@ =~= start.take(1));
        assert(start.skip(0) =~= start);
        loop
            invariant_except_break
                self@ == start.skip(n - 1),
            invariant
                total(filter),
                1 <= n <= start.len(),
                string@ == start.take(n),
                refuses_all(filter, string@.skip(1)),
            ensures
                self@ == start.skip(n),
                accepts_front(filter, self@),
            decreases start.len() - n,
        {
            proof {
                assert(start.skip(n - 1).skip(1) =~= start.skip(n));
            }
            match self.next_char() {
                Some(next_char) => {
                    if filter(next_char) {
                        break ;
                    }
                    let ghost before = string@;
                    string.push(next_char);
                    proof {
                        assert(string@ =~= start.take(n + 1));
                        assert forall|i: int| 0 <= i < string@.skip(1).len() implies call_ensures(
                            filter,
                            (#[trigger] string@.skip(1)[i],),
                            false,
                        ) by {
                            if i < n - 1 {
                                assert(string@.skip(1)[i] == before.skip(1)[i]);
                            }
                        }
                        n = n + 1;
                    }
                },
                None => {
                    break ;
                },
            }
        }
        string
    }
}

} // verus!
