//! The tokens of the expression language and the error of the tokenizer.
use vstd::prelude::*;

verus! {

/// One lexical unit of an arithmetic expression.
#[derive(Debug, Clone, Copy, PartialEq, Eq, Structural)]
pub enum TokenType {
    /// A run of decimal digits, read in base ten.
    Integer(i64),
    /// `+`
    Plus,
    /// `-`
    Minus,
    /// `*`
    Asterisk,
    /// `/`
    Slash,
    /// `)`
    RParen,
    /// `(`
    LParen,
    /// Nothing more to read. Once produced, it is produced for ever.
    Eof,
}

/// Why no token could be produced.
#[derive(Debug, Clone, Copy, PartialEq, Eq, Structural)]
pub enum LexError {
    /// A run of digits denotes a number above `i64::MAX`.
    NumericOverflow,
}

} // verus!
