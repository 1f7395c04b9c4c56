//! A tokenizer for arithmetic expressions over integers, `+ - * /` and
//! parentheses, with contracts that Verus proves.
//!
//! [`grammar`] says, over sequences of characters, which token a text starts
//! with and what remains after it; it builds on the character classes of
//! [`chars`], the runs of [`runs`] and the decimal numbers of [`number`].
//! [`lexer`] holds the executable tokenizer, whose every step is proved to
//! agree with that grammar. [`laws`] proves what holds of every text: that the
//! end of input is final, that leading white space is ignored, that the cursor
//! only moves forward.
pub mod chars;
pub mod grammar;
pub mod laws;
pub mod lexer;
pub mod number;
pub mod runs;
pub mod token_type;
