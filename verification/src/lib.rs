//! Conversion of classical Roman numerals (the alphabet I, V, X, L, C, D, M)
//! into integers.
//!
//! The library has two stages. The lexer turns each character of the input
//! into a token carrying its unit value and its class (ones-like or
//! fives-like), rejecting any other character. The evaluator then strips one
//! well-formed clause after another from the front of the token sequence,
//! adding each clause's value to a running total while a ceiling value
//! enforces strictly descending magnitude from clause to clause.

pub mod grammar;
pub mod laws;
pub mod lexer;
pub mod parser;

pub use lexer::ParseError;
pub use lexer::Token;
pub use parser::Parser;
pub use parser::convert;
pub use parser::parse;
