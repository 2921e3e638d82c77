//! Tokens, errors, and the specification of lexing.

use vstd::prelude::*;

verus! {

/// A lexed Roman digit. `One(n)` stands for I, X, C or M, with `n` its value
/// (1, 10, 100 or 1000). `Five(n)` stands for V, L or D, with `n` the unit of
/// its order (1, 10 or 100); its face value is `5 * n`.
#[derive(Clone, Copy, Debug, PartialEq, Eq, Structural)]
pub enum Token {
    One(usize),
    Five(usize),
}

/// The four terminal failures of a conversion.
#[derive(Clone, Copy, Debug, PartialEq, Eq, Structural)]
pub enum ParseError {
    /// The input holds a character outside I, V, X, L, C, D, M.
    UnknownCharacter,
    /// The evaluator was invoked with no tokens at all, or a clause needed a
    /// token past the end of the sequence.
    NoInput,
    /// A repetition, ordering or magnitude rule of the grammar is violated.
    IllegalAlignment,
    /// Reserved for internal inconsistency; never produced.
    Unknown,
}

/// The unit value of a token: the `n` of `One(n)` or of `Five(n)`.
pub open spec fn token_order(t: Token) -> usize {
    match t {
        Token::One(n) => n,
        Token::Five(n) => n,
    }
}

/// Whether `c` is one of the seven Roman digit characters.
pub open spec fn char_known(c: char) -> bool {
    c == 'I' || c == 'V' || c == 'X' || c == 'L' || c == 'C' || c == 'D' || c == 'M'
}

/// The token a known character lexes to. Unknown characters are mapped to a
/// junk token; every use is guarded by `char_known`.
pub open spec fn token_of_char(c: char) -> Token {
    if c == 'I' {
        Token::One(1)
    } else if c == 'V' {
        Token::Five(1)
    } else if c == 'X' {
        Token::One(10)
    } else if c == 'L' {
        Token::Five(10)
    } else if c == 'C' {
        Token::One(100)
    } else if c == 'D' {
        Token::Five(100)
    } else if c == 'M' {
        Token::One(1000)
    } else {
        Token::One(0)
    }
}

/// Whether every character of `s` is a Roman digit, that is, whether lexing
/// `s` succeeds.
pub open spec fn all_known(s: Seq<char>) -> bool {
    forall|i: int| 0 <= i < s.len() ==> char_known(#[trigger] s[i])
}

/// The token sequence lexing produces: one token per character, in input
/// order. Meaningful only when `all_known(s)` holds.
pub open spec fn lex_tokens(s: Seq<char>) -> Seq<Token> {
    Seq::new(s.len(), |i: int| token_of_char(s[i]))
}

/// What lexing returns on any input.
pub open spec fn lex_spec(s: Seq<char>) -> Result<Seq<Token>, ParseError> {
    if all_known(s) {
        Ok(lex_tokens(s))
    } else {
        Err(ParseError::UnknownCharacter)
    }
}

/// A token the lexer can actually produce: the unit of a ones-digit is a
/// power of ten up to 1000, the unit of a fives-digit a power of ten up to
/// 100.
pub open spec fn wf_token(t: Token) -> bool {
    match t {
        Token::One(n) => n == 1 || n == 10 || n == 100 || n == 1000,
        Token::Five(n) => n == 1 || n == 10 || n == 100,
    }
}

/// Every token of the sequence is well formed.
pub open spec fn wf_tokens(ts: Seq<Token>) -> bool {
    forall|i: int| 0 <= i < ts.len() ==> wf_token(#[trigger] ts[i])
}

/// Successful lexing only produces well-formed tokens.
pub proof fn lemma_lex_tokens_wf(s: Seq<char>)
    requires
        all_known(s),
    ensures
        wf_tokens(lex_tokens(s)),
{
    assert forall|i: int| 0 <= i < lex_tokens(s).len() implies wf_token(
        #[trigger] lex_tokens(s)[i],
    ) by {
        assert(lex_tokens(s)[i] == token_of_char(s[i]));
    }
}

} // verus!
