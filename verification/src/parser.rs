//! The executable lexer and evaluator.
//!
//! A `Parser` owns the input text, the token sequence the lexer built from
//! it, a cursor into that sequence, the running total, and the ceiling that
//! the next clause's leading digit must fall strictly below. `convert` drives
//! the whole pipeline; `parse` is the unwrapping entry point for inputs known
//! to be valid.

use vstd::prelude::*;

use crate::grammar::CEILING_START;
use crate::grammar::convert_spec;
use crate::grammar::eval_all;
use crate::grammar::eval_spec;
use crate::grammar::is_ceiling;
use crate::grammar::lemma_step_ok_bounds;
use crate::grammar::step_spec;
use crate::grammar::with_total;
use crate::lexer::ParseError;
use crate::lexer::Token;
use crate::lexer::all_known;
use crate::lexer::char_known;
use crate::lexer::lemma_lex_tokens_wf;
use crate::lexer::lex_spec;
use crate::lexer::lex_tokens;
use crate::lexer::token_of_char;
use crate::lexer::wf_tokens;
use vstd::string::StrSliceExecFns;

verus! {

/// The state of one conversion: the source text, the tokens lexed from it,
/// the cursor into them, the running total, and the ceiling for the next
/// clause.
pub struct Parser {
    pub src: String,
    pub pos: usize,
    pub toks: Vec<Token>,
    pub result: usize,
    pub max: usize,
}

impl Parser {
    /// A fresh parser over `src`: nothing lexed, nothing consumed, total
    /// zero, ceiling at the sentinel.
    pub fn new(src: String) -> (p: Parser)
        ensures
            p.src == src,
            p.pos == 0,
            p.toks@ == Seq::<Token>::empty(),
            p.result == 0,
            p.max == CEILING_START,
    {
        Parser { src, pos: 0, toks: Vec::new(), result: 0, max: CEILING_START }
    }

    /// Turn the source text into tokens, one per character in input order.
    /// Succeeds exactly when every character is a Roman digit; on any other
    /// character it stops at once with `UnknownCharacter`.
    pub fn lex(&mut self) -> (r: Result<(), ParseError>)
        requires
            old(self).toks@.len() == 0,
        ensures
            final(self).src == old(self).src,
            final(self).pos == old(self).pos,
            final(self).result == old(self).result,
            final(self).max == old(self).max,
            (r is Ok) == all_known(old(self).src@),
            r is Ok ==> final(self).toks@ == lex_tokens(old(self).src@),
            r is Ok ==> lex_spec(old(self).src@) == Ok::<Seq<Token>, ParseError>(
                final(self).toks@,
            ),
            r is Err ==> r == Err::<(), ParseError>(ParseError::UnknownCharacter),
    {
        let n = self.src.as_str().unicode_len();
        let mut i: usize = 0;
        while i < n
            invariant
                i <= n,
                n == self.src@.len(),
                self.src == old(self).src,
                self.pos == old(self).pos,
                self.result == old(self).result,
                self.max == old(self).max,
                self.toks@.len() == i,
                forall|j: int| 0 <= j < i ==> char_known(#[trigger] self.src@[j]),
                forall|j: int|
                    0 <= j < i ==> #[trigger] self.toks@[j] == token_of_char(self.src@[j]),
            decreases n - i,
        {
            let c = self.src.as_str().get_char(i);
            if c == 'I' {
                self.toks.push(Token::One(1));
            } else if c == 'V' {
                self.toks.push(Token::Five(1));
            } else if c == 'X' {
                self.toks.push(Token::One(10));
            } else if c == 'L' {
                self.toks.push(Token::Five(10));
            } else if c == 'C' {
                self.toks.push(Token::One(100));
            } else if c == 'D' {
                self.toks.push(Token::Five(100));
            } else if c == 'M' {
                self.toks.push(Token::One(1000));
            } else {
                assert(!char_known(self.src@[i as int]));
                return Err(ParseError::UnknownCharacter);
            }
            i = i + 1;
        }
        assert(self.toks@ =~= lex_tokens(self.src@));
        Ok(())
    }

    /// Consume the token under the cursor when it is a ones-digit, returning
    /// its value paired with its unit. Fails with `NoInput` past the end and
    /// with `IllegalAlignment` on a fives-digit; on failure nothing moves.
    pub fn parse_one(&mut self) -> (r: Result<(usize, usize), ParseError>)
        ensures
            final(self).src == old(self).src,
            final(self).toks == old(self).toks,
            final(self).result == old(self).result,
            final(self).max == old(self).max,
            (r is Ok) == (old(self).pos < old(self).toks@.len()
                && old(self).toks@[old(self).pos as int] is One),
            match r {
                Ok(p) => {
                    &&& old(self).toks@[old(self).pos as int] == Token::One(p.1)
                    &&& p.0 == p.1
                    &&& final(self).pos == old(self).pos + 1
                },
                Err(e) => {
                    &&& final(self).pos == old(self).pos
                    &&& e == (if old(self).pos >= old(self).toks@.len() {
                        ParseError::NoInput
                    } else {
                        ParseError::IllegalAlignment
                    })
                },
            },
    {
        if self.pos >= self.toks.len() {
            return Err(ParseError::NoInput);
        }
        match self.toks[self.pos] {
            Token::One(n) => {
                self.pos = self.pos + 1;
                Ok((n, n))
            },
            Token::Five(_) => Err(ParseError::IllegalAlignment),
        }
    }

    /// Consume the token under the cursor when it is a fives-digit, returning
    /// its face value (five times the unit) paired with its unit. Fails with
    /// `NoInput` past the end and with `IllegalAlignment` on a ones-digit; on
    /// failure nothing moves.
    pub fn parse_five(&mut self) -> (r: Result<(usize, usize), ParseError>)
        requires
            wf_tokens(old(self).toks@),
        ensures
            final(self).src == old(self).src,
            final(self).toks == old(self).toks,
            final(self).result == old(self).result,
            final(self).max == old(self).max,
            (r is Ok) == (old(self).pos < old(self).toks@.len()
                && old(self).toks@[old(self).pos as int] is Five),
            match r {
                Ok(p) => {
                    &&& old(self).toks@[old(self).pos as int] == Token::Five(p.1)
                    &&& p.0 == 5 * p.1
                    &&& final(self).pos == old(self).pos + 1
                },
                Err(e) => {
                    &&& final(self).pos == old(self).pos
                    &&& e == (if old(self).pos >= old(self).toks@.len() {
                        ParseError::NoInput
                    } else {
                        ParseError::IllegalAlignment
                    })
                },
            },
    {
        if self.pos >= self.toks.len() {
            return Err(ParseError::NoInput);
        }
        assert(crate::lexer::wf_token(self.toks@[self.pos as int]));
        match self.toks[self.pos] {
            Token::Five(n) => {
                self.pos = self.pos + 1;
                Ok((n * 5, n))
            },
            Token::One(_) => Err(ParseError::IllegalAlignment),
        }
    }

    /// Strip one clause from the front of the remaining tokens: exactly the
    /// step `step_spec` describes. On success the cursor moves past the
    /// clause, the clause's value joins the running total (which is
    /// returned), and the ceiling becomes the unit of the clause's leading
    /// digit. On failure the parser is left untouched.
    pub fn parse(&mut self) -> (r: Result<usize, ParseError>)
        requires
            wf_tokens(old(self).toks@),
            old(self).result <= 1000000,
        ensures
            final(self).src == old(self).src,
            final(self).toks == old(self).toks,
            match step_spec(old(self).toks@, old(self).pos as int, old(self).max as int) {
                Ok(s) => {
                    &&& r == Ok::<usize, ParseError>(final(self).result)
                    &&& final(self).result == old(self).result + s.1
                    &&& final(self).pos == s.0
                    &&& final(self).max == s.2
                },
                Err(e) => {
                    &&& r == Err::<usize, ParseError>(e)
                    &&& *final(self) == *old(self)
                },
            },
    {
        let len = self.toks.len();
        if self.pos >= len {
            return Err(ParseError::NoInput);
        }
        assert(crate::lexer::wf_token(self.toks@[self.pos as int]));
        let head = self.toks[self.pos];
        match head {
            Token::One(n) => {
                if n >= self.max {
                    return Err(ParseError::IllegalAlignment);
                }
                if self.pos + 1 >= len {
                    self.pos = self.pos + 1;
                    self.result = self.result + n;
                    self.max = n;
                    return Ok(self.result);
                }
                assert(crate::lexer::wf_token(self.toks@[self.pos as int + 1]));
                let second = self.toks[self.pos + 1];
                match second {
                    Token::One(m) => {
                        if m == n {
                            if self.pos + 2 >= len {
                                self.pos = self.pos + 2;
                                self.result = self.result + 2 * n;
                                self.max = n;
                                return Ok(self.result);
                            }
                            let third = self.toks[self.pos + 2];
                            match third {
                                Token::One(k) => {
                                    if k == n {
                                        self.pos = self.pos + 3;
                                        self.result = self.result + 3 * n;
                                    } else {
                                        self.pos = self.pos + 2;
                                        self.result = self.result + 2 * n;
                                    }
                                    self.max = n;
                                    Ok(self.result)
                                },
                                Token::Five(_) => Err(ParseError::IllegalAlignment),
                            }
                        } else if m == n * 10 {
                            self.pos = self.pos + 2;
                            self.result = self.result + (m - n);
                            self.max = n;
                            Ok(self.result)
                        } else if m < n {
                            self.pos = self.pos + 1;
                            self.result = self.result + n;
                            self.max = n;
                            Ok(self.result)
                        } else {
                            Err(ParseError::IllegalAlignment)
                        }
                    },
                    Token::Five(m) => {
                        if m == n {
                            self.pos = self.pos + 2;
                            self.result = self.result + (5 * m - n);
                        } else {
                            self.pos = self.pos + 1;
                            self.result = self.result + n;
                        }
                        self.max = n;
                        Ok(self.result)
                    },
                }
            },
            Token::Five(n) => {
                if n >= self.max {
                    return Err(ParseError::IllegalAlignment);
                }
                if self.pos + 1 >= len {
                    self.pos = self.pos + 1;
                    self.result = self.result + 5 * n;
                    self.max = n;
                    return Ok(self.result);
                }
                let t1 = self.toks[self.pos + 1];
                let ok1 = match t1 {
                    Token::One(k) => k == n,
                    Token::Five(_) => false,
                };
                if !ok1 {
                    return Err(ParseError::IllegalAlignment);
                }
                if self.pos + 2 >= len {
                    self.pos = self.pos + 2;
                    self.result = self.result + 6 * n;
                    self.max = n;
                    return Ok(self.result);
                }
                let t2 = self.toks[self.pos + 2];
                let ok2 = match t2 {
                    Token::One(k) => k == n,
                    Token::Five(_) => false,
                };
                if !ok2 {
                    return Err(ParseError::IllegalAlignment);
                }
                if self.pos + 3 >= len {
                    self.pos = self.pos + 3;
                    self.result = self.result + 7 * n;
                    self.max = n;
                    return Ok(self.result);
                }
                let t3 = self.toks[self.pos + 3];
                let ok3 = match t3 {
                    Token::One(k) => k == n,
                    Token::Five(_) => false,
                };
                if !ok3 {
                    return Err(ParseError::IllegalAlignment);
                }
                self.pos = self.pos + 4;
                self.result = self.result + 8 * n;
                self.max = n;
                Ok(self.result)
            },
        }
    }
}

/// Convert a Roman numeral to its integer value, or say exactly why it is
/// rejected: `UnknownCharacter` for a character outside the alphabet,
/// `NoInput` for an empty input, `IllegalAlignment` for a grammar violation.
pub fn convert(src: &str) -> (r: Result<usize, ParseError>)
    ensures
        match convert_spec(src@) {
            Ok(v) => r matches Ok(u) && u as int == v,
            Err(e) => r == Err::<usize, ParseError>(e),
        },
{
    let mut p = Parser::new(src.to_owned());
    match p.lex() {
        Err(e) => {
            return Err(e);
        },
        Ok(()) => {},
    }
    let len = p.toks.len();
    if len == 0 {
        return Err(ParseError::NoInput);
    }
    proof {
        lemma_lex_tokens_wf(src@);
    }
    while p.pos < len
        invariant
            all_known(src@),
            p.toks@ == lex_tokens(src@),
            wf_tokens(p.toks@),
            len == p.toks@.len(),
            0 < len,
            p.pos <= len,
            is_ceiling(p.max as int),
            p.result + 2 * p.max <= 2 * (CEILING_START as int),
            eval_all(p.toks@) == with_total(
                p.result as int,
                eval_spec(p.toks@, p.pos as int, p.max as int),
            ),
        decreases len - p.pos,
    {
        let ghost prev = p;
        let r = p.parse();
        match r {
            Err(e) => {
                proof {
                    assert(eval_spec(prev.toks@, prev.pos as int, prev.max as int) == Err::<
                        int,
                        ParseError,
                    >(e));
                }
                return Err(e);
            },
            Ok(_) => {
                proof {
                    lemma_step_ok_bounds(prev.toks@, prev.pos as int, prev.max as int);
                }
            },
        }
    }
    Ok(p.result)
}

/// Convert a Roman numeral known to be valid, returning its value directly.
/// Inputs the grammar rejects are excluded by the precondition.
pub fn parse(src: &str) -> (r: usize)
    requires
        convert_spec(src@) is Ok,
    ensures
        convert_spec(src@) == Ok::<int, ParseError>(r as int),
{
    match convert(src) {
        Ok(v) => v,
        Err(_) => vstd::pervasive::unreached(),
    }
}

} // verus!
