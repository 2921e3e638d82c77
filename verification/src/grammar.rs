//! The clause grammar of the evaluator, as specification functions.
//!
//! `step_spec` says what consuming one clause from the front of the remaining
//! tokens does: how far the cursor moves, what value the clause adds, and the
//! new ceiling. `eval_spec` folds `step_spec` over the whole sequence, and
//! `convert_spec` is the complete pipeline from characters to an integer.

use vstd::prelude::*;

use crate::lexer::ParseError;
use crate::lexer::Token;
use crate::lexer::all_known;
use crate::lexer::lex_tokens;
use crate::lexer::token_order;
use crate::lexer::wf_token;
use crate::lexer::wf_tokens;

verus! {

/// The ceiling the evaluator starts from: a sentinel above every token value,
/// so that the first clause may begin with any digit.
pub const CEILING_START: usize = 10001;

/// Whether `t` is the ones-digit of unit `v`.
pub open spec fn is_one_of(t: Token, v: usize) -> bool {
    t == Token::One(v)
}

/// One clause led by a ones-digit of unit `n`, with lookahead into the token
/// after it. Returns the new cursor, the clause's value, and the new ceiling.
pub open spec fn step_one_spec(toks: Seq<Token>, pos: int, n: usize) -> Result<
    (int, int, int),
    ParseError,
> {
    let len = toks.len() as int;
    if pos + 1 >= len {
        Ok((pos + 1, n as int, n as int))
    } else {
        match toks[pos + 1] {
            Token::One(m) => {
                if m == n {
                    // A run of two or three identical ones-digits. A fourth
                    // is left for the next clause, whose ceiling check then
                    // rejects it.
                    if pos + 2 >= len {
                        Ok((pos + 2, 2 * n, n as int))
                    } else {
                        match toks[pos + 2] {
                            Token::One(k) => {
                                if k == n {
                                    Ok((pos + 3, 3 * n, n as int))
                                } else {
                                    Ok((pos + 2, 2 * n, n as int))
                                }
                            },
                            Token::Five(_) => Err(ParseError::IllegalAlignment),
                        }
                    }
                } else if m == 10 * n {
                    // The subtractive pair one magnitude step up: IX, XC, CM.
                    Ok((pos + 2, m - n, n as int))
                } else if m < n {
                    // A smaller digit starts the next clause.
                    Ok((pos + 1, n as int, n as int))
                } else {
                    // A larger digit that is not the adjacent step: IC, IM.
                    Err(ParseError::IllegalAlignment)
                }
            },
            Token::Five(m) => {
                if m == n {
                    // The subtractive pair against the matching fives-digit:
                    // IV, XL, CD.
                    Ok((pos + 2, 5 * m - n, n as int))
                } else {
                    // A fives-digit of another order is not consumed; it
                    // starts the next clause.
                    Ok((pos + 1, n as int, n as int))
                }
            },
        }
    }
}

/// One clause led by a fives-digit of unit `n`: the digit itself, then up to
/// three ones-digits of the same order; a token of any other shape in one of
/// those three places is rejected.
pub open spec fn step_five_spec(toks: Seq<Token>, pos: int, n: usize) -> Result<
    (int, int, int),
    ParseError,
> {
    let len = toks.len() as int;
    if pos + 1 >= len {
        Ok((pos + 1, 5 * n, n as int))
    } else if !is_one_of(toks[pos + 1], n) {
        Err(ParseError::IllegalAlignment)
    } else if pos + 2 >= len {
        Ok((pos + 2, 6 * n, n as int))
    } else if !is_one_of(toks[pos + 2], n) {
        Err(ParseError::IllegalAlignment)
    } else if pos + 3 >= len {
        Ok((pos + 3, 7 * n, n as int))
    } else if !is_one_of(toks[pos + 3], n) {
        Err(ParseError::IllegalAlignment)
    } else {
        Ok((pos + 4, 8 * n, n as int))
    }
}

/// One clause from position `pos` under ceiling `max`: what `Parser::parse`
/// does. `Ok((cursor, added, ceiling))` gives the cursor past the clause, the
/// value the clause adds, and the ceiling for the next clause. The leading
/// digit must fall strictly below the incoming ceiling.
pub open spec fn step_spec(toks: Seq<Token>, pos: int, max: int) -> Result<
    (int, int, int),
    ParseError,
> {
    if !(0 <= pos < toks.len()) {
        Err(ParseError::NoInput)
    } else {
        match toks[pos] {
            Token::One(n) => {
                if n >= max {
                    Err(ParseError::IllegalAlignment)
                } else {
                    step_one_spec(toks, pos, n)
                }
            },
            Token::Five(n) => {
                if n >= max {
                    Err(ParseError::IllegalAlignment)
                } else {
                    step_five_spec(toks, pos, n)
                }
            },
        }
    }
}

/// The total of the clauses from `pos` to the end of the sequence under
/// ceiling `max`, or the first failure.
pub open spec fn eval_spec(toks: Seq<Token>, pos: int, max: int) -> Result<int, ParseError>
    decreases toks.len() - pos,
{
    if !(0 <= pos < toks.len()) {
        Ok(0)
    } else {
        match step_spec(toks, pos, max) {
            Ok((p2, add, m2)) => match eval_spec(toks, p2, m2) {
                Ok(r) => Ok(add + r),
                Err(e) => Err(e),
            },
            Err(e) => Err(e),
        }
    }
}

/// A total already accumulated, joined with the outcome of the clauses still
/// to come.
pub open spec fn with_total(c: int, r: Result<int, ParseError>) -> Result<int, ParseError> {
    match r {
        Ok(v) => Ok(c + v),
        Err(e) => Err(e),
    }
}

/// The value of a whole token sequence, evaluated from the front under the
/// sentinel ceiling. An empty sequence is rejected: there is no numeral to
/// read.
pub open spec fn eval_all(toks: Seq<Token>) -> Result<int, ParseError> {
    if toks.len() == 0 {
        Err(ParseError::NoInput)
    } else {
        eval_spec(toks, 0, CEILING_START as int)
    }
}

/// The complete conversion of a character sequence: lex, then evaluate.
pub open spec fn convert_spec(s: Seq<char>) -> Result<int, ParseError> {
    if all_known(s) {
        eval_all(lex_tokens(s))
    } else {
        Err(ParseError::UnknownCharacter)
    }
}

/// A value the ceiling can take: a token unit, or the starting sentinel.
pub open spec fn is_ceiling(max: int) -> bool {
    max == 1 || max == 10 || max == 100 || max == 1000 || max == CEILING_START as int
}

/// Bounds on one successful clause over well-formed tokens: the cursor moves
/// forward by one to four places, the new ceiling is the unit of the leading
/// token and falls strictly below the old one, and the clause's value is at
/// most nine times that unit.
pub proof fn lemma_step_ok_bounds(toks: Seq<Token>, pos: int, max: int)
    requires
        wf_tokens(toks),
        is_ceiling(max),
        step_spec(toks, pos, max) is Ok,
    ensures
        ({
            let (p2, add, m2) = step_spec(toks, pos, max)->Ok_0;
            &&& 0 <= pos < p2 <= toks.len()
            &&& p2 <= pos + 4
            &&& m2 == token_order(toks[pos]) as int
            &&& (m2 == 1 || m2 == 10 || m2 == 100 || m2 == 1000)
            &&& m2 < max
            &&& 10 * m2 <= max
            &&& 0 <= add <= 9 * m2
        }),
{
    let (p2, add, m2) = step_spec(toks, pos, max)->Ok_0;
    assert(wf_token(toks[pos]));
    match toks[pos] {
        Token::One(n) => {
            assert(step_one_spec(toks, pos, n) is Ok);
            if pos + 1 < toks.len() {
                match toks[pos + 1] {
                    Token::One(m) => {
                        assert(wf_token(toks[pos + 1]));
                    },
                    Token::Five(m) => {
                        assert(wf_token(toks[pos + 1]));
                    },
                }
            }
        },
        Token::Five(n) => {
            assert(step_five_spec(toks, pos, n) is Ok);
        },
    }
}

} // verus!
