//! The general laws of the conversion, stated and proved once and for all
//! inputs: lexing is deterministic, a grammar failure on a lexable input is
//! always `IllegalAlignment`, four identical consecutive ones-digits and
//! non-adjacent subtractive pairs are always rejected, and the canonical
//! numeral of every value the grammar accepts converts back to that value.

use vstd::prelude::*;

use crate::grammar::CEILING_START;
use crate::grammar::convert_spec;
use crate::grammar::eval_spec;
use crate::grammar::step_spec;
use crate::lexer::ParseError;
use crate::lexer::Token;
use crate::lexer::all_known;
use crate::lexer::char_known;
use crate::lexer::lex_spec;
use crate::lexer::lex_tokens;
use crate::lexer::token_of_char;
use crate::lexer::token_order;

verus! {

/// Lexing is a function of the text alone: lexing the same characters twice
/// can only yield the same token sequences.
pub proof fn lemma_lex_idempotent(s: Seq<char>, first: Seq<Token>, second: Seq<Token>)
    requires
        lex_spec(s) == Ok::<Seq<Token>, ParseError>(first),
        lex_spec(s) == Ok::<Seq<Token>, ParseError>(second),
    ensures
        first == second,
{
}

/// When the evaluator fails on tokens, the failure is `IllegalAlignment`:
/// every rejection of the clause grammar reports that kind.
pub proof fn lemma_eval_err_kind(toks: Seq<Token>, pos: int, max: int)
    requires
        0 <= pos,
        eval_spec(toks, pos, max) is Err,
    ensures
        eval_spec(toks, pos, max) == Err::<int, ParseError>(ParseError::IllegalAlignment),
    decreases toks.len() - pos,
{
    if pos < toks.len() {
        match step_spec(toks, pos, max) {
            Ok(s) => {
                lemma_eval_err_kind(toks, s.0, s.2);
            },
            Err(e) => {},
        }
    }
}

/// A clause whose leading digit does not fall strictly below the ceiling is
/// rejected.
proof fn lemma_head_at_or_above_ceiling(toks: Seq<Token>, pos: int, max: int)
    requires
        0 <= pos < toks.len(),
        token_order(toks[pos]) as int >= max,
    ensures
        eval_spec(toks, pos, max) == Err::<int, ParseError>(ParseError::IllegalAlignment),
{
}

/// The shapes a successful clause can take. The clause's leading token
/// determines the new ceiling; a clause led by a fives-digit consumes only
/// matching ones-digits after it and stops only when full or at the end; a
/// clause led by a ones-digit consumes a run of identical digits, one
/// subtractive partner, or nothing further.
proof fn lemma_step_ok_shape(toks: Seq<Token>, pos: int, max: int)
    requires
        step_spec(toks, pos, max) is Ok,
    ensures
        ({
            let s = step_spec(toks, pos, max)->Ok_0;
            let p2 = s.0;
            let ord = token_order(toks[pos]);
            let len = toks.len() as int;
            &&& 0 <= pos < len
            &&& pos < p2 <= len
            &&& p2 <= pos + 4
            &&& s.2 == ord as int
            &&& (ord as int) < max
            &&& (toks[pos] is Five ==> {
                &&& (forall|j: int| pos < j < p2 ==> toks[j] == Token::One(ord))
                &&& (p2 == pos + 4 || p2 == len)
            })
            &&& (toks[pos] is One ==> {
                ||| (p2 == pos + 1 && (p2 == len || (toks[p2] matches Token::One(m) && m < ord)
                    || (toks[p2] matches Token::Five(m) && m != ord)))
                ||| (p2 == pos + 2 && toks[pos + 1] == toks[pos] && (p2 == len || (toks[p2] matches
                    Token::One(k) && k != ord)))
                ||| (p2 == pos + 3 && toks[pos + 1] == toks[pos] && toks[pos + 2] == toks[pos])
                ||| (p2 == pos + 2 && (toks[pos + 1] matches Token::One(w) && w == 10 * (
                ord as int)))
                ||| (p2 == pos + 2 && (toks[pos + 1] matches Token::Five(w) && w == ord))
            })
        }),
{
    let s = step_spec(toks, pos, max)->Ok_0;
    match toks[pos] {
        Token::One(n) => {
            assert(crate::grammar::step_one_spec(toks, pos, n) is Ok);
        },
        Token::Five(n) => {
            assert(crate::grammar::step_five_spec(toks, pos, n) is Ok);
            assert(forall|j: int| pos < j < s.0 ==> toks[j] == Token::One(n));
        },
    }
}

/// From any starting point at or before a run of four identical ones-digits,
/// evaluation fails: no clause can swallow more than three of them, and the
/// ceiling the run leaves behind rejects whichever of them comes next.
proof fn lemma_run_of_four_rejected_from(toks: Seq<Token>, pos: int, max: int, p: int, v: usize)
    requires
        0 <= pos <= p,
        p + 3 < toks.len(),
        toks[p] == Token::One(v),
        toks[p + 1] == Token::One(v),
        toks[p + 2] == Token::One(v),
        toks[p + 3] == Token::One(v),
    ensures
        eval_spec(toks, pos, max) is Err,
    decreases toks.len() - pos,
{
    match step_spec(toks, pos, max) {
        Err(e) => {},
        Ok(s) => {
            lemma_step_ok_shape(toks, pos, max);
            let p2 = s.0;
            let m2 = s.2;
            if p2 <= p {
                lemma_run_of_four_rejected_from(toks, p2, m2, p, v);
            } else {
                // The clause ended inside the run: its ceiling is the run's
                // own unit (or a tenth of it), so the next digit of the run
                // is at or above the ceiling.
                assert(p < p2 <= p + 3);
                assert(toks[p2] == Token::One(v));
                assert(token_order(toks[p2]) as int >= m2);
                lemma_head_at_or_above_ceiling(toks, p2, m2);
            }
        },
    }
}

/// Four or more consecutive identical ones-digits in a lexable input are
/// always rejected, and with `IllegalAlignment`.
pub proof fn lemma_four_identical_ones_rejected(s: Seq<char>, p: int)
    requires
        all_known(s),
        0 <= p,
        p + 3 < s.len(),
        s[p + 1] == s[p],
        s[p + 2] == s[p],
        s[p + 3] == s[p],
        token_of_char(s[p]) is One,
    ensures
        convert_spec(s) == Err::<int, ParseError>(ParseError::IllegalAlignment),
{
    let toks = lex_tokens(s);
    let v = token_order(toks[p]);
    assert(toks[p] == Token::One(v));
    assert(toks[p + 1] == Token::One(v));
    assert(toks[p + 2] == Token::One(v));
    assert(toks[p + 3] == Token::One(v));
    lemma_run_of_four_rejected_from(toks, 0, CEILING_START as int, p, v);
    lemma_eval_err_kind(toks, 0, CEILING_START as int);
}

/// An input with any character outside the seven Roman digits is rejected
/// with `UnknownCharacter`, wherever that character stands.
pub proof fn lemma_unknown_character_rejected(s: Seq<char>, p: int)
    requires
        0 <= p < s.len(),
        !char_known(s[p]),
    ensures
        convert_spec(s) == Err::<int, ParseError>(ParseError::UnknownCharacter),
{
    assert(!all_known(s));
}

/// A pair of adjacent tokens whose second digit rises above the first without
/// being its legal subtractive partner: a larger ones-digit that is not ten
/// times the first (IC, IM, XM), or a larger fives-digit of another order
/// (IL, ID, XD).
pub open spec fn illegal_rise(first: Token, second: Token) -> bool {
    first matches Token::One(a) && match second {
        Token::One(b) => b > a && b as int != 10 * (a as int),
        Token::Five(b) => b > a,
    }
}

/// From any starting point at or before an illegal rise, evaluation fails: no
/// clause can consume the pair together, and whichever clause ends just
/// before the second token leaves a ceiling at or below the first.
proof fn lemma_illegal_rise_rejected_from(toks: Seq<Token>, pos: int, max: int, p: int)
    requires
        0 <= pos <= p,
        p + 1 < toks.len(),
        illegal_rise(toks[p], toks[p + 1]),
    ensures
        eval_spec(toks, pos, max) is Err,
    decreases toks.len() - pos,
{
    match step_spec(toks, pos, max) {
        Err(e) => {},
        Ok(s) => {
            lemma_step_ok_shape(toks, pos, max);
            let p2 = s.0;
            let m2 = s.2;
            if p2 <= p {
                lemma_illegal_rise_rejected_from(toks, p2, m2, p);
            } else {
                // No clause shape consumes both tokens of the pair, so the
                // clause ends at the second token, under a ceiling at or
                // below the first digit's unit.
                assert(p2 == p + 1);
                assert(token_order(toks[p2]) as int >= m2);
                lemma_head_at_or_above_ceiling(toks, p2, m2);
            }
        },
    }
}

/// A non-adjacent subtractive step in a lexable input is always rejected,
/// and with `IllegalAlignment`.
pub proof fn lemma_non_adjacent_subtractive_rejected(s: Seq<char>, p: int)
    requires
        all_known(s),
        0 <= p,
        p + 1 < s.len(),
        illegal_rise(token_of_char(s[p]), token_of_char(s[p + 1])),
    ensures
        convert_spec(s) == Err::<int, ParseError>(ParseError::IllegalAlignment),
{
    let toks = lex_tokens(s);
    assert(toks[p] == token_of_char(s[p]));
    assert(toks[p + 1] == token_of_char(s[p + 1]));
    lemma_illegal_rise_rejected_from(toks, 0, CEILING_START as int, p);
    lemma_eval_err_kind(toks, 0, CEILING_START as int);
}

/// The characters of one decimal digit of a canonical numeral, written with
/// the ones-character `i` of its order, the fives-character `v`, and the
/// ones-character `x` of the next order up.
pub open spec fn digit_chars(d: int, i: char, v: char, x: char) -> Seq<char> {
    if d == 1 {
        seq![i]
    } else if d == 2 {
        seq![i, i]
    } else if d == 3 {
        seq![i, i, i]
    } else if d == 4 {
        seq![i, v]
    } else if d == 5 {
        seq![v]
    } else if d == 6 {
        seq![v, i]
    } else if d == 7 {
        seq![v, i, i]
    } else if d == 8 {
        seq![v, i, i, i]
    } else if d == 9 {
        seq![i, x]
    } else {
        Seq::empty()
    }
}

/// The tokens of one decimal digit of a canonical numeral at order `o`.
pub open spec fn digit_toks(d: int, o: usize) -> Seq<Token> {
    let one = Token::One(o);
    let five = Token::Five(o);
    let ten = Token::One((10 * (o as int)) as usize);
    if d == 1 {
        seq![one]
    } else if d == 2 {
        seq![one, one]
    } else if d == 3 {
        seq![one, one, one]
    } else if d == 4 {
        seq![one, five]
    } else if d == 5 {
        seq![five]
    } else if d == 6 {
        seq![five, one]
    } else if d == 7 {
        seq![five, one, one]
    } else if d == 8 {
        seq![five, one, one, one]
    } else if d == 9 {
        seq![one, ten]
    } else {
        Seq::empty()
    }
}

/// The canonical Roman numeral of `n`, digit by digit from the thousands
/// down. Meaningful for 1 <= n <= 3999; the thousands digit is then at most
/// three, so no fives-character or next-order character exists at that order.
pub open spec fn roman_chars(n: int) -> Seq<char> {
    digit_chars(n / 1000, 'M', 'M', 'M') + digit_chars(n % 1000 / 100, 'C', 'D', 'M')
        + digit_chars(n % 100 / 10, 'X', 'L', 'C') + digit_chars(n % 10, 'I', 'V', 'X')
}

/// Whether the canonical group of digit `d` begins with a fives-digit.
pub open spec fn starts_with_fives(d: int) -> bool {
    5 <= d <= 8
}

/// The first nonzero of three digits, or zero when all are zero.
pub open spec fn next_nonzero(a: int, b: int, c: int) -> int {
    if a != 0 {
        a
    } else if b != 0 {
        b
    } else {
        c
    }
}

/// The values whose canonical numeral the clause grammar accepts. The grammar
/// reads the three places after a fives-digit greedily, so a digit five, six
/// or seven must close the numeral; and a run of exactly two ones-digits
/// backs off only before a ones-digit, so a digit two must not be followed
/// next by a group that begins with a fives-digit.
pub open spec fn convertible(n: int) -> bool {
    let d3 = n / 1000;
    let d2 = n % 1000 / 100;
    let d1 = n % 100 / 10;
    let d0 = n % 10;
    &&& (5 <= d3 <= 7 ==> d2 == 0 && d1 == 0 && d0 == 0)
    &&& (5 <= d2 <= 7 ==> d1 == 0 && d0 == 0)
    &&& (5 <= d1 <= 7 ==> d0 == 0)
    &&& (d3 == 2 ==> !starts_with_fives(next_nonzero(d2, d1, d0)))
    &&& (d2 == 2 ==> !starts_with_fives(next_nonzero(d1, d0, 0)))
    &&& (d1 == 2 ==> !starts_with_fives(d0))
}

/// Lexing distributes over concatenation.
proof fn lemma_lex_concat(s1: Seq<char>, s2: Seq<char>)
    ensures
        all_known(s1 + s2) == (all_known(s1) && all_known(s2)),
        lex_tokens(s1 + s2) == lex_tokens(s1) + lex_tokens(s2),
{
    if all_known(s1) && all_known(s2) {
        assert forall|i: int| 0 <= i < (s1 + s2).len() implies char_known(#[trigger] (s1 + s2)[i]) by {
            if i < s1.len() {
                assert((s1 + s2)[i] == s1[i]);
            } else {
                assert((s1 + s2)[i] == s2[i - s1.len()]);
            }
        }
    }
    if all_known(s1 + s2) {
        assert forall|i: int| 0 <= i < s1.len() implies char_known(#[trigger] s1[i]) by {
            assert((s1 + s2)[i] == s1[i]);
        }
        assert forall|i: int| 0 <= i < s2.len() implies char_known(#[trigger] s2[i]) by {
            assert((s1 + s2)[i + s1.len()] == s2[i]);
        }
    }
    assert(lex_tokens(s1 + s2) =~= lex_tokens(s1) + lex_tokens(s2));
}

/// The group of a nonzero digit is led by its fives-digit exactly when the
/// digit is five through eight, and by its ones-digit otherwise.
proof fn lemma_digit_toks_lead(d: int, o: usize)
    requires
        1 <= d <= 9,
    ensures
        0 < digit_toks(d, o).len() <= 4,
        digit_toks(d, o)[0] == (if starts_with_fives(d) {
            Token::Five(o)
        } else {
            Token::One(o)
        }),
{
}

/// The canonical characters of a digit lex to its canonical tokens.
proof fn lemma_digit_chars_lex(d: int, i: char, v: char, x: char, o: usize)
    requires
        0 <= d <= 9,
        d == 1 || d == 2 || d == 3 || d == 4 || d == 6 || d == 7 || d == 8 || d == 9
            ==> char_known(i) && token_of_char(i) == Token::One(o),
        4 <= d <= 8 ==> char_known(v) && token_of_char(v) == Token::Five(o),
        d == 9 ==> char_known(x) && token_of_char(x) == Token::One((10 * (o as int)) as usize),
    ensures
        all_known(digit_chars(d, i, v, x)),
        lex_tokens(digit_chars(d, i, v, x)) == digit_toks(d, o),
{
    let cs = digit_chars(d, i, v, x);
    assert forall|j: int| 0 <= j < cs.len() implies char_known(#[trigger] cs[j]) by {}
    assert(lex_tokens(cs) =~= digit_toks(d, o));
}

/// A canonical digit group at the front of the remaining tokens is consumed
/// as one clause worth `d * o`, leaving the ceiling at `o` — provided that a
/// group of digit five, six or seven closes the sequence, and that after a
/// group of digit one or two the next token (if any) sits strictly below the
/// group's order, a ones-digit when the digit is two.
proof fn lemma_step_digit(toks: Seq<Token>, pos: int, max: int, d: int, o: usize)
    requires
        1 <= d <= 9,
        o == 1 || o == 10 || o == 100 || o == 1000,
        (o as int) < max,
        0 <= pos,
        pos + digit_toks(d, o).len() <= toks.len(),
        toks.subrange(pos, pos + digit_toks(d, o).len() as int) == digit_toks(d, o),
        d == 5 || d == 6 || d == 7 ==> pos + digit_toks(d, o).len() == toks.len(),
        d == 1 || d == 2 ==> (pos + digit_toks(d, o).len() == toks.len() || ({
            let next = toks[pos + digit_toks(d, o).len()];
            &&& (token_order(next) as int) < o as int
            &&& (d == 2 ==> next is One)
        })),
    ensures
        step_spec(toks, pos, max) == Ok::<(int, int, int), ParseError>(
            (pos + digit_toks(d, o).len() as int, d * (o as int), o as int),
        ),
{
    let ts = digit_toks(d, o);
    let glen = ts.len() as int;
    if glen > 0 {
        assert(toks[pos] == ts[0]) by {
            assert(toks.subrange(pos, pos + glen)[0] == ts[0]);
        }
    }
    if glen > 1 {
        assert(toks[pos + 1] == ts[1]) by {
            assert(toks.subrange(pos, pos + glen)[1] == ts[1]);
        }
    }
    if glen > 2 {
        assert(toks[pos + 2] == ts[2]) by {
            assert(toks.subrange(pos, pos + glen)[2] == ts[2]);
        }
    }
    if glen > 3 {
        assert(toks[pos + 3] == ts[3]) by {
            assert(toks.subrange(pos, pos + glen)[3] == ts[3]);
        }
    }
    if d == 1 {
        assert(toks[pos] == Token::One(o));
    } else if d == 2 {
        assert(toks[pos] == Token::One(o) && toks[pos + 1] == Token::One(o));
    } else if d == 3 {
        assert(toks[pos] == Token::One(o) && toks[pos + 1] == Token::One(o) && toks[pos + 2]
            == Token::One(o));
    } else if d == 4 {
        assert(toks[pos] == Token::One(o) && toks[pos + 1] == Token::Five(o));
    } else if d == 5 {
        assert(toks[pos] == Token::Five(o));
    } else if d == 6 {
        assert(toks[pos] == Token::Five(o) && toks[pos + 1] == Token::One(o));
    } else if d == 7 {
        assert(toks[pos] == Token::Five(o) && toks[pos + 1] == Token::One(o) && toks[pos + 2]
            == Token::One(o));
    } else if d == 8 {
        assert(toks[pos] == Token::Five(o) && toks[pos + 1] == Token::One(o) && toks[pos + 2]
            == Token::One(o) && toks[pos + 3] == Token::One(o));
    } else {
        assert(toks[pos] == Token::One(o) && toks[pos + 1] == Token::One(
            (10 * (o as int)) as usize,
        ));
    }
}

/// One canonical digit group contributes `d * o` to the evaluation, which
/// then continues past it under ceiling `o`.
proof fn lemma_eval_digit(toks: Seq<Token>, pos: int, max: int, d: int, o: usize)
    requires
        1 <= d <= 9,
        o == 1 || o == 10 || o == 100 || o == 1000,
        (o as int) < max,
        0 <= pos,
        pos + digit_toks(d, o).len() <= toks.len(),
        toks.subrange(pos, pos + digit_toks(d, o).len() as int) == digit_toks(d, o),
        d == 5 || d == 6 || d == 7 ==> pos + digit_toks(d, o).len() == toks.len(),
        d == 1 || d == 2 ==> (pos + digit_toks(d, o).len() == toks.len() || ({
            let next = toks[pos + digit_toks(d, o).len()];
            &&& (token_order(next) as int) < o as int
            &&& (d == 2 ==> next is One)
        })),
    ensures
        eval_spec(toks, pos, max) == crate::grammar::with_total(
            d * (o as int),
            eval_spec(toks, pos + digit_toks(d, o).len() as int, o as int),
        ),
{
    lemma_step_digit(toks, pos, max, d, o);
    lemma_digit_toks_lead(d, o);
}

/// When only the ones group remains, evaluation finishes with its value.
proof fn lemma_eval_ones(toks: Seq<Token>, pos: int, max: int, d0: int)
    requires
        0 <= d0 <= 9,
        0 <= pos <= toks.len(),
        max > 1,
        toks.subrange(pos, toks.len() as int) == digit_toks(d0, 1),
    ensures
        eval_spec(toks, pos, max) == Ok::<int, ParseError>(d0),
{
    let len = toks.len() as int;
    assert(len - pos == digit_toks(d0, 1).len()) by {
        assert(toks.subrange(pos, len).len() == digit_toks(d0, 1).len());
    }
    if d0 != 0 {
        lemma_eval_digit(toks, pos, max, d0, 1);
    }
}

/// When the tens and ones groups remain, evaluation finishes with their
/// value, under the conditions `convertible` puts on those two digits.
proof fn lemma_eval_tens(toks: Seq<Token>, pos: int, max: int, d1: int, d0: int)
    requires
        0 <= d1 <= 9,
        0 <= d0 <= 9,
        0 <= pos <= toks.len(),
        max > 10,
        toks.subrange(pos, toks.len() as int) == digit_toks(d1, 10) + digit_toks(d0, 1),
        5 <= d1 <= 7 ==> d0 == 0,
        d1 == 2 ==> !starts_with_fives(d0),
    ensures
        eval_spec(toks, pos, max) == Ok::<int, ParseError>(10 * d1 + d0),
{
    let len = toks.len() as int;
    let t1 = digit_toks(d1, 10);
    let t0 = digit_toks(d0, 1);
    let q = pos + t1.len();
    assert(len - pos == t1.len() + t0.len()) by {
        assert(toks.subrange(pos, len).len() == (t1 + t0).len());
    }
    assert forall|i: int| 0 <= i < t0.len() implies (toks.subrange(q, len))[i] == t0[i] by {
        assert((toks.subrange(pos, len))[q - pos + i] == toks[q + i]);
        assert((t1 + t0)[q - pos + i] == t0[i]);
        assert((toks.subrange(q, len))[i] == toks[q + i]);
    }
    assert(toks.subrange(q, len) =~= t0);
    if d1 == 0 {
        assert(toks.subrange(pos, len) =~= t0);
        lemma_eval_ones(toks, pos, max, d0);
    } else {
        assert forall|i: int| 0 <= i < t1.len() implies (toks.subrange(pos, q))[i] == t1[i] by {
            assert((toks.subrange(pos, len))[i] == toks[pos + i]);
            assert((t1 + t0)[i] == t1[i]);
            assert((toks.subrange(pos, q))[i] == toks[pos + i]);
        }
        assert(toks.subrange(pos, q) =~= t1);
        if q < len {
            assert(toks[q] == t0[0]) by {
                assert((toks.subrange(q, len))[0] == toks[q + 0]);
            }
            lemma_digit_toks_lead(d0, 1);
        }
        lemma_eval_digit(toks, pos, max, d1, 10);
        lemma_eval_ones(toks, q, 10, d0);
    }
}

/// When the hundreds, tens and ones groups remain, evaluation finishes with
/// their value, under the conditions `convertible` puts on those digits.
proof fn lemma_eval_hundreds(toks: Seq<Token>, pos: int, max: int, d2: int, d1: int, d0: int)
    requires
        0 <= d2 <= 9,
        0 <= d1 <= 9,
        0 <= d0 <= 9,
        0 <= pos <= toks.len(),
        max > 100,
        toks.subrange(pos, toks.len() as int) == digit_toks(d2, 100) + digit_toks(d1, 10)
            + digit_toks(d0, 1),
        5 <= d2 <= 7 ==> d1 == 0 && d0 == 0,
        d2 == 2 ==> !starts_with_fives(next_nonzero(d1, d0, 0)),
        5 <= d1 <= 7 ==> d0 == 0,
        d1 == 2 ==> !starts_with_fives(d0),
    ensures
        eval_spec(toks, pos, max) == Ok::<int, ParseError>(100 * d2 + 10 * d1 + d0),
{
    let len = toks.len() as int;
    let t2 = digit_toks(d2, 100);
    let t1 = digit_toks(d1, 10);
    let t0 = digit_toks(d0, 1);
    let tail = t1 + t0;
    let q = pos + t2.len();
    assert(len - pos == t2.len() + tail.len()) by {
        assert(toks.subrange(pos, len).len() == (t2 + t1 + t0).len());
    }
    assert forall|i: int| 0 <= i < tail.len() implies (toks.subrange(q, len))[i] == tail[i] by {
        assert((toks.subrange(pos, len))[q - pos + i] == toks[q + i]);
        assert((t2 + t1 + t0)[q - pos + i] == tail[i]);
        assert((toks.subrange(q, len))[i] == toks[q + i]);
    }
    assert(toks.subrange(q, len) =~= tail);
    if d2 == 0 {
        assert(toks.subrange(pos, len) =~= tail);
        lemma_eval_tens(toks, pos, max, d1, d0);
    } else {
        assert forall|i: int| 0 <= i < t2.len() implies (toks.subrange(pos, q))[i] == t2[i] by {
            assert((toks.subrange(pos, len))[i] == toks[pos + i]);
            assert((t2 + t1 + t0)[i] == t2[i]);
            assert((toks.subrange(pos, q))[i] == toks[pos + i]);
        }
        assert(toks.subrange(pos, q) =~= t2);
        if q < len {
            assert(toks[q] == tail[0]) by {
                assert((toks.subrange(q, len))[0] == toks[q + 0]);
            }
            if d1 != 0 {
                assert(tail[0] == t1[0]);
                lemma_digit_toks_lead(d1, 10);
            } else {
                assert(tail[0] == t0[0]);
                lemma_digit_toks_lead(d0, 1);
            }
        }
        lemma_eval_digit(toks, pos, max, d2, 100);
        lemma_eval_tens(toks, q, 100, d1, d0);
    }
}

/// The round trip at the heart of the conversion: the canonical Roman
/// numeral of any value from one to 3999 that the clause grammar accepts
/// converts back to exactly that value.
pub proof fn lemma_canonical_numeral_converts(n: int)
    requires
        1 <= n <= 3999,
        convertible(n),
    ensures
        all_known(roman_chars(n)),
        roman_chars(n).len() > 0,
        convert_spec(roman_chars(n)) == Ok::<int, ParseError>(n),
{
    let d3 = n / 1000;
    let d2 = n % 1000 / 100;
    let d1 = n % 100 / 10;
    let d0 = n % 10;
    assert(0 <= d3 <= 3 && 0 <= d2 <= 9 && 0 <= d1 <= 9 && 0 <= d0 <= 9);
    assert(n == 1000 * d3 + 100 * d2 + 10 * d1 + d0);

    let c3 = digit_chars(d3, 'M', 'M', 'M');
    let c2 = digit_chars(d2, 'C', 'D', 'M');
    let c1 = digit_chars(d1, 'X', 'L', 'C');
    let c0 = digit_chars(d0, 'I', 'V', 'X');
    let t3 = digit_toks(d3, 1000);
    let t2 = digit_toks(d2, 100);
    let t1 = digit_toks(d1, 10);
    let t0 = digit_toks(d0, 1);
    lemma_digit_chars_lex(d3, 'M', 'M', 'M', 1000);
    lemma_digit_chars_lex(d2, 'C', 'D', 'M', 100);
    lemma_digit_chars_lex(d1, 'X', 'L', 'C', 10);
    lemma_digit_chars_lex(d0, 'I', 'V', 'X', 1);
    lemma_lex_concat(c3, c2);
    lemma_lex_concat(c3 + c2, c1);
    lemma_lex_concat(c3 + c2 + c1, c0);

    let s = roman_chars(n);
    assert(s == c3 + c2 + c1 + c0);
    assert(all_known(s));
    let toks = lex_tokens(s);
    assert(toks == t3 + t2 + t1 + t0);
    let len = toks.len() as int;
    assert(len > 0);

    let tail = t2 + t1 + t0;
    let q = t3.len() as int;
    assert forall|i: int| 0 <= i < tail.len() implies (toks.subrange(q, len))[i] == tail[i] by {
        assert((t3 + t2 + t1 + t0)[q + i] == tail[i]);
        assert((toks.subrange(q, len))[i] == toks[q + i]);
    }
    assert(toks.subrange(q, len) =~= tail);
    if d3 == 0 {
        assert(toks.subrange(0, len) =~= tail);
        lemma_eval_hundreds(toks, 0, CEILING_START as int, d2, d1, d0);
    } else {
        assert forall|i: int| 0 <= i < t3.len() implies (toks.subrange(0, q))[i] == t3[i] by {
            assert((t3 + t2 + t1 + t0)[i] == t3[i]);
            assert((toks.subrange(0, q))[i] == toks[i]);
            assert(toks.subrange(0, len)[i] == toks[i]);
        }
        assert(toks.subrange(0, q) =~= t3);
        assert(toks.subrange(0, len) == toks);
        if q < len {
            assert(toks[q] == tail[0]) by {
                assert((toks.subrange(q, len))[0] == toks[q + 0]);
            }
            if d2 != 0 {
                assert(tail[0] == t2[0]);
                lemma_digit_toks_lead(d2, 100);
            } else if d1 != 0 {
                assert(tail[0] == (t1 + t0)[0]);
                assert(tail[0] == t1[0]);
                lemma_digit_toks_lead(d1, 10);
            } else {
                assert(tail[0] == (t1 + t0)[0]);
                assert(tail[0] == t0[0]);
                lemma_digit_toks_lead(d0, 1);
            }
        }
        assert(toks.subrange(0, t3.len() as int) == t3);
        lemma_eval_digit(toks, 0, CEILING_START as int, d3, 1000);
        lemma_eval_hundreds(toks, q, 1000, d2, d1, d0);
    }
}

} // verus!

