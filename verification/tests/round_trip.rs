//! An exhaustive round trip: every value from 1 to 3999 whose canonical
//! numeral the clause grammar accepts converts back to that value, and every
//! other value's canonical numeral is rejected.

use roman::ParseError;
use roman::convert;

/// The canonical Roman numeral of one decimal digit.
fn digit(d: usize, i: char, v: char, x: char) -> String {
    match d {
        1 => format!("{i}"),
        2 => format!("{i}{i}"),
        3 => format!("{i}{i}{i}"),
        4 => format!("{i}{v}"),
        5 => format!("{v}"),
        6 => format!("{v}{i}"),
        7 => format!("{v}{i}{i}"),
        8 => format!("{v}{i}{i}{i}"),
        9 => format!("{i}{x}"),
        _ => String::new(),
    }
}

/// The canonical Roman numeral of `n`, for 1 <= n <= 3999.
fn roman_of(n: usize) -> String {
    let mut s = String::new();
    s.push_str(&digit(n / 1000, 'M', ' ', ' '));
    s.push_str(&digit(n % 1000 / 100, 'C', 'D', 'M'));
    s.push_str(&digit(n % 100 / 10, 'X', 'L', 'C'));
    s.push_str(&digit(n % 10, 'I', 'V', 'X'));
    s
}

fn starts_with_fives(d: usize) -> bool {
    (5..=8).contains(&d)
}

fn next_nonzero(a: usize, b: usize, c: usize) -> usize {
    if a != 0 {
        a
    } else if b != 0 {
        b
    } else {
        c
    }
}

/// Whether the grammar accepts the canonical numeral of `n`: a digit five,
/// six or seven must close the numeral, and a digit two must not be followed
/// next by a group that begins with a fives-digit.
fn convertible(n: usize) -> bool {
    let d3 = n / 1000;
    let d2 = n % 1000 / 100;
    let d1 = n % 100 / 10;
    let d0 = n % 10;
    (!(5..=7).contains(&d3) || (d2 == 0 && d1 == 0 && d0 == 0))
        && (!(5..=7).contains(&d2) || (d1 == 0 && d0 == 0))
        && (!(5..=7).contains(&d1) || d0 == 0)
        && (d3 != 2 || !starts_with_fives(next_nonzero(d2, d1, d0)))
        && (d2 != 2 || !starts_with_fives(next_nonzero(d1, d0, 0)))
        && (d1 != 2 || !starts_with_fives(d0))
}

#[test]
fn canonical_numerals_round_trip() {
    let mut accepted = 0;
    for n in 1..=3999usize {
        let numeral = roman_of(n);
        if convertible(n) {
            assert_eq!(Ok(n), convert(&numeral), "numeral {numeral}");
            accepted += 1;
        } else {
            assert_eq!(
                Err(ParseError::IllegalAlignment),
                convert(&numeral),
                "numeral {numeral}"
            );
        }
    }
    assert!(accepted > 1000);
}
