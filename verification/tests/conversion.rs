use roman::Parser;
use roman::ParseError;
use roman::Token;
use roman::convert;
use roman::parse;

#[test]
fn test1() {
    assert_eq!(3999, parse("MMMCMXCIX"))
}

#[test]
fn test2() {
    assert_eq!(12, parse("XII"))
}

#[test]
fn test3() {
    assert_eq!(42, parse("XLII"))
}

#[test]
fn test4() {
    assert_eq!(49, parse("XLIX"))
}

#[test]
fn test5() {
    assert_eq!(89, parse("LXXXIX"))
}

#[test]
fn test6() {
    assert_eq!(299, parse("CCXCIX"))
}

#[test]
fn test7() {
    assert_eq!(493, parse("CDXCIII"))
}

#[test]
fn test8() {
    assert_eq!(1960, parse("MCMLX"))
}

#[test]
fn test9() {
    assert_eq!(2018, parse("MMXVIII"))
}

#[test]
fn convert_reports_values() {
    assert_eq!(Ok(1), convert("I"));
    assert_eq!(Ok(4), convert("IV"));
    assert_eq!(Ok(9), convert("IX"));
    assert_eq!(Ok(15), convert("XV"));
    assert_eq!(Ok(35), convert("XXXV"));
    assert_eq!(Ok(81), convert("LXXXI"));
    assert_eq!(Ok(888), convert("DCCCLXXXVIII"));
    assert_eq!(Ok(3000), convert("MMM"));
    assert_eq!(Ok(3999), convert("MMMCMXCIX"));
}

#[test]
fn unknown_character_is_rejected() {
    assert_eq!(Err(ParseError::UnknownCharacter), convert("MCMZ"));
    assert_eq!(Err(ParseError::UnknownCharacter), convert("i"));
    assert_eq!(Err(ParseError::UnknownCharacter), convert("X I"));
}

#[test]
fn empty_input_is_rejected() {
    assert_eq!(Err(ParseError::NoInput), convert(""));
}

#[test]
fn four_identical_ones_digits_are_rejected() {
    assert_eq!(Err(ParseError::IllegalAlignment), convert("IIII"));
    assert_eq!(Err(ParseError::IllegalAlignment), convert("XXXX"));
    assert_eq!(Err(ParseError::IllegalAlignment), convert("MMMM"));
    assert_eq!(Err(ParseError::IllegalAlignment), convert("VIIII"));
    assert_eq!(Err(ParseError::IllegalAlignment), convert("XIIII"));
}

#[test]
fn non_adjacent_subtractive_steps_are_rejected() {
    assert_eq!(Err(ParseError::IllegalAlignment), convert("IC"));
    assert_eq!(Err(ParseError::IllegalAlignment), convert("IM"));
    assert_eq!(Err(ParseError::IllegalAlignment), convert("XM"));
    assert_eq!(Err(ParseError::IllegalAlignment), convert("IL"));
}

#[test]
fn ascending_magnitude_is_rejected() {
    assert_eq!(Err(ParseError::IllegalAlignment), convert("VX"));
    assert_eq!(Err(ParseError::IllegalAlignment), convert("IXI"));
    assert_eq!(Err(ParseError::IllegalAlignment), convert("XCC"));
}

#[test]
fn fives_digit_followed_by_lower_order_is_rejected() {
    // The grammar demands that a digit following a fives-digit be a
    // ones-digit of the very same order.
    assert_eq!(Err(ParseError::IllegalAlignment), convert("LXI"));
    assert_eq!(Err(ParseError::IllegalAlignment), convert("VIX"));
}

#[test]
fn lexing_is_idempotent() {
    let mut first = Parser::new("MMXVIII".to_string());
    let mut second = Parser::new("MMXVIII".to_string());
    assert!(first.lex().is_ok());
    assert!(second.lex().is_ok());
    assert_eq!(first.toks, second.toks);
}

#[test]
fn lexing_maps_each_character() {
    let mut p = Parser::new("IVXLCDM".to_string());
    assert!(p.lex().is_ok());
    assert_eq!(
        p.toks,
        vec![
            Token::One(1),
            Token::Five(1),
            Token::One(10),
            Token::Five(10),
            Token::One(100),
            Token::Five(100),
            Token::One(1000),
        ]
    );
}

#[test]
fn clause_steps_accumulate_the_total() {
    let mut p = Parser::new("MCMLX".to_string());
    assert!(p.lex().is_ok());
    assert_eq!(Ok(1000), p.parse());
    assert_eq!(Ok(1900), p.parse());
    assert_eq!(Ok(1960), p.parse());
    assert_eq!(p.pos, 5);
}

#[test]
fn parse_one_and_parse_five_consume_single_tokens() {
    let mut p = Parser::new("IV".to_string());
    assert!(p.lex().is_ok());
    assert_eq!(Ok((1, 1)), p.parse_one());
    assert_eq!(Ok((5, 1)), p.parse_five());
    assert_eq!(Err(ParseError::NoInput), p.parse_one());

    let mut q = Parser::new("VI".to_string());
    assert!(q.lex().is_ok());
    assert_eq!(Err(ParseError::IllegalAlignment), q.parse_one());
    assert_eq!(Ok((5, 1)), q.parse_five());
    assert_eq!(Err(ParseError::IllegalAlignment), q.parse_five());
}
