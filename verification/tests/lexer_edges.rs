use aritexpr::expression::parser::ParseExpressionErrorKind::TokenParseError;
use aritexpr::expression::parser::ParseExpressionError;
use aritexpr::report::{caret_column, token_list};
use aritexpr::token::intring::IntRingToken::{
    DecimalInteger, DivisionSign, LeftParenthesis, MinusSign, Modulo, MultiplicationSign, PlusSign,
    RightParenthesis,
};
use aritexpr::token::intring::{IntRingToken, IntRingTokenParser};
use aritexpr::token::{CharCursor, Token, TokenError, TokenIterator, TokenParser, TokenWithPos};

fn tokens_of(source: &str) -> Result<Vec<TokenWithPos<IntRingToken>>, TokenError> {
    TokenIterator::new(source, IntRingTokenParser::new()).collect()
}

fn invalid_at(position: usize) -> TokenError {
    TokenError { message: "Invalid token".to_string(), position }
}

#[test]
fn collect_all_tokens() {
    assert_eq!(
        Ok(vec![
            TokenWithPos { token: LeftParenthesis, position: 1 },
            TokenWithPos { token: DecimalInteger(12), position: 2 },
            TokenWithPos { token: MinusSign, position: 5 },
            TokenWithPos { token: DecimalInteger(3), position: 6 },
            TokenWithPos { token: RightParenthesis, position: 7 },
        ]),
        tokens_of(" (12 -3) ")
    );
    assert_eq!(Ok(vec![]), tokens_of(""));
    assert_eq!(Ok(vec![]), tokens_of(" \t\r\n"));
}

#[test]
fn collect_stops_at_the_first_failure() {
    assert_eq!(Err(invalid_at(2)), tokens_of("1 x y"));
}

#[test]
fn nothing_follows_a_failure() {
    let mut iter = TokenIterator::new("5 ? 7", IntRingTokenParser::new());

    assert_eq!(Some(Ok(TokenWithPos { token: DecimalInteger(5), position: 0 })), iter.next());
    assert_eq!(Some(Err(invalid_at(2))), iter.next());
    assert_eq!(None, iter.next());
    assert_eq!(None, iter.next());
}

#[test]
fn incomplete_modulo() {
    assert_eq!(Err(invalid_at(0)), tokens_of("m"));
    assert_eq!(Err(invalid_at(0)), tokens_of("mo"));
    assert_eq!(Err(invalid_at(2)), tokens_of("5 mo d"));
    assert_eq!(Err(invalid_at(0)), tokens_of("mid"));
    assert_eq!(Err(invalid_at(0)), tokens_of("moe"));
}

#[test]
fn modulo_needs_no_space_around() {
    assert_eq!(
        Ok(vec![
            TokenWithPos { token: DecimalInteger(5), position: 0 },
            TokenWithPos { token: Modulo, position: 1 },
            TokenWithPos { token: Modulo, position: 4 },
            TokenWithPos { token: DecimalInteger(7), position: 7 },
        ]),
        tokens_of("5modmod7")
    );
}

#[test]
fn digits_end_at_the_first_other_character() {
    assert_eq!(
        Ok(vec![
            TokenWithPos { token: DecimalInteger(12), position: 0 },
            TokenWithPos { token: PlusSign, position: 2 },
            TokenWithPos { token: DecimalInteger(34), position: 3 },
            TokenWithPos { token: MultiplicationSign, position: 5 },
            TokenWithPos { token: DivisionSign, position: 6 },
        ]),
        tokens_of("12+34*/")
    );
    assert_eq!(Err(invalid_at(2)), tokens_of("12a"));
}

#[test]
fn only_ascii_digits_are_digits() {
    assert_eq!(Err(invalid_at(0)), tokens_of("\u{0663}"));
    assert_eq!(Err(invalid_at(2)), tokens_of("12\u{00B2}"));
}

#[test]
fn leading_zeros() {
    assert_eq!(Ok(vec![TokenWithPos { token: DecimalInteger(7), position: 0 }]), tokens_of("007"));
    assert_eq!(
        Ok(vec![TokenWithPos { token: DecimalInteger(1), position: 0 }]),
        tokens_of("000000000000000000000000000001")
    );
    assert_eq!(Ok(vec![TokenWithPos { token: DecimalInteger(0), position: 0 }]), tokens_of("0"));
}

#[test]
fn largest_literal() {
    assert_eq!(
        Ok(vec![TokenWithPos { token: DecimalInteger(i64::MAX), position: 0 }]),
        tokens_of("9223372036854775807")
    );
    assert_eq!(
        Err(TokenError { message: "Decimal number too big".to_string(), position: 0 }),
        tokens_of("9223372036854775808")
    );
    assert_eq!(
        Err(TokenError { message: "Decimal number too big".to_string(), position: 3 }),
        tokens_of("1 +92233720368547758070 + 2")
    );
}

#[test]
fn positions_count_characters() {
    assert_eq!(
        Ok(vec![
            TokenWithPos { token: DecimalInteger(5), position: 2 },
            TokenWithPos { token: PlusSign, position: 4 },
        ]),
        tokens_of("\u{3000}\u{00A0}5\u{2003}+\u{2028}")
    );
    assert_eq!(Err(invalid_at(1)), tokens_of("\u{3000}\u{200B}"));
}

#[test]
fn every_white_space_character_is_skipped() {
    let white: [char; 25] = [
        '\u{9}', '\u{A}', '\u{B}', '\u{C}', '\u{D}', ' ', '\u{85}', '\u{A0}', '\u{1680}',
        '\u{2000}', '\u{2001}', '\u{2002}', '\u{2003}', '\u{2004}', '\u{2005}', '\u{2006}',
        '\u{2007}', '\u{2008}', '\u{2009}', '\u{200A}', '\u{2028}', '\u{2029}', '\u{202F}',
        '\u{205F}', '\u{3000}',
    ];
    for c in white {
        assert!(c.is_whitespace());
        assert!(aritexpr::token::whitespace(c));
    }
    let source: String = white.iter().collect();
    assert_eq!(Ok(vec![]), tokens_of(&source));
}

#[test]
fn white_space_is_what_the_standard_library_says() {
    for code in 0u32..0x11_0000 {
        if let Some(c) = char::from_u32(code) {
            assert_eq!(c.is_whitespace(), aritexpr::token::whitespace(c), "U+{:X}", code);
        }
    }
}

#[test]
fn cursor_reads_characters_in_order() {
    let mut cursor = CharCursor::new("a\u{00E9}");

    assert_eq!(Some((0, 'a')), cursor.peek());
    assert_eq!(Some((0, 'a')), cursor.next());
    assert_eq!(Some((1, '\u{00E9}')), cursor.peek());
    assert_eq!(Some((1, '\u{00E9}')), cursor.next());
    assert_eq!(None, cursor.peek());
    assert_eq!(None, cursor.next());
    assert_eq!(None, cursor.next());
}

#[test]
fn parser_reads_one_token_at_the_cursor() {
    let mut cursor = CharCursor::new("12)");
    let parser = IntRingTokenParser::new();

    assert_eq!(Ok(DecimalInteger(12)), parser.read_next_token(&mut cursor));
    assert_eq!(Some((2, ')')), cursor.peek());
    assert_eq!(Ok(RightParenthesis), parser.read_next_token(&mut cursor));
    assert_eq!(None, cursor.peek());
}

#[test]
fn token_texts() {
    assert_eq!("(", LeftParenthesis.to_string());
    assert_eq!(")", RightParenthesis.to_string());
    assert_eq!("+", PlusSign.to_string());
    assert_eq!("-", MinusSign.to_string());
    assert_eq!("*", MultiplicationSign.to_string());
    assert_eq!("/", DivisionSign.to_string());
    assert_eq!("123", DecimalInteger(123).to_string());
    assert_eq!("-123", DecimalInteger(-123).to_string());
    assert_eq!("mod", Modulo.to_string());
}

#[test]
fn token_list_puts_one_space_between_tokens() {
    let tokens = tokens_of("  ( 12+3 )mod   7").expect("ok");

    assert_eq!("( 12 + 3 ) mod 7", token_list(&tokens));
    assert_eq!("", token_list(&Vec::new()));
    assert_eq!("12", token_list(&tokens_of(" 12 ").expect("ok")));
}

#[test]
fn caret_stands_under_the_position() {
    assert_eq!(18, caret_column("Invalid token", 2));
    assert_eq!(3, caret_column("", 0));
}

#[test]
fn failure_texts_name_the_position() {
    assert_eq!(
        "Unparseable input at position 12: Invalid token",
        invalid_at(12).to_string()
    );
    let err = ParseExpressionError::from(invalid_at(0));
    assert_eq!(
        ParseExpressionError {
            message: "Invalid token".to_string(),
            position: 0,
            kind: TokenParseError
        },
        err
    );
    assert_eq!("Error parsing expression at position 0: Invalid token", err.to_string());
}
