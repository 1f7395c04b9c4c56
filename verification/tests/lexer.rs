use arith_lexer::chars::{is_not_decimal_digit, is_not_white_space};
use arith_lexer::lexer::Lexer;
use arith_lexer::number::parse_decimal;
use arith_lexer::token_type::{LexError, TokenType};

fn tokens(source: &str) -> Vec<Result<TokenType, LexError>> {
    let mut lexer = Lexer::new(source);
    let mut out = Vec::new();
    loop {
        let token = lexer.next_token();
        out.push(token);
        if token == Ok(TokenType::Eof) {
            return out;
        }
    }
}

#[test]
fn lex_expressions() {
    let source = "1 + 1\n1 - 2\n101 * 2101\n1 / 2\n(1 + 2) * 2";

    let mut lexer = Lexer::new(source);
    assert_eq!(lexer.next_token(), Ok(TokenType::Integer(1)));
    assert_eq!(lexer.next_token(), Ok(TokenType::Plus));
    assert_eq!(lexer.next_token(), Ok(TokenType::Integer(1)));

    assert_eq!(lexer.next_token(), Ok(TokenType::Integer(1)));
    assert_eq!(lexer.next_token(), Ok(TokenType::Minus));
    assert_eq!(lexer.next_token(), Ok(TokenType::Integer(2)));

    assert_eq!(lexer.next_token(), Ok(TokenType::Integer(101)));
    assert_eq!(lexer.next_token(), Ok(TokenType::Asterisk));
    assert_eq!(lexer.next_token(), Ok(TokenType::Integer(2101)));

    assert_eq!(lexer.next_token(), Ok(TokenType::Integer(1)));
    assert_eq!(lexer.next_token(), Ok(TokenType::Slash));
    assert_eq!(lexer.next_token(), Ok(TokenType::Integer(2)));

    assert_eq!(lexer.next_token(), Ok(TokenType::LParen));
    assert_eq!(lexer.next_token(), Ok(TokenType::Integer(1)));
    assert_eq!(lexer.next_token(), Ok(TokenType::Plus));
    assert_eq!(lexer.next_token(), Ok(TokenType::Integer(2)));
    assert_eq!(lexer.next_token(), Ok(TokenType::RParen));
    assert_eq!(lexer.next_token(), Ok(TokenType::Asterisk));
    assert_eq!(lexer.next_token(), Ok(TokenType::Integer(2)));
}

#[test]
fn composite_expressions_end_with_eof() {
    let source = "1 + 1\n1 - 2\n101 * 2101\n1 / 2\n(1 + 2) * 2";
    assert_eq!(
        tokens(source),
        vec![
            Ok(TokenType::Integer(1)),
            Ok(TokenType::Plus),
            Ok(TokenType::Integer(1)),
            Ok(TokenType::Integer(1)),
            Ok(TokenType::Minus),
            Ok(TokenType::Integer(2)),
            Ok(TokenType::Integer(101)),
            Ok(TokenType::Asterisk),
            Ok(TokenType::Integer(2101)),
            Ok(TokenType::Integer(1)),
            Ok(TokenType::Slash),
            Ok(TokenType::Integer(2)),
            Ok(TokenType::LParen),
            Ok(TokenType::Integer(1)),
            Ok(TokenType::Plus),
            Ok(TokenType::Integer(2)),
            Ok(TokenType::RParen),
            Ok(TokenType::Asterisk),
            Ok(TokenType::Integer(2)),
            Ok(TokenType::Eof),
        ]
    );
}

#[test]
fn eof_repeats_after_the_end() {
    for source in ["", "   ", "1", "1 + 2", "(", "12 )  \n"] {
        let mut lexer = Lexer::new(source);
        while lexer.next_token() != Ok(TokenType::Eof) {}
        for _ in 0..5 {
            assert_eq!(lexer.next_token(), Ok(TokenType::Eof));
            assert_eq!(lexer.ch(), None);
        }
    }
}

#[test]
fn unknown_character_ends_the_stream() {
    let mut lexer = Lexer::new("1 @ 2");
    assert_eq!(lexer.next_token(), Ok(TokenType::Integer(1)));
    assert_eq!(lexer.next_token(), Ok(TokenType::Eof));
    assert_eq!(lexer.ch(), Some('@'));
    assert_eq!(lexer.next_token(), Ok(TokenType::Eof));
    assert_eq!(lexer.next_token(), Ok(TokenType::Eof));
    assert_eq!(lexer.ch(), Some('@'));

    assert_eq!(tokens("x+1"), vec![Ok(TokenType::Eof)]);
    assert_eq!(tokens("+ 1.5"), vec![
        Ok(TokenType::Plus),
        Ok(TokenType::Integer(1)),
        Ok(TokenType::Eof),
    ]);
}

#[test]
fn white_space_does_not_change_the_tokens() {
    let expected = vec![
        Ok(TokenType::Integer(1)),
        Ok(TokenType::Plus),
        Ok(TokenType::Integer(1)),
        Ok(TokenType::Eof),
    ];
    assert_eq!(tokens("1+1"), expected);
    assert_eq!(tokens("1 + 1"), expected);
    assert_eq!(tokens("1\n+\t1"), expected);
    assert_eq!(tokens("  \r\n 1+1"), expected);
    assert_eq!(tokens("1+1 \t "), expected);
}

#[test]
fn unicode_white_space_is_skipped() {
    let expected = vec![
        Ok(TokenType::Integer(1)),
        Ok(TokenType::Plus),
        Ok(TokenType::Integer(2)),
        Ok(TokenType::Eof),
    ];
    assert_eq!(tokens("\u{a0}1\u{3000}+\u{2003}\u{2028}2\u{85}"), expected);
    assert!(!is_not_white_space(' '));
    assert!(!is_not_white_space('\n'));
    assert!(!is_not_white_space('\u{a0}'));
    assert!(is_not_white_space('1'));
    assert!(is_not_white_space('+'));
    assert!(is_not_white_space('\u{8d8a}'));
}

#[test]
fn digit_run_is_one_integer() {
    assert_eq!(tokens("101"), vec![Ok(TokenType::Integer(101)), Ok(TokenType::Eof)]);
    assert_eq!(tokens("007"), vec![Ok(TokenType::Integer(7)), Ok(TokenType::Eof)]);
    assert_eq!(tokens("0"), vec![Ok(TokenType::Integer(0)), Ok(TokenType::Eof)]);
    assert_eq!(
        tokens("10 1"),
        vec![Ok(TokenType::Integer(10)), Ok(TokenType::Integer(1)), Ok(TokenType::Eof)]
    );
}

#[test]
fn digits_of_other_scripts_are_no_digits() {
    assert_eq!(tokens("\u{663}"), vec![Ok(TokenType::Eof)]);
    assert_eq!(tokens("1\u{663}"), vec![Ok(TokenType::Integer(1)), Ok(TokenType::Eof)]);
    assert!(is_not_decimal_digit('\u{663}'));
    assert!(is_not_decimal_digit('/'));
    assert!(is_not_decimal_digit(':'));
    assert!(!is_not_decimal_digit('0'));
    assert!(!is_not_decimal_digit('9'));
}

#[test]
fn operators_without_white_space() {
    assert_eq!(
        tokens("+-*/()"),
        vec![
            Ok(TokenType::Plus),
            Ok(TokenType::Minus),
            Ok(TokenType::Asterisk),
            Ok(TokenType::Slash),
            Ok(TokenType::LParen),
            Ok(TokenType::RParen),
            Ok(TokenType::Eof),
        ]
    );
}

#[test]
fn empty_input_is_eof_at_once() {
    let mut lexer = Lexer::new("");
    assert_eq!(lexer.ch(), None);
    assert_eq!(lexer.next_token(), Ok(TokenType::Eof));
    assert_eq!(tokens(""), vec![Ok(TokenType::Eof)]);
}

#[test]
fn blank_text_is_eof_at_once() {
    for source in [" ", "\t\n", " \r\n \u{2029}\u{a0}"] {
        let mut lexer = Lexer::new(source);
        assert_eq!(lexer.next_token(), Ok(TokenType::Eof));
        assert_eq!(lexer.ch(), None);
    }
}

#[test]
fn overflow_is_reported() {
    let mut lexer = Lexer::new("99999999999999999999");
    assert_eq!(lexer.next_token(), Err(LexError::NumericOverflow));
    assert_eq!(lexer.next_token(), Ok(TokenType::Eof));
}

#[test]
fn overflow_boundary() {
    assert_eq!(
        tokens("9223372036854775807"),
        vec![Ok(TokenType::Integer(i64::MAX)), Ok(TokenType::Eof)]
    );
    assert_eq!(
        tokens("9223372036854775808"),
        vec![Err(LexError::NumericOverflow), Ok(TokenType::Eof)]
    );
    assert_eq!(
        tokens("000000000000000000000000000000123"),
        vec![Ok(TokenType::Integer(123)), Ok(TokenType::Eof)]
    );
}

#[test]
fn overflowing_run_is_consumed() {
    assert_eq!(
        tokens("1 + 18446744073709551616 * 2"),
        vec![
            Ok(TokenType::Integer(1)),
            Ok(TokenType::Plus),
            Err(LexError::NumericOverflow),
            Ok(TokenType::Asterisk),
            Ok(TokenType::Integer(2)),
            Ok(TokenType::Eof),
        ]
    );
}

#[test]
fn cursor_after_integer_and_after_symbol() {
    let mut lexer = Lexer::new(" 12  +  3");
    assert_eq!(lexer.ch(), Some(' '));
    assert_eq!(lexer.next_token(), Ok(TokenType::Integer(12)));
    assert_eq!(lexer.ch(), Some(' '));
    assert_eq!(lexer.next_token(), Ok(TokenType::Plus));
    assert_eq!(lexer.ch(), Some('3'));
    assert_eq!(lexer.next_token(), Ok(TokenType::Integer(3)));
    assert_eq!(lexer.ch(), None);
}

#[test]
fn advance_char_and_next_char() {
    let mut lexer = Lexer::new("ab");
    assert_eq!(lexer.ch(), Some('a'));
    lexer.advance_char();
    assert_eq!(lexer.ch(), Some('b'));
    assert_eq!(lexer.next_char(), None);
    assert_eq!(lexer.ch(), None);
    lexer.advance_char();
    assert_eq!(lexer.next_char(), None);
}

#[test]
fn advance_ch_until_stops_at_the_lookahead() {
    let mut lexer = Lexer::new("aab");
    lexer.advance_ch_until(|c| c == 'a');
    assert_eq!(lexer.ch(), Some('a'));
    lexer.advance_ch_until(|c| c == 'b');
    assert_eq!(lexer.ch(), Some('b'));
    lexer.advance_ch_until(|c| c == 'z');
    assert_eq!(lexer.ch(), None);
}

#[test]
fn advance_next_char_until_moves_first() {
    let mut lexer = Lexer::new("aab");
    lexer.advance_next_char_until(|c| c == 'a');
    assert_eq!(lexer.ch(), Some('a'));
    lexer.advance_next_char_until(|c| c == 'a');
    assert_eq!(lexer.ch(), None);
}

#[test]
fn read_chars_until_keeps_the_lookahead() {
    let mut lexer = Lexer::new("xabx");
    let string = lexer.read_chars_until(|c| c == 'x');
    assert_eq!(string, vec!['x', 'a', 'b']);
    assert_eq!(lexer.ch(), Some('x'));
    let string = lexer.read_chars_until(|c| c == 'x');
    assert_eq!(string, vec!['x']);
    assert_eq!(lexer.ch(), None);
}

#[test]
fn read_integer_leaves_white_space() {
    let mut lexer = Lexer::new("2101 \n");
    assert_eq!(lexer.read_integer(), Ok(TokenType::Integer(2101)));
    assert_eq!(lexer.ch(), Some(' '));
}

#[test]
fn parse_decimal_values() {
    assert_eq!(parse_decimal(&vec![]), Some(0));
    assert_eq!(parse_decimal(&vec!['4', '2']), Some(42));
    assert_eq!(parse_decimal(&"9223372036854775807".chars().collect()), Some(i64::MAX));
    assert_eq!(parse_decimal(&"9223372036854775808".chars().collect()), None);
    assert_eq!(parse_decimal(&"92233720368547758070".chars().collect()), None);
}
