use json_lexer::lexer::tokenize;
use json_lexer::token::{LexError, Token};

fn text(x: &str) -> String {
    x.to_string()
}

#[test]
fn empty_input_yields_no_tokens() {
    assert_eq!(tokenize(""), Ok(vec![]));
}

#[test]
fn whitespace_only_input_yields_no_tokens() {
    assert_eq!(tokenize(" \t\r\n \n"), Ok(vec![]));
}

#[test]
fn quoted_text_is_one_string_token() {
    assert_eq!(
        tokenize("\"hello world\""),
        Ok(vec![Token::String(text("hello world"))])
    );
}

#[test]
fn string_keeps_unusual_characters_verbatim() {
    assert_eq!(
        tokenize("\"a\\n{}[]:, 1e5\""),
        Ok(vec![Token::String(text("a\\n{}[]:, 1e5"))])
    );
}

#[test]
fn whitespace_between_tokens_changes_nothing() {
    let compact = tokenize("[1, 2]").unwrap();
    let spaced = tokenize(" [ \t1 ,\r\n 2 ] ").unwrap();
    assert_eq!(compact, spaced);
    assert_eq!(
        compact,
        vec![
            Token::OpenArray,
            Token::Number(text("1")),
            Token::Comma,
            Token::Number(text("2")),
            Token::CloseArray,
        ]
    );
}

#[test]
fn number_ends_at_first_foreign_character() {
    assert_eq!(
        tokenize("5,"),
        Ok(vec![Token::Number(text("5")), Token::Comma])
    );
}

#[test]
fn adjacent_zeros_are_two_number_tokens() {
    // A leading zero ends the literal at once, so `00` is scanned as two
    // back-to-back zeros rather than rejected.
    assert_eq!(
        tokenize("00 "),
        Ok(vec![Token::Number(text("0")), Token::Number(text("0"))])
    );
}

#[test]
fn fraction_digits_may_be_absent() {
    let result = tokenize("0. ").unwrap();
    assert_eq!(result, vec![Token::Number(text("0."))]);
    match &result[0] {
        Token::Number(t) => assert_eq!(t.parse::<f64>().unwrap(), 0.0),
        _ => panic!("expected a number token"),
    }
}

#[test]
fn lone_minus_is_truncated_input() {
    assert_eq!(tokenize("-"), Err(LexError::UnexpectedEndOfInput));
}

#[test]
fn unterminated_string_is_truncated_input() {
    assert_eq!(tokenize("\"abc"), Err(LexError::UnexpectedEndOfInput));
}

#[test]
fn number_at_end_of_input_is_truncated() {
    assert_eq!(tokenize("103"), Err(LexError::UnexpectedEndOfInput));
}

#[test]
fn minus_without_digit_is_invalid_number() {
    assert_eq!(tokenize("-a"), Err(LexError::InvalidNumberLiteral));
    assert_eq!(tokenize("- 1"), Err(LexError::InvalidNumberLiteral));
}

#[test]
fn exponent_notation_is_unsupported() {
    assert_eq!(tokenize("1e5"), Err(LexError::UnsupportedNumberFormat));
    assert_eq!(tokenize("0e1"), Err(LexError::UnsupportedNumberFormat));
    assert_eq!(tokenize("1.2E3"), Err(LexError::UnsupportedNumberFormat));
}

#[test]
fn stray_character_is_unsupported() {
    assert_eq!(tokenize("?"), Err(LexError::UnsupportedCharacter));
    assert_eq!(tokenize("{\"a\"?: \"a\"}"), Err(LexError::UnsupportedCharacter));
}

#[test]
fn retokenizing_printed_tokens_reproduces_them() {
    let original = tokenize("{ \"a\" : [ ] , \"b\" }").unwrap();
    // The concatenation of the tokens' literal forms, written out.
    let printed = "{\"a\":[],\"b\"}";
    assert_eq!(tokenize(printed).unwrap(), original);
}
