use json_lexer::lexer::tokenize;
use json_lexer::token::{LexError, Token};

fn text(x: &str) -> String {
    x.to_string()
}

fn number_value(tok: &Token) -> f64 {
    match tok {
        Token::Number(t) => t.parse::<f64>().expect("an emitted number literal always parses"),
        _ => panic!("expected a number token"),
    }
}

#[test]
fn test_tokenize_empty_object() {
    let expected = vec![Token::OpenObject, Token::CloseObject];
    let result = tokenize("{ }").unwrap();

    assert_eq!(expected, result);
}

#[test]
fn test_tokenize_simple_object() {
    let expected = vec![
        Token::OpenObject,
        Token::String(text("a?")),
        Token::Colon,
        Token::String(text("a")),
        Token::CloseObject,
    ];
    let result = tokenize("{ \"a?\": \"a\" }").unwrap();

    assert_eq!(expected, result);
}

#[test]
fn test_tokenize_unsupported_char() {
    assert_eq!(tokenize("{ \"a\"?: \"a\" }"), Err(LexError::UnsupportedCharacter));
}

#[test]
fn test_tokenize_incomplete_string() {
    assert_eq!(
        tokenize(" { \"ab\": \"thisstringisnotgoingtoend } "),
        Err(LexError::UnexpectedEndOfInput)
    );
}

#[test]
fn test_tokenize_numbers() {
    let cases: [(&str, &str, f64); 9] = [
        ("0 ", "0", 0.0),
        ("1 ", "1", 1.0),
        ("-1 ", "-1", -1.0),
        ("103 ", "103", 103.0),
        ("-108 ", "-108", -108.0),
        ("0.34 ", "0.34", 0.34),
        ("-0.35 ", "-0.35", -0.35),
        ("125.0304 ", "125.0304", 125.0304),
        ("-1205.0304 ", "-1205.0304", -1205.0304),
    ];
    for (input, literal, value) in cases {
        let result = tokenize(input).unwrap();
        assert_eq!(result, vec![Token::Number(text(literal))]);
        assert_eq!(number_value(&result[0]), value);
    }
}

#[test]
fn test_tokenize_multi_field_object_and_whitespaces() {
    let expected = vec![
        Token::OpenObject,
        Token::String(text("field1")),
        Token::Colon,
        Token::String(text("value1")),
        Token::Comma,
        Token::String(text("field2")),
        Token::Colon,
        Token::OpenArray,
        Token::String(text("value2")),
        Token::Comma,
        Token::Number(text("456")),
        Token::Comma,
        Token::String(text("3")),
        Token::CloseArray,
        Token::CloseObject,
    ];
    let result = tokenize(
        "{\n\r\t\"field1\": \t\"value1\",\n\r\t \"field2\": \t[\"value2\", 456, \"3\"]\n\r}",
    )
    .unwrap();

    assert_eq!(expected, result);
    assert_eq!(number_value(&result[10]), 456.0);
}
