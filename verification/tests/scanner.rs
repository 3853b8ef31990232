use text_transformer::tokens::{scan, Token};

#[test]
fn test_one_statement() {
    let source_code = String::from("print(_[2]);");
    let expected = vec![
        Token::Alphanum(String::from("print")),
        Token::OpenParen,
        Token::Underscore,
        Token::OpenBracket,
        Token::Alphanum(String::from("2")),
        Token::CloseBracket,
        Token::CloseParen,
        Token::Semicolon,
    ];
    let actual = scan(&source_code).unwrap();
    assert_eq!(actual, expected);
}

#[test]
fn test_superfluous_ws() {
    let source_code = String::from("print   (_);");
    let expected = vec![
        Token::Alphanum(String::from("print")),
        Token::OpenParen,
        Token::Underscore,
        Token::CloseParen,
        Token::Semicolon,
    ];
    let actual = scan(&source_code).unwrap();
    assert_eq!(actual, expected);
}

#[test]
fn test_underscore_identifier() {
    let source_code = String::from("foo_bar");
    let expected = vec![Token::Alphanum(String::from("foo_bar"))];
    let actual = scan(&source_code).unwrap();
    assert_eq!(actual, expected);
}
