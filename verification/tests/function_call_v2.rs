use text_transformer::ast_v2::model::{Expression, FunctionCall, Value};
use text_transformer::tokens::Token;

#[test]
fn test_no_args() {
    let tokens = vec![
        Token::Alphanum("foo".to_string()),
        Token::OpenParen,
        Token::CloseParen,
    ];
    let actual = FunctionCall::parse(&tokens).unwrap();
    let expected = (
        FunctionCall {
            function_name: "foo".to_string(),
            args: vec![],
        },
        &[] as &[Token],
    );
    assert_eq!(actual, expected);
}

#[test]
fn test_one_arg() {
    let tokens = vec![
        Token::Alphanum("foo".to_string()),
        Token::OpenParen,
        Token::Alphanum("42".to_string()),
        Token::CloseParen,
    ];
    let actual = FunctionCall::parse(&tokens).unwrap();
    let expected = (
        FunctionCall {
            function_name: "foo".to_string(),
            args: vec![Expression::Val(Value::LiteralInteger(42))],
        },
        &[] as &[Token],
    );
    assert_eq!(actual, expected);
}

#[test]
fn test_multiple_args() {
    let tokens = vec![
        Token::Alphanum("foo".to_string()),
        Token::OpenParen,
        Token::Alphanum("42".to_string()),
        Token::Comma,
        Token::Alphanum("84".to_string()),
        Token::CloseParen,
    ];
    let actual = FunctionCall::parse(&tokens).unwrap();
    let expected = (
        FunctionCall {
            function_name: "foo".to_string(),
            args: vec![
                Expression::Val(Value::LiteralInteger(42)),
                Expression::Val(Value::LiteralInteger(84)),
            ],
        },
        &[] as &[Token],
    );
    assert_eq!(actual, expected);
}

#[test]
fn test_nested_function_call() {
    let tokens = vec![
        Token::Alphanum("foo".to_string()),
        Token::OpenParen,
        Token::Alphanum("42".to_string()),
        Token::CloseParen,
    ];
    let actual = FunctionCall::parse(&tokens).unwrap();
    let expected = (
        FunctionCall {
            function_name: "foo".to_string(),
            args: vec![Expression::Val(Value::LiteralInteger(42))],
        },
        &[] as &[Token],
    );
    assert_eq!(actual, expected);
}
