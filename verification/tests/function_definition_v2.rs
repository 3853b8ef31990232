use text_transformer::ast_v2::model::{FunctionDefinition, Statement};
use text_transformer::tokens::Token;

#[test]
fn parse_no_args() {
    let tokens = vec![
        Token::Alphanum("fn".to_string()),
        Token::Alphanum("foo".to_string()),
        Token::OpenParen,
        Token::CloseParen,
        Token::OpenBrace,
        Token::CloseBrace,
    ];
    let expected = FunctionDefinition {
        function_name: "foo".to_string(),
        arguments: Vec::new(),
        body: Vec::new(),
    };
    let (actual, remaining_tokens) = FunctionDefinition::parse(&tokens).unwrap();
    assert!(remaining_tokens.is_empty());
    assert_eq!(actual, expected);
}

#[test]
fn parse_one_arg() {
    let tokens = vec![
        Token::Alphanum("fn".to_string()),
        Token::Alphanum("foo".to_string()),
        Token::OpenParen,
        Token::Alphanum("bar".to_string()),
        Token::CloseParen,
        Token::OpenBrace,
        Token::CloseBrace,
    ];
    let expected = FunctionDefinition {
        function_name: "foo".to_string(),
        arguments: vec!["bar".to_string()],
        body: Vec::new(),
    };
    let (actual, remaining_tokens) = FunctionDefinition::parse(&tokens).unwrap();
    assert!(remaining_tokens.is_empty());
    assert_eq!(actual, expected);
}

#[test]
fn parse_multiple_args() {
    let tokens = vec![
        Token::Alphanum("fn".to_string()),
        Token::Alphanum("foo".to_string()),
        Token::OpenParen,
        Token::Alphanum("bar".to_string()),
        Token::Alphanum("baz".to_string()),
        Token::CloseParen,
        Token::OpenBrace,
        Token::CloseBrace,
    ];
    let expected = FunctionDefinition {
        function_name: "foo".to_string(),
        arguments: vec!["bar".to_string(), "baz".to_string()],
        body: Vec::new(),
    };
    let (actual, remaining_tokens) = FunctionDefinition::parse(&tokens).unwrap();
    assert!(remaining_tokens.is_empty());
    assert_eq!(actual, expected);
}

#[test]
fn parse_nested() {
    // fn foo() { fn bar() {} }
    let tokens = vec![
        Token::Alphanum("fn".to_string()),
        Token::Alphanum("foo".to_string()),
        Token::OpenParen,
        Token::CloseParen,
        Token::OpenBrace,
        Token::Alphanum("fn".to_string()),
        Token::Alphanum("bar".to_string()),
        Token::OpenParen,
        Token::CloseParen,
        Token::OpenBrace,
        Token::CloseBrace,
        Token::CloseBrace,
    ];
    let expected = FunctionDefinition {
        function_name: "foo".to_string(),
        arguments: Vec::new(),
        body: vec![Statement::Fd(FunctionDefinition {
            function_name: "bar".to_string(),
            arguments: Vec::new(),
            body: Vec::new(),
        })],
    };
    let (actual, remaining_tokens) = FunctionDefinition::parse(&tokens).unwrap();
    assert!(remaining_tokens.is_empty());
    assert_eq!(actual, expected);
}
