use text_transformer::ast::{parse, ArrExpr, Expr, FunctionCall, Statement, Value, AST};
use text_transformer::tokens::Token;

#[test]
fn parse_function_expr() {
    // foo(_)
    let tokens = vec![
        Token::Alphanum(String::from("foo")),
        Token::OpenParen,
        Token::Underscore,
        Token::CloseParen,
    ];
    let expected = AST {
        statements: vec![Statement::FunctionCall {
            function_call: FunctionCall {
                function_name: String::from("foo"),
                args: vec![Expr {
                    arr_expr: ArrExpr::ValueExpr { value: Value::Item },
                    index: None,
                }],
            },
        }],
    };
    let actual = parse(tokens).unwrap();
    assert_eq!(actual, expected);
}

#[test]
fn parse_with_array() {
    // foo(_[1])
    let tokens = vec![
        Token::Alphanum(String::from("foo")),
        Token::OpenParen,
        Token::Underscore,
        Token::OpenBracket,
        Token::Alphanum(String::from("1")),
        Token::CloseBracket,
        Token::CloseParen,
    ];
    let expected = AST {
        statements: vec![Statement::FunctionCall {
            function_call: FunctionCall {
                function_name: String::from("foo"),
                args: vec![Expr {
                    arr_expr: ArrExpr::ValueExpr { value: Value::Item },
                    index: Some(1),
                }],
            },
        }],
    };
    let actual = parse(tokens).unwrap();
    assert_eq!(actual, expected);
}
