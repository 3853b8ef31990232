use text_transformer::ast::{
    expect_token, index_value, parse, parse_arr_expr, parse_array_index, parse_expr,
    parse_function_call, parse_identifier, parse_item, parse_number, parse_statement, parse_value,
    ArrExpr, Expr, FunctionCall, Statement, Value, AST,
};
use text_transformer::tokens::{scan, Token};

fn word(text: &str) -> Token {
    Token::Alphanum(text.to_string())
}

fn item() -> Expr {
    Expr { arr_expr: ArrExpr::ValueExpr { value: Value::Item }, index: None }
}

fn call(name: &str, args: Vec<Expr>) -> FunctionCall {
    FunctionCall { function_name: name.to_string(), args }
}

fn call_expr(name: &str, args: Vec<Expr>, index: Option<i32>) -> Expr {
    Expr { arr_expr: ArrExpr::FunctionExpr { function_call: call(name, args) }, index }
}

fn tree(source: &str) -> Result<AST, String> {
    parse(scan(source).unwrap())
}

#[test]
fn no_tokens_are_no_program() {
    assert_eq!(parse(vec![]), Err("No token left".to_string()));
    assert_eq!(tree(""), Err("No token left".to_string()));
    assert_eq!(tree(" \t\n"), Err("No token left".to_string()));
}

#[test]
fn a_lone_semicolon_is_no_program() {
    assert_eq!(tree(";"), Err("Not an identifier".to_string()));
}

#[test]
fn arguments_follow_one_another_without_separator() {
    assert_eq!(
        tree("f(_ g(_)[2] x)"),
        Ok(AST {
            statements: vec![Statement::FunctionCall {
                function_call: call(
                    "f",
                    vec![
                        item(),
                        call_expr("g", vec![item()], Some(2)),
                        Expr {
                            arr_expr: ArrExpr::ValueExpr {
                                value: Value::Identifier("x".to_string())
                            },
                            index: None
                        },
                    ]
                )
            }]
        })
    );
}

#[test]
fn statements_keep_their_order() {
    let parsed = tree("a(); b(); c();").unwrap();
    let names: Vec<String> = parsed
        .statements
        .iter()
        .map(|s| match s {
            Statement::FunctionCall { function_call } => function_call.function_name.clone(),
        })
        .collect();
    assert_eq!(names, vec!["a", "b", "c"]);
}

#[test]
fn a_comma_between_arguments_is_a_syntax_error() {
    assert_eq!(tree("f(_, _)"), Err("Not an identifier".to_string()));
}

#[test]
fn a_statement_must_be_a_call() {
    assert_eq!(tree("_"), Err("Not an identifier".to_string()));
    assert_eq!(tree("f"), Err("Expected char 'OpenParen' not found".to_string()));
    assert_eq!(tree("1f()"), Err("Not an identifier".to_string()));
}

#[test]
fn what_is_left_over_is_a_syntax_error() {
    assert_eq!(tree("f() )"), Err("Expected char 'Semicolon' not found".to_string()));
    assert_eq!(tree("f()[0]"), Err("Expected char 'Semicolon' not found".to_string()));
}

#[test]
fn index_must_be_an_integer() {
    assert_eq!(tree("f(_[x])"), Err("Not a number".to_string()));
    assert_eq!(tree("f(_[1x])"), Err("Not a number".to_string()));
    assert_eq!(tree("f(_[99999999999])"), Err("Number too large".to_string()));
    assert_eq!(tree("f(_[])"), Err("Unexpected token".to_string()));
    assert_eq!(tree("f(_["), Err("Missing index".to_string()));
    assert_eq!(tree("f(_[1)"), Err("Expected char 'CloseBracket' not found".to_string()));
}

#[test]
fn index_may_be_as_large_as_32_bits_hold() {
    let parsed = tree("f(_[2147483647])").unwrap();
    match &parsed.statements[0] {
        Statement::FunctionCall { function_call } => {
            assert_eq!(function_call.args[0].index, Some(i32::MAX))
        }
    }
    assert!(tree("f(_[2147483648])").is_err());
}

#[test]
fn expect_token_steps_over_the_token() {
    let tokens = [Token::Semicolon, word("a")];
    assert_eq!(expect_token(Token::Semicolon, &tokens), Ok(&tokens[1..]));
    assert_eq!(
        expect_token(Token::Comma, &tokens),
        Err("Expected char 'Comma' not found".to_string())
    );
    assert_eq!(
        expect_token(Token::Comma, &[]),
        Err("Expected char 'Comma' not found".to_string())
    );
    assert_eq!(
        expect_token(word("a"), &tokens),
        Err("Expected char 'Alphanum(\"a\")' not found".to_string())
    );
    assert_eq!(expect_token(word("a"), &tokens[1..]), Ok(&tokens[2..]));
}

#[test]
fn parse_identifier_wants_a_leading_letter() {
    let tokens = [word("foo1"), Token::Comma];
    assert_eq!(parse_identifier(&tokens), Ok(("foo1".to_string(), &tokens[1..])));
    assert_eq!(parse_identifier(&[word("1foo")]), Err("Not an identifier".to_string()));
    assert_eq!(parse_identifier(&[word("")]), Err("Not an identifier".to_string()));
    assert_eq!(parse_identifier(&[Token::Comma]), Err("Not an identifier".to_string()));
    assert_eq!(parse_identifier(&[]), Err("No token left".to_string()));
    let accented = [word("\u{e9}t\u{e9}")];
    assert_eq!(parse_identifier(&accented), Ok(("\u{e9}t\u{e9}".to_string(), &accented[1..])));
}

#[test]
fn parse_number_wants_digits_only() {
    let tokens = [word("123"), Token::Comma];
    assert_eq!(parse_number(&tokens), Ok(("123".to_string(), &tokens[1..])));
    assert_eq!(parse_number(&[word("12a")]), Err("Not a number".to_string()));
    assert_eq!(parse_number(&[word("-1")]), Err("Not a number".to_string()));
    assert_eq!(parse_number(&[Token::Underscore]), Err("Not a number".to_string()));
    assert_eq!(parse_number(&[]), Err("No token left".to_string()));
    let empty = [word("")];
    assert_eq!(parse_number(&empty), Ok((String::new(), &empty[1..])));
}

#[test]
fn parse_item_wants_an_underscore() {
    let tokens = [Token::Underscore, Token::Comma];
    assert_eq!(parse_item(&tokens), Ok((Value::Item, &tokens[1..])));
    assert_eq!(parse_item(&[word("a")]), Err("Not an underscore".to_string()));
    assert_eq!(parse_item(&[]), Err("Not an underscore".to_string()));
}

#[test]
fn parse_value_is_an_item_or_else_a_name() {
    let tokens = [word("a"), Token::Underscore];
    assert_eq!(parse_value(&tokens), Ok((Value::Identifier("a".to_string()), &tokens[1..])));
    assert_eq!(parse_value(&tokens[1..]), Ok((Value::Item, &tokens[2..])));
    assert_eq!(parse_value(&[Token::Comma]), Err("Not an identifier".to_string()));
    assert_eq!(parse_value(&[]), Err("No token left".to_string()));
}

#[test]
fn parse_array_index_reads_digits() {
    let tokens = [Token::OpenBracket, word("007"), Token::CloseBracket, Token::Comma];
    assert_eq!(parse_array_index(&tokens), Ok((7, &tokens[3..])));
    assert_eq!(
        parse_array_index(&tokens[1..]),
        Err("Expected char 'OpenBracket' not found".to_string())
    );
    assert_eq!(
        parse_array_index(&[Token::OpenBracket, word("")]),
        Err("Not a number".to_string())
    );
}

#[test]
fn an_index_with_a_sign_is_rejected() {
    for text in ["-1", "+1", "-0", "+", "-"] {
        let tokens = [Token::OpenBracket, word(text), Token::CloseBracket];
        assert_eq!(parse_array_index(&tokens), Err("Not a number".to_string()), "{}", text);
    }
    let tokens = vec![
        word("f"),
        Token::OpenParen,
        Token::Underscore,
        Token::OpenBracket,
        word("-1"),
        Token::CloseBracket,
        Token::CloseParen,
    ];
    assert_eq!(parse(tokens), Err("Not a number".to_string()));
}

#[test]
fn index_value_reads_what_std_reads_among_digit_runs() {
    let samples = [
        "", "0", "00", "1", "42", "007", "2147483647", "2147483648", "00000000002147483647",
        "99999999999999999999", "-1", "+1", "-0", "1_0", "1 ", " 1", "12x", "x", "\u{663}",
        "\u{ff11}",
    ];
    for s in samples {
        let digits = !s.is_empty() && s.chars().all(|c| c.is_ascii_digit());
        let expected = if digits { s.parse::<i32>().ok() } else { None };
        assert_eq!(index_value(s).ok(), expected, "{:?}", s);
    }
    assert_eq!(index_value("2147483647"), Ok(i32::MAX));
    assert_eq!(index_value("2147483648"), Err("Number too large".to_string()));
    assert_eq!(index_value(""), Err("Not a number".to_string()));
    assert_eq!(index_value("-1"), Err("Not a number".to_string()));
}

#[test]
fn parse_arr_expr_prefers_a_call() {
    let tokens = scan("f(_) x").unwrap();
    assert_eq!(
        parse_arr_expr(&tokens),
        Ok((ArrExpr::FunctionExpr { function_call: call("f", vec![item()]) }, &tokens[4..]))
    );
    assert_eq!(
        parse_arr_expr(&tokens[4..]),
        Ok((ArrExpr::ValueExpr { value: Value::Identifier("x".to_string()) }, &tokens[5..]))
    );
    let broken = scan("f(]").unwrap();
    assert_eq!(
        parse_arr_expr(&broken),
        Ok((ArrExpr::ValueExpr { value: Value::Identifier("f".to_string()) }, &broken[1..]))
    );
}

#[test]
fn parse_expr_reads_an_index_where_a_bracket_follows() {
    let tokens = scan("f()[3] _[0] _").unwrap();
    assert_eq!(parse_expr(&tokens), Ok((call_expr("f", vec![], Some(3)), &tokens[6..])));
    let (second, rest) = parse_expr(&tokens[6..]).unwrap();
    assert_eq!(second.index, Some(0));
    assert_eq!(parse_expr(rest), Ok((item(), &tokens[11..])));
}

#[test]
fn parse_function_call_and_statement_agree() {
    let tokens = scan("f(g()) ;").unwrap();
    let inner = call_expr("g", vec![], None);
    assert_eq!(parse_function_call(&tokens), Ok((call("f", vec![inner]), &tokens[6..])));
    let inner = call_expr("g", vec![], None);
    assert_eq!(
        parse_statement(&tokens),
        Ok((Statement::FunctionCall { function_call: call("f", vec![inner]) }, &tokens[6..]))
    );
    assert_eq!(parse_statement(&tokens[6..]), Err("Not an identifier".to_string()));
}

#[test]
fn the_tokens_of_a_tree_parse_to_the_tree() {
    // outer(_ inner(name)[3] _[12]); last()
    let tokens = vec![
        word("outer"),
        Token::OpenParen,
        Token::Underscore,
        word("inner"),
        Token::OpenParen,
        word("name"),
        Token::CloseParen,
        Token::OpenBracket,
        word("3"),
        Token::CloseBracket,
        Token::Underscore,
        Token::OpenBracket,
        word("12"),
        Token::CloseBracket,
        Token::CloseParen,
        Token::Semicolon,
        word("last"),
        Token::OpenParen,
        Token::CloseParen,
    ];
    let name = Expr {
        arr_expr: ArrExpr::ValueExpr { value: Value::Identifier("name".to_string()) },
        index: None,
    };
    let mut indexed_item = item();
    indexed_item.index = Some(12);
    let expected = AST {
        statements: vec![
            Statement::FunctionCall {
                function_call: call(
                    "outer",
                    vec![item(), call_expr("inner", vec![name], Some(3)), indexed_item],
                ),
            },
            Statement::FunctionCall { function_call: call("last", vec![]) },
        ],
    };
    assert_eq!(parse(tokens), Ok(expected));
}
