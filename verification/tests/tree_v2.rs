use text_transformer::ast_v2::function_call::parse_arguments;
use text_transformer::ast_v2::model::{
    Assignment, Expression, FunctionCall, FunctionDefinition, Program, Statement, Value,
};
use text_transformer::ast_v2::utils::{begins_with, parse_constant_alphanum, parse_constant_token};
use text_transformer::ast_v2::value;
use text_transformer::tokens::{scan, Token};

fn word(text: &str) -> Token {
    Token::Alphanum(text.to_string())
}

fn number(i: i64) -> Expression {
    Expression::Val(Value::LiteralInteger(i))
}

fn name(text: &str) -> Expression {
    Expression::Val(Value::Identifier(text.to_string()))
}

fn call(function_name: &str, args: Vec<Expression>) -> Statement {
    Statement::Fc(FunctionCall { function_name: function_name.to_string(), args })
}

#[test]
fn constant_token_steps_over_the_token() {
    let tokens = [Token::Comma, word("a")];
    assert_eq!(parse_constant_token(&tokens, &Token::Comma), Some(&tokens[1..]));
    assert_eq!(parse_constant_token(&tokens, &Token::Semicolon), None);
    assert_eq!(parse_constant_token(&[], &Token::Comma), None);
    assert_eq!(parse_constant_token(&tokens[1..], &word("a")), Some(&tokens[2..]));
    assert_eq!(parse_constant_token(&tokens[1..], &word("b")), None);
}

#[test]
fn constant_alphanum_steps_over_the_word() {
    let tokens = [word("fn"), Token::Comma];
    assert_eq!(parse_constant_alphanum(&tokens, "fn"), Some(&tokens[1..]));
    assert_eq!(parse_constant_alphanum(&tokens, "f"), None);
    assert_eq!(parse_constant_alphanum(&tokens[1..], "fn"), None);
    assert_eq!(parse_constant_alphanum(&[], "fn"), None);
}

#[test]
fn begins_with_looks_at_the_first_token() {
    let tokens = [Token::Comma, word("a")];
    assert!(begins_with(&tokens, &Token::Comma));
    assert!(!begins_with(&tokens, &word("a")));
    assert!(!begins_with(&[], &Token::Comma));
}

#[test]
fn value_alternatives() {
    let tokens = [word("-5"), word("1x")];
    assert_eq!(value::parse(&tokens), Some((Value::LiteralInteger(-5), &tokens[1..])));
    assert_eq!(value::parse(&tokens[1..]), None);
    assert_eq!(value::parse_item(&tokens), None);
    assert_eq!(value::parse_identified(&tokens), None);
    assert_eq!(value::parse_integer(&[word("foo")]), None);
    assert_eq!(
        value::parse_integer(&[word("9223372036854775807")]).map(|r| r.0),
        Some(Value::LiteralInteger(i64::MAX))
    );
    assert_eq!(value::parse_integer(&[word("9223372036854775808")]), None);
}

#[test]
fn expression_is_a_value_before_it_is_a_call() {
    let tokens = scan("foo(1)").unwrap();
    assert_eq!(Expression::parse(&tokens), Some((name("foo"), &tokens[1..])));
}

#[test]
fn expression_with_an_index() {
    let tokens = scan("xs[3] rest").unwrap();
    assert_eq!(
        Expression::parse(&tokens),
        Some((Expression::IndexedExpression(Box::new(name("xs")), 3), &tokens[4..]))
    );
}

#[test]
fn expression_index_must_be_a_literal_that_is_not_negative() {
    assert_eq!(Expression::parse(&scan("xs[i]").unwrap()), None);
    assert_eq!(Expression::parse(&scan("xs[_]").unwrap()), None);
    assert_eq!(Expression::parse(&scan("xs[]").unwrap()), None);
    assert_eq!(Expression::parse(&scan("xs[1").unwrap()), None);
    let negative = [word("xs"), Token::OpenBracket, word("-1"), Token::CloseBracket];
    assert_eq!(Expression::parse(&negative), None);
    let zero = [word("xs"), Token::OpenBracket, word("0"), Token::CloseBracket];
    assert_eq!(
        Expression::parse(&zero),
        Some((Expression::IndexedExpression(Box::new(name("xs")), 0), &zero[4..]))
    );
}

#[test]
fn arguments_stop_before_the_closing_paren() {
    let tokens = scan("1, x, _)").unwrap();
    assert_eq!(
        parse_arguments(&tokens),
        Some((vec![number(1), name("x"), Expression::Val(Value::Item)], &tokens[5..]))
    );
    let trailing = scan("1,)").unwrap();
    assert_eq!(parse_arguments(&trailing), Some((vec![number(1)], &trailing[2..])));
    assert_eq!(parse_arguments(&scan("1 2)").unwrap()), None);
    assert_eq!(parse_arguments(&scan("1,").unwrap()), None);
    assert_eq!(parse_arguments(&[]), None);
}

#[test]
fn function_call_failures() {
    assert_eq!(FunctionCall::parse(&scan("foo").unwrap()), None);
    assert_eq!(FunctionCall::parse(&scan("foo(1").unwrap()), None);
    assert_eq!(FunctionCall::parse(&scan("1(1)").unwrap()), None);
    assert_eq!(FunctionCall::parse(&[]), None);
}

#[test]
fn assignment_reads_a_name_and_an_expression() {
    let tokens = scan("x = ys[2];").unwrap();
    assert_eq!(
        Assignment::parse(&tokens),
        Some((
            Assignment {
                assignee: "x".to_string(),
                expression: Expression::IndexedExpression(Box::new(name("ys")), 2),
            },
            &tokens[6..]
        ))
    );
    assert_eq!(Assignment::parse(&scan("x 1").unwrap()), None);
    assert_eq!(Assignment::parse(&scan("x =").unwrap()), None);
    assert_eq!(Assignment::parse(&scan("1 = 1").unwrap()), None);
}

#[test]
fn statement_alternatives_in_order() {
    let tokens = scan("f(1)").unwrap();
    assert_eq!(Statement::parse(&tokens), Some((call("f", vec![number(1)]), &tokens[4..])));
    let tokens = scan("a = 1").unwrap();
    assert_eq!(
        Statement::parse(&tokens),
        Some((
            Statement::As(Assignment { assignee: "a".to_string(), expression: number(1) }),
            &tokens[3..]
        ))
    );
    let tokens = scan("fn f(a) {}").unwrap();
    assert_eq!(
        Statement::parse(&tokens),
        Some((
            Statement::Fd(FunctionDefinition {
                function_name: "f".to_string(),
                arguments: vec!["a".to_string()],
                body: vec![],
            }),
            &tokens[7..]
        ))
    );
    assert_eq!(Statement::parse(&scan("_").unwrap()), None);
    assert_eq!(Statement::parse(&[]), None);
}

#[test]
fn a_call_of_fn_is_a_call() {
    let tokens = scan("fn(1)").unwrap();
    assert_eq!(Statement::parse(&tokens), Some((call("fn", vec![number(1)]), &tokens[4..])));
}

#[test]
fn block_of_statements() {
    let tokens = scan("{ f(); x = 1; g(x) } tail").unwrap();
    let (statements, rest) = Statement::parse_block(&tokens).unwrap();
    assert_eq!(
        statements,
        vec![
            call("f", vec![]),
            Statement::As(Assignment { assignee: "x".to_string(), expression: number(1) }),
            call("g", vec![name("x")]),
        ]
    );
    assert_eq!(rest, &[word("tail")]);
}

#[test]
fn block_failures() {
    assert_eq!(Statement::parse_block(&scan("f() }").unwrap()), None);
    assert_eq!(Statement::parse_block(&scan("{ f()").unwrap()), None);
    assert_eq!(Statement::parse_block(&scan("{ f() g() }").unwrap()), None);
    assert_eq!(Statement::parse_block(&scan("{ f(); }").unwrap()), None);
    assert_eq!(Statement::parse_block(&[]), None);
}

#[test]
fn a_block_may_begin_with_a_semicolon() {
    let tokens = scan("{ ; f() }").unwrap();
    assert_eq!(
        Statement::parse_block(&tokens),
        Some((vec![call("f", vec![])], &tokens[tokens.len()..]))
    );
}

#[test]
fn function_definition_failures() {
    assert_eq!(FunctionDefinition::parse(&scan("f() {}").unwrap()), None);
    assert_eq!(FunctionDefinition::parse(&scan("fn () {}").unwrap()), None);
    assert_eq!(FunctionDefinition::parse(&scan("fn f {}").unwrap()), None);
    assert_eq!(FunctionDefinition::parse(&scan("fn f(a, b) {}").unwrap()), None);
    assert_eq!(FunctionDefinition::parse(&scan("fn f(1) {}").unwrap()), None);
    assert_eq!(FunctionDefinition::parse(&scan("fn f()").unwrap()), None);
}

#[test]
fn program_with_prologue_statements_and_epilogue() {
    let tokens = scan("prologue { a() } b(); c = 1 epilogue { d() }").unwrap();
    assert_eq!(
        Program::parse(&tokens),
        Some(Program {
            statements: vec![
                call("b", vec![]),
                Statement::As(Assignment { assignee: "c".to_string(), expression: number(1) }),
            ],
            prologue: vec![call("a", vec![])],
            epilogue: vec![call("d", vec![])],
        })
    );
}

#[test]
fn program_of_an_epilogue_alone() {
    assert_eq!(
        Program::parse(&scan("epilogue {}").unwrap()),
        Some(Program { statements: vec![], prologue: vec![], epilogue: vec![] })
    );
}

#[test]
fn program_needs_its_epilogue() {
    assert_eq!(Program::parse(&scan("a()").unwrap()), None);
    assert_eq!(Program::parse(&scan("a();").unwrap()), None);
    assert_eq!(Program::parse(&[]), None);
    assert_eq!(Program::parse(&scan("prologue { a() }").unwrap()), None);
}

#[test]
fn program_failures() {
    assert_eq!(Program::parse(&scan("a() b() epilogue {}").unwrap()), None);
    assert_eq!(Program::parse(&scan("a() epilogue {} b()").unwrap()), None);
    assert_eq!(Program::parse(&scan("a() epilogue").unwrap()), None);
    assert_eq!(Program::parse(&scan("prologue a() epilogue {}").unwrap()), None);
    assert_eq!(Program::parse(&scan("a(); epilogue {}").unwrap()), None);
}
