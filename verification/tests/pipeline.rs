use text_transformer::ast::{ArrExpr, Expr, FunctionCall, Statement, Value, AST};
use text_transformer::program::{compile, CompileError, Op};

fn syntax_message(source: &str) -> String {
    match compile(source) {
        Err(CompileError::SyntaxError { msg }) => msg,
        other => panic!("expected a syntax error, got {:?}", other),
    }
}

fn semantic_message(source: &str) -> String {
    match compile(source) {
        Err(CompileError::SemanticAnalysisError { msg }) => msg,
        other => panic!("expected a semantic error, got {:?}", other),
    }
}

#[test]
fn print_item_echoes_the_line() {
    let program = compile("print(_);").unwrap();
    assert_eq!(program.run("hello").unwrap(), "hello");
}

#[test]
fn print_first_word() {
    let program = compile("print(split(_)[0]);").unwrap();
    assert_eq!(program.run("a b c").unwrap(), "a");
}

#[test]
fn index_beyond_the_words_fails_at_run_time() {
    let program = compile("print(split(_)[5]);").unwrap();
    let error = program.run("a b c").unwrap_err();
    assert_eq!(error.to_string(), "out of bounds");
}

#[test]
fn every_index_within_the_words_succeeds() {
    let line = "zero one two";
    let words = ["zero", "one", "two"];
    for (i, word) in words.iter().enumerate() {
        let program = compile(&format!("print(split(_)[{}]);", i)).unwrap();
        assert_eq!(program.run(line).unwrap(), *word);
    }
    let program = compile("print(split(_)[3]);").unwrap();
    assert_eq!(program.run(line).unwrap_err().to_string(), "out of bounds");
}

#[test]
fn missing_close_paren_is_a_syntax_error() {
    assert_eq!(syntax_message("print(_"), "No token left");
}

#[test]
fn list_argument_to_print_is_a_semantic_error() {
    assert_eq!(
        semantic_message("print(split(_));"),
        "Argument 0 to function print is wrong: Expected Text, got List"
    );
}

#[test]
fn unknown_function_is_a_semantic_error() {
    assert_eq!(semantic_message("unknownfn(_);"), "Function unknownfn not found");
}

#[test]
fn arguments_are_compiled_before_the_function_is_looked_up() {
    assert_eq!(
        semantic_message("unknownfn(other(_));"),
        "Function other not found"
    );
}

#[test]
fn invalid_character_is_a_scan_error() {
    match compile("print(_) #") {
        Err(CompileError::ScanError { msg }) => assert_eq!(msg, "Invalid character '#'"),
        other => panic!("expected a scan error, got {:?}", other),
    }
}

#[test]
fn too_few_arguments() {
    assert_eq!(
        semantic_message("print();"),
        "Function print takes 1 arguments, but 0 were given"
    );
}

#[test]
fn too_many_arguments() {
    assert_eq!(
        semantic_message("print(_ _);"),
        "Function print takes 1 arguments, but 2 were given"
    );
    assert_eq!(
        semantic_message("split(_ _ _ _ _ _ _ _ _ _ _ _);"),
        "Function split takes 1 arguments, but 12 were given"
    );
}

#[test]
fn unit_argument_is_rejected() {
    assert_eq!(
        semantic_message("split(print(_));"),
        "Argument 0 to function split is wrong: Expected Text, got Unit"
    );
}

#[test]
fn index_on_text_is_rejected() {
    assert_eq!(semantic_message("print(_[0]);"), "Expected List, got Text");
}

#[test]
fn index_on_unit_is_rejected() {
    assert_eq!(semantic_message("print(print(_)[0]);"), "Expected List, got Unit");
}

#[test]
fn identifier_value_is_rejected() {
    assert_eq!(semantic_message("print(foo);"), "Identifier foo is not supported");
}

#[test]
fn compile_error_to_string_is_the_message() {
    let error = compile("unknownfn(_);").unwrap_err();
    assert_eq!(error.to_string(), "Function unknownfn not found");
    let error = compile("print(_").unwrap_err();
    assert_eq!(error.to_string(), "No token left");
    let error = compile("?").unwrap_err();
    assert_eq!(error.to_string(), "Invalid character '?'");
}

#[test]
fn instructions_of_a_nested_call() {
    let program = compile("print(split(_)[0]);").unwrap();
    assert_eq!(
        program.ops(),
        &vec![Op::LoadItem, Op::SplitStr, Op::LoadIndex { index: 0 }, Op::Print]
    );
}

#[test]
fn statements_are_concatenated_in_order() {
    let program = compile("print(_); print(split(_)[1])").unwrap();
    assert_eq!(
        program.ops(),
        &vec![
            Op::LoadItem,
            Op::Print,
            Op::LoadItem,
            Op::SplitStr,
            Op::LoadIndex { index: 1 },
            Op::Print
        ]
    );
    assert_eq!(program.run("a bb").unwrap(), "a bbbb");
}

#[test]
fn empty_source_is_a_syntax_error() {
    assert_eq!(syntax_message(""), "No token left");
    assert_eq!(syntax_message("  \n"), "No token left");
}

#[test]
fn one_trailing_semicolon_is_accepted() {
    assert!(compile("print(_);").is_ok());
    assert!(compile("print(_)").is_ok());
    assert_eq!(syntax_message("print(_);;"), "Not an identifier");
}

#[test]
fn statements_need_a_semicolon_between_them() {
    assert_eq!(
        syntax_message("print(_) print(_)"),
        "Expected char 'Semicolon' not found"
    );
}

#[test]
fn an_index_with_a_sign_is_a_syntax_error() {
    let tokens = |text: &str| {
        vec![
            text_transformer::tokens::Token::Alphanum("print".to_string()),
            text_transformer::tokens::Token::OpenParen,
            text_transformer::tokens::Token::Alphanum("split".to_string()),
            text_transformer::tokens::Token::OpenParen,
            text_transformer::tokens::Token::Underscore,
            text_transformer::tokens::Token::CloseParen,
            text_transformer::tokens::Token::OpenBracket,
            text_transformer::tokens::Token::Alphanum(text.to_string()),
            text_transformer::tokens::Token::CloseBracket,
            text_transformer::tokens::Token::CloseParen,
        ]
    };
    assert_eq!(text_transformer::ast::parse(tokens("-1")), Err("Not a number".to_string()));
    assert_eq!(text_transformer::ast::parse(tokens("+1")), Err("Not a number".to_string()));
    assert!(text_transformer::ast::parse(tokens("1")).is_ok());
}

#[test]
fn a_negative_index_in_a_tree_fails_at_run_time() {
    let item = Expr { arr_expr: ArrExpr::ValueExpr { value: Value::Item }, index: None };
    let split = Expr {
        arr_expr: ArrExpr::FunctionExpr {
            function_call: FunctionCall { function_name: "split".to_string(), args: vec![item] },
        },
        index: Some(-1),
    };
    let tree = AST {
        statements: vec![Statement::FunctionCall {
            function_call: FunctionCall { function_name: "print".to_string(), args: vec![split] },
        }],
    };
    let program = text_transformer::program::Program::from_ast(&tree).unwrap();
    assert_eq!(program.ops()[2], Op::LoadIndex { index: -1 });
    assert_eq!(program.run("a b").unwrap_err().to_string(), "out of bounds");
}

#[test]
fn compiling_twice_gives_the_same_program() {
    let source = "print(split(_)[1]); print(_)";
    let first = compile(source).unwrap();
    let second = compile(source).unwrap();
    assert_eq!(first.ops(), second.ops());
    for line in ["a b c", "", "x", "  two   words  "] {
        let a = first.run(line).map_err(|e| e.to_string());
        let b = second.run(line).map_err(|e| e.to_string());
        assert_eq!(a, b);
    }
}

#[test]
fn running_does_not_depend_on_what_ran_before() {
    let source = "print(split(_)[1])";
    let program = compile(source).unwrap();
    let first = program.run("a b").unwrap();
    let failed = program.run("lonely").unwrap_err().to_string();
    let second = program.run("c d").unwrap();
    let again = program.run("a b").unwrap();
    let fresh = compile(source).unwrap();
    assert_eq!(first, "b");
    assert_eq!(failed, "out of bounds");
    assert_eq!(second, "d");
    assert_eq!(again, first);
    assert_eq!(fresh.run("c d").unwrap(), second);
    assert_eq!(fresh.run("a b").unwrap(), first);
}

#[test]
fn a_compiled_program_stops_only_at_an_index_out_of_bounds() {
    let sources = [
        "print(_)",
        "split(_)",
        "split(_); print(_);",
        "print(split(_)[0]); print(split(_)[2])",
        "print(split(split(_)[1])[0]);",
        "split(split(_)[0]); print(_)",
    ];
    let lines = ["", "   ", "one", "one two", "one two three", "\u{2003}x\ty\n"];
    for source in sources {
        let program = compile(source).unwrap();
        for line in lines {
            match program.run(line) {
                Ok(_) => {}
                Err(error) => assert_eq!(error.to_string(), "out of bounds"),
            }
        }
    }
    let program = compile("print(split(_)[0]); print(split(_)[2])").unwrap();
    assert_eq!(program.run("one two three").unwrap(), "onethree");
    assert_eq!(program.run("one two").unwrap_err().to_string(), "out of bounds");
}
