use text_transformer::program::{Op, Program};

fn run(ops: Vec<Op>, line: &str) -> Result<String, String> {
    Program::from_ops(ops).run(line).map_err(|e| e.to_string())
}

#[test]
fn run_prints_first_word() {
    assert_eq!(
        run(
            vec![Op::LoadItem, Op::SplitStr, Op::LoadIndex { index: 0 }, Op::Print],
            "a b c"
        ),
        Ok("a".to_string())
    );
}

#[test]
fn run_index_out_of_bounds() {
    assert_eq!(
        run(
            vec![Op::LoadItem, Op::SplitStr, Op::LoadIndex { index: 5 }, Op::Print],
            "a b c"
        ),
        Err("out of bounds".to_string())
    );
}

#[test]
fn run_negative_index_is_out_of_bounds() {
    assert_eq!(
        run(vec![Op::LoadItem, Op::SplitStr, Op::LoadIndex { index: -1 }], "a b c"),
        Err("out of bounds".to_string())
    );
    assert_eq!(
        run(
            vec![Op::LoadItem, Op::SplitStr, Op::LoadIndex { index: i32::MIN }],
            "a b c"
        ),
        Err("out of bounds".to_string())
    );
}

#[test]
fn run_last_index_is_within_bounds() {
    assert_eq!(
        run(
            vec![Op::LoadItem, Op::SplitStr, Op::LoadIndex { index: 2 }, Op::Print],
            "a b c"
        ),
        Ok("c".to_string())
    );
    assert_eq!(
        run(vec![Op::LoadItem, Op::SplitStr, Op::LoadIndex { index: 3 }], "a b c"),
        Err("out of bounds".to_string())
    );
}

#[test]
fn print_on_empty_stack_underflows() {
    assert_eq!(run(vec![Op::Print], "x"), Err("Empty stack".to_string()));
}

#[test]
fn split_on_empty_stack_underflows() {
    assert_eq!(run(vec![Op::SplitStr], "x"), Err("Empty stack".to_string()));
}

#[test]
fn load_index_on_empty_stack_underflows() {
    assert_eq!(
        run(vec![Op::LoadIndex { index: 0 }], "x"),
        Err("Empty stack".to_string())
    );
}

#[test]
fn split_of_a_list_is_a_type_error() {
    assert_eq!(
        run(vec![Op::LoadItem, Op::SplitStr, Op::SplitStr], "a b"),
        Err("expected Text".to_string())
    );
}

#[test]
fn load_index_of_a_text_is_a_type_error() {
    assert_eq!(
        run(vec![Op::LoadItem, Op::LoadIndex { index: 0 }], "a b"),
        Err("not a list".to_string())
    );
}

#[test]
fn a_list_prints_without_separator() {
    assert_eq!(
        run(vec![Op::LoadItem, Op::SplitStr, Op::Print], "a  bc\td"),
        Ok("abcd".to_string())
    );
}

#[test]
fn no_output_is_returned_from_a_failed_run() {
    assert_eq!(
        run(vec![Op::LoadItem, Op::Print, Op::Print], "partial"),
        Err("Empty stack".to_string())
    );
}

#[test]
fn output_accumulates_over_prints() {
    assert_eq!(
        run(vec![Op::LoadItem, Op::Print, Op::LoadItem, Op::Print], "ab"),
        Ok("abab".to_string())
    );
}

#[test]
fn values_left_on_the_stack_are_dropped() {
    assert_eq!(run(vec![Op::LoadItem, Op::LoadItem], "x"), Ok(String::new()));
}

#[test]
fn splitting_skips_leading_and_trailing_white_space() {
    assert_eq!(
        run(
            vec![Op::LoadItem, Op::SplitStr, Op::LoadIndex { index: 1 }, Op::Print],
            "  first \t second\n"
        ),
        Ok("second".to_string())
    );
}

#[test]
fn splitting_a_blank_line_gives_no_words() {
    assert_eq!(
        run(vec![Op::LoadItem, Op::SplitStr, Op::LoadIndex { index: 0 }], "   "),
        Err("out of bounds".to_string())
    );
    assert_eq!(run(vec![Op::LoadItem, Op::SplitStr, Op::Print], ""), Ok(String::new()));
}

#[test]
fn splitting_knows_white_space_beyond_ascii() {
    assert_eq!(
        run(
            vec![Op::LoadItem, Op::SplitStr, Op::LoadIndex { index: 1 }, Op::Print],
            "eins\u{2003}zwei\u{a0}drei"
        ),
        Ok("zwei".to_string())
    );
}

#[test]
fn program_keeps_its_instructions() {
    let ops = vec![Op::LoadItem, Op::LoadIndex { index: 7 }];
    let program = Program::from_ops(ops.clone());
    assert_eq!(program.ops(), &ops);
}
