use text_transformer::cli::{parse_args, Config, InputFile, Verbosity};
use text_transformer::program_source::ProgramSource;

// Happy paths

#[test]
fn test_parse_args_flag() {
    let args = vec!["<program name>", "-f", "prog.tt"]
        .into_iter()
        .map(String::from)
        .collect();
    let actual = parse_args(args).unwrap();
    let expected = Config {
        input_files: InputFile::InStream,
        program: ProgramSource::File(String::from("prog.tt")),
    };
    assert_eq!(actual, expected);
}

#[test]
fn test_parse_args_flag_dashes() {
    let args = vec!["<program name>", "-f", "prog.tt", "--"]
        .into_iter()
        .map(String::from)
        .collect();
    let actual = parse_args(args).unwrap();
    let expected = Config {
        input_files: InputFile::InStream,
        program: ProgramSource::File(String::from("prog.tt")),
    };
    assert_eq!(actual, expected);
}

#[test]
fn test_parse_args_flag_file() {
    let args = vec!["<program name>", "-f", "prog.tt", "file"]
        .into_iter()
        .map(String::from)
        .collect();
    let actual = parse_args(args).unwrap();
    let expected = Config {
        input_files: InputFile::Files(vec![String::from("file")]),
        program: ProgramSource::File(String::from("prog.tt")),
    };
    assert_eq!(actual, expected);
}

#[test]
fn test_parse_args_flag_dashes_file() {
    let args = vec!["<program name>", "-f", "prog.tt", "--", "file"]
        .into_iter()
        .map(String::from)
        .collect();
    let actual = parse_args(args).unwrap();
    let expected = Config {
        input_files: InputFile::Files(vec![String::from("file")]),
        program: ProgramSource::File(String::from("prog.tt")),
    };
    assert_eq!(actual, expected);
}

#[test]
fn test_parse_args_program_source() {
    let args = vec!["<program name>", "some code"]
        .into_iter()
        .map(String::from)
        .collect();
    let actual = parse_args(args).unwrap();
    let expected = Config {
        input_files: InputFile::InStream,
        program: ProgramSource::Literal(String::from("some code")),
    };
    assert_eq!(actual, expected);
}

#[test]
fn test_parse_args_dashes_program_source() {
    let args = vec!["<program name>", "--", "some code"]
        .into_iter()
        .map(String::from)
        .collect();
    let actual = parse_args(args).unwrap();
    let expected = Config {
        input_files: InputFile::InStream,
        program: ProgramSource::Literal(String::from("some code")),
    };
    assert_eq!(actual, expected);
}

#[test]
fn test_parse_args_program_source_file() {
    let args = vec!["<program name>", "some code", "file"]
        .into_iter()
        .map(String::from)
        .collect();
    let actual = parse_args(args).unwrap();
    let expected = Config {
        input_files: InputFile::Files(vec![String::from("file")]),
        program: ProgramSource::Literal(String::from("some code")),
    };
    assert_eq!(actual, expected);
}

#[test]
fn test_parse_args_dashes_program_source_file() {
    let args = vec!["<program name>", "--", "some code", "file"]
        .into_iter()
        .map(String::from)
        .collect();
    let actual = parse_args(args).unwrap();
    let expected = Config {
        input_files: InputFile::Files(vec![String::from("file")]),
        program: ProgramSource::Literal(String::from("some code")),
    };
    assert_eq!(actual, expected);
}

// Sad paths

#[test]
fn test_parse_args_missing_flag_argument() {
    let args = vec!["<program name>", "-f"].into_iter().map(String::from).collect();
    let actual = parse_args(args);
    assert_eq!(actual, Result::Err(String::from("-f takes a parameter")));
}

fn args(words: &[&str]) -> Vec<String> {
    words.iter().map(|w| w.to_string()).collect()
}

#[test]
fn long_file_flag() {
    assert_eq!(
        parse_args(args(&["tt", "--file", "p.tt", "a", "b"])),
        Ok(Config {
            input_files: InputFile::Files(args(&["a", "b"])),
            program: ProgramSource::File("p.tt".to_string()),
        })
    );
    assert_eq!(
        parse_args(args(&["tt", "--file"])),
        Err("--file takes a parameter".to_string())
    );
}

#[test]
fn the_last_file_flag_wins() {
    assert_eq!(
        parse_args(args(&["tt", "-f", "one", "--file", "two"])),
        Ok(Config {
            input_files: InputFile::InStream,
            program: ProgramSource::File("two".to_string()),
        })
    );
    assert_eq!(
        parse_args(args(&["tt", "-f", "one", "-f"])),
        Err("-f takes a parameter".to_string())
    );
}

#[test]
fn a_flag_may_name_any_file() {
    assert_eq!(
        parse_args(args(&["tt", "-f", "--", "x"])),
        Ok(Config {
            input_files: InputFile::Files(args(&["x"])),
            program: ProgramSource::File("--".to_string()),
        })
    );
}

#[test]
fn flags_end_at_the_dashes() {
    assert_eq!(
        parse_args(args(&["tt", "--", "-f", "x"])),
        Ok(Config {
            input_files: InputFile::Files(args(&["x"])),
            program: ProgramSource::Literal("-f".to_string()),
        })
    );
    assert_eq!(
        parse_args(args(&["tt", "--", "--"])),
        Ok(Config {
            input_files: InputFile::InStream,
            program: ProgramSource::Literal("--".to_string()),
        })
    );
}

#[test]
fn flags_end_at_the_first_other_argument() {
    assert_eq!(
        parse_args(args(&["tt", "code", "-f", "x"])),
        Ok(Config {
            input_files: InputFile::Files(args(&["-f", "x"])),
            program: ProgramSource::Literal("code".to_string()),
        })
    );
}

#[test]
fn no_program_is_an_error() {
    let message = "Program source hasn't been specified".to_string();
    assert_eq!(parse_args(args(&["tt"])), Err(message.clone()));
    assert_eq!(parse_args(args(&["tt", "--"])), Err(message.clone()));
    assert_eq!(parse_args(args(&[])), Err(message));
}

#[test]
fn program_source_describes_itself() {
    assert_eq!(ProgramSource::File("p.tt".to_string()).to_string(), "file p.tt");
    assert_eq!(
        ProgramSource::Literal("print(_)".to_string()).to_string(),
        "literal string 'print(_)'"
    );
}

#[test]
fn verbosity_levels_differ() {
    assert_ne!(Verbosity::Normal, Verbosity::Verbose);
    assert_ne!(Verbosity::Verbose, Verbosity::Spam);
    assert_eq!(Verbosity::Spam, Verbosity::Spam);
}
