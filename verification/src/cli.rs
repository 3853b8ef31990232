//! The command line: where the program comes from and which files it reads.
//!
//! ```text
//! tt -f program-file [ -- ] file ...
//! tt [ -- ] program-source file ...
//! ```

use crate::program::text_views;
use crate::program_source::{ProgramSource, ProgramSourceView};
use vstd::prelude::*;

verus! {

/// Where the lines come from.
#[derive(Debug, PartialEq, Eq)]
pub enum InputFile {
    InStream,
    Files(Vec<String>),
}

/// Where the lines come from, as a mathematical value.
pub enum InputFileView {
    InStream,
    Files(Seq<Seq<char>>),
}

impl View for InputFile {
    type V = InputFileView;

    open spec fn view(&self) -> InputFileView {
        match self {
            InputFile::InStream => InputFileView::InStream,
            InputFile::Files(names) => InputFileView::Files(text_views(names@)),
        }
    }
}

/// How much the command reports about its own work.
#[derive(Debug, Clone, Copy, PartialEq, Eq, Structural)]
pub enum Verbosity {
    Normal,
    Verbose,
    Spam,
}

/// What the command line asks for.
#[derive(Debug, PartialEq, Eq)]
pub struct Config {
    pub input_files: InputFile,
    pub program: ProgramSource,
}

/// What the command line asks for, as a mathematical value.
pub struct ConfigView {
    pub input_files: InputFileView,
    pub program: ProgramSourceView,
}

impl View for Config {
    type V = ConfigView;

    open spec fn view(&self) -> ConfigView {
        ConfigView { input_files: self.input_files@, program: self.program@ }
    }
}

/// Whether `arg` is the flag that names the program's file.
pub open spec fn is_file_flag(arg: Seq<char>) -> bool {
    arg == "-f"@ || arg == "--file"@
}

/// The message for a file flag that is the last argument.
pub open spec fn missing_parameter_message(flag: Seq<char>) -> Seq<char> {
    flag + " takes a parameter"@
}

/// The flags at the front of `args`: the program's file as the last file
/// flag names it, or `file` where there is none, and the arguments after the
/// flags. A `--` ends the flags and is dropped; any other argument ends them
/// and stays.
pub open spec fn flags_spec(args: Seq<Seq<char>>, file: Option<Seq<char>>) -> Result<
    (Option<Seq<char>>, Seq<Seq<char>>),
    Seq<char>,
>
    decreases args.len(),
{
    if args.len() == 0 {
        Ok((file, args))
    } else if is_file_flag(args[0]) {
        if args.len() < 2 {
            Err(missing_parameter_message(args[0]))
        } else {
            flags_spec(args.skip(2), Some(args[1]))
        }
    } else if args[0] == "--"@ {
        Ok((file, args.skip(1)))
    } else {
        Ok((file, args))
    }
}

/// The files that the arguments `names` ask for: the standard input where
/// there are none.
pub open spec fn input_files_spec(names: Seq<Seq<char>>) -> InputFileView {
    if names.len() == 0 {
        InputFileView::InStream
    } else {
        InputFileView::Files(names)
    }
}

/// What the arguments `args` ask for. The first is the program's own name
/// and is skipped. Where no file flag names the program's file, the first
/// argument after the flags is the program's text.
pub open spec fn parse_args_spec(args: Seq<Seq<char>>) -> Result<ConfigView, Seq<char>> {
    let given = if args.len() == 0 {
        args
    } else {
        args.skip(1)
    };
    match flags_spec(given, None) {
        Err(msg) => Err(msg),
        Ok((file, rest)) => match file {
            Some(path) => Ok(
                ConfigView {
                    input_files: input_files_spec(rest),
                    program: ProgramSourceView::File(path),
                },
            ),
            None => if rest.len() == 0 {
                Err("Program source hasn't been specified"@)
            } else {
                Ok(
                    ConfigView {
                        input_files: input_files_spec(rest.skip(1)),
                        program: ProgramSourceView::Literal(rest[0]),
                    },
                )
            },
        },
    }
}

/// Whether `s` is the text `literal`.
fn is_text(s: &String, literal: &str) -> (b: bool)
    ensures
        b == (s@ == literal@),
{
    let wanted = String::from_str(literal);
    let b = *s == wanted;
    assert(b == (s@ =~= literal@));
    b
}

/// The arguments from `from` on.
fn rest_from(args: &Vec<String>, from: usize) -> (rest: Vec<String>)
    requires
        from <= args.len(),
    ensures
        text_views(rest@) == text_views(args@).skip(from as int),
{
    let mut rest: Vec<String> = Vec::new();
    let mut i: usize = from;
    assert(text_views(rest@) =~= text_views(args@).subrange(from as int, i as int));
    while i < args.len()
        invariant
            from <= i <= args.len(),
            text_views(rest@) == text_views(args@).subrange(from as int, i as int),
        decreases args.len() - i,
    {
        let name = args[i].clone();
        assert(name@ == args@[i as int]@);
        assert(text_views(rest@.push(name)) =~= text_views(rest@).push(name@));
        assert(text_views(rest@).push(name@) =~= text_views(args@).subrange(from as int, i + 1));
        rest.push(name);
        i += 1;
    }
    assert(text_views(args@).subrange(from as int, args.len() as int) =~= text_views(args@).skip(
        from as int,
    ));
    rest
}

/// Reads the command line.
///
/// Fails where a file flag is the last argument, and where neither a file
/// flag nor a program text is given.
pub fn parse_args(args: Vec<String>) -> (res: Result<Config, String>)
    ensures
        match parse_args_spec(text_views(args@)) {
            Ok(config) => res matches Ok(c) && c@ == config,
            Err(msg) => res matches Err(m) && m@ == msg,
        },
{
    let ghost all = text_views(args@);
    let ghost given = if all.len() == 0 {
        all
    } else {
        all.skip(1)
    };
    let n = args.len();
    let mut file: Option<String> = None;
    let mut i: usize = if n == 0 {
        0
    } else {
        1
    };
    assert(all.skip(i as int) =~= given);
    let mut flags_done = false;
    while !flags_done && i < n
        invariant
            i <= n,
            n == args.len(),
            all == text_views(args@),
            given == (if all.len() == 0 {
                all
            } else {
                all.skip(1)
            }),
            flags_spec(given, None) == (if flags_done {
                Ok::<(Option<Seq<char>>, Seq<Seq<char>>), Seq<char>>(
                    (
                        match file {
                            Some(f) => Some(f@),
                            None => None,
                        },
                        all.skip(i as int),
                    ),
                )
            } else {
                flags_spec(
                    all.skip(i as int),
                    match file {
                        Some(f) => Some(f@),
                        None => None,
                    },
                )
            }),
        decreases n - i, if flags_done { 0int } else { 1int },
    {
        let ghost here = all.skip(i as int);
        assert(here[0] == args@[i as int]@);
        if is_text(&args[i], "-f") || is_text(&args[i], "--file") {
            if i + 1 >= n {
                let mut msg = args[i].clone();
                msg.append(" takes a parameter");
                return Err(msg);
            }
            assert(here[1] == args@[i + 1]@);
            assert(here.skip(2) =~= all.skip(i + 2));
            file = Some(args[i + 1].clone());
            i += 2;
        } else if is_text(&args[i], "--") {
            assert(here.skip(1) =~= all.skip(i + 1));
            i += 1;
            flags_done = true;
        } else {
            flags_done = true;
        }
    }
    let ghost rest = all.skip(i as int);
    let program = match file {
        Some(path) => ProgramSource::File(path),
        None => {
            if i >= n {
                return Err(String::from_str("Program source hasn't been specified"));
            }
            assert(rest[0] == args@[i as int]@);
            assert(rest.skip(1) =~= all.skip(i + 1));
            let source = args[i].clone();
            i += 1;
            ProgramSource::Literal(source)
        },
    };
    let input_files = if i >= n {
        InputFile::InStream
    } else {
        InputFile::Files(rest_from(&args, i))
    };
    Ok(Config { input_files, program })
}

} // verus!
