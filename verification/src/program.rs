//! Compiled programs and the stack machine that runs them.

use crate::chars::{char_is_whitespace, is_whitespace, lemma_prefix_len, lemma_prefix_len_bounds, prefix_len};
use crate::ast;
use crate::compiler::{
    append_ops, builtin_functions, builtin_table, compile_args_spec, compile_expr_spec,
    compile_function_call, compile_function_call_spec, compile_statements_spec, concat_ops,
    lemma_call_checked, lemma_statement_error_rejects_program, lemma_statements_fail, lookup,
    without_index, Type, TypedComputationView, TypedFunctionView,
};
use crate::tokens::{invalid_character_message, scan, scan_spec};
use vstd::prelude::*;
use vstd::std_specs::iter::IteratorSpec;

verus! {

/// One instruction of the stack machine.
#[derive(Debug, Clone, Copy, PartialEq, Eq, Structural)]
pub enum Op {
    /// Pops a value and appends its text to the output.
    Print,
    /// Pushes the current line.
    LoadItem,
    /// Pops a list and pushes its element at `index`.
    LoadIndex { index: i32 },
    /// Pops a text and pushes the list of its words.
    SplitStr,
}

/// A value on the machine's stack.
enum Value {
    Text(String),
    List(Vec<String>),
}

/// A value on the machine's stack, as a mathematical value.
pub enum ValueView {
    Text(Seq<char>),
    List(Seq<Seq<char>>),
}

/// The texts of a sequence of strings, one for one.
pub open spec fn text_views(items: Seq<String>) -> Seq<Seq<char>> {
    items.map_values(|s: String| s@)
}

impl View for Value {
    type V = ValueView;

    closed spec fn view(&self) -> ValueView {
        match self {
            Value::Text(s) => ValueView::Text(s@),
            Value::List(items) => ValueView::List(text_views(items@)),
        }
    }
}

/// The views of a stack of values, bottom first.
spec fn value_views(stack: Seq<Value>) -> Seq<ValueView> {
    stack.map_values(|v: Value| v@)
}

/// Why a program stopped on a line.
#[derive(Debug, Clone, Copy, PartialEq, Eq, Structural)]
pub enum Fault {
    /// An instruction needed a value and the stack was empty.
    EmptyStack,
    /// `SplitStr` found a list where it needed a text.
    ExpectedText,
    /// `LoadIndex` found a text where it needed a list.
    NotAList,
    /// `LoadIndex` was given an index that the list does not have.
    OutOfBounds,
}

impl Fault {
    /// The message that describes the fault.
    pub open spec fn message(self) -> Seq<char> {
        match self {
            Fault::EmptyStack => "Empty stack"@,
            Fault::ExpectedText => "expected Text"@,
            Fault::NotAList => "not a list"@,
            Fault::OutOfBounds => "out of bounds"@,
        }
    }
}

/// The failure of a program on one line. It carries a message and nothing
/// else.
#[derive(Debug)]
pub struct RuntimeError {
    msg: String,
}

impl View for RuntimeError {
    type V = Seq<char>;

    closed spec fn view(&self) -> Seq<char> {
        self.msg@
    }
}

impl RuntimeError {
    /// The error that reports `fault`.
    fn new(fault: Fault) -> (e: RuntimeError)
        ensures
            e@ == fault.message(),
    {
        let msg = match fault {
            Fault::EmptyStack => String::from_str("Empty stack"),
            Fault::ExpectedText => String::from_str("expected Text"),
            Fault::NotAList => String::from_str("not a list"),
            Fault::OutOfBounds => String::from_str("out of bounds"),
        };
        RuntimeError { msg }
    }

    /// The error's message.
    pub fn to_string(&self) -> (s: String)
        ensures
            s@ == self@,
    {
        self.msg.clone()
    }
}

/// The machine between two instructions: its stack, bottom first, and the
/// output written so far.
pub struct MachineState {
    pub stack: Seq<ValueView>,
    pub output: Seq<char>,
}

/// `is_whitespace` negated, as a value.
pub open spec fn word_class() -> spec_fn(char) -> bool {
    |c: char| !is_whitespace(c)
}

/// The words of `s`: its maximal runs of characters that are not white
/// space, in order. None is empty.
pub open spec fn split_whitespace(s: Seq<char>) -> Seq<Seq<char>>
    decreases s.len(),
{
    if s.len() == 0 {
        Seq::empty()
    } else if is_whitespace(s[0]) {
        split_whitespace(s.skip(1))
    } else {
        let n = prefix_len(s, word_class()) as int;
        proof {
            lemma_prefix_len_bounds(s, word_class());
        }
        seq![s.take(n)] + split_whitespace(s.skip(n))
    }
}

/// The texts `items` written one after the other, with nothing between them.
pub open spec fn concat_all(items: Seq<Seq<char>>) -> Seq<char>
    decreases items.len(),
{
    if items.len() == 0 {
        Seq::empty()
    } else {
        concat_all(items.drop_last()) + items.last()
    }
}

/// The text that `Print` writes for a value: a text as it is, a list as its
/// elements with nothing between them.
pub open spec fn render_value(v: ValueView) -> Seq<char> {
    match v {
        ValueView::Text(s) => s,
        ValueView::List(items) => concat_all(items),
    }
}

/// The effect of one instruction on the machine, for the line `line`.
pub open spec fn step(op: Op, line: Seq<char>, st: MachineState) -> Result<MachineState, Fault> {
    match op {
        Op::LoadItem => Ok(MachineState { stack: st.stack.push(ValueView::Text(line)), output: st.output }),
        Op::Print => if st.stack.len() == 0 {
            Err(Fault::EmptyStack)
        } else {
            Ok(
                MachineState {
                    stack: st.stack.drop_last(),
                    output: st.output + render_value(st.stack.last()),
                },
            )
        },
        Op::SplitStr => if st.stack.len() == 0 {
            Err(Fault::EmptyStack)
        } else {
            match st.stack.last() {
                ValueView::List(_) => Err(Fault::ExpectedText),
                ValueView::Text(s) => Ok(
                    MachineState {
                        stack: st.stack.drop_last().push(ValueView::List(split_whitespace(s))),
                        output: st.output,
                    },
                ),
            }
        },
        Op::LoadIndex { index } => if st.stack.len() == 0 {
            Err(Fault::EmptyStack)
        } else {
            match st.stack.last() {
                ValueView::Text(_) => Err(Fault::NotAList),
                ValueView::List(items) => if 0 <= index < items.len() {
                    Ok(
                        MachineState {
                            stack: st.stack.drop_last().push(ValueView::Text(items[index as int])),
                            output: st.output,
                        },
                    )
                } else {
                    Err(Fault::OutOfBounds)
                },
            }
        },
    }
}

/// The machine after the instructions `ops`, run in order from the state
/// `st`. The first instruction that fails ends the run.
pub open spec fn exec_from(ops: Seq<Op>, line: Seq<char>, st: MachineState) -> Result<
    MachineState,
    Fault,
>
    decreases ops.len(),
{
    if ops.len() == 0 {
        Ok(st)
    } else {
        match step(ops[0], line, st) {
            Err(fault) => Err(fault),
            Ok(next) => exec_from(ops.skip(1), line, next),
        }
    }
}

/// The output of the instructions `ops` on the line `line`, from an empty
/// stack and an empty output.
pub open spec fn run_spec(ops: Seq<Op>, line: Seq<char>) -> Result<Seq<char>, Fault> {
    match exec_from(ops, line, MachineState { stack: Seq::empty(), output: Seq::empty() }) {
        Ok(st) => Ok(st.output),
        Err(fault) => Err(fault),
    }
}

/// Whether `res` is what running returns when the outcome is `expected`.
pub open spec fn run_agrees(res: Result<String, RuntimeError>, expected: Result<Seq<char>, Fault>) -> bool {
    match expected {
        Ok(out) => res matches Ok(s) && s@ == out,
        Err(fault) => res matches Err(e) && e@ == fault.message(),
    }
}

/// Whether `w` is a word: it is not empty and holds no white space.
pub open spec fn is_word(w: Seq<char>) -> bool {
    w.len() > 0 && forall|k: int| 0 <= k < w.len() ==> !is_whitespace(#[trigger] w[k])
}

/// Every word that splitting finds is a word.
pub proof fn lemma_split_gives_words(s: Seq<char>)
    ensures
        forall|i: int| 0 <= i < split_whitespace(s).len() ==> is_word(#[trigger] split_whitespace(s)[i]),
    decreases s.len(),
{
    if s.len() == 0 {
        assert(split_whitespace(s).len() == 0);
    } else if is_whitespace(s[0]) {
        lemma_split_gives_words(s.skip(1));
        assert(split_whitespace(s) == split_whitespace(s.skip(1)));
    } else {
        lemma_prefix_len_bounds(s, word_class());
        let n = prefix_len(s, word_class()) as int;
        let rest = split_whitespace(s.skip(n));
        lemma_split_gives_words(s.skip(n));
        let first = s.take(n);
        assert forall|k: int| 0 <= k < first.len() implies !is_whitespace(#[trigger] first[k]) by {
            assert(word_class()(s[k]));
        }
        assert(is_word(first));
        assert forall|i: int| 0 <= i < split_whitespace(s).len() implies is_word(
            #[trigger] split_whitespace(s)[i],
        ) by {
            if i > 0 {
                assert(split_whitespace(s)[i] == rest[i - 1]);
            } else {
                assert(split_whitespace(s)[0] == first);
            }
        }
    }
}

/// A word of `s`: from its first character, which is no white space, up to
/// the next white space.
proof fn lemma_split_word(s: Seq<char>, start: int, end: int)
    requires
        0 <= start < end <= s.len(),
        forall|k: int| start <= k < end ==> !is_whitespace(#[trigger] s[k]),
        end == s.len() || is_whitespace(s[end]),
    ensures
        split_whitespace(s.skip(start)) == seq![s.subrange(start, end)] + split_whitespace(
            s.skip(end),
        ),
{
    let t = s.skip(start);
    let n = end - start;
    assert forall|k: int| 0 <= k < n implies word_class()(#[trigger] t[k]) by {
        assert(t[k] == s[start + k]);
    }
    if n < t.len() {
        assert(t[n] == s[end]);
    }
    lemma_prefix_len(t, word_class(), n);
    assert(t.take(n) =~= s.subrange(start, end));
    assert(t.skip(n) =~= s.skip(end));
}

/// The words of `s`.
fn split_words(s: &str) -> (words: Vec<String>)
    ensures
        text_views(words@) == split_whitespace(s@),
{
    let ghost src = s@;
    let mut words: Vec<String> = Vec::new();
    let mut word = String::new();
    let mut in_word = false;
    let mut it = s.chars();
    let ghost i: int = 0;
    let ghost start: int = 0;
    assert(src.skip(0) =~= src);
    assert(text_views(words@) + split_whitespace(src) =~= split_whitespace(src));
    loop
        invariant
            src == s@,
            it.obeys_prophetic_iter_laws(),
            0 <= start <= i <= src.len(),
            it.remaining() == src.skip(i),
            in_word ==> {
                &&& start < i
                &&& word@ == src.subrange(start, i)
                &&& forall|k: int| start <= k < i ==> !is_whitespace(#[trigger] src[k])
                &&& split_whitespace(src) == text_views(words@) + split_whitespace(src.skip(start))
            },
            !in_word ==> {
                &&& word@.len() == 0
                &&& split_whitespace(src) == text_views(words@) + split_whitespace(src.skip(i))
            },
        decreases src.len() - i,
    {
        match it.next() {
            None => {
                if in_word {
                    proof {
                        lemma_split_word(src, start, i);
                        lemma_push_text(words@, word, split_whitespace(src.skip(i)));
                    }
                    words.push(word);
                }
                assert(text_views(words@) + Seq::<Seq<char>>::empty() =~= text_views(words@));
                return words;
            },
            Some(ch) => {
                assert(ch == src[i]);
                if char_is_whitespace(ch) {
                    if in_word {
                        proof {
                            lemma_split_word(src, start, i);
                            lemma_push_text(words@, word, split_whitespace(src.skip(i)));
                        }
                        words.push(word);
                        word = String::new();
                        in_word = false;
                    }
                    assert(src.skip(i).skip(1) =~= src.skip(i + 1));
                } else {
                    if !in_word {
                        in_word = true;
                        proof {
                            start = i;
                        }
                    }
                    word.push(ch);
                    assert(word@ =~= src.subrange(start, i + 1));
                }
                proof {
                    i = i + 1;
                }
            },
        }
    }
}

/// Appending a text to those already collected.
proof fn lemma_push_text(done: Seq<String>, s: String, rest: Seq<Seq<char>>)
    ensures
        text_views(done) + (seq![s@] + rest) == text_views(done.push(s)) + rest,
{
    assert(text_views(done.push(s)) =~= text_views(done) + seq![s@]);
    assert(text_views(done) + (seq![s@] + rest) =~= text_views(done.push(s)) + rest);
}

/// Appends to `output` the text that `Print` writes for `value`.
fn print_value(output: &mut String, value: &Value)
    ensures
        final(output)@ == old(output)@ + render_value(value@),
{
    match value {
        Value::Text(s) => {
            output.append(s.as_str());
        },
        Value::List(items) => {
            let mut i: usize = 0;
            assert(text_views(items@).take(0) =~= Seq::<Seq<char>>::empty());
            assert(output@ =~= old(output)@ + concat_all(text_views(items@).take(0)));
            while i < items.len()
                invariant
                    0 <= i <= items.len(),
                    output@ == old(output)@ + concat_all(text_views(items@).take(i as int)),
                decreases items.len() - i,
            {
                proof {
                    let all = text_views(items@);
                    assert(all.take(i + 1).drop_last() =~= all.take(i as int));
                    assert(all.take(i + 1).last() == items@[i as int]@);
                }
                output.append(items[i].as_str());
                i += 1;
                assert(output@ =~= old(output)@ + concat_all(text_views(items@).take(i as int)));
            }
            assert(text_views(items@).take(items.len() as int) =~= text_views(items@));
        },
    }
}

/// A compiled program: a flat sequence of instructions, run from first to
/// last on every line.
#[derive(Debug)]
pub struct Program {
    ops: Vec<Op>,
}

impl View for Program {
    type V = Seq<Op>;

    closed spec fn view(&self) -> Seq<Op> {
        self.ops@
    }
}

impl Program {
    /// The program made of the instructions `ops`.
    pub fn from_ops(ops: Vec<Op>) -> (p: Program)
        ensures
            p@ == ops@,
    {
        Program { ops }
    }

    /// The program's instructions.
    pub fn ops(&self) -> (ops: &Vec<Op>)
        ensures
            ops@ == self@,
    {
        &self.ops
    }

    /// Runs the program on one line and returns what it printed.
    ///
    /// Every call starts from an empty stack and an empty output, so the
    /// result depends on the program and the line alone. The first
    /// instruction that fails ends the run, and nothing printed before it is
    /// returned.
    pub fn run(&self, input: &str) -> (res: Result<String, RuntimeError>)
        ensures
            run_agrees(res, run_spec(self@, input@)),
    {
        let ghost line = input@;
        let ghost ops = self.ops@;
        let mut output = String::new();
        let mut stack: Vec<Value> = Vec::new();
        let mut i: usize = 0;
        assert(ops.skip(0) =~= ops);
        assert(value_views(stack@) =~= Seq::empty());
        while i < self.ops.len()
            invariant
                0 <= i <= self.ops.len(),
                ops == self.ops@,
                line == input@,
                exec_from(
                    ops,
                    line,
                    MachineState { stack: Seq::empty(), output: Seq::empty() },
                ) == exec_from(
                    ops.skip(i as int),
                    line,
                    MachineState { stack: value_views(stack@), output: output@ },
                ),
            decreases self.ops.len() - i,
        {
            let op = self.ops[i];
            let ghost before = MachineState { stack: value_views(stack@), output: output@ };
            proof {
                assert(ops.skip(i as int)[0] == op);
                assert(ops.skip(i as int).skip(1) =~= ops.skip(i + 1));
                if stack@.len() > 0 {
                    assert(value_views(stack@).last() == stack@.last()@);
                    assert(value_views(stack@.drop_last()) =~= value_views(stack@).drop_last());
                }
            }
            match op {
                Op::Print => match stack.pop() {
                    None => {
                        return Err(RuntimeError::new(Fault::EmptyStack));
                    },
                    Some(value) => {
                        print_value(&mut output, &value);
                    },
                },
                Op::LoadItem => {
                    let value = Value::Text(String::from_str(input));
                    proof {
                        lemma_push_value(stack@, value);
                    }
                    stack.push(value);
                },
                Op::LoadIndex { index } => match stack.pop() {
                    None => {
                        return Err(RuntimeError::new(Fault::EmptyStack));
                    },
                    Some(Value::Text(_)) => {
                        return Err(RuntimeError::new(Fault::NotAList));
                    },
                    Some(Value::List(items)) => {
                        if index < 0 || index as usize >= items.len() {
                            return Err(RuntimeError::new(Fault::OutOfBounds));
                        }
                        let value = Value::Text(items[index as usize].clone());
                        proof {
                            lemma_push_value(stack@, value);
                        }
                        stack.push(value);
                    },
                },
                Op::SplitStr => match stack.pop() {
                    None => {
                        return Err(RuntimeError::new(Fault::EmptyStack));
                    },
                    Some(Value::List(_)) => {
                        return Err(RuntimeError::new(Fault::ExpectedText));
                    },
                    Some(Value::Text(s)) => {
                        let value = Value::List(split_words(s.as_str()));
                        proof {
                            lemma_push_value(stack@, value);
                        }
                        stack.push(value);
                    },
                },
            }
            assert(step(op, line, before) == Ok::<MachineState, Fault>(
                MachineState { stack: value_views(stack@), output: output@ },
            ));
            i += 1;
        }
        Ok(output)
    }
}

/// Pushing a value onto the stack.
proof fn lemma_push_value(stack: Seq<Value>, v: Value)
    ensures
        value_views(stack.push(v)) == value_views(stack).push(v@),
{
    assert(value_views(stack.push(v)) =~= value_views(stack).push(v@));
}

/// Why a source text is no program.
#[derive(Debug)]
pub enum CompileError {
    /// The text holds a character that belongs to no token.
    ScanError { msg: String },
    /// The tokens do not follow the grammar.
    SyntaxError { msg: String },
    /// A call or an index is ill-typed, or a function is unknown.
    SemanticAnalysisError { msg: String },
}

/// Why a source text is no program, as a mathematical value.
pub enum CompileErrorView {
    ScanError { msg: Seq<char> },
    SyntaxError { msg: Seq<char> },
    SemanticAnalysisError { msg: Seq<char> },
}

impl CompileErrorView {
    /// The error's message.
    pub open spec fn message(self) -> Seq<char> {
        match self {
            CompileErrorView::ScanError { msg } => msg,
            CompileErrorView::SyntaxError { msg } => msg,
            CompileErrorView::SemanticAnalysisError { msg } => msg,
        }
    }
}

impl View for CompileError {
    type V = CompileErrorView;

    open spec fn view(&self) -> CompileErrorView {
        match self {
            CompileError::ScanError { msg } => CompileErrorView::ScanError { msg: msg@ },
            CompileError::SyntaxError { msg } => CompileErrorView::SyntaxError { msg: msg@ },
            CompileError::SemanticAnalysisError { msg } => CompileErrorView::SemanticAnalysisError {
                msg: msg@,
            },
        }
    }
}

impl CompileError {
    /// The error's message.
    pub fn to_string(&self) -> (s: String)
        ensures
            s@ == self@.message(),
    {
        match self {
            CompileError::ScanError { msg } => msg.clone(),
            CompileError::SyntaxError { msg } => msg.clone(),
            CompileError::SemanticAnalysisError { msg } => msg.clone(),
        }
    }
}

/// The instructions that the syntax tree `tree` compiles to, against the
/// builtin functions.
pub open spec fn from_ast_spec(tree: ast::ASTView) -> Result<Seq<Op>, CompileErrorView> {
    match compile_statements_spec(tree.statements, builtin_table()) {
        Err(msg) => Err(CompileErrorView::SemanticAnalysisError { msg }),
        Ok(ops) => Ok(ops),
    }
}

/// The instructions that the source text `src` compiles to: it is scanned,
/// then parsed, then compiled, and the first stage that fails gives the
/// error.
pub open spec fn compile_spec(src: Seq<char>) -> Result<Seq<Op>, CompileErrorView> {
    match scan_spec(src) {
        Err(c) => Err(CompileErrorView::ScanError { msg: invalid_character_message(c) }),
        Ok(tokens) => match ast::parse_spec(tokens) {
            Err(msg) => Err(CompileErrorView::SyntaxError { msg }),
            Ok(tree) => from_ast_spec(tree),
        },
    }
}

/// Whether `res` is what compiling a program returns when the outcome is
/// `expected`.
pub open spec fn program_agrees(
    res: Result<Program, CompileError>,
    expected: Result<Seq<Op>, CompileErrorView>,
) -> bool {
    match expected {
        Ok(ops) => res matches Ok(p) && p@ == ops,
        Err(e) => res matches Err(x) && x@ == e,
    }
}

/// Compiles a source text to a program.
pub fn compile(source_code: &str) -> (res: Result<Program, CompileError>)
    ensures
        program_agrees(res, compile_spec(source_code@)),
{
    let tokens = match scan(source_code) {
        Ok(tokens) => tokens,
        Err(msg) => {
            return Err(CompileError::ScanError { msg });
        },
    };
    let tree = match ast::parse(tokens) {
        Ok(tree) => tree,
        Err(msg) => {
            return Err(CompileError::SyntaxError { msg });
        },
    };
    Program::from_ast(&tree)
}

impl Program {
    /// Compiles a syntax tree to a program: the instructions of its
    /// statements, in order.
    pub fn from_ast(tree: &ast::AST) -> (res: Result<Program, CompileError>)
        ensures
            program_agrees(res, from_ast_spec(tree@)),
    {
        let functions = builtin_functions();
        let ghost sts = tree@.statements;
        let ghost table = builtin_table();
        let mut ops: Vec<Op> = Vec::new();
        let mut i: usize = 0;
        assert(sts.take(0) =~= Seq::<ast::StatementView>::empty());
        while i < tree.statements.len()
            invariant
                0 <= i <= tree.statements.len(),
                sts == tree@.statements,
                sts.len() == tree.statements@.len(),
                table == builtin_table(),
                functions@ == table,
                compile_statements_spec(sts.take(i as int), table) == Ok::<Seq<Op>, Seq<char>>(ops@),
            decreases tree.statements.len() - i,
        {
            proof {
                assert(sts.take(i + 1).drop_last() =~= sts.take(i as int));
                assert(sts.take(i + 1).last() == tree.statements@[i as int]@);
                if compile_statements_spec(sts.take(i + 1), table) is Err {
                    lemma_statements_fail(sts, i + 1, table);
                }
            }
            match &tree.statements[i] {
                ast::Statement::FunctionCall { function_call } => {
                    match compile_function_call(function_call, &functions) {
                        Ok(c) => {
                            append_ops(&mut ops, &c.ops);
                        },
                        Err(e) => {
                            return Err(e);
                        },
                    }
                },
            }
            i += 1;
        }
        assert(sts.take(sts.len() as int) =~= sts);
        Ok(Program { ops })
    }
}

/// Whether two outcomes of running are the same: the same output, or a
/// failure with the same message.
pub open spec fn same_outcome(a: Result<String, RuntimeError>, b: Result<String, RuntimeError>) -> bool {
    match a {
        Ok(s) => b matches Ok(t) && s@ == t@,
        Err(e) => b matches Err(f) && e@ == f@,
    }
}

/// Whether two outcomes of compiling are the same: programs of the same
/// instructions, or the same error.
pub open spec fn same_compilation(
    a: Result<Program, CompileError>,
    b: Result<Program, CompileError>,
) -> bool {
    match a {
        Ok(p) => b matches Ok(q) && p@ == q@,
        Err(e) => b matches Err(f) && e@ == f@,
    }
}

/// Compiling is a function of the source text: whatever `compile` returns
/// for a text, it returns the same for it again.
pub proof fn lemma_compile_deterministic(
    src: Seq<char>,
    first: Result<Program, CompileError>,
    second: Result<Program, CompileError>,
)
    requires
        program_agrees(first, compile_spec(src)),
        program_agrees(second, compile_spec(src)),
    ensures
        same_compilation(first, second),
{
}

/// Running is a function of the program's instructions and the line:
/// whatever `run` returns for them, it returns the same for them again,
/// whichever lines were run before and on whichever program of the same
/// instructions.
pub proof fn lemma_run_pure(
    p: Program,
    q: Program,
    line: Seq<char>,
    first: Result<String, RuntimeError>,
    second: Result<String, RuntimeError>,
)
    requires
        p@ == q@,
        run_agrees(first, run_spec(p@, line)),
        run_agrees(second, run_spec(q@, line)),
    ensures
        same_outcome(first, second),
{
}

/// Two programs compiled from the same source text give the same outcome on
/// every line.
pub proof fn lemma_same_source_same_output(
    src: Seq<char>,
    first: Result<Program, CompileError>,
    second: Result<Program, CompileError>,
    line: Seq<char>,
)
    requires
        program_agrees(first, compile_spec(src)),
        program_agrees(second, compile_spec(src)),
    ensures
        first matches Ok(p) ==> second matches Ok(q) && run_spec(p@, line) == run_spec(q@, line),
{
}

/// A source text whose tokens parse to a tree with a call that does not
/// compile gives no program, but a semantic error.
pub proof fn lemma_ill_typed_never_runs(src: Seq<char>, k: int)
    requires
        scan_spec(src) matches Ok(tokens) && ast::parse_spec(tokens) matches Ok(tree) && 0 <= k
            < tree.statements.len() && (tree.statements[k] matches ast::StatementView::FunctionCall {
            function_call,
        } && compile_function_call_spec(function_call, builtin_table()) is Err),
    ensures
        compile_spec(src) matches Err(e) && e is SemanticAnalysisError,
{
    let tree = ast::parse_spec(scan_spec(src)->Ok_0)->Ok_0;
    lemma_statement_error_rejects_program(tree.statements, builtin_table(), k);
}

/// Loading an element succeeds exactly where the index is within the list:
/// on a list of `n` elements, for `0 <= index < n` it replaces the list by
/// its element at `index`, and for every other index it fails as out of
/// bounds.
pub proof fn lemma_load_index(index: i32, line: Seq<char>, st: MachineState, items: Seq<Seq<char>>)
    requires
        st.stack.len() > 0,
        st.stack.last() == ValueView::List(items),
    ensures
        0 <= index < items.len() ==> step(Op::LoadIndex { index }, line, st) == Ok::<
            MachineState,
            Fault,
        >(
            MachineState {
                stack: st.stack.drop_last().push(ValueView::Text(items[index as int])),
                output: st.output,
            },
        ),
        !(0 <= index < items.len()) ==> step(Op::LoadIndex { index }, line, st) == Err::<
            MachineState,
            Fault,
        >(Fault::OutOfBounds),
{
}

/// Running `first` and then `second` is running `first + second`.
pub proof fn lemma_exec_concat(first: Seq<Op>, second: Seq<Op>, line: Seq<char>, st: MachineState)
    ensures
        exec_from(first + second, line, st) == (match exec_from(first, line, st) {
            Err(fault) => Err(fault),
            Ok(mid) => exec_from(second, line, mid),
        }),
    decreases first.len(),
{
    if first.len() == 0 {
        assert(first + second =~= second);
    } else {
        let all = first + second;
        assert(all[0] == first[0]);
        assert(all.skip(1) =~= first.skip(1) + second);
        if let Ok(next) = step(first[0], line, st) {
            lemma_exec_concat(first.skip(1), second, line, next);
        }
    }
}

/// Whether `after` is the stack `before` with what a computation of the
/// type `t` leaves on it: nothing for a unit, and else one value of that
/// type.
pub open spec fn leaves(t: Type, before: Seq<ValueView>, after: Seq<ValueView>) -> bool {
    match t {
        Type::Unit => after == before,
        Type::Text => after.len() > 0 && after.drop_last() == before && after.last() is Text,
        Type::List => after.len() > 0 && after.drop_last() == before && after.last() is List,
    }
}

/// Whether the instructions `ops` keep to the type `t` on the line `line`
/// from the state `st`: they end with what the type leaves on the stack, or
/// stop at an index that is out of bounds, and in no other way.
pub open spec fn keeps_to(ops: Seq<Op>, t: Type, line: Seq<char>, st: MachineState) -> bool {
    match exec_from(ops, line, st) {
        Ok(after) => leaves(t, st.stack, after.stack),
        Err(fault) => fault == Fault::OutOfBounds,
    }
}

/// The arguments that compile are as many as there are.
proof fn lemma_args_compile_one_for_one(args: Seq<ast::ExprView>, table: Seq<TypedFunctionView>)
    ensures
        compile_args_spec(args, table) matches Ok(cs) ==> cs.len() == args.len(),
    decreases args.len(),
{
    if args.len() > 0 {
        lemma_args_compile_one_for_one(args.drop_last(), table);
    }
}

/// What an expression compiles to against the builtin functions keeps to
/// the expression's type.
pub proof fn lemma_expr_keeps_to_type(e: ast::ExprView, line: Seq<char>, st: MachineState)
    requires
        compile_expr_spec(e, builtin_table()) is Ok,
    ensures
        compile_expr_spec(e, builtin_table()) matches Ok(c) && keeps_to(c.ops, c.result_type, line, st),
    decreases e, 0int,
{
    let c = compile_expr_spec(e, builtin_table())->Ok_0;
    let base = compile_expr_spec(without_index(e), builtin_table())->Ok_0;
    match e.arr_expr {
        ast::ArrExprView::ValueExpr { value } => {
            assert(base.ops =~= seq![Op::LoadItem]);
            reveal_with_fuel(exec_from, 2);
            assert(st.stack.push(ValueView::Text(line)).drop_last() =~= st.stack);
        },
        ast::ArrExprView::FunctionExpr { function_call } => {
            lemma_call_keeps_to_type(function_call, line, st);
        },
    }
    assert(keeps_to(base.ops, base.result_type, line, st));
    match e.index {
        None => {},
        Some(index) => {
            let load = seq![Op::LoadIndex { index }];
            assert(c.ops =~= base.ops + load);
            lemma_exec_concat(base.ops, load, line, st);
            if let Ok(mid) = exec_from(base.ops, line, st) {
                reveal_with_fuel(exec_from, 2);
                if let Ok(after) = exec_from(load, line, mid) {
                    assert(after.stack.drop_last() =~= mid.stack.drop_last());
                }
            }
        },
    }
}

/// What a call compiles to against the builtin functions keeps to the
/// call's type.
pub proof fn lemma_call_keeps_to_type(call: ast::FunctionCallView, line: Seq<char>, st: MachineState)
    requires
        compile_function_call_spec(call, builtin_table()) is Ok,
    ensures
        compile_function_call_spec(call, builtin_table()) matches Ok(c) && keeps_to(
            c.ops,
            c.result_type,
            line,
            st,
        ),
    decreases call, 1int,
{
    let table = builtin_table();
    let c = compile_function_call_spec(call, table)->Ok_0;
    let cs = compile_args_spec(call.args, table)->Ok_0;
    lemma_args_compile_one_for_one(call.args, table);
    lemma_call_checked(call.function_name, cs, table);
    let f = lookup(table, call.function_name)->Some_0;
    assert(f == table[0] || f == table[1]) by {
        reveal_with_fuel(lookup, 3);
    }
    assert(cs.len() == 1);
    assert(call.args.drop_last() =~= Seq::<ast::ExprView>::empty());
    assert(compile_args_spec(call.args.drop_last(), table) == Ok::<
        Seq<TypedComputationView>,
        Seq<char>,
    >(Seq::empty()));
    let arg = compile_expr_spec(call.args[0], table)->Ok_0;
    assert(call.args.last() == call.args[0]);
    assert(cs =~= seq![arg]);
    assert(cs.drop_last() =~= Seq::<TypedComputationView>::empty());
    assert(concat_ops(cs.drop_last()) =~= Seq::<Op>::empty());
    assert(concat_ops(cs) =~= arg.ops);
    assert(arg.result_type == Type::Text);
    lemma_expr_keeps_to_type(call.args[0], line, st);
    assert(c.ops == arg.ops + f.ops);
    lemma_exec_concat(arg.ops, f.ops, line, st);
    if let Ok(mid) = exec_from(arg.ops, line, st) {
        reveal_with_fuel(exec_from, 2);
        if let Ok(after) = exec_from(f.ops, line, mid) {
            if f == table[1] {
                assert(after.stack.drop_last() =~= mid.stack.drop_last());
            }
        }
    }
}

/// What statements compile to against the builtin functions runs to its
/// end or stops at an index that is out of bounds, from whatever state.
pub proof fn lemma_statements_run_safely(
    sts: Seq<ast::StatementView>,
    line: Seq<char>,
    st: MachineState,
)
    requires
        compile_statements_spec(sts, builtin_table()) is Ok,
    ensures
        compile_statements_spec(sts, builtin_table()) matches Ok(ops) && (exec_from(ops, line, st) is Ok
            || exec_from(ops, line, st) == Err::<MachineState, Fault>(Fault::OutOfBounds)),
    decreases sts.len(),
{
    if sts.len() > 0 {
        let front = compile_statements_spec(sts.drop_last(), builtin_table())->Ok_0;
        let call = sts.last()->function_call;
        let c = compile_function_call_spec(call, builtin_table())->Ok_0;
        lemma_statements_run_safely(sts.drop_last(), line, st);
        lemma_exec_concat(front, c.ops, line, st);
        if let Ok(mid) = exec_from(front, line, st) {
            lemma_call_keeps_to_type(call, line, mid);
        }
    }
}

/// A compiled program never finds the stack empty or a value of the wrong
/// kind: on every line it runs to its end, or stops at an index that is out
/// of bounds.
pub proof fn lemma_compiled_programs_are_safe(src: Seq<char>, line: Seq<char>)
    requires
        compile_spec(src) is Ok,
    ensures
        compile_spec(src) matches Ok(ops) && (run_spec(ops, line) is Ok || run_spec(ops, line) == Err::<
            Seq<char>,
            Fault,
        >(Fault::OutOfBounds)),
{
    let tree = ast::parse_spec(scan_spec(src)->Ok_0)->Ok_0;
    lemma_statements_run_safely(
        tree.statements,
        line,
        MachineState { stack: Seq::empty(), output: Seq::empty() },
    );
}

} // verus!
