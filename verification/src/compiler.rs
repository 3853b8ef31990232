//! The compiler: a syntax tree to typed instructions.
//!
//! Every call is checked against the table of builtin functions: the name
//! must be known, the number of arguments must be the number of parameters,
//! and each argument must have the type of its parameter. An index may only
//! follow an expression whose type is a list.

use crate::ast;
use crate::decimal::{decimal_text, push_decimal};
use crate::program::{CompileError, CompileErrorView, Op};
use vstd::prelude::*;

verus! {

/// The static type of an expression.
#[derive(Debug, Clone, Copy, PartialEq, Eq, Structural)]
pub enum Type {
    Unit,
    Text,
    List,
}

impl Type {
    /// The name the type is reported under.
    pub open spec fn name(self) -> Seq<char> {
        match self {
            Type::Unit => "Unit"@,
            Type::Text => "Text"@,
            Type::List => "List"@,
        }
    }

    /// The name the type is reported under.
    pub fn to_string(&self) -> (s: String)
        ensures
            s@ == self.name(),
    {
        match self {
            Type::Unit => String::from_str("Unit"),
            Type::Text => String::from_str("Text"),
            Type::List => String::from_str("List"),
        }
    }
}

/// A builtin function: its name, the instructions that stand for a call of
/// it, its result type and the types of its parameters, in order.
#[derive(Debug)]
pub struct TypedFunction {
    pub name: String,
    pub ops: Vec<Op>,
    pub return_type: Type,
    pub arg_types: Vec<Type>,
}

/// A builtin function as a mathematical value.
pub struct TypedFunctionView {
    pub name: Seq<char>,
    pub ops: Seq<Op>,
    pub return_type: Type,
    pub arg_types: Seq<Type>,
}

impl View for TypedFunction {
    type V = TypedFunctionView;

    open spec fn view(&self) -> TypedFunctionView {
        TypedFunctionView {
            name: self.name@,
            ops: self.ops@,
            return_type: self.return_type,
            arg_types: self.arg_types@,
        }
    }
}

/// Instructions together with the type of the value they leave.
#[derive(Debug)]
pub struct TypedComputation {
    pub ops: Vec<Op>,
    pub result_type: Type,
}

/// Instructions and their type as a mathematical value.
pub struct TypedComputationView {
    pub ops: Seq<Op>,
    pub result_type: Type,
}

impl View for TypedComputation {
    type V = TypedComputationView;

    open spec fn view(&self) -> TypedComputationView {
        TypedComputationView { ops: self.ops@, result_type: self.result_type }
    }
}

/// The views of a sequence of computations, one for one.
pub open spec fn computation_views(cs: Seq<TypedComputation>) -> Seq<TypedComputationView> {
    cs.map_values(|c: TypedComputation| c@)
}

/// The views of a sequence of functions, one for one.
pub open spec fn function_views(fs: Seq<TypedFunction>) -> Seq<TypedFunctionView> {
    fs.map_values(|f: TypedFunction| f@)
}

/// Whether no two entries of `table` have the same name.
pub open spec fn names_unique(table: Seq<TypedFunctionView>) -> bool {
    forall|i: int, j: int|
        0 <= i < j < table.len() ==> (#[trigger] table[i]).name != (#[trigger] table[j]).name
}

/// The entry of `table` that is named `name`, if there is one.
pub open spec fn lookup(table: Seq<TypedFunctionView>, name: Seq<char>) -> Option<TypedFunctionView>
    decreases table.len(),
{
    if table.len() == 0 {
        None
    } else if table[0].name == name {
        Some(table[0])
    } else {
        lookup(table.skip(1), name)
    }
}

/// The builtin functions: `print(Text) -> Unit` and `split(Text) -> List`.
pub open spec fn builtin_table() -> Seq<TypedFunctionView> {
    seq![
        TypedFunctionView {
            name: "print"@,
            ops: seq![Op::Print],
            return_type: Type::Unit,
            arg_types: seq![Type::Text],
        },
        TypedFunctionView {
            name: "split"@,
            ops: seq![Op::SplitStr],
            return_type: Type::List,
            arg_types: seq![Type::Text],
        },
    ]
}

/// The table of functions that calls are checked against. No name occurs in
/// it twice.
#[derive(Debug)]
pub struct FunctionTable {
    entries: Vec<TypedFunction>,
}

impl View for FunctionTable {
    type V = Seq<TypedFunctionView>;

    closed spec fn view(&self) -> Seq<TypedFunctionView> {
        function_views(self.entries@)
    }
}

impl FunctionTable {
    /// Whether the table is well formed: no name occurs twice.
    pub open spec fn wf(&self) -> bool {
        names_unique(self@)
    }

    /// The entry named `name`, if there is one.
    pub fn get(&self, name: &String) -> (res: Option<&TypedFunction>)
        ensures
            match lookup(self@, name@) {
                Some(f) => res matches Some(g) && g@ == f,
                None => res is None,
            },
    {
        let ghost table = self@;
        let mut i: usize = 0;
        assert(table.skip(0) =~= table);
        while i < self.entries.len()
            invariant
                0 <= i <= self.entries.len(),
                table == self@,
                table.len() == self.entries@.len(),
                lookup(table, name@) == lookup(table.skip(i as int), name@),
            decreases self.entries.len() - i,
        {
            let entry = &self.entries[i];
            assert(table.skip(i as int)[0] == entry@);
            assert(table.skip(i as int).skip(1) =~= table.skip(i + 1));
            if entry.name == *name {
                assert(entry@.name =~= name@);
                return Some(entry);
            }
            i += 1;
        }
        None
    }
}

/// The table of the builtin functions.
pub fn builtin_functions() -> (table: FunctionTable)
    ensures
        table@ == builtin_table(),
        table.wf(),
{
    let mut entries: Vec<TypedFunction> = Vec::new();
    let mut print_ops: Vec<Op> = Vec::new();
    print_ops.push(Op::Print);
    let mut print_args: Vec<Type> = Vec::new();
    print_args.push(Type::Text);
    entries.push(
        TypedFunction {
            name: String::from_str("print"),
            ops: print_ops,
            return_type: Type::Unit,
            arg_types: print_args,
        },
    );
    let mut split_ops: Vec<Op> = Vec::new();
    split_ops.push(Op::SplitStr);
    let mut split_args: Vec<Type> = Vec::new();
    split_args.push(Type::Text);
    entries.push(
        TypedFunction {
            name: String::from_str("split"),
            ops: split_ops,
            return_type: Type::List,
            arg_types: split_args,
        },
    );
    let table = FunctionTable { entries };
    proof {
        assert(table@[0].ops =~= seq![Op::Print]);
        assert(table@[0].arg_types =~= seq![Type::Text]);
        assert(table@[1].ops =~= seq![Op::SplitStr]);
        assert(table@[1].arg_types =~= seq![Type::Text]);
        assert(table@ =~= builtin_table());
        lemma_builtin_names_differ();
    }
    table
}

/// `print` and `split` are different names.
proof fn lemma_builtin_names_differ()
    ensures
        "print"@ != "split"@,
        names_unique(builtin_table()),
{
    reveal_strlit("print");
    reveal_strlit("split");
    assert("print"@[0] == 'p');
    assert("split"@[0] == 's');
}

/// The message for a call of a function that the table does not have.
pub open spec fn not_found_message(name: Seq<char>) -> Seq<char> {
    "Function "@ + name + " not found"@
}

/// The message for a call with `given` arguments of a function that takes
/// `expected`.
pub open spec fn arity_message(name: Seq<char>, expected: nat, given: nat) -> Seq<char> {
    "Function "@ + name + " takes "@ + decimal_text(expected) + " arguments, but "@ + decimal_text(
        given,
    ) + " were given"@
}

/// The message for the argument at `position` of a call, of type `actual`
/// where the parameter has type `expected`.
pub open spec fn argument_type_message(
    position: nat,
    name: Seq<char>,
    expected: Type,
    actual: Type,
) -> Seq<char> {
    "Argument "@ + decimal_text(position) + " to function "@ + name + " is wrong: Expected "@
        + expected.name() + ", got "@ + actual.name()
}

/// The message for an index that follows an expression of type `actual`,
/// which is no list.
pub open spec fn index_type_message(actual: Type) -> Seq<char> {
    "Expected "@ + Type::List.name() + ", got "@ + actual.name()
}

/// The message for a name used as a value.
pub open spec fn identifier_message(name: Seq<char>) -> Seq<char> {
    "Identifier "@ + name + " is not supported"@
}

/// The first position at or after `from` at which the type of the
/// computation differs from the type wanted there.
pub open spec fn first_mismatch(cs: Seq<TypedComputationView>, types: Seq<Type>, from: int) -> Option<
    int,
>
    decreases cs.len() - from,
{
    if from < 0 || from >= cs.len() || from >= types.len() {
        None
    } else if cs[from].result_type != types[from] {
        Some(from)
    } else {
        first_mismatch(cs, types, from + 1)
    }
}

/// The instructions of the computations `cs`, one computation after the
/// other.
pub open spec fn concat_ops(cs: Seq<TypedComputationView>) -> Seq<Op>
    decreases cs.len(),
{
    if cs.len() == 0 {
        Seq::empty()
    } else {
        concat_ops(cs.drop_last()) + cs.last().ops
    }
}

/// What an expression compiles to: the instructions of its base and, where
/// it has an index, the instruction that loads the element. The base must
/// then be a list.
pub open spec fn compile_expr_spec(e: ast::ExprView, table: Seq<TypedFunctionView>) -> Result<
    TypedComputationView,
    Seq<char>,
>
    decreases e, 0int,
{
    let base = match e.arr_expr {
        ast::ArrExprView::ValueExpr { value } => match value {
            ast::ValueView::Item => Ok(
                TypedComputationView { ops: seq![Op::LoadItem], result_type: Type::Text },
            ),
            ast::ValueView::Identifier(id) => Err(identifier_message(id)),
        },
        ast::ArrExprView::FunctionExpr { function_call } => compile_function_call_spec(
            function_call,
            table,
        ),
    };
    match base {
        Err(msg) => Err(msg),
        Ok(c) => match e.index {
            None => Ok(c),
            Some(index) => if c.result_type == Type::List {
                Ok(
                    TypedComputationView {
                        ops: c.ops.push(Op::LoadIndex { index }),
                        result_type: Type::Text,
                    },
                )
            } else {
                Err(index_type_message(c.result_type))
            },
        },
    }
}

/// What the expressions `args` compile to, from left to right. The first
/// that fails is the failure of all.
pub open spec fn compile_args_spec(args: Seq<ast::ExprView>, table: Seq<TypedFunctionView>) -> Result<
    Seq<TypedComputationView>,
    Seq<char>,
>
    decreases args, 1int,
{
    if args.len() == 0 {
        Ok(Seq::empty())
    } else {
        match compile_args_spec(args.drop_last(), table) {
            Err(msg) => Err(msg),
            Ok(cs) => match compile_expr_spec(args.last(), table) {
                Err(msg) => Err(msg),
                Ok(c) => Ok(cs.push(c)),
            },
        }
    }
}

/// What a call compiles to: the instructions of its arguments, from left to
/// right, then those of the function. The arguments are compiled first;
/// then the function must be known, take as many arguments as are given, and
/// take each with the type it has.
pub open spec fn compile_function_call_spec(
    fc: ast::FunctionCallView,
    table: Seq<TypedFunctionView>,
) -> Result<TypedComputationView, Seq<char>>
    decreases fc, 2int,
{
    match compile_args_spec(fc.args, table) {
        Err(msg) => Err(msg),
        Ok(cs) => check_call(fc.function_name, cs, table),
    }
}

/// What a call of `name` compiles to once its arguments have compiled to
/// `cs`.
pub open spec fn check_call(
    name: Seq<char>,
    cs: Seq<TypedComputationView>,
    table: Seq<TypedFunctionView>,
) -> Result<TypedComputationView, Seq<char>> {
    match lookup(table, name) {
        None => Err(not_found_message(name)),
        Some(f) => if cs.len() != f.arg_types.len() {
            Err(arity_message(name, f.arg_types.len(), cs.len()))
        } else {
            match first_mismatch(cs, f.arg_types, 0) {
                Some(i) => Err(
                    argument_type_message(i as nat, name, f.arg_types[i], cs[i].result_type),
                ),
                None => Ok(
                    TypedComputationView { ops: concat_ops(cs) + f.ops, result_type: f.return_type },
                ),
            }
        },
    }
}

/// What the statements `sts` compile to: the instructions of each, in
/// order. The first that fails is the failure of all.
pub open spec fn compile_statements_spec(
    sts: Seq<ast::StatementView>,
    table: Seq<TypedFunctionView>,
) -> Result<Seq<Op>, Seq<char>>
    decreases sts.len(),
{
    if sts.len() == 0 {
        Ok(Seq::empty())
    } else {
        match compile_statements_spec(sts.drop_last(), table) {
            Err(msg) => Err(msg),
            Ok(ops) => match sts.last() {
                ast::StatementView::FunctionCall { function_call } => match compile_function_call_spec(
                    function_call,
                    table,
                ) {
                    Err(msg) => Err(msg),
                    Ok(c) => Ok(ops + c.ops),
                },
            },
        }
    }
}

/// Whether `res` is what compiling returns when the outcome is `expected`.
pub open spec fn compile_agrees(
    res: Result<TypedComputation, CompileError>,
    expected: Result<TypedComputationView, Seq<char>>,
) -> bool {
    match expected {
        Ok(c) => res matches Ok(x) && x@ == c,
        Err(msg) => res matches Err(e) && e@ == (CompileErrorView::SemanticAnalysisError { msg }),
    }
}

/// Once an argument has failed, the arguments have failed.
proof fn lemma_args_fail(args: Seq<ast::ExprView>, k: int, table: Seq<TypedFunctionView>)
    requires
        0 <= k <= args.len(),
        compile_args_spec(args.take(k), table) is Err,
    ensures
        compile_args_spec(args, table) == compile_args_spec(args.take(k), table),
    decreases args.len() - k,
{
    if k < args.len() {
        assert(args.take(k + 1).drop_last() =~= args.take(k));
        lemma_args_fail(args, k + 1, table);
    } else {
        assert(args.take(k) =~= args);
    }
}

/// Once a statement has failed, the statements have failed.
pub proof fn lemma_statements_fail(
    sts: Seq<ast::StatementView>,
    k: int,
    table: Seq<TypedFunctionView>,
)
    requires
        0 <= k <= sts.len(),
        compile_statements_spec(sts.take(k), table) is Err,
    ensures
        compile_statements_spec(sts, table) == compile_statements_spec(sts.take(k), table),
    decreases sts.len() - k,
{
    if k < sts.len() {
        assert(sts.take(k + 1).drop_last() =~= sts.take(k));
        lemma_statements_fail(sts, k + 1, table);
    } else {
        assert(sts.take(k) =~= sts);
    }
}

/// Appends the instructions `src` to `dst`.
pub fn append_ops(dst: &mut Vec<Op>, src: &Vec<Op>)
    ensures
        final(dst)@ == old(dst)@ + src@,
{
    let mut i: usize = 0;
    assert(dst@ =~= old(dst)@ + src@.take(0));
    while i < src.len()
        invariant
            0 <= i <= src.len(),
            dst@ == old(dst)@ + src@.take(i as int),
        decreases src.len() - i,
    {
        dst.push(src[i]);
        i += 1;
        assert(dst@ =~= old(dst)@ + src@.take(i as int));
    }
    assert(src@.take(src.len() as int) =~= src@);
}

/// The semantic error that carries `msg`.
fn semantic_error(msg: String) -> (e: CompileError)
    ensures
        e@ == (CompileErrorView::SemanticAnalysisError { msg: msg@ }),
{
    CompileError::SemanticAnalysisError { msg }
}

/// The message for a call of a function that the table does not have.
fn not_found(name: &String) -> (msg: String)
    ensures
        msg@ == not_found_message(name@),
{
    let mut msg = String::from_str("Function ");
    msg.append(name.as_str());
    msg.append(" not found");
    msg
}

/// The message for a call with the wrong number of arguments.
fn wrong_arity(name: &String, expected: usize, given: usize) -> (msg: String)
    ensures
        msg@ == arity_message(name@, expected as nat, given as nat),
{
    let mut msg = String::from_str("Function ");
    msg.append(name.as_str());
    msg.append(" takes ");
    push_decimal(&mut msg, expected);
    msg.append(" arguments, but ");
    push_decimal(&mut msg, given);
    msg.append(" were given");
    msg
}

/// The message for an argument of the wrong type.
fn wrong_argument(position: usize, name: &String, expected: Type, actual: Type) -> (msg: String)
    ensures
        msg@ == argument_type_message(position as nat, name@, expected, actual),
{
    let mut msg = String::from_str("Argument ");
    push_decimal(&mut msg, position);
    msg.append(" to function ");
    msg.append(name.as_str());
    msg.append(" is wrong: Expected ");
    let e = expected.to_string();
    msg.append(e.as_str());
    msg.append(", got ");
    let a = actual.to_string();
    msg.append(a.as_str());
    msg
}

/// The message for an index that follows what is no list.
fn wrong_index(actual: Type) -> (msg: String)
    ensures
        msg@ == index_type_message(actual),
{
    let mut msg = String::from_str("Expected ");
    let l = Type::List.to_string();
    msg.append(l.as_str());
    msg.append(", got ");
    let a = actual.to_string();
    msg.append(a.as_str());
    msg
}

/// The message for a name used as a value.
fn unsupported_identifier(name: &String) -> (msg: String)
    ensures
        msg@ == identifier_message(name@),
{
    let mut msg = String::from_str("Identifier ");
    msg.append(name.as_str());
    msg.append(" is not supported");
    msg
}

/// Compiles an expression.
pub fn compile_expr(expr: &ast::Expr, functions: &FunctionTable) -> (res: Result<
    TypedComputation,
    CompileError,
>)
    ensures
        compile_agrees(res, compile_expr_spec(expr@, functions@)),
    decreases expr, 0int,
{
    let mut comp = match &expr.arr_expr {
        ast::ArrExpr::ValueExpr { value } => match value {
            ast::Value::Item => {
                let mut ops: Vec<Op> = Vec::new();
                ops.push(Op::LoadItem);
                assert(ops@ =~= seq![Op::LoadItem]);
                TypedComputation { ops, result_type: Type::Text }
            },
            ast::Value::Identifier(id) => {
                return Err(semantic_error(unsupported_identifier(id)));
            },
        },
        ast::ArrExpr::FunctionExpr { function_call } => {
            match compile_function_call(function_call, functions) {
                Ok(c) => c,
                Err(e) => {
                    return Err(e);
                },
            }
        },
    };
    match expr.index {
        None => Ok(comp),
        Some(index) => match comp.result_type {
            Type::List => {
                comp.ops.push(Op::LoadIndex { index });
                comp.result_type = Type::Text;
                Ok(comp)
            },
            other => Err(semantic_error(wrong_index(other))),
        },
    }
}

/// Compiles a call: its arguments from left to right, then the function.
pub fn compile_function_call(function_call: &ast::FunctionCall, functions: &FunctionTable) -> (res:
    Result<TypedComputation, CompileError>)
    ensures
        compile_agrees(res, compile_function_call_spec(function_call@, functions@)),
    decreases function_call, 2int,
{
    let ghost args = function_call@.args;
    let ghost table = functions@;
    let mut arg_computations: Vec<TypedComputation> = Vec::new();
    let mut i: usize = 0;
    assert(args.take(0) =~= Seq::<ast::ExprView>::empty());
    assert(computation_views(arg_computations@) =~= Seq::empty());
    while i < function_call.args.len()
        invariant
            0 <= i <= function_call.args.len(),
            args == function_call@.args,
            args.len() == function_call.args@.len(),
            table == functions@,
            compile_args_spec(args.take(i as int), table) == Ok::<
                Seq<TypedComputationView>,
                Seq<char>,
            >(computation_views(arg_computations@)),
        decreases function_call.args.len() - i,
    {
        proof {
            assert(args.take(i + 1).drop_last() =~= args.take(i as int));
            assert(args.take(i + 1).last() == function_call.args@[i as int]@);
            if compile_args_spec(args.take(i + 1), table) is Err {
                lemma_args_fail(args, i + 1, table);
            }
        }
        match compile_expr(&function_call.args[i], functions) {
            Ok(c) => {
                assert(computation_views(arg_computations@.push(c)) =~= computation_views(
                    arg_computations@,
                ).push(c@));
                arg_computations.push(c);
            },
            Err(e) => {
                return Err(e);
            },
        }
        i += 1;
    }
    assert(args.take(args.len() as int) =~= args);
    finish_call(&function_call.function_name, &arg_computations, functions)
}

/// Checks a call of `name` whose arguments have compiled to `computations`,
/// and puts its instructions together.
pub fn finish_call(name: &String, computations: &Vec<TypedComputation>, functions: &FunctionTable) -> (res:
    Result<TypedComputation, CompileError>)
    ensures
        compile_agrees(res, check_call(name@, computation_views(computations@), functions@)),
{
    let ghost cs = computation_views(computations@);
    let function = match functions.get(name) {
        Some(f) => f,
        None => {
            return Err(semantic_error(not_found(name)));
        },
    };
    let n = computations.len();
    if n != function.arg_types.len() {
        return Err(semantic_error(wrong_arity(name, function.arg_types.len(), n)));
    }
    let ghost types = function@.arg_types;
    let mut k: usize = 0;
    while k < n
        invariant
            0 <= k <= n,
            n == computations.len(),
            n == function.arg_types.len(),
            cs == computation_views(computations@),
            types == function@.arg_types,
            lookup(functions@, name@) == Some(function@),
            first_mismatch(cs, types, 0) == first_mismatch(cs, types, k as int),
        decreases n - k,
    {
        let actual = computations[k].result_type;
        let expected = function.arg_types[k];
        assert(cs[k as int] == computations@[k as int]@);
        if actual != expected {
            return Err(semantic_error(wrong_argument(k, name, expected, actual)));
        }
        k += 1;
    }
    let mut ops: Vec<Op> = Vec::new();
    let mut j: usize = 0;
    assert(cs.take(0) =~= Seq::<TypedComputationView>::empty());
    while j < n
        invariant
            0 <= j <= n,
            n == computations.len(),
            cs == computation_views(computations@),
            ops@ == concat_ops(cs.take(j as int)),
        decreases n - j,
    {
        proof {
            assert(cs.take(j + 1).drop_last() =~= cs.take(j as int));
            assert(cs.take(j + 1).last() == computations@[j as int]@);
        }
        append_ops(&mut ops, &computations[j].ops);
        j += 1;
    }
    assert(cs.take(n as int) =~= cs);
    append_ops(&mut ops, &function.ops);
    Ok(TypedComputation { ops, result_type: function.return_type })
}

/// In a table where no name occurs twice, looking a name up finds the entry
/// that has it.
pub proof fn lemma_lookup_finds(table: Seq<TypedFunctionView>, i: int)
    requires
        names_unique(table),
        0 <= i < table.len(),
    ensures
        lookup(table, table[i].name) == Some(table[i]),
    decreases i,
{
    if i > 0 {
        let rest = table.skip(1);
        assert forall|a: int, b: int| 0 <= a < b < rest.len() implies (#[trigger] rest[a]).name != (
        #[trigger] rest[b]).name by {
            assert(rest[a] == table[a + 1]);
            assert(rest[b] == table[b + 1]);
        }
        assert(rest[i - 1] == table[i]);
        lemma_lookup_finds(rest, i - 1);
    }
}

/// No position at or after `from` differs exactly where every type from
/// there on is the type wanted.
pub proof fn lemma_first_mismatch(cs: Seq<TypedComputationView>, types: Seq<Type>, from: int)
    requires
        0 <= from,
        cs.len() == types.len(),
    ensures
        first_mismatch(cs, types, from) is None <==> (forall|i: int|
            from <= i < cs.len() ==> (#[trigger] cs[i]).result_type == types[i]),
        first_mismatch(cs, types, from) matches Some(i) ==> from <= i < cs.len() && cs[i].result_type
            != types[i] && (forall|j: int|
            from <= j < i ==> (#[trigger] cs[j]).result_type == types[j]),
    decreases cs.len() - from,
{
    if from < cs.len() && cs[from].result_type == types[from] {
        lemma_first_mismatch(cs, types, from + 1);
    }
}

/// A call is accepted exactly where the function is known, the arguments
/// are as many as its parameters, and each has the type of its parameter.
/// So every call of a builtin with the wrong number of arguments, or with an
/// argument of the wrong type, is rejected.
pub proof fn lemma_call_checked(
    name: Seq<char>,
    cs: Seq<TypedComputationView>,
    table: Seq<TypedFunctionView>,
)
    ensures
        check_call(name, cs, table) is Ok <==> (lookup(table, name) matches Some(f) && cs.len()
            == f.arg_types.len() && (forall|i: int|
            0 <= i < cs.len() ==> (#[trigger] cs[i]).result_type == f.arg_types[i])),
{
    if let Some(f) = lookup(table, name) {
        if cs.len() == f.arg_types.len() {
            lemma_first_mismatch(cs, f.arg_types, 0);
        }
    }
}

/// For every function of the table: a call of it whose arguments compile,
/// but are not as many as its parameters or not each of its parameter's
/// type, does not compile.
pub proof fn lemma_mismatch_rejected(
    call: ast::FunctionCallView,
    table: Seq<TypedFunctionView>,
    which: int,
)
    requires
        names_unique(table),
        0 <= which < table.len(),
        call.function_name == table[which].name,
        compile_args_spec(call.args, table) matches Ok(cs) && (cs.len()
            != table[which].arg_types.len() || exists|i: int|
            0 <= i < cs.len() && (#[trigger] cs[i]).result_type != table[which].arg_types[i]),
    ensures
        compile_function_call_spec(call, table) is Err,
{
    lemma_lookup_finds(table, which);
    let cs = compile_args_spec(call.args, table)->Ok_0;
    lemma_call_checked(call.function_name, cs, table);
}

/// A failure among the arguments is the failure of the call, whatever the
/// function.
pub proof fn lemma_argument_error_rejects_call(
    call: ast::FunctionCallView,
    table: Seq<TypedFunctionView>,
    k: int,
)
    requires
        0 <= k < call.args.len(),
        compile_expr_spec(call.args[k], table) is Err,
    ensures
        compile_function_call_spec(call, table) is Err,
{
    let args = call.args;
    assert(args.take(k + 1).drop_last() =~= args.take(k));
    assert(args.take(k + 1).last() == args[k]);
    assert(compile_args_spec(args.take(k + 1), table) is Err);
    lemma_args_fail(args, k + 1, table);
}

/// A call that does not compile makes the statements that hold it not
/// compile.
pub proof fn lemma_statement_error_rejects_program(
    sts: Seq<ast::StatementView>,
    table: Seq<TypedFunctionView>,
    k: int,
)
    requires
        0 <= k < sts.len(),
        sts[k] matches ast::StatementView::FunctionCall { function_call }
            && compile_function_call_spec(function_call, table) is Err,
    ensures
        compile_statements_spec(sts, table) is Err,
{
    assert(sts.take(k + 1).drop_last() =~= sts.take(k));
    assert(sts.take(k + 1).last() == sts[k]);
    assert(compile_statements_spec(sts.take(k + 1), table) is Err);
    lemma_statements_fail(sts, k + 1, table);
}

/// The expression `e` without its index.
pub open spec fn without_index(e: ast::ExprView) -> ast::ExprView {
    ast::ExprView { arr_expr: e.arr_expr, index: None }
}

/// An index requires a list: an indexed expression compiles exactly where
/// its base compiles to a list, and then to the instructions of the base
/// followed by the load of the element, with the type of a text.
pub proof fn lemma_index_requires_list(e: ast::ExprView, table: Seq<TypedFunctionView>, index: i32)
    requires
        e.index == Some(index),
    ensures
        compile_expr_spec(e, table) is Ok <==> (compile_expr_spec(without_index(e), table) matches Ok(
            base,
        ) && base.result_type == Type::List),
        compile_expr_spec(without_index(e), table) matches Ok(base) ==> (base.result_type
            == Type::List ==> compile_expr_spec(e, table) == Ok::<TypedComputationView, Seq<char>>(
            TypedComputationView {
                ops: base.ops.push(Op::LoadIndex { index }),
                result_type: Type::Text,
            },
        )),
{
}

/// Statements compile one after the other: what two runs of statements
/// compile to together is what the first compiles to followed by what the
/// second compiles to, and the first failure among them is the failure of
/// both.
pub proof fn lemma_statements_compile_in_order(
    first: Seq<ast::StatementView>,
    second: Seq<ast::StatementView>,
    table: Seq<TypedFunctionView>,
)
    ensures
        compile_statements_spec(first + second, table) == (match compile_statements_spec(
            first,
            table,
        ) {
            Err(msg) => Err(msg),
            Ok(front) => match compile_statements_spec(second, table) {
                Err(msg) => Err(msg),
                Ok(back) => Ok(front + back),
            },
        }),
    decreases second.len(),
{
    let all = first + second;
    if second.len() == 0 {
        assert(all =~= first);
        if let Ok(front) = compile_statements_spec(first, table) {
            assert(front + Seq::<Op>::empty() =~= front);
        }
    } else {
        assert(all.drop_last() =~= first + second.drop_last());
        assert(all.last() == second.last());
        lemma_statements_compile_in_order(first, second.drop_last(), table);
        if let Ok(front) = compile_statements_spec(first, table) {
            if let Ok(back) = compile_statements_spec(second.drop_last(), table) {
                let call = second.last()->function_call;
                if let Ok(c) = compile_function_call_spec(call, table) {
                    assert(front + (back + c.ops) =~= (front + back) + c.ops);
                }
            }
        }
    }
}

} // verus!
