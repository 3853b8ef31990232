//! The tree's types and their views.

use crate::tokens::{token_views, Token, TokenView};
use vstd::prelude::*;

verus! {

/// A syntax tree: its root is a program.
#[derive(PartialEq, Eq, Debug)]
pub struct Ast {
    pub root: Program,
}

/// A program: its statements, and the blocks that run before the first
/// line and after the last.
#[derive(PartialEq, Eq, Debug)]
pub struct Program {
    pub statements: Vec<Statement>,
    pub prologue: Vec<Statement>,
    pub epilogue: Vec<Statement>,
}

/// A statement: a function call, an assignment or a function definition.
#[derive(PartialEq, Eq, Debug)]
pub enum Statement {
    Fc(FunctionCall),
    As(Assignment),
    Fd(FunctionDefinition),
}

/// A call of a function by name, with its arguments in order.
#[derive(PartialEq, Eq, Debug)]
pub struct FunctionCall {
    pub function_name: String,
    pub args: Vec<Expression>,
}

/// An assignment of an expression to a name.
#[derive(PartialEq, Eq, Debug)]
pub struct Assignment {
    pub assignee: String,
    pub expression: Expression,
}

/// A function: its name, the names of its parameters, and its body.
#[derive(PartialEq, Eq, Debug)]
pub struct FunctionDefinition {
    pub function_name: String,
    pub arguments: Vec<String>,
    pub body: Vec<Statement>,
}

/// An expression: a function call, a value, or one element of an
/// expression.
#[derive(PartialEq, Eq, Debug)]
pub enum Expression {
    Fc(FunctionCall),
    Val(Value),
    IndexedExpression(Box<Expression>, usize),
}

/// A value: the line being processed, a name, or a literal.
#[derive(PartialEq, Eq, Debug)]
pub enum Value {
    Item,
    Identifier(String),
    LiteralString(String),
    LiteralInteger(i64),
}

/// A syntax tree as a mathematical value.
pub struct AstView {
    pub root: ProgramView,
}

/// A program as a mathematical value.
pub struct ProgramView {
    pub statements: Seq<StatementView>,
    pub prologue: Seq<StatementView>,
    pub epilogue: Seq<StatementView>,
}

/// A statement as a mathematical value.
pub enum StatementView {
    Fc(FunctionCallView),
    As(AssignmentView),
    Fd(FunctionDefinitionView),
}

/// A function call as a mathematical value.
pub struct FunctionCallView {
    pub function_name: Seq<char>,
    pub args: Seq<ExpressionView>,
}

/// An assignment as a mathematical value.
pub struct AssignmentView {
    pub assignee: Seq<char>,
    pub expression: ExpressionView,
}

/// A function definition as a mathematical value.
pub struct FunctionDefinitionView {
    pub function_name: Seq<char>,
    pub arguments: Seq<Seq<char>>,
    pub body: Seq<StatementView>,
}

/// An expression as a mathematical value.
pub enum ExpressionView {
    Fc(FunctionCallView),
    Val(ValueView),
    IndexedExpression(Box<ExpressionView>, usize),
}

/// A value as a mathematical value.
pub enum ValueView {
    Item,
    Identifier(Seq<char>),
    LiteralString(Seq<char>),
    LiteralInteger(i64),
}

impl View for Value {
    type V = ValueView;

    open spec fn view(&self) -> ValueView {
        match self {
            Value::Item => ValueView::Item,
            Value::Identifier(s) => ValueView::Identifier(s@),
            Value::LiteralString(s) => ValueView::LiteralString(s@),
            Value::LiteralInteger(i) => ValueView::LiteralInteger(*i),
        }
    }
}

/// The view of an expression.
pub open spec fn expression_view(e: Expression) -> ExpressionView
    decreases e,
{
    match e {
        Expression::Fc(fc) => ExpressionView::Fc(function_call_view(fc)),
        Expression::Val(v) => ExpressionView::Val(v@),
        Expression::IndexedExpression(inner, index) => ExpressionView::IndexedExpression(
            Box::new(expression_view(*inner)),
            index,
        ),
    }
}

/// The view of a function call: its name's text and its arguments' views.
pub open spec fn function_call_view(fc: FunctionCall) -> FunctionCallView
    decreases fc,
{
    FunctionCallView {
        function_name: fc.function_name@,
        args: Seq::new(
            fc.args@.len(),
            |i: int|
                if 0 <= i < fc.args@.len() {
                    expression_view(fc.args@[i])
                } else {
                    arbitrary()
                },
        ),
    }
}

/// The view of a statement.
pub open spec fn statement_view(s: Statement) -> StatementView
    decreases s,
{
    match s {
        Statement::Fc(fc) => StatementView::Fc(fc@),
        Statement::As(a) => StatementView::As(a@),
        Statement::Fd(fd) => StatementView::Fd(function_definition_view(fd)),
    }
}

/// The view of a function definition: the texts of its names and the views
/// of its body's statements.
pub open spec fn function_definition_view(fd: FunctionDefinition) -> FunctionDefinitionView
    decreases fd,
{
    FunctionDefinitionView {
        function_name: fd.function_name@,
        arguments: name_views(fd.arguments@),
        body: Seq::new(
            fd.body@.len(),
            |i: int|
                if 0 <= i < fd.body@.len() {
                    statement_view(fd.body@[i])
                } else {
                    arbitrary()
                },
        ),
    }
}

impl View for Expression {
    type V = ExpressionView;

    open spec fn view(&self) -> ExpressionView {
        expression_view(*self)
    }
}

impl View for FunctionCall {
    type V = FunctionCallView;

    open spec fn view(&self) -> FunctionCallView {
        function_call_view(*self)
    }
}

impl View for Assignment {
    type V = AssignmentView;

    open spec fn view(&self) -> AssignmentView {
        AssignmentView { assignee: self.assignee@, expression: self.expression@ }
    }
}

impl View for FunctionDefinition {
    type V = FunctionDefinitionView;

    open spec fn view(&self) -> FunctionDefinitionView {
        function_definition_view(*self)
    }
}

impl View for Statement {
    type V = StatementView;

    open spec fn view(&self) -> StatementView {
        statement_view(*self)
    }
}

/// The texts of a sequence of names, one for one.
pub open spec fn name_views(names: Seq<String>) -> Seq<Seq<char>> {
    Seq::new(names.len(), |i: int| names[i]@)
}

/// The views of a sequence of expressions, one for one.
pub open spec fn expression_views(es: Seq<Expression>) -> Seq<ExpressionView> {
    Seq::new(es.len(), |i: int| es[i]@)
}

/// The views of a sequence of statements, one for one.
pub open spec fn statement_views(sts: Seq<Statement>) -> Seq<StatementView> {
    Seq::new(sts.len(), |i: int| sts[i]@)
}

impl View for Program {
    type V = ProgramView;

    open spec fn view(&self) -> ProgramView {
        ProgramView {
            statements: statement_views(self.statements@),
            prologue: statement_views(self.prologue@),
            epilogue: statement_views(self.epilogue@),
        }
    }
}

impl View for Ast {
    type V = AstView;

    open spec fn view(&self) -> AstView {
        AstView { root: self.root@ }
    }
}

/// Whether `res` is what a parser returns when the outcome is `expected`:
/// the value read and the tokens left over, or nothing.
pub open spec fn reads<T: View>(
    res: Option<(T, &[Token])>,
    expected: Option<(T::V, Seq<TokenView>)>,
) -> bool {
    match expected {
        Some((v, rest)) => res matches Some((x, r)) && x@ == v && token_views(r@) == rest,
        None => res is None,
    }
}

/// Whether `res` is what a parser of statements returns when the outcome is
/// `expected`.
pub open spec fn reads_statements(
    res: Option<(Vec<Statement>, &[Token])>,
    expected: Option<(Seq<StatementView>, Seq<TokenView>)>,
) -> bool {
    match expected {
        Some((v, rest)) => res matches Some((x, r)) && statement_views(x@) == v && token_views(r@)
            == rest,
        None => res is None,
    }
}

/// The items read so far, followed by the outcome of reading the rest.
pub open spec fn items_then<V>(front: Seq<V>, rest: Option<(Seq<V>, Seq<TokenView>)>) -> Option<
    (Seq<V>, Seq<TokenView>),
> {
    match rest {
        Some((items, r)) => Some((front + items, r)),
        None => None,
    }
}

/// Nothing read yet changes nothing.
pub proof fn lemma_items_then_empty<V>(rest: Option<(Seq<V>, Seq<TokenView>)>)
    ensures
        items_then(Seq::<V>::empty(), rest) == rest,
{
    if let Some((items, r)) = rest {
        assert(Seq::<V>::empty() + items =~= items);
    }
}

/// Reading one more item after `front`.
pub proof fn lemma_items_then_push<V>(front: Seq<V>, item: V, rest: Option<(Seq<V>, Seq<TokenView>)>)
    ensures
        items_then(front, items_then(seq![item], rest)) == items_then(front.push(item), rest),
{
    if let Some((items, r)) = rest {
        assert(front + (seq![item] + items) =~= front.push(item) + items);
    }
}

} // verus!
