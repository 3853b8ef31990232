//! The tokens a syntax tree is written as, and the proof that the parser
//! reads them back as the tree they came from.
//!
//! The parser is defined by the order in which it tries its alternatives.
//! This module states the grammar the other way round, from the tree to its
//! tokens, and shows that the two agree on every tree whose names are names
//! and whose indices are not negative.

use crate::ast::{
    is_identifier, parse_arguments_spec, parse_arr_expr_spec, parse_expr_spec,
    parse_function_call_spec, parse_spec, ASTView, ArrExprView, ExprView, FunctionCallView,
    StatementView, ValueView,
};
use crate::decimal::{decimal_text, lemma_digits_spell, lemma_read_written};
use crate::tokens::TokenView;
use vstd::prelude::*;

verus! {

/// The tokens of a value.
pub open spec fn value_tokens(v: ValueView) -> Seq<TokenView> {
    match v {
        ValueView::Item => seq![TokenView::Underscore],
        ValueView::Identifier(name) => seq![TokenView::Alphanum(name)],
    }
}

/// The tokens of an index clause, where there is an index. An index is not
/// negative.
pub open spec fn index_tokens(index: Option<i32>) -> Seq<TokenView> {
    match index {
        Some(i) => seq![
            TokenView::OpenBracket,
            TokenView::Alphanum(decimal_text(i as nat)),
            TokenView::CloseBracket,
        ],
        None => Seq::empty(),
    }
}

/// The tokens of an expression: those of its base, then its index clause.
pub open spec fn expr_tokens(e: ExprView) -> Seq<TokenView>
    decreases e, 0int,
{
    (match e.arr_expr {
        ArrExprView::FunctionExpr { function_call } => call_tokens(function_call),
        ArrExprView::ValueExpr { value } => value_tokens(value),
    }) + index_tokens(e.index)
}

/// The tokens of arguments: those of each, one after the other.
pub open spec fn args_tokens(args: Seq<ExprView>) -> Seq<TokenView>
    decreases args, 1int,
{
    if args.len() == 0 {
        Seq::empty()
    } else {
        expr_tokens(args[0]) + args_tokens(args.skip(1))
    }
}

/// The tokens of a call: its name, `(`, its arguments, `)`.
pub open spec fn call_tokens(fc: FunctionCallView) -> Seq<TokenView>
    decreases fc, 2int,
{
    seq![TokenView::Alphanum(fc.function_name), TokenView::OpenParen] + args_tokens(fc.args)
        + seq![TokenView::CloseParen]
}

/// The tokens of a statement.
pub open spec fn statement_tokens(st: StatementView) -> Seq<TokenView> {
    match st {
        StatementView::FunctionCall { function_call } => call_tokens(function_call),
    }
}

/// The tokens of statements: those of each, with `;` between them.
pub open spec fn program_tokens(sts: Seq<StatementView>) -> Seq<TokenView>
    decreases sts.len(),
{
    if sts.len() == 0 {
        Seq::empty()
    } else if sts.len() == 1 {
        statement_tokens(sts[0])
    } else {
        statement_tokens(sts[0]) + seq![TokenView::Semicolon] + program_tokens(sts.skip(1))
    }
}

/// Whether an expression can be written: every name in it begins with a
/// letter, and no index in it is negative.
pub open spec fn expr_wf(e: ExprView) -> bool
    decreases e, 0int,
{
    &&& e.index matches Some(i) ==> i >= 0
    &&& match e.arr_expr {
        ArrExprView::FunctionExpr { function_call } => call_wf(function_call),
        ArrExprView::ValueExpr { value } => match value {
            ValueView::Item => true,
            ValueView::Identifier(name) => is_identifier(name),
        },
    }
}

/// Whether a call can be written: its name begins with a letter, and its
/// arguments can be written.
pub open spec fn call_wf(fc: FunctionCallView) -> bool
    decreases fc, 1int,
{
    &&& is_identifier(fc.function_name)
    &&& forall|i: int| 0 <= i < fc.args.len() ==> expr_wf(#[trigger] fc.args[i])
}

/// Whether the statements can be written.
pub open spec fn program_wf(sts: Seq<StatementView>) -> bool {
    forall|i: int|
        0 <= i < sts.len() ==> ((#[trigger] sts[i]) matches StatementView::FunctionCall {
            function_call,
        } && call_wf(function_call))
}

/// Whether the tokens `rest` can follow an expression without being taken
/// for a part of it: they do not begin with `(` or `[`.
pub open spec fn can_follow(rest: Seq<TokenView>) -> bool {
    rest.len() == 0 || (rest[0] != TokenView::OpenParen && rest[0] != TokenView::OpenBracket)
}

/// Whether a token can begin an expression.
pub open spec fn begins_expr(t: TokenView) -> bool {
    t is Underscore || t is Alphanum
}

/// The parser reads the tokens of an expression back as the expression, and
/// leaves what follows them.
pub proof fn lemma_parse_printed_expr(e: ExprView, rest: Seq<TokenView>)
    requires
        expr_wf(e),
        can_follow(rest),
    ensures
        parse_expr_spec(expr_tokens(e) + rest) == Ok::<(ExprView, Seq<TokenView>), Seq<char>>(
            (e, rest),
        ),
        expr_tokens(e).len() > 0,
        begins_expr(expr_tokens(e)[0]),
    decreases e, 0int,
{
    let after = index_tokens(e.index) + rest;
    let ts = expr_tokens(e) + rest;
    match e.arr_expr {
        ArrExprView::FunctionExpr { function_call } => {
            lemma_parse_printed_call(function_call, after);
            assert(ts =~= call_tokens(function_call) + after);
        },
        ArrExprView::ValueExpr { value } => {
            assert(ts =~= value_tokens(value) + after);
            assert(ts.skip(1) =~= after);
            assert(after.len() == 0 || after[0] != TokenView::OpenParen);
        },
    }
    assert(parse_arr_expr_spec(ts) == Ok::<(ArrExprView, Seq<TokenView>), Seq<char>>(
        (e.arr_expr, after),
    ));
    match e.index {
        Some(i) => {
            lemma_digits_spell(i as nat);
            lemma_read_written(i as nat);
            assert(after.skip(1)[0] == TokenView::Alphanum(decimal_text(i as nat)));
            assert(after.skip(1).skip(1)[0] == TokenView::CloseBracket);
            assert(after.skip(1).skip(1).skip(1) =~= rest);
        },
        None => {
            assert(after =~= rest);
        },
    }
}

/// The parser reads the tokens of arguments and the `)` after them back as
/// the arguments, and leaves what follows.
pub proof fn lemma_parse_printed_args(args: Seq<ExprView>, rest: Seq<TokenView>)
    requires
        forall|i: int| 0 <= i < args.len() ==> expr_wf(#[trigger] args[i]),
    ensures
        parse_arguments_spec(args_tokens(args) + seq![TokenView::CloseParen] + rest) == Ok::<
            (Seq<ExprView>, Seq<TokenView>),
            Seq<char>,
        >((args, rest)),
    decreases args, 1int,
{
    let ts = args_tokens(args) + seq![TokenView::CloseParen] + rest;
    if args.len() == 0 {
        assert(ts.skip(1) =~= rest);
        assert(args =~= Seq::<ExprView>::empty());
    } else {
        let tail = args.skip(1);
        let after = args_tokens(tail) + seq![TokenView::CloseParen] + rest;
        assert forall|i: int| 0 <= i < tail.len() implies expr_wf(#[trigger] tail[i]) by {
            assert(tail[i] == args[i + 1]);
        }
        if tail.len() > 0 {
            lemma_parse_printed_expr(tail[0], Seq::empty());
            assert(after[0] == expr_tokens(tail[0])[0]);
        } else {
            assert(after[0] == TokenView::CloseParen);
        }
        lemma_parse_printed_expr(args[0], after);
        assert(ts =~= expr_tokens(args[0]) + after);
        assert(ts[0] == expr_tokens(args[0])[0]);
        lemma_parse_printed_args(tail, rest);
        assert(seq![args[0]] + tail =~= args);
    }
}

/// The parser reads the tokens of a call back as the call, and leaves what
/// follows them.
pub proof fn lemma_parse_printed_call(fc: FunctionCallView, rest: Seq<TokenView>)
    requires
        call_wf(fc),
    ensures
        parse_function_call_spec(call_tokens(fc) + rest) == Ok::<
            (FunctionCallView, Seq<TokenView>),
            Seq<char>,
        >((fc, rest)),
    decreases fc, 2int,
{
    let ts = call_tokens(fc) + rest;
    let after = args_tokens(fc.args) + seq![TokenView::CloseParen] + rest;
    lemma_parse_printed_args(fc.args, rest);
    assert(ts.skip(1).skip(1) =~= after);
    assert(ts[0] == TokenView::Alphanum(fc.function_name));
    assert(ts.skip(1)[0] == TokenView::OpenParen);
}

/// Parsing undoes printing: the tokens of one or more statements that can be
/// written parse to those statements, with or without a `;` after the last.
pub proof fn lemma_parse_printed_program(sts: Seq<StatementView>)
    requires
        sts.len() > 0,
        program_wf(sts),
    ensures
        parse_spec(program_tokens(sts)) == Ok::<ASTView, Seq<char>>(ASTView { statements: sts }),
        parse_spec(program_tokens(sts) + seq![TokenView::Semicolon]) == Ok::<ASTView, Seq<char>>(
            ASTView { statements: sts },
        ),
    decreases sts.len(),
{
    let call = sts[0]->function_call;
    let tail = sts.skip(1);
    let semicolon = seq![TokenView::Semicolon];
    assert(seq![sts[0]] + tail =~= sts);
    if sts.len() == 1 {
        lemma_parse_printed_call(call, Seq::empty());
        assert(call_tokens(call) + Seq::<TokenView>::empty() =~= call_tokens(call));
        lemma_parse_printed_call(call, semicolon);
        assert(semicolon.skip(1) =~= Seq::<TokenView>::empty());
        assert(tail =~= Seq::<StatementView>::empty());
        assert(seq![sts[0]] + Seq::<StatementView>::empty() =~= sts);
    } else {
        assert forall|i: int| 0 <= i < tail.len() implies ((#[trigger] tail[i]) matches StatementView::FunctionCall {
            function_call,
        } && call_wf(function_call)) by {
            assert(tail[i] == sts[i + 1]);
        }
        lemma_parse_printed_program(tail);
        let plain = semicolon + program_tokens(tail);
        lemma_parse_printed_call(call, plain);
        assert(program_tokens(sts) =~= call_tokens(call) + plain);
        assert(plain.skip(1) =~= program_tokens(tail));
        let closed = semicolon + (program_tokens(tail) + semicolon);
        lemma_parse_printed_call(call, closed);
        assert(program_tokens(sts) + semicolon =~= call_tokens(call) + closed);
        assert(closed.skip(1) =~= program_tokens(tail) + semicolon);
    }
}

} // verus!
