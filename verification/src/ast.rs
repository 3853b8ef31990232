//! The parser: tokens to a syntax tree.
//!
//! ```text
//! program       := statement (';' statement)* ';'?
//! statement     := function_call
//! function_call := NAME '(' expr* ')'
//! expr          := arr_expr ( '[' INDEX ']' )?
//! arr_expr      := function_call | value
//! value         := '_' | NAME
//! ```
//!
//! A `NAME` is a run that begins with a letter. An `INDEX` is a run of
//! decimal digits that spells a number of 32 bits. Arguments follow one
//! another without a separator. Where two alternatives are given, the first
//! that succeeds is taken.

use crate::chars::{is_alphabetic, is_ascii_digit, starts_with_letter, to_chars};
use crate::decimal::{all_digits, parse_i32_spec, str_parse_i32};
use crate::tokens::{rest_of, token_name, token_views, Token, TokenView};
use vstd::prelude::*;

verus! {

/// A program: its statements in the order in which they run.
#[derive(Debug, PartialEq)]
pub struct AST {
    pub statements: Vec<Statement>,
}

/// A statement: a function call.
#[derive(Debug, PartialEq)]
pub enum Statement {
    FunctionCall { function_call: FunctionCall },
}

/// A call of a function by name, with its arguments in order.
#[derive(Debug, PartialEq)]
pub struct FunctionCall {
    pub function_name: String,
    pub args: Vec<Expr>,
}

/// An expression, with the index that selects one element of its result, if
/// one is written.
#[derive(Debug, PartialEq)]
pub struct Expr {
    pub arr_expr: ArrExpr,
    pub index: Option<i32>,
}

/// What an index may follow: a function call or a value.
#[derive(Debug, PartialEq)]
pub enum ArrExpr {
    FunctionExpr { function_call: FunctionCall },
    ValueExpr { value: Value },
}

/// A value: the line being processed, or a name.
#[derive(Debug, Clone, PartialEq)]
pub enum Value {
    /// `_`, the line being processed.
    Item,
    Identifier(String),
}

/// A program as a mathematical value.
pub struct ASTView {
    pub statements: Seq<StatementView>,
}

/// A statement as a mathematical value.
pub enum StatementView {
    FunctionCall { function_call: FunctionCallView },
}

/// A function call as a mathematical value.
pub struct FunctionCallView {
    pub function_name: Seq<char>,
    pub args: Seq<ExprView>,
}

/// An expression as a mathematical value.
pub struct ExprView {
    pub arr_expr: ArrExprView,
    pub index: Option<i32>,
}

/// A function call or value as a mathematical value.
pub enum ArrExprView {
    FunctionExpr { function_call: FunctionCallView },
    ValueExpr { value: ValueView },
}

/// A value as a mathematical value.
pub enum ValueView {
    Item,
    Identifier(Seq<char>),
}

impl View for Value {
    type V = ValueView;

    open spec fn view(&self) -> ValueView {
        match self {
            Value::Item => ValueView::Item,
            Value::Identifier(s) => ValueView::Identifier(s@),
        }
    }
}

/// The view of a function call: its name's text and its arguments' views.
pub open spec fn function_call_view(fc: FunctionCall) -> FunctionCallView
    decreases fc,
{
    FunctionCallView {
        function_name: fc.function_name@,
        args: Seq::new(
            fc.args@.len(),
            |i: int|
                if 0 <= i < fc.args@.len() {
                    expr_view(fc.args@[i])
                } else {
                    arbitrary()
                },
        ),
    }
}

/// The view of an expression: the view of its base, and its index.
pub open spec fn expr_view(e: Expr) -> ExprView
    decreases e,
{
    ExprView { arr_expr: arr_expr_view(e.arr_expr), index: e.index }
}

/// The view of a function call or value.
pub open spec fn arr_expr_view(a: ArrExpr) -> ArrExprView
    decreases a,
{
    match a {
        ArrExpr::FunctionExpr { function_call } => ArrExprView::FunctionExpr {
            function_call: function_call_view(function_call),
        },
        ArrExpr::ValueExpr { value } => ArrExprView::ValueExpr { value: value@ },
    }
}

impl View for FunctionCall {
    type V = FunctionCallView;

    open spec fn view(&self) -> FunctionCallView {
        function_call_view(*self)
    }
}

impl View for Expr {
    type V = ExprView;

    open spec fn view(&self) -> ExprView {
        expr_view(*self)
    }
}

impl View for ArrExpr {
    type V = ArrExprView;

    open spec fn view(&self) -> ArrExprView {
        arr_expr_view(*self)
    }
}

impl View for Statement {
    type V = StatementView;

    open spec fn view(&self) -> StatementView {
        match self {
            Statement::FunctionCall { function_call } => StatementView::FunctionCall {
                function_call: function_call@,
            },
        }
    }
}

/// The views of a sequence of expressions, one for one.
pub open spec fn expr_views(es: Seq<Expr>) -> Seq<ExprView> {
    Seq::new(es.len(), |i: int| es[i]@)
}

/// The views of a sequence of statements, one for one.
pub open spec fn statement_views(sts: Seq<Statement>) -> Seq<StatementView> {
    Seq::new(sts.len(), |i: int| sts[i]@)
}

impl View for AST {
    type V = ASTView;

    open spec fn view(&self) -> ASTView {
        ASTView { statements: statement_views(self.statements@) }
    }
}

/// The message reported where the token `t` was expected and not found.
pub open spec fn expected_message(t: TokenView) -> Seq<char> {
    "Expected char '"@ + token_name(t) + "' not found"@
}

/// The tokens after `t`, where `ts` begins with `t`.
pub open spec fn expect_token_spec(t: TokenView, ts: Seq<TokenView>) -> Result<
    Seq<TokenView>,
    Seq<char>,
> {
    if ts.len() > 0 && ts[0] == t {
        Ok(ts.skip(1))
    } else {
        Err(expected_message(t))
    }
}

/// Whether `s` can be a name: it begins with a letter.
pub open spec fn is_identifier(s: Seq<char>) -> bool {
    s.len() > 0 && is_alphabetic(s[0])
}

/// A name at the front of `ts`.
pub open spec fn parse_identifier_spec(ts: Seq<TokenView>) -> Result<
    (Seq<char>, Seq<TokenView>),
    Seq<char>,
> {
    if ts.len() == 0 {
        Err("No token left"@)
    } else {
        match ts[0] {
            TokenView::Alphanum(s) => if is_identifier(s) {
                Ok((s, ts.skip(1)))
            } else {
                Err("Not an identifier"@)
            },
            _ => Err("Not an identifier"@),
        }
    }
}

/// A run of decimal digits at the front of `ts`.
pub open spec fn parse_number_spec(ts: Seq<TokenView>) -> Result<
    (Seq<char>, Seq<TokenView>),
    Seq<char>,
> {
    if ts.len() == 0 {
        Err("No token left"@)
    } else {
        match ts[0] {
            TokenView::Alphanum(s) => if all_digits(s) {
                Ok((s, ts.skip(1)))
            } else {
                Err("Not a number"@)
            },
            _ => Err("Not a number"@),
        }
    }
}

/// `_` at the front of `ts`.
pub open spec fn parse_item_spec(ts: Seq<TokenView>) -> Result<(ValueView, Seq<TokenView>), Seq<char>> {
    if ts.len() > 0 && ts[0] == TokenView::Underscore {
        Ok((ValueView::Item, ts.skip(1)))
    } else {
        Err("Not an underscore"@)
    }
}

/// A value at the front of `ts`: `_`, or else a name.
pub open spec fn parse_value_spec(ts: Seq<TokenView>) -> Result<(ValueView, Seq<TokenView>), Seq<char>> {
    match parse_item_spec(ts) {
        Ok(r) => Ok(r),
        Err(_) => match parse_identifier_spec(ts) {
            Ok((name, rest)) => Ok((ValueView::Identifier(name), rest)),
            Err(msg) => Err(msg),
        },
    }
}

/// The index that the run `s` spells. The run must be made of decimal
/// digits only, at least one, and spell a number of 32 bits.
pub open spec fn index_value_spec(s: Seq<char>) -> Result<i32, Seq<char>> {
    if s.len() == 0 || !all_digits(s) {
        Err("Not a number"@)
    } else {
        match parse_i32_spec(s) {
            Some(v) => Ok(v),
            None => Err("Number too large"@),
        }
    }
}

/// An index clause at the front of `ts`: `[`, a run of decimal digits that
/// spells a number of 32 bits, `]`.
pub open spec fn parse_array_index_spec(ts: Seq<TokenView>) -> Result<(i32, Seq<TokenView>), Seq<char>> {
    match expect_token_spec(TokenView::OpenBracket, ts) {
        Err(msg) => Err(msg),
        Ok(rest) => if rest.len() == 0 {
            Err("Missing index"@)
        } else {
            match rest[0] {
                TokenView::Alphanum(s) => match index_value_spec(s) {
                    Err(msg) => Err(msg),
                    Ok(v) => match expect_token_spec(TokenView::CloseBracket, rest.skip(1)) {
                        Err(msg) => Err(msg),
                        Ok(rest2) => Ok((v, rest2)),
                    },
                },
                _ => Err("Unexpected token"@),
            }
        },
    }
}

/// A function call at the front of `ts`: a name, `(`, arguments, `)`.
pub open spec fn parse_function_call_spec(ts: Seq<TokenView>) -> Result<
    (FunctionCallView, Seq<TokenView>),
    Seq<char>,
>
    decreases ts.len(), 0int,
{
    match parse_identifier_spec(ts) {
        Err(msg) => Err(msg),
        Ok((name, rest)) => match expect_token_spec(TokenView::OpenParen, rest) {
            Err(msg) => Err(msg),
            Ok(rest2) => match parse_arguments_spec(rest2) {
                Err(msg) => Err(msg),
                Ok((args, rest3)) => Ok((FunctionCallView { function_name: name, args }, rest3)),
            },
        },
    }
}

/// Arguments up to and including the `)` that closes them, at the front of
/// `ts`. Each expression must consume at least one token, which every
/// expression does.
pub open spec fn parse_arguments_spec(ts: Seq<TokenView>) -> Result<
    (Seq<ExprView>, Seq<TokenView>),
    Seq<char>,
>
    decreases ts.len(), 3int,
{
    if ts.len() > 0 && ts[0] == TokenView::CloseParen {
        Ok((Seq::empty(), ts.skip(1)))
    } else {
        match parse_expr_spec(ts) {
            Err(msg) => Err(msg),
            Ok((e, rest)) => if rest.len() < ts.len() {
                match parse_arguments_spec(rest) {
                    Err(msg) => Err(msg),
                    Ok((es, rest2)) => Ok((seq![e] + es, rest2)),
                }
            } else {
                Err(Seq::empty())
            },
        }
    }
}

/// An expression at the front of `ts`, with its index clause if one follows.
pub open spec fn parse_expr_spec(ts: Seq<TokenView>) -> Result<(ExprView, Seq<TokenView>), Seq<char>>
    decreases ts.len(), 2int,
{
    match parse_arr_expr_spec(ts) {
        Err(msg) => Err(msg),
        Ok((a, rest)) => if rest.len() > 0 && rest[0] == TokenView::OpenBracket {
            match parse_array_index_spec(rest) {
                Err(msg) => Err(msg),
                Ok((i, rest2)) => Ok((ExprView { arr_expr: a, index: Some(i) }, rest2)),
            }
        } else {
            Ok((ExprView { arr_expr: a, index: None }, rest))
        },
    }
}

/// A function call at the front of `ts`, or else a value.
pub open spec fn parse_arr_expr_spec(ts: Seq<TokenView>) -> Result<
    (ArrExprView, Seq<TokenView>),
    Seq<char>,
>
    decreases ts.len(), 1int,
{
    match parse_function_call_spec(ts) {
        Ok((fc, rest)) => Ok((ArrExprView::FunctionExpr { function_call: fc }, rest)),
        Err(_) => match parse_value_spec(ts) {
            Ok((v, rest)) => Ok((ArrExprView::ValueExpr { value: v }, rest)),
            Err(msg) => Err(msg),
        },
    }
}

/// A statement at the front of `ts`.
pub open spec fn parse_statement_spec(ts: Seq<TokenView>) -> Result<
    (StatementView, Seq<TokenView>),
    Seq<char>,
> {
    match parse_function_call_spec(ts) {
        Err(msg) => Err(msg),
        Ok((fc, rest)) => Ok((StatementView::FunctionCall { function_call: fc }, rest)),
    }
}

/// The statements that `ts` holds from front to end: each but the last is
/// followed by `;`, and the last may be.
pub open spec fn parse_statements_spec(ts: Seq<TokenView>) -> Result<Seq<StatementView>, Seq<char>>
    decreases ts.len(),
{
    if ts.len() == 0 {
        Ok(Seq::empty())
    } else {
        match parse_statement_spec(ts) {
            Err(msg) => Err(msg),
            Ok((st, rest)) => if rest.len() == 0 {
                Ok(seq![st])
            } else {
                match expect_token_spec(TokenView::Semicolon, rest) {
                    Err(msg) => Err(msg),
                    Ok(rest2) => {
                        proof {
                            lemma_function_call_consumes(ts);
                        }
                        match parse_statements_spec(rest2) {
                            Err(msg) => Err(msg),
                            Ok(sts) => Ok(seq![st] + sts),
                        }
                    },
                }
            },
        }
    }
}

/// The syntax tree of the tokens `ts`, or the message of the first failure.
/// A program has at least one statement, so no tokens are no program.
pub open spec fn parse_spec(ts: Seq<TokenView>) -> Result<ASTView, Seq<char>> {
    if ts.len() == 0 {
        Err("No token left"@)
    } else {
        match parse_statements_spec(ts) {
            Err(msg) => Err(msg),
            Ok(sts) => Ok(ASTView { statements: sts }),
        }
    }
}

/// A function call that is parsed consumes at least one token, and what is
/// left is the end of what was given.
pub proof fn lemma_function_call_consumes(ts: Seq<TokenView>)
    ensures
        parse_function_call_spec(ts) matches Ok((_, rest)) ==> rest.len() < ts.len(),
    decreases ts.len(), 0int,
{
    if let Ok((name, rest)) = parse_identifier_spec(ts) {
        if let Ok(rest2) = expect_token_spec(TokenView::OpenParen, rest) {
            lemma_arguments_consume(rest2);
        }
    }
}

/// Arguments that are parsed consume at least the `)` that closes them.
pub proof fn lemma_arguments_consume(ts: Seq<TokenView>)
    ensures
        parse_arguments_spec(ts) matches Ok((_, rest)) ==> rest.len() < ts.len(),
    decreases ts.len(), 3int,
{
    if ts.len() > 0 && ts[0] == TokenView::CloseParen {
    } else {
        lemma_expr_consumes(ts);
        if let Ok((e, rest)) = parse_expr_spec(ts) {
            lemma_arguments_consume(rest);
        }
    }
}

/// An expression that is parsed consumes at least one token.
pub proof fn lemma_expr_consumes(ts: Seq<TokenView>)
    ensures
        parse_expr_spec(ts) matches Ok((_, rest)) ==> rest.len() < ts.len(),
    decreases ts.len(), 2int,
{
    lemma_arr_expr_consumes(ts);
}

/// A function call or value that is parsed consumes at least one token.
pub proof fn lemma_arr_expr_consumes(ts: Seq<TokenView>)
    ensures
        parse_arr_expr_spec(ts) matches Ok((_, rest)) ==> rest.len() < ts.len(),
    decreases ts.len(), 1int,
{
    lemma_function_call_consumes(ts);
}

/// Whether `res` is what a parser returns when the outcome is `expected`:
/// the value and the tokens left over, or the message.
pub open spec fn parse_agrees<T: View>(
    res: Result<(T, &[Token]), String>,
    expected: Result<(T::V, Seq<TokenView>), Seq<char>>,
) -> bool {
    match expected {
        Ok((v, rest)) => res matches Ok((x, r)) && x@ == v && token_views(r@) == rest,
        Err(msg) => res matches Err(m) && m@ == msg,
    }
}

/// Steps over the token `token` at the front of `tokens`.
pub fn expect_token<'a>(token: Token, tokens: &'a [Token]) -> (res: Result<&'a [Token], String>)
    ensures
        match expect_token_spec(token@, token_views(tokens@)) {
            Ok(rest) => res matches Ok(r) && token_views(r@) == rest,
            Err(msg) => res matches Err(m) && m@ == msg,
        },
{
    if tokens.len() > 0 && tokens[0].same(&token) {
        Ok(rest_of(tokens))
    } else {
        let mut msg = String::from_str("Expected char '");
        let name = token.name();
        msg.append(name.as_str());
        msg.append("' not found");
        Err(msg)
    }
}

/// Whether the token at the front of `tokens` is `token`.
fn next_is(token: Token, tokens: &[Token]) -> (b: bool)
    ensures
        b == (tokens@.len() > 0 && token_views(tokens@)[0] == token@),
{
    tokens.len() > 0 && tokens[0].same(&token)
}

/// Reads a name: a run that begins with a letter.
pub fn parse_identifier<'a>(tokens: &'a [Token]) -> (res: Result<(String, &'a [Token]), String>)
    ensures
        parse_agrees(res, parse_identifier_spec(token_views(tokens@))),
{
    if tokens.len() == 0 {
        return Err(String::from_str("No token left"));
    }
    match &tokens[0] {
        Token::Alphanum(s) => {
            if starts_with_letter(s.as_str()) {
                Ok((s.clone(), rest_of(tokens)))
            } else {
                Err(String::from_str("Not an identifier"))
            }
        },
        _ => Err(String::from_str("Not an identifier")),
    }
}

/// Whether every one of `chars` is a decimal digit.
fn digits_only(chars: &Vec<char>) -> (b: bool)
    ensures
        b == all_digits(chars@),
{
    let mut i: usize = 0;
    while i < chars.len()
        invariant
            0 <= i <= chars.len(),
            forall|k: int| 0 <= k < i ==> is_ascii_digit(#[trigger] chars@[k]),
        decreases chars.len() - i,
    {
        let c = chars[i];
        if c < '0' || c > '9' {
            assert(!is_ascii_digit(chars@[i as int]));
            return false;
        }
        i += 1;
    }
    true
}

/// Whether `s` is one or more decimal digits.
fn is_number(s: &str) -> (b: bool)
    ensures
        b == (s@.len() > 0 && all_digits(s@)),
{
    let chars = to_chars(s);
    chars.len() > 0 && digits_only(&chars)
}

/// Whether every character of `s` is a decimal digit.
fn only_digits(s: &str) -> (b: bool)
    ensures
        b == all_digits(s@),
{
    let chars = to_chars(s);
    digits_only(&chars)
}

/// Reads a number: a run made of decimal digits only.
pub fn parse_number<'a>(tokens: &'a [Token]) -> (res: Result<(String, &'a [Token]), String>)
    ensures
        parse_agrees(res, parse_number_spec(token_views(tokens@))),
{
    if tokens.len() == 0 {
        return Err(String::from_str("No token left"));
    }
    match &tokens[0] {
        Token::Alphanum(s) => {
            if only_digits(s.as_str()) {
                Ok((s.clone(), rest_of(tokens)))
            } else {
                Err(String::from_str("Not a number"))
            }
        },
        _ => Err(String::from_str("Not a number")),
    }
}

/// Reads `_`.
pub fn parse_item<'a>(tokens: &'a [Token]) -> (res: Result<(Value, &'a [Token]), String>)
    ensures
        parse_agrees(res, parse_item_spec(token_views(tokens@))),
{
    if next_is(Token::Underscore, tokens) {
        Ok((Value::Item, rest_of(tokens)))
    } else {
        Err(String::from_str("Not an underscore"))
    }
}

/// Reads a value: `_`, or else a name.
pub fn parse_value<'a>(tokens: &'a [Token]) -> (res: Result<(Value, &'a [Token]), String>)
    ensures
        parse_agrees(res, parse_value_spec(token_views(tokens@))),
{
    match parse_item(tokens) {
        Ok(r) => Ok(r),
        Err(_) => match parse_identifier(tokens) {
            Ok((name, rest)) => Ok((Value::Identifier(name), rest)),
            Err(msg) => Err(msg),
        },
    }
}

/// Reads the index that a run spells.
pub fn index_value(s: &str) -> (res: Result<i32, String>)
    ensures
        match index_value_spec(s@) {
            Ok(v) => res == Ok::<i32, String>(v),
            Err(msg) => res matches Err(m) && m@ == msg,
        },
{
    if !is_number(s) {
        return Err(String::from_str("Not a number"));
    }
    match str_parse_i32(s) {
        Some(v) => Ok(v),
        None => Err(String::from_str("Number too large")),
    }
}

/// Reads an index clause: `[`, a run of decimal digits that spells a number
/// of 32 bits, `]`.
pub fn parse_array_index<'a>(tokens: &'a [Token]) -> (res: Result<(i32, &'a [Token]), String>)
    ensures
        parse_agrees(res, parse_array_index_spec(token_views(tokens@))),
{
    let tokens = match expect_token(Token::OpenBracket, tokens) {
        Ok(rest) => rest,
        Err(msg) => {
            return Err(msg);
        },
    };
    if tokens.len() == 0 {
        return Err(String::from_str("Missing index"));
    }
    let index = match &tokens[0] {
        Token::Alphanum(s) => match index_value(s.as_str()) {
            Ok(v) => v,
            Err(msg) => {
                return Err(msg);
            },
        },
        _ => {
            return Err(String::from_str("Unexpected token"));
        },
    };
    match expect_token(Token::CloseBracket, rest_of(tokens)) {
        Ok(rest) => Ok((index, rest)),
        Err(msg) => Err(msg),
    }
}

/// The arguments read so far, followed by the outcome of reading the rest.
pub open spec fn arguments_then(
    front: Seq<ExprView>,
    rest: Result<(Seq<ExprView>, Seq<TokenView>), Seq<char>>,
) -> Result<(Seq<ExprView>, Seq<TokenView>), Seq<char>> {
    match rest {
        Ok((es, r)) => Ok((front + es, r)),
        Err(msg) => Err(msg),
    }
}

/// Reads a function call: a name, `(`, arguments one after the other, `)`.
pub fn parse_function_call<'a>(tokens: &'a [Token]) -> (res: Result<
    (FunctionCall, &'a [Token]),
    String,
>)
    ensures
        parse_agrees(res, parse_function_call_spec(token_views(tokens@))),
    decreases tokens@.len(), 0int,
{
    let (function_name, after_name) = match parse_identifier(tokens) {
        Ok(r) => r,
        Err(msg) => {
            return Err(msg);
        },
    };
    let after_paren = match expect_token(Token::OpenParen, after_name) {
        Ok(rest) => rest,
        Err(msg) => {
            return Err(msg);
        },
    };
    let ghost name = function_name@;
    let ghost start = token_views(after_paren@);
    let ghost input_len = tokens@.len();
    let mut cursor = after_paren;
    let mut expressions: Vec<Expr> = Vec::new();
    assert(expr_views(expressions@) =~= Seq::empty());
    proof {
        lemma_arguments_prefix(expr_views(expressions@), parse_arguments_spec(start));
    }
    loop
        invariant_except_break
            parse_arguments_spec(start) == arguments_then(
                expr_views(expressions@),
                parse_arguments_spec(token_views(cursor@)),
            ),
        invariant
            cursor@.len() < input_len,
            input_len == tokens@.len(),
            parse_function_call_spec(token_views(tokens@)) == (match parse_arguments_spec(start) {
                Err(msg) => Err(msg),
                Ok((args, rest)) => Ok((FunctionCallView { function_name: name, args }, rest)),
            }),
        ensures
            parse_arguments_spec(start) matches Ok((args, rest)) && args == expr_views(
                expressions@,
            ) && rest == token_views(cursor@),
        decreases cursor@.len(),
    {
        if next_is(Token::CloseParen, cursor) {
            cursor = rest_of(cursor);
            assert(expr_views(expressions@) + Seq::<ExprView>::empty() =~= expr_views(
                expressions@,
            ));
            break ;
        }
        proof {
            lemma_expr_consumes(token_views(cursor@));
        }
        let (expr, rest) = match parse_expr(cursor) {
            Ok(r) => r,
            Err(msg) => {
                return Err(msg);
            },
        };
        proof {
            lemma_push_argument(
                expressions@,
                expr,
                parse_arguments_spec(token_views(rest@)),
            );
        }
        expressions.push(expr);
        cursor = rest;
    }
    let call = FunctionCall { function_name, args: expressions };
    assert(call@.args =~= expr_views(expressions@));
    Ok((call, cursor))
}

/// Nothing read yet changes nothing.
proof fn lemma_arguments_prefix(
    front: Seq<ExprView>,
    rest: Result<(Seq<ExprView>, Seq<TokenView>), Seq<char>>,
)
    requires
        front.len() == 0,
    ensures
        arguments_then(front, rest) == rest,
{
    if let Ok((es, r)) = rest {
        assert(front + es =~= es);
    }
}

/// Appending an argument to those already read.
proof fn lemma_push_argument(
    done: Seq<Expr>,
    e: Expr,
    rest: Result<(Seq<ExprView>, Seq<TokenView>), Seq<char>>,
)
    ensures
        arguments_then(expr_views(done), arguments_then(seq![e@], rest)) == arguments_then(
            expr_views(done.push(e)),
            rest,
        ),
{
    assert(expr_views(done.push(e)) =~= expr_views(done) + seq![e@]);
    if let Ok((es, r)) = rest {
        assert(expr_views(done) + (seq![e@] + es) =~= expr_views(done.push(e)) + es);
    }
}

/// Reads an expression, with its index clause if one follows.
pub fn parse_expr<'a>(tokens: &'a [Token]) -> (res: Result<(Expr, &'a [Token]), String>)
    ensures
        parse_agrees(res, parse_expr_spec(token_views(tokens@))),
    decreases tokens@.len(), 2int,
{
    let (arr_expr, rest) = match parse_arr_expr(tokens) {
        Ok(r) => r,
        Err(msg) => {
            return Err(msg);
        },
    };
    if next_is(Token::OpenBracket, rest) {
        match parse_array_index(rest) {
            Ok((index, rest2)) => Ok((Expr { arr_expr, index: Some(index) }, rest2)),
            Err(msg) => Err(msg),
        }
    } else {
        Ok((Expr { arr_expr, index: None }, rest))
    }
}

/// Reads a function call, or else a value.
pub fn parse_arr_expr<'a>(tokens: &'a [Token]) -> (res: Result<(ArrExpr, &'a [Token]), String>)
    ensures
        parse_agrees(res, parse_arr_expr_spec(token_views(tokens@))),
    decreases tokens@.len(), 1int,
{
    match parse_function_call(tokens) {
        Ok((function_call, rest)) => Ok((ArrExpr::FunctionExpr { function_call }, rest)),
        Err(_) => match parse_value(tokens) {
            Ok((value, rest)) => Ok((ArrExpr::ValueExpr { value }, rest)),
            Err(msg) => Err(msg),
        },
    }
}

/// Reads a statement.
pub fn parse_statement<'a>(tokens: &'a [Token]) -> (res: Result<(Statement, &'a [Token]), String>)
    ensures
        parse_agrees(res, parse_statement_spec(token_views(tokens@))),
{
    match parse_function_call(tokens) {
        Ok((function_call, rest)) => Ok((Statement::FunctionCall { function_call }, rest)),
        Err(msg) => Err(msg),
    }
}

/// The statements read so far, followed by the outcome of reading the rest.
pub open spec fn statements_then(
    front: Seq<StatementView>,
    rest: Result<Seq<StatementView>, Seq<char>>,
) -> Result<Seq<StatementView>, Seq<char>> {
    match rest {
        Ok(sts) => Ok(front + sts),
        Err(msg) => Err(msg),
    }
}

/// Appending a statement to those already read.
proof fn lemma_push_statement(
    done: Seq<Statement>,
    st: Statement,
    rest: Result<Seq<StatementView>, Seq<char>>,
)
    ensures
        statements_then(statement_views(done), statements_then(seq![st@], rest))
            == statements_then(statement_views(done.push(st)), rest),
{
    assert(statement_views(done.push(st)) =~= statement_views(done) + seq![st@]);
    if let Ok(sts) = rest {
        assert(statement_views(done) + (seq![st@] + sts) =~= statement_views(done.push(st)) + sts);
    }
}

/// Parses a whole program.
///
/// Succeeds exactly when the tokens are one or more statements separated by
/// `;`, with at most one `;` after the last, and nothing else; otherwise
/// returns the message of the first failure and no tree.
pub fn parse(tokens: Vec<Token>) -> (res: Result<AST, String>)
    ensures
        match parse_spec(token_views(tokens@)) {
            Ok(ast) => res matches Ok(a) && a@ == ast,
            Err(msg) => res matches Err(m) && m@ == msg,
        },
{
    if tokens.len() == 0 {
        return Err(String::from_str("No token left"));
    }
    let ghost all = token_views(tokens@);
    let mut token_slice: &[Token] = tokens.as_slice();
    let mut statements: Vec<Statement> = Vec::new();
    assert(statement_views(statements@) =~= Seq::empty());
    proof {
        if let Ok(sts) = parse_statements_spec(all) {
            assert(statement_views(statements@) + sts =~= sts);
        }
    }
    while token_slice.len() > 0
        invariant
            all == token_views(tokens@),
            parse_statements_spec(all) == statements_then(
                statement_views(statements@),
                parse_statements_spec(token_views(token_slice@)),
            ),
        decreases token_slice@.len(),
    {
        proof {
            lemma_function_call_consumes(token_views(token_slice@));
        }
        let (statement, remainder) = match parse_statement(token_slice) {
            Ok(r) => r,
            Err(msg) => {
                return Err(msg);
            },
        };
        let ghost after = if remainder@.len() == 0 {
            Ok::<Seq<StatementView>, Seq<char>>(Seq::empty())
        } else {
            match expect_token_spec(TokenView::Semicolon, token_views(remainder@)) {
                Ok(rest2) => parse_statements_spec(rest2),
                Err(msg) => Err(msg),
            }
        };
        proof {
            assert(seq![statement@] + Seq::<StatementView>::empty() =~= seq![statement@]);
            assert(parse_statements_spec(token_views(token_slice@)) == statements_then(
                seq![statement@],
                after,
            ));
            lemma_push_statement(statements@, statement, after);
        }
        token_slice = remainder;
        statements.push(statement);
        if token_slice.len() > 0 {
            token_slice = match expect_token(Token::Semicolon, token_slice) {
                Ok(rest) => rest,
                Err(msg) => {
                    return Err(msg);
                },
            };
        }
    }
    assert(statement_views(statements@) + Seq::<StatementView>::empty() =~= statement_views(
        statements@,
    ));
    Ok(AST { statements })
}

} // verus!
