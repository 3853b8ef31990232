//! Function calls: a name, `(`, arguments separated by `,`, `)`.

use crate::ast_v2::expression::{base_spec, expression_spec};
use crate::ast_v2::identifier;
use crate::ast_v2::identifier::identifier_spec;
use crate::ast_v2::model::{
    expression_views, items_then, lemma_items_then_empty, lemma_items_then_push, reads,
    Expression, ExpressionView, FunctionCall, FunctionCallView,
};
use crate::ast_v2::utils::{begins_with, constant_token_spec, parse_constant_token};
use crate::tokens::{token_views, Token, TokenView};
use vstd::prelude::*;

verus! {

/// A function call at the front of `ts`.
pub open spec fn function_call_spec(ts: Seq<TokenView>) -> Option<(FunctionCallView, Seq<TokenView>)>
    decreases ts.len(), 0int,
{
    match identifier_spec(ts) {
        None => None,
        Some((name, rest)) => match constant_token_spec(rest, TokenView::OpenParen) {
            None => None,
            Some(rest2) => match arguments_spec(rest2) {
                None => None,
                Some((args, rest3)) => match constant_token_spec(rest3, TokenView::CloseParen) {
                    None => None,
                    Some(rest4) => Some((FunctionCallView { function_name: name, args }, rest4)),
                },
            },
        },
    }
}

/// What follows an argument: the tokens as they are where `)` is next, or
/// else the tokens after a `,`.
pub open spec fn after_argument_spec(ts: Seq<TokenView>) -> Option<Seq<TokenView>> {
    if ts.len() > 0 && ts[0] == TokenView::CloseParen {
        Some(ts)
    } else {
        constant_token_spec(ts, TokenView::Comma)
    }
}

/// The arguments at the front of `ts`, up to the `)` that closes them, which
/// is left. A `,` may stand before that `)`. Each expression must consume at
/// least one token, which every expression does.
pub open spec fn arguments_spec(ts: Seq<TokenView>) -> Option<(Seq<ExpressionView>, Seq<TokenView>)>
    decreases ts.len(), 3int,
{
    if ts.len() > 0 && ts[0] == TokenView::CloseParen {
        Some((Seq::empty(), ts))
    } else {
        match expression_spec(ts) {
            None => None,
            Some((e, rest)) => match after_argument_spec(rest) {
                None => None,
                Some(next) => if next.len() < ts.len() {
                    items_then(seq![e], arguments_spec(next))
                } else {
                    None
                },
            },
        }
    }
}

/// A function call that is read consumes at least one token.
pub proof fn lemma_function_call_consumes(ts: Seq<TokenView>)
    ensures
        function_call_spec(ts) matches Some((_, rest)) ==> rest.len() < ts.len(),
    decreases ts.len(), 0int,
{
    if let Some((name, rest)) = identifier_spec(ts) {
        if let Some(rest2) = constant_token_spec(rest, TokenView::OpenParen) {
            lemma_arguments_shrink(rest2);
        }
    }
}

/// Arguments that are read leave no more tokens than there were.
pub proof fn lemma_arguments_shrink(ts: Seq<TokenView>)
    ensures
        arguments_spec(ts) matches Some((_, rest)) ==> rest.len() <= ts.len(),
    decreases ts.len(), 3int,
{
    if ts.len() > 0 && ts[0] == TokenView::CloseParen {
    } else {
        if let Some((e, rest)) = expression_spec(ts) {
            if let Some(next) = after_argument_spec(rest) {
                if next.len() < ts.len() {
                    lemma_arguments_shrink(next);
                }
            }
        }
    }
}

/// An expression that is read consumes at least one token.
pub proof fn lemma_expression_consumes(ts: Seq<TokenView>)
    ensures
        expression_spec(ts) matches Some((_, rest)) ==> rest.len() < ts.len(),
        base_spec(ts) matches Some((_, rest)) ==> rest.len() < ts.len(),
    decreases ts.len(), 2int,
{
    lemma_function_call_consumes(ts);
}

impl FunctionCall {
    /// Reads a function call.
    pub fn parse<'a>(tokens: &'a [Token]) -> (res: Option<(FunctionCall, &'a [Token])>)
        ensures
            reads(res, function_call_spec(token_views(tokens@))),
        decreases tokens@.len(), 0int,
    {
        let (function_name, after_name) = match identifier::parse(tokens) {
            Some(r) => r,
            None => {
                return None;
            },
        };
        let after_open = match parse_constant_token(after_name, &Token::OpenParen) {
            Some(ts) => ts,
            None => {
                return None;
            },
        };
        let (args, after_args) = match parse_arguments(after_open) {
            Some(r) => r,
            None => {
                return None;
            },
        };
        let after_close = match parse_constant_token(after_args, &Token::CloseParen) {
            Some(ts) => ts,
            None => {
                return None;
            },
        };
        let call = FunctionCall { function_name, args };
        assert(call@.args =~= expression_views(args@));
        Some((call, after_close))
    }
}

/// Whether `res` is what reading arguments returns when the outcome is
/// `expected`.
pub open spec fn reads_arguments(
    res: Option<(Vec<Expression>, &[Token])>,
    expected: Option<(Seq<ExpressionView>, Seq<TokenView>)>,
) -> bool {
    match expected {
        Some((v, rest)) => res matches Some((x, r)) && expression_views(x@) == v && token_views(r@)
            == rest,
        None => res is None,
    }
}

/// Reads arguments up to the `)` that closes them.
pub fn parse_arguments<'a>(tokens: &'a [Token]) -> (res: Option<(Vec<Expression>, &'a [Token])>)
    ensures
        reads_arguments(res, arguments_spec(token_views(tokens@))),
    decreases tokens@.len(), 3int,
{
    let ghost start = token_views(tokens@);
    let mut cursor = tokens;
    let mut args: Vec<Expression> = Vec::new();
    assert(expression_views(args@) =~= Seq::empty());
    proof {
        lemma_items_then_empty(arguments_spec(start));
    }
    while !begins_with(cursor, &Token::CloseParen)
        invariant
            cursor@.len() <= tokens@.len(),
            start == token_views(tokens@),
            arguments_spec(start) == items_then(
                expression_views(args@),
                arguments_spec(token_views(cursor@)),
            ),
        decreases cursor@.len(),
    {
        proof {
            lemma_expression_consumes(token_views(cursor@));
        }
        let (expr, after_expr) = match Expression::parse(cursor) {
            Some(r) => r,
            None => {
                return None;
            },
        };
        let mut next = after_expr;
        if !begins_with(next, &Token::CloseParen) {
            next = match parse_constant_token(next, &Token::Comma) {
                Some(ts) => ts,
                None => {
                    return None;
                },
            };
        }
        proof {
            lemma_items_then_push(
                expression_views(args@),
                expr@,
                arguments_spec(token_views(next@)),
            );
            assert(expression_views(args@.push(expr)) =~= expression_views(args@).push(expr@));
        }
        cursor = next;
        args.push(expr);
    }
    assert(expression_views(args@) + Seq::<ExpressionView>::empty() =~= expression_views(args@));
    Some((args, cursor))
}

} // verus!
