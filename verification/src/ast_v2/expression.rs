//! Expressions: a value or a function call, with an index if one follows.

use crate::ast_v2::function_call::function_call_spec;
use crate::ast_v2::model::{
    expression_view, reads, Expression, ExpressionView, FunctionCall, Value, ValueView,
};
use crate::ast_v2::utils::{begins_with, constant_token_spec, parse_constant_token};
use crate::ast_v2::value;
use crate::ast_v2::value::value_spec;
use crate::tokens::{token_views, Token, TokenView};
use vstd::prelude::*;

verus! {

/// The index that a value stands for: a literal integer that is not
/// negative and fits the machine's word.
pub open spec fn index_of(v: ValueView) -> Option<usize> {
    match v {
        ValueView::LiteralInteger(i) => if 0 <= i <= usize::MAX {
            Some(i as usize)
        } else {
            None
        },
        _ => None,
    }
}

/// A value at the front of `ts`, or else a function call.
pub open spec fn base_spec(ts: Seq<TokenView>) -> Option<(ExpressionView, Seq<TokenView>)>
    decreases ts.len(), 1int,
{
    match value_spec(ts) {
        Some((v, rest)) => Some((ExpressionView::Val(v), rest)),
        None => match function_call_spec(ts) {
            Some((fc, rest)) => Some((ExpressionView::Fc(fc), rest)),
            None => None,
        },
    }
}

/// An index clause at the front of `ts`: `[`, a literal integer that can be
/// an index, `]`.
pub open spec fn index_clause_spec(ts: Seq<TokenView>) -> Option<(usize, Seq<TokenView>)> {
    match constant_token_spec(ts, TokenView::OpenBracket) {
        None => None,
        Some(rest) => match value_spec(rest) {
            None => None,
            Some((v, rest2)) => match index_of(v) {
                None => None,
                Some(index) => match constant_token_spec(rest2, TokenView::CloseBracket) {
                    None => None,
                    Some(rest3) => Some((index, rest3)),
                },
            },
        },
    }
}

/// An expression at the front of `ts`. Where `[` follows its base, an index
/// clause must follow.
pub open spec fn expression_spec(ts: Seq<TokenView>) -> Option<(ExpressionView, Seq<TokenView>)>
    decreases ts.len(), 2int,
{
    match base_spec(ts) {
        None => None,
        Some((e, rest)) => if rest.len() > 0 && rest[0] == TokenView::OpenBracket {
            match index_clause_spec(rest) {
                None => None,
                Some((index, rest2)) => Some(
                    (ExpressionView::IndexedExpression(Box::new(e), index), rest2),
                ),
            }
        } else {
            Some((e, rest))
        },
    }
}

/// The index that a value stands for.
fn as_index(v: &Value) -> (res: Option<usize>)
    ensures
        res == index_of(v@),
{
    match v {
        Value::LiteralInteger(i) => {
            if *i >= 0 && *i as u64 <= usize::MAX as u64 {
                Some(*i as usize)
            } else {
                None
            }
        },
        _ => None,
    }
}

impl Expression {
    /// Reads an expression.
    pub fn parse<'a>(tokens: &'a [Token]) -> (res: Option<(Expression, &'a [Token])>)
        ensures
            reads(res, expression_spec(token_views(tokens@))),
        decreases tokens@.len(), 2int,
    {
        let (expr, rest) = match value::parse(tokens) {
            Some((v, ts)) => (Expression::Val(v), ts),
            None => match FunctionCall::parse(tokens) {
                Some((fc, ts)) => (Expression::Fc(fc), ts),
                None => {
                    return None;
                },
            },
        };
        if begins_with(rest, &Token::OpenBracket) {
            let after_open = match parse_constant_token(rest, &Token::OpenBracket) {
                Some(ts) => ts,
                None => {
                    return None;
                },
            };
            let (i_value, after_value) = match value::parse(after_open) {
                Some(r) => r,
                None => {
                    return None;
                },
            };
            let index = match as_index(&i_value) {
                Some(i) => i,
                None => {
                    return None;
                },
            };
            let after_close = match parse_constant_token(after_value, &Token::CloseBracket) {
                Some(ts) => ts,
                None => {
                    return None;
                },
            };
            let ghost base = expr@;
            let indexed = Expression::IndexedExpression(Box::new(expr), index);
            assert(indexed@ == ExpressionView::IndexedExpression(Box::new(base), index)) by {
                reveal_with_fuel(expression_view, 2);
            }
            Some((indexed, after_close))
        } else {
            Some((expr, rest))
        }
    }
}

} // verus!
