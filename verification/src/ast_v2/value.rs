//! Values: `_`, a name, or a literal integer.

use crate::ast_v2::identifier;
use crate::ast_v2::identifier::identifier_spec;
use crate::ast_v2::model::{reads, Value, ValueView};
use crate::decimal::{parse_i64_spec, str_parse_i64};
use crate::tokens::{rest_of, token_views, Token, TokenView};
use vstd::prelude::*;

verus! {

/// `_` at the front of `ts`.
pub open spec fn item_spec(ts: Seq<TokenView>) -> Option<(ValueView, Seq<TokenView>)> {
    if ts.len() > 0 && ts[0] == TokenView::Underscore {
        Some((ValueView::Item, ts.skip(1)))
    } else {
        None
    }
}

/// A name at the front of `ts`, as a value.
pub open spec fn identified_spec(ts: Seq<TokenView>) -> Option<(ValueView, Seq<TokenView>)> {
    match identifier_spec(ts) {
        Some((name, rest)) => Some((ValueView::Identifier(name), rest)),
        None => None,
    }
}

/// A signed decimal integer of 64 bits at the front of `ts`.
pub open spec fn integer_spec(ts: Seq<TokenView>) -> Option<(ValueView, Seq<TokenView>)> {
    if ts.len() == 0 {
        None
    } else {
        match ts[0] {
            TokenView::Alphanum(s) => match parse_i64_spec(s) {
                Some(v) => Some((ValueView::LiteralInteger(v), ts.skip(1))),
                None => None,
            },
            _ => None,
        }
    }
}

/// A value at the front of `ts`: `_`, or else a name, or else an integer.
pub open spec fn value_spec(ts: Seq<TokenView>) -> Option<(ValueView, Seq<TokenView>)> {
    match item_spec(ts) {
        Some(r) => Some(r),
        None => match identified_spec(ts) {
            Some(r) => Some(r),
            None => integer_spec(ts),
        },
    }
}

/// Reads a value.
pub fn parse<'a>(tokens: &'a [Token]) -> (res: Option<(Value, &'a [Token])>)
    ensures
        reads(res, value_spec(token_views(tokens@))),
{
    match parse_item(tokens) {
        Some(r) => Some(r),
        None => match parse_identified(tokens) {
            Some(r) => Some(r),
            None => parse_integer(tokens),
        },
    }
}

/// Reads `_`.
pub fn parse_item<'a>(tokens: &'a [Token]) -> (res: Option<(Value, &'a [Token])>)
    ensures
        reads(res, item_spec(token_views(tokens@))),
{
    if tokens.len() == 0 {
        return None;
    }
    match &tokens[0] {
        Token::Underscore => Some((Value::Item, rest_of(tokens))),
        _ => None,
    }
}

/// Reads a name as a value.
pub fn parse_identified<'a>(tokens: &'a [Token]) -> (res: Option<(Value, &'a [Token])>)
    ensures
        reads(res, identified_spec(token_views(tokens@))),
{
    match identifier::parse(tokens) {
        Some((ident, rem)) => Some((Value::Identifier(ident), rem)),
        None => None,
    }
}

/// Reads a literal integer.
pub fn parse_integer<'a>(tokens: &'a [Token]) -> (res: Option<(Value, &'a [Token])>)
    ensures
        reads(res, integer_spec(token_views(tokens@))),
{
    if tokens.len() == 0 {
        return None;
    }
    match &tokens[0] {
        Token::Alphanum(s) => match str_parse_i64(s.as_str()) {
            Some(i) => Some((Value::LiteralInteger(i), rest_of(tokens))),
            None => None,
        },
        _ => None,
    }
}

} // verus!
