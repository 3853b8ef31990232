//! Reading one given token.

use crate::tokens::{rest_of, token_views, Token, TokenView};
use vstd::prelude::*;

verus! {

/// The tokens after `expected`, where `ts` begins with it.
pub open spec fn constant_token_spec(ts: Seq<TokenView>, expected: TokenView) -> Option<Seq<TokenView>> {
    if ts.len() > 0 && ts[0] == expected {
        Some(ts.skip(1))
    } else {
        None
    }
}

/// The tokens after the run `expected`, where `ts` begins with it.
pub open spec fn constant_alphanum_spec(ts: Seq<TokenView>, expected: Seq<char>) -> Option<
    Seq<TokenView>,
> {
    constant_token_spec(ts, TokenView::Alphanum(expected))
}

/// Whether `res` is what stepping over a token returns when the outcome is
/// `expected`.
pub open spec fn steps(res: Option<&[Token]>, expected: Option<Seq<TokenView>>) -> bool {
    match expected {
        Some(rest) => res matches Some(r) && token_views(r@) == rest,
        None => res is None,
    }
}

/// Steps over the token `expected` at the front of `tokens`.
pub fn parse_constant_token<'a>(tokens: &'a [Token], expected: &Token) -> (res: Option<&'a [Token]>)
    ensures
        steps(res, constant_token_spec(token_views(tokens@), expected@)),
{
    if tokens.len() > 0 && tokens[0].same(expected) {
        Some(rest_of(tokens))
    } else {
        None
    }
}

/// Steps over the run `expected` at the front of `tokens`.
pub fn parse_constant_alphanum<'a>(tokens: &'a [Token], expected: &str) -> (res: Option<&'a [Token]>)
    ensures
        steps(res, constant_alphanum_spec(token_views(tokens@), expected@)),
{
    if tokens.len() == 0 {
        return None;
    }
    match &tokens[0] {
        Token::Alphanum(actual) => {
            let wanted = String::from_str(expected);
            if *actual == wanted {
                assert(actual@ =~= expected@);
                Some(rest_of(tokens))
            } else {
                None
            }
        },
        _ => None,
    }
}

/// Whether the token at the front of `tokens` is `expected`.
pub fn begins_with(tokens: &[Token], expected: &Token) -> (b: bool)
    ensures
        b == (tokens@.len() > 0 && token_views(tokens@)[0] == expected@),
{
    tokens.len() > 0 && tokens[0].same(expected)
}

} // verus!
