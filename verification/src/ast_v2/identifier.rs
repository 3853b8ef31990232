//! Names.

use crate::ast::is_identifier;
use crate::ast_v2::model::reads;
use crate::chars::starts_with_letter;
use crate::tokens::{rest_of, token_views, Token, TokenView};
use vstd::prelude::*;

verus! {

/// A name at the front of `ts`: a run that begins with a letter.
pub open spec fn identifier_spec(ts: Seq<TokenView>) -> Option<(Seq<char>, Seq<TokenView>)> {
    if ts.len() == 0 {
        None
    } else {
        match ts[0] {
            TokenView::Alphanum(s) => if is_identifier(s) {
                Some((s, ts.skip(1)))
            } else {
                None
            },
            _ => None,
        }
    }
}

/// Reads a name.
pub fn parse<'a>(tokens: &'a [Token]) -> (res: Option<(String, &'a [Token])>)
    ensures
        reads(res, identifier_spec(token_views(tokens@))),
{
    if tokens.len() == 0 {
        return None;
    }
    match &tokens[0] {
        Token::Alphanum(s) => {
            if starts_with_letter(s.as_str()) {
                Some((s.clone(), rest_of(tokens)))
            } else {
                None
            }
        },
        _ => None,
    }
}

} // verus!
