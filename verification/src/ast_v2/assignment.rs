//! Assignments: a name, `=`, an expression.

use crate::ast_v2::expression::expression_spec;
use crate::ast_v2::identifier;
use crate::ast_v2::identifier::identifier_spec;
use crate::ast_v2::model::{reads, Assignment, AssignmentView, Expression};
use crate::ast_v2::utils::{constant_token_spec, parse_constant_token};
use crate::tokens::{token_views, Token, TokenView};
use vstd::prelude::*;

verus! {

/// An assignment at the front of `ts`.
pub open spec fn assignment_spec(ts: Seq<TokenView>) -> Option<(AssignmentView, Seq<TokenView>)> {
    match identifier_spec(ts) {
        None => None,
        Some((assignee, rest)) => match constant_token_spec(rest, TokenView::EqualSign) {
            None => None,
            Some(rest2) => match expression_spec(rest2) {
                None => None,
                Some((expression, rest3)) => Some((AssignmentView { assignee, expression }, rest3)),
            },
        },
    }
}

impl Assignment {
    /// Reads an assignment.
    pub fn parse<'a>(tokens: &'a [Token]) -> (res: Option<(Assignment, &'a [Token])>)
        ensures
            reads(res, assignment_spec(token_views(tokens@))),
    {
        let (assignee, after_name) = match identifier::parse(tokens) {
            Some(r) => r,
            None => {
                return None;
            },
        };
        let after_sign = match parse_constant_token(after_name, &Token::EqualSign) {
            Some(ts) => ts,
            None => {
                return None;
            },
        };
        match Expression::parse(after_sign) {
            Some((expression, rest)) => Some((Assignment { assignee, expression }, rest)),
            None => None,
        }
    }
}

} // verus!
