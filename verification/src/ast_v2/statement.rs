//! Statements and blocks of statements.

use crate::ast_v2::assignment::assignment_spec;
use crate::ast_v2::function_call::{function_call_spec, lemma_function_call_consumes};
use crate::ast_v2::function_definition::{function_definition_spec, lemma_parameters_shrink, parameters_spec};
use crate::ast_v2::identifier::identifier_spec;
use crate::ast_v2::model::{
    items_then, lemma_items_then_push, reads, reads_statements, statement_views, Assignment,
    FunctionCall, FunctionDefinition, Statement, StatementView,
};
use crate::ast_v2::utils::{
    begins_with, constant_alphanum_spec, constant_token_spec, parse_constant_token,
};
use crate::tokens::{token_views, Token, TokenView};
use vstd::prelude::*;

verus! {

/// A statement at the front of `ts`: a function call, or else an
/// assignment, or else a function definition.
pub open spec fn statement_spec(ts: Seq<TokenView>) -> Option<(StatementView, Seq<TokenView>)>
    decreases ts.len(), 1int,
{
    match function_call_spec(ts) {
        Some((fc, rest)) => Some((StatementView::Fc(fc), rest)),
        None => match assignment_spec(ts) {
            Some((a, rest)) => Some((StatementView::As(a), rest)),
            None => match function_definition_spec(ts) {
                Some((fd, rest)) => Some((StatementView::Fd(fd), rest)),
                None => None,
            },
        },
    }
}

/// A statement at the front of `ts` if there is one, as a sequence of one or
/// none, and the tokens after it.
pub open spec fn optional_statement_spec(ts: Seq<TokenView>) -> (Seq<StatementView>, Seq<TokenView>)
    decreases ts.len(), 2int,
{
    match statement_spec(ts) {
        Some((s, rest)) => (seq![s], rest),
        None => (Seq::empty(), ts),
    }
}

/// A block at the front of `ts`: `{`, statements separated by `;`, `}`.
/// Each statement must consume at least one token, which every statement
/// does.
pub open spec fn block_spec(ts: Seq<TokenView>) -> Option<(Seq<StatementView>, Seq<TokenView>)>
    decreases ts.len(), 3int,
{
    match constant_token_spec(ts, TokenView::OpenBrace) {
        None => None,
        Some(rest) => {
            let (first, rest1) = optional_statement_spec(rest);
            if rest1.len() < ts.len() {
                items_then(first, block_rest_spec(rest1))
            } else {
                None
            }
        },
    }
}

/// What follows the first statement of a block: `;` and a statement, as
/// often as they come, then `}`.
pub open spec fn block_rest_spec(ts: Seq<TokenView>) -> Option<(Seq<StatementView>, Seq<TokenView>)>
    decreases ts.len(), 3int,
{
    if ts.len() > 0 && ts[0] == TokenView::CloseBrace {
        Some((Seq::empty(), ts.skip(1)))
    } else {
        match constant_token_spec(ts, TokenView::Semicolon) {
            None => None,
            Some(rest) => match statement_spec(rest) {
                None => None,
                Some((s, rest2)) => if rest2.len() < ts.len() {
                    items_then(seq![s], block_rest_spec(rest2))
                } else {
                    None
                },
            },
        }
    }
}

/// An assignment that is read consumes at least one token.
pub proof fn lemma_assignment_consumes(ts: Seq<TokenView>)
    ensures
        assignment_spec(ts) matches Some((_, rest)) ==> rest.len() < ts.len(),
{
    if let Some((assignee, rest)) = identifier_spec(ts) {
        if let Some(rest2) = constant_token_spec(rest, TokenView::EqualSign) {
            crate::ast_v2::function_call::lemma_expression_consumes(rest2);
        }
    }
}

/// A statement that is read consumes at least one token.
pub proof fn lemma_statement_consumes(ts: Seq<TokenView>)
    ensures
        statement_spec(ts) matches Some((_, rest)) ==> rest.len() < ts.len(),
        optional_statement_spec(ts).1.len() <= ts.len(),
    decreases ts.len(), 1int,
{
    lemma_function_call_consumes(ts);
    lemma_assignment_consumes(ts);
    lemma_function_definition_consumes(ts);
}

/// A function definition that is read consumes at least one token.
pub proof fn lemma_function_definition_consumes(ts: Seq<TokenView>)
    ensures
        function_definition_spec(ts) matches Some((_, rest)) ==> rest.len() < ts.len(),
    decreases ts.len(), 0int,
{
    if let Some(r1) = constant_alphanum_spec(ts, "fn"@) {
        if let Some((name, r2)) = identifier_spec(r1) {
            if let Some(r3) = constant_token_spec(r2, TokenView::OpenParen) {
                let (arguments, r4) = parameters_spec(r3);
                lemma_parameters_shrink(r3);
                if let Some(r5) = constant_token_spec(r4, TokenView::CloseParen) {
                    lemma_block_consumes(r5);
                }
            }
        }
    }
}

/// A block that is read consumes at least one token.
pub proof fn lemma_block_consumes(ts: Seq<TokenView>)
    ensures
        block_spec(ts) matches Some((_, rest)) ==> rest.len() < ts.len(),
    decreases ts.len(), 3int,
{
    if let Some(rest) = constant_token_spec(ts, TokenView::OpenBrace) {
        let (first, rest1) = optional_statement_spec(rest);
        if rest1.len() < ts.len() {
            lemma_block_rest_consumes(rest1);
        }
    }
}

/// The rest of a block that is read consumes at least one token.
pub proof fn lemma_block_rest_consumes(ts: Seq<TokenView>)
    ensures
        block_rest_spec(ts) matches Some((_, rest)) ==> rest.len() < ts.len(),
    decreases ts.len(), 3int,
{
    if ts.len() > 0 && ts[0] == TokenView::CloseBrace {
    } else if let Some(rest) = constant_token_spec(ts, TokenView::Semicolon) {
        if let Some((s, rest2)) = statement_spec(rest) {
            if rest2.len() < ts.len() {
                lemma_block_rest_consumes(rest2);
            }
        }
    }
}

impl Statement {
    /// Reads a statement.
    pub fn parse<'a>(tokens: &'a [Token]) -> (res: Option<(Statement, &'a [Token])>)
        ensures
            reads(res, statement_spec(token_views(tokens@))),
        decreases tokens@.len(), 1int,
    {
        match FunctionCall::parse(tokens) {
            Some((fc, ts)) => Some((Statement::Fc(fc), ts)),
            None => match Assignment::parse(tokens) {
                Some((asgn, ts)) => Some((Statement::As(asgn), ts)),
                None => match FunctionDefinition::parse(tokens) {
                    Some((fd, ts)) => Some((Statement::Fd(fd), ts)),
                    None => None,
                },
            },
        }
    }

    /// Reads a block.
    pub fn parse_block<'a>(tokens: &'a [Token]) -> (res: Option<(Vec<Statement>, &'a [Token])>)
        ensures
            reads_statements(res, block_spec(token_views(tokens@))),
        decreases tokens@.len(), 3int,
    {
        let after_open = match parse_constant_token(tokens, &Token::OpenBrace) {
            Some(ts) => ts,
            None => {
                return None;
            },
        };
        let mut cursor = after_open;
        let mut statements: Vec<Statement> = Vec::new();
        proof {
            lemma_statement_consumes(token_views(after_open@));
        }
        match Statement::parse(cursor) {
            Some((stmt, ts)) => {
                assert(statement_views(statements@.push(stmt)) =~= seq![stmt@]);
                cursor = ts;
                statements.push(stmt);
            },
            None => {
                assert(statement_views(statements@) =~= Seq::empty());
            },
        }
        let ghost whole = block_spec(token_views(tokens@));
        while !begins_with(cursor, &Token::CloseBrace)
            invariant
                cursor@.len() < tokens@.len(),
                whole == block_spec(token_views(tokens@)),
                whole == items_then(
                    statement_views(statements@),
                    block_rest_spec(token_views(cursor@)),
                ),
            decreases cursor@.len(),
        {
            let after_semicolon = match parse_constant_token(cursor, &Token::Semicolon) {
                Some(ts) => ts,
                None => {
                    return None;
                },
            };
            proof {
                lemma_statement_consumes(token_views(after_semicolon@));
            }
            let (stmt, ts) = match Statement::parse(after_semicolon) {
                Some(r) => r,
                None => {
                    return None;
                },
            };
            proof {
                lemma_items_then_push(
                    statement_views(statements@),
                    stmt@,
                    block_rest_spec(token_views(ts@)),
                );
                assert(statement_views(statements@.push(stmt)) =~= statement_views(
                    statements@,
                ).push(stmt@));
            }
            cursor = ts;
            statements.push(stmt);
        }
        let rest = match parse_constant_token(cursor, &Token::CloseBrace) {
            Some(ts) => ts,
            None => {
                return None;
            },
        };
        assert(statement_views(statements@) + Seq::<StatementView>::empty() =~= statement_views(
            statements@,
        ));
        Some((statements, rest))
    }
}

} // verus!
