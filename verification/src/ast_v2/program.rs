//! Programs: an optional prologue block, statements separated by `;`, and an
//! epilogue block.

use crate::ast_v2::model::{
    items_then, lemma_items_then_empty, lemma_items_then_push, reads_statements, statement_views,
    Program, ProgramView, Statement, StatementView,
};
use crate::ast_v2::statement::{
    block_spec, lemma_statement_consumes, optional_statement_spec, statement_spec,
};
use crate::ast_v2::utils::{
    constant_alphanum_spec, constant_token_spec, parse_constant_alphanum, parse_constant_token,
};
use crate::tokens::{token_views, Token, TokenView};
use vstd::prelude::*;

verus! {

/// A block at the front of `ts` where the word `keyword` stands before it;
/// no statements and the tokens as they are where it does not.
pub open spec fn optional_block_spec(ts: Seq<TokenView>, keyword: Seq<char>) -> Option<
    (Seq<StatementView>, Seq<TokenView>),
> {
    match constant_alphanum_spec(ts, keyword) {
        Some(rest) => block_spec(rest),
        None => Some((Seq::empty(), ts)),
    }
}

/// What follows the first statement of a program: `;` and a statement, as
/// often as they come, up to the word `epilogue`, which is left.
pub open spec fn more_statements_spec(ts: Seq<TokenView>) -> Option<
    (Seq<StatementView>, Seq<TokenView>),
>
    decreases ts.len(),
{
    if constant_alphanum_spec(ts, "epilogue"@) is Some {
        Some((Seq::empty(), ts))
    } else {
        match constant_token_spec(ts, TokenView::Semicolon) {
            None => None,
            Some(rest) => match statement_spec(rest) {
                None => None,
                Some((s, rest2)) => {
                    proof {
                        lemma_statement_consumes(rest);
                    }
                    items_then(seq![s], more_statements_spec(rest2))
                },
            },
        }
    }
}

/// The program that the tokens `ts` hold from front to end.
pub open spec fn program_spec(ts: Seq<TokenView>) -> Option<ProgramView> {
    match optional_block_spec(ts, "prologue"@) {
        None => None,
        Some((prologue, r1)) => {
            let (first, r2) = optional_statement_spec(r1);
            match more_statements_spec(r2) {
                None => None,
                Some((more, r3)) => match optional_block_spec(r3, "epilogue"@) {
                    None => None,
                    Some((epilogue, r4)) => if r4.len() == 0 {
                        Some(ProgramView { statements: first + more, prologue, epilogue })
                    } else {
                        None
                    },
                },
            }
        },
    }
}

/// Reads a block where the word `keyword` stands before it.
fn parse_optional_block<'a>(tokens: &'a [Token], keyword: &str) -> (res: Option<
    (Vec<Statement>, &'a [Token]),
>)
    ensures
        reads_statements(res, optional_block_spec(token_views(tokens@), keyword@)),
{
    match parse_constant_alphanum(tokens, keyword) {
        Some(ts) => Statement::parse_block(ts),
        None => {
            let statements: Vec<Statement> = Vec::new();
            assert(statement_views(statements@) =~= Seq::empty());
            Some((statements, tokens))
        },
    }
}

/// Reads a statement if there is one.
fn parse_optional_statement<'a>(tokens: &'a [Token]) -> (res: (Vec<Statement>, &'a [Token]))
    ensures
        statement_views(res.0@) == optional_statement_spec(token_views(tokens@)).0,
        token_views(res.1@) == optional_statement_spec(token_views(tokens@)).1,
{
    let mut statements: Vec<Statement> = Vec::new();
    match Statement::parse(tokens) {
        Some((stmt, ts)) => {
            assert(statement_views(statements@.push(stmt)) =~= seq![stmt@]);
            statements.push(stmt);
            (statements, ts)
        },
        None => {
            assert(statement_views(statements@) =~= Seq::empty());
            (statements, tokens)
        },
    }
}

/// Reads `;` and a statement, as often as they come, up to the word
/// `epilogue`, and appends the statements to `first`.
fn parse_more_statements<'a>(tokens: &'a [Token], first: Vec<Statement>) -> (res: Option<
    (Vec<Statement>, &'a [Token]),
>)
    ensures
        match more_statements_spec(token_views(tokens@)) {
            Some((more, rest)) => res matches Some((all, r)) && statement_views(all@)
                == statement_views(first@) + more && token_views(r@) == rest,
            None => res is None,
        },
{
    let ghost start = token_views(tokens@);
    let ghost before = statement_views(first@);
    let ghost done: Seq<StatementView> = Seq::empty();
    let mut cursor = tokens;
    let mut statements = first;
    proof {
        lemma_items_then_empty(more_statements_spec(start));
        assert(before + done =~= before);
    }
    while parse_constant_alphanum(cursor, "epilogue").is_none()
        invariant
            start == token_views(tokens@),
            statement_views(statements@) == before + done,
            more_statements_spec(start) == items_then(
                done,
                more_statements_spec(token_views(cursor@)),
            ),
        decreases cursor@.len(),
    {
        let after_semicolon = match parse_constant_token(cursor, &Token::Semicolon) {
            Some(ts) => ts,
            None => {
                return None;
            },
        };
        proof {
            lemma_statement_consumes(token_views(after_semicolon@));
        }
        let (stmt, ts) = match Statement::parse(after_semicolon) {
            Some(r) => r,
            None => {
                return None;
            },
        };
        proof {
            lemma_items_then_push(done, stmt@, more_statements_spec(token_views(ts@)));
            assert(statement_views(statements@.push(stmt)) =~= statement_views(statements@).push(
                stmt@,
            ));
            assert((before + done).push(stmt@) =~= before + done.push(stmt@));
            done = done.push(stmt@);
        }
        cursor = ts;
        statements.push(stmt);
    }
    assert(done + Seq::<StatementView>::empty() =~= done);
    Some((statements, cursor))
}

impl Program {
    /// Reads a whole program.
    pub fn parse(tokens: &[Token]) -> (res: Option<Program>)
        ensures
            match program_spec(token_views(tokens@)) {
                Some(p) => res matches Some(x) && x@ == p,
                None => res is None,
            },
    {
        let (prologue, after_prologue) = match parse_optional_block(tokens, "prologue") {
            Some(r) => r,
            None => {
                return None;
            },
        };
        let (first, after_first) = parse_optional_statement(after_prologue);
        let (statements, after_statements) = match parse_more_statements(after_first, first) {
            Some(r) => r,
            None => {
                return None;
            },
        };
        let (epilogue, rest) = match parse_optional_block(after_statements, "epilogue") {
            Some(r) => r,
            None => {
                return None;
            },
        };
        if rest.len() == 0 {
            Some(Program { statements, prologue, epilogue })
        } else {
            None
        }
    }
}

} // verus!
