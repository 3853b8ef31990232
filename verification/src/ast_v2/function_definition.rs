//! Function definitions: `fn`, a name, `(`, parameter names, `)`, a block.

use crate::ast_v2::identifier;
use crate::ast_v2::identifier::identifier_spec;
use crate::ast_v2::model::{
    name_views, reads, statement_views, FunctionDefinition, FunctionDefinitionView, Statement,
};
use crate::ast_v2::statement::block_spec;
use crate::ast_v2::utils::{
    constant_alphanum_spec, constant_token_spec, parse_constant_alphanum, parse_constant_token,
};
use crate::tokens::{token_views, Token, TokenView};
use vstd::prelude::*;

verus! {

/// The names at the front of `ts`, as many as follow one another, and the
/// tokens after them.
pub open spec fn parameters_spec(ts: Seq<TokenView>) -> (Seq<Seq<char>>, Seq<TokenView>)
    decreases ts.len(),
{
    match identifier_spec(ts) {
        Some((name, rest)) => {
            let (names, after) = parameters_spec(rest);
            (seq![name] + names, after)
        },
        None => (Seq::empty(), ts),
    }
}

/// Names that are read leave no more tokens than there were.
pub proof fn lemma_parameters_shrink(ts: Seq<TokenView>)
    ensures
        parameters_spec(ts).1.len() <= ts.len(),
    decreases ts.len(),
{
    if let Some((name, rest)) = identifier_spec(ts) {
        lemma_parameters_shrink(rest);
    }
}

/// A function definition at the front of `ts`.
pub open spec fn function_definition_spec(ts: Seq<TokenView>) -> Option<
    (FunctionDefinitionView, Seq<TokenView>),
>
    decreases ts.len(), 0int,
{
    match constant_alphanum_spec(ts, "fn"@) {
        None => None,
        Some(r1) => match identifier_spec(r1) {
            None => None,
            Some((function_name, r2)) => match constant_token_spec(r2, TokenView::OpenParen) {
                None => None,
                Some(r3) => {
                    let (arguments, r4) = parameters_spec(r3);
                    match constant_token_spec(r4, TokenView::CloseParen) {
                        None => None,
                        Some(r5) => {
                            proof {
                                lemma_parameters_shrink(r3);
                            }
                            match block_spec(r5) {
                                None => None,
                                Some((body, r6)) => Some(
                                    (FunctionDefinitionView { function_name, arguments, body }, r6),
                                ),
                            }
                        },
                    }
                },
            },
        },
    }
}

/// Reads as many names as follow one another.
fn parse_parameters<'a>(tokens: &'a [Token]) -> (res: (Vec<String>, &'a [Token]))
    ensures
        name_views(res.0@) == parameters_spec(token_views(tokens@)).0,
        token_views(res.1@) == parameters_spec(token_views(tokens@)).1,
{
    let ghost start = token_views(tokens@);
    let mut cursor = tokens;
    let mut arguments: Vec<String> = Vec::new();
    assert(name_views(arguments@) =~= Seq::empty());
    assert(name_views(arguments@) + parameters_spec(start).0 =~= parameters_spec(start).0);
    loop
        invariant
            start == token_views(tokens@),
            parameters_spec(start).0 == name_views(arguments@) + parameters_spec(
                token_views(cursor@),
            ).0,
            parameters_spec(start).1 == parameters_spec(token_views(cursor@)).1,
        decreases cursor@.len(),
    {
        match identifier::parse(cursor) {
            Some((arg_name, ts)) => {
                proof {
                    let rest = parameters_spec(token_views(ts@)).0;
                    assert(name_views(arguments@.push(arg_name)) =~= name_views(arguments@).push(
                        arg_name@,
                    ));
                    assert(name_views(arguments@) + (seq![arg_name@] + rest) =~= name_views(
                        arguments@,
                    ).push(arg_name@) + rest);
                }
                cursor = ts;
                arguments.push(arg_name);
            },
            None => {
                assert(name_views(arguments@) + Seq::<Seq<char>>::empty() =~= name_views(
                    arguments@,
                ));
                return (arguments, cursor);
            },
        }
    }
}

impl FunctionDefinition {
    /// Reads a function definition.
    pub fn parse<'a>(tokens: &'a [Token]) -> (res: Option<(FunctionDefinition, &'a [Token])>)
        ensures
            reads(res, function_definition_spec(token_views(tokens@))),
        decreases tokens@.len(), 0int,
    {
        let after_fn = match parse_constant_alphanum(tokens, "fn") {
            Some(ts) => ts,
            None => {
                return None;
            },
        };
        let (function_name, after_name) = match identifier::parse(after_fn) {
            Some(r) => r,
            None => {
                return None;
            },
        };
        let after_open = match parse_constant_token(after_name, &Token::OpenParen) {
            Some(ts) => ts,
            None => {
                return None;
            },
        };
        let (arguments, after_params) = parse_parameters(after_open);
        let after_close = match parse_constant_token(after_params, &Token::CloseParen) {
            Some(ts) => ts,
            None => {
                return None;
            },
        };
        proof {
            lemma_parameters_shrink(token_views(after_open@));
        }
        let (body, rest) = match Statement::parse_block(after_close) {
            Some(r) => r,
            None => {
                return None;
            },
        };
        let definition = FunctionDefinition { function_name, arguments, body };
        assert(definition@.body =~= statement_views(body@));
        Some((definition, rest))
    }
}

} // verus!
