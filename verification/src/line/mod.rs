//! The line language: lexer, parser and evaluator.

use crate::context::Context;
use crate::line::interpret::eval_statement;
use crate::line::interpret::interpret;
use crate::line::interpret::reply_views;
use crate::line::interpret::Progress;
use crate::line::interpret::Reply;
use crate::line::parse::parse;
use crate::line::parse::parse_spec;
use crate::line::parse::SyntaxError;
use vstd::prelude::*;

pub mod cursor;
pub mod interpret;
pub mod lex;
pub mod parse;

verus! {

/// Lexes, parses and evaluates one line as far as the replies that the host has given so far
/// carry it. A line that is no statement asks nothing of the host and leaves the session as it
/// is.
pub fn parse_interpret(line: &str, ctx: &mut Context, replies: &[Reply]) -> (r: Result<
    Progress<String>,
    SyntaxError,
>)
    ensures
        match parse_spec(line@) {
            Ok(statement) => r matches Ok(progress) && progress@ == eval_statement(
                statement,
                old(ctx)@,
                reply_views(replies@),
            ).progress && final(ctx)@ == eval_statement(
                statement,
                old(ctx)@,
                reply_views(replies@),
            ).context,
            Err(error) => r == Err::<Progress<String>, SyntaxError>(error) && final(ctx)@ == old(
                ctx,
            )@,
        },
{
    match parse(line) {
        Ok(statement) => Ok(interpret(&statement, ctx, replies)),
        Err(error) => Err(error),
    }
}

} // verus!
