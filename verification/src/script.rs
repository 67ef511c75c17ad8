//! Scripts: texts of several lines.

use crate::text::parts;
use crate::text::split;
use crate::text::texts;
use crate::text::trimmed;
use vstd::prelude::*;

verus! {

/// The mark that begins a comment.
pub const COMMENT_CHAR: char = '#';

/// The statement on a line of a script: the line without the whitespace at its ends, unless
/// nothing is left of it or a comment is.
pub open spec fn statement_on(line: Seq<char>) -> Option<Seq<char>> {
    let text = trimmed(line);
    if text.len() == 0 || text.first() == COMMENT_CHAR {
        None
    } else {
        Some(text)
    }
}

/// The statements on the first `n` lines, in order.
pub open spec fn statements_on(lines: Seq<Seq<char>>, n: int) -> Seq<Seq<char>>
    decreases n,
{
    if n <= 0 {
        Seq::empty()
    } else {
        match statement_on(lines[n - 1]) {
            Some(text) => statements_on(lines, n - 1).push(text),
            None => statements_on(lines, n - 1),
        }
    }
}

/// The statements of a script: those on its lines, in order.
pub open spec fn statements_of(script: Seq<char>) -> Seq<Seq<char>> {
    statements_on(parts(script, '\n'), parts(script, '\n').len() as int)
}

/// Reads the statement off a line of a script, if the line holds one.
pub fn statement(line: &str) -> (r: Option<&str>)
    ensures
        match r {
            Some(text) => statement_on(line@) == Some(text@),
            None => statement_on(line@) is None,
        },
{
    let text = line.trim();
    let mut chars = text.chars();
    match chars.next() {
        None => None,
        Some(c) => if c == COMMENT_CHAR {
            None
        } else {
            Some(text)
        },
    }
}

/// Reads the statements off a script: one for each line that is neither empty nor a comment.
pub fn statements(script: &str) -> (r: Vec<String>)
    ensures
        texts(r@) == statements_of(script@),
{
    let lines = split(script, '\n');
    let mut found: Vec<String> = Vec::new();
    assert(texts(found@) =~= statements_on(texts(lines@), 0));
    for i in 0..lines.len()
        invariant
            texts(lines@) == parts(script@, '\n'),
            texts(found@) == statements_on(texts(lines@), i as int),
    {
        match statement(lines[i].as_str()) {
            Some(text) => {
                let ghost before = texts(found@);
                found.push(text.to_owned());
                assert(texts(found@) =~= before.push(text@));
            },
            None => {},
        }
    }
    found
}

} // verus!
