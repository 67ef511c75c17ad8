//! The cursor over tokens that the parser reads from: `multipeek`'s adaptor over the tokens
//! of a line.

use crate::line::lex::token_views;
use crate::line::lex::Token;
use crate::line::lex::TokenView;
use multipeek::IteratorExt;
use multipeek::MultiPeek;
use std::vec::IntoIter;
use vstd::prelude::*;

verus! {

/// `multipeek::MultiPeek`, an adaptor that lets the user of an iterator look at the items to
/// come. Nothing is known of what is inside it but what [`upcoming`] names.
#[verifier::external_type_specification]
#[verifier::external_body]
#[verifier::reject_recursive_types(I)]
pub struct ExMultiPeek<I: Iterator>(MultiPeek<I>);

/// A cursor over the tokens of a line.
pub type TokenCursor = MultiPeek<IntoIter<Token>>;

/// The tokens that a cursor has yet to hand out, the next one first.
pub uninterp spec fn upcoming(cursor: MultiPeek<IntoIter<Token>>) -> Seq<TokenView>;

/// `IteratorExt::multipeek` wraps an iterator, here the one that hands out a vector's items in
/// order, without taking any item from it.
#[verifier::external_body]
pub(crate) fn cursor_over(tokens: Vec<Token>) -> (cursor: MultiPeek<IntoIter<Token>>)
    ensures
        upcoming(cursor) == token_views(tokens@),
{
    tokens.into_iter().multipeek()
}

/// `MultiPeek::peek_nth` returns the item that `n + 1` calls of `next` would return last, or
/// `None` where fewer items are left, and leaves the items to come as they are.
#[verifier::external_body]
pub(crate) fn peek_nth(cursor: &mut MultiPeek<IntoIter<Token>>, n: usize) -> (token: Option<&Token>)
    ensures
        upcoming(*final(cursor)) == upcoming(*old(cursor)),
        match token {
            Some(t) => n < upcoming(*old(cursor)).len() && t@ == upcoming(*old(cursor))[n as int],
            None => n >= upcoming(*old(cursor)).len(),
        },
{
    cursor.peek_nth(n)
}

/// `MultiPeek::next` hands out the next item and moves past it, or returns `None` at the end.
#[verifier::external_body]
pub(crate) fn next(cursor: &mut MultiPeek<IntoIter<Token>>) -> (token: Option<Token>)
    ensures
        match token {
            Some(t) => upcoming(*old(cursor)).len() > 0 && t@ == upcoming(*old(cursor))[0]
                && upcoming(*final(cursor)) == upcoming(*old(cursor)).drop_first(),
            None => upcoming(*old(cursor)).len() == 0 && upcoming(*final(cursor)) == upcoming(
                *old(cursor),
            ),
        },
{
    cursor.next()
}

} // verus!
