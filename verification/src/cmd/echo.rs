//! `echo`: writes its arguments.

use crate::text::join;
use crate::text::joined;
use crate::text::texts;
use vstd::prelude::*;

verus! {

/// What `echo` writes: its arguments after the first, with one space between each two.
pub fn invoke(args: &[String]) -> (output: String)
    requires
        args@.len() > 0,
    ensures
        output@ == joined(texts(args@).skip(1), " "@),
{
    let rest = vstd::slice::slice_subrange(args, 1, args.len());
    assert(texts(rest@) =~= texts(args@).skip(1));
    join(rest, " ")
}

} // verus!
