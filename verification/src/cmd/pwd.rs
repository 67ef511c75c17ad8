//! `pwd`: writes the working path.

use crate::context::Context;
use crate::path::text_of;
use vstd::prelude::*;

verus! {

/// What `pwd` writes: the text that spells the working path.
pub fn invoke(ctx: &Context) -> (output: String)
    ensures
        output@ == text_of(ctx@.cwd),
{
    ctx.cwd.to_string()
}

} // verus!
