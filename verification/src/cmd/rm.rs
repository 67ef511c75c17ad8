//! `rm`: removes resources and, where asked to, directories.

use crate::path::text_of;
use crate::path::VirtualPath;
use vstd::prelude::*;
use vstd::string::StringExecFns;

verus! {

/// Why `rm` leaves a directory alone.
pub open spec fn refusal(path: Seq<Seq<char>>) -> Seq<char> {
    text_of(path) + " is a directory, pass -r to delete it!"@
}

/// Decides whether `rm` may remove what is at `path`: a directory only where removal is
/// recursive. The error is the message for the user.
pub fn check(path: VirtualPath<'_>, is_directory: bool, recursive: bool) -> (r: Result<(), String>)
    ensures
        is_directory && !recursive ==> (r matches Err(message) && message@ == refusal(path@)),
        !is_directory || recursive ==> r is Ok,
{
    if is_directory && !recursive {
        let mut message = path.to_string();
        message.append(" is a directory, pass -r to delete it!");
        Err(message)
    } else {
        Ok(())
    }
}

} // verus!
