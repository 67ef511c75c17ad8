//! `rmdir`: removes empty directories.

use crate::path::text_of;
use crate::path::VirtualPath;
use vstd::prelude::*;
use vstd::string::StringExecFns;

verus! {

/// Why `rmdir` leaves alone what could not be listed.
pub open spec fn not_a_directory(path: Seq<Seq<char>>) -> Seq<char> {
    text_of(path) + " is not a directory, use rm instead!"@
}

/// Why `rmdir` leaves a directory with entries alone.
pub open spec fn not_empty(path: Seq<Seq<char>>) -> Seq<char> {
    text_of(path) + " is not empty, use rm -r instead!"@
}

/// What `rmdir` is to make of `path`, given the number of entries that listing it gave, if
/// it could be listed: nothing stands in the way of removing an empty directory.
pub open spec fn checked(path: Seq<Seq<char>>, entries: Option<usize>) -> Result<(), Seq<char>> {
    match entries {
        None => Err(not_a_directory(path)),
        Some(n) => if n > 0 {
            Err(not_empty(path))
        } else {
            Ok(())
        },
    }
}

/// Decides whether `rmdir` may remove what is at `path`. The error is the message for the
/// user.
pub fn check(path: VirtualPath<'_>, entries: Option<usize>) -> (r: Result<(), String>)
    ensures
        match r {
            Ok(_) => checked(path@, entries) is Ok,
            Err(message) => checked(path@, entries) == Err::<(), Seq<char>>(message@),
        },
{
    match entries {
        None => {
            let mut message = path.to_string();
            message.append(" is not a directory, use rm instead!");
            Err(message)
        },
        Some(n) => if n > 0 {
            let mut message = path.to_string();
            message.append(" is not empty, use rm -r instead!");
            Err(message)
        } else {
            Ok(())
        },
    }
}

} // verus!
