//! Colours for the terminal.

use colored::Colorize;
use vstd::prelude::*;

verus! {

/// The mark that turns what follows it blue.
pub open spec fn blue_mark() -> Seq<char> {
    "\x1B[34m"@
}

/// The mark that ends all colours.
pub open spec fn reset_mark() -> Seq<char> {
    "\x1B[0m"@
}

/// Whether `part` stands somewhere in `text`.
pub open spec fn holds(text: Seq<char>, part: Seq<char>) -> bool {
    exists|i: int|
        0 <= i && i + part.len() <= text.len() && #[trigger] text.subrange(i, i + part.len())
            == part
}

/// Whether `shown` is a way to show `text` in blue: the text itself where colours are off,
/// and the text between the mark for blue and the mark that ends it where they are on.
/// Nothing is said of a text that holds the mark that ends all colours.
pub open spec fn shows_blue(shown: Seq<char>, text: Seq<char>) -> bool {
    shown == text || shown == blue_mark() + text + reset_mark() || holds(text, reset_mark())
}

/// `Colorize::blue` marks a text to be shown in blue. Its display is the text alone where the
/// environment of the process asks for no colours, and else the mark for blue, the text, and
/// the mark that ends all colours; a text that holds that mark itself is changed on the way.
#[verifier::external_body]
pub(crate) fn blue(text: &str) -> (shown: String)
    ensures
        shows_blue(shown@, text@),
{
    text.blue().to_string()
}

} // verus!
