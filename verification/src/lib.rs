//! The line language of a shell for a remote, path-addressed tree of resources: lines are
//! split into tokens, parsed into statements and evaluated against the state of a session.
//! What a statement needs from the outside, the running of a command or a write to the tree,
//! it hands to its host as a request and takes back as a reply.

pub mod cmd;
pub mod context;
pub mod interpret;
pub mod line;
pub mod path;
pub mod script;
pub mod text;
pub mod value;
