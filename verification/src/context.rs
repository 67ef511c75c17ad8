//! The state of a session.

use crate::path::text_of;
use crate::path::VirtualPathBuf;
use vstd::hash_map::StringHashMap;
use vstd::prelude::*;
use vstd::string::StringExecFns;

verus! {

/// The state of a session: what the lines of one run share.
pub struct Context {
    /// The current working path.
    pub cwd: VirtualPathBuf,
    /// The values of the variables, by name.
    pub variables: StringHashMap<String>,
    /// The name of the user of the session.
    pub username: String,
    /// The host that the session talks to.
    pub host: String,
}

/// The mathematical value of a [`Context`].
pub struct ContextView {
    pub cwd: Seq<Seq<char>>,
    pub variables: Map<Seq<char>, Seq<char>>,
    pub username: Seq<char>,
    pub host: Seq<char>,
}

impl View for Context {
    type V = ContextView;

    open spec fn view(&self) -> ContextView {
        ContextView {
            cwd: self.cwd@,
            variables: self.variables@.map_values(|value: String| value@),
            username: self.username@,
            host: self.host@,
        }
    }
}

impl ContextView {
    /// What the shell shows when it waits for a line: who is where.
    pub open spec fn prompt(self) -> Seq<char> {
        self.username + "@"@ + self.host + ":"@ + text_of(self.cwd) + " $ "@
    }

    /// The same session with `name` bound to `value`.
    pub open spec fn bind(self, name: Seq<char>, value: Seq<char>) -> ContextView {
        ContextView {
            cwd: self.cwd,
            variables: self.variables.insert(name, value),
            username: self.username,
            host: self.host,
        }
    }
}

impl Context {
    /// A session of `username` on `host` that starts at the root with no variable bound.
    pub fn new(username: String, host: String) -> (ctx: Self)
        ensures
            ctx@ == (ContextView {
                cwd: seq![Seq::<char>::empty()],
                variables: Map::<Seq<char>, Seq<char>>::empty(),
                username: username@,
                host: host@,
            }),
    {
        let ctx = Context {
            cwd: VirtualPathBuf::root(),
            variables: StringHashMap::new(),
            username,
            host,
        };
        assert(ctx@.variables =~= Map::<Seq<char>, Seq<char>>::empty());
        ctx
    }

    /// What the shell shows when it waits for a line: who is where.
    pub fn prompt(&self) -> (text: String)
        ensures
            text@ == self@.prompt(),
    {
        let mut text = self.username.clone();
        text.append("@");
        text.append(self.host.as_str());
        text.append(":");
        text.append(self.cwd.to_string().as_str());
        text.append(" $ ");
        text
    }

    /// The value of the variable `name`, if it is bound.
    pub fn variable(&self, name: &str) -> (value: Option<&String>)
        ensures
            match value {
                Some(v) => self@.variables.contains_key(name@) && v@ == self@.variables[name@],
                None => !self@.variables.contains_key(name@),
            },
    {
        self.variables.get(name)
    }

    /// Binds the variable `name` to `value`. An earlier value of it is lost.
    pub fn set_variable(&mut self, name: String, value: String)
        ensures
            final(self)@ == old(self)@.bind(name@, value@),
    {
        self.variables.insert(name, value);
        assert(self@.variables =~= old(self)@.variables.insert(name@, value@));
    }
}

} // verus!
