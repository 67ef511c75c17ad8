//! The commands of the shell: their names, and those parts of them that need no host.

use crate::line::interpret::EvalError;
use crate::line::interpret::EvalErrorView;
use crate::text::join;
use crate::text::joined;
use crate::text::texts;
use vstd::prelude::*;
use vstd::string::StringExecFns;

pub mod display;
pub mod echo;
pub mod ls;
pub mod mkdir;
pub mod paint;
pub mod pwd;
pub mod rm;
pub mod rmdir;
pub mod tree;

verus! {

/// A command that the shell knows by name.
#[derive(Debug, Clone, Copy, PartialEq, Eq, Structural)]
pub enum Builtin {
    Cat,
    Cd,
    Cp,
    Display,
    Echo,
    Ln,
    Ls,
    Mkdir,
    Mv,
    Pwd,
    Rm,
    Rmdir,
    Touch,
    Tree,
    Uln,
}

impl Builtin {
    /// The name by which the command is called.
    pub open spec fn name_text(self) -> Seq<char> {
        match self {
            Builtin::Cat => "cat"@,
            Builtin::Cd => "cd"@,
            Builtin::Cp => "cp"@,
            Builtin::Display => "display"@,
            Builtin::Echo => "echo"@,
            Builtin::Ln => "ln"@,
            Builtin::Ls => "ls"@,
            Builtin::Mkdir => "mkdir"@,
            Builtin::Mv => "mv"@,
            Builtin::Pwd => "pwd"@,
            Builtin::Rm => "rm"@,
            Builtin::Rmdir => "rmdir"@,
            Builtin::Touch => "touch"@,
            Builtin::Tree => "tree"@,
            Builtin::Uln => "uln"@,
        }
    }

    /// The commands, in the order in which the shell lists them.
    pub open spec fn all() -> Seq<Builtin> {
        seq![
            Builtin::Cat,
            Builtin::Cd,
            Builtin::Cp,
            Builtin::Display,
            Builtin::Echo,
            Builtin::Ln,
            Builtin::Ls,
            Builtin::Mkdir,
            Builtin::Mv,
            Builtin::Pwd,
            Builtin::Rm,
            Builtin::Rmdir,
            Builtin::Touch,
            Builtin::Tree,
            Builtin::Uln,
        ]
    }

    /// The command of the given name, if there is one.
    pub open spec fn named(name: Seq<char>) -> Option<Builtin> {
        if exists|i: int| 0 <= i < Builtin::all().len() && Builtin::all()[i].name_text() == name {
            Some(
                Builtin::all()[choose|i: int|
                    0 <= i < Builtin::all().len() && Builtin::all()[i].name_text() == name],
            )
        } else {
            None
        }
    }

    /// The name by which the command is called.
    pub fn name(self) -> (name: &'static str)
        ensures
            name@ == self.name_text(),
    {
        match self {
            Builtin::Cat => "cat",
            Builtin::Cd => "cd",
            Builtin::Cp => "cp",
            Builtin::Display => "display",
            Builtin::Echo => "echo",
            Builtin::Ln => "ln",
            Builtin::Ls => "ls",
            Builtin::Mkdir => "mkdir",
            Builtin::Mv => "mv",
            Builtin::Pwd => "pwd",
            Builtin::Rm => "rm",
            Builtin::Rmdir => "rmdir",
            Builtin::Touch => "touch",
            Builtin::Tree => "tree",
            Builtin::Uln => "uln",
        }
    }

    /// The commands, in the order in which the shell lists them.
    pub fn list() -> (commands: Vec<Builtin>)
        ensures
            commands@ == Builtin::all(),
    {
        let commands = vec![
            Builtin::Cat,
            Builtin::Cd,
            Builtin::Cp,
            Builtin::Display,
            Builtin::Echo,
            Builtin::Ln,
            Builtin::Ls,
            Builtin::Mkdir,
            Builtin::Mv,
            Builtin::Pwd,
            Builtin::Rm,
            Builtin::Rmdir,
            Builtin::Touch,
            Builtin::Tree,
            Builtin::Uln,
        ];
        assert(commands@ =~= Builtin::all());
        commands
    }

    /// Finds the command of the given name.
    pub fn lookup(name: &str) -> (command: Option<Builtin>)
        ensures
            command == Builtin::named(name@),
            command matches Some(found) ==> found.name_text() == name@,
            command is None ==> forall|other: Builtin| other.name_text() != name@,
    {
        let commands = Builtin::list();
        for i in 0..commands.len()
            invariant
                commands@ == Builtin::all(),
                forall|j: int| 0 <= j < i ==> Builtin::all()[j].name_text() != name@,
        {
            if commands[i].name().eq(name) {
                proof {
                    lemma_names_differ();
                }
                return Some(commands[i]);
            }
        }
        proof {
            assert forall|other: Builtin| other.name_text() != name@ by {
                lemma_all_listed(other);
            }
        }
        None
    }
}

/// Every command is in the list.
pub proof fn lemma_all_listed(command: Builtin)
    ensures
        exists|i: int| 0 <= i < Builtin::all().len() && Builtin::all()[i] == command,
{
    let i: int = match command {
        Builtin::Cat => 0,
        Builtin::Cd => 1,
        Builtin::Cp => 2,
        Builtin::Display => 3,
        Builtin::Echo => 4,
        Builtin::Ln => 5,
        Builtin::Ls => 6,
        Builtin::Mkdir => 7,
        Builtin::Mv => 8,
        Builtin::Pwd => 9,
        Builtin::Rm => 10,
        Builtin::Rmdir => 11,
        Builtin::Touch => 12,
        Builtin::Tree => 13,
        Builtin::Uln => 14,
    };
    assert(Builtin::all()[i] == command);
}

/// No two commands share a name, and none is called `help`.
pub proof fn lemma_names_differ()
    ensures
        forall|a: Builtin, b: Builtin| a.name_text() == b.name_text() ==> a == b,
        forall|a: Builtin| a.name_text() != "help"@,
{
    reveal_strlit("cat");
    reveal_strlit("cd");
    reveal_strlit("cp");
    reveal_strlit("display");
    reveal_strlit("echo");
    reveal_strlit("ln");
    reveal_strlit("ls");
    reveal_strlit("mkdir");
    reveal_strlit("mv");
    reveal_strlit("pwd");
    reveal_strlit("rm");
    reveal_strlit("rmdir");
    reveal_strlit("touch");
    reveal_strlit("tree");
    reveal_strlit("uln");
    reveal_strlit("help");
    assert forall|a: Builtin, b: Builtin| a.name_text() == b.name_text() implies a == b by {
        let x = a.name_text();
        let y = b.name_text();
        assert(x.len() == y.len());
        assert(x[0] == y[0]);
        assert(x[1] == y[1]);
        if x.len() > 2 {
            assert(x[2] == y[2]);
        }
    }
    assert forall|a: Builtin| a.name_text() != "help"@ by {
        let x = a.name_text();
        if x.len() == 4 {
            assert(x[0] != 'h');
        }
    }
}

/// Looking up the name of a command finds that command.
pub proof fn lemma_named(command: Builtin)
    ensures
        Builtin::named(command.name_text()) == Some(command),
{
    lemma_all_listed(command);
    lemma_names_differ();
}

/// The names of the commands, in order.
pub open spec fn names(commands: Seq<Builtin>) -> Seq<Seq<char>> {
    commands.map_values(|c: Builtin| c.name_text())
}

/// What the shell answers to `help`: the names of its commands.
pub open spec fn help_text() -> Seq<char> {
    "Available commands: "@ + joined(names(Builtin::all()), ", "@)
}

/// What the shell answers to `help`: the names of its commands.
pub fn help() -> (text: String)
    ensures
        text@ == help_text(),
{
    let commands = Builtin::list();
    let mut listed: Vec<String> = Vec::new();
    assert(texts(listed@) =~= names(commands@.take(0)));
    for i in 0..commands.len()
        invariant
            texts(listed@) == names(commands@.take(i as int)),
    {
        let ghost before = texts(listed@);
        listed.push(commands[i].name().to_owned());
        assert(texts(listed@) =~= before.push(commands[i as int].name_text()));
        assert(names(commands@.take(i + 1)) =~= names(commands@.take(i as int)).push(
            commands[i as int].name_text(),
        ));
    }
    assert(commands@.take(commands@.len() as int) =~= commands@);
    let mut text = "Available commands: ".to_owned();
    text.append(join(listed.as_slice(), ", ").as_str());
    text
}

/// What the first argument of an invocation selects: a command by its name, the list of the
/// commands for `help`, which comes as a failure, and a failure for any other name.
pub open spec fn dispatched(args: Seq<Seq<char>>) -> Result<Builtin, EvalErrorView> {
    match Builtin::named(args[0]) {
        Some(command) => Ok(command),
        None => if args[0] == "help"@ {
            Err(EvalErrorView::RemoteOperationFailed(help_text()))
        } else {
            Err(EvalErrorView::UnknownCommand(args[0]))
        },
    }
}

/// Selects the command that an evaluated invocation names by its first argument.
pub fn dispatch(args: &[String]) -> (r: Result<Builtin, EvalError>)
    requires
        args@.len() > 0,
    ensures
        match r {
            Ok(command) => dispatched(texts(args@)) == Ok::<Builtin, EvalErrorView>(command),
            Err(error) => dispatched(texts(args@)) == Err::<Builtin, EvalErrorView>(error@),
        },
{
    let name = args[0].as_str();
    match Builtin::lookup(name) {
        Some(command) => Ok(command),
        None => if name.eq("help") {
            Err(EvalError::RemoteOperationFailed(help()))
        } else {
            Err(EvalError::UnknownCommand(args[0].clone()))
        },
    }
}

} // verus!
