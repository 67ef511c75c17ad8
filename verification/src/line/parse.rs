//! The parser: from tokens to a statement.

use crate::line::cursor::cursor_over;
use crate::line::cursor::next;
use crate::line::cursor::peek_nth;
use crate::line::cursor::upcoming;
use crate::line::cursor::TokenCursor;
use crate::line::lex::lex;
use crate::line::lex::lex_spec;
use crate::line::lex::segment_views;
use crate::line::lex::token_views;
use crate::line::lex::LexError;
use crate::line::lex::Operator;
use crate::line::lex::Segment;
use crate::line::lex::SegmentKind;
use crate::line::lex::SegmentView;
use crate::line::lex::Token;
use crate::line::lex::TokenView;
use vstd::prelude::*;
use vstd::string::StringExecFns;

verus! {

/// A fragment of an argument (a string fragment after evaluation).
#[derive(Debug, PartialEq, Eq)]
pub enum Fragment {
    /// A literal string fragment.
    Literal(String),
    /// A variable substitution of the form $var
    Variable(String),
    /// A cmd substitution of the form $(...)
    Command(Command),
}

/// An argument, i.e. an unevaluated string.
#[derive(Debug, PartialEq, Eq)]
pub struct Argument {
    /// The fragments of the potentially interpolated string.
    pub fragments: Vec<Fragment>,
}

/// An variable assignment.
#[derive(Debug, PartialEq, Eq)]
pub struct Assignment {
    /// The variable name.
    pub lhs: Argument,
    /// The assigned value.
    pub rhs: Argument,
}

/// A command "expression".
#[derive(Debug, PartialEq, Eq)]
pub enum Command {
    Invocation { args: Vec<Argument> },
    Redirect { inner: Box<Command>, path: Argument },
}

/// A script statement.
#[derive(Debug, PartialEq, Eq)]
pub enum Statement {
    Assignment(Assignment),
    Command(Command),
}

/// The mathematical value of a [`Fragment`].
pub enum FragmentView {
    Literal(Seq<char>),
    Variable(Seq<char>),
    Command(CommandView),
}

/// The mathematical value of an [`Argument`].
pub struct ArgumentView {
    pub fragments: Seq<FragmentView>,
}

/// The mathematical value of an [`Assignment`].
pub struct AssignmentView {
    pub lhs: ArgumentView,
    pub rhs: ArgumentView,
}

/// The mathematical value of a [`Command`].
pub enum CommandView {
    Invocation { args: Seq<ArgumentView> },
    Redirect { inner: Box<CommandView>, path: ArgumentView },
}

/// The mathematical value of a [`Statement`].
pub enum StatementView {
    Assignment(AssignmentView),
    Command(CommandView),
}

/// The value of a fragment.
pub open spec fn fragment_view(fragment: Fragment) -> FragmentView
    decreases fragment,
{
    match fragment {
        Fragment::Literal(text) => FragmentView::Literal(text@),
        Fragment::Variable(name) => FragmentView::Variable(name@),
        Fragment::Command(command) => FragmentView::Command(command_view(command)),
    }
}

/// The value of an argument: the values of its fragments, in order.
pub open spec fn argument_view(argument: Argument) -> ArgumentView
    decreases argument,
{
    ArgumentView {
        fragments: Seq::new(
            argument.fragments@.len(),
            |i: int|
                if 0 <= i < argument.fragments@.len() {
                    fragment_view(argument.fragments@[i])
                } else {
                    arbitrary()
                },
        ),
    }
}

/// The value of a command.
pub open spec fn command_view(command: Command) -> CommandView
    decreases command,
{
    match command {
        Command::Invocation { args } => CommandView::Invocation {
            args: Seq::new(
                args@.len(),
                |i: int|
                    if 0 <= i < args@.len() {
                        argument_view(args@[i])
                    } else {
                        arbitrary()
                    },
            ),
        },
        Command::Redirect { inner, path } => CommandView::Redirect {
            inner: Box::new(command_view(*inner)),
            path: argument_view(path),
        },
    }
}

impl View for Fragment {
    type V = FragmentView;

    open spec fn view(&self) -> FragmentView {
        fragment_view(*self)
    }
}

impl View for Argument {
    type V = ArgumentView;

    open spec fn view(&self) -> ArgumentView {
        argument_view(*self)
    }
}

impl View for Assignment {
    type V = AssignmentView;

    open spec fn view(&self) -> AssignmentView {
        AssignmentView { lhs: self.lhs@, rhs: self.rhs@ }
    }
}

impl View for Command {
    type V = CommandView;

    open spec fn view(&self) -> CommandView {
        command_view(*self)
    }
}

impl View for Statement {
    type V = StatementView;

    open spec fn view(&self) -> StatementView {
        match self {
            Statement::Assignment(assignment) => StatementView::Assignment(assignment@),
            Statement::Command(command) => StatementView::Command(command@),
        }
    }
}

/// The values of a sequence of fragments, in order.
pub open spec fn fragment_views(fragments: Seq<Fragment>) -> Seq<FragmentView> {
    fragments.map_values(|f: Fragment| f@)
}

/// The values of a sequence of arguments, in order.
pub open spec fn argument_views(arguments: Seq<Argument>) -> Seq<ArgumentView> {
    arguments.map_values(|a: Argument| a@)
}

/// The value of an argument is made of the values of its fragments.
pub proof fn lemma_argument_view(argument: Argument)
    ensures
        argument@.fragments == fragment_views(argument.fragments@),
{
    assert(argument@.fragments =~= fragment_views(argument.fragments@));
}

/// The value of an invocation is made of the values of its arguments, that of a redirect of
/// the values of its parts.
pub proof fn lemma_command_view(command: Command)
    ensures
        command@ == match command {
            Command::Invocation { args } => CommandView::Invocation {
                args: argument_views(args@),
            },
            Command::Redirect { inner, path } => CommandView::Redirect {
                inner: Box::new(inner@),
                path: path@,
            },
        },
{
    match command {
        Command::Invocation { args } => {
            assert(command@->args =~= argument_views(args@));
        },
        Command::Redirect { inner, path } => {},
    }
}

impl Fragment {
    /// A copy of this fragment.
    pub fn duplicate(&self) -> (copy: Fragment)
        ensures
            copy@ == self@,
        decreases self,
    {
        match self {
            Fragment::Literal(text) => Fragment::Literal(text.clone()),
            Fragment::Variable(name) => Fragment::Variable(name.clone()),
            Fragment::Command(command) => Fragment::Command(command.duplicate()),
        }
    }
}

impl Argument {
    /// A copy of this argument.
    pub fn duplicate(&self) -> (copy: Argument)
        ensures
            copy@ == self@,
        decreases self,
    {
        let mut fragments: Vec<Fragment> = Vec::new();
        assert(fragment_views(fragments@) =~= fragment_views(self.fragments@.take(0)));
        for i in 0..self.fragments.len()
            invariant
                fragment_views(fragments@) == fragment_views(self.fragments@.take(i as int)),
        {
            let fragment = self.fragments[i].duplicate();
            assert(self.fragments@.take(i + 1) =~= self.fragments@.take(i as int).push(
                self.fragments[i as int],
            ));
            assert(fragment_views(fragments@.push(fragment)) =~= fragment_views(
                fragments@,
            ).push(fragment@));
            assert(fragment_views(self.fragments@.take(i as int).push(self.fragments[i as int]))
                =~= fragment_views(self.fragments@.take(i as int)).push(
                self.fragments[i as int]@,
            ));
            fragments.push(fragment);
        }
        let copy = Argument { fragments };
        proof {
            assert(self.fragments@.take(self.fragments@.len() as int) =~= self.fragments@);
            lemma_argument_view(copy);
            lemma_argument_view(*self);
        }
        copy
    }
}

impl Assignment {
    /// A copy of this assignment.
    pub fn duplicate(&self) -> (copy: Assignment)
        ensures
            copy@ == self@,
    {
        Assignment { lhs: self.lhs.duplicate(), rhs: self.rhs.duplicate() }
    }
}

impl Command {
    /// A copy of this command.
    pub fn duplicate(&self) -> (copy: Command)
        ensures
            copy@ == self@,
        decreases self,
    {
        match self {
            Command::Invocation { args } => {
                let mut copies: Vec<Argument> = Vec::new();
                assert(argument_views(copies@) =~= argument_views(args@.take(0)));
                for i in 0..args.len()
                    invariant
                        *self is Invocation,
                        self->Invocation_args == *args,
                        argument_views(copies@) == argument_views(args@.take(i as int)),
                {
                    assert(decreases_to!(*self => self->Invocation_args));
                    let argument = args[i].duplicate();
                    assert(args@.take(i + 1) =~= args@.take(i as int).push(args[i as int]));
                    assert(argument_views(copies@.push(argument)) =~= argument_views(
                        copies@,
                    ).push(argument@));
                    assert(argument_views(args@.take(i as int).push(args[i as int]))
                        =~= argument_views(args@.take(i as int)).push(args[i as int]@));
                    copies.push(argument);
                }
                let copy = Command::Invocation { args: copies };
                proof {
                    assert(args@.take(args@.len() as int) =~= args@);
                    lemma_command_view(copy);
                    lemma_command_view(*self);
                }
                copy
            },
            Command::Redirect { inner, path } => {
                let copy = Command::Redirect {
                    inner: Box::new(inner.duplicate()),
                    path: path.duplicate(),
                };
                proof {
                    lemma_command_view(copy);
                    lemma_command_view(*self);
                }
                copy
            },
        }
    }
}

impl Statement {
    /// A copy of this statement.
    pub fn duplicate(&self) -> (copy: Statement)
        ensures
            copy@ == self@,
    {
        match self {
            Statement::Assignment(assignment) => Statement::Assignment(assignment.duplicate()),
            Statement::Command(command) => Statement::Command(command.duplicate()),
        }
    }
}

impl Clone for Fragment {
    fn clone(&self) -> (copy: Self)
        ensures
            copy@ == self@,
    {
        self.duplicate()
    }
}

impl Clone for Argument {
    fn clone(&self) -> (copy: Self)
        ensures
            copy@ == self@,
    {
        self.duplicate()
    }
}

impl Clone for Assignment {
    fn clone(&self) -> (copy: Self)
        ensures
            copy@ == self@,
    {
        self.duplicate()
    }
}

impl Clone for Command {
    fn clone(&self) -> (copy: Self)
        ensures
            copy@ == self@,
    {
        self.duplicate()
    }
}

impl Clone for Statement {
    fn clone(&self) -> (copy: Self)
        ensures
            copy@ == self@,
    {
        self.duplicate()
    }
}

/// Why a sequence of tokens is no statement.
#[derive(Debug, Clone, Copy, PartialEq, Eq, Structural)]
pub enum ParseError {
    /// An invocation holds the given operator, which it has no place for.
    UnexpectedToken(Operator),
    /// The tokens do not begin with a name, the assignment operator and a value.
    MalformedAssignment,
}

impl ParseError {
    /// The words that tell the user of this error.
    pub open spec fn text(self) -> Seq<char> {
        match self {
            ParseError::UnexpectedToken(op) => "Parse error: Unexpected "@ + op.name_text()
                + " in invocation, did you close your quotes?"@,
            ParseError::MalformedAssignment =>
                "Parse error: Expected variable name, operator (=) and value in assignment"@,
        }
    }

    /// The words that tell the user of this error.
    pub fn message(&self) -> (message: String)
        ensures
            message@ == self.text(),
    {
        match self {
            ParseError::UnexpectedToken(op) => {
                let mut message = "Parse error: Unexpected ".to_owned();
                message.append(op.name());
                message.append(" in invocation, did you close your quotes?");
                message
            },
            ParseError::MalformedAssignment => {
                "Parse error: Expected variable name, operator (=) and value in assignment".to_owned()
            },
        }
    }
}

/// The fragment that a segment of a string token stands for.
pub open spec fn fragment_of(segment: SegmentView) -> FragmentView {
    match segment.kind {
        SegmentKind::Literal => FragmentView::Literal(segment.text),
        SegmentKind::Variable => FragmentView::Variable(segment.text),
    }
}

/// The argument that the segments of a string token stand for.
pub open spec fn argument_of(segments: Seq<SegmentView>) -> ArgumentView {
    ArgumentView { fragments: segments.map_values(|s: SegmentView| fragment_of(s)) }
}

/// The assignment that the first three tokens spell, if they are a string, the assignment
/// operator and a string. Whatever follows them is not looked at.
pub open spec fn assignment_of(tokens: Seq<TokenView>) -> Result<AssignmentView, ParseError> {
    if tokens.len() >= 3 && tokens[0] is String && tokens[1] == TokenView::Operator(
        Operator::Assign,
    ) && tokens[2] is String {
        Ok(
            AssignmentView {
                lhs: argument_of(tokens[0]->String_0),
                rhs: argument_of(tokens[2]->String_0),
            },
        )
    } else {
        Err(ParseError::MalformedAssignment)
    }
}

/// Whether the token at `i` is a string that names the target of a redirect: one that stands
/// right after a redirect operator.
pub open spec fn is_target(tokens: Seq<TokenView>, i: int) -> bool {
    tokens[i] is String && i > 0 && tokens[i - 1] == TokenView::Operator(Operator::Redirect)
}

/// Whether the token at `i` is a string that is an argument of the invocation.
pub open spec fn is_argument(tokens: Seq<TokenView>, i: int) -> bool {
    tokens[i] is String && !(i > 0 && tokens[i - 1] == TokenView::Operator(Operator::Redirect))
}

/// The arguments of the invocation among the first `n` tokens, in textual order.
pub open spec fn arguments_of(tokens: Seq<TokenView>, n: int) -> Seq<ArgumentView>
    decreases n,
{
    if n <= 0 {
        Seq::empty()
    } else if is_argument(tokens, n - 1) {
        arguments_of(tokens, n - 1).push(argument_of(tokens[n - 1]->String_0))
    } else {
        arguments_of(tokens, n - 1)
    }
}

/// The targets of redirects among the first `n` tokens, in textual order.
pub open spec fn targets_of(tokens: Seq<TokenView>, n: int) -> Seq<ArgumentView>
    decreases n,
{
    if n <= 0 {
        Seq::empty()
    } else if is_target(tokens, n - 1) {
        targets_of(tokens, n - 1).push(argument_of(tokens[n - 1]->String_0))
    } else {
        targets_of(tokens, n - 1)
    }
}

/// The command `base` with its output sent to each of `targets` in turn: the last target is
/// the outermost redirect.
pub open spec fn redirected(base: CommandView, targets: Seq<ArgumentView>) -> CommandView
    decreases targets.len(),
{
    if targets.len() == 0 {
        base
    } else {
        CommandView::Redirect {
            inner: Box::new(redirected(base, targets.drop_last())),
            path: targets.last(),
        }
    }
}

/// The command that the tokens spell: an invocation of the strings that follow no redirect
/// operator, wrapped in one redirect for each string that follows one. An assignment operator
/// has no place in it.
pub open spec fn command_of(tokens: Seq<TokenView>) -> Result<CommandView, ParseError> {
    if tokens.contains(TokenView::Operator(Operator::Assign)) {
        Err(ParseError::UnexpectedToken(Operator::Assign))
    } else {
        Ok(
            redirected(
                CommandView::Invocation { args: arguments_of(tokens, tokens.len() as int) },
                targets_of(tokens, tokens.len() as int),
            ),
        )
    }
}

/// The statement that the tokens spell: an assignment where they begin as one, else a command.
pub open spec fn statement_of(tokens: Seq<TokenView>) -> Result<StatementView, ParseError> {
    match assignment_of(tokens) {
        Ok(assignment) => Ok(StatementView::Assignment(assignment)),
        Err(_) => match command_of(tokens) {
            Ok(command) => Ok(StatementView::Command(command)),
            Err(e) => Err(e),
        },
    }
}

/// The value of a parsed argument or of the error in its place.
pub open spec fn assignment_result_view(r: Result<Assignment, ParseError>) -> Result<
    AssignmentView,
    ParseError,
> {
    match r {
        Ok(assignment) => Ok(assignment@),
        Err(e) => Err(e),
    }
}

/// The value of a parsed command or of the error in its place.
pub open spec fn command_result_view(r: Result<Command, ParseError>) -> Result<
    CommandView,
    ParseError,
> {
    match r {
        Ok(command) => Ok(command@),
        Err(e) => Err(e),
    }
}

/// The value of a parsed statement or of the error in its place.
pub open spec fn statement_result_view(r: Result<Statement, ParseError>) -> Result<
    StatementView,
    ParseError,
> {
    match r {
        Ok(statement) => Ok(statement@),
        Err(e) => Err(e),
    }
}

/// Turns the segments of a string token into an argument, each segment into the fragment of
/// its kind.
pub fn parse_argument(segments: &[Segment]) -> (argument: Argument)
    ensures
        argument@ == argument_of(segment_views(segments@)),
{
    let mut fragments: Vec<Fragment> = Vec::new();
    for i in 0..segments.len()
        invariant
            fragment_views(fragments@) == argument_of(segment_views(segments@.take(i as int))).fragments,
    {
        let segment = &segments[i];
        let fragment = match segment.kind {
            SegmentKind::Literal => Fragment::Literal(segment.text.clone()),
            SegmentKind::Variable => Fragment::Variable(segment.text.clone()),
        };
        proof {
            assert(segments@.take(i + 1) =~= segments@.take(i as int).push(*segment));
            assert(fragment@ == fragment_of(segment@));
            assert(fragment_views(fragments@.push(fragment)) =~= fragment_views(fragments@).push(
                fragment@,
            ));
            assert(argument_of(segment_views(segments@.take(i as int).push(*segment))).fragments
                =~= argument_of(segment_views(segments@.take(i as int))).fragments.push(
                fragment_of(segment@),
            ));
        }
        fragments.push(fragment);
    }
    let argument = Argument { fragments };
    proof {
        assert(segments@.take(segments@.len() as int) =~= segments@);
        lemma_argument_view(argument);
    }
    argument
}


/// Reads an assignment off the first three tokens, without moving the cursor.
pub fn parse_assignment(tokens: &mut TokenCursor) -> (r: Result<Assignment, ParseError>)
    ensures
        upcoming(*final(tokens)) == upcoming(*old(tokens)),
        assignment_result_view(r) == assignment_of(upcoming(*old(tokens))),
{
    let lhs = match peek_nth(tokens, 0) {
        Some(Token::String(segments)) => parse_argument(segments.as_slice()),
        _ => {
            return Err(ParseError::MalformedAssignment);
        },
    };
    match peek_nth(tokens, 1) {
        Some(Token::Operator(Operator::Assign)) => {},
        _ => {
            return Err(ParseError::MalformedAssignment);
        },
    }
    let rhs = match peek_nth(tokens, 2) {
        Some(Token::String(segments)) => parse_argument(segments.as_slice()),
        _ => {
            return Err(ParseError::MalformedAssignment);
        },
    };
    Ok(Assignment { lhs, rhs })
}

/// Wraps `base` in one redirect for each of `targets`, the first innermost.
fn redirect_all(base: Command, targets: Vec<Argument>) -> (command: Command)
    ensures
        command@ == redirected(base@, argument_views(targets@)),
{
    let mut command = base;
    let ghost all = targets@;
    for path in it: targets
        invariant
            it.seq() == all,
            command@ == redirected(base@, argument_views(all.take(it.index() as int))),
    {
        proof {
            let before = argument_views(all.take(it.index() as int));
            let after = argument_views(all.take(it.index() + 1));
            assert(after.drop_last() =~= before);
            assert(after.last() == path@);
            lemma_command_view(Command::Redirect { inner: Box::new(command), path });
        }
        command = Command::Redirect { inner: Box::new(command), path };
    }
    assert(all.take(all.len() as int) =~= all);
    command
}

/// Reads a command off all the tokens that are left. It stops in front of an operator that
/// has no place in a command.
pub fn parse_command(tokens: &mut TokenCursor) -> (r: Result<Command, ParseError>)
    ensures
        command_result_view(r) == command_of(upcoming(*old(tokens))),
        r is Ok ==> upcoming(*final(tokens)).len() == 0,
        r is Err ==> upcoming(*final(tokens)).len() > 0 && upcoming(*final(tokens))[0]
            == TokenView::Operator(Operator::Assign),
{
    let ghost all = upcoming(*tokens);
    let ghost mut read: int = 0;
    let mut args: Vec<Argument> = Vec::new();
    let mut redirects: Vec<Argument> = Vec::new();
    let mut in_redirect = false;
    proof {
        assert(all.skip(0) =~= all);
        assert(argument_views(args@) =~= arguments_of(all, 0));
        assert(argument_views(redirects@) =~= targets_of(all, 0));
    }
    loop
        invariant
            all == upcoming(*old(tokens)),
            0 <= read <= all.len(),
            upcoming(*tokens) == all.skip(read),
            argument_views(args@) == arguments_of(all, read),
            argument_views(redirects@) == targets_of(all, read),
            in_redirect == (read > 0 && all[read - 1] == TokenView::Operator(Operator::Redirect)),
            forall|i: int| 0 <= i < read ==> all[i] != TokenView::Operator(Operator::Assign),
        ensures
            read == all.len(),
        decreases all.len() - read,
    {
        match peek_nth(tokens, 0) {
            None => {
                break ;
            },
            Some(Token::Operator(Operator::Assign)) => {
                assert(all.skip(read)[0] == all[read]);
                assert(all.contains(TokenView::Operator(Operator::Assign)));
                return Err(ParseError::UnexpectedToken(Operator::Assign));
            },
            Some(_) => {},
        }
        let token = next(tokens);
        proof {
            assert(all.skip(read).drop_first() =~= all.skip(read + 1));
            assert(all.skip(read)[0] == all[read]);
        }
        match token {
            Some(Token::String(segments)) => {
                let arg = parse_argument(segments.as_slice());
                if in_redirect {
                    assert(argument_views(redirects@.push(arg)) =~= argument_views(
                        redirects@,
                    ).push(arg@));
                    redirects.push(arg);
                    in_redirect = false;
                } else {
                    assert(argument_views(args@.push(arg)) =~= argument_views(args@).push(arg@));
                    args.push(arg);
                }
            },
            Some(Token::Operator(Operator::Redirect)) => {
                in_redirect = true;
            },
            _ => {
                assert(false);
            },
        }
        proof {
            read = read + 1;
        }
    }
    proof {
        assert(read == all.len());
        assert(!all.contains(TokenView::Operator(Operator::Assign)));
        lemma_command_view(Command::Invocation { args });
    }
    Ok(redirect_all(Command::Invocation { args }, redirects))
}

/// Reads a statement off the tokens: an assignment where they begin as one, else a command.
pub fn parse_statement(tokens: &mut TokenCursor) -> (r: Result<Statement, ParseError>)
    ensures
        statement_result_view(r) == statement_of(upcoming(*old(tokens))),
{
    match parse_assignment(tokens) {
        Ok(assignment) => Ok(Statement::Assignment(assignment)),
        Err(_) => match parse_command(tokens) {
            Ok(command) => Ok(Statement::Command(command)),
            Err(e) => Err(e),
        },
    }
}

/// Parses the tokens of one line.
pub fn parse_tokens(tokens: Vec<Token>) -> (r: Result<Statement, ParseError>)
    ensures
        statement_result_view(r) == statement_of(token_views(tokens@)),
{
    let mut cursor = cursor_over(tokens);
    parse_statement(&mut cursor)
}


/// Why a line is no statement.
#[derive(Debug, Clone, Copy, PartialEq, Eq, Structural)]
pub enum SyntaxError {
    /// The line has no tokens.
    Lex(LexError),
    /// The tokens of the line spell no statement.
    Parse(ParseError),
}

impl SyntaxError {
    /// The words that tell the user of this error.
    pub open spec fn text(self) -> Seq<char> {
        match self {
            SyntaxError::Lex(error) => error.text(),
            SyntaxError::Parse(error) => error.text(),
        }
    }

    /// The words that tell the user of this error.
    pub fn message(&self) -> (message: String)
        ensures
            message@ == self.text(),
    {
        match self {
            SyntaxError::Lex(error) => error.message(),
            SyntaxError::Parse(error) => error.message(),
        }
    }
}

/// The statement that a line spells, or the reason why it spells none.
pub open spec fn parse_spec(line: Seq<char>) -> Result<StatementView, SyntaxError> {
    match lex_spec(line) {
        Ok(tokens) => match statement_of(tokens) {
            Ok(statement) => Ok(statement),
            Err(e) => Err(SyntaxError::Parse(e)),
        },
        Err(e) => Err(SyntaxError::Lex(e)),
    }
}

/// The value of what [`parse`] returns.
pub open spec fn parsed_view(r: Result<Statement, SyntaxError>) -> Result<
    StatementView,
    SyntaxError,
> {
    match r {
        Ok(statement) => Ok(statement@),
        Err(e) => Err(e),
    }
}

/// Lexes and parses one line.
pub fn parse(line: &str) -> (r: Result<Statement, SyntaxError>)
    ensures
        parsed_view(r) == parse_spec(line@),
{
    match lex(line) {
        Ok(tokens) => match parse_tokens(tokens) {
            Ok(statement) => Ok(statement),
            Err(e) => Err(SyntaxError::Parse(e)),
        },
        Err(e) => Err(SyntaxError::Lex(e)),
    }
}


/// The arguments and the targets among the first `n` tokens do not depend on the tokens
/// after them.
proof fn lemma_prefix(tokens: Seq<TokenView>, more: Seq<TokenView>, n: int)
    requires
        0 <= n <= tokens.len(),
    ensures
        arguments_of(tokens + more, n) == arguments_of(tokens, n),
        targets_of(tokens + more, n) == targets_of(tokens, n),
    decreases n,
{
    if n > 0 {
        lemma_prefix(tokens, more, n - 1);
        assert((tokens + more)[n - 1] == tokens[n - 1]);
        if n > 1 {
            assert((tokens + more)[n - 2] == tokens[n - 2]);
        }
    }
}

/// Tokens that begin with a string, the assignment operator and a string spell the assignment
/// of the second string to the first, whatever follows them.
pub proof fn lemma_assignment_wins(
    name: Seq<SegmentView>,
    value: Seq<SegmentView>,
    rest: Seq<TokenView>,
)
    ensures
        statement_of(
            seq![
                TokenView::String(name),
                TokenView::Operator(Operator::Assign),
                TokenView::String(value),
            ] + rest,
        ) == Ok::<StatementView, ParseError>(
            StatementView::Assignment(
                AssignmentView { lhs: argument_of(name), rhs: argument_of(value) },
            ),
        ),
{
}

/// A redirect at the end of a command wraps all that stands before it: the last redirect of a
/// line is the outermost.
pub proof fn lemma_last_redirect_is_outermost(tokens: Seq<TokenView>, target: Seq<SegmentView>)
    requires
        command_of(tokens) is Ok,
    ensures
        command_of(
            tokens.push(TokenView::Operator(Operator::Redirect)).push(TokenView::String(target)),
        ) == Ok::<CommandView, ParseError>(
            CommandView::Redirect {
                inner: Box::new(command_of(tokens)->Ok_0),
                path: argument_of(target),
            },
        ),
{
    let more = seq![TokenView::Operator(Operator::Redirect), TokenView::String(target)];
    let all = tokens.push(TokenView::Operator(Operator::Redirect)).push(TokenView::String(target));
    let n = tokens.len() as int;
    assert(all =~= tokens + more);
    lemma_prefix(tokens, more, n);
    assert(all[n] == TokenView::Operator(Operator::Redirect));
    assert(all[n + 1] == TokenView::String(target));
    assert(arguments_of(all, n + 1) == arguments_of(all, n));
    assert(targets_of(all, n + 1) == targets_of(all, n));
    assert(arguments_of(all, n + 2) == arguments_of(all, n));
    let targets = targets_of(all, n + 2);
    assert(targets == targets_of(tokens, n).push(argument_of(target)));
    assert(targets.drop_last() =~= targets_of(tokens, n));
    assert(!all.contains(TokenView::Operator(Operator::Assign))) by {
        if all.contains(TokenView::Operator(Operator::Assign)) {
            let i = choose|i: int|
                0 <= i < all.len() && all[i] == TokenView::Operator(Operator::Assign);
            assert(tokens[i] == all[i]);
            assert(tokens.contains(TokenView::Operator(Operator::Assign)));
        }
    }
}

/// Strings alone spell the invocation of all of them, in order.
pub proof fn lemma_strings_are_arguments(tokens: Seq<TokenView>)
    requires
        forall|i: int| 0 <= i < tokens.len() ==> #[trigger] tokens[i] is String,
    ensures
        command_of(tokens) == Ok::<CommandView, ParseError>(
            CommandView::Invocation {
                args: tokens.map_values(|t: TokenView| argument_of(t->String_0)),
            },
        ),
{
    assert(!tokens.contains(TokenView::Operator(Operator::Assign))) by {
        if tokens.contains(TokenView::Operator(Operator::Assign)) {
            let i = choose|i: int|
                0 <= i < tokens.len() && tokens[i] == TokenView::Operator(Operator::Assign);
            assert(tokens[i] is String);
        }
    }
    lemma_strings_prefix(tokens, tokens.len() as int);
    assert(tokens.take(tokens.len() as int) =~= tokens);
}

/// Among strings alone, each of the first `n` is an argument and none is a target.
proof fn lemma_strings_prefix(tokens: Seq<TokenView>, n: int)
    requires
        0 <= n <= tokens.len(),
        forall|i: int| 0 <= i < tokens.len() ==> #[trigger] tokens[i] is String,
    ensures
        arguments_of(tokens, n) == tokens.take(n).map_values(
            |t: TokenView| argument_of(t->String_0),
        ),
        targets_of(tokens, n) == Seq::<ArgumentView>::empty(),
    decreases n,
{
    if n > 0 {
        lemma_strings_prefix(tokens, n - 1);
        assert(tokens[n - 1] is String);
        if n > 1 {
            assert(tokens[n - 2] is String);
        }
        assert(tokens.take(n).map_values(|t: TokenView| argument_of(t->String_0))
            =~= tokens.take(n - 1).map_values(|t: TokenView| argument_of(t->String_0)).push(
            argument_of(tokens[n - 1]->String_0),
        ));
    } else {
        assert(tokens.take(0).map_values(|t: TokenView| argument_of(t->String_0))
            =~= Seq::<ArgumentView>::empty());
    }
}

} // verus!
