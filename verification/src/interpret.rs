//! Plain command lines: arguments and a redirect, split by a pattern, without variables.

use regex::Regex;
use vstd::prelude::*;
use vstd::string::StringExecFns;

verus! {

/// `regex::Error`, which says why a pattern is no regular expression.
#[verifier::external_type_specification]
#[verifier::external_body]
pub struct ExRegexError(regex::Error);

/// What the matches of a pattern capture in a text: for each match, from the left and
/// without overlap, the text of the whole match and then that of each of the named groups,
/// `None` for a group that took no part in the match. There is nothing where the pattern is
/// no regular expression.
pub uninterp spec fn regex_captures(
    pattern: Seq<char>,
    names: Seq<Seq<char>>,
    text: Seq<char>,
) -> Option<Seq<Seq<Option<Seq<char>>>>>;

/// The text of a group, if there is one.
pub open spec fn group_view(group: Option<String>) -> Option<Seq<char>> {
    match group {
        Some(text) => Some(text@),
        None => None,
    }
}

/// The texts of the groups of one match.
pub open spec fn groups_view(groups: Vec<Option<String>>) -> Seq<Option<Seq<char>>> {
    groups@.map_values(|g: Option<String>| group_view(g))
}

/// The texts of the groups of the matches, in order.
pub open spec fn captures_view(found: Seq<Vec<Option<String>>>) -> Seq<Seq<Option<Seq<char>>>> {
    found.map_values(|groups: Vec<Option<String>>| groups_view(groups))
}

/// `Regex::new` compiles the pattern, `Regex::captures_iter` finds its matches in the text
/// from the left without overlap, and `Captures::get` and `Captures::name` give the part of
/// the text that the whole match and a named group took. What comes out depends on the
/// pattern, the names and the text alone.
#[verifier::external_body]
pub(crate) fn captures(pattern: &str, names: &[&str], text: &str) -> (r: Result<
    Vec<Vec<Option<String>>>,
    regex::Error,
>)
    ensures
        match r {
            Ok(found) => regex_captures(pattern@, names@.map_values(|n: &str| n@), text@) == Some(
                captures_view(found@),
            ),
            Err(_) => regex_captures(pattern@, names@.map_values(|n: &str| n@), text@) is None,
        },
{
    let regex = Regex::new(pattern)?;
    Ok(
        regex.captures_iter(text).map(
            |c|
                std::iter::once(c.get(0)).chain(names.iter().map(|n| c.name(n))).map(
                    |m| m.map(|m| m.as_str().to_owned()),
                ).collect(),
        ).collect(),
    )
}

/// The pattern of the pieces of a command line: a redirect sign, a text in single or in
/// double quotes, quotes that go astray, or a text without quotes and whitespace.
pub const PATTERN: &'static str =
    r#"(?<redirect>>)|'(?<singlequoted>[^']+)'|"(?<doublequoted>[^"]+)"|(?<strayquotes>['"]+)|(?<unquoted>[^'"\s]+)"#;

/// One piece of a command line.
#[derive(Debug, PartialEq, Eq)]
pub enum Token {
    Redirect,
    Arg(String),
    Invalid(String),
}

/// The mathematical value of a [`Token`].
pub enum TokenView {
    Redirect,
    Arg(Seq<char>),
    Invalid(Seq<char>),
}

impl View for Token {
    type V = TokenView;

    open spec fn view(&self) -> TokenView {
        match self {
            Token::Redirect => TokenView::Redirect,
            Token::Arg(text) => TokenView::Arg(text@),
            Token::Invalid(text) => TokenView::Invalid(text@),
        }
    }
}

impl Clone for Token {
    fn clone(&self) -> (copy: Self)
        ensures
            copy@ == self@,
    {
        match self {
            Token::Redirect => Token::Redirect,
            Token::Arg(text) => Token::Arg(text.clone()),
            Token::Invalid(text) => Token::Invalid(text.clone()),
        }
    }
}

/// The values of a sequence of tokens, in order.
pub open spec fn token_views(tokens: Seq<Token>) -> Seq<TokenView> {
    tokens.map_values(|t: Token| t@)
}

/// The group at `i` of one match, where it has one that took part.
pub open spec fn group_at(groups: Seq<Option<Seq<char>>>, i: int) -> Option<Seq<char>> {
    if 0 <= i < groups.len() {
        groups[i]
    } else {
        None
    }
}

/// The token that one match stands for, by its groups: the whole match, the redirect sign,
/// the text in single quotes, the text in double quotes, and the text without quotes. A
/// redirect sign is a redirect, a text is an argument, and anything else is invalid.
pub open spec fn token_of(groups: Seq<Option<Seq<char>>>) -> TokenView {
    if group_at(groups, 1) is Some {
        TokenView::Redirect
    } else if let Some(text) = group_at(groups, 2) {
        TokenView::Arg(text)
    } else if let Some(text) = group_at(groups, 3) {
        TokenView::Arg(text)
    } else if let Some(text) = group_at(groups, 4) {
        TokenView::Arg(text)
    } else {
        TokenView::Invalid(
            match group_at(groups, 0) {
                Some(text) => text,
                None => Seq::empty(),
            },
        )
    }
}

/// The tokens that the matches stand for, in order.
pub open spec fn tokens_of(found: Seq<Seq<Option<Seq<char>>>>) -> Seq<TokenView> {
    found.map_values(|groups: Seq<Option<Seq<char>>>| token_of(groups))
}

/// A command line: the arguments of an invocation, and where its output is to go.
#[derive(Debug, PartialEq, Eq)]
pub struct CommandLine {
    args: Vec<String>,
    redirect: Option<String>,
}

/// The mathematical value of a [`CommandLine`].
pub struct CommandLineView {
    pub args: Seq<Seq<char>>,
    pub redirect: Option<Seq<char>>,
}

impl View for CommandLine {
    type V = CommandLineView;

    closed spec fn view(&self) -> CommandLineView {
        CommandLineView {
            args: self.args@.map_values(|a: String| a@),
            redirect: group_view(self.redirect),
        }
    }
}

/// Why a text is no command line.
#[derive(Debug, PartialEq, Eq)]
pub enum CommandLineError {
    /// The text holds this piece, which is neither a redirect sign nor an argument.
    InvalidToken(String),
    /// The pattern of the pieces is no regular expression.
    InvalidPattern,
}

/// The mathematical value of a [`CommandLineError`].
pub enum CommandLineErrorView {
    InvalidToken(Seq<char>),
    InvalidPattern,
}

impl View for CommandLineError {
    type V = CommandLineErrorView;

    open spec fn view(&self) -> CommandLineErrorView {
        match self {
            CommandLineError::InvalidToken(text) => CommandLineErrorView::InvalidToken(text@),
            CommandLineError::InvalidPattern => CommandLineErrorView::InvalidPattern,
        }
    }
}

impl CommandLineErrorView {
    /// The words that tell the user of this error.
    pub open spec fn text(self) -> Seq<char> {
        match self {
            CommandLineErrorView::InvalidToken(token) => "Parse error: Found invalid token "@
                + token + ", did you close your quotes?"@,
            CommandLineErrorView::InvalidPattern => "Parse error: Invalid pattern"@,
        }
    }
}

impl CommandLineError {
    /// The words that tell the user of this error.
    pub fn message(&self) -> (message: String)
        ensures
            message@ == self@.text(),
    {
        match self {
            CommandLineError::InvalidToken(token) => {
                let mut message = "Parse error: Found invalid token ".to_owned();
                message.append(token.as_str());
                message.append(", did you close your quotes?");
                message
            },
            CommandLineError::InvalidPattern => "Parse error: Invalid pattern".to_owned(),
        }
    }
}

/// The command line that the first `n` tokens spell, where none of them is invalid: the
/// arguments before the first redirect sign are those of the invocation, and the last
/// argument after it says where the output is to go.
pub open spec fn spelled(tokens: Seq<TokenView>, n: int) -> CommandLineView
    decreases n,
{
    if n <= 0 {
        CommandLineView { args: Seq::empty(), redirect: None }
    } else {
        let before = spelled(tokens, n - 1);
        match tokens[n - 1] {
            TokenView::Arg(text) => if redirected(tokens, n - 1) {
                CommandLineView { args: before.args, redirect: Some(text) }
            } else {
                CommandLineView { args: before.args.push(text), redirect: before.redirect }
            },
            _ => before,
        }
    }
}

/// Whether a redirect sign is among the first `n` tokens.
pub open spec fn redirected(tokens: Seq<TokenView>, n: int) -> bool {
    exists|i: int| 0 <= i < n && i < tokens.len() && tokens[i] is Redirect
}

/// The place of the first invalid token, if there is one.
pub open spec fn first_invalid(tokens: Seq<TokenView>) -> Option<int> {
    if exists|i: int| 0 <= i < tokens.len() && tokens[i] is Invalid {
        Some(
            choose|i: int|
                0 <= i < tokens.len() && tokens[i] is Invalid && forall|j: int|
                    0 <= j < i ==> !(tokens[j] is Invalid),
        )
    } else {
        None
    }
}

/// The command line that the tokens spell, or the first invalid token among them.
pub open spec fn parsed(tokens: Seq<TokenView>) -> Result<CommandLineView, CommandLineErrorView> {
    match first_invalid(tokens) {
        Some(i) => Err(CommandLineErrorView::InvalidToken(tokens[i]->Invalid_0)),
        None => Ok(spelled(tokens, tokens.len() as int)),
    }
}

/// The command line that a text spells, by what the pattern captures in it.
pub open spec fn command_line_of(found: Option<Seq<Seq<Option<Seq<char>>>>>) -> Result<
    CommandLineView,
    CommandLineErrorView,
> {
    match found {
        Some(found) => parsed(tokens_of(found)),
        None => Err(CommandLineErrorView::InvalidPattern),
    }
}

/// The names of the groups of the pattern, in the order in which a match is read.
pub open spec fn group_names() -> Seq<Seq<char>> {
    seq!["redirect"@, "singlequoted"@, "doublequoted"@, "unquoted"@]
}

/// The value of a command line or of the error in its place.
pub open spec fn result_view(r: Result<CommandLine, CommandLineError>) -> Result<
    CommandLineView,
    CommandLineErrorView,
> {
    match r {
        Ok(line) => Ok(line@),
        Err(error) => Err(error@),
    }
}

/// A copy of the group at `i` of one match, where it has one that took part.
fn group(groups: &Vec<Option<String>>, i: usize) -> (r: Option<String>)
    ensures
        group_view(r) == group_at(groups_view(*groups), i as int),
{
    if i < groups.len() {
        match &groups[i] {
            Some(text) => Some(text.clone()),
            None => None,
        }
    } else {
        None
    }
}

/// Turns what the pattern captured into tokens.
pub fn lex(found: &[Vec<Option<String>>]) -> (tokens: Vec<Token>)
    ensures
        token_views(tokens@) == tokens_of(captures_view(found@)),
{
    let mut tokens: Vec<Token> = Vec::new();
    assert(token_views(tokens@) =~= tokens_of(captures_view(found@.take(0))));
    for i in 0..found.len()
        invariant
            token_views(tokens@) == tokens_of(captures_view(found@.take(i as int))),
    {
        let groups = &found[i];
        let token = if group(groups, 1).is_some() {
            Token::Redirect
        } else if let Some(text) = group(groups, 2) {
            Token::Arg(text)
        } else if let Some(text) = group(groups, 3) {
            Token::Arg(text)
        } else if let Some(text) = group(groups, 4) {
            Token::Arg(text)
        } else {
            match group(groups, 0) {
                Some(text) => Token::Invalid(text),
                None => Token::Invalid(String::new()),
            }
        };
        proof {
            assert(token@ == token_of(groups_view(*groups)));
            let before = token_views(tokens@);
            assert(token_views(tokens@.push(token)) =~= before.push(token@));
            assert(tokens_of(captures_view(found@.take(i + 1))) =~= tokens_of(
                captures_view(found@.take(i as int)),
            ).push(token_of(groups_view(*groups))));
        }
        tokens.push(token);
    }
    assert(found@.take(found@.len() as int) =~= found@);
    tokens
}

/// Reads a command line off its tokens.
pub fn parse(tokens: Vec<Token>) -> (r: Result<CommandLine, CommandLineError>)
    ensures
        result_view(r) == parsed(token_views(tokens@)),
{
    let mut args: Vec<String> = Vec::new();
    let mut redirect: Option<String> = None;
    let mut in_redirect = false;
    let ghost all = token_views(tokens@);
    let ghost given = tokens@;
    assert(args@.map_values(|a: String| a@) =~= Seq::<Seq<char>>::empty());
    for token in it: tokens
        invariant
            it.seq() == given,
            all == token_views(given),
            forall|j: int| 0 <= j < it.index() ==> !(all[j] is Invalid),
            in_redirect == redirected(all, it.index() as int),
            (CommandLineView {
                args: args@.map_values(|a: String| a@),
                redirect: group_view(redirect),
            }) == spelled(all, it.index() as int),
    {
        let ghost n = it.index() as int;
        assert(all[n] == token@);
        match token {
            Token::Arg(arg) => {
                if in_redirect {
                    redirect = Some(arg);
                } else {
                    let ghost before = args@.map_values(|a: String| a@);
                    args.push(arg);
                    assert(args@.map_values(|a: String| a@) =~= before.push(arg@));
                }
                assert(redirected(all, n + 1) == redirected(all, n));
            },
            Token::Redirect => {
                in_redirect = true;
                assert(redirected(all, n + 1));
            },
            Token::Invalid(text) => {
                proof {
                    assert(all[n] is Invalid);
                    let i = first_invalid(all)->0;
                    assert(i == n) by {
                        if i < n {
                            assert(!(all[i] is Invalid));
                        } else if i > n {
                            assert(!(all[n] is Invalid));
                        }
                    }
                }
                return Err(CommandLineError::InvalidToken(text));
            },
        }
    }
    proof {
        assert(first_invalid(all) is None);
    }
    Ok(CommandLine { args, redirect })
}

impl CommandLine {
    /// The arguments of the invocation.
    pub fn args(&self) -> (args: &Vec<String>)
        ensures
            args@.map_values(|a: String| a@) == self@.args,
    {
        &self.args
    }

    /// Where the output is to go, if anywhere but to the user.
    pub fn redirect(&self) -> (redirect: &Option<String>)
        ensures
            group_view(*redirect) == self@.redirect,
    {
        &self.redirect
    }

    /// Reads a command line off what the pattern captured in a text, if it is a pattern.
    pub fn from_captures(found: Result<Vec<Vec<Option<String>>>, regex::Error>) -> (r: Result<
        CommandLine,
        CommandLineError,
    >)
        ensures
            result_view(r) == command_line_of(
                match found {
                    Ok(found) => Some(captures_view(found@)),
                    Err(_) => None,
                },
            ),
    {
        match found {
            Ok(found) => parse(lex(found.as_slice())),
            Err(_) => Err(CommandLineError::InvalidPattern),
        }
    }

}

impl std::str::FromStr for CommandLine {
    type Err = CommandLineError;

    /// Reads a command line off a text.
    fn from_str(line: &str) -> (r: Result<CommandLine, CommandLineError>)
        ensures
            result_view(r) == command_line_of(regex_captures(PATTERN@, group_names(), line@)),
    {
        let names = ["redirect", "singlequoted", "doublequoted", "unquoted"];
        assert(names@.map_values(|n: &str| n@) =~= group_names());
        CommandLine::from_captures(captures(PATTERN, names.as_slice(), line))
    }
}

} // verus!
