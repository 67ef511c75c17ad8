use limo::line::parse::{parse, Argument, Command, Fragment, Statement};

fn lit(value: &str) -> Fragment {
    Fragment::Literal(value.to_owned())
}

fn arg(fragments: impl IntoIterator<Item = Fragment>) -> Argument {
    Argument { fragments: fragments.into_iter().collect() }
}

fn invocation(args: impl IntoIterator<Item = Argument>) -> Command {
    Command::Invocation { args: args.into_iter().collect() }
}

fn redirect(command: Command, path: Argument) -> Command {
    Command::Redirect { inner: Box::new(command), path }
}

fn lit_invocation(lits: impl IntoIterator<Item = &'static str>) -> Command {
    invocation(lits.into_iter().map(|l| arg([lit(l)])))
}

fn lit_redirect(command: Command, path: &str) -> Command {
    redirect(command, arg([lit(path)]))
}

fn cmd_stmt(command: Command) -> Statement {
    Statement::Command(command)
}

#[test]
fn parse_whitespace() {
    assert_eq!(parse("").unwrap(), cmd_stmt(lit_invocation([])));
    assert_eq!(parse("  ").unwrap(), cmd_stmt(lit_invocation([])));
}

#[test]
fn parse_simple_commands() {
    assert_eq!(parse("echo").unwrap(), cmd_stmt(lit_invocation(["echo"])));
    assert_eq!(parse("echo 123").unwrap(), cmd_stmt(lit_invocation(["echo", "123"])));
    assert_eq!(parse("echo \"123\"").unwrap(), cmd_stmt(lit_invocation(["echo", "123"])));
}

#[test]
fn parse_redirects() {
    assert_eq!(
        parse("cat hello >123").unwrap(),
        cmd_stmt(lit_redirect(lit_invocation(["cat", "hello"]), "123"))
    );
    assert_eq!(
        parse("echo 123   > /dev/null").unwrap(),
        cmd_stmt(lit_redirect(lit_invocation(["echo", "123"]), "/dev/null"))
    );
    assert_eq!(
        parse("\"\">a/b").unwrap(),
        cmd_stmt(lit_redirect(lit_invocation([""]), "a/b"))
    );
    assert_eq!(
        parse("\"\">a/b>c/d").unwrap(),
        cmd_stmt(lit_redirect(lit_redirect(lit_invocation([""]), "a/b"), "c/d"))
    );
    assert_eq!(
        parse("\"\">a/b  > c/d").unwrap(),
        cmd_stmt(lit_redirect(lit_redirect(lit_invocation([""]), "a/b"), "c/d"))
    );
    assert_eq!(
        parse(r#"echo '{"x": 23,"y":3}' > /dev/null"#).unwrap(),
        cmd_stmt(lit_redirect(lit_invocation(["echo", "{\"x\": 23,\"y\":3}"]), "/dev/null"))
    );
}

#[test]
fn parse_quotes() {
    assert!(parse("'").is_err());
    assert!(parse(r#"""#).is_err());
    assert!(parse(r#" "''  "" "#).is_err());
    assert_eq!(parse("''").unwrap(), cmd_stmt(lit_invocation([""])));
    assert_eq!(parse(r#" "''"  "" "#).unwrap(), cmd_stmt(lit_invocation(["''", ""])));
}

use limo::line::lex::{lex, Operator, Segment, SegmentKind, Token};
use limo::line::parse::{
    parse_argument, parse_assignment, parse_command, parse_statement, parse_tokens, Assignment, ParseError,
    SyntaxError,
};
use multipeek::IteratorExt;

fn var(name: &str) -> Fragment {
    Fragment::Variable(name.to_owned())
}

#[test]
fn assignment_is_parsed_before_invocation() {
    assert_eq!(
        parse("hello=\"123\"").unwrap(),
        Statement::Assignment(Assignment { lhs: arg([lit("hello")]), rhs: arg([lit("123")]) })
    );
    assert_eq!(
        parse_tokens(lex("hello=\"123\"").unwrap()).unwrap(),
        Statement::Assignment(Assignment { lhs: arg([lit("hello")]), rhs: arg([lit("123")]) })
    );
    assert_eq!(
        parse("a = \"$b c\"").unwrap(),
        Statement::Assignment(Assignment { lhs: arg([lit("a")]), rhs: arg([lit(""), var("b"), lit(" c")]) })
    );
}

#[test]
fn assignment_ignores_trailing_tokens() {
    let expected = Statement::Assignment(Assignment { lhs: arg([lit("a")]), rhs: arg([lit("b")]) });
    assert_eq!(parse("a=b c d").unwrap(), expected);
    assert_eq!(parse("a=b > c").unwrap(), expected);
    assert_eq!(parse("a=b = c").unwrap(), expected);
}

#[test]
fn assignment_operator_has_no_place_in_a_command() {
    let error = Err(SyntaxError::Parse(ParseError::UnexpectedToken(Operator::Assign)));
    assert_eq!(parse("= a"), error);
    assert_eq!(parse("a b = c"), error);
    assert_eq!(parse("a ="), error);
    assert_eq!(parse("a > = b"), error);
}

#[test]
fn malformed_assignments_are_told_apart() {
    for line in ["", "a", "a b c", "= a b", "a = > b", "a ="] {
        let mut cursor = lex(line).unwrap().into_iter().multipeek();
        assert_eq!(parse_assignment(&mut cursor), Err(ParseError::MalformedAssignment));
    }
    let mut cursor = lex("a = b c").unwrap().into_iter().multipeek();
    assert_eq!(parse_assignment(&mut cursor), Ok(Assignment { lhs: arg([lit("a")]), rhs: arg([lit("b")]) }));
    assert_eq!(cursor.count(), 4);
    assert_eq!(
        ParseError::MalformedAssignment.message(),
        "Parse error: Expected variable name, operator (=) and value in assignment"
    );
}

#[test]
fn redirect_takes_the_next_string_only() {
    assert_eq!(
        parse("echo a > b c").unwrap(),
        cmd_stmt(lit_redirect(lit_invocation(["echo", "a", "c"]), "b"))
    );
    assert_eq!(
        parse("> out echo").unwrap(),
        cmd_stmt(lit_redirect(lit_invocation(["echo"]), "out"))
    );
    assert_eq!(
        parse("a > > b").unwrap(),
        cmd_stmt(lit_redirect(lit_invocation(["a"]), "b"))
    );
    assert_eq!(parse("a >").unwrap(), cmd_stmt(lit_invocation(["a"])));
    assert_eq!(
        parse("a > x b > y c").unwrap(),
        cmd_stmt(lit_redirect(lit_redirect(lit_invocation(["a", "b", "c"]), "x"), "y"))
    );
}

#[test]
fn command_stops_in_front_of_an_assignment_operator() {
    let mut cursor = lex("a > b = c").unwrap().into_iter().multipeek();
    assert_eq!(parse_command(&mut cursor), Err(ParseError::UnexpectedToken(Operator::Assign)));
    assert_eq!(cursor.next(), Some(Token::Operator(Operator::Assign)));
    let mut cursor = lex("a > b").unwrap().into_iter().multipeek();
    assert_eq!(parse_command(&mut cursor), Ok(lit_redirect(lit_invocation(["a"]), "b")));
    assert_eq!(cursor.next(), None);
    let mut cursor = lex("a b").unwrap().into_iter().multipeek();
    assert_eq!(parse_statement(&mut cursor), Ok(cmd_stmt(lit_invocation(["a", "b"]))));
}

#[test]
fn segments_become_fragments_of_their_kind() {
    let segments = vec![
        Segment { text: "a".to_owned(), kind: SegmentKind::Literal },
        Segment { text: "b".to_owned(), kind: SegmentKind::Variable },
        Segment { text: String::new(), kind: SegmentKind::Literal },
    ];
    assert_eq!(parse_argument(&segments), arg([lit("a"), var("b"), lit("")]));
    assert_eq!(parse_argument(&[]), arg([]));
    assert_eq!(
        parse("echo pre$x \"$y post\"").unwrap(),
        cmd_stmt(invocation([arg([lit("echo")]), arg([lit("pre"), var("x")]), arg([lit(""), var("y"), lit(" post")])]))
    );
}
