use limo::context::Context;
use limo::line::interpret::{interpret, EvalError, Progress, Reply, Request};
use limo::line::parse::{parse, Argument, Command, Fragment, Statement};
use limo::line::parse_interpret;
use limo::path::VirtualPathBuf;

fn session() -> Context {
    Context::new("user".to_owned(), "host".to_owned())
}

fn lit(value: &str) -> Fragment {
    Fragment::Literal(value.to_owned())
}

fn var(name: &str) -> Fragment {
    Fragment::Variable(name.to_owned())
}

fn arg(fragments: impl IntoIterator<Item = Fragment>) -> Argument {
    Argument { fragments: fragments.into_iter().collect() }
}

fn invocation(args: impl IntoIterator<Item = Argument>) -> Command {
    Command::Invocation { args: args.into_iter().collect() }
}

fn invoke(args: &[&str]) -> Progress<String> {
    Progress::Pending(Request::Invoke { args: args.iter().map(|a| a.to_string()).collect() })
}

fn output(text: &str) -> Reply {
    Reply::Completed(text.to_owned())
}

#[test]
fn redirect_of_malformed_output_fails() {
    let statement = parse("echo 'a b' > dest").unwrap();
    assert_eq!(
        statement,
        Statement::Command(Command::Redirect {
            inner: Box::new(invocation([arg([lit("echo")]), arg([lit("a b")])])),
            path: arg([lit("dest")]),
        })
    );
    let mut ctx = session();
    assert_eq!(interpret(&statement, &mut ctx, &[]), invoke(&["echo", "a b"]));
    let progress = interpret(&statement, &mut ctx, &[output("a b")]);
    assert!(matches!(progress, Progress::Failed(EvalError::MalformedRedirectValue(_))));
}

#[test]
fn redirect_posts_the_parsed_value() {
    let statement = parse(r#"echo '{"x": 23}' > /a/../b/./c"#).unwrap();
    let mut ctx = session();
    let json: serde_json::Value = serde_json::from_str(r#"{"x": 23}"#).unwrap();
    let value = lighthouse_client::protocol::to_value(json).unwrap();
    let replies = vec![output(r#"{"x": 23}"#)];
    assert_eq!(
        interpret(&statement, &mut ctx, &replies),
        Progress::Pending(Request::Post { path: VirtualPathBuf::from(["", "b", "c"]), value })
    );
    let replies = vec![output(r#"{"x": 23}"#), output("")];
    assert_eq!(interpret(&statement, &mut ctx, &replies), Progress::Done(String::new()));
}

#[test]
fn redirect_target_is_resolved_against_the_working_path() {
    let statement = parse("echo 1 > x/y").unwrap();
    let mut ctx = session();
    ctx.cwd = VirtualPathBuf::from("/home");
    let value = lighthouse_client::protocol::to_value(1u64).unwrap();
    assert_eq!(
        interpret(&statement, &mut ctx, &[output("1")]),
        Progress::Pending(Request::Post { path: VirtualPathBuf::from(["", "home", "x", "y"]), value })
    );
}

#[test]
fn output_is_trimmed_when_not_redirected() {
    let statement = parse("echo hi").unwrap();
    let mut ctx = session();
    assert_eq!(interpret(&statement, &mut ctx, &[output("  hi there \n")]), Progress::Done("hi there".to_owned()));
}

#[test]
fn assignment_binds_and_variables_resolve() {
    let mut ctx = session();
    assert_eq!(parse_interpret("greeting=\"hello\"", &mut ctx, &[]), Ok(Progress::Done(String::new())));
    assert_eq!(ctx.variable("greeting"), Some(&"hello".to_owned()));
    assert_eq!(parse_interpret("echo \"$greeting world\"", &mut ctx, &[]), Ok(invoke(&["echo", "hello world"])));
    assert_eq!(parse_interpret("greeting=bye", &mut ctx, &[]), Ok(Progress::Done(String::new())));
    assert_eq!(ctx.variable("greeting"), Some(&"bye".to_owned()));
}

#[test]
fn unbound_variable_fails() {
    let mut ctx = session();
    assert_eq!(
        parse_interpret("echo \"$missing\"", &mut ctx, &[]),
        Ok(Progress::Failed(EvalError::UnboundVariable("missing".to_owned())))
    );
    let statement = Statement::Command(invocation([arg([lit("a"), var("b")])]));
    assert_eq!(
        interpret(&statement, &mut ctx, &[]),
        Progress::Failed(EvalError::UnboundVariable("b".to_owned()))
    );
}

#[test]
fn empty_invocation_fails() {
    let mut ctx = session();
    assert_eq!(parse_interpret("", &mut ctx, &[]), Ok(Progress::Failed(EvalError::EmptyInvocation)));
    assert_eq!(parse_interpret("   ", &mut ctx, &[]), Ok(Progress::Failed(EvalError::EmptyInvocation)));
}

#[test]
fn host_failure_is_surfaced_unchanged() {
    let mut ctx = session();
    let failure = EvalError::UnknownCommand("frobnicate".to_owned());
    assert_eq!(
        parse_interpret("frobnicate 1", &mut ctx, &[Reply::Failed(failure.clone())]),
        Ok(Progress::Failed(failure))
    );
    let failure = EvalError::RemoteOperationFailed("connection lost".to_owned());
    assert_eq!(
        parse_interpret("echo 1 > a", &mut ctx, &[output("1"), Reply::Failed(failure.clone())]),
        Ok(Progress::Failed(failure))
    );
}

#[test]
fn command_substitution_is_evaluated_in_order() {
    let inner_a = invocation([arg([lit("first")])]);
    let inner_b = invocation([arg([lit("second")])]);
    let statement = Statement::Command(invocation([
        arg([lit("echo")]),
        arg([lit("<"), Fragment::Command(inner_a), lit("-"), Fragment::Command(inner_b), lit(">")]),
    ]));
    let mut ctx = session();
    assert_eq!(interpret(&statement, &mut ctx, &[]), invoke(&["first"]));
    assert_eq!(interpret(&statement, &mut ctx, &[output("1")]), invoke(&["second"]));
    assert_eq!(interpret(&statement, &mut ctx, &[output("1"), output("2")]), invoke(&["echo", "<1-2>"]));
    assert_eq!(
        interpret(&statement, &mut ctx, &[output("1"), output("2"), output("done")]),
        Progress::Done("done".to_owned())
    );
}

#[test]
fn syntax_errors_leave_the_session_alone() {
    let mut ctx = session();
    assert!(parse_interpret("echo 'open", &mut ctx, &[]).is_err());
    assert!(parse_interpret("echo 1 = 2", &mut ctx, &[]).is_err());
}

use limo::line::interpret::{
    ask, convert, evaluate_argument, evaluate_arguments, evaluate_fragment, interpret_assignment, interpret_command,
    redirect, Evaluation, Interpretation,
};
use limo::line::parse::Assignment;

#[test]
fn malformed_redirect_value_says_why() {
    let statement = parse("echo > dest").unwrap();
    let mut ctx = session();
    let expected = serde_json::from_str::<serde_json::Value>("a b").unwrap_err().to_string();
    assert_eq!(
        interpret(&statement, &mut ctx, &[output("a b")]),
        Progress::Failed(EvalError::MalformedRedirectValue(expected.clone()))
    );
    assert_eq!(EvalError::MalformedRedirectValue(expected.clone()).message(), expected);
    assert_eq!(
        convert(serde_json::from_str("{")).unwrap_err(),
        EvalError::MalformedRedirectValue(serde_json::from_str::<serde_json::Value>("{").unwrap_err().to_string())
    );
    assert_eq!(
        convert(serde_json::from_str("[1, \"a\", null]")),
        Ok(lighthouse_client::protocol::to_value(serde_json::from_str::<serde_json::Value>("[1, \"a\", null]").unwrap())
            .unwrap())
    );
}

#[test]
fn requests_are_answered_from_the_replies() {
    let request = || Request::Invoke { args: vec!["x".to_owned()] };
    let replies = vec![output("a"), Reply::Failed(EvalError::EmptyInvocation)];
    assert_eq!(ask(request(), &replies, 0), Evaluation { progress: Progress::Done("a".to_owned()), next: 1 });
    assert_eq!(ask(request(), &replies, 1), Evaluation { progress: Progress::Failed(EvalError::EmptyInvocation), next: 2 });
    assert_eq!(ask(request(), &replies, 2), Evaluation { progress: Progress::Pending(request()), next: 2 });
}

#[test]
fn parts_are_evaluated_against_the_session() {
    let mut ctx = session();
    ctx.set_variable("x".to_owned(), "1".to_owned());
    assert_eq!(
        evaluate_fragment(&lit("a"), &ctx, &[], 0),
        Evaluation { progress: Progress::Done("a".to_owned()), next: 0 }
    );
    assert_eq!(
        evaluate_fragment(&var("x"), &ctx, &[], 0),
        Evaluation { progress: Progress::Done("1".to_owned()), next: 0 }
    );
    assert_eq!(
        evaluate_argument(&arg([lit("a"), var("x"), lit("b"), var("x")]), &ctx, &[], 0),
        Evaluation { progress: Progress::Done("a1b1".to_owned()), next: 0 }
    );
    assert_eq!(
        evaluate_argument(&arg([]), &ctx, &[], 0),
        Evaluation { progress: Progress::Done(String::new()), next: 0 }
    );
    assert_eq!(
        evaluate_arguments(&vec![arg([lit("a")]), arg([var("x")])], &ctx, &[], 0),
        Evaluation { progress: Progress::Done(vec!["a".to_owned(), "1".to_owned()]), next: 0 }
    );
    assert_eq!(
        evaluate_arguments(&vec![arg([lit("a")]), arg([var("y")]), arg([var("z")])], &ctx, &[], 0),
        Evaluation { progress: Progress::Failed(EvalError::UnboundVariable("y".to_owned())), next: 0 }
    );
    let nested = Fragment::Command(invocation([arg([lit("inner")])]));
    assert_eq!(
        evaluate_fragment(&nested, &ctx, &[output("out")], 0),
        Evaluation { progress: Progress::Done("out".to_owned()), next: 1 }
    );
}

#[test]
fn commands_give_their_output_and_whether_it_went_elsewhere() {
    let ctx = session();
    let command = invocation([arg([lit("echo")])]);
    assert_eq!(
        interpret_command(&command, &ctx, &[output(" x ")], 0),
        Evaluation { progress: Progress::Done(Interpretation { output: " x ".to_owned(), redirected: false }), next: 1 }
    );
    let redirected = Command::Redirect { inner: Box::new(command), path: arg([lit("a")]) };
    assert_eq!(
        interpret_command(&redirected, &ctx, &[output(" 1 "), output("ignored")], 0),
        Evaluation { progress: Progress::Done(Interpretation { output: " 1 ".to_owned(), redirected: true }), next: 2 }
    );
    let inner = Interpretation { output: "true".to_owned(), redirected: false };
    let value = lighthouse_client::protocol::to_value(true).unwrap();
    assert_eq!(
        redirect(inner, "../x", &ctx, &[], 0),
        Evaluation {
            progress: Progress::Pending(Request::Post { path: VirtualPathBuf::from(["", "x"]), value }),
            next: 0,
        }
    );
}

#[test]
fn nested_redirects_write_innermost_first() {
    let statement = parse("echo > a > b").unwrap();
    let mut ctx = session();
    let value = lighthouse_client::protocol::to_value(7u64).unwrap();
    assert_eq!(interpret(&statement, &mut ctx, &[]), invoke(&["echo"]));
    assert_eq!(
        interpret(&statement, &mut ctx, &[output("7")]),
        Progress::Pending(Request::Post { path: VirtualPathBuf::from(["", "a"]), value: value.clone() })
    );
    assert_eq!(
        interpret(&statement, &mut ctx, &[output("7"), output("")]),
        Progress::Pending(Request::Post { path: VirtualPathBuf::from(["", "b"]), value })
    );
    assert_eq!(interpret(&statement, &mut ctx, &[output("7"), output(""), output("")]), Progress::Done(String::new()));
    assert_eq!(
        interpret(&statement, &mut ctx, &[output("7"), output(""), output(""), output("more")]),
        Progress::Done(String::new())
    );
}

#[test]
fn assignment_waits_for_its_commands() {
    let assignment = Assignment {
        lhs: arg([lit("n")]),
        rhs: arg([Fragment::Command(invocation([arg([lit("count")])]))]),
    };
    let mut ctx = session();
    assert_eq!(interpret_assignment(&assignment, &mut ctx, &[]), invoke(&["count"]));
    assert_eq!(ctx.variable("n"), None);
    assert_eq!(interpret_assignment(&assignment, &mut ctx, &[output("3")]), Progress::Done(String::new()));
    assert_eq!(ctx.variable("n"), Some(&"3".to_owned()));
    let failing = Assignment { lhs: arg([var("nope")]), rhs: arg([lit("1")]) };
    assert_eq!(
        interpret_assignment(&failing, &mut ctx, &[]),
        Progress::Failed(EvalError::UnboundVariable("nope".to_owned()))
    );
}

#[test]
fn errors_of_evaluation_have_messages() {
    assert_eq!(EvalError::UnboundVariable("x".to_owned()).message(), "Unbound variable: x");
    assert_eq!(EvalError::EmptyInvocation.message(), "Cannot interpret empty invocation");
    assert_eq!(EvalError::RemoteOperationFailed("gone".to_owned()).message(), "gone");
}
