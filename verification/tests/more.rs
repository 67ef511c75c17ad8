use limo::cmd::display::{key_code_to_js, rgb, Key, Layout};
use limo::cmd::{mkdir, rm, rmdir};
use limo::context::Context;
use limo::interpret::{CommandLine, CommandLineError};
use limo::line::lex::{LexError, Operator, UnknownOperator};
use limo::line::parse::{parse, ParseError, SyntaxError};
use limo::path::VirtualPathBuf;
use limo::script::{statement, statements};
use limo::text::{name_char, split};
use std::str::FromStr;

fn strings(items: &[&str]) -> Vec<String> {
    items.iter().map(|s| s.to_string()).collect()
}

#[test]
fn rm_refuses_directories_unless_recursive() {
    let path = VirtualPathBuf::from("/a/b");
    assert_eq!(rm::check(path.as_path(), true, false), Err("/a/b is a directory, pass -r to delete it!".to_owned()));
    assert_eq!(rm::check(path.as_path(), true, true), Ok(()));
    assert_eq!(rm::check(path.as_path(), false, false), Ok(()));
    assert_eq!(rm::check(path.as_path(), false, true), Ok(()));
}

#[test]
fn rmdir_removes_empty_directories_only() {
    let path = VirtualPathBuf::from("/a");
    assert_eq!(rmdir::check(path.as_path(), None), Err("/a is not a directory, use rm instead!".to_owned()));
    assert_eq!(rmdir::check(path.as_path(), Some(2)), Err("/a is not empty, use rm -r instead!".to_owned()));
    assert_eq!(rmdir::check(path.as_path(), Some(0)), Ok(()));
}

#[test]
fn mkdir_plans_what_to_create() {
    let root = VirtualPathBuf::root();
    assert_eq!(mkdir::check(root.as_path()), Err("Cannot create root directory".to_owned()));
    let path = VirtualPathBuf::from("/a/b/c");
    assert_eq!(mkdir::check(path.as_path()), Ok(()));
    let plan = mkdir::plan(path.as_path(), false, true).unwrap();
    assert_eq!(plan.steps, vec![strings(&["a", "b", "c"])]);
    assert!(!plan.lenient);
    let plan = mkdir::plan(path.as_path(), true, true).unwrap();
    assert_eq!(plan.steps, vec![strings(&["a", "b", "c"])]);
    assert!(plan.lenient);
    let plan = mkdir::plan(path.as_path(), true, false).unwrap();
    assert_eq!(plan.steps, vec![strings(&["a"]), strings(&["a", "b"]), strings(&["a", "b", "c"])]);
    assert!(!plan.lenient);
    assert_eq!(
        mkdir::plan(path.as_path(), false, false).err(),
        Some("/a/b does not exist, pass -p to create intermediate directories".to_owned())
    );
}

#[test]
fn keys_have_their_codes() {
    assert_eq!(key_code_to_js(Key::Backspace), Some(8));
    assert_eq!(key_code_to_js(Key::Enter), Some(13));
    assert_eq!(key_code_to_js(Key::Left), Some(37));
    assert_eq!(key_code_to_js(Key::Up), Some(38));
    assert_eq!(key_code_to_js(Key::Right), Some(39));
    assert_eq!(key_code_to_js(Key::Down), Some(40));
    assert_eq!(key_code_to_js(Key::F(1)), Some(112));
    assert_eq!(key_code_to_js(Key::F(12)), Some(123));
    assert_eq!(key_code_to_js(Key::Char('a')), Some(97 + 48));
    assert_eq!(key_code_to_js(Key::Char('\u{10FFFF}')), Some(0x10FFFF + 48));
    assert_eq!(key_code_to_js(Key::Pause), Some(19));
    assert_eq!(key_code_to_js(Key::Other), None);
}

#[test]
fn frame_is_fitted_into_the_canvas() {
    let layout = Layout::fit((2, 40), (100, 1), 28, 14).unwrap();
    assert_eq!(layout, Layout { cols: 28, rows: 14, scale: 2, min_x: 2, min_y: 12 });
    assert_eq!(layout.cell(0, 0, 0, 0), (2, 12));
    assert_eq!(layout.cell(27, 13, 1, 1), (2 + 27 * 2 + 1, 12 + 13 * 2 + 1));
    assert_eq!(Layout::fit((10, 40), (5, 1), 28, 14), None);
    assert_eq!(Layout::fit((2, 1), (100, 40), 28, 14), None);
    assert_eq!(Layout::fit((2, 40), (100, 1), 0, 14), None);
    let flat = Layout::fit((0, 3), (10, 0), 28, 14).unwrap();
    assert_eq!(flat.scale, 0);
    assert_eq!(rgb(0x12, 0x34, 0x56), 0x123456);
    assert_eq!(rgb(255, 255, 255), 0xffffff);
    assert_eq!(rgb(0, 0, 0), 0);
}

#[test]
fn command_line_is_read_with_the_pattern() {
    let line = CommandLine::from_str("echo 'Hello world' \"a b\" > out").unwrap();
    assert_eq!(line.args(), &strings(&["echo", "Hello world", "a b"]));
    assert_eq!(line.redirect(), &Some("out".to_owned()));
    let line = CommandLine::from_str("ls").unwrap();
    assert_eq!(line.args(), &strings(&["ls"]));
    assert_eq!(line.redirect(), &None);
    let line = CommandLine::from_str("").unwrap();
    assert_eq!(line.args(), &strings(&[]));
    let line = CommandLine::from_str("a > b c").unwrap();
    assert_eq!(line.args(), &strings(&["a"]));
    assert_eq!(line.redirect(), &Some("c".to_owned()));
    let error = CommandLine::from_str("echo 'open").unwrap_err();
    assert_eq!(error, CommandLineError::InvalidToken("'".to_owned()));
    assert_eq!(error.message(), "Parse error: Found invalid token ', did you close your quotes?");
}

#[test]
fn scripts_skip_blank_lines_and_comments() {
    assert_eq!(statements("ls\n  # a comment\n\n cd a \r\npwd"), strings(&["ls", "cd a", "pwd"]));
    assert_eq!(statements(""), strings(&[]));
    assert_eq!(statements("\n\n"), strings(&[]));
    assert_eq!(statements("#only"), strings(&[]));
    assert_eq!(statement("  x=1 # not a comment "), Some("x=1 # not a comment"));
    assert_eq!(statement("   "), None);
    assert_eq!(split("a,b,,c", ','), strings(&["a", "b", "", "c"]));
    assert_eq!(split("", ','), strings(&[""]));
    assert_eq!(split(",", ','), strings(&["", ""]));
}

#[test]
fn prompt_tells_who_is_where() {
    let mut ctx = Context::new("alice".to_owned(), "example.org".to_owned());
    assert_eq!(ctx.prompt(), "alice@example.org:/ $ ");
    ctx.cwd = VirtualPathBuf::from("/x/y");
    assert_eq!(ctx.prompt(), "alice@example.org:/x/y $ ");
}

#[test]
fn errors_have_messages() {
    assert_eq!(LexError::UnterminatedQuote('"').message(), "Unexpectedly reached end of \"-quoted string");
    assert_eq!(LexError::UnterminatedQuote('\'').message(), "Unexpectedly reached end of '-quoted string");
    assert_eq!(
        ParseError::UnexpectedToken(Operator::Assign).message(),
        "Parse error: Unexpected Assign in invocation, did you close your quotes?"
    );
    assert_eq!(parse("a b = c"), Err(SyntaxError::Parse(ParseError::UnexpectedToken(Operator::Assign))));
    assert_eq!(parse("'a").unwrap_err().message(), "Unexpectedly reached end of '-quoted string");
    assert_eq!(Operator::from_char('>'), Some(Operator::Redirect));
    assert_eq!(Operator::from_char('='), Some(Operator::Assign));
    assert_eq!(Operator::from_char('x'), None);
    assert_eq!(Operator::Redirect.to_char(), '>');
    assert_eq!(Operator::Assign.to_char(), '=');
    assert!(name_char('a') && name_char('Z') && name_char('0') && name_char('_'));
    assert!(!name_char('-') && !name_char('é') && !name_char(' '));
}

#[test]
fn paths_walk_and_spell() {
    let base = VirtualPathBuf::from("/a/b");
    let joined = base.as_path().join(VirtualPathBuf::from("../c/./d").as_path());
    assert_eq!(joined, VirtualPathBuf::from("/a/c/d"));
    assert_eq!(base.as_path().join(VirtualPathBuf::from("/x").as_path()), VirtualPathBuf::from("/x"));
    assert_eq!(base.as_path().join(VirtualPathBuf::from("../../../..").as_path()), VirtualPathBuf::root());
    assert_eq!(base.as_path().join(VirtualPathBuf::from("").as_path()), base);
    let relative = VirtualPathBuf::from("a");
    assert_eq!(relative.as_path().join(VirtualPathBuf::from("../..").as_path()), VirtualPathBuf::empty());
    assert!(base.as_path().is_absolute());
    assert!(!base.as_path().is_root());
    assert!(VirtualPathBuf::root().as_path().is_root());
    assert!(!relative.as_path().is_absolute());
    assert!(!VirtualPathBuf::empty().as_path().is_absolute());
    assert_eq!(base.as_path().parent().to_path_buf(), VirtualPathBuf::from("/a"));
    assert_eq!(VirtualPathBuf::root().as_path().parent().to_path_buf(), VirtualPathBuf::root());
    assert_eq!(base.as_path().as_relative().to_path_buf(), VirtualPathBuf::from("a/b"));
    assert_eq!(relative.as_path().as_relative().to_path_buf(), relative);
    assert_eq!(base.as_path().as_str_vec(), vec!["", "a", "b"]);
    assert_eq!(base.as_path().as_lh_vec(), vec!["a", "b"]);
    assert_eq!(VirtualPathBuf::from(strings(&["", "q"])), VirtualPathBuf::from("/q"));
    assert_eq!(VirtualPathBuf::from(strings(&["", "q"]).as_slice()), VirtualPathBuf::from("/q"));
    assert_eq!(VirtualPathBuf::from("a//b/").to_string(), "a//b/");
    let mut path = VirtualPathBuf::from("/a");
    path.push(VirtualPathBuf::from("b").as_path());
    assert_eq!(path.to_string(), "/a/b");
}

#[test]
fn command_line_needs_its_pattern() {
    let error = regex::Regex::new("(").unwrap_err();
    assert_eq!(CommandLine::from_captures(Err(error)), Err(CommandLineError::InvalidPattern));
    assert_eq!(CommandLineError::InvalidPattern.message(), "Parse error: Invalid pattern");
    let found = vec![
        vec![Some("a".to_owned()), None, None, None, Some("a".to_owned())],
        vec![Some(">".to_owned()), Some(">".to_owned())],
        vec![Some("'b'".to_owned()), None, Some("b".to_owned())],
    ];
    let line = CommandLine::from_captures(Ok(found)).unwrap();
    assert_eq!(line.args(), &strings(&["a"]));
    assert_eq!(line.redirect(), &Some("b".to_owned()));
    let tokens = limo::interpret::lex(&[vec![Some("\"".to_owned())], vec![]]);
    assert_eq!(
        tokens,
        vec![limo::interpret::Token::Invalid("\"".to_owned()), limo::interpret::Token::Invalid(String::new())]
    );
}

#[test]
fn operators_convert_to_and_from_characters() {
    assert_eq!(char::from(Operator::Redirect), '>');
    assert_eq!(char::from(Operator::Assign), '=');
    assert_eq!(Operator::try_from('>'), Ok(Operator::Redirect));
    assert_eq!(Operator::try_from('='), Ok(Operator::Assign));
    assert_eq!(Operator::try_from('$'), Err(UnknownOperator('$')));
    assert_eq!(UnknownOperator('$').message(), "Unknown operator: $");
    assert_eq!(Operator::Redirect.name(), "Redirect");
}

#[test]
fn paths_are_read_and_copied() {
    let path: VirtualPathBuf = "/a/b".parse().unwrap();
    assert_eq!(path, VirtualPathBuf::from(["", "a", "b"]));
    assert_eq!(path.clone(), path);
}
