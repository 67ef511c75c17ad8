use limo::cmd::ls::{arrange, lay_out, Entry, Listing};
use limo::cmd::tree::{outline, DirectoryTree, Line, Stats, TreeEntry};
use limo::cmd::{dispatch, help, Builtin};
use limo::context::Context;
use limo::line::interpret::EvalError;
use limo::path::VirtualPathBuf;
use limo::text::{decimal, join, precedes};

fn strings(items: &[&str]) -> Vec<String> {
    items.iter().map(|s| s.to_string()).collect()
}

fn file(name: &str) -> Entry {
    Entry { name: name.to_owned(), is_directory: false }
}

fn dir(name: &str) -> Entry {
    Entry { name: name.to_owned(), is_directory: true }
}

#[test]
fn dispatch_finds_commands_by_name() {
    assert_eq!(dispatch(&strings(&["ls", "-a"])), Ok(Builtin::Ls));
    assert_eq!(dispatch(&strings(&["rmdir"])), Ok(Builtin::Rmdir));
    assert_eq!(dispatch(&strings(&["uln", "a", "b"])), Ok(Builtin::Uln));
    assert_eq!(Builtin::lookup("display"), Some(Builtin::Display));
    assert_eq!(Builtin::lookup("LS"), None);
    assert_eq!(Builtin::Touch.name(), "touch");
}

#[test]
fn dispatch_rejects_unknown_names() {
    assert_eq!(
        dispatch(&strings(&["frobnicate", "x"])),
        Err(EvalError::UnknownCommand("frobnicate".to_owned()))
    );
    assert_eq!(
        EvalError::UnknownCommand("frobnicate".to_owned()).message(),
        "Unrecognized command: frobnicate"
    );
}

#[test]
fn help_lists_the_commands() {
    let expected = "Available commands: cat, cd, cp, display, echo, ln, ls, mkdir, mv, pwd, rm, rmdir, touch, tree, uln";
    assert_eq!(help(), expected);
    assert_eq!(dispatch(&strings(&["help"])), Err(EvalError::RemoteOperationFailed(expected.to_owned())));
}

#[test]
fn echo_joins_its_arguments() {
    assert_eq!(limo::cmd::echo::invoke(&strings(&["echo"])), "");
    assert_eq!(limo::cmd::echo::invoke(&strings(&["echo", "a"])), "a");
    assert_eq!(limo::cmd::echo::invoke(&strings(&["echo", "a b", "", "c"])), "a b  c");
}

#[test]
fn pwd_spells_the_working_path() {
    let mut ctx = Context::new("user".to_owned(), "host".to_owned());
    assert_eq!(limo::cmd::pwd::invoke(&ctx), "/");
    ctx.cwd = VirtualPathBuf::from("/a/b");
    assert_eq!(limo::cmd::pwd::invoke(&ctx), "/a/b");
}

#[test]
fn texts_are_ordered_by_their_characters() {
    assert!(precedes("", ""));
    assert!(precedes("", "a"));
    assert!(!precedes("a", ""));
    assert!(precedes("a", "b"));
    assert!(!precedes("b", "a"));
    assert!(precedes("ab", "abc"));
    assert!(!precedes("abc", "ab"));
    assert!(precedes("B", "a"));
    assert!(precedes("z", "ä"));
    assert!(precedes("abc", "abc"));
}

#[test]
fn join_and_decimal_write_texts() {
    assert_eq!(join(&strings(&[]), ", "), "");
    assert_eq!(join(&strings(&["a"]), ", "), "a");
    assert_eq!(join(&strings(&["a", "b", "c"]), ", "), "a, b, c");
    assert_eq!(decimal(0), "0");
    assert_eq!(decimal(7), "7");
    assert_eq!(decimal(10), "10");
    assert_eq!(decimal(1234567890), "1234567890");
}

#[test]
fn listing_is_sorted_like_the_entries() {
    let arranged = arrange(vec![file("b"), dir("a"), file("a"), dir("c"), file("B")], false);
    assert_eq!(arranged, vec![file("B"), file("a"), dir("a"), file("b"), dir("c")]);
    let mut expected = vec![file("x"), dir("."), dir("..")];
    expected.sort_by(|a, b| (&a.name, a.is_directory).cmp(&(&b.name, b.is_directory)));
    assert_eq!(arrange(vec![file("x")], true), expected);
    assert_eq!(arrange(vec![], true), vec![dir("."), dir("..")]);
}

#[test]
fn listing_lays_out_long_and_short() {
    assert_eq!(lay_out(false, &strings(&["a", "b", "c"])), "a   b   c\n");
    assert_eq!(lay_out(true, &strings(&["a", "b", "c"])), "a\nb\nc\n");
    assert_eq!(lay_out(false, &strings(&[])), "\n");
    assert_eq!(lay_out(true, &strings(&[])), "");
    let listing = Listing { long: true, entries: vec![file("a"), file("b")] };
    assert_eq!(listing.render(), "a\nb\n");
    let listing = Listing { long: false, entries: vec![file("a"), file("b")] };
    assert_eq!(listing.render(), "a   b\n");
}

fn leaf(name: &str) -> TreeEntry {
    TreeEntry { name: name.to_owned(), contents: None }
}

fn branch(name: &str, entries: Vec<TreeEntry>) -> TreeEntry {
    TreeEntry { name: name.to_owned(), contents: Some(DirectoryTree { entries }) }
}

fn line(indent: &str, name: &str, is_directory: bool) -> Line {
    Line { indent: indent.to_owned(), name: name.to_owned(), is_directory }
}

#[test]
fn tree_is_arranged_and_outlined() {
    let tree = DirectoryTree {
        entries: vec![leaf("z"), branch("d", vec![leaf("y"), branch("e", vec![]), leaf("x")]), leaf("a")],
    };
    let tree = limo::cmd::tree::arrange(tree);
    assert_eq!(
        tree,
        DirectoryTree {
            entries: vec![leaf("a"), branch("d", vec![branch("e", vec![]), leaf("x"), leaf("y")]), leaf("z")],
        }
    );
    let mut lines = Vec::new();
    outline("/", Some(&tree), "", "", &mut lines);
    assert_eq!(
        lines,
        vec![
            line("", "/", true),
            line("├── ", "a", false),
            line("├── ", "d", true),
            line("│   ├── ", "e", true),
            line("│   ├── ", "x", false),
            line("│   └── ", "y", false),
            line("└── ", "z", false),
        ]
    );
    let stats = Stats::count(&lines);
    assert_eq!(stats, Stats { directory_count: 3, resource_count: 4 });
    assert_eq!(stats.render(), "3 directories, 4 resources");
    assert_eq!(Stats { directory_count: 1, resource_count: 1 }.render(), "1 directory, 1 resource");
    assert_eq!(Stats { directory_count: 0, resource_count: 0 }.render(), "0 directories, 0 resources");
}

#[test]
fn tree_without_entries_is_rendered() {
    colored::control::set_override(false);
    let text = limo::cmd::tree::render("r", DirectoryTree { entries: vec![] });
    assert_eq!(text, "r\n\n1 directory, 0 resources\n");
    let text = limo::cmd::tree::render("r", DirectoryTree { entries: vec![leaf("b"), leaf("a")] });
    assert_eq!(text, "r\n├── a\n└── b\n\n1 directory, 2 resources\n");
    colored::control::unset_override();
}

#[test]
fn directories_are_shown_in_blue_where_colours_are_on() {
    colored::control::set_override(true);
    assert_eq!(dir("d").render(), "\x1B[34md\x1B[0m");
    assert_eq!(file("f").render(), "f");
    let listing = Listing { long: false, entries: vec![file("a"), dir("b")] };
    assert_eq!(listing.render(), "a   \x1B[34mb\x1B[0m\n");
    let tree = DirectoryTree { entries: vec![branch("b", vec![]), leaf("a")] };
    assert_eq!(
        limo::cmd::tree::render("/", tree),
        "\x1B[34m/\x1B[0m\n├── a\n└── \x1B[34mb\x1B[0m\n\n2 directories, 1 resource\n"
    );
    colored::control::set_override(false);
    assert_eq!(dir("d").render(), "d");
    let tree = DirectoryTree { entries: vec![branch("b", vec![]), leaf("a")] };
    assert_eq!(limo::cmd::tree::render("x", tree), "x\n├── a\n└── b\n\n2 directories, 1 resource\n");
    colored::control::unset_override();
}
