//! `tree`: pictures a directory and all that it holds.

use crate::cmd::paint::blue;
use crate::cmd::paint::shows_blue;
use crate::text::decimal;
use crate::text::decimal_text;
use crate::text::lemma_text_le_total;
use crate::text::lemma_text_le_transitive;
use crate::text::precedes;
use crate::text::text_le;
use crate::text::texts;
use vstd::prelude::*;
use vstd::string::StringExecFns;

verus! {

/// The entries of a directory, each with its own entries where it is a directory itself.
#[derive(Debug, PartialEq, Eq)]
pub struct DirectoryTree {
    pub entries: Vec<TreeEntry>,
}

/// One entry of a directory: a resource, or a directory with its contents.
#[derive(Debug, PartialEq, Eq)]
pub struct TreeEntry {
    pub name: String,
    pub contents: Option<DirectoryTree>,
}

/// The mathematical value of a [`DirectoryTree`].
pub struct TreeView {
    pub entries: Seq<TreeEntryView>,
}

/// The mathematical value of a [`TreeEntry`].
pub struct TreeEntryView {
    pub name: Seq<char>,
    pub contents: Option<TreeView>,
}

/// The value of a tree: the values of its entries, in order.
pub open spec fn tree_view(tree: DirectoryTree) -> TreeView
    decreases tree,
{
    TreeView {
        entries: Seq::new(
            tree.entries@.len(),
            |i: int|
                if 0 <= i < tree.entries@.len() {
                    entry_view(tree.entries@[i])
                } else {
                    arbitrary()
                },
        ),
    }
}

/// The value of an entry.
pub open spec fn entry_view(entry: TreeEntry) -> TreeEntryView
    decreases entry,
{
    TreeEntryView {
        name: entry.name@,
        contents: match entry.contents {
            Some(tree) => Some(tree_view(tree)),
            None => None,
        },
    }
}

impl View for DirectoryTree {
    type V = TreeView;

    open spec fn view(&self) -> TreeView {
        tree_view(*self)
    }
}

impl View for TreeEntry {
    type V = TreeEntryView;

    open spec fn view(&self) -> TreeEntryView {
        entry_view(*self)
    }
}

/// The values of a sequence of entries, in order.
pub open spec fn entry_views(entries: Seq<TreeEntry>) -> Seq<TreeEntryView> {
    entries.map_values(|e: TreeEntry| e@)
}

/// The value of a tree is made of the values of its entries.
pub proof fn lemma_tree_view(tree: DirectoryTree)
    ensures
        tree@.entries == entry_views(tree.entries@),
{
    assert(tree@.entries =~= entry_views(tree.entries@));
}

/// The entries with `entry` put behind the last of them that it does not come before by its
/// name.
pub open spec fn inserted(entries: Seq<TreeEntryView>, entry: TreeEntryView) -> Seq<TreeEntryView>
    decreases entries.len(),
{
    if entries.len() == 0 || text_le(entries.last().name, entry.name) {
        entries.push(entry)
    } else {
        inserted(entries.drop_last(), entry).push(entries.last())
    }
}

/// The entries in the order of their names. Entries of one name keep their order.
pub open spec fn sorted(entries: Seq<TreeEntryView>) -> Seq<TreeEntryView>
    decreases entries.len(),
{
    if entries.len() == 0 {
        Seq::empty()
    } else {
        inserted(sorted(entries.drop_last()), entries.last())
    }
}

/// Whether the names of the entries stand in order.
pub open spec fn in_order(entries: Seq<TreeEntryView>) -> bool {
    forall|i: int, j: int|
        0 <= i < j < entries.len() ==> text_le(
            (#[trigger] entries[i]).name,
            (#[trigger] entries[j]).name,
        )
}

/// Putting an entry among entries in order leaves them in order, and adds this entry alone.
pub proof fn lemma_inserted(entries: Seq<TreeEntryView>, entry: TreeEntryView)
    requires
        in_order(entries),
    ensures
        in_order(inserted(entries, entry)),
        inserted(entries, entry).to_multiset() == entries.to_multiset().insert(entry),
        inserted(entries, entry).len() == entries.len() + 1,
    decreases entries.len(),
{
    if entries.len() == 0 || text_le(entries.last().name, entry.name) {
        vstd::seq_lib::to_multiset_build(entries, entry);
        let after = entries.push(entry);
        assert forall|i: int, j: int| 0 <= i < j < after.len() implies text_le(
            (#[trigger] after[i]).name,
            (#[trigger] after[j]).name,
        ) by {
            if j == entries.len() {
                if i < entries.len() - 1 {
                    assert(text_le(entries[i].name, entries[entries.len() - 1].name));
                    lemma_text_le_transitive(entries[i].name, entries.last().name, entry.name);
                }
            } else {
                assert(text_le(entries[i].name, entries[j].name));
            }
        }
    } else {
        let front = entries.drop_last();
        let last = entries.last();
        assert forall|i: int, j: int| 0 <= i < j < front.len() implies text_le(
            (#[trigger] front[i]).name,
            (#[trigger] front[j]).name,
        ) by {
            assert(text_le(entries[i].name, entries[j].name));
        }
        lemma_inserted(front, entry);
        let placed = inserted(front, entry);
        let after = placed.push(last);
        vstd::seq_lib::to_multiset_build(placed, last);
        vstd::seq_lib::to_multiset_build(front, last);
        assert(entries =~= front.push(last));
        assert(after.to_multiset() =~= entries.to_multiset().insert(entry));
        lemma_text_le_total(last.name, entry.name);
        assert forall|i: int, j: int| 0 <= i < j < after.len() implies text_le(
            (#[trigger] after[i]).name,
            (#[trigger] after[j]).name,
        ) by {
            if j < placed.len() {
                assert(text_le(placed[i].name, placed[j].name));
            } else {
                let x = placed[i];
                assert(placed.to_multiset().count(x) > 0) by {
                    vstd::seq_lib::to_multiset_contains(placed, x);
                    assert(placed.contains(x));
                }
                if x == entry {
                } else {
                    assert(front.to_multiset().count(x) > 0);
                    vstd::seq_lib::to_multiset_contains(front, x);
                    let k = choose|k: int| 0 <= k < front.len() && front[k] == x;
                    assert(text_le(entries[k].name, entries[entries.len() - 1].name));
                }
            }
        }
    }
}

/// The sorted entries stand in the order of their names and are the entries given.
pub proof fn lemma_sorted(entries: Seq<TreeEntryView>)
    ensures
        in_order(sorted(entries)),
        sorted(entries).to_multiset() == entries.to_multiset(),
        sorted(entries).len() == entries.len(),
    decreases entries.len(),
{
    if entries.len() > 0 {
        let front = entries.drop_last();
        lemma_sorted(front);
        lemma_inserted(sorted(front), entries.last());
        vstd::seq_lib::to_multiset_build(front, entries.last());
        assert(entries =~= front.push(entries.last()));
    } else {
        assert(entries =~= Seq::empty());
    }
}


/// The tree with the entries of each of its directories in the order of their names.
pub open spec fn arranged(tree: TreeView) -> TreeView
    decreases tree,
{
    TreeView { entries: sorted(each_arranged(tree.entries)) }
}

/// The entries, each with what it holds put in order.
pub open spec fn each_arranged(entries: Seq<TreeEntryView>) -> Seq<TreeEntryView>
    decreases entries,
{
    Seq::new(
        entries.len(),
        |i: int|
            if 0 <= i < entries.len() {
                arranged_entry(entries[i])
            } else {
                arbitrary()
            },
    )
}

/// The entry with what it holds put in order.
pub open spec fn arranged_entry(entry: TreeEntryView) -> TreeEntryView
    decreases entry,
{
    TreeEntryView {
        name: entry.name,
        contents: match entry.contents {
            Some(tree) => Some(arranged(tree)),
            None => None,
        },
    }
}

/// The arranged entries of the first `n` of the entries.
pub open spec fn arranged_entries(entries: Seq<TreeEntryView>, n: int) -> Seq<TreeEntryView> {
    Seq::new(n as nat, |i: int| arranged_entry(entries[i]))
}

/// An entry that comes after all entries from `at` on, and after none before, goes to `at`.
proof fn lemma_inserted_at(entries: Seq<TreeEntryView>, entry: TreeEntryView, at: int)
    requires
        0 <= at <= entries.len(),
        at > 0 ==> text_le(entries[at - 1].name, entry.name),
        forall|k: int| at <= k < entries.len() ==> !text_le((#[trigger] entries[k]).name, entry.name),
    ensures
        inserted(entries, entry) == entries.insert(at, entry),
    decreases entries.len() - at,
{
    if at == entries.len() {
        assert(entries.insert(at, entry) =~= entries.push(entry));
    } else {
        assert(!text_le(entries[entries.len() - 1].name, entry.name));
        let front = entries.drop_last();
        assert forall|k: int| at <= k < front.len() implies !text_le(
            (#[trigger] front[k]).name,
            entry.name,
        ) by {
            assert(front[k] == entries[k]);
        }
        lemma_inserted_at(front, entry, at);
        assert(front.insert(at, entry).push(entries.last()) =~= entries.insert(at, entry));
    }
}

/// Puts the entries of each directory of the tree in the order of their names.
pub fn arrange(tree: DirectoryTree) -> (r: DirectoryTree)
    ensures
        r@ == arranged(tree@),
    decreases tree,
{
    let mut entries: Vec<TreeEntry> = Vec::new();
    let ghost all = tree.entries@;
    proof {
        lemma_tree_view(tree);
        assert(entry_views(entries@) =~= sorted(arranged_entries(tree@.entries, 0)));
    }
    for entry in it: tree.entries
        invariant
            it.seq() == all,
            all == tree.entries@,
            tree@.entries == entry_views(all),
            entry_views(entries@) == sorted(arranged_entries(tree@.entries, it.index() as int)),
    {
        let ghost given = entry;
        assert(given == tree.entries@[it.index() as int]);
        let TreeEntry { name, contents } = entry;
        let contents = match contents {
            Some(inner) => Some(arrange(inner)),
            None => None,
        };
        let placed = TreeEntry { name, contents };
        assert(placed@ == arranged_entry(given@));
        let mut at = entries.len();
        while at > 0 && !precedes(entries[at - 1].name.as_str(), placed.name.as_str())
            invariant
                at <= entries.len(),
                forall|k: int|
                    at <= k < entries.len() ==> !text_le(
                        (#[trigger] entry_views(entries@)[k]).name,
                        placed@.name,
                    ),
            decreases at,
        {
            at -= 1;
        }
        proof {
            let before = entry_views(entries@);
            lemma_inserted_at(before, placed@, at as int);
            assert(entry_views(entries@.insert(at as int, placed)) =~= before.insert(
                at as int,
                placed@,
            ));
            let read = arranged_entries(tree@.entries, it.index() as int);
            let more = arranged_entries(tree@.entries, it.index() + 1);
            assert(more.drop_last() =~= read);
            assert(more.last() == placed@);
        }
        entries.insert(at, placed);
    }
    let r = DirectoryTree { entries };
    proof {
        lemma_tree_view(r);
        assert(arranged_entries(tree@.entries, all.len() as int) =~= each_arranged(
            tree@.entries,
        ));
    }
    r
}


/// One line of the picture of a tree.
#[derive(Debug, PartialEq, Eq)]
pub struct Line {
    /// What stands before the name: the branches that lead to the entry.
    pub indent: String,
    /// The name of the entry.
    pub name: String,
    /// Whether the entry is a directory.
    pub is_directory: bool,
}

/// The mathematical value of a [`Line`].
pub struct LineView {
    pub indent: Seq<char>,
    pub name: Seq<char>,
    pub is_directory: bool,
}

impl View for Line {
    type V = LineView;

    open spec fn view(&self) -> LineView {
        LineView { indent: self.indent@, name: self.name@, is_directory: self.is_directory }
    }
}

/// The values of a sequence of lines, in order.
pub open spec fn line_views(lines: Seq<Line>) -> Seq<LineView> {
    lines.map_values(|l: Line| l@)
}

/// What leads to an entry: a fork where entries follow it, a corner for the last.
pub open spec fn twig(last: bool) -> Seq<char> {
    if last {
        "└── "@
    } else {
        "├── "@
    }
}

/// What leads past an entry to those that it holds: a bar where entries follow it, space for
/// the last.
pub open spec fn trunk(last: bool) -> Seq<char> {
    if last {
        "    "@
    } else {
        "│   "@
    }
}

/// The lines that picture an entry of the given name and all that it holds, in the order in
/// which it holds them. `indent` stands before the name, `branch` before what leads to each
/// entry that it holds.
pub open spec fn outline_of(
    name: Seq<char>,
    contents: Option<TreeView>,
    indent: Seq<char>,
    branch: Seq<char>,
) -> Seq<LineView>
    decreases contents, 0int,
{
    seq![LineView { indent, name, is_directory: contents is Some }] + match contents {
        Some(tree) => outline_of_entries(tree.entries, tree.entries.len() as int, branch),
        None => Seq::empty(),
    }
}

/// The lines that picture the first `n` of the entries of a directory.
pub open spec fn outline_of_entries(entries: Seq<TreeEntryView>, n: int, branch: Seq<char>) -> Seq<
    LineView,
>
    decreases entries, n,
{
    if n <= 0 || n > entries.len() {
        Seq::empty()
    } else {
        let last = n == entries.len();
        outline_of_entries(entries, n - 1, branch) + outline_of(
            entries[n - 1].name,
            entries[n - 1].contents,
            branch + twig(last),
            branch + trunk(last),
        )
    }
}

/// Adds to `lines` the lines that picture the entries of a directory and all that they hold.
pub fn outline_entries(tree: &DirectoryTree, branch: &str, lines: &mut Vec<Line>)
    ensures
        line_views(final(lines)@) == line_views(old(lines)@) + outline_of_entries(
            tree@.entries,
            tree@.entries.len() as int,
            branch@,
        ),
    decreases tree,
{
    let ghost begun = line_views(lines@);
    proof {
        lemma_tree_view(*tree);
        assert(begun + outline_of_entries(tree@.entries, 0, branch@) =~= begun);
    }
    for i in 0..tree.entries.len()
        invariant
            tree@.entries == entry_views(tree.entries@),
            line_views(lines@) == begun + outline_of_entries(tree@.entries, i as int, branch@),
    {
        let entry = &tree.entries[i];
        let last = i + 1 == tree.entries.len();
        let mut indent = branch.to_owned();
        let mut inner_branch = branch.to_owned();
        if last {
            indent.append("└── ");
            inner_branch.append("    ");
        } else {
            indent.append("├── ");
            inner_branch.append("│   ");
        }
        let ghost before = line_views(lines@);
        let line = Line {
            indent,
            name: entry.name.clone(),
            is_directory: entry.contents.is_some(),
        };
        assert(line_views(lines@.push(line)) =~= before.push(line@));
        lines.push(line);
        match &entry.contents {
            Some(inner) => {
                outline_entries(inner, inner_branch.as_str(), lines);
            },
            None => {},
        }
        proof {
            let more = outline_of(
                entry@.name,
                entry@.contents,
                branch@ + twig(last),
                branch@ + trunk(last),
            );
            assert(line_views(lines@) =~= before + more);
            assert(before + more =~= begun + (outline_of_entries(
                tree@.entries,
                i as int,
                branch@,
            ) + more));
        }
    }
}

/// Adds to `lines` the lines that picture an entry of the given name and all that it holds.
pub fn outline(
    name: &str,
    contents: Option<&DirectoryTree>,
    indent: &str,
    branch: &str,
    lines: &mut Vec<Line>,
)
    ensures
        line_views(final(lines)@) == line_views(old(lines)@) + outline_of(
            name@,
            match contents {
                Some(tree) => Some(tree@),
                None => None,
            },
            indent@,
            branch@,
        ),
{
    let line = Line {
        indent: indent.to_owned(),
        name: name.to_owned(),
        is_directory: contents.is_some(),
    };
    let ghost begun = line_views(lines@).push(line@);
    assert(line_views(lines@.push(line)) =~= begun);
    lines.push(line);
    match contents {
        Some(tree) => {
            outline_entries(tree, branch, lines);
            assert(line_views(lines@) =~= line_views(old(lines)@) + (seq![line@]
                + outline_of_entries(tree@.entries, tree@.entries.len() as int, branch@)));
        },
        None => {
            assert(begun =~= line_views(old(lines)@) + (seq![line@] + Seq::<LineView>::empty()));
        },
    }
}

/// How many of the lines stand for directories.
pub open spec fn directories(lines: Seq<LineView>) -> nat
    decreases lines.len(),
{
    if lines.len() == 0 {
        0
    } else {
        directories(lines.drop_last()) + if lines.last().is_directory {
            1nat
        } else {
            0nat
        }
    }
}

/// How many of the lines stand for resources.
pub open spec fn resources(lines: Seq<LineView>) -> nat
    decreases lines.len(),
{
    if lines.len() == 0 {
        0
    } else {
        resources(lines.drop_last()) + if lines.last().is_directory {
            0nat
        } else {
            1nat
        }
    }
}

/// How many directories and how many resources a tree holds.
#[derive(Debug, Clone, Copy, PartialEq, Eq, Structural)]
pub struct Stats {
    pub directory_count: usize,
    pub resource_count: usize,
}

/// The words for a count of things: the number, and the name of the things in the singular
/// for one of them.
pub open spec fn counted(count: nat, one: Seq<char>, many: Seq<char>) -> Seq<char> {
    decimal_text(count) + if count == 1 {
        one
    } else {
        many
    }
}

impl Stats {
    /// Counts the directories and the resources among the lines of a picture.
    pub fn count(lines: &[Line]) -> (stats: Stats)
        ensures
            stats.directory_count == directories(line_views(lines@)),
            stats.resource_count == resources(line_views(lines@)),
    {
        let mut stats = Stats { directory_count: 0, resource_count: 0 };
        assert(line_views(lines@).take(0) =~= Seq::<LineView>::empty());
        for i in 0..lines.len()
            invariant
                stats.directory_count == directories(line_views(lines@).take(i as int)),
                stats.resource_count == resources(line_views(lines@).take(i as int)),
                stats.directory_count + stats.resource_count == i,
        {
            proof {
                let read = line_views(lines@).take(i + 1);
                assert(read.drop_last() =~= line_views(lines@).take(i as int));
                assert(read.last() == lines[i as int]@);
            }
            if lines[i].is_directory {
                stats.directory_count += 1;
            } else {
                stats.resource_count += 1;
            }
        }
        assert(line_views(lines@).take(lines@.len() as int) =~= line_views(lines@));
        stats
    }

    /// The words that tell these counts.
    pub open spec fn text(self) -> Seq<char> {
        counted(self.directory_count as nat, " directory"@, " directories"@) + ", "@ + counted(
            self.resource_count as nat,
            " resource"@,
            " resources"@,
        )
    }

    /// The words that tell these counts.
    pub fn render(&self) -> (text: String)
        ensures
            text@ == self.text(),
    {
        let mut text = decimal(self.directory_count);
        if self.directory_count == 1 {
            text.append(" directory");
        } else {
            text.append(" directories");
        }
        text.append(", ");
        text.append(decimal(self.resource_count).as_str());
        if self.resource_count == 1 {
            text.append(" resource");
        } else {
            text.append(" resources");
        }
        text
    }
}

/// Whether `shown` shows the name of the line: as it is, and in blue for a directory.
pub open spec fn shows_name(shown: Seq<char>, line: LineView) -> bool {
    if line.is_directory {
        shows_blue(shown, line.name)
    } else {
        shown == line.name
    }
}

/// Whether `shown` shows the names of the lines, one text for each.
pub open spec fn shows(shown: Seq<Seq<char>>, lines: Seq<LineView>) -> bool {
    &&& shown.len() == lines.len()
    &&& forall|i: int| 0 <= i < lines.len() ==> shows_name(#[trigger] shown[i], lines[i])
}

/// The first `n` lines as text, each with the name as it is shown and a line break.
pub open spec fn picture(lines: Seq<LineView>, shown: Seq<Seq<char>>, n: int) -> Seq<char>
    decreases n,
{
    if n <= 0 {
        Seq::empty()
    } else {
        picture(lines, shown, n - 1) + lines[n - 1].indent + shown[n - 1].push('\n')
    }
}

/// The text of the listing of a tree: its picture, an empty line, and a line with the counts.
pub open spec fn tree_text(lines: Seq<LineView>, shown: Seq<Seq<char>>, stats: Stats) -> Seq<char> {
    picture(lines, shown, lines.len() as int).push('\n') + stats.text().push('\n')
}

/// Lays out the lines of a picture with the names as they are shown, and the counts below.
fn lay_out(lines: &[Line], shown: &[String], stats: Stats) -> (text: String)
    requires
        shown@.len() == lines@.len(),
    ensures
        text@ == tree_text(line_views(lines@), texts(shown@), stats),
{
    let mut text = String::new();
    for i in 0..lines.len()
        invariant
            shown@.len() == lines@.len(),
            text@ == picture(line_views(lines@), texts(shown@), i as int),
    {
        text.append(lines[i].indent.as_str());
        text.append(shown[i].as_str());
        text.push('\n');
        assert(text@ =~= picture(line_views(lines@), texts(shown@), i as int)
            + lines[i as int]@.indent + shown[i as int]@.push('\n'));
    }
    text.push('\n');
    text.append(stats.render().as_str());
    text.push('\n');
    text
}

/// The lines that picture a tree under the name of its root, with the entries of each
/// directory in the order of their names.
pub open spec fn lines_of(name: Seq<char>, tree: TreeView) -> Seq<LineView> {
    outline_of(name, Some(arranged(tree)), Seq::empty(), Seq::empty())
}

/// The text of the listing of a tree whose names are shown as given.
pub open spec fn listing_text(name: Seq<char>, tree: TreeView, shown: Seq<Seq<char>>) -> Seq<char> {
    let lines = lines_of(name, tree);
    tree_text(
        lines,
        shown,
        Stats {
            directory_count: directories(lines) as usize,
            resource_count: resources(lines) as usize,
        },
    )
}

/// The listing of a tree under the name of its root: the picture of the tree with the
/// entries of each directory in the order of their names, and the counts of what it holds.
pub fn render(name: &str, tree: DirectoryTree) -> (text: String)
    ensures
        exists|shown: Seq<Seq<char>>| #[trigger]
            shows(shown, lines_of(name@, tree@)) && text@ == listing_text(name@, tree@, shown),
{
    let ghost given = tree@;
    let tree = arrange(tree);
    let mut lines: Vec<Line> = Vec::new();
    outline(name, Some(&tree), "", "", &mut lines);
    proof {
        reveal_strlit("");
        assert(""@ =~= Seq::<char>::empty());
        assert(line_views(Seq::<Line>::empty()) =~= Seq::<LineView>::empty());
        assert(line_views(lines@) =~= outline_of(
            name@,
            Some(tree@),
            Seq::empty(),
            Seq::empty(),
        ));
    }
    let mut shown: Vec<String> = Vec::new();
    for i in 0..lines.len()
        invariant
            shows(texts(shown@), line_views(lines@.take(i as int))),
    {
        let ghost before = texts(shown@);
        let text = if lines[i].is_directory {
            blue(lines[i].name.as_str())
        } else {
            lines[i].name.clone()
        };
        shown.push(text);
        assert(texts(shown@) =~= before.push(text@));
        assert(line_views(lines@.take(i + 1)) =~= line_views(lines@.take(i as int)).push(
            lines[i as int]@,
        ));
    }
    assert(lines@.take(lines@.len() as int) =~= lines@);
    let stats = Stats::count(lines.as_slice());
    let text = lay_out(lines.as_slice(), shown.as_slice(), stats);
    assert(shows(texts(shown@), lines_of(name@, given)) && text@ == listing_text(
        name@,
        given,
        texts(shown@),
    ));
    text
}


/// How many directories and how many resources there are.
pub struct Census {
    pub directories: nat,
    pub resources: nat,
}

impl Census {
    /// The counts of two lots together.
    pub open spec fn plus(self, other: Census) -> Census {
        Census {
            directories: self.directories + other.directories,
            resources: self.resources + other.resources,
        }
    }

    /// The counts of nothing.
    pub open spec fn none() -> Census {
        Census { directories: 0, resources: 0 }
    }
}

/// What an entry counts for: one resource, or the directories and resources of the directory
/// that it is.
pub open spec fn entry_census(entry: TreeEntryView) -> Census
    decreases entry, 0int,
{
    match entry.contents {
        Some(tree) => tree_census(tree),
        None => Census { directories: 0, resources: 1 },
    }
}

/// What the first `n` entries count for together.
pub open spec fn entries_census(entries: Seq<TreeEntryView>, n: int) -> Census
    decreases entries, n,
{
    if n <= 0 || n > entries.len() {
        Census::none()
    } else {
        entries_census(entries, n - 1).plus(entry_census(entries[n - 1]))
    }
}

/// What a directory counts for: itself, and what its entries count for.
pub open spec fn tree_census(tree: TreeView) -> Census
    decreases tree, 0int,
{
    Census { directories: 1, resources: 0 }.plus(
        entries_census(tree.entries, tree.entries.len() as int),
    )
}

/// The counts of the lines of a picture.
pub open spec fn lines_census(lines: Seq<LineView>) -> Census {
    Census { directories: directories(lines), resources: resources(lines) }
}

/// The lines of two pictures count for what each counts for.
pub proof fn lemma_lines_census_add(a: Seq<LineView>, b: Seq<LineView>)
    ensures
        lines_census(a + b) == lines_census(a).plus(lines_census(b)),
    decreases b.len(),
{
    if b.len() == 0 {
        assert(a + b =~= a);
    } else {
        lemma_lines_census_add(a, b.drop_last());
        assert((a + b).drop_last() =~= a + b.drop_last());
        assert((a + b).last() == b.last());
    }
}

/// The lines that picture an entry count for what the entry counts for.
pub proof fn lemma_outline_census(
    name: Seq<char>,
    contents: Option<TreeView>,
    indent: Seq<char>,
    branch: Seq<char>,
)
    ensures
        lines_census(outline_of(name, contents, indent, branch)) == entry_census(
            TreeEntryView { name, contents },
        ),
    decreases contents, 0int,
{
    let line = seq![LineView { indent, name, is_directory: contents is Some }];
    assert(line.drop_last() =~= Seq::<LineView>::empty());
    assert(directories(line.drop_last()) == 0);
    assert(resources(line.drop_last()) == 0);
    match contents {
        Some(tree) => {
            let below = outline_of_entries(tree.entries, tree.entries.len() as int, branch);
            lemma_outline_entries_census(tree.entries, tree.entries.len() as int, branch);
            lemma_lines_census_add(line, below);
        },
        None => {
            assert(line + Seq::<LineView>::empty() =~= line);
        },
    }
}

/// The lines that picture the first `n` entries count for what these entries count for.
pub proof fn lemma_outline_entries_census(entries: Seq<TreeEntryView>, n: int, branch: Seq<char>)
    ensures
        lines_census(outline_of_entries(entries, n, branch)) == entries_census(entries, n),
    decreases entries, n,
{
    if 0 < n <= entries.len() {
        let last = n == entries.len();
        lemma_outline_entries_census(entries, n - 1, branch);
        lemma_outline_census(
            entries[n - 1].name,
            entries[n - 1].contents,
            branch + twig(last),
            branch + trunk(last),
        );
        lemma_lines_census_add(
            outline_of_entries(entries, n - 1, branch),
            outline_of(
                entries[n - 1].name,
                entries[n - 1].contents,
                branch + twig(last),
                branch + trunk(last),
            ),
        );
    } else {
        assert(directories(Seq::<LineView>::empty()) == 0);
        assert(resources(Seq::<LineView>::empty()) == 0);
    }
}

/// What entries count for does not depend on the entries behind them.
proof fn lemma_census_prefix(entries: Seq<TreeEntryView>, more: Seq<TreeEntryView>, n: int)
    requires
        0 <= n <= entries.len(),
    ensures
        entries_census(entries + more, n) == entries_census(entries, n),
    decreases n,
{
    if n > 0 {
        lemma_census_prefix(entries, more, n - 1);
        assert((entries + more)[n - 1] == entries[n - 1]);
    }
}

/// One more entry counts for what it counts for.
proof fn lemma_census_push(entries: Seq<TreeEntryView>, entry: TreeEntryView)
    ensures
        entries_census(entries.push(entry), entries.len() as int + 1) == entries_census(
            entries,
            entries.len() as int,
        ).plus(entry_census(entry)),
{
    assert(entries.push(entry) =~= entries + seq![entry]);
    lemma_census_prefix(entries, seq![entry], entries.len() as int);
}

/// An entry that is put among others counts for what it counts for.
proof fn lemma_census_inserted(entries: Seq<TreeEntryView>, entry: TreeEntryView)
    ensures
        inserted(entries, entry).len() == entries.len() + 1,
        entries_census(inserted(entries, entry), entries.len() as int + 1) == entries_census(
            entries,
            entries.len() as int,
        ).plus(entry_census(entry)),
    decreases entries.len(),
{
    if entries.len() == 0 || text_le(entries.last().name, entry.name) {
        lemma_census_push(entries, entry);
    } else {
        let front = entries.drop_last();
        lemma_census_inserted(front, entry);
        lemma_census_push(inserted(front, entry), entries.last());
        lemma_census_push(front, entries.last());
        assert(entries =~= front.push(entries.last()));
    }
}

/// Entries count for the same in whatever order they stand.
proof fn lemma_census_sorted(entries: Seq<TreeEntryView>)
    ensures
        sorted(entries).len() == entries.len(),
        entries_census(sorted(entries), entries.len() as int) == entries_census(
            entries,
            entries.len() as int,
        ),
    decreases entries.len(),
{
    if entries.len() > 0 {
        let front = entries.drop_last();
        lemma_census_sorted(front);
        lemma_census_inserted(sorted(front), entries.last());
        lemma_census_push(front, entries.last());
        assert(entries =~= front.push(entries.last()));
    }
}

/// A tree counts for the same when its entries are put in order.
pub proof fn lemma_arranged_census(tree: TreeView)
    ensures
        tree_census(arranged(tree)) == tree_census(tree),
    decreases tree, 1int,
{
    let each = each_arranged(tree.entries);
    lemma_each_arranged_census(tree.entries, tree.entries.len() as int);
    lemma_census_sorted(each);
}

/// The first `n` entries count for the same when what they hold is put in order.
proof fn lemma_each_arranged_census(entries: Seq<TreeEntryView>, n: int)
    requires
        0 <= n <= entries.len(),
    ensures
        entries_census(each_arranged(entries), n) == entries_census(entries, n),
    decreases entries, n,
{
    if n > 0 {
        lemma_each_arranged_census(entries, n - 1);
        let entry = entries[n - 1];
        assert(each_arranged(entries)[n - 1] == arranged_entry(entry));
        if let Some(tree) = entry.contents {
            lemma_arranged_census(tree);
        }
        assert(entry_census(arranged_entry(entry)) == entry_census(entry));
        let each = each_arranged(entries);
        assert(entries_census(each, n) == entries_census(each, n - 1).plus(
            entry_census(each[n - 1]),
        ));
        assert(entries_census(entries, n) == entries_census(entries, n - 1).plus(
            entry_census(entries[n - 1]),
        ));
    }
}

/// The counts under the picture of a tree are those of the tree: the tree itself and the
/// directories in it are its directories, all else in it its resources.
pub proof fn lemma_listing_census(name: Seq<char>, tree: TreeView)
    ensures
        lines_census(lines_of(name, tree)) == tree_census(tree),
{
    lemma_outline_census(name, Some(arranged(tree)), Seq::empty(), Seq::empty());
    lemma_arranged_census(tree);
}

} // verus!
