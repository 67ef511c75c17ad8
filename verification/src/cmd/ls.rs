//! `ls`: lists the entries of a directory.

use crate::cmd::paint::blue;
use crate::cmd::paint::shows_blue;
use crate::text::join;
use crate::text::joined;
use crate::text::lemma_text_le_antisymmetric;
use crate::text::lemma_text_le_total;
use crate::text::lemma_text_le_transitive;
use crate::text::precedes;
use crate::text::text_le;
use crate::text::texts;
use vstd::prelude::*;
use vstd::string::StringExecFns;

verus! {

/// One entry of a directory.
#[derive(Debug, PartialEq, Eq)]
pub struct Entry {
    pub name: String,
    pub is_directory: bool,
}

/// The mathematical value of an [`Entry`].
pub struct EntryView {
    pub name: Seq<char>,
    pub is_directory: bool,
}

impl View for Entry {
    type V = EntryView;

    open spec fn view(&self) -> EntryView {
        EntryView { name: self.name@, is_directory: self.is_directory }
    }
}

/// The values of a sequence of entries, in order.
pub open spec fn entry_views(entries: Seq<Entry>) -> Seq<EntryView> {
    entries.map_values(|e: Entry| e@)
}

/// Whether `a` comes before `b`, or is `b`, in a listing: entries go by their names, and of
/// two with one name the one that is no directory comes first.
pub open spec fn entry_le(a: EntryView, b: EntryView) -> bool {
    if a.name == b.name {
        !a.is_directory || b.is_directory
    } else {
        text_le(a.name, b.name)
    }
}

/// Whether each entry comes before those after it.
pub open spec fn is_sorted(entries: Seq<EntryView>) -> bool {
    forall|i: int, j: int| 0 <= i < j < entries.len() ==> entry_le(entries[i], entries[j])
}

/// Of two entries one comes before the other.
pub proof fn lemma_entry_le_total(a: EntryView, b: EntryView)
    ensures
        entry_le(a, b) || entry_le(b, a),
{
    lemma_text_le_total(a.name, b.name);
}

/// What comes before an entry comes before all that the entry comes before.
pub proof fn lemma_entry_le_transitive(a: EntryView, b: EntryView, c: EntryView)
    requires
        entry_le(a, b),
        entry_le(b, c),
    ensures
        entry_le(a, c),
{
    if a.name == b.name {
    } else if b.name == c.name {
    } else {
        lemma_text_le_transitive(a.name, b.name, c.name);
        if a.name == c.name {
            lemma_text_le_antisymmetric(a.name, b.name);
        }
    }
}

impl Entry {
    /// Tells whether this entry comes before `other`, or is `other`, in a listing.
    pub fn precedes(&self, other: &Entry) -> (r: bool)
        ensures
            r == entry_le(self@, other@),
    {
        if self.name == other.name {
            !self.is_directory || other.is_directory
        } else {
            precedes(self.name.as_str(), other.name.as_str())
        }
    }
}

/// Puts the entries in the order of a listing.
pub fn sort(entries: Vec<Entry>) -> (sorted: Vec<Entry>)
    ensures
        is_sorted(entry_views(sorted@)),
        entry_views(sorted@).to_multiset() == entry_views(entries@).to_multiset(),
{
    let mut sorted: Vec<Entry> = Vec::new();
    let ghost all = entries@;
    assert(entry_views(sorted@) =~= entry_views(all.take(0)));
    for entry in it: entries
        invariant
            it.seq() == all,
            is_sorted(entry_views(sorted@)),
            entry_views(sorted@).to_multiset() == entry_views(all.take(it.index() as int)).to_multiset(),
    {
        let mut at: usize = 0;
        while at < sorted.len() && sorted[at].precedes(&entry)
            invariant
                at <= sorted.len(),
                forall|k: int| 0 <= k < at ==> entry_le(#[trigger] entry_views(sorted@)[k], entry@),
            decreases sorted.len() - at,
        {
            at += 1;
        }
        proof {
            let before = entry_views(sorted@);
            let after = before.insert(at as int, entry@);
            assert(entry_views(sorted@.insert(at as int, entry)) =~= after);
            vstd::seq_lib::to_multiset_insert(before, at as int, entry@);
            let read = entry_views(all.take(it.index() as int));
            assert(entry_views(all.take(it.index() + 1)) =~= read.push(entry@));
            vstd::seq_lib::to_multiset_build(read, entry@);
            if at < sorted.len() {
                lemma_entry_le_total(before[at as int], entry@);
            }
            assert forall|i: int, j: int| 0 <= i < j < after.len() implies entry_le(
                after[i],
                after[j],
            ) by {
                if j == at {
                    assert(after[i] == before[i]);
                } else if i == at {
                    assert(after[j] == before[j - 1]);
                    if j - 1 > at {
                        lemma_entry_le_transitive(entry@, before[at as int], before[j - 1]);
                    }
                } else if i < at && j > at {
                    assert(after[i] == before[i]);
                    assert(after[j] == before[j - 1]);
                } else if i < at {
                    assert(after[i] == before[i]);
                    assert(after[j] == before[j]);
                } else {
                    assert(after[i] == before[i - 1]);
                    assert(after[j] == before[j - 1]);
                }
            }
        }
        sorted.insert(at, entry);
    }
    assert(all.take(all.len() as int) =~= all);
    sorted
}

/// The entries of a listing: those given, with the directory itself and the one above it
/// where all are asked for, in the order of a listing.
pub fn arrange(entries: Vec<Entry>, all: bool) -> (arranged: Vec<Entry>)
    ensures
        is_sorted(entry_views(arranged@)),
        entry_views(arranged@).to_multiset() == (if all {
            entry_views(entries@).to_multiset().insert(
                EntryView { name: "."@, is_directory: true },
            ).insert(EntryView { name: ".."@, is_directory: true })
        } else {
            entry_views(entries@).to_multiset()
        }),
{
    let mut entries = entries;
    if all {
        let ghost before = entry_views(entries@);
        let here = Entry { name: ".".to_owned(), is_directory: true };
        let above = Entry { name: "..".to_owned(), is_directory: true };
        proof {
            assert(entry_views(entries@.push(here).push(above)) =~= before.push(here@).push(
                above@,
            ));
            vstd::seq_lib::to_multiset_build(before, here@);
            vstd::seq_lib::to_multiset_build(before.push(here@), above@);
        }
        entries.push(here);
        entries.push(above);
    }
    sort(entries)
}

/// A listing of a directory.
#[derive(Debug, PartialEq, Eq)]
pub struct Listing {
    pub long: bool,
    pub entries: Vec<Entry>,
}

/// Each of the texts with a line break after it, one after the other.
pub open spec fn lines(shown: Seq<Seq<char>>) -> Seq<char>
    decreases shown.len(),
{
    if shown.len() == 0 {
        Seq::empty()
    } else {
        lines(shown.drop_last()) + shown.last().push('\n')
    }
}

/// The text of a listing of entries that are shown as given: one on each line in the long
/// form, all on one line with three spaces between them in the short form.
pub open spec fn listing_text(long: bool, shown: Seq<Seq<char>>) -> Seq<char> {
    if long {
        lines(shown)
    } else {
        joined(shown, "   "@).push('\n')
    }
}

/// Whether `shown` shows the entry: by its name, in blue where it is a directory.
pub open spec fn shows_entry(shown: Seq<char>, entry: EntryView) -> bool {
    if entry.is_directory {
        shows_blue(shown, entry.name)
    } else {
        shown == entry.name
    }
}

/// Whether `shown` shows the entries, one text for each.
pub open spec fn shows(shown: Seq<Seq<char>>, entries: Seq<EntryView>) -> bool {
    &&& shown.len() == entries.len()
    &&& forall|i: int| 0 <= i < entries.len() ==> shows_entry(#[trigger] shown[i], entries[i])
}

/// Lays out the texts of a listing.
pub fn lay_out(long: bool, shown: &[String]) -> (text: String)
    ensures
        text@ == listing_text(long, texts(shown@)),
{
    if long {
        let mut text = String::new();
        assert(texts(shown@).take(0) =~= Seq::<Seq<char>>::empty());
        for i in 0..shown.len()
            invariant
                text@ == lines(texts(shown@).take(i as int)),
        {
            text.append(shown[i].as_str());
            text.push('\n');
            proof {
                let read = texts(shown@).take(i + 1);
                assert(read.drop_last() =~= texts(shown@).take(i as int));
                assert(read.last() == shown[i as int]@);
            }
        }
        assert(texts(shown@).take(shown@.len() as int) =~= texts(shown@));
        text
    } else {
        let mut text = join(shown, "   ");
        text.push('\n');
        text
    }
}

impl Entry {
    /// The text that shows this entry: its name, in blue where the entry is a directory.
    pub fn render(&self) -> (text: String)
        ensures
            shows_entry(text@, self@),
    {
        if self.is_directory {
            blue(self.name.as_str())
        } else {
            self.name.clone()
        }
    }
}

impl Listing {
    /// The text of this listing.
    pub fn render(&self) -> (text: String)
        ensures
            exists|shown: Seq<Seq<char>>|
                shows(shown, entry_views(self.entries@)) && text@ == listing_text(self.long, shown),
    {
        let mut shown: Vec<String> = Vec::new();
        for i in 0..self.entries.len()
            invariant
                shows(texts(shown@), entry_views(self.entries@.take(i as int))),
        {
            let ghost before = texts(shown@);
            let text = self.entries[i].render();
            shown.push(text);
            assert(texts(shown@) =~= before.push(text@));
            assert(entry_views(self.entries@.take(i + 1)) =~= entry_views(
                self.entries@.take(i as int),
            ).push(self.entries[i as int]@));
        }
        assert(self.entries@.take(self.entries@.len() as int) =~= self.entries@);
        lay_out(self.long, shown.as_slice())
    }
}

} // verus!
