//! Paths in the tree of resources.

use crate::text::join;
use crate::text::joined;
use crate::text::lemma_joined_parts;
use crate::text::lemma_parts_shape;
use crate::text::parts;
use crate::text::split;
use crate::text::texts;
use vstd::prelude::*;

verus! {

/// The separator for virtual paths.
pub const SEPARATOR: char = '/';

/// An owned path in the resource tree: its segments in order. A path is absolute where its
/// first segment is empty.
#[derive(Debug, Hash, PartialEq, Eq)]
pub struct VirtualPathBuf(Vec<String>);

/// A borrowed path in the resource tree.
#[derive(Debug, Clone, Copy, Hash, PartialEq, Eq)]
pub struct VirtualPath<'a>(&'a [String]);

impl View for VirtualPathBuf {
    type V = Seq<Seq<char>>;

    closed spec fn view(&self) -> Seq<Seq<char>> {
        texts(self.0@)
    }
}

impl Clone for VirtualPathBuf {
    fn clone(&self) -> (copy: Self)
        ensures
            copy@ == self@,
    {
        self.as_path().to_path_buf()
    }
}

impl<'a> View for VirtualPath<'a> {
    type V = Seq<Seq<char>>;

    closed spec fn view(&self) -> Seq<Seq<char>> {
        texts(self.0@)
    }
}

/// Whether the path starts at the root of the tree.
pub open spec fn is_absolute(path: Seq<Seq<char>>) -> bool {
    path.len() >= 1 && path[0].len() == 0
}

/// Whether the path is the root of the tree.
pub open spec fn is_root(path: Seq<Seq<char>>) -> bool {
    path.len() == 1 && path[0].len() == 0
}

/// The path one level up; the root is its own parent.
pub open spec fn parent(path: Seq<Seq<char>>) -> Seq<Seq<char>> {
    if is_root(path) {
        path
    } else {
        path.drop_last()
    }
}

/// The path without the empty segment that makes it absolute.
pub open spec fn relative(path: Seq<Seq<char>>) -> Seq<Seq<char>> {
    if is_absolute(path) {
        path.drop_first()
    } else {
        path
    }
}

/// The segment that stands for the directory itself.
pub open spec fn here() -> Seq<char> {
    seq!['.']
}

/// The segment that stands for the directory one level up.
pub open spec fn up() -> Seq<char> {
    seq!['.', '.']
}

/// The path `base` after walking along one more segment.
pub open spec fn walk(base: Seq<Seq<char>>, segment: Seq<char>) -> Seq<Seq<char>> {
    if segment == here() {
        base
    } else if segment == up() {
        if is_root(base) || base.len() == 0 {
            base
        } else {
            base.drop_last()
        }
    } else {
        base.push(segment)
    }
}

/// The path `base` after walking along the segments of `path`, from the left.
pub open spec fn walk_all(base: Seq<Seq<char>>, path: Seq<Seq<char>>) -> Seq<Seq<char>>
    decreases path.len(),
{
    if path.len() == 0 {
        base
    } else {
        walk(walk_all(base, path.drop_last()), path.last())
    }
}

/// The path that `path` names when seen from `base`: an absolute path replaces `base`, a
/// relative one is walked from it.
pub open spec fn resolve(base: Seq<Seq<char>>, path: Seq<Seq<char>>) -> Seq<Seq<char>> {
    walk_all(
        if is_absolute(path) {
            Seq::empty()
        } else {
            base
        },
        path,
    )
}

/// Walking along one more segment from an absolute path leads to an absolute path.
pub proof fn lemma_walk_absolute(base: Seq<Seq<char>>, segment: Seq<char>)
    requires
        is_absolute(base),
    ensures
        is_absolute(walk(base, segment)),
{
    if segment != here() && segment != up() {
        assert(base.push(segment)[0] == base[0]);
    } else if segment == up() && !is_root(base) {
        assert(base.drop_last()[0] == base[0]);
    }
}

/// Walking from an absolute path leads to an absolute path.
pub proof fn lemma_walk_all_absolute(base: Seq<Seq<char>>, path: Seq<Seq<char>>)
    requires
        is_absolute(base),
    ensures
        is_absolute(walk_all(base, path)),
    decreases path.len(),
{
    if path.len() > 0 {
        lemma_walk_all_absolute(base, path.drop_last());
        lemma_walk_absolute(walk_all(base, path.drop_last()), path.last());
    }
}

/// Walking along a path begins with walking along its first segment.
pub proof fn lemma_walk_all_first(base: Seq<Seq<char>>, path: Seq<Seq<char>>)
    requires
        path.len() > 0,
    ensures
        walk_all(base, path) == walk_all(walk(base, path.first()), path.drop_first()),
    decreases path.len(),
{
    let start = walk(base, path.first());
    if path.len() == 1 {
        assert(path.drop_last().len() == 0);
        assert(path.drop_first().len() == 0);
        assert(walk_all(base, path.drop_last()) == base);
        assert(walk_all(start, path.drop_first()) == start);
        assert(path.last() == path.first());
    } else {
        lemma_walk_all_first(base, path.drop_last());
        assert(path.drop_last().first() == path.first());
        assert(path.drop_last().drop_first() =~= path.drop_first().drop_last());
        assert(path.drop_first().last() == path.last());
        assert(walk_all(start, path.drop_first()) == walk(
            walk_all(start, path.drop_first().drop_last()),
            path.drop_first().last(),
        ));
    }
}

/// A path that is seen from an absolute path, or that is absolute itself, names an absolute
/// path: the working path of a session stays absolute.
pub proof fn lemma_resolve_absolute(base: Seq<Seq<char>>, path: Seq<Seq<char>>)
    requires
        is_absolute(base) || is_absolute(path),
    ensures
        is_absolute(resolve(base, path)),
{
    if is_absolute(path) {
        lemma_walk_all_first(Seq::empty(), path);
        let first = walk(Seq::empty(), path.first());
        assert(path.first() =~= Seq::<char>::empty());
        assert(first =~= seq![Seq::<char>::empty()]);
        lemma_walk_all_absolute(first, path.drop_first());
    } else {
        lemma_walk_all_absolute(base, path);
    }
}

impl VirtualPathBuf {
    /// The root of the tree.
    pub fn root() -> (path: Self)
        ensures
            path@ == seq![Seq::<char>::empty()],
            is_root(path@),
    {
        let mut segments = Vec::new();
        segments.push(String::new());
        let path = Self(segments);
        assert(path@ =~= seq![Seq::<char>::empty()]);
        path
    }

    /// The path without segments, which names the place that it is seen from.
    pub fn empty() -> (path: Self)
        ensures
            path@ == Seq::<Seq<char>>::empty(),
    {
        let path = Self(Vec::new());
        assert(path@ =~= Seq::<Seq<char>>::empty());
        path
    }

    /// The text that spells this path.
    pub fn to_string(&self) -> (text: String)
        ensures
            text@ == text_of(self@),
    {
        self.as_path().to_string()
    }

    /// This path, borrowed.
    pub fn as_path(&self) -> (path: VirtualPath<'_>)
        ensures
            path@ == self@,
    {
        VirtualPath(self.0.as_slice())
    }

    /// Walks on along `path`: an absolute path replaces this one, `.` stays, `..` goes one
    /// level up unless this is the root, and any other segment is entered.
    pub fn push(&mut self, path: VirtualPath<'_>)
        ensures
            final(self)@ == resolve(old(self)@, path@),
    {
        let is_abs = path.is_absolute();
        if is_abs {
            self.0.clear();
        }
        let here = ".".to_owned();
        let up = "..".to_owned();
        proof {
            reveal_strlit(".");
            reveal_strlit("..");
            assert(here@ =~= crate::path::here());
            assert(up@ =~= crate::path::up());
            assert(path@.take(0) =~= Seq::<Seq<char>>::empty());
            assert(self@ =~= if is_absolute(path@) { Seq::empty() } else { old(self)@ });
        }
        let ghost start = self@;
        for i in 0..path.0.len()
            invariant
                here@ == crate::path::here(),
                up@ == crate::path::up(),
                self@ == walk_all(start, path@.take(i as int)),
        {
            let segment = &path.0[i];
            proof {
                assert(path@.take(i + 1).drop_last() =~= path@.take(i as int));
                assert(path@.take(i + 1).last() == segment@);
            }
            if *segment == here {
            } else if *segment == up {
                if !self.as_path().is_root() {
                    let ghost before = self@;
                    self.0.pop();
                    assert(self@ =~= if before.len() == 0 { before } else { before.drop_last() });
                }
            } else {
                let ghost before = self@;
                self.0.push(segment.clone());
                assert(self@ =~= before.push(segment@));
            }
        }
        assert(path@.take(path@.len() as int) =~= path@);
    }
}

impl<'a> VirtualPath<'a> {
    /// The path one level up; the root is its own parent. The empty path has none.
    pub fn parent(&self) -> (path: VirtualPath<'a>)
        requires
            self@.len() > 0,
        ensures
            path@ == parent(self@),
    {
        if self.is_root() {
            *self
        } else {
            let path = VirtualPath(vstd::slice::slice_subrange(self.0, 0, self.0.len() - 1));
            assert(path@ =~= self@.drop_last());
            path
        }
    }

    /// The path that `path` names when seen from this one.
    pub fn join(&self, path: VirtualPath<'_>) -> (joined: VirtualPathBuf)
        ensures
            joined@ == resolve(self@, path@),
            is_absolute(self@) || is_absolute(path@) ==> is_absolute(joined@),
    {
        let mut owned = self.to_path_buf();
        owned.push(path);
        proof {
            if is_absolute(self@) || is_absolute(path@) {
                lemma_resolve_absolute(self@, path@);
            }
        }
        owned
    }

    /// Whether the path starts at the root of the tree.
    pub fn is_absolute(&self) -> (r: bool)
        ensures
            r == is_absolute(self@),
    {
        self.0.len() >= 1 && self.0[0].as_str().is_empty()
    }

    /// Whether the path is the root of the tree.
    pub fn is_root(&self) -> (r: bool)
        ensures
            r == is_root(self@),
    {
        self.0.len() == 1 && self.is_absolute()
    }

    /// The path without the empty segment that makes it absolute.
    pub fn as_relative(&self) -> (path: VirtualPath<'a>)
        ensures
            path@ == relative(self@),
    {
        if self.is_absolute() {
            let path = VirtualPath(vstd::slice::slice_subrange(self.0, 1, self.0.len()));
            assert(path@ =~= self@.drop_first());
            path
        } else {
            *self
        }
    }

    /// The segments of the path.
    pub fn as_str_vec(&self) -> (segments: Vec<&'a str>)
        ensures
            segments@.map_values(|s: &str| s@) == self@,
    {
        let mut segments: Vec<&'a str> = Vec::new();
        for i in 0..self.0.len()
            invariant
                segments@.map_values(|s: &str| s@) == self@.take(i as int),
        {
            let ghost before = segments@;
            segments.push(self.0[i].as_str());
            assert(segments@.map_values(|s: &str| s@) =~= before.map_values(|s: &str| s@).push(
                self.0[i as int]@,
            ));
            assert(self@.take(i + 1) =~= self@.take(i as int).push(self.0[i as int]@));
        }
        assert(self@.take(self@.len() as int) =~= self@);
        segments
    }

    /// The segments by which the remote tree knows the path: those below the root.
    pub fn as_lh_vec(&self) -> (segments: Vec<&'a str>)
        ensures
            segments@.map_values(|s: &str| s@) == relative(self@),
    {
        self.as_relative().as_str_vec()
    }

    /// The text that spells this path.
    pub fn to_string(&self) -> (text: String)
        ensures
            text@ == text_of(self@),
    {
        proof {
            reveal_strlit("/");
            assert("/"@ =~= seq![SEPARATOR]);
        }
        if self.is_root() {
            "/".to_owned()
        } else {
            join(self.0, "/")
        }
    }

    /// An owned copy of this path.
    pub fn to_path_buf(&self) -> (path: VirtualPathBuf)
        ensures
            path@ == self@,
    {
        let mut segments: Vec<String> = Vec::new();
        for i in 0..self.0.len()
            invariant
                texts(segments@) == self@.take(i as int),
        {
            let ghost before = segments@;
            segments.push(self.0[i].clone());
            assert(texts(segments@) =~= texts(before).push(self.0[i as int]@));
            assert(self@.take(i + 1) =~= self@.take(i as int).push(self.0[i as int]@));
        }
        assert(self@.take(self@.len() as int) =~= self@);
        VirtualPathBuf(segments)
    }
}


/// The path that a text spells: the empty text is the empty path, a lone separator is the
/// root, and any other text is split at its separators.
pub open spec fn path_of(text: Seq<char>) -> Seq<Seq<char>> {
    if text.len() == 0 {
        Seq::empty()
    } else if text == seq![SEPARATOR] {
        seq![Seq::empty()]
    } else {
        parts(text, SEPARATOR)
    }
}

/// The text that spells a path: a lone separator for the root, else the segments with a
/// separator between each two.
pub open spec fn text_of(path: Seq<Seq<char>>) -> Seq<char> {
    if is_root(path) {
        seq![SEPARATOR]
    } else {
        joined(path, seq![SEPARATOR])
    }
}

/// Spelling the path of a text gives the text back.
pub proof fn lemma_text_of_path_of(text: Seq<char>)
    ensures
        text_of(path_of(text)) == text,
{
    lemma_parts_shape(text, SEPARATOR);
    lemma_joined_parts(text, SEPARATOR);
    if text.len() == 0 {
        assert(joined(Seq::<Seq<char>>::empty(), seq![SEPARATOR]) =~= text);
    }
}

impl From<&str> for VirtualPathBuf {
    fn from(value: &str) -> (path: Self)
        ensures
            path@ == path_of(value@),
    {
        if value.is_empty() {
            Self::empty()
        } else if value.eq("/") {
            proof {
                reveal_strlit("/");
                assert(value@ =~= seq![SEPARATOR]);
            }
            Self::root()
        } else {
            proof {
                reveal_strlit("/");
                if value@ == seq![SEPARATOR] {
                    assert(value@ =~= "/"@);
                }
            }
            Self(split(value, SEPARATOR))
        }
    }
}

impl std::str::FromStr for VirtualPathBuf {
    type Err = std::convert::Infallible;

    fn from_str(s: &str) -> (r: Result<Self, Self::Err>)
        ensures
            r matches Ok(path) && path@ == path_of(s@),
    {
        Ok(VirtualPathBuf::from(s))
    }
}

impl vstd::std_specs::convert::FromSpecImpl<&str> for VirtualPathBuf {
    open spec fn obeys_from_spec() -> bool {
        false
    }

    open spec fn from_spec(value: &str) -> Self {
        arbitrary()
    }
}


impl<const N: usize> From<[&str; N]> for VirtualPathBuf {
    fn from(value: [&str; N]) -> (path: Self)
        ensures
            path@ == value@.map_values(|s: &str| s@),
    {
        let mut segments: Vec<String> = Vec::new();
        for i in 0..N
            invariant
                texts(segments@) == value@.map_values(|s: &str| s@).take(i as int),
        {
            let ghost before = texts(segments@);
            segments.push(value[i].to_owned());
            assert(texts(segments@) =~= before.push(value@[i as int]@));
            assert(value@.map_values(|s: &str| s@).take(i + 1) =~= value@.map_values(
                |s: &str| s@,
            ).take(i as int).push(value@[i as int]@));
        }
        assert(value@.map_values(|s: &str| s@).take(N as int) =~= value@.map_values(
            |s: &str| s@,
        ));
        Self(segments)
    }
}

impl<const N: usize> vstd::std_specs::convert::FromSpecImpl<[&str; N]> for VirtualPathBuf {
    open spec fn obeys_from_spec() -> bool {
        false
    }

    open spec fn from_spec(value: [&str; N]) -> Self {
        arbitrary()
    }
}

impl From<Vec<String>> for VirtualPathBuf {
    fn from(value: Vec<String>) -> (path: Self)
        ensures
            path@ == texts(value@),
    {
        Self(value)
    }
}

impl vstd::std_specs::convert::FromSpecImpl<Vec<String>> for VirtualPathBuf {
    open spec fn obeys_from_spec() -> bool {
        false
    }

    open spec fn from_spec(value: Vec<String>) -> Self {
        arbitrary()
    }
}

impl From<&[String]> for VirtualPathBuf {
    fn from(value: &[String]) -> (path: Self)
        ensures
            path@ == texts(value@),
    {
        VirtualPath(value).to_path_buf()
    }
}

impl vstd::std_specs::convert::FromSpecImpl<&[String]> for VirtualPathBuf {
    open spec fn obeys_from_spec() -> bool {
        false
    }

    open spec fn from_spec(value: &[String]) -> Self {
        arbitrary()
    }
}

} // verus!
