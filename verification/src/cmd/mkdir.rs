//! `mkdir`: creates directories.

use crate::path::is_root;
use crate::path::parent;
use crate::path::relative;
use crate::path::text_of;
use crate::path::VirtualPath;
use crate::text::texts;
use vstd::prelude::*;
use vstd::string::StringExecFns;

verus! {

/// The directories that `mkdir` is to create for one of its arguments, in order, each as the
/// segments that the remote tree knows it by.
pub struct Plan {
    pub steps: Vec<Vec<String>>,
    /// Whether a directory that cannot be created is passed over.
    pub lenient: bool,
}

/// The mathematical value of a [`Plan`].
pub struct PlanView {
    pub steps: Seq<Seq<Seq<char>>>,
    pub lenient: bool,
}

impl View for Plan {
    type V = PlanView;

    open spec fn view(&self) -> PlanView {
        PlanView { steps: self.steps@.map_values(|s: Vec<String>| texts(s@)), lenient: self.lenient }
    }
}

/// Why `mkdir` has nothing to create at the root.
pub open spec fn no_root() -> Seq<char> {
    "Cannot create root directory"@
}

/// Why `mkdir` does not create a directory whose parent is missing.
pub open spec fn no_parent(path: Seq<Seq<char>>) -> Seq<char> {
    text_of(parent(path)) + " does not exist, pass -p to create intermediate directories"@
}

/// The paths that lead to `path`: its beginnings of one segment and more, the shortest first
/// and `path` itself last.
pub open spec fn ancestry(path: Seq<Seq<char>>) -> Seq<Seq<Seq<char>>> {
    Seq::new(path.len(), |i: int| path.take(i + 1))
}

/// What `mkdir` is to do for `path`. Where the parent is there, the directory alone is
/// created, and with `parents` a failure to do so is passed over. Where it is missing, all
/// directories on the way are created with `parents`, and nothing is without.
pub open spec fn planned(path: Seq<Seq<char>>, parents: bool, parent_exists: bool) -> Result<
    PlanView,
    Seq<char>,
> {
    if parent_exists {
        Ok(PlanView { steps: seq![relative(path)], lenient: parents })
    } else if !parents {
        Err(no_parent(path))
    } else {
        Ok(PlanView { steps: ancestry(relative(path)), lenient: false })
    }
}

/// Tells whether `mkdir` can create `path` at all: the root is there already. The error is
/// the message for the user.
pub fn check(path: VirtualPath<'_>) -> (r: Result<(), String>)
    ensures
        is_root(path@) ==> (r matches Err(message) && message@ == no_root()),
        !is_root(path@) ==> r is Ok,
{
    if path.is_root() {
        Err("Cannot create root directory".to_owned())
    } else {
        Ok(())
    }
}

/// An owned copy of the texts.
fn owned(segments: &[&str]) -> (copy: Vec<String>)
    ensures
        texts(copy@) == segments@.map_values(|s: &str| s@),
{
    let mut copy: Vec<String> = Vec::new();
    assert(texts(copy@) =~= segments@.map_values(|s: &str| s@).take(0));
    for i in 0..segments.len()
        invariant
            texts(copy@) == segments@.map_values(|s: &str| s@).take(i as int),
    {
        let ghost before = texts(copy@);
        copy.push(segments[i].to_owned());
        assert(texts(copy@) =~= before.push(segments[i as int]@));
        assert(segments@.map_values(|s: &str| s@).take(i + 1) =~= segments@.map_values(
            |s: &str| s@,
        ).take(i as int).push(segments[i as int]@));
    }
    assert(segments@.map_values(|s: &str| s@).take(segments@.len() as int)
        =~= segments@.map_values(|s: &str| s@));
    copy
}

/// Plans what `mkdir` is to create for `path`, given whether its parent is there. The error
/// is the message for the user.
pub fn plan(path: VirtualPath<'_>, parents: bool, parent_exists: bool) -> (r: Result<Plan, String>)
    requires
        path@.len() > 0,
    ensures
        match r {
            Ok(plan) => planned(path@, parents, parent_exists) == Ok::<PlanView, Seq<char>>(plan@),
            Err(message) => planned(path@, parents, parent_exists) == Err::<PlanView, Seq<char>>(
                message@,
            ),
        },
{
    let target = owned(path.as_lh_vec().as_slice());
    if parent_exists {
        let mut steps: Vec<Vec<String>> = Vec::new();
        steps.push(target);
        let plan = Plan { steps, lenient: parents };
        assert(plan@.steps =~= seq![relative(path@)]);
        Ok(plan)
    } else if !parents {
        let mut message = path.parent().to_string();
        message.append(" does not exist, pass -p to create intermediate directories");
        Err(message)
    } else {
        let mut steps: Vec<Vec<String>> = Vec::new();
        for i in 0..target.len()
            invariant
                texts(target@) == relative(path@),
                steps@.map_values(|s: Vec<String>| texts(s@)) == ancestry(relative(path@)).take(
                    i as int,
                ),
        {
            let ghost before = steps@.map_values(|s: Vec<String>| texts(s@));
            let mut step: Vec<String> = Vec::new();
            for j in 0..i + 1
                invariant
                    i < target.len(),
                    texts(step@) == texts(target@).take(j as int),
            {
                let ghost copied = texts(step@);
                step.push(target[j].clone());
                assert(texts(step@) =~= copied.push(target[j as int]@));
                assert(texts(target@).take(j + 1) =~= texts(target@).take(j as int).push(
                    target[j as int]@,
                ));
            }
            steps.push(step);
            assert(steps@.map_values(|s: Vec<String>| texts(s@)) =~= before.push(texts(step@)));
            assert(ancestry(relative(path@)).take(i + 1) =~= ancestry(relative(path@)).take(
                i as int,
            ).push(relative(path@).take(i + 1)));
        }
        let plan = Plan { steps, lenient: false };
        assert(ancestry(relative(path@)).take(target@.len() as int) =~= ancestry(
            relative(path@),
        ));
        Ok(plan)
    }
}

} // verus!
