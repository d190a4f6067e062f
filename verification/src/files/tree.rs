//! The recorded tree of a storage space: what leaves it when a folder was read again.

use crate::text::{has_member, opt, same, texts};
use vstd::prelude::*;

verus! {

/// Where a recorded node stands: its id and the folder that holds it.
#[derive(Debug)]
pub struct Placed {
    pub id: String,
    pub parent: Option<String>,
}

/// The model of a [`Placed`].
pub struct Place {
    pub id: Seq<char>,
    pub parent: Option<Seq<char>>,
}

impl View for Placed {
    type V = Place;

    open spec fn view(&self) -> Place {
        Place { id: self.id@, parent: opt(self.parent) }
    }
}

/// The models of a list of places.
pub open spec fn places(v: Seq<Placed>) -> Seq<Place> {
    v.map_values(|p: Placed| p@)
}

/// A folder that was read again: its id, `None` at the top level, and the nodes that it holds.
pub struct Reading {
    pub folder: Option<Seq<char>>,
    pub listed: Seq<Seq<char>>,
}

impl Reading {
    /// Whether a node stood in the folder and is no longer there.
    pub open spec fn misses(self, p: Place) -> bool {
        p.parent == self.folder && !self.listed.contains(p.id)
    }
}

/// Whether a node is gone with the folder's missing nodes: it is one of them, or stands at most so
/// many levels below one.
pub open spec fn gone_within(all: Seq<Place>, at: Reading, id: Seq<char>, depth: nat) -> bool
    decreases depth,
{
    exists|i: int|
        #![trigger all[i]]
        0 <= i < all.len() && all[i].id == id && (at.misses(all[i]) || (depth > 0
            && all[i].parent is Some && gone_within(
            all,
            at,
            all[i].parent->0,
            (depth - 1) as nat,
        )))
}

/// Whether a node is gone with the folder's missing nodes.
pub open spec fn gone(all: Seq<Place>, at: Reading, id: Seq<char>) -> bool {
    exists|depth: nat| gone_within(all, at, id, depth)
}

proof fn missing_is_gone(all: Seq<Place>, at: Reading, i: int)
    requires
        0 <= i < all.len(),
        at.misses(all[i]),
    ensures
        gone(all, at, all[i].id),
{
    assert(gone_within(all, at, all[i].id, 0));
}

proof fn below_is_gone(all: Seq<Place>, at: Reading, i: int)
    requires
        0 <= i < all.len(),
        all[i].parent is Some,
        gone(all, at, all[i].parent->0),
    ensures
        gone(all, at, all[i].id),
{
    let depth = choose|depth: nat| gone_within(all, at, all[i].parent->0, depth);
    assert(gone_within(all, at, all[i].id, depth + 1));
}

/// A node that is gone is missing itself, or stands in a folder that is gone.
proof fn gone_for_a_reason(all: Seq<Place>, at: Reading, id: Seq<char>)
    requires
        gone(all, at, id),
    ensures
        exists|i: int|
            #![trigger all[i]]
            0 <= i < all.len() && all[i].id == id && (at.misses(all[i]) || (all[i].parent is Some
                && gone(all, at, all[i].parent->0))),
{
    let depth = choose|depth: nat| gone_within(all, at, id, depth);
    let i = choose|i: int|
        #![trigger all[i]]
        0 <= i < all.len() && all[i].id == id && (at.misses(all[i]) || (depth > 0
            && all[i].parent is Some && gone_within(
            all,
            at,
            all[i].parent->0,
            (depth - 1) as nat,
        )));
    assert(0 <= i < all.len() && all[i].id == id);
}

/// What is found to be gone so far: a mark for each place.
pub open spec fn marked(all: Seq<Place>, marks: Seq<bool>, id: Seq<char>) -> bool {
    exists|i: int| 0 <= i < all.len() && #[trigger] marks[i] && all[i].id == id
}

/// How many places are not marked.
pub open spec fn unmarked(marks: Seq<bool>) -> nat
    decreases marks.len(),
{
    if marks.len() == 0 {
        0
    } else {
        unmarked(marks.drop_last()) + if marks.last() {
            0nat
        } else {
            1nat
        }
    }
}

proof fn marking_counts_down(marks: Seq<bool>, i: int)
    requires
        0 <= i < marks.len(),
        !marks[i],
    ensures
        unmarked(marks.update(i, true)) == unmarked(marks) - 1,
    decreases marks.len(),
{
    let next = marks.update(i, true);
    if i == marks.len() - 1 {
        assert(next.drop_last() =~= marks.drop_last());
    } else {
        assert(next.drop_last() =~= marks.drop_last().update(i, true));
        marking_counts_down(marks.drop_last(), i);
    }
}

/// Marks that nothing can be added to mark all that is gone.
proof fn closed_marks_are_complete(all: Seq<Place>, at: Reading, marks: Seq<bool>, id: Seq<char>, depth: nat)
    requires
        marks.len() == all.len(),
        forall|i: int|
            0 <= i < all.len() && at.misses(#[trigger] all[i]) ==> marks[i],
        forall|i: int|
            0 <= i < all.len() && (#[trigger] all[i]).parent is Some && marked(
                all,
                marks,
                all[i].parent->0,
            ) ==> marks[i],
        gone_within(all, at, id, depth),
    ensures
        marked(all, marks, id),
    decreases depth,
{
    let i = choose|i: int|
        #![trigger all[i]]
        0 <= i < all.len() && all[i].id == id && (at.misses(all[i]) || (depth > 0
            && all[i].parent is Some && gone_within(
            all,
            at,
            all[i].parent->0,
            (depth - 1) as nat,
        )));
    assert(0 <= i < all.len() && all[i].id == id);
    if !at.misses(all[i]) {
        closed_marks_are_complete(all, at, marks, all[i].parent->0, (depth - 1) as nat);
    }
    assert(marks[i]);
}

fn is_marked(all: &Vec<Placed>, marks: &Vec<bool>, id: &str) -> (r: bool)
    requires
        marks.len() == all.len(),
    ensures
        r == marked(places(all@), marks@, id@),
{
    let mut i: usize = 0;
    while i < all.len()
        invariant
            marks.len() == all.len(),
            i <= all.len(),
            forall|j: int|
                0 <= j < i ==> !(#[trigger] marks@[j] && places(all@)[j].id == id@),
        decreases all.len() - i,
    {
        if marks[i] && same(all[i].id.as_str(), id) {
            proof {
                assert(marks@[i as int] && places(all@)[i as int].id == id@);
            }
            return true;
        }
        i = i + 1;
    }
    false
}

fn is_same_folder(a: &Option<String>, b: Option<&str>) -> (r: bool)
    ensures
        r == (opt(*a) == crate::text::opt_str(b)),
{
    match (a, b) {
        (Some(x), Some(y)) => same(x.as_str(), y),
        (None, None) => true,
        _ => false,
    }
}

/// The recorded nodes that leave a storage space when a folder was read completely and holds the
/// `listed` nodes: those of the folder that were not listed, with everything below them. A node
/// that moved is recorded at its new place before, so that it survives its former folder. Says of
/// each recorded node whether it leaves.
pub fn removed_nodes(all: &Vec<Placed>, folder: Option<&str>, listed: &Vec<String>) -> (r: Vec<bool>)
    ensures
        r@.len() == all@.len(),
        ({
            let at = Reading { folder: crate::text::opt_str(folder), listed: texts(listed@) };
            forall|i: int|
                0 <= i < all@.len() ==> #[trigger] r@[i] == gone(
                    places(all@),
                    at,
                    places(all@)[i].id,
                )
        }),
{
    let ghost tree = places(all@);
    let ghost at = Reading { folder: crate::text::opt_str(folder), listed: texts(listed@) };
    let n: usize = all.len();
    let mut marks: Vec<bool> = Vec::new();
    let mut i: usize = 0;
    while i < n
        invariant
            n == all.len(),
            i <= n,
            marks@.len() == i,
            tree == places(all@),
            at == (Reading { folder: crate::text::opt_str(folder), listed: texts(listed@) }),
            forall|j: int| 0 <= j < i ==> #[trigger] marks@[j] == at.misses(tree[j]),
        decreases n - i,
    {
        let missing = is_same_folder(&all[i].parent, folder) && !has_member(
            listed.as_slice(),
            all[i].id.as_str(),
        );
        marks.push(missing);
        i = i + 1;
    }
    proof {
        assert forall|j: int| 0 <= j < n && #[trigger] marks@[j] implies gone(
            tree,
            at,
            tree[j].id,
        ) by {
            missing_is_gone(tree, at, j);
        }
    }
    let mut changed = true;
    while changed
        invariant
            n == all.len(),
            marks.len() == n,
            tree == places(all@),
            forall|j: int| 0 <= j < n && at.misses(#[trigger] tree[j]) ==> marks@[j],
            forall|j: int| 0 <= j < n && #[trigger] marks@[j] ==> gone(tree, at, tree[j].id),
            !changed ==> forall|j: int|
                0 <= j < n && (#[trigger] tree[j]).parent is Some && marked(
                    tree,
                    marks@,
                    tree[j].parent->0,
                ) ==> marks@[j],
            !changed ==> forall|j: int|
                0 <= j < n && marked(tree, marks@, (#[trigger] tree[j]).id) ==> marks@[j],
        decreases unmarked(marks@), (if changed {
                1int
            } else {
                0int
            }),
    {
        changed = false;
        let mut k: usize = 0;
        let ghost start = marks@;
        while k < n
            invariant
                n == all.len(),
                marks.len() == n,
                k <= n,
                tree == places(all@),
                start.len() == n,
                forall|j: int| 0 <= j < n && at.misses(#[trigger] tree[j]) ==> marks@[j],
                forall|j: int| 0 <= j < n && #[trigger] marks@[j] ==> gone(tree, at, tree[j].id),
                !changed ==> marks@ == start,
                changed ==> unmarked(marks@) < unmarked(start),
                !changed ==> forall|j: int|
                    0 <= j < k && (#[trigger] tree[j]).parent is Some && marked(
                        tree,
                        marks@,
                        tree[j].parent->0,
                    ) ==> marks@[j],
                !changed ==> forall|j: int|
                    0 <= j < k && marked(tree, marks@, (#[trigger] tree[j]).id) ==> marks@[j],
            decreases n - k,
        {
            if !marks[k] {
                let below = match &all[k].parent {
                    Some(p) => is_marked(all, &marks, p.as_str()),
                    None => false,
                };
                if below || is_marked(all, &marks, all[k].id.as_str()) {
                    proof {
                        assert(tree[k as int] == all@[k as int]@);
                        if below {
                            let p = tree[k as int].parent->0;
                            let j = choose|j: int|
                                0 <= j < tree.len() && #[trigger] marks@[j] && tree[j].id == p;
                            assert(gone(tree, at, tree[j].id));
                            below_is_gone(tree, at, k as int);
                        } else {
                            let j = choose|j: int|
                                0 <= j < tree.len() && #[trigger] marks@[j] && tree[j].id
                                    == tree[k as int].id;
                            assert(gone(tree, at, tree[j].id));
                        }
                        marking_counts_down(marks@, k as int);
                    }
                    let ghost before = marks@;
                    marks.set(k, true);
                    changed = true;
                    proof {
                        assert(marks@ =~= before.update(k as int, true));
                    }
                }
            }
            k = k + 1;
        }
    }
    proof {
        assert forall|j: int| 0 <= j < n implies #[trigger] marks@[j] == gone(
            tree,
            at,
            tree[j].id,
        ) by {
            if gone(tree, at, tree[j].id) {
                let depth = choose|depth: nat| gone_within(tree, at, tree[j].id, depth);
                closed_marks_are_complete(tree, at, marks@, tree[j].id, depth);
            }
        }
    }
    marks
}

/// Reading a folder again takes whole subtrees and nothing else: what the folder no longer lists
/// leaves with everything below it, and a node whose folder stays, and that is not missing from
/// the folder that was read, stays. So a child that was promoted survives its former folder.
pub proof fn pruning_takes_whole_subtrees(all: Seq<Place>, at: Reading, i: int)
    requires
        0 <= i < all.len(),
        forall|j: int, k: int|
            0 <= j < k < all.len() ==> (#[trigger] all[j]).id != (#[trigger] all[k]).id,
    ensures
        at.misses(all[i]) ==> gone(all, at, all[i].id),
        all[i].parent is Some && gone(all, at, all[i].parent->0) ==> gone(all, at, all[i].id),
        !at.misses(all[i]) && (all[i].parent is Some ==> !gone(all, at, all[i].parent->0))
            ==> !gone(all, at, all[i].id),
{
    if at.misses(all[i]) {
        missing_is_gone(all, at, i);
    }
    if all[i].parent is Some && gone(all, at, all[i].parent->0) {
        below_is_gone(all, at, i);
    }
    if gone(all, at, all[i].id) {
        gone_for_a_reason(all, at, all[i].id);
        let k = choose|k: int|
            #![trigger all[k]]
            0 <= k < all.len() && all[k].id == all[i].id && (at.misses(all[k]) || (
            all[k].parent is Some && gone(all, at, all[k].parent->0)));
        assert(0 <= k < all.len() && all[k].id == all[i].id);
        assert(k == i);
    }
}

} // verus!
