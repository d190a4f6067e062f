//! What is recorded of a storage space, and the steps in which it is brought up to date. A scan
//! stages what it reads; only publishing touches what readers see, and it replaces the tree and
//! its cursors together.

use crate::files::{nodes, FileNode, Node};
use crate::text::opt;
use vstd::prelude::*;
use vstd::string::*;

verus! {

/// A step on what is recorded of a storage space. The steps that one call hands out are taken
/// together or not at all.
pub enum StoreStep {
    /// Forget what an earlier scan staged.
    Discard,
    /// Stage nodes, each in place of what is staged under its id.
    Stage(Vec<FileNode>),
    /// Stage the cursor of a folder, by its id; the root has an empty one.
    Listed(String, Option<String>),
    /// Show exactly what is staged, with its cursors and a state of the whole, and stage nothing.
    Publish(Option<String>),
    /// Take a node out.
    Remove(String),
    /// Record a node in place of what is recorded under its id.
    Record(FileNode),
    /// Record the state that the space has reached.
    Reach(String),
}

/// The model of a [`StoreStep`].
pub enum Step {
    Discard,
    Stage(Seq<Node>),
    Listed(Seq<char>, Option<Seq<char>>),
    Publish(Option<Seq<char>>),
    Remove(Seq<char>),
    Record(Node),
    Reach(Seq<char>),
}

impl View for StoreStep {
    type V = Step;

    open spec fn view(&self) -> Step {
        match self {
            StoreStep::Discard => Step::Discard,
            StoreStep::Stage(list) => Step::Stage(nodes(list@)),
            StoreStep::Listed(id, token) => Step::Listed(id@, opt(*token)),
            StoreStep::Publish(state) => Step::Publish(opt(*state)),
            StoreStep::Remove(id) => Step::Remove(id@),
            StoreStep::Record(n) => Step::Record(n@),
            StoreStep::Reach(state) => Step::Reach(state@),
        }
    }
}

/// The models of a list of steps.
pub open spec fn steps(v: Seq<StoreStep>) -> Seq<Step> {
    v.map_values(|s: StoreStep| s@)
}

/// What is recorded of a storage space: the nodes that readers see with the state of the whole and
/// the cursors of the folders, and what a scan has staged so far.
#[verifier::ext_equal]
pub struct Projection {
    pub tree: Map<Seq<char>, Node>,
    pub state: Option<Seq<char>>,
    pub cursors: Map<Seq<char>, Option<Seq<char>>>,
    pub staged: Map<Seq<char>, Node>,
    pub staged_cursors: Map<Seq<char>, Option<Seq<char>>>,
}

/// Nodes by their ids, each in place of what stood there.
pub open spec fn put_all(m: Map<Seq<char>, Node>, list: Seq<Node>) -> Map<Seq<char>, Node>
    decreases list.len(),
{
    if list.len() == 0 {
        m
    } else {
        put_all(m, list.drop_last()).insert(list.last().id, list.last())
    }
}

impl Projection {
    /// What a step makes of what is recorded.
    pub open spec fn stepped(self, step: Step) -> Projection {
        match step {
            Step::Discard => Projection {
                staged: Map::empty(),
                staged_cursors: Map::empty(),
                ..self
            },
            Step::Stage(list) => Projection { staged: put_all(self.staged, list), ..self },
            Step::Listed(id, token) => Projection {
                staged_cursors: self.staged_cursors.insert(id, token),
                ..self
            },
            Step::Publish(state) => Projection {
                tree: self.staged,
                state,
                cursors: self.staged_cursors,
                staged: Map::empty(),
                staged_cursors: Map::empty(),
            },
            Step::Remove(id) => Projection { tree: self.tree.remove(id), ..self },
            Step::Record(n) => Projection { tree: self.tree.insert(n.id, n), ..self },
            Step::Reach(state) => Projection { state: Some(state), ..self },
        }
    }

    /// What steps make of what is recorded, one after the other.
    pub open spec fn ran(self, list: Seq<Step>) -> Projection
        decreases list.len(),
    {
        if list.len() == 0 {
            self
        } else {
            self.ran(list.drop_last()).stepped(list.last())
        }
    }

    /// What readers see: the tree, its state and its cursors.
    pub open spec fn seen(self) -> (
        Map<Seq<char>, Node>,
        Option<Seq<char>>,
        Map<Seq<char>, Option<Seq<char>>>,
    ) {
        (self.tree, self.state, self.cursors)
    }
}

/// Whether a step only prepares what is published later.
pub open spec fn prepares(step: Step) -> bool {
    step is Discard || step is Stage || step is Listed
}

/// Readers keep the last good tree and its cursors throughout a scan, and for good where the scan
/// fails: whatever it staged until then, what they see is what was published before.
pub proof fn unfinished_scans_are_not_seen(p: Projection, list: Seq<Step>)
    requires
        forall|i: int| 0 <= i < list.len() ==> prepares(#[trigger] list[i]),
    ensures
        p.ran(list).seen() == p.seen(),
    decreases list.len(),
{
    if list.len() > 0 {
        unfinished_scans_are_not_seen(p, list.drop_last());
        assert(prepares(list[list.len() - 1]));
    }
}

proof fn runs_join(p: Projection, first: Seq<Step>, second: Seq<Step>)
    ensures
        p.ran(first + second) == p.ran(first).ran(second),
    decreases second.len(),
{
    if second.len() == 0 {
        assert(first + second =~= first);
    } else {
        runs_join(p, first, second.drop_last());
        assert((first + second).drop_last() =~= first + second.drop_last());
        assert((first + second).last() == second.last());
    }
}

/// What a scan gathers, begun afresh.
pub open spec fn gathered(list: Seq<Step>) -> Projection {
    Projection {
        tree: Map::empty(),
        state: None,
        cursors: Map::empty(),
        staged: Map::empty(),
        staged_cursors: Map::empty(),
    }.ran(list)
}

proof fn staging_forgets_the_tree(p: Projection, q: Projection, list: Seq<Step>)
    requires
        p.staged == q.staged,
        p.staged_cursors == q.staged_cursors,
        forall|i: int| 0 <= i < list.len() ==> prepares(#[trigger] list[i]),
    ensures
        p.ran(list).staged == q.ran(list).staged,
        p.ran(list).staged_cursors == q.ran(list).staged_cursors,
    decreases list.len(),
{
    if list.len() > 0 {
        staging_forgets_the_tree(p, q, list.drop_last());
        assert(prepares(list[list.len() - 1]));
    }
}

/// A scan that is published shows what it gathered, all of it and nothing else, together with its
/// state: neither an older tree nor what an interrupted scan left behind plays a part.
pub proof fn published_scans_show_what_they_gathered(
    p: Projection,
    list: Seq<Step>,
    state: Option<Seq<char>>,
)
    requires
        forall|i: int| 0 <= i < list.len() ==> prepares(#[trigger] list[i]),
    ensures
        ({
            let after = p.ran(seq![Step::Discard] + list + seq![Step::Publish(state)]);
            &&& after.tree == gathered(list).staged
            &&& after.cursors == gathered(list).staged_cursors
            &&& after.state == state
            &&& after.staged == Map::<Seq<char>, Node>::empty()
        }),
{
    let first = seq![Step::Discard];
    let whole = first + list + seq![Step::Publish(state)];
    assert(whole.drop_last() =~= first + list);
    runs_join(p, first, list);
    assert(first.drop_last() =~= Seq::<Step>::empty());
    let begun = p.ran(first);
    assert(begun == p.stepped(Step::Discard)) by {
        reveal_with_fuel(Projection::ran, 2);
    }
    let fresh = gathered(Seq::empty());
    staging_forgets_the_tree(begun, fresh, list);
}

/// The steps of changes: what is gone is taken out, what changed is recorded, and the state is
/// reached.
pub open spec fn change_steps(gone: Seq<Seq<char>>, changed: Seq<Node>, state: Seq<char>) -> Seq<
    Step,
> {
    gone.map_values(|id: Seq<char>| Step::Remove(id)) + changed.map_values(
        |n: Node| Step::Record(n),
    ) + seq![Step::Reach(state)]
}

proof fn removals_take_out(p: Projection, gone: Seq<Seq<char>>)
    ensures
        ({
            let after = p.ran(gone.map_values(|id: Seq<char>| Step::Remove(id)));
            &&& after == (Projection { tree: after.tree, ..p })
            &&& forall|id: Seq<char>| #[trigger]
                after.tree.dom().contains(id) <==> p.tree.dom().contains(id) && !gone.contains(id)
            &&& forall|id: Seq<char>|
                after.tree.dom().contains(id) ==> #[trigger] after.tree[id] == p.tree[id]
        }),
    decreases gone.len(),
{
    let list = gone.map_values(|id: Seq<char>| Step::Remove(id));
    if gone.len() > 0 {
        let rest = gone.drop_last();
        removals_take_out(p, rest);
        assert(list.drop_last() =~= rest.map_values(|id: Seq<char>| Step::Remove(id)));
        assert(list.last() == Step::Remove(gone.last()));
        assert forall|id: Seq<char>| #[trigger] gone.contains(id) <==> rest.contains(id) || id
            == gone.last() by {
            if gone.contains(id) {
                let k = choose|k: int| 0 <= k < gone.len() && gone[k] == id;
                if k < rest.len() {
                    assert(rest[k] == id);
                }
            }
            if rest.contains(id) {
                let k = choose|k: int| 0 <= k < rest.len() && rest[k] == id;
                assert(gone[k] == id);
            }
            if id == gone.last() {
                assert(gone[gone.len() - 1] == id);
            }
        }
    }
}

proof fn records_put(p: Projection, changed: Seq<Node>)
    ensures
        p.ran(changed.map_values(|n: Node| Step::Record(n))) == (Projection {
            tree: put_all(p.tree, changed),
            ..p
        }),
    decreases changed.len(),
{
    let list = changed.map_values(|n: Node| Step::Record(n));
    if changed.len() > 0 {
        records_put(p, changed.drop_last());
        assert(list.drop_last() =~= changed.drop_last().map_values(|n: Node| Step::Record(n)));
        assert(list.last() == Step::Record(changed.last()));
    }
}

proof fn putting_leaves_others(m: Map<Seq<char>, Node>, list: Seq<Node>, id: Seq<char>)
    ensures
        put_all(m, list).dom().contains(id) <==> m.dom().contains(id) || exists|i: int|
            0 <= i < list.len() && (#[trigger] list[i]).id == id,
        (forall|i: int| 0 <= i < list.len() ==> (#[trigger] list[i]).id != id) ==> put_all(
            m,
            list,
        )[id] == m[id],
        (exists|i: int| 0 <= i < list.len() && (#[trigger] list[i]).id == id) ==> list.contains(
            put_all(m, list)[id],
        ) && put_all(m, list)[id].id == id,
    decreases list.len(),
{
    if list.len() > 0 {
        let rest = list.drop_last();
        putting_leaves_others(m, rest, id);
        assert(list[list.len() - 1] == list.last());
        assert forall|i: int| 0 <= i < rest.len() implies #[trigger] rest[i] == list[i] by {}
        if list.last().id == id {
            assert(list.contains(list.last()));
        } else {
            if exists|i: int| 0 <= i < list.len() && (#[trigger] list[i]).id == id {
                let i = choose|i: int| 0 <= i < list.len() && (#[trigger] list[i]).id == id;
                assert(rest[i].id == id);
                let k = choose|k: int| 0 <= k < rest.len() && rest[k] == put_all(m, rest)[id];
                assert(list[k] == put_all(m, list)[id]);
            }
        }
    }
}

/// Changes touch what changed and nothing else: a changed node is seen as it was read, one that is
/// gone is not seen any more, every other node is seen as before, and the state is the one that
/// the changes lead to. A scan under way is left alone.
pub proof fn changes_touch_only_what_changed(
    p: Projection,
    gone: Seq<Seq<char>>,
    changed: Seq<Node>,
    state: Seq<char>,
    id: Seq<char>,
)
    ensures
        ({
            let after = p.ran(change_steps(gone, changed, state));
            let was_read = exists|i: int|
                0 <= i < changed.len() && (#[trigger] changed[i]).id == id;
            &&& after.state == Some(state)
            &&& after.cursors == p.cursors
            &&& after.staged == p.staged
            &&& after.staged_cursors == p.staged_cursors
            &&& was_read ==> after.tree.dom().contains(id) && changed.contains(after.tree[id])
                && after.tree[id].id == id
            &&& !was_read && gone.contains(id) ==> !after.tree.dom().contains(id)
            &&& !was_read && !gone.contains(id) ==> after.tree.dom().contains(id)
                == p.tree.dom().contains(id) && (p.tree.dom().contains(id) ==> after.tree[id]
                == p.tree[id])
        }),
{
    let removals = gone.map_values(|id: Seq<char>| Step::Remove(id));
    let records = changed.map_values(|n: Node| Step::Record(n));
    let whole = change_steps(gone, changed, state);
    assert(whole.drop_last() =~= removals + records);
    assert(whole.last() == Step::Reach(state));
    runs_join(p, removals, records);
    removals_take_out(p, gone);
    records_put(p.ran(removals), changed);
    putting_leaves_others(p.ran(removals).tree, changed, id);
}

} // verus!
