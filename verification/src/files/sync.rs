//! Bringing what is recorded of a storage space up to date: by the changes that the server
//! reports, or by reading everything again.

use crate::error::{fails, other, says, Result};
use crate::files::jmap::FilePage;
use crate::files::json::{views, Json, Value};
use crate::files::listing::GetReply;
use crate::files::projection::{
    change_steps, gathered, prepares, published_scans_show_what_they_gathered, steps,
    unfinished_scans_are_not_seen, Projection, Step, StoreStep,
};
use crate::files::{nodes, FileNode, Node, Rights};
use crate::text::{has_member, lit, opt, same, texts};
use vstd::prelude::*;
use vstd::string::*;

verus! {

/// A storage space that is recorded.
pub struct RecordedSpace {
    pub id: i64,
    pub remote: String,
}

/// The spaces that the server no longer offers.
pub open spec fn lost(recorded: Seq<RecordedSpace>, available: Seq<Seq<char>>) -> Seq<i64>
    decreases recorded.len(),
{
    if recorded.len() == 0 {
        Seq::empty()
    } else {
        let before = lost(recorded.drop_last(), available);
        if available.contains(recorded.last().remote@) {
            before
        } else {
            before.push(recorded.last().id)
        }
    }
}

/// The spaces that are gone are those that are recorded and that the server offers no more.
pub proof fn gone_spaces_are_offered_no_more(
    recorded: Seq<RecordedSpace>,
    available: Seq<Seq<char>>,
    id: i64,
)
    ensures
        lost(recorded, available).contains(id) <==> exists|i: int|
            0 <= i < recorded.len() && (#[trigger] recorded[i]).id == id && !available.contains(
                recorded[i].remote@,
            ),
    decreases recorded.len(),
{
    if recorded.len() > 0 {
        let head = recorded.drop_last();
        let last = recorded.len() - 1;
        let before = lost(head, available);
        let all = lost(recorded, available);
        gone_spaces_are_offered_no_more(head, available, id);
        assert(recorded[last] == recorded.last());
        if all.contains(id) {
            let k = choose|k: int| 0 <= k < all.len() && all[k] == id;
            if k < before.len() {
                assert(before[k] == id);
                let i = choose|i: int|
                    0 <= i < head.len() && (#[trigger] head[i]).id == id && !available.contains(
                        head[i].remote@,
                    );
                assert(recorded[i] == head[i]);
            }
        }
        if exists|i: int|
            0 <= i < recorded.len() && (#[trigger] recorded[i]).id == id && !available.contains(
                recorded[i].remote@,
            ) {
            let i = choose|i: int|
                0 <= i < recorded.len() && (#[trigger] recorded[i]).id == id && !available.contains(
                    recorded[i].remote@,
                );
            if i < last {
                assert(head[i] == recorded[i]);
                let k = choose|k: int| 0 <= k < before.len() && before[k] == id;
                assert(all[k] == id);
            } else {
                assert(all[all.len() - 1] == id);
            }
        }
    }
}

/// The spaces whose access was revoked. A successful session is authoritative about accessible
/// accounts.
pub fn revoked(recorded: &Vec<RecordedSpace>, available: &Vec<String>) -> (r: Vec<i64>)
    ensures
        r@ == lost(recorded@, texts(available@)),
{
    let mut out: Vec<i64> = Vec::new();
    let mut i: usize = 0;
    proof {
        assert(recorded@.take(0) == Seq::<RecordedSpace>::empty());
    }
    while i < recorded.len()
        invariant
            i <= recorded.len(),
            out@ == lost(recorded@.take(i as int), texts(available@)),
        decreases recorded.len() - i,
    {
        proof {
            assert(recorded@.take(i + 1).drop_last() == recorded@.take(i as int));
            assert(recorded@.take(i + 1).last() == recorded@[i as int]);
        }
        if !has_member(available.as_slice(), recorded[i].remote.as_str()) {
            out.push(recorded[i].id);
        }
        i = i + 1;
    }
    proof {
        assert(recorded@.take(recorded@.len() as int) == recorded@);
    }
    out
}

/// Whether a list of changes is there and empty.
pub open spec fn none_changed(changes: Value, key: Seq<char>) -> bool {
    changes.at(key).items() is Some && changes.at(key).items()->0.len() == 0
}

fn is_empty_at(changes: &Json, key: &str) -> (r: bool)
    ensures
        r == none_changed(changes@, key@),
{
    match changes.list_at(key) {
        Some(list) => list.len() == 0,
        None => false,
    }
}

/// What is done about the changes of a storage space.
#[derive(Clone, Copy, Debug, PartialEq, Eq, Structural)]
pub enum SyncPlan {
    /// Nothing changed.
    Skip,
    /// The changes are complete and can be applied one by one.
    Delta,
    /// The whole space is read again.
    Scan,
}

/// What is done about the changes since the last state.
pub open spec fn plan_for(changes: Value) -> SyncPlan {
    if none_changed(changes, "created"@) && none_changed(changes, "updated"@) && none_changed(
        changes,
        "destroyed"@,
    ) {
        SyncPlan::Skip
    } else if changes.at("hasMoreChanges"@).bool() == Some(false) {
        SyncPlan::Delta
    } else {
        SyncPlan::Scan
    }
}

/// What is done about a storage space: without a state or an answer it is read again.
pub fn plan(changes: Option<&Json>) -> (r: SyncPlan)
    ensures
        r == (match changes {
            Some(c) => plan_for(c@),
            None => SyncPlan::Scan,
        }),
        changes is None ==> r == SyncPlan::Scan,
        changes matches Some(c) ==> (r == SyncPlan::Skip <==> c@.at("created"@) == Value::List(
            Seq::empty(),
        ) && c@.at("updated"@) == Value::List(Seq::empty()) && c@.at("destroyed"@) == Value::List(
            Seq::empty(),
        )),
        r == SyncPlan::Delta ==> changes is Some && changes->0@.at("hasMoreChanges"@)
            == Value::Bool(false),
        changes is Some && changes->0@.at("hasMoreChanges"@) == Value::Bool(false) ==> r
            != SyncPlan::Scan,
{
    proof {
        assert forall|v: Value, key: Seq<char>| #[trigger] none_changed(v, key) <==> v.at(key)
            == Value::List(Seq::empty()) by {
            if none_changed(v, key) {
                assert(v.at(key)->List_0 =~= Seq::<Value>::empty());
            }
        }
    }
    let changes = match changes {
        Some(c) => c,
        None => {
            return SyncPlan::Scan;
        },
    };
    if is_empty_at(changes, "created") && is_empty_at(changes, "updated") && is_empty_at(
        changes,
        "destroyed",
    ) {
        return SyncPlan::Skip;
    }
    match changes.bool_at("hasMoreChanges") {
        Some(more) => if more {
            SyncPlan::Scan
        } else {
            SyncPlan::Delta
        },
        None => SyncPlan::Scan,
    }
}

/// A scan of a whole storage space, page by page.
pub struct Scan {
    pub position: usize,
    pub state: Option<String>,
    pub query: Option<String>,
    /// Whether the last page was taken.
    pub complete: bool,
}

/// The steps of a page: it is staged, and with the last one everything is published.
pub open spec fn page_steps(list: Seq<Node>, state: Seq<char>, last: bool) -> Seq<Step> {
    if last {
        seq![Step::Stage(list), Step::Publish(Some(state))]
    } else {
        seq![Step::Stage(list)]
    }
}

impl Scan {
    /// Begin a scan; what an earlier one staged is discarded.
    pub fn begin() -> (r: (Scan, StoreStep))
        ensures
            r.0.position == 0,
            r.0.state is None,
            r.0.query is None,
            !r.0.complete,
            r.1 is Discard,
    {
        (Scan { position: 0, state: None, query: None, complete: false }, StoreStep::Discard)
    }

    /// Take a page: what is to be done with it, and whether the scan goes on from there. Every
    /// page must show the same state of the storage, and the pages must get on; a page that does
    /// not get on is staged like the others before it ends the scan.
    pub fn page(&mut self, page: FilePage) -> (r: (Vec<StoreStep>, Result<()>))
        ensures
            ({
                let moved = (old(self).state is Some && old(self).state->0@ != page.state@) || (old(
                    self).query is Some && old(self).query->0@ != page.query_state@);
                if moved {
                    fails(
                        r.1,
                        "Storage changed during synchronization; the last complete cache was preserved."@,
                    ) && r.0@.len() == 0 && *final(self) == *old(self)
                } else {
                    &&& opt(final(self).state) == Some(page.state@)
                    &&& opt(final(self).query) == Some(page.query_state@)
                    &&& steps(r.0@) == page_steps(
                        nodes(page.nodes@),
                        page.state@,
                        page.next_position is None,
                    )
                    &&& match page.next_position {
                        Some(next) if next <= old(self).position => fails(
                            r.1,
                            "Invalid file pagination."@,
                        ) && final(self).position == old(self).position && final(self).complete
                            == old(self).complete,
                        next => {
                            &&& r.1 is Ok
                            &&& final(self).complete == (next is None)
                            &&& final(self).position == (if next is Some {
                                next->0
                            } else {
                                old(self).position
                            })
                        },
                    }
                }
            }),
    {
        let same_state = match &self.state {
            Some(s) => same(s.as_str(), page.state.as_str()),
            None => true,
        };
        let same_query = match &self.query {
            Some(s) => same(s.as_str(), page.query_state.as_str()),
            None => true,
        };
        let mut out: Vec<StoreStep> = Vec::new();
        if !same_state || !same_query {
            return (
                out,
                Err(
                    other(
                        "Storage changed during synchronization; the last complete cache was preserved.",
                    ),
                ),
            );
        }
        self.state = Some(page.state.clone());
        self.query = Some(page.query_state.clone());
        let ghost list = nodes(page.nodes@);
        out.push(StoreStep::Stage(page.nodes));
        let mut result: Result<()> = Ok(());
        match page.next_position {
            Some(next) => {
                if next <= self.position {
                    result = Err(other("Invalid file pagination."));
                } else {
                    self.position = next;
                    self.complete = false;
                }
            },
            None => {
                self.complete = true;
                out.push(StoreStep::Publish(Some(page.state.clone())));
            },
        }
        proof {
            assert(steps(out@) =~= page_steps(list, page.state@, page.next_position is None));
        }
        (out, result)
    }
}

/// The steps of pages that more pages follow.
pub open spec fn staged_pages(pages: Seq<Seq<Node>>) -> Seq<Step> {
    pages.map_values(|list: Seq<Node>| Step::Stage(list))
}

/// A scan is seen whole or not at all: until the last page was taken readers see what they saw
/// before, and with it they see exactly what all its pages hold, in the state that every page
/// showed.
pub proof fn scans_are_seen_whole(p: Projection, pages: Seq<Seq<Node>>, state: Seq<char>, k: int)
    requires
        0 <= k < pages.len(),
    ensures
        p.ran(seq![Step::Discard] + staged_pages(pages.take(k))).seen() == p.seen(),
        ({
            let after = p.ran(
                seq![Step::Discard] + staged_pages(pages.drop_last()) + page_steps(
                    pages.last(),
                    state,
                    true,
                ),
            );
            &&& after.tree == gathered(staged_pages(pages)).staged
            &&& after.state == Some(state)
        }),
{
    let begun = seq![Step::Discard] + staged_pages(pages.take(k));
    assert forall|i: int| 0 <= i < begun.len() implies prepares(#[trigger] begun[i]) by {
        if i > 0 {
            assert(begun[i] == staged_pages(pages.take(k))[i - 1]);
        }
    }
    unfinished_scans_are_not_seen(p, begun);
    let all = staged_pages(pages);
    assert forall|i: int| 0 <= i < all.len() implies prepares(#[trigger] all[i]) by {}
    published_scans_show_what_they_gathered(p, all, Some(state));
    assert(seq![Step::Discard] + staged_pages(pages.drop_last()) + page_steps(
        pages.last(),
        state,
        true,
    ) =~= seq![Step::Discard] + all + seq![Step::Publish(Some(state))]);
}

/// The texts among the items of a list.
pub open spec fn texts_in(items: Seq<Value>) -> Seq<Seq<char>>
    decreases items.len(),
{
    if items.len() == 0 {
        Seq::empty()
    } else {
        let before = texts_in(items.drop_last());
        match items.last().text() {
            Some(s) => before.push(s),
            None => before,
        }
    }
}

/// The texts of a field that is a list.
pub open spec fn texts_at(v: Value, key: Seq<char>) -> Seq<Seq<char>> {
    match v.at(key).items() {
        Some(items) => texts_in(items),
        None => Seq::empty(),
    }
}

fn read_texts(v: &Json, key: &str) -> (r: Vec<String>)
    ensures
        texts(r@) == texts_at(v@, key@),
{
    let mut out: Vec<String> = Vec::new();
    proof {
        assert(texts(out@) =~= Seq::<Seq<char>>::empty());
    }
    match v.list_at(key) {
        Some(items) => {
            let ghost all = views(items@);
            let mut i: usize = 0;
            proof {
                assert(all.take(0) == Seq::<Value>::empty());
            }
            while i < items.len()
                invariant
                    i <= items.len(),
                    all == views(items@),
                    texts(out@) == texts_in(all.take(i as int)),
                decreases items.len() - i,
            {
                proof {
                    assert(all.take(i + 1).drop_last() == all.take(i as int));
                    assert(all.take(i + 1).last() == items@[i as int]@);
                }
                match items[i].as_text() {
                    Some(s) => {
                        let ghost before = texts(out@);
                        out.push(lit(s));
                        proof {
                            assert(texts(out@) =~= before.push(s@));
                        }
                    },
                    None => {},
                }
                i = i + 1;
            }
            proof {
                assert(all.take(all.len() as int) == all);
            }
        },
        None => {},
    }
    out
}

/// Changes of a storage space that are applied one by one.
pub struct Delta {
    /// The state that the changes lead to.
    pub state: String,
    /// The nodes to read again.
    pub changed: Vec<String>,
    /// The nodes that are gone.
    pub destroyed: Vec<String>,
    /// The nodes that were read.
    pub nodes: Vec<FileNode>,
}

/// Begin with changes; `None` where they lead to no state, and the space must be read again.
pub fn begin_delta(changes: &Json) -> (r: Option<Delta>)
    ensures
        match changes@.at("newState"@).text() {
            None => r is None,
            Some(state) => {
                &&& r is Some
                &&& r->0.state@ == state
                &&& texts(r->0.changed@) == texts_at(changes@, "created"@) + texts_at(
                    changes@,
                    "updated"@,
                )
                &&& texts(r->0.destroyed@) == texts_at(changes@, "destroyed"@)
                &&& r->0.nodes@.len() == 0
            },
        },
{
    let state = match changes.text_at("newState") {
        Some(s) => lit(s),
        None => {
            return None;
        },
    };
    let mut changed = read_texts(changes, "created");
    let mut updated = read_texts(changes, "updated");
    let ghost a = changed@;
    let ghost b = updated@;
    changed.append(&mut updated);
    proof {
        assert(texts(changed@) =~= texts(a) + texts(b));
    }
    Some(Delta { state, changed, destroyed: read_texts(changes, "destroyed"), nodes: Vec::new() })
}

impl Delta {
    /// Whether an answer about a changed node can be applied: it comes from the state that the
    /// changes lead to, the node is there, and it is no folder, whose sharing affects everything
    /// below it.
    pub fn accepts(&self, reply: &GetReply) -> (r: bool)
        ensures
            r == (opt(reply.state) == Some(self.state@) && reply.list@.len() > 0
                && !reply.list@[0]@.directory()),
    {
        let current = match &reply.state {
            Some(s) => same(s.as_str(), self.state.as_str()),
            None => false,
        };
        current && reply.list.len() > 0 && !reply.list[0].is_directory()
    }

    /// Take a changed node with the rights that it inherits.
    pub fn take(&mut self, n: FileNode, rights: Rights)
        ensures
            nodes(final(self).nodes@) == nodes(old(self).nodes@).push(
                Node { my_rights: rights, ..n@ },
            ),
            *final(self) == (Delta { nodes: final(self).nodes, ..*old(self) }),
    {
        let mut n = n;
        n.my_rights = rights;
        let ghost before = nodes(self.nodes@);
        self.nodes.push(n);
        proof {
            assert(nodes(self.nodes@) =~= before.push(n@));
        }
    }
}

impl Delta {
    /// The steps that apply the changes.
    pub fn steps(self) -> (r: Vec<StoreStep>)
        ensures
            steps(r@) == change_steps(texts(self.destroyed@), nodes(self.nodes@), self.state@),
    {
        let ghost gone = texts(self.destroyed@);
        let ghost changed = nodes(self.nodes@);
        let ghost removals = gone.map_values(|id: Seq<char>| Step::Remove(id));
        let ghost records = changed.map_values(|n: Node| Step::Record(n));
        let mut out: Vec<StoreStep> = Vec::new();
        let Delta { state, changed: _, destroyed, nodes: list } = self;
        let ghost given = destroyed@;
        for id in it: destroyed
            invariant
                it.seq() == given,
                gone == texts(given),
                removals == gone.map_values(|id: Seq<char>| Step::Remove(id)),
                steps(out@) == removals.take(it.index()),
        {
            let ghost before = steps(out@);
            let ghost named = id@;
            out.push(StoreStep::Remove(id));
            proof {
                assert(removals[it.index()] == Step::Remove(named));
                assert(steps(out@) =~= before.push(Step::Remove(named)));
                assert(removals.take(it.index() + 1) =~= removals.take(it.index()).push(
                    removals[it.index()],
                ));
            }
        }
        proof {
            assert(removals.take(removals.len() as int) =~= removals);
            assert(removals + records.take(0) =~= removals);
        }
        let ghost read = list@;
        for n in it: list
            invariant
                it.seq() == read,
                changed == nodes(read),
                records == changed.map_values(|n: Node| Step::Record(n)),
                steps(out@) == removals + records.take(it.index()),
        {
            let ghost before = steps(out@);
            let ghost seen = n@;
            out.push(StoreStep::Record(n));
            proof {
                assert(records[it.index()] == Step::Record(seen));
                assert(steps(out@) =~= before.push(Step::Record(seen)));
                assert(removals + records.take(it.index() + 1) =~= (removals + records.take(
                    it.index(),
                )).push(records[it.index()]));
            }
        }
        let ghost before = steps(out@);
        let ghost reached = state@;
        out.push(StoreStep::Reach(state));
        proof {
            assert(records.take(records.len() as int) =~= records);
            assert(steps(out@) =~= before.push(Step::Reach(reached)));
            assert(steps(out@) =~= change_steps(gone, changed, reached));
        }
        out
    }
}

/// Whether changes name what is gone.
pub fn check_destroyed(changes: &Json) -> (r: Result<()>)
    ensures
        r is Ok <==> changes@.at("destroyed"@).items() is Some,
        r matches Err(e) ==> says(e, "Invalid file changes."@),
{
    match changes.list_at("destroyed") {
        Some(_) => Ok(()),
        None => Err(other("Invalid file changes.")),
    }
}

/// Whether nodes that are gone can be taken out one by one: none of those that are recorded is a
/// folder.
pub fn can_remove(recorded: &Vec<FileNode>) -> (r: bool)
    ensures
        r == forall|i: int|
            0 <= i < recorded@.len() ==> !(#[trigger] nodes(recorded@)[i]).directory(),
{
    let mut i: usize = 0;
    while i < recorded.len()
        invariant
            i <= recorded.len(),
            forall|j: int| 0 <= j < i ==> !(#[trigger] nodes(recorded@)[j]).directory(),
        decreases recorded.len() - i,
    {
        if recorded[i].is_directory() {
            proof {
                assert(nodes(recorded@)[i as int].directory());
            }
            return false;
        }
        i = i + 1;
    }
    true
}

/// The deepest folder that a walk enters.
pub const MAX_WALK_DEPTH: usize = 64;

/// A folder that a walk has still to enter.
pub struct Pending {
    pub url: String,
    pub parent: Option<String>,
    pub depth: usize,
}

/// The model of a [`Pending`].
pub struct Stop {
    pub url: Seq<char>,
    pub parent: Option<Seq<char>>,
    pub depth: int,
}

impl View for Pending {
    type V = Stop;

    open spec fn view(&self) -> Stop {
        Stop { url: self.url@, parent: opt(self.parent), depth: self.depth as int }
    }
}

/// The models of a list of folders.
pub open spec fn stops(v: Seq<Pending>) -> Seq<Stop> {
    v.map_values(|p: Pending| p@)
}

/// A walk through the folders of a WebDAV storage, level by level.
pub struct Walk {
    pub pending: Vec<Pending>,
    pub visited: Vec<String>,
}

/// A node as it stands below a folder.
pub open spec fn below(parent: Option<Seq<char>>, n: Node) -> Node {
    Node { parent_id: parent, ..n }
}

/// The folders among the nodes of a folder at that depth.
pub open spec fn stops_below(list: Seq<Node>, depth: int) -> Seq<Stop>
    decreases list.len(),
{
    if list.len() == 0 {
        Seq::empty()
    } else {
        let before = stops_below(list.drop_last(), depth);
        if list.last().directory() {
            before.push(Stop { url: list.last().id, parent: Some(list.last().id), depth: depth + 1 })
        } else {
            before
        }
    }
}

impl Walk {
    pub open spec fn wf(self) -> bool {
        forall|i: int|
            0 <= i < self.pending@.len() ==> 0 <= (#[trigger] stops(self.pending@)[i]).depth
                <= MAX_WALK_DEPTH + 1
    }

    /// Begin a walk; what an earlier scan staged is discarded.
    pub fn begin(root: &str) -> (r: (Walk, StoreStep))
        ensures
            stops(r.0.pending@) == seq![Stop { url: root@, parent: None, depth: 0 }],
            r.0.visited@.len() == 0,
            r.0.wf(),
            r.1 is Discard,
    {
        let pending = vec![Pending { url: lit(root), parent: None, depth: 0 }];
        proof {
            assert(stops(pending@) =~= seq![Stop { url: root@, parent: None, depth: 0 }]);
        }
        (Walk { pending, visited: Vec::new() }, StoreStep::Discard)
    }

    /// The next folder to enter; `None` at the end. No folder is entered twice, nor one that lies
    /// too deep.
    pub fn next(&mut self) -> (r: Result<Option<Pending>>)
        requires
            old(self).wf(),
        ensures
            ({
                let list = stops(old(self).pending@);
                if list.len() == 0 {
                    r matches Ok(None) && *final(self) == *old(self)
                } else if list[0].depth > MAX_WALK_DEPTH || texts(old(self).visited@).contains(
                    list[0].url,
                ) {
                    fails(r, "Invalid WebDAV folder hierarchy."@)
                } else {
                    &&& r is Ok
                    &&& r->Ok_0 is Some
                    &&& r->Ok_0->0@ == list[0]
                    &&& stops(final(self).pending@) == list.skip(1)
                    &&& texts(final(self).visited@) == texts(old(self).visited@).push(list[0].url)
                }
            }),
            final(self).wf(),
    {
        let ghost list = stops(self.pending@);
        if self.pending.len() == 0 {
            return Ok(None);
        }
        let first = self.pending.remove(0);
        proof {
            assert(list[0] == first@);
            assert(stops(self.pending@) =~= list.skip(1));
            assert forall|i: int| 0 <= i < self.pending@.len() implies 0 <= (#[trigger] stops(
                self.pending@,
            )[i]).depth <= MAX_WALK_DEPTH + 1 by {
                assert(stops(self.pending@)[i] == list[i + 1]);
            }
        }
        if first.depth > MAX_WALK_DEPTH || has_member(self.visited.as_slice(), first.url.as_str()) {
            return Err(other("Invalid WebDAV folder hierarchy."));
        }
        let ghost before = texts(self.visited@);
        self.visited.push(first.url.clone());
        proof {
            assert(texts(self.visited@) =~= before.push(first.url@));
        }
        Ok(Some(first))
    }

    /// Take what a folder holds with its cursor, and what is to be done with it: every node gets
    /// the folder as its parent, and the folders among them are entered later.
    pub fn found(&mut self, at: &Pending, list: Vec<FileNode>, token: Option<String>) -> (r: Vec<
        StoreStep,
    >)
        requires
            old(self).wf(),
            at.depth <= MAX_WALK_DEPTH,
        ensures
            steps(r@) == folder_steps(at@, nodes(list@), opt(token)),
            stops(final(self).pending@) == stops(old(self).pending@) + stops_below(
                nodes(list@),
                at@.depth,
            ),
            final(self).visited == old(self).visited,
            final(self).wf(),
    {
        let ghost given = list@;
        let ghost all = nodes(list@);
        let ghost start = stops(self.pending@);
        let mut out: Vec<FileNode> = Vec::new();
        proof {
            assert(all.take(0) == Seq::<Node>::empty());
            assert(start + stops_below(all.take(0), at@.depth) =~= start);
            assert(nodes(out@) =~= all.take(0).map_values(|n: Node| below(at@.parent, n)));
        }
        for n in it: list
            invariant
                it.seq() == given,
                all == nodes(given),
                self.wf(),
                self.visited == old(self).visited,
                at.depth <= MAX_WALK_DEPTH,
                nodes(out@) == all.take(it.index()).map_values(|n: Node| below(at@.parent, n)),
                stops(self.pending@) == start + stops_below(all.take(it.index()), at@.depth),
        {
            let mut n = n;
            proof {
                assert(all.take(it.index() + 1).drop_last() == all.take(it.index()));
                assert(all.take(it.index() + 1).last() == n@);
            }
            let ghost original = n@;
            n.parent_id = at.parent.clone();
            if n.is_directory() {
                let ghost before = stops(self.pending@);
                let ghost held = self.pending@;
                let p = Pending {
                    url: n.id.clone(),
                    parent: Some(n.id.clone()),
                    depth: at.depth + 1,
                };
                self.pending.push(p);
                proof {
                    assert(stops(self.pending@) =~= before.push(p@));
                    assert(stops(self.pending@) =~= start + (stops_below(
                        all.take(it.index()),
                        at@.depth,
                    ).push(p@)));
                    assert forall|i: int| 0 <= i < self.pending@.len() implies 0 <= (
                    #[trigger] stops(self.pending@)[i]).depth <= MAX_WALK_DEPTH + 1 by {
                        if i < held.len() {
                            assert(stops(self.pending@)[i] == stops(held)[i]);
                        }
                    }
                }
            }
            let ghost before = nodes(out@);
            out.push(n);
            proof {
                assert(n@ == below(at@.parent, original));
                assert(nodes(out@) =~= before.push(n@));
                assert(all.take(it.index() + 1) =~= all.take(it.index()).push(original));
                assert(nodes(out@) =~= all.take(it.index() + 1).map_values(
                    |n: Node| below(at@.parent, n),
                ));
            }
        }
        proof {
            assert(all.take(all.len() as int) == all);
        }
        let key = match &at.parent {
            Some(id) => id.clone(),
            None => String::new(),
        };
        let ghost read = nodes(out@);
        let ghost cursor = opt(token);
        let done = vec![StoreStep::Stage(out), StoreStep::Listed(key, token)];
        proof {
            assert(key@ =~= folder_key(at@));
            assert(steps(done@) =~= seq![Step::Stage(read), Step::Listed(key@, cursor)]);
        }
        done
    }

    /// Everything was walked: it is published.
    pub fn finish(self) -> (r: StoreStep)
        ensures
            r@ == Step::Publish(None),
    {
        StoreStep::Publish(None)
    }
}

/// The key under which the cursor of a folder is kept.
pub open spec fn folder_key(at: Stop) -> Seq<char> {
    match at.parent {
        Some(id) => id,
        None => Seq::empty(),
    }
}

/// The steps of a folder: what it holds is staged, and its cursor.
pub open spec fn folder_steps(at: Stop, list: Seq<Node>, token: Option<Seq<char>>) -> Seq<Step> {
    seq![
        Step::Stage(list.map_values(|n: Node| below(at.parent, n))),
        Step::Listed(folder_key(at), token),
    ]
}

/// Whether a recorded listing of a folder can be used again: the server reported no change since
/// its token. The token to record is then the new one.
pub fn reuse_listing(report: Option<(bool, String)>) -> (r: Option<String>)
    ensures
        match report {
            Some((changed, token)) => if changed {
                r is None
            } else {
                r == Some(token)
            },
            None => r is None,
        },
{
    match report {
        Some((changed, token)) => if changed {
            None
        } else {
            Some(token)
        },
        None => None,
    }
}

} // verus!
