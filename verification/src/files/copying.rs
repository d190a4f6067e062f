//! Copies within a storage space and between two of them.

use crate::error::{fails, other, says, Result};
use crate::files::changes::{destination_ruling, policy_name, Grant, Verdict};
use crate::files::jmap::{find_space, has_space, spaces, FileClient, FilePage, CORE};
use crate::files::json::{Json, Value};
use crate::files::listing::{with_some, GetReply};
use crate::files::{nodes, CollisionPolicy, FileNode, Node};
use crate::text::{decimal, has_member, lit, opt, opt_str, same, texts, u64_text};
use vstd::prelude::*;
use vstd::string::*;

verus! {

/// What a user is told where the storage moved on while a copy was gathered.
pub open spec fn moved_on() -> Seq<char> {
    "Storage changed. Refresh before copying."@
}

/// A copy in the making: the nodes to copy, the source first, each folder before its children.
pub struct CopyPlan {
    pub nodes: Vec<FileNode>,
    /// The node whose children are listed next.
    pub index: usize,
    /// Where the next page of its children begins.
    pub position: usize,
    /// The state of the storage that is copied.
    pub state: String,
    /// How many nodes may be copied at once.
    pub limit: usize,
}

/// The first folder at or behind a position.
pub open spec fn next_directory(list: Seq<Node>, i: int) -> int
    decreases list.len() - i,
{
    if i < 0 || i >= list.len() || list[i].directory() {
        i
    } else {
        next_directory(list, i + 1)
    }
}

impl FileClient {
    /// How many objects one set may create.
    pub open spec fn set_limit(self) -> int {
        match self.session@.at("capabilities"@).at(CORE@).at("maxObjectsInSet"@).unsigned() {
            Some(n) => if n < 10000 {
                n as int
            } else {
                10000
            },
            None => 100,
        }
    }

    /// Whether a copy under that name can begin, and the state of the storage that it copies.
    pub fn copy_begin(&self, name: &str) -> (r: Result<String>)
        ensures
            if !self.takes_name(name@) {
                fails(r, self.name_refusal(name@))
            } else if self.state is None {
                fails(r, "Refresh before copying files."@)
            } else {
                r is Ok && r->Ok_0@ == self.state->0@
            },
    {
        match self.name(name) {
            Ok(_) => {},
            Err(e) => {
                return Err(e);
            },
        }
        match &self.state {
            Some(s) => Ok(s.clone()),
            None => Err(other("Refresh before copying files.")),
        }
    }

    /// Begin a copy with the answer about its source.
    pub fn copy_source(&self, state: String, reply: GetReply) -> (r: Result<CopyPlan>)
        ensures
            if opt(reply.state) != Some(state@) {
                fails(r, moved_on())
            } else if reply.list@.len() == 0 {
                fails(r, "Source file no longer exists."@)
            } else {
                &&& r is Ok
                &&& nodes(r->Ok_0.nodes@) == seq![reply.list@[0]@]
                &&& r->Ok_0.index == 0
                &&& r->Ok_0.position == 0
                &&& r->Ok_0.state@ == state@
                &&& r->Ok_0.limit == self.set_limit()
                &&& r->Ok_0.wf()
            },
    {
        let current = match &reply.state {
            Some(s) => same(s.as_str(), state.as_str()),
            None => false,
        };
        if !current {
            return Err(other("Storage changed. Refresh before copying."));
        }
        if reply.list.len() == 0 {
            return Err(other("Source file no longer exists."));
        }
        let stated: u64 = match self.core_limit("maxObjectsInSet") {
            Some(n) => n,
            None => 100,
        };
        let limit: usize = if stated < 10000 { stated as usize } else { 10000 };
        let root = reply.list[0].copy();
        let list = vec![root];
        proof {
            assert(nodes(list@) =~= seq![reply.list@[0]@]);
        }
        Ok(CopyPlan { nodes: list, index: 0, position: 0, state, limit })
    }
}

impl CopyPlan {
    pub open spec fn wf(self) -> bool {
        self.index <= self.nodes@.len() && self.nodes@.len() > 0
    }

    /// The folder whose children are to be listed next, with the position of the page; `None`
    /// where all were gathered.
    pub fn next(&mut self) -> (r: Option<(String, usize)>)
        requires
            old(self).wf(),
        ensures
            ({
                let list = nodes(old(self).nodes@);
                let at = next_directory(list, old(self).index as int);
                &&& final(self).index == at
                &&& final(self).position == if at == old(self).index {
                    old(self).position
                } else {
                    0
                }
                &&& match r {
                    Some((id, position)) => at < list.len() && id@ == list[at].id && position
                        == final(self).position,
                    None => at >= list.len(),
                }
            }),
            *final(self) == (CopyPlan {
                index: final(self).index,
                position: final(self).position,
                ..*old(self)
            }),
            final(self).wf(),
    {
        let ghost list = nodes(self.nodes@);
        let ghost at = next_directory(list, self.index as int);
        while self.index < self.nodes.len() && !self.nodes[self.index].is_directory()
            invariant
                self.wf(),
                old(self).index <= self.index,
                self.nodes == old(self).nodes,
                self.state == old(self).state,
                self.limit == old(self).limit,
                list == nodes(self.nodes@),
                next_directory(list, self.index as int) == at,
                self.position == if self.index == old(self).index {
                    old(self).position
                } else {
                    0
                },
            decreases self.nodes.len() - self.index,
        {
            proof {
                assert(list[self.index as int] == self.nodes@[self.index as int]@);
            }
            self.index = self.index + 1;
            self.position = 0;
        }
        if self.index < self.nodes.len() {
            proof {
                assert(list[self.index as int] == self.nodes@[self.index as int]@);
            }
            Some((self.nodes[self.index].id.clone(), self.position))
        } else {
            None
        }
    }

    /// Take a page of children of the folder that was asked for.
    pub fn page(&mut self, page: FilePage) -> (r: Result<()>)
        requires
            old(self).wf(),
            old(self).index < old(self).nodes@.len(),
        ensures
            if page.state@ != old(self).state@ {
                fails(r, moved_on()) && *final(self) == *old(self)
            } else if old(self).nodes@.len() + page.nodes@.len() > old(self).limit {
                fails(
                    r,
                    "This folder exceeds the server's batch copy limit. Copy smaller subfolders."@,
                ) && *final(self) == *old(self)
            } else {
                &&& r is Ok
                &&& final(self).nodes@ == old(self).nodes@ + page.nodes@
                &&& match page.next_position {
                    Some(next) => final(self).index == old(self).index && final(self).position
                        == next,
                    None => final(self).index == old(self).index + 1 && final(self).position == 0,
                }
                &&& final(self).state == old(self).state
                &&& final(self).limit == old(self).limit
            },
            final(self).wf(),
    {
        if !same(page.state.as_str(), self.state.as_str()) {
            return Err(other("Storage changed. Refresh before copying."));
        }
        if page.nodes.len() > self.limit || self.nodes.len() > self.limit - page.nodes.len() {
            return Err(
                other(
                    "This folder exceeds the server's batch copy limit. Copy smaller subfolders.",
                ),
            );
        }
        let mut children = page.nodes;
        self.nodes.append(&mut children);
        match page.next_position {
            Some(next) => {
                self.position = next;
            },
            None => {
                self.index = self.index + 1;
                self.position = 0;
            },
        }
        Ok(())
    }
}

/// Where a node of that id stands last.
pub open spec fn last_place(list: Seq<Node>, id: Seq<char>) -> Option<int>
    decreases list.len(),
{
    if list.len() == 0 {
        None
    } else if list.last().id == id {
        Some(list.len() - 1)
    } else {
        last_place(list.drop_last(), id)
    }
}

/// The name by which a created node is spoken of within its set.
pub open spec fn reference(i: int) -> Seq<char> {
    "copy"@ + decimal(i as nat)
}

/// The parent that a copied node gets: the destination for the source itself, for any other node
/// the copy of its own parent.
pub open spec fn copy_parent(list: Seq<Node>, i: int, parent: Option<Seq<char>>) -> Option<
    Seq<char>,
> {
    if i == 0 {
        parent
    } else {
        match list[i].parent_id {
            Some(id) => match last_place(list, id) {
                Some(k) => Some("#"@ + reference(k)),
                None => None,
            },
            None => None,
        }
    }
}

/// A text as a value, where there is one.
pub open spec fn dated(o: Option<Seq<char>>) -> Option<Value> {
    match o {
        Some(s) => Some(Value::Text(s)),
        None => None,
    }
}

/// What is created for a node: the same content under the new parent. Same-account copies use
/// /set, so source timestamps are preserved explicitly.
pub open spec fn copy_value(
    list: Seq<Node>,
    i: int,
    parent: Option<Seq<char>>,
    name: Seq<char>,
) -> Value {
    let n = list[i];
    let base = Value::empty().with(
        "name"@,
        Value::Text(
            if i == 0 {
                name
            } else {
                n.name
            },
        ),
    ).with("parentId"@, Value::opt_text(copy_parent(list, i, parent))).with(
        "blobId"@,
        Value::opt_text(n.blob_id),
    );
    let typed = if n.directory() {
        base
    } else {
        base.with("type"@, Value::opt_text(n.media_type)).with(
            "executable"@,
            Value::Bool(n.executable),
        )
    };
    with_some(
        with_some(
            with_some(typed, "created"@, dated(n.created)),
            "modified"@,
            dated(n.modified),
        ),
        "accessed"@,
        dated(n.accessed),
    )
}

/// What is created for the first `count` nodes of a copy.
pub open spec fn copy_values(
    list: Seq<Node>,
    count: int,
    parent: Option<Seq<char>>,
    name: Seq<char>,
) -> Value
    decreases count,
{
    if count <= 0 {
        Value::empty()
    } else {
        copy_values(list, count - 1, parent, name).with(
            reference(count - 1),
            copy_value(list, count - 1, parent, name),
        )
    }
}

fn with_date(v: Json, key: &str, date: &Option<String>) -> (r: Json)
    ensures
        r@ == with_some(v@, key@, dated(opt(*date))),
{
    match date {
        Some(s) => v.put(key, Json::Text(s.clone())),
        None => v,
    }
}

fn find_last(list: &Vec<FileNode>, id: &str) -> (r: Option<usize>)
    ensures
        match r {
            Some(i) => i < list@.len() && last_place(nodes(list@), id@) == Some(i as int),
            None => last_place(nodes(list@), id@) is None,
        },
{
    let ghost all = nodes(list@);
    let mut i: usize = list.len();
    proof {
        assert(all.take(all.len() as int) == all);
    }
    while i > 0
        invariant
            i <= list@.len(),
            all == nodes(list@),
            last_place(all, id@) == last_place(all.take(i as int), id@),
        decreases i,
    {
        proof {
            assert(all.take(i as int).last() == list@[i - 1]@);
            assert(all.take(i as int).drop_last() == all.take(i - 1));
        }
        if same(list[i - 1].id.as_str(), id) {
            return Some(i - 1);
        }
        i = i - 1;
    }
    None
}

/// Whether any node of the list has that id.
pub open spec fn names_node(list: Seq<Node>, id: Seq<char>) -> bool {
    exists|i: int| 0 <= i < list.len() && (#[trigger] list[i]).id == id
}

proof fn last_place_is_found(list: Seq<Node>, id: Seq<char>)
    ensures
        last_place(list, id) is Some <==> names_node(list, id),
        last_place(list, id) matches Some(k) ==> 0 <= k < list.len() && list[k].id == id,
    decreases list.len(),
{
    if list.len() > 0 {
        last_place_is_found(list.drop_last(), id);
        if list.last().id == id {
            assert(list[list.len() - 1].id == id);
        } else {
            if names_node(list, id) {
                let i = choose|i: int| 0 <= i < list.len() && (#[trigger] list[i]).id == id;
                assert(list.drop_last()[i].id == id);
            }
            if names_node(list.drop_last(), id) {
                let i = choose|i: int|
                    0 <= i < list.drop_last().len() && (#[trigger] list.drop_last()[i]).id == id;
                assert(list[i].id == id);
            }
        }
    }
}

impl CopyPlan {
    fn value(&self, i: usize, parent: Option<&str>, name: &str) -> (r: Json)
        requires
            i < self.nodes@.len(),
        ensures
            r@ == copy_value(nodes(self.nodes@), i as int, opt_str(parent), name@),
    {
        let n = &self.nodes[i];
        proof {
            assert(nodes(self.nodes@)[i as int] == n@);
        }
        let parent_id: Option<String> = if i == 0 {
            match parent {
                Some(p) => Some(lit(p)),
                None => None,
            }
        } else {
            match &n.parent_id {
                Some(id) => match find_last(&self.nodes, id.as_str()) {
                    Some(k) => {
                        let mark = u64_text(k as u64);
                        let own = lit("copy").concat(mark.as_str());
                        Some(lit("#").concat(own.as_str()))
                    },
                    None => None,
                },
                None => None,
            }
        };
        let title = if i == 0 {
            lit(name)
        } else {
            n.name.clone()
        };
        let base = Json::object().with("name", Json::Text(title)).with(
            "parentId",
            Json::opt_text(&parent_id),
        ).with("blobId", Json::opt_text(&n.blob_id));
        let typed = if n.is_directory() {
            base
        } else {
            base.with("type", Json::opt_text(&n.media_type)).with(
                "executable",
                Json::Bool(n.executable),
            )
        };
        let created = with_date(typed, "created", &n.created);
        let modified = with_date(created, "modified", &n.modified);
        with_date(modified, "accessed", &n.accessed)
    }

    /// The changes that make the copy; creation references preserve the hierarchy. A folder is
    /// not copied into itself, and nothing is compared by age whose age is unknown.
    pub fn finish(&self, parent: Option<&str>, name: &str, collision: CollisionPolicy) -> (r: Result<
        Json,
    >)
        requires
            self.wf(),
        ensures
            ({
                let list = nodes(self.nodes@);
                if parent is Some && names_node(list, parent->0@) {
                    fails(r, "A folder cannot be copied into itself."@)
                } else if collision == CollisionPolicy::Newest && exists|i: int|
                    0 <= i < list.len() && (#[trigger] list[i]).modified is None {
                    fails(r, "Source modification time is unavailable for Keep newest."@)
                } else {
                    r is Ok && r->Ok_0@ == Value::empty().with(
                        "create"@,
                        copy_values(list, list.len() as int, opt_str(parent), name@),
                    )
                }
            }),
    {
        let ghost list = nodes(self.nodes@);
        match parent {
            Some(p) => {
                proof {
                    last_place_is_found(list, p@);
                }
                if find_last(&self.nodes, p).is_some() {
                    return Err(other("A folder cannot be copied into itself."));
                }
            },
            None => {},
        }
        let mut create = Json::object();
        let mut i: usize = 0;
        while i < self.nodes.len()
            invariant
                i <= self.nodes@.len(),
                list == nodes(self.nodes@),
                !(parent is Some && names_node(list, parent->0@)),
                create@ == copy_values(list, i as int, opt_str(parent), name@),
                collision == CollisionPolicy::Newest ==> forall|j: int|
                    0 <= j < i ==> (#[trigger] list[j]).modified is Some,
            decreases self.nodes.len() - i,
        {
            let value = self.value(i, parent, name);
            proof {
                assert(list[i as int] == self.nodes@[i as int]@);
            }
            if matches!(collision, CollisionPolicy::Newest) && self.nodes[i].modified.is_none() {
                proof {
                    assert(list[i as int].modified is None);
                }
                return Err(other("Source modification time is unavailable for Keep newest."));
            }
            let mark = u64_text(i as u64);
            let key = lit("copy").concat(mark.as_str());
            create = create.with(key.as_str(), value);
            i = i + 1;
        }
        Ok(Json::object().with("create", create))
    }
}

proof fn copy_values_fields(
    list: Seq<Node>,
    count: int,
    parent: Option<Seq<char>>,
    name: Seq<char>,
    k: int,
)
    requires
        0 <= k < count <= list.len(),
    ensures
        copy_values(list, count, parent, name) is Object,
        copy_values(list, count, parent, name)->Object_0.len() == count,
        copy_values(list, count, parent, name)->Object_0[k] == (
            reference(k),
            copy_value(list, k, parent, name),
        ),
    decreases count,
{
    if count > 1 {
        copy_values_fields(
            list,
            count - 1,
            parent,
            name,
            if k < count - 1 {
                k
            } else {
                0
            },
        );
    } else {
        reveal_with_fuel(copy_values, 2);
    }
}

/// A copy keeps its hierarchy: every node of the source is created exactly once, under a
/// reference of its own, and a node whose parent is among the copied ones is created below the
/// copy of that parent.
pub proof fn copies_keep_their_hierarchy(
    list: Seq<Node>,
    parent: Option<Seq<char>>,
    name: Seq<char>,
    i: int,
    j: int,
)
    requires
        0 <= i < list.len(),
        0 <= j < list.len(),
    ensures
        ({
            let fields = copy_values(list, list.len() as int, parent, name)->Object_0;
            &&& fields.len() == list.len()
            &&& fields[i].0 == reference(i)
            &&& fields[i].1 == copy_value(list, i, parent, name)
            &&& i != j ==> fields[i].0 != fields[j].0
            &&& i > 0 && list[i].parent_id is Some && names_node(list, list[i].parent_id->0) ==> {
                let k = last_place(list, list[i].parent_id->0)->0;
                0 <= k < list.len() && list[k].id == list[i].parent_id->0 && copy_parent(
                    list,
                    i,
                    parent,
                ) == Some("#"@ + fields[k].0)
            }
        }),
{
    copy_values_fields(list, list.len() as int, parent, name, i);
    copy_values_fields(list, list.len() as int, parent, name, j);
    if i != j && reference(i) == reference(j) {
        assert(reference(i).skip("copy"@.len() as int) =~= decimal(i as nat));
        assert(reference(j).skip("copy"@.len() as int) =~= decimal(j as nat));
        crate::text::decimal_is_injective(i as nat, j as nat);
    }
    if i > 0 && list[i].parent_id is Some && names_node(list, list[i].parent_id->0) {
        last_place_is_found(list, list[i].parent_id->0);
        let k = last_place(list, list[i].parent_id->0)->0;
        copy_values_fields(list, list.len() as int, parent, name, k);
    }
}

/// How many nodes are copied between two storage spaces at once.
pub const MAX_SPACE_COPY: usize = 1000;

/// What a user is told where the source moved on while it was gathered.
pub open spec fn source_moved_on() -> Seq<char> {
    "Source storage changed. Refresh before copying."@
}

/// A copy between two storage spaces: the source is gathered and checked whole before the
/// destination is changed.
pub struct SpaceCopy {
    pub from_account: String,
    pub from_state: String,
    pub nodes: Vec<FileNode>,
    pub seen: Vec<String>,
    pub index: usize,
    pub position: usize,
    /// What was created so far: the answer for each source id.
    pub created: Json,
}

impl SpaceCopy {
    pub open spec fn wf(self) -> bool {
        self.index <= self.nodes@.len() && self.nodes@.len() > 0 && self.created@ is Object
    }

    /// Begin with the answer about the source.
    pub fn begin(from_account: &str, from_state: &str, id: &str, reply: GetReply) -> (r: Result<
        SpaceCopy,
    >)
        ensures
            if opt(reply.state) != Some(from_state@) {
                fails(r, source_moved_on())
            } else if reply.list@.len() == 0 {
                fails(r, "Source file was not found."@)
            } else {
                &&& r is Ok
                &&& r->Ok_0.from_account@ == from_account@
                &&& r->Ok_0.from_state@ == from_state@
                &&& nodes(r->Ok_0.nodes@) == seq![reply.list@[0]@]
                &&& texts(r->Ok_0.seen@) == seq![id@]
                &&& r->Ok_0.index == 0
                &&& r->Ok_0.position == 0
                &&& r->Ok_0.created@ == Value::empty()
                &&& r->Ok_0.wf()
            },
    {
        let current = match &reply.state {
            Some(s) => same(s.as_str(), from_state),
            None => false,
        };
        if !current {
            return Err(other("Source storage changed. Refresh before copying."));
        }
        if reply.list.len() == 0 {
            return Err(other("Source file was not found."));
        }
        let list = vec![reply.list[0].copy()];
        let seen = vec![lit(id)];
        proof {
            assert(nodes(list@) =~= seq![reply.list@[0]@]);
            assert(texts(seen@) =~= seq![id@]);
        }
        Ok(
            SpaceCopy {
                from_account: lit(from_account),
                from_state: lit(from_state),
                nodes: list,
                seen,
                index: 0,
                position: 0,
                created: Json::object(),
            },
        )
    }

    /// The folder whose children are to be listed next, with the position of the page. Every node
    /// that is passed must have a name that the destination takes.
    pub fn next(&mut self, destination: &FileClient) -> (r: Result<Option<(String, usize)>>)
        requires
            old(self).wf(),
        ensures
            ({
                let list = nodes(old(self).nodes@);
                let at = next_directory(list, old(self).index as int);
                let last = if at < list.len() {
                    at
                } else {
                    list.len() - 1
                };
                if forall|i: int|
                    old(self).index <= i <= last ==> destination.takes_name(
                        (#[trigger] list[i]).name,
                    ) {
                    &&& r is Ok
                    &&& final(self).index == at
                    &&& final(self).position == if at == old(self).index {
                        old(self).position
                    } else {
                        0
                    }
                    &&& match r->Ok_0 {
                        Some((id, position)) => at < list.len() && id@ == list[at].id && position
                            == final(self).position,
                        None => at >= list.len(),
                    }
                } else {
                    r is Err && exists|i: int|
                        old(self).index <= i <= last && !destination.takes_name(
                            (#[trigger] list[i]).name,
                        ) && says(r->Err_0, destination.name_refusal(list[i].name)) && (forall|
                            j: int,
                        |
                            old(self).index <= j < i ==> destination.takes_name(
                                (#[trigger] list[j]).name,
                            ))
                }
            }),
            *final(self) == (SpaceCopy {
                index: final(self).index,
                position: final(self).position,
                ..*old(self)
            }),
            final(self).wf(),
    {
        let ghost list = nodes(self.nodes@);
        let ghost at = next_directory(list, self.index as int);
        proof {
            next_directory_is_ahead(list, self.index as int);
        }
        loop
            invariant
                self.wf(),
                old(self).index <= self.index,
                self.nodes == old(self).nodes,
                self.seen == old(self).seen,
                self.created == old(self).created,
                self.from_account == old(self).from_account,
                self.from_state == old(self).from_state,
                list == nodes(self.nodes@),
                self.index <= at <= list.len(),
                at == next_directory(list, old(self).index as int),
                next_directory(list, self.index as int) == at,
                forall|i: int|
                    old(self).index <= i < self.index ==> destination.takes_name(
                        (#[trigger] list[i]).name,
                    ),
                self.position == if self.index == old(self).index {
                    old(self).position
                } else {
                    0
                },
            decreases self.nodes.len() - self.index,
        {
            if self.index == self.nodes.len() {
                return Ok(None);
            }
            proof {
                assert(list[self.index as int] == self.nodes@[self.index as int]@);
            }
            match destination.name(self.nodes[self.index].name.as_str()) {
                Ok(_) => {},
                Err(e) => {
                    proof {
                        assert(!destination.takes_name(list[self.index as int].name));
                    }
                    return Err(e);
                },
            }
            if self.nodes[self.index].is_directory() {
                return Ok(Some((self.nodes[self.index].id.clone(), self.position)));
            }
            proof {
                next_directory_is_ahead(list, self.index + 1);
            }
            self.index = self.index + 1;
            self.position = 0;
        }
    }

    /// Take a page of children of the folder that was asked for. A node that turns up twice
    /// belongs to no hierarchy.
    pub fn page(&mut self, page: FilePage) -> (r: Result<()>)
        requires
            old(self).wf(),
            old(self).index < old(self).nodes@.len(),
        ensures
            if page.state@ != old(self).from_state@ {
                fails(r, source_moved_on()) && *final(self) == *old(self)
            } else if old(self).nodes@.len() + page.nodes@.len() > MAX_SPACE_COPY {
                fails(r, "Copy at most 1,000 nodes between storage spaces at once."@) && *final(
                    self) == *old(self)
            } else if !fresh(texts(old(self).seen@), nodes(page.nodes@)) {
                fails(r, "Invalid source file hierarchy."@)
            } else {
                &&& r is Ok
                &&& nodes(final(self).nodes@) == nodes(old(self).nodes@) + nodes(page.nodes@)
                &&& texts(final(self).seen@) == texts(old(self).seen@) + nodes(
                    page.nodes@,
                ).map_values(|n: Node| n.id)
                &&& match page.next_position {
                    Some(next) => final(self).index == old(self).index && final(self).position
                        == next,
                    None => final(self).index == old(self).index + 1 && final(self).position == 0,
                }
                &&& *final(self) == (SpaceCopy {
                    nodes: final(self).nodes,
                    seen: final(self).seen,
                    index: final(self).index,
                    position: final(self).position,
                    ..*old(self)
                })
                &&& final(self).wf()
            },
    {
        if !same(page.state.as_str(), self.from_state.as_str()) {
            return Err(other("Source storage changed. Refresh before copying."));
        }
        if page.nodes.len() > MAX_SPACE_COPY || self.nodes.len() > MAX_SPACE_COPY
            - page.nodes.len() {
            return Err(other("Copy at most 1,000 nodes between storage spaces at once."));
        }
        let ghost start = nodes(self.nodes@);
        let ghost seen0 = texts(self.seen@);
        let ghost list = nodes(page.nodes@);
        let next_position = page.next_position;
        let mut i: usize = 0;
        proof {
            assert(start + list.take(0) =~= start);
            assert(seen0 + list.take(0).map_values(|n: Node| n.id) =~= seen0);
        }
        while i < page.nodes.len()
            invariant
                i <= page.nodes@.len(),
                list == nodes(page.nodes@),
                seen0 == texts(old(self).seen@),
                start == nodes(old(self).nodes@),
                page.state@ == old(self).from_state@,
                old(self).nodes@.len() + page.nodes@.len() <= MAX_SPACE_COPY,
                nodes(self.nodes@) == start + list.take(i as int),
                texts(self.seen@) == seen0 + list.take(i as int).map_values(|n: Node| n.id),
                fresh(seen0, list.take(i as int)),
                *self == (SpaceCopy { nodes: self.nodes, seen: self.seen, ..*old(self) }),
            decreases page.nodes.len() - i,
        {
            let n = &page.nodes[i];
            proof {
                assert(list[i as int] == n@);
                assert(list.take(i + 1).drop_last() == list.take(i as int));
                assert(list.take(i + 1).last() == n@);
                assert(list.take(i + 1) == list.take(i as int).push(n@));
            }
            if has_member(self.seen.as_slice(), n.id.as_str()) {
                proof {
                    fresh_prefix(seen0, list, i + 1);
                }
                return Err(other("Invalid source file hierarchy."));
            }
            let ghost seen1 = texts(self.seen@);
            let ghost nodes1 = nodes(self.nodes@);
            self.seen.push(n.id.clone());
            self.nodes.push(n.copy());
            proof {
                assert(texts(self.seen@) =~= seen1.push(n.id@));
                assert(nodes(self.nodes@) =~= nodes1.push(n@));
                assert(texts(self.seen@) =~= seen0 + list.take(i + 1).map_values(|n: Node| n.id));
                assert(nodes(self.nodes@) =~= start + list.take(i + 1));
            }
            i = i + 1;
        }
        proof {
            assert(list.take(list.len() as int) == list);
        }
        match next_position {
            Some(next) => {
                self.position = next;
            },
            None => {
                self.index = self.index + 1;
                self.position = 0;
            },
        }
        Ok(())
    }

    /// The arguments that copy one node into the destination. Each folder must exist before its
    /// children are copied into the id that the destination gave it.
    pub fn request(
        &self,
        i: usize,
        destination: &FileClient,
        parent: Option<&str>,
        name: &str,
    ) -> (r: Result<Json>)
        requires
            i < self.nodes@.len(),
        ensures
            match space_parent(nodes(self.nodes@), i as int, opt_str(parent), self.created@) {
                None => fails(r, "Copied parent folder is missing."@),
                Some(into) => r is Ok && r->Ok_0@ == space_args(
                    *self,
                    *destination,
                    nodes(self.nodes@)[i as int],
                    into,
                    if i == 0 {
                        name@
                    } else {
                        nodes(self.nodes@)[i as int].name
                    },
                ),
            },
    {
        let n = &self.nodes[i];
        proof {
            assert(nodes(self.nodes@)[i as int] == n@);
        }
        let into: Option<String> = if i == 0 {
            match parent {
                Some(p) => Some(lit(p)),
                None => None,
            }
        } else {
            let source = match &n.parent_id {
                Some(id) => id.clone(),
                None => String::new(),
            };
            proof {
                assert(""@ =~= Seq::<char>::empty()) by {
                    reveal_strlit("");
                }
            }
            let made = match self.created.get(source.as_str()) {
                Some(v) => v.text_at("id"),
                None => None,
            };
            match made {
                Some(id) => Some(lit(id)),
                None => {
                    return Err(other("Copied parent folder is missing."));
                },
            }
        };
        let title = if i == 0 {
            lit(name)
        } else {
            n.name.clone()
        };
        let one = Json::object().with("parentId", Json::opt_text(&into)).with(
            "name",
            Json::Text(title),
        );
        let policy = match destination.collision {
            CollisionPolicy::Reject => Json::Null,
            _ => Json::text(destination.collision.as_str()),
        };
        Ok(
            Json::object().with("fromAccountId", Json::Text(self.from_account.clone())).with(
                "ifFromInState",
                Json::Text(self.from_state.clone()),
            ).with("ifInState", Json::opt_text(&destination.state)).with(
                "create",
                Json::object().with(n.id.as_str(), one),
            ).with("onSuccessDestroyOriginal", Json::Bool(false)).with("onExists", policy).with(
                "compareCaseInsensitively",
                Json::Bool(destination.compare_case_insensitively),
            ),
        )
    }

    /// Take the answer to the copy of one node.
    pub fn copied(&mut self, i: usize, destination: &mut FileClient, result: &Json) -> (r: Result<()>)
        requires
            old(self).wf(),
            i < old(self).nodes@.len(),
        ensures
            ({
                let id = nodes(old(self).nodes@)[i as int].id;
                let value = result@.at("created"@).at(id);
                if value.at("id"@).text() is None {
                    fails(r, "Copy response omitted the new file ID. Refresh before retrying."@)
                        && *final(self) == *old(self) && *final(destination) == *old(destination)
                } else {
                    &&& r is Ok
                    &&& final(self).created@ == old(self).created@.put(id, value)
                    &&& *final(self) == (SpaceCopy { created: final(self).created, ..*old(self) })
                    &&& opt(final(destination).state) == result@.at("newState"@).text()
                    &&& *final(destination) == (FileClient {
                        state: final(destination).state,
                        ..*old(destination)
                    })
                }
            }),
            final(self).wf(),
    {
        let id = self.nodes[i].id.clone();
        proof {
            assert(nodes(self.nodes@)[i as int].id == id@);
        }
        let value = match result.get("created") {
            Some(c) => match c.get(id.as_str()) {
                Some(v) => v.copy(),
                None => Json::Null,
            },
            None => Json::Null,
        };
        if value.text_at("id").is_none() {
            return Err(other("Copy response omitted the new file ID. Refresh before retrying."));
        }
        let made = self.created.copy().put(id.as_str(), value);
        self.created = made;
        destination.changed(result);
        Ok(())
    }

    /// What a user is told where the copy of a node failed.
    pub fn stopped(&self, error: &str) -> (r: crate::error::CoreError)
        requires
            self.wf(),
        ensures
            says(
                r,
                "Copy stopped after "@ + decimal(self.created@->Object_0.len()) + " items: "@
                    + error@ + ". Refresh the destination before retrying."@,
            ),
    {
        let done: usize = match self.created.as_object() {
            Some(fields) => fields.len(),
            None => 0,
        };
        let count = u64_text(done as u64);
        other(
            lit("Copy stopped after ").concat(count.as_str()).concat(" items: ").concat(
                error,
            ).concat(". Refresh the destination before retrying.").as_str(),
        )
    }

    /// What a finished copy reports.
    pub fn report(&self, destination: &FileClient, initial_state: &str) -> (r: Json)
        ensures
            r@ == Value::empty().with("accountId"@, Value::Text(destination.account_id@)).with(
                "fromAccountId"@,
                Value::Text(self.from_account@),
            ).with("oldState"@, Value::Text(initial_state@)).with(
                "newState"@,
                Value::opt_text(opt(destination.state)),
            ).with("created"@, self.created@),
    {
        Json::object().with("accountId", Json::Text(destination.account_id.clone())).with(
            "fromAccountId",
            Json::Text(self.from_account.clone()),
        ).with("oldState", Json::text(initial_state)).with(
            "newState",
            Json::opt_text(&destination.state),
        ).with("created", self.created.copy())
    }
}

proof fn next_directory_is_ahead(list: Seq<Node>, i: int)
    requires
        0 <= i <= list.len(),
    ensures
        i <= next_directory(list, i) <= list.len(),
        forall|k: int| i <= k < next_directory(list, i) ==> !(#[trigger] list[k]).directory(),
        next_directory(list, i) < list.len() ==> list[next_directory(list, i)].directory(),
    decreases list.len() - i,
{
    if i < list.len() && !list[i].directory() {
        next_directory_is_ahead(list, i + 1);
    }
}

/// Whether no node of the list was seen before, nor stands in it twice.
pub open spec fn fresh(seen: Seq<Seq<char>>, list: Seq<Node>) -> bool
    decreases list.len(),
{
    if list.len() == 0 {
        true
    } else {
        fresh(seen, list.drop_last()) && !(seen + list.drop_last().map_values(
            |n: Node| n.id,
        )).contains(list.last().id)
    }
}

proof fn fresh_prefix(seen: Seq<Seq<char>>, list: Seq<Node>, k: int)
    requires
        0 <= k <= list.len(),
        !fresh(seen, list.take(k)),
    ensures
        !fresh(seen, list),
    decreases list.len() - k,
{
    if k == list.len() {
        assert(list.take(k) == list);
    } else {
        assert(list.take(k + 1).drop_last() == list.take(k));
        fresh_prefix(seen, list, k + 1);
    }
}

/// The destination folder of a node: the one asked for, or the copy of its own parent; `None`
/// where that was not made. The inner `None` is the top level.
pub open spec fn space_parent(
    list: Seq<Node>,
    i: int,
    parent: Option<Seq<char>>,
    created: Value,
) -> Option<Option<Seq<char>>> {
    if i == 0 {
        Some(parent)
    } else {
        let source = match list[i].parent_id {
            Some(id) => id,
            None => ""@,
        };
        match created.at(source).at("id"@).text() {
            Some(id) => Some(Some(id)),
            None => None,
        }
    }
}

/// What is sent to copy one node between two spaces: it applies to the state of the source that
/// was gathered and to the state of the destination that is known, and leaves the source be.
pub open spec fn space_args(
    copy: SpaceCopy,
    destination: FileClient,
    n: Node,
    into: Option<Seq<char>>,
    title: Seq<char>,
) -> Value {
    Value::empty().with("fromAccountId"@, Value::Text(copy.from_account@)).with(
        "ifFromInState"@,
        Value::Text(copy.from_state@),
    ).with("ifInState"@, Value::opt_text(opt(destination.state))).with(
        "create"@,
        Value::empty().with(
            n.id,
            Value::empty().with("parentId"@, Value::opt_text(into)).with(
                "name"@,
                Value::Text(title),
            ),
        ),
    ).with("onSuccessDestroyOriginal"@, Value::Bool(false)).with(
        "onExists"@,
        if destination.collision == CollisionPolicy::Reject {
            Value::Null
        } else {
            Value::Text(policy_name(destination.collision))
        },
    ).with("compareCaseInsensitively"@, Value::Bool(destination.compare_case_insensitively))
}

/// How a copy from a storage space goes on.
pub enum SpaceStep {
    /// The rights of this folder must be looked up first.
    Need(String),
    /// Both spaces are the same one.
    Within,
    /// The source must be gathered.
    Between,
}

impl FileClient {
    /// Whether a copy from a storage space into this one can begin.
    pub fn copy_from_account(
        &self,
        from_account: &str,
        parent: Option<&str>,
        name: &str,
        grants: &Vec<Grant>,
    ) -> (r: Result<SpaceStep>)
        ensures
            ({
                let ruling = destination_ruling(*self, opt_str(parent), grants@);
                if !self.takes_name(name@) {
                    fails(r, self.name_refusal(name@))
                } else if ruling is Refused {
                    fails(r, ruling->Refused_0)
                } else if ruling is Need {
                    r is Ok && r->Ok_0 is Need && r->Ok_0->Need_0@ == ruling->Need_0
                } else if from_account@ == self.account_id@ {
                    r is Ok && r->Ok_0 is Within
                } else if self.is_read_only() {
                    fails(r, "This storage account is read-only."@)
                } else if !has_space(spaces(self.accounts@), from_account@) {
                    fails(r, "File account is no longer available."@)
                } else {
                    r is Ok && r->Ok_0 is Between
                }
            }),
    {
        match self.name(name) {
            Ok(_) => {},
            Err(e) => {
                return Err(e);
            },
        }
        match self.require_destination(parent, grants) {
            Verdict::Allowed => {},
            Verdict::Need(id) => {
                return Ok(SpaceStep::Need(id));
            },
            Verdict::Refused(e) => {
                return Err(e);
            },
        }
        if same(from_account, self.account_id.as_str()) {
            return Ok(SpaceStep::Within);
        }
        if self.read_only() {
            return Err(other("This storage account is read-only."));
        }
        if find_space(&self.accounts, from_account).is_none() {
            return Err(other("File account is no longer available."));
        }
        Ok(SpaceStep::Between)
    }
}

} // verus!
