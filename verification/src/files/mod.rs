//! File storage and a paged, account-scoped attachment library.
//! Remote credentials stay in the core and are bound to the configured origin.

pub mod cache;
pub mod changes;
pub mod copying;
pub mod course;
pub mod dates;
pub mod dav;
pub mod davwrite;
pub mod edit;
pub mod folder;
pub mod jmap;
pub mod json;
pub mod listing;
pub mod mail_search;
pub mod perform;
pub mod progress;
pub mod projection;
pub mod refresh;
pub mod render;
pub mod service;
pub mod store;
pub mod sync;
pub mod text_index;
pub mod transfer;
pub mod tree;
pub mod transport;
pub mod xml;

use crate::error::{other, says, Result};
use crate::files::json::{Json, Value};
use crate::text::{
    chars, is_control, join, join_texts, keep_nonempty, lit, nonempty, opt, same, split,
    split_where, texts,
};
use vstd::prelude::*;
use vstd::string::*;
use vstd::utf8::encode_utf8;

verus! {

/// What to do when a name is already taken at the destination.
#[derive(Clone, Copy, Debug, PartialEq, Eq, Structural)]
pub enum CollisionPolicy {
    Reject,
    Rename,
    Replace,
    Newest,
}

impl Default for CollisionPolicy {
    fn default() -> (r: Self)
        ensures
            r == CollisionPolicy::Reject,
    {
        CollisionPolicy::Reject
    }
}

pub const PAGE_SIZE: usize = 100;

pub const MAX_TRANSFER: usize = 536870912;

/// A leaf name that can stand for a file: one to 255 bytes, no separator, no control character,
/// neither of the two names that stand for directories.
pub open spec fn valid_name(name: Seq<char>) -> bool {
    &&& name.len() > 0
    &&& name != "."@
    &&& name != ".."@
    &&& encode_utf8(name).len() <= 255
    &&& forall|i: int|
        0 <= i < name.len() ==> !crate::text::control(#[trigger] name[i]) && name[i] != '/'
            && name[i] != '\\'
}

/// What a user is told of a name that is not valid.
pub open spec fn invalid_name_message() -> Seq<char> {
    "Enter a file name of 1–255 bytes without slashes or control characters."@
}

/// Whether a text may stand as a leaf name.
pub fn is_valid_name(name: &str) -> (r: bool)
    ensures
        r == valid_name(name@),
{
    if name.is_empty() || same(name, ".") || same(name, "..") || name.as_bytes().len() > 255 {
        return false;
    }
    let v = chars(name);
    let mut i: usize = 0;
    while i < v.len()
        invariant
            v@ == name@,
            i <= v.len(),
            forall|j: int|
                0 <= j < i ==> !crate::text::control(#[trigger] name@[j]) && name@[j] != '/'
                    && name@[j] != '\\',
        decreases v.len() - i,
    {
        if is_control(v[i]) || v[i] == '/' || v[i] == '\\' {
            proof {
                assert(crate::text::control(name@[i as int]) || name@[i as int] == '/'
                    || name@[i as int] == '\\');
            }
            return false;
        }
        i = i + 1;
    }
    true
}

/// Only a leaf name: never allow remote names to become local paths.
pub fn validate_name(name: &str) -> (r: Result<()>)
    ensures
        r is Ok <==> valid_name(name@),
        r matches Err(e) ==> says(e, invalid_name_message()),
{
    if is_valid_name(name) {
        Ok(())
    } else {
        Err(other("Enter a file name of 1–255 bytes without slashes or control characters."))
    }
}

/// What a user may do with a node.
#[derive(Clone, Copy, Debug, PartialEq, Eq, Structural)]
pub struct Rights {
    pub may_read: bool,
    pub may_add_children: bool,
    pub may_rename: bool,
    pub may_delete: bool,
    pub may_modify_content: bool,
    pub may_share: bool,
    // Older Stalwart FileNode drafts use one write right.
    pub may_write: bool,
}

impl Default for Rights {
    fn default() -> (r: Self)
        ensures
            r == Rights::none(),
    {
        Rights {
            may_read: false,
            may_add_children: false,
            may_rename: false,
            may_delete: false,
            may_modify_content: false,
            may_share: false,
            may_write: false,
        }
    }
}

impl Rights {
    /// No right at all.
    pub open spec fn none() -> Rights {
        Rights {
            may_read: false,
            may_add_children: false,
            may_rename: false,
            may_delete: false,
            may_modify_content: false,
            may_share: false,
            may_write: false,
        }
    }

    /// Every right that either side grants.
    pub open spec fn union(self, parent: Rights) -> Rights {
        Rights {
            may_read: self.may_read || parent.may_read,
            may_add_children: self.may_add_children || parent.may_add_children,
            may_rename: self.may_rename || parent.may_rename,
            may_delete: self.may_delete || parent.may_delete,
            may_modify_content: self.may_modify_content || parent.may_modify_content,
            may_share: self.may_share || parent.may_share,
            may_write: self.may_write || parent.may_write,
        }
    }

    /// Whether every right granted here is granted there.
    pub open spec fn within(self, other: Rights) -> bool {
        self.union(other) == other
    }

    /// FileNode ACLs are additive and inherited by descendants.
    pub fn inherit(&mut self, parent: &Self)
        ensures
            *final(self) == old(self).union(*parent),
    {
        self.may_read = self.may_read || parent.may_read;
        self.may_add_children = self.may_add_children || parent.may_add_children;
        self.may_rename = self.may_rename || parent.may_rename;
        self.may_delete = self.may_delete || parent.may_delete;
        self.may_modify_content = self.may_modify_content || parent.may_modify_content;
        self.may_share = self.may_share || parent.may_share;
        self.may_write = self.may_write || parent.may_write;
    }

    pub open spec fn can_add(self) -> bool {
        self.may_add_children || self.may_write
    }

    pub open spec fn can_rename(self) -> bool {
        self.may_rename || self.may_write
    }

    pub open spec fn can_delete(self) -> bool {
        self.may_delete || self.may_write
    }

    pub open spec fn can_modify(self) -> bool {
        self.may_modify_content || self.may_write
    }

    pub fn add(&self) -> (r: bool)
        ensures
            r == self.can_add(),
    {
        self.may_add_children || self.may_write
    }

    pub fn rename(&self) -> (r: bool)
        ensures
            r == self.can_rename(),
    {
        self.may_rename || self.may_write
    }

    pub fn delete(&self) -> (r: bool)
        ensures
            r == self.can_delete(),
    {
        self.may_delete || self.may_write
    }

    pub fn modify(&self) -> (r: bool)
        ensures
            r == self.can_modify(),
    {
        self.may_modify_content || self.may_write
    }
}

/// Inheriting is additive: it never takes a right away, it grants what the parent grants, it
/// grants nothing else, and the order and number of parents do not matter.
pub proof fn inheritance_is_additive(own: Rights, parent: Rights, grandparent: Rights)
    ensures
        own.within(own.union(parent)),
        parent.within(own.union(parent)),
        own.within(parent) ==> own.union(parent) == parent,
        own.union(parent) == parent.union(own),
        own.union(parent).union(grandparent) == own.union(parent.union(grandparent)),
        own.union(parent).union(parent) == own.union(parent),
        own.union(Rights::none()) == own,
        own.can_add() ==> own.union(parent).can_add(),
        own.can_rename() ==> own.union(parent).can_rename(),
        own.can_delete() ==> own.union(parent).can_delete(),
        own.can_modify() ==> own.union(parent).can_modify(),
{
}

/// A file or a folder of a storage space.
#[derive(Debug)]
pub struct FileNode {
    pub id: String,
    pub name: String,
    pub parent_id: Option<String>,
    pub blob_id: Option<String>,
    pub size: Option<u64>,
    pub media_type: Option<String>,
    pub node_type: Option<String>,
    pub modified: Option<String>,
    pub created: Option<String>,
    pub accessed: Option<String>,
    pub executable: bool,
    pub is_subscribed: Option<bool>,
    pub role: Option<String>,
    pub my_rights: Rights,
    pub share_with: Option<Json>,
    /// WebDAV opaque strong validator; never manufacture one.
    pub etag: Option<String>,
    pub locked: bool,
}

/// The model of a [`FileNode`].
#[verifier::ext_equal]
pub struct Node {
    pub id: Seq<char>,
    pub name: Seq<char>,
    pub parent_id: Option<Seq<char>>,
    pub blob_id: Option<Seq<char>>,
    pub size: Option<u64>,
    pub media_type: Option<Seq<char>>,
    pub node_type: Option<Seq<char>>,
    pub modified: Option<Seq<char>>,
    pub created: Option<Seq<char>>,
    pub accessed: Option<Seq<char>>,
    pub executable: bool,
    pub is_subscribed: Option<bool>,
    pub role: Option<Seq<char>>,
    pub my_rights: Rights,
    pub share_with: Option<Value>,
    pub etag: Option<Seq<char>>,
    pub locked: bool,
}

impl Node {
    /// A node that names its kind is a folder where the kind is `directory`; one that does not is
    /// a folder where it has no content.
    pub open spec fn directory(self) -> bool {
        match self.node_type {
            Some(kind) => kind == "directory"@,
            None => self.blob_id is None,
        }
    }

    /// A node of which nothing is known.
    pub open spec fn blank() -> Node {
        Node {
            id: Seq::empty(),
            name: Seq::empty(),
            parent_id: None,
            blob_id: None,
            size: None,
            media_type: None,
            node_type: None,
            modified: None,
            created: None,
            accessed: None,
            executable: false,
            is_subscribed: None,
            role: None,
            my_rights: Rights::none(),
            share_with: None,
            etag: None,
            locked: false,
        }
    }
}

impl View for FileNode {
    type V = Node;

    open spec fn view(&self) -> Node {
        Node {
            id: self.id@,
            name: self.name@,
            parent_id: opt(self.parent_id),
            blob_id: opt(self.blob_id),
            size: self.size,
            media_type: opt(self.media_type),
            node_type: opt(self.node_type),
            modified: opt(self.modified),
            created: opt(self.created),
            accessed: opt(self.accessed),
            executable: self.executable,
            is_subscribed: self.is_subscribed,
            role: opt(self.role),
            my_rights: self.my_rights,
            share_with: match self.share_with {
                Some(j) => Some(j@),
                None => None,
            },
            etag: opt(self.etag),
            locked: self.locked,
        }
    }
}

/// The models of a list of nodes.
pub open spec fn nodes(v: Seq<FileNode>) -> Seq<Node> {
    v.map_values(|n: FileNode| n@)
}

impl Default for FileNode {
    fn default() -> (r: Self)
        ensures
            r@ == Node::blank(),
    {
        FileNode {
            id: String::new(),
            name: String::new(),
            parent_id: None,
            blob_id: None,
            size: None,
            media_type: None,
            node_type: None,
            modified: None,
            created: None,
            accessed: None,
            executable: false,
            is_subscribed: None,
            role: None,
            my_rights: Rights::default(),
            share_with: None,
            etag: None,
            locked: false,
        }
    }
}

impl FileNode {
    pub fn is_directory(&self) -> (r: bool)
        ensures
            r == self@.directory(),
    {
        match &self.node_type {
            Some(kind) => same(kind.as_str(), "directory"),
            None => self.blob_id.is_none(),
        }
    }

    /// The same node again.
    pub fn copy(&self) -> (r: FileNode)
        ensures
            r@ == self@,
    {
        FileNode {
            id: self.id.clone(),
            name: self.name.clone(),
            parent_id: self.parent_id.clone(),
            blob_id: self.blob_id.clone(),
            size: self.size,
            media_type: self.media_type.clone(),
            node_type: self.node_type.clone(),
            modified: self.modified.clone(),
            created: self.created.clone(),
            accessed: self.accessed.clone(),
            executable: self.executable,
            is_subscribed: self.is_subscribed,
            role: self.role.clone(),
            my_rights: self.my_rights,
            share_with: match &self.share_with {
                Some(j) => Some(j.copy()),
                None => None,
            },
            etag: self.etag.clone(),
            locked: self.locked,
        }
    }
}

impl Clone for FileNode {
    fn clone(&self) -> (r: Self)
        ensures
            r@ == self@,
    {
        self.copy()
    }
}

/// The connection of an account to its file storage.
#[derive(Clone, Debug)]
pub struct ConnectionSettings {
    pub endpoint: String,
    pub webdav: bool,
}

impl Default for ConnectionSettings {
    fn default() -> (r: Self)
        ensures
            r.endpoint@ == Seq::<char>::empty(),
            !r.webdav,
    {
        ConnectionSettings { endpoint: String::new(), webdav: false }
    }
}

impl ConnectionSettings {
    /// The same settings again.
    pub fn copy(&self) -> (r: Self)
        ensures
            r == *self,
    {
        ConnectionSettings { endpoint: self.endpoint.clone(), webdav: self.webdav }
    }
}

/// The words of a search text: its runs of alphanumeric characters, the first 32.
pub open spec fn search_words(query: Seq<char>) -> Seq<Seq<char>> {
    let words = nonempty(split(query, |c: char| !crate::text::alphanumeric(c)));
    if words.len() > 32 {
        words.take(32)
    } else {
        words
    }
}

/// A full-text prefix term for one word.
pub open spec fn prefix_term(word: Seq<char>) -> Seq<char> {
    "\""@ + word + "\"*"@
}

/// The full-text query for a search text: every word as a quoted prefix, all of them required.
pub fn attachment_match_query(query: &str) -> (r: String)
    ensures
        r@ == join(search_words(query@).map_values(|w: Seq<char>| prefix_term(w)), " AND "@),
{
    let mark = |c: char| -> (b: bool)
        ensures
            b == !crate::text::alphanumeric(c),
        {
            !c.is_alphanumeric()
        };
    let words = keep_nonempty(
        split_where(query, mark, Ghost(|c: char| !crate::text::alphanumeric(c))),
    );
    let ghost all = nonempty(split(query@, |c: char| !crate::text::alphanumeric(c)));
    let mut terms: Vec<String> = Vec::new();
    let mut i: usize = 0;
    proof {
        assert(texts(words@) == all);
        assert(all.len() == words@.len());
    }
    while i < words.len() && i < 32
        invariant
            texts(words@) == all,
            i <= words.len(),
            i <= 32,
            terms@.len() == i,
            forall|k: int| 0 <= k < i ==> (#[trigger] terms@[k])@ == prefix_term(all[k]),
        decreases words.len() - i,
    {
        proof {
            assert(all[i as int] == words@[i as int]@);
        }
        terms.push(lit("\"").concat(words[i].as_str()).concat("\"*"));
        i = i + 1;
    }
    proof {
        assert(texts(terms@) =~= search_words(query@).map_values(|w: Seq<char>| prefix_term(w)));
    }
    join_texts(&terms, " AND ")
}

/// The full-text query of an attachment search, or why it is refused.
pub fn attachment_search(query: &str) -> (r: Result<String>)
    ensures
        r is Ok <==> encode_utf8(query@).len() <= 1024,
        r matches Ok(q) ==> q@ == join(
            search_words(query@).map_values(|w: Seq<char>| prefix_term(w)),
            " AND "@,
        ),
        r matches Err(e) ==> says(e, "Search is too long."@),
{
    if query.as_bytes().len() > 1024 {
        return Err(other("Search is too long."));
    }
    Ok(attachment_match_query(query))
}

} // verus!
