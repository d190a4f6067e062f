//! What the workspace shows: pages of attachments, of a JMAP space and of a WebDAV folder, and
//! what is recorded while the storage cannot be reached.

use crate::files::folder::{Folder, Listing};
use crate::files::jmap::{self, FilePage};
use crate::files::mail_search::{attachments, Attachment, AttachmentFile, Page};
use crate::files::render::{size, size_text};
use crate::files::service::{refuses, rows, Entry, FileClient, FilesService, Outcome, Row};
use crate::files::{nodes, FileNode, Node, PAGE_SIZE};
use crate::text::{
    contains, has_text, keep_nonempty, lit, lowercase, nonempty, opt, same, split, split_char,
    split_words, texts, words,
};
use vstd::prelude::*;
use vstd::string::*;

verus! {

/// The rows of a list of attachments.
pub open spec fn attachment_rows(list: Seq<Attachment>) -> Seq<Row> {
    list.map_values(|a: Attachment| Row::Attachment(a))
}

/// The rows of a list of nodes.
pub open spec fn node_rows(list: Seq<Node>) -> Seq<Row> {
    list.map_values(|n: Node| Row::Remote(n))
}

fn push_attachments(entries: &mut Vec<Entry>, files: Vec<AttachmentFile>)
    ensures
        rows(final(entries)@) == rows(old(entries)@) + attachment_rows(attachments(files@)),
{
    let ghost start = rows(entries@);
    let ghost all = attachment_rows(attachments(files@));
    let ghost given = files@;
    proof {
        assert(start + all.take(0) =~= start);
    }
    for f in it: files
        invariant
            it.seq() == given,
            all == attachment_rows(attachments(given)),
            rows(entries@) == start + all.take(it.index()),
    {
        let ghost before = rows(entries@);
        entries.push(Entry::Attachment(f));
        proof {
            assert(all[it.index()] == Row::Attachment(f@));
            assert(rows(entries@) =~= before.push(Row::Attachment(f@)));
            assert(rows(entries@) =~= start + all.take(it.index() + 1));
        }
    }
    proof {
        assert(all.take(all.len() as int) == all);
    }
}

fn push_nodes(entries: &mut Vec<Entry>, list: Vec<FileNode>)
    ensures
        rows(final(entries)@) == rows(old(entries)@) + node_rows(nodes(list@)),
{
    let ghost start = rows(entries@);
    let ghost all = node_rows(nodes(list@));
    let ghost given = list@;
    proof {
        assert(start + all.take(0) =~= start);
    }
    for n in it: list
        invariant
            it.seq() == given,
            all == node_rows(nodes(given)),
            rows(entries@) == start + all.take(it.index()),
    {
        let ghost before = rows(entries@);
        entries.push(Entry::Remote(n));
        proof {
            assert(all[it.index()] == Row::Remote(n@));
            assert(rows(entries@) =~= before.push(Row::Remote(n@)));
            assert(rows(entries@) =~= start + all.take(it.index() + 1));
        }
    }
    proof {
        assert(all.take(all.len() as int) == all);
    }
}

/// What a refresh reads.
#[derive(Clone, Copy, Debug, PartialEq, Eq, Structural)]
pub enum Reading {
    /// Mail on the server, from that position on.
    ServerMail(usize),
    /// Mail that is here, before that attachment.
    LocalMail(Option<i64>),
    /// Storage, from that position on.
    Storage(usize),
}

/// How a storage is recorded: what names it on the server, how it is called, and its protocol.
pub struct SpaceIdentity {
    pub remote: String,
    pub name: String,
    pub protocol: &'static str,
}

impl FilesService {
    /// The position at which a refresh reads on.
    pub open spec fn resume_position(self, more: bool) -> usize {
        if more && self.next is Some {
            self.next->0
        } else {
            0
        }
    }

    /// Begin a refresh: a fresh one forgets what is shown, one for more keeps it.
    pub fn refresh(&mut self, more: bool) -> (r: Reading)
        ensures
            r == (if old(self).attachments && old(self).server_attachments {
                Reading::ServerMail(old(self).resume_position(more))
            } else if old(self).attachments {
                Reading::LocalMail(
                    if more {
                        old(self).before
                    } else {
                        None
                    },
                )
            } else {
                Reading::Storage(old(self).resume_position(more))
            }),
            if more {
                *final(self) == *old(self)
            } else {
                final(self).entries@.len() == 0 && *final(self) == (FilesService {
                    entries: final(self).entries,
                    next: None,
                    before: None,
                    query_state: None,
                    ..*old(self)
                })
            },
    {
        let position: usize = match self.next {
            Some(n) => if more {
                n
            } else {
                0
            },
            None => 0,
        };
        let before = if more {
            self.before
        } else {
            None
        };
        if !more {
            self.entries.clear();
            self.next = None;
            self.before = None;
            self.query_state = None;
        }
        if self.attachments && self.server_attachments {
            Reading::ServerMail(position)
        } else if self.attachments {
            Reading::LocalMail(before)
        } else {
            Reading::Storage(position)
        }
    }

    /// Take a page of mail on the server. A page of another state does not join the rows.
    pub fn take_mail_page(&mut self, more: bool, page: Page) -> (r: Outcome<()>)
        ensures
            if more && old(self).query_state is Some && old(self).query_state->0@ != page.state@ {
                refuses(r, "Mail changed during search. Refresh before loading more."@) && *final(
                    self) == *old(self)
            } else {
                &&& r is Ok
                &&& rows(final(self).entries@) == rows(old(self).entries@) + attachment_rows(
                    attachments(page.files@),
                )
                &&& *final(self) == (FilesService {
                    query_state: Some(page.state),
                    next: page.next,
                    entries: final(self).entries,
                    can_create: false,
                    ..*old(self)
                })
            },
    {
        if more {
            match &self.query_state {
                Some(s) => {
                    if !same(s.as_str(), page.state.as_str()) {
                        return Err(
                            lit("Mail changed during search. Refresh before loading more."),
                        );
                    }
                },
                None => {},
            }
        }
        self.query_state = Some(page.state);
        self.next = page.next;
        push_attachments(&mut self.entries, page.files);
        self.can_create = false;
        Ok(())
    }

    /// Take a page of mail that is here: one row more than a page was asked for, to know whether
    /// more follow.
    pub fn take_attachments(&mut self, files: Vec<AttachmentFile>)
        ensures
            ({
                let all = attachments(files@);
                let shown = if all.len() > PAGE_SIZE {
                    all.take(PAGE_SIZE as int)
                } else {
                    all
                };
                &&& rows(final(self).entries@) == rows(old(self).entries@) + attachment_rows(shown)
                &&& final(self).before == (if shown.len() > 0 {
                    Some(shown.last().id)
                } else {
                    None
                })
                &&& final(self).next == (if all.len() > PAGE_SIZE {
                    Some(0usize)
                } else {
                    None
                })
                &&& *final(self) == (FilesService {
                    entries: final(self).entries,
                    before: final(self).before,
                    next: final(self).next,
                    can_create: false,
                    ..*old(self)
                })
            }),
    {
        let ghost all = attachments(files@);
        let more = files.len() > PAGE_SIZE;
        let mut files = files;
        files.truncate(PAGE_SIZE);
        proof {
            assert(attachments(files@) =~= (if all.len() > PAGE_SIZE {
                all.take(PAGE_SIZE as int)
            } else {
                all
            }));
        }
        let n: usize = files.len();
        self.before = if n > 0 {
            Some(files[n - 1].id)
        } else {
            None
        };
        self.next = if more {
            Some(0)
        } else {
            None
        };
        push_attachments(&mut self.entries, files);
        self.can_create = false;
    }

    /// How the connected storage is recorded.
    pub fn space_identity(&self) -> (r: Option<SpaceIdentity>)
        ensures
            match self.client {
                None => r is None,
                Some(FileClient::Dav(c)) => r is Some && r->0.remote@ == c.root@ && r->0.name@
                    == c.root@ && r->0.protocol@ == "dav"@,
                Some(FileClient::Jmap(c)) => r is Some && r->0.remote@ == c.account_id@
                    && r->0.protocol@ == "jmap"@ && if jmap::has_space(
                    jmap::spaces(c.accounts@),
                    c.account_id@,
                ) {
                    exists|i: int|
                        0 <= i < c.accounts@.len() && (#[trigger] c.accounts@[i]).id@
                            == c.account_id@ && r->0.name@ == c.accounts@[i].name@ && forall|j: int|
                            0 <= j < i ==> (#[trigger] c.accounts@[j]).id@ != c.account_id@
                } else {
                    r->0.name@.len() == 0
                },
            },
    {
        match &self.client {
            None => None,
            Some(FileClient::Dav(c)) => Some(
                SpaceIdentity { remote: c.root.clone(), name: c.root.clone(), protocol: "dav" },
            ),
            Some(FileClient::Jmap(c)) => {
                let name = match jmap::find_space(&c.accounts, c.account_id.as_str()) {
                    Some(i) => {
                        proof {
                            let list = jmap::spaces(c.accounts@);
                            assert(list[i as int].id == c.accounts@[i as int].id@);
                            assert forall|j: int| 0 <= j < i implies (
                            #[trigger] c.accounts@[j]).id@ != c.account_id@ by {
                                assert(list[j].id == c.accounts@[j].id@);
                            }
                        }
                        c.accounts[i].name.clone()
                    },
                    None => String::new(),
                };
                Some(SpaceIdentity { remote: c.account_id.clone(), name, protocol: "jmap" })
            },
        }
    }

    /// Whether something may be made in the folder that is shown, in a JMAP space: not while
    /// searching, not in a space that is read-only, and only with the right to add to the folder.
    pub open spec fn may_create_in(self, c: jmap::FileClient) -> bool {
        self.query@.len() == 0 && !c.is_read_only() && if self.history@.len() > 0 {
            self.history@.last().my_rights.can_add()
        } else {
            c.may_create_root()
        }
    }

    /// Take a page of a JMAP space; returns whether the rows are now the whole folder, and may be
    /// recorded as such. A page of another state does not join the rows.
    pub fn take_jmap_page(&mut self, more: bool, page: FilePage) -> (r: Outcome<bool>)
        requires
            old(self).client matches Some(FileClient::Jmap(_)),
        ensures
            if more && old(self).query_state is Some && old(self).query_state->0@
                != page.query_state@ {
                refuses(
                    r,
                    "Storage changed during pagination. Refresh before loading more."@,
                ) && *final(self) == *old(self)
            } else {
                &&& r is Ok
                &&& r->Ok_0 == (old(self).query@.len() == 0 && old(self).browse@.node_type is None
                    && old(self).browse@.min_size is None && old(self).browse@.max_size is None
                    && page.next_position is None)
                &&& rows(final(self).entries@) == rows(old(self).entries@) + node_rows(
                    nodes(page.nodes@),
                )
                &&& *final(self) == (FilesService {
                    query_state: Some(page.query_state),
                    next: page.next_position,
                    can_create: match old(self).client {
                        Some(FileClient::Jmap(c)) => old(self).may_create_in(c),
                        _ => false,
                    },
                    entries: final(self).entries,
                    ..*old(self)
                })
            },
    {
        if more {
            match &self.query_state {
                Some(s) => {
                    if !same(s.as_str(), page.query_state.as_str()) {
                        return Err(
                            lit("Storage changed during pagination. Refresh before loading more."),
                        );
                    }
                },
                None => {},
            }
        }
        let n: usize = self.history.len();
        let allowed = match &self.client {
            Some(FileClient::Jmap(c)) => self.query.as_str().is_empty() && !c.read_only() && (
            if n > 0 {
                self.history[n - 1].my_rights.add()
            } else {
                c.can_create_root()
            }),
            _ => false,
        };
        self.query_state = Some(page.query_state);
        self.next = page.next_position;
        self.can_create = allowed;
        push_nodes(&mut self.entries, page.nodes);
        Ok(
            self.query.as_str().is_empty() && !self.browse.filtered()
                && page.next_position.is_none(),
        )
    }

    /// The nodes among the rows, as they are recorded.
    pub fn shown_nodes(&self) -> (r: Vec<FileNode>)
        ensures
            nodes(r@) == nodes_in(rows(self.entries@)),
    {
        let ghost all = rows(self.entries@);
        let mut out: Vec<FileNode> = Vec::new();
        let mut i: usize = 0;
        proof {
            assert(all.take(0) == Seq::<Row>::empty());
            assert(nodes(out@) =~= Seq::<Node>::empty());
        }
        while i < self.entries.len()
            invariant
                i <= self.entries.len(),
                all == rows(self.entries@),
                nodes(out@) == nodes_in(all.take(i as int)),
            decreases self.entries.len() - i,
        {
            proof {
                assert(all.take(i + 1).drop_last() == all.take(i as int));
                assert(all.take(i + 1).last() == self.entries@[i as int]@);
            }
            match &self.entries[i] {
                Entry::Remote(n) => {
                    let ghost before = nodes(out@);
                    let c = n.copy();
                    out.push(c);
                    proof {
                        assert(nodes(out@) =~= before.push(n@));
                    }
                },
                Entry::Attachment(_) => {},
            }
            i = i + 1;
        }
        proof {
            assert(all.take(all.len() as int) == all);
        }
        out
    }
}

/// The nodes among rows.
pub open spec fn nodes_in(list: Seq<Row>) -> Seq<Node>
    decreases list.len(),
{
    if list.len() == 0 {
        Seq::empty()
    } else {
        let before = nodes_in(list.drop_last());
        match list.last() {
            Row::Remote(n) => before.push(n),
            Row::Attachment(_) => before,
        }
    }
}

/// Whether a node matches every word of a search, in its name or its type.
pub open spec fn matches_words(n: Node, tokens: Seq<Seq<char>>) -> bool {
    let text = lowercase(
        n.name + " "@ + match n.media_type {
            Some(s) => s,
            None => Seq::empty(),
        },
    );
    forall|i: int| 0 <= i < tokens.len() ==> has_text(text, #[trigger] tokens[i])
}

/// How the space of a WebDAV storage is shown.
pub open spec fn dav_quota(used: Option<u64>, available: Option<u64>) -> Seq<char> {
    match (used, available) {
        (Some(u), Some(a)) => size_text(u) + " used · "@ + size_text(a) + " available"@,
        _ => Seq::empty(),
    }
}

fn node_matches(n: &FileNode, tokens: &Vec<String>) -> (r: bool)
    ensures
        r == matches_words(n@, texts(tokens@)),
{
    let kind = match &n.media_type {
        Some(s) => s.clone(),
        None => String::new(),
    };
    let text = n.name.clone().concat(" ").concat(kind.as_str());
    let folded = text.as_str().to_lowercase();
    proof {
        assert(text@ =~= n@.name + " "@ + match n@.media_type {
            Some(s) => s,
            None => Seq::empty(),
        });
    }
    let mut i: usize = 0;
    while i < tokens.len()
        invariant
            i <= tokens.len(),
            folded@ == lowercase(
                n@.name + " "@ + match n@.media_type {
                    Some(s) => s,
                    None => Seq::empty(),
                },
            ),
            forall|j: int| 0 <= j < i ==> has_text(folded@, #[trigger] texts(tokens@)[j]),
        decreases tokens.len() - i,
    {
        if !contains(folded.as_str(), tokens[i].as_str()) {
            proof {
                assert(!has_text(folded@, texts(tokens@)[i as int]));
            }
            return false;
        }
        i = i + 1;
    }
    true
}

impl FilesService {
    /// What is recorded of a WebDAV folder before it is shown: all of its nodes, with the folder as
    /// their parent. Whether something can be made in it is known from here on.
    pub fn begin_dav_listing(&mut self, listing: &Listing) -> (r: Vec<FileNode>)
        ensures
            nodes(r@) == nodes(listing.nodes@).map_values(
                |n: Node| Node { parent_id: old(self).folder(), ..n },
            ),
            *final(self) == (FilesService {
                can_create: old(self).query@.len() == 0 && listing.current.my_rights.can_add(),
                ..*old(self)
            }),
    {
        self.can_create = self.query.as_str().is_empty() && listing.current.my_rights.add();
        let parent = self.parent();
        let mut record: Vec<FileNode> = Vec::new();
        let mut i: usize = 0;
        while i < listing.nodes.len()
            invariant
                i <= listing.nodes@.len(),
                opt(parent) == old(self).folder(),
                record@.len() == i,
                forall|k: int|
                    0 <= k < i ==> (#[trigger] record@[k])@ == (Node {
                        parent_id: old(self).folder(),
                        ..listing.nodes@[k]@
                    }),
            decreases listing.nodes.len() - i,
        {
            let mut n = listing.nodes[i].copy();
            n.parent_id = parent.clone();
            record.push(n);
            i = i + 1;
        }
        proof {
            assert(nodes(record@) =~= nodes(listing.nodes@).map_values(
                |n: Node| Node { parent_id: old(self).folder(), ..n },
            ));
        }
        record
    }

    /// Show a WebDAV folder, once it is recorded. The rows are its nodes narrowed by the options and
    /// by the search, which covers this folder alone.
    pub fn take_dav_listing(&mut self, listing: Listing)
        ensures
            rows(final(self).entries@) == node_rows(
                old(self).browse@.arrange(nodes(listing.nodes@)).filter(
                    |n: Node| matches_words(n, words(lowercase(old(self).query@))),
                ),
            ),
            final(self).quota@ == dav_quota(listing.quota_used, listing.quota_available),
            *final(self) == (FilesService {
                quota: final(self).quota,
                entries: final(self).entries,
                next: None,
                ..*old(self)
            }),
    {
        self.quota = match (listing.quota_used, listing.quota_available) {
            (Some(used), Some(available)) => {
                let free = size(available);
                size(used).concat(" used · ").concat(free.as_str()).concat(" available")
            },
            _ => String::new(),
        };
        let mut list = listing.nodes;
        self.browse.apply_local(&mut list);
        let tokens = split_words(self.query.as_str().to_lowercase().as_str());
        let ghost found = texts(tokens@);
        let ghost pass = |n: Node| matches_words(n, found);
        let ghost all = nodes(list@);
        let ghost given = list@;
        let mut shown: Vec<FileNode> = Vec::new();
        proof {
            reveal(Seq::filter);
            assert(all.take(0) == Seq::<Node>::empty());
            assert(nodes(shown@) =~= all.take(0).filter(pass));
        }
        for n in it: list
            invariant
                it.seq() == given,
                all == nodes(given),
                found == texts(tokens@),
                pass == (|n: Node| matches_words(n, found)),
                nodes(shown@) == all.take(it.index()).filter(pass),
        {
            let ghost before = nodes(shown@);
            proof {
                assert(all.take(it.index() + 1) == all.take(it.index()).push(n@));
                crate::text::filter_push(all.take(it.index()), n@, pass);
            }
            if node_matches(&n, &tokens) {
                shown.push(n);
                proof {
                    assert(nodes(shown@) =~= before.push(n@));
                }
            }
        }
        proof {
            assert(all.take(all.len() as int) == all);
        }
        let mut entries: Vec<Entry> = Vec::new();
        push_nodes(&mut entries, shown);
        proof {
            assert(rows(entries@) =~= node_rows(all.filter(pass)));
        }
        self.entries = entries;
        self.next = None;
    }

    /// Show what is recorded of a space while the storage cannot be reached. What may be made is
    /// checked again before any change.
    pub fn go_offline(&mut self, space: i64, list: Vec<FileNode>)
        ensures
            rows(final(self).entries@) == node_rows(old(self).browse@.arrange(nodes(list@))),
            final(self).can_create == (old(self).query@.len() == 0 && old(self).history@.len() > 0
                && old(self).history@.last().my_rights.can_add()),
            final(self).quota@
                == "Offline · cached metadata; permissions are rechecked before changes."@,
            *final(self) == (FilesService {
                cached_space: Some(space),
                entries: final(self).entries,
                offline: true,
                next: None,
                can_create: final(self).can_create,
                quota: final(self).quota,
                ..*old(self)
            }),
    {
        self.cached_space = Some(space);
        let mut list = list;
        self.browse.apply_local(&mut list);
        let mut entries: Vec<Entry> = Vec::new();
        let ghost held = nodes(list@);
        push_nodes(&mut entries, list);
        proof {
            assert(rows(entries@) =~= node_rows(held));
        }
        self.entries = entries;
        self.offline = true;
        self.next = None;
        let n: usize = self.history.len();
        self.can_create = self.query.as_str().is_empty() && n > 0 && self.history[n
            - 1].my_rights.add();
        self.quota = lit("Offline · cached metadata; permissions are rechecked before changes.");
    }
}

/// Where a move or copy goes, as far as it can be told without asking the storage.
pub enum Destination {
    /// The folder that is shown.
    Here(Option<String>),
    /// A WebDAV folder, which must be listed.
    Folder(String),
    /// The folders of a path, to be found one below the other.
    Path(Vec<String>),
}

/// The folders of a path.
pub open spec fn path_segments(path: Seq<char>) -> Seq<Seq<char>> {
    nonempty(split(path, |c: char| c == '/'))
}

/// The deepest path that is followed.
pub const MAX_PATH_DEPTH: usize = 64;

/// The WebDAV folder that a path below the root names, or why it names none.
pub open spec fn folder_below(root: Seq<char>, url: Seq<char>, segments: Seq<Seq<char>>) -> std::result::Result<
    Seq<char>,
    Seq<char>,
>
    decreases segments.len(),
{
    if segments.len() == 0 {
        Ok(url)
    } else {
        match folder_below(root, url, segments.drop_last()) {
            Err(m) => Err(m),
            Ok(u) => crate::files::dav::child_result(root, u, segments.last(), true),
        }
    }
}

proof fn folder_below_stop(root: Seq<char>, url: Seq<char>, segments: Seq<Seq<char>>, k: int)
    requires
        0 <= k <= segments.len(),
        folder_below(root, url, segments.take(k)) is Err,
    ensures
        folder_below(root, url, segments) == folder_below(root, url, segments.take(k)),
    decreases segments.len() - k,
{
    if k == segments.len() {
        assert(segments.take(k) == segments);
    } else {
        assert(segments.take(k + 1).drop_last() == segments.take(k));
        folder_below_stop(root, url, segments, k + 1);
    }
}

impl FilesService {
    /// Where a move or copy goes.
    pub fn destination(&self, path: &str) -> (r: Outcome<Destination>)
        ensures
            if path@.len() == 0 {
                r is Ok && r->Ok_0 is Here && opt(r->Ok_0->Here_0) == self.folder()
            } else if path@[0] != '/' {
                refuses(
                    r,
                    "Use a folder path starting with /, or leave it empty for the current folder."@,
                )
            } else if path_segments(path@).len() > MAX_PATH_DEPTH {
                refuses(r, "Destination path is too deep."@)
            } else {
                match self.client {
                    None => refuses(r, "Storage is disconnected."@),
                    Some(FileClient::Dav(c)) => match folder_below(
                        c.root@,
                        c.root@,
                        path_segments(path@),
                    ) {
                        Err(m) => refuses(r, m),
                        Ok(url) => r is Ok && r->Ok_0 is Folder && r->Ok_0->Folder_0@ == url,
                    },
                    Some(FileClient::Jmap(_)) => r is Ok && r->Ok_0 is Path && texts(
                        r->Ok_0->Path_0@,
                    ) == path_segments(path@),
                }
            },
    {
        if path.is_empty() {
            return Ok(Destination::Here(self.parent()));
        }
        if path.get_char(0) != '/' {
            return Err(
                lit("Use a folder path starting with /, or leave it empty for the current folder."),
            );
        }
        let segments = keep_nonempty(split_char(path, '/'));
        let ghost all = path_segments(path@);
        proof {
            assert(texts(segments@) == all);
            assert(all.len() == segments@.len());
        }
        if segments.len() > MAX_PATH_DEPTH {
            return Err(lit("Destination path is too deep."));
        }
        match &self.client {
            None => Err(lit("Storage is disconnected.")),
            Some(FileClient::Jmap(_)) => Ok(Destination::Path(segments)),
            Some(FileClient::Dav(c)) => {
                let mut url = c.root.clone();
                let mut i: usize = 0;
                proof {
                    assert(all.take(0) == Seq::<Seq<char>>::empty());
                }
                while i < segments.len()
                    invariant
                        i <= segments.len(),
                        texts(segments@) == all,
                        folder_below(c.root@, c.root@, all.take(i as int)) is Ok,
                        folder_below(c.root@, c.root@, all.take(i as int))->Ok_0 == url@,
                        path@.len() > 0,
                        path@[0] == '/',
                        all == path_segments(path@),
                        all.len() <= MAX_PATH_DEPTH,
                        self.client == Some(FileClient::Dav(*c)),
                    decreases segments.len() - i,
                {
                    proof {
                        assert(all.take(i + 1).drop_last() == all.take(i as int));
                        assert(all.take(i + 1).last() == segments@[i as int]@);
                    }
                    match c.child_url(url.as_str(), segments[i].as_str(), true) {
                        Ok(u) => {
                            url = u;
                        },
                        Err(e) => {
                            proof {
                                folder_below_stop(c.root@, c.root@, all, i + 1);
                            }
                            return Err(e.message());
                        },
                    }
                    i = i + 1;
                }
                proof {
                    assert(all.take(all.len() as int) == all);
                }
                Ok(Destination::Folder(url))
            },
        }
    }
}

/// Whether a WebDAV folder takes new files.
pub fn check_folder(listing: &Listing) -> (r: Outcome<()>)
    ensures
        r is Ok <==> listing.current.my_rights.can_add(),
        r is Err ==> refuses(r, "You cannot add files in this folder."@),
{
    if listing.current.my_rights.add() {
        Ok(())
    } else {
        Err(lit("You cannot add files in this folder."))
    }
}

/// The first folder of that name on a page.
pub open spec fn first_folder(list: Seq<Node>, name: Seq<char>) -> Option<Node>
    decreases list.len(),
{
    if list.len() == 0 {
        None
    } else if list[0].name == name && list[0].directory() {
        Some(list[0])
    } else {
        first_folder(list.skip(1), name)
    }
}

/// How the search for a folder of a path goes on.
pub enum FolderStep {
    /// It was found: its id.
    Found(String),
    /// The next page must be read, from that position on.
    Next(usize),
}

/// Look for a folder of a path on a page of the folder above.
pub fn find_folder(page: &FilePage, segment: &str) -> (r: Outcome<FolderStep>)
    ensures
        match first_folder(nodes(page.nodes@), segment@) {
            Some(n) => if n.my_rights.can_add() {
                r is Ok && r->Ok_0 is Found && r->Ok_0->Found_0@ == n.id
            } else {
                refuses(r, "You cannot add files in this folder."@)
            },
            None => match page.next_position {
                Some(next) => r is Ok && r->Ok_0 == FolderStep::Next(next),
                None => refuses(
                    r,
                    "Destination folder ‘"@ + segment@ + "’ was not found."@,
                ),
            },
        },
{
    let ghost all = nodes(page.nodes@);
    let mut i: usize = 0;
    proof {
        assert(all.skip(0) == all);
    }
    while i < page.nodes.len()
        invariant
            i <= page.nodes.len(),
            all == nodes(page.nodes@),
            first_folder(all.skip(i as int), segment@) == first_folder(all, segment@),
        decreases page.nodes.len() - i,
    {
        let n = &page.nodes[i];
        proof {
            assert(all.skip(i as int)[0] == n@);
            assert(all.skip(i as int).skip(1) == all.skip(i + 1));
        }
        if same(n.name.as_str(), segment) && n.is_directory() {
            return if n.my_rights.add() {
                Ok(FolderStep::Found(n.id.clone()))
            } else {
                Err(lit("You cannot add files in this folder."))
            };
        }
        i = i + 1;
    }
    match page.next_position {
        Some(next) => Ok(FolderStep::Next(next)),
        None => Err(lit("Destination folder ‘").concat(segment).concat("’ was not found.")),
    }
}

} // verus!
