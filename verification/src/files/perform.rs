//! What an action of the workspace does: the checks it passes, what it changes in the workspace,
//! and what is left for the storage to do.

use crate::files::jmap::{self, spaces, BrowseOptions};
use crate::files::service::{
    place_of, refuses, Action, Entry, FileClient, FilesService, Outcome, Row,
};
use crate::files::{nodes, ConnectionSettings, Node};
use crate::text::{lit, once, opt, parse_i64, parse_u64, parsed_i64, parsed_u64, same, split_once};
use vstd::prelude::*;
use vstd::string::*;
use vstd::utf8::encode_utf8;

verus! {

/// What is left to do of an action, once its checks passed.
pub enum Command {
    /// Read the connection settings of the selected account, then refresh.
    Settings,
    /// Refresh what is shown.
    Refresh,
    /// Connect with the settings and save them, then refresh.
    Connect,
    /// Record which space of an account is selected, and then select it and refresh:
    /// the account, the space as the server names it, and as it is recorded.
    RecordSpace(i64, String, i64),
    /// Index the text of cached attachments, then refresh.
    IndexText(Option<i64>),
    /// Show the sharing notifications, after dismissing those that were shown where asked.
    Notifications(bool),
    /// Nothing.
    Idle,
    /// Ask whether anything changed since that state; refresh where it did, or where the answer
    /// cannot tell.
    Poll(Option<String>),
    /// Show the details of the selected row, with the properties that the server keeps of it where
    /// asked.
    Details(bool),
    /// Let go of the offline copy of the selected node in that space.
    Release(i64),
    /// Keep a copy of the selected row.
    Keep(Source),
    /// Save the selected row where the user chose.
    Download(Source),
    /// Show the content of the selected row.
    Preview(Source),
    /// Say that the selected row is too large to show.
    TooLarge,
    /// Create a folder in the folder that is shown.
    CreateFolder,
    /// Upload a file into the folder that is shown, or as the content of the selected node.
    Upload(bool),
    /// Copy the selected node within its space.
    CopyWithin(CopyTarget),
    /// Copy the selected node into another space, of that account.
    CopyBetween(CopyTarget, i64),
    /// Change the selected node; a move or copy first finds its destination.
    Modify,
}

/// Where the content of the selected row comes from.
#[derive(Clone, Copy, Debug, PartialEq, Eq, Structural)]
pub enum Source {
    /// The mail attachment cache.
    Mail,
    /// The content cache of an account and a space.
    Storage(i64, i64),
}

/// Where a copy between spaces goes.
pub struct CopyTarget {
    /// The space that it is copied into.
    pub space: String,
    /// The folder there, as the user gave it.
    pub path: String,
    /// The space that it is copied from, and the state that is shown of it.
    pub source: String,
    pub source_state: String,
}

/// The largest content that is shown.
pub const MAX_PREVIEW: u64 = 16777216;

/// The deepest folder that is entered.
pub const MAX_HISTORY: usize = 64;

/// A number of the user that counts from zero.
pub open spec fn index_of(a: Seq<char>) -> Option<usize> {
    match parsed_u64(a) {
        Some(n) => if n <= usize::MAX {
            Some(n as usize)
        } else {
            None
        },
        None => None,
    }
}

fn read_index(a: &str) -> (r: Option<usize>)
    ensures
        r == index_of(a@),
{
    match parse_u64(a) {
        Some(n) => if n <= usize::MAX as u64 {
            Some(n as usize)
        } else {
            None
        },
        None => None,
    }
}

/// The account that an action selects, counted from one, or why it selects none.
pub open spec fn chosen_account(dir: FilesService, action: Action, a: Seq<char>) -> std::result::Result<
    int,
    Seq<char>,
> {
    if action == Action::AccountId {
        match parsed_i64(a) {
            None => Err("Invalid account."@),
            Some(id) => if place_of(dir.accounts@, Some(id)) == 0 {
                Err("Account no longer exists."@)
            } else {
                Ok(place_of(dir.accounts@, Some(id)))
            },
        }
    } else {
        match index_of(a) {
            None => Err("Invalid account."@),
            Some(n) => if n > dir.accounts@.len() {
                Err("Account no longer exists."@)
            } else {
                Ok(n as int)
            },
        }
    }
}

/// The workspace after an account was selected: nothing of the account before stays.
pub open spec fn account_selected(
    before: FilesService,
    after: FilesService,
    index: int,
    b: Seq<char>,
) -> bool {
    &&& after.account == index
    &&& after.attachments == (if b == "attachments"@ {
        true
    } else if b == "storage"@ {
        false
    } else {
        before.attachments
    })
    &&& after.history@.len() == 0
    &&& after.entries@.len() == 0
    &&& after.query@.len() == 0
    &&& after == (FilesService {
        cached_space: None,
        offline: false,
        account: after.account,
        attachments: after.attachments,
        client: None,
        mail_search: None,
        history: after.history,
        entries: after.entries,
        can_create: false,
        query: after.query,
        ..before
    })
}

/// Whether two workspaces differ in the selected space and the connection alone.
pub open spec fn left_space(before: FilesService, after: FilesService) -> bool {
    after == (FilesService { cached_space: None, offline: false, ..before })
}

/// Whether a folder was entered; a search is over then.
pub open spec fn entered(before: FilesService, after: FilesService, n: Node) -> bool {
    &&& nodes(after.history@) == nodes(before.history@).push(n)
    &&& after.query@.len() == 0
    &&& after == (FilesService { history: after.history, query: after.query, ..before })
}

/// Whether the folder that was shown was left; there is nothing to leave at the top.
pub open spec fn left(before: FilesService, after: FilesService) -> bool {
    &&& after.history@ == (if before.history@.len() > 0 {
        before.history@.drop_last()
    } else {
        before.history@
    })
    &&& after.query@.len() == 0
    &&& after == (FilesService { history: after.history, query: after.query, ..before })
}

impl FilesService {
    /// Select an account, by its place or by its id.
    pub fn select_account(&mut self, action: Action, a: &str, b: &str) -> (r: Outcome<()>)
        requires
            action == Action::Account || action == Action::AccountId,
        ensures
            match chosen_account(*old(self), action, a@) {
                Err(m) => refuses(r, m) && left_space(*old(self), *final(self)),
                Ok(index) => r is Ok && account_selected(*old(self), *final(self), index, b@),
            },
    {
        self.cached_space = None;
        self.offline = false;
        let index: usize = match action {
            Action::AccountId => {
                let id: i64 = match parse_i64(a) {
                    Some(id) => id,
                    None => {
                        return Err(lit("Invalid account."));
                    },
                };
                let place: usize = crate::files::service::find_account(&self.accounts, id);
                if place == 0 {
                    return Err(lit("Account no longer exists."));
                }
                place
            },
            _ => match read_index(a) {
                Some(n) => n,
                None => {
                    return Err(lit("Invalid account."));
                },
            },
        };
        if index > self.accounts.len() {
            return Err(lit("Account no longer exists."));
        }
        self.account = index;
        proof {
            reveal_strlit("attachments");
            reveal_strlit("storage");
            assert("attachments"@[0] != "storage"@[0]);
        }
        if same(b, "attachments") {
            self.attachments = true;
        } else if same(b, "storage") {
            self.attachments = false;
        }
        self.client = None;
        self.mail_search = None;
        self.history.clear();
        self.entries.clear();
        self.can_create = false;
        self.query = String::new();
        Ok(())
    }

    /// Search mail here, or on the server.
    pub fn attachment_source(&mut self, a: &str)
        ensures
            final(self).server_attachments == (a@ == "server"@),
            final(self).query@.len() == 0,
            *final(self) == (FilesService {
                server_attachments: final(self).server_attachments,
                query_state: None,
                query: final(self).query,
                ..*old(self)
            }),
    {
        self.server_attachments = same(a, "server");
        self.query_state = None;
        self.query = String::new();
    }

    /// Show attachments, or storage.
    pub fn scope(&mut self, a: &str)
        ensures
            final(self).attachments == (a@ == "attachments"@),
            final(self).query@.len() == 0,
            *final(self) == (FilesService {
                attachments: final(self).attachments,
                query: final(self).query,
                ..*old(self)
            }),
    {
        self.attachments = same(a, "attachments");
        self.query = String::new();
    }

    /// Take the settings of a connection that is to be made.
    pub fn set_connection(&mut self, a: &str, b: &str)
        ensures
            !final(self).attachments,
            final(self).history@.len() == 0,
            final(self).entries@.len() == 0,
            final(self).settings.endpoint@ == a@,
            final(self).settings.webdav == (b@ == "dav"@),
            *final(self) == (FilesService {
                attachments: false,
                history: final(self).history,
                entries: final(self).entries,
                cached_space: None,
                settings: final(self).settings,
                ..*old(self)
            }),
    {
        self.attachments = false;
        self.history.clear();
        self.entries.clear();
        self.cached_space = None;
        self.settings = ConnectionSettings { endpoint: lit(a), webdav: same(b, "dav") };
    }

    /// The recorded space that is asked for while offline: the account, the space as the server
    /// names it, and as it is recorded.
    fn cached_space_at(&self, a: &str) -> (r: Outcome<(i64, String, i64)>)
        ensures
            ({
                let spaces = self.cached_spaces@;
                let index = index_of(a@);
                if index is None {
                    refuses(r, "Invalid storage space."@)
                } else if index->0 >= spaces.len() {
                    refuses(r, "Storage space is unavailable offline."@)
                } else if self.selected_account() is None {
                    refuses(r, "Select an account."@)
                } else {
                    let space = spaces[index->0 as int];
                    &&& r is Ok
                    &&& Some(r->Ok_0.0) == self.selected_account()
                    &&& r->Ok_0.1@ == space.2@
                    &&& r->Ok_0.2 == space.0
                }
            }),
    {
        let index: usize = match read_index(a) {
            Some(n) => n,
            None => {
                return Err(lit("Invalid storage space."));
            },
        };
        if index >= self.cached_spaces.len() {
            return Err(lit("Storage space is unavailable offline."));
        }
        let account: i64 = match self.account_id() {
            Some(id) => id,
            None => {
                return Err(lit("Select an account."));
            },
        };
        Ok((account, self.cached_spaces[index].2.clone(), self.cached_spaces[index].0))
    }

    /// Select a recorded space, once it is recorded as the one that is selected.
    pub fn select_cached_space(&mut self, space: i64)
        ensures
            final(self).history@.len() == 0,
            final(self).query@.len() == 0,
            *final(self) == (FilesService {
                cached_space: Some(space),
                client: None,
                history: final(self).history,
                query: final(self).query,
                ..*old(self)
            }),
    {
        self.cached_space = Some(space);
        self.client = None;
        self.history.clear();
        self.query = String::new();
    }

    /// Select a space of the connection.
    pub fn select_space(&mut self, a: &str) -> (r: Outcome<()>)
        ensures
            match old(self).client {
                None => refuses(r, "Storage is disconnected."@) && *final(self) == *old(self),
                Some(FileClient::Dav(_)) => refuses(
                    r,
                    "Shared WebDAV spaces use their own connection URL."@,
                ) && *final(self) == *old(self),
                Some(FileClient::Jmap(c)) => {
                    let index = index_of(a@);
                    if index is None {
                        refuses(r, "Invalid storage space."@) && *final(self) == *old(self)
                    } else if index->0 >= c.accounts@.len() {
                        refuses(r, "Storage space is unavailable."@) && *final(self) == *old(self)
                    } else {
                        &&& r is Ok
                        &&& final(self).client matches Some(FileClient::Jmap(now)) && now.account_id@
                            == c.accounts@[index->0 as int].id@ && now == (jmap::FileClient {
                            account_id: now.account_id,
                            state: None,
                            ..c
                        })
                        &&& final(self).history@.len() == 0
                        &&& final(self).query@.len() == 0
                        &&& *final(self) == (FilesService {
                            client: final(self).client,
                            history: final(self).history,
                            query: final(self).query,
                            ..*old(self)
                        })
                    }
                },
            },
    {
        match &self.client {
            None => {
                return Err(lit("Storage is disconnected."));
            },
            Some(FileClient::Dav(_)) => {
                return Err(lit("Shared WebDAV spaces use their own connection URL."));
            },
            Some(FileClient::Jmap(c)) => {
                let index: usize = match read_index(a) {
                    Some(n) => n,
                    None => {
                        return Err(lit("Invalid storage space."));
                    },
                };
                if index >= c.accounts.len() {
                    return Err(lit("Storage space is unavailable."));
                }
                let id = c.accounts[index].id.clone();
                let ghost whole = *c;
                match self.client.take() {
                    Some(FileClient::Jmap(c)) => {
                        let mut c = c;
                        proof {
                            assert(spaces(c.accounts@)[index as int].id == id@);
                        }
                        match c.select_account(id.as_str()) {
                            Ok(_) => {},
                            Err(_) => {},
                        }
                        self.client = Some(FileClient::Jmap(c));
                    },
                    other => {
                        self.client = other;
                    },
                }
                self.history.clear();
                self.query = String::new();
                Ok(())
            },
        }
    }

    /// Narrow and order what is shown. Options that could not be read, or that ask for what is not
    /// there, are refused; a folder has no size to narrow by.
    pub fn set_filter(&mut self, options: Option<BrowseOptions>) -> (r: Outcome<()>)
        ensures
            match options {
                None => refuses(r, "Invalid file filters."@) && *final(self) == *old(self),
                Some(o) => match filter_failure(o@) {
                    Some(m) => refuses(r, m) && *final(self) == *old(self),
                    None => {
                        &&& r is Ok
                        &&& final(self).browse@ == (if o@.node_type == Some("directory"@) {
                            jmap::Browse { min_size: None, max_size: None, ..o@ }
                        } else {
                            o@
                        })
                        &&& *final(self) == (FilesService {
                            browse: final(self).browse,
                            ..*old(self)
                        })
                    },
                },
            },
    {
        let mut o = match options {
            Some(o) => o,
            None => {
                return Err(lit("Invalid file filters."));
            },
        };
        let sort = o.sort.as_str();
        if !(same(sort, "name") || same(sort, "size") || same(sort, "nodeType")) {
            return Err(lit("Unsupported file sorting."));
        }
        let folders = match &o.node_type {
            Some(kind) => {
                if !(same(kind.as_str(), "file") || same(kind.as_str(), "directory")) {
                    return Err(lit("Unsupported file kind."));
                }
                same(kind.as_str(), "directory")
            },
            None => false,
        };
        match (o.min_size, o.max_size) {
            (Some(low), Some(high)) => {
                if low > high {
                    return Err(lit("Minimum size exceeds maximum size."));
                }
            },
            _ => {},
        }
        if folders {
            o.min_size = None;
            o.max_size = None;
        }
        self.browse = o;
        Ok(())
    }

    /// Search what is shown.
    pub fn search(&mut self, a: &str) -> (r: Outcome<()>)
        ensures
            if encode_utf8(a@).len() > 1024 {
                refuses(r, "Search is too long."@) && *final(self) == *old(self)
            } else {
                r is Ok && final(self).query@ == a@ && *final(self) == (FilesService {
                    query: final(self).query,
                    ..*old(self)
                })
            },
    {
        if a.as_bytes().len() > 1024 {
            return Err(lit("Search is too long."));
        }
        self.query = lit(a);
        Ok(())
    }

    /// Leave the folder that is shown.
    pub fn up(&mut self)
        ensures
            left(*old(self), *final(self)),
    {
        let ghost before = self.history@;
        let _ = self.history.pop();
        proof {
            if before.len() > 0 {
                assert(self.history@ =~= before.drop_last());
            }
        }
        self.query = String::new();
    }

    /// Enter the selected folder.
    pub fn enter(&mut self, selected: i32) -> (r: Outcome<()>)
        ensures
            match old(self).row(selected) {
                None => refuses(r, "Select a file first."@) && *final(self) == *old(self),
                Some(Row::Attachment(_)) => refuses(r, "Select a folder."@) && *final(self) == *old(
                    self),
                Some(Row::Remote(n)) => if !n.directory() {
                    refuses(r, "Select a folder."@) && *final(self) == *old(self)
                } else if old(self).history@.len() >= MAX_HISTORY {
                    refuses(r, "Folder path is too deep."@) && *final(self) == *old(self)
                } else {
                    r is Ok && entered(*old(self), *final(self), n)
                },
            },
    {
        let n = match self.selected(selected) {
            Ok(Entry::Remote(n)) => n.copy(),
            Ok(_) => {
                return Err(lit("Select a folder."));
            },
            Err(e) => {
                return Err(e);
            },
        };
        if !n.is_directory() {
            return Err(lit("Select a folder."));
        }
        if self.history.len() >= MAX_HISTORY {
            return Err(lit("Folder path is too deep."));
        }
        let ghost before = nodes(self.history@);
        self.history.push(n);
        proof {
            assert(nodes(self.history@) =~= before.push(n@));
        }
        self.query = String::new();
        Ok(())
    }
}

/// Why options are refused, if they are.
pub open spec fn filter_failure(o: jmap::Browse) -> Option<Seq<char>> {
    if !(o.sort == "name"@ || o.sort == "size"@ || o.sort == "nodeType"@) {
        Some("Unsupported file sorting."@)
    } else if o.node_type is Some && !(o.node_type->0 == "file"@ || o.node_type->0
        == "directory"@) {
        Some("Unsupported file kind."@)
    } else if o.min_size is Some && o.max_size is Some && o.min_size->0 > o.max_size->0 {
        Some("Minimum size exceeds maximum size."@)
    } else {
        None
    }
}

/// Entering a folder and leaving it again shows what was shown: the folders passed on the way are
/// the same, and nothing else changed but the search, which is over.
pub proof fn leaving_undoes_entering(
    before: FilesService,
    within: FilesService,
    after: FilesService,
    n: Node,
)
    requires
        entered(before, within, n),
        left(within, after),
    ensures
        nodes(after.history@) == nodes(before.history@),
        after.query@.len() == 0,
        after == (FilesService { history: after.history, query: after.query, ..before }),
{
    assert(nodes(within.history@).len() == within.history@.len());
    assert(nodes(after.history@) =~= nodes(within.history@).drop_last());
    assert(nodes(before.history@).push(n).drop_last() =~= nodes(before.history@));
}

/// Where the content of a row comes from, or why it cannot be had.
pub open spec fn source_of(dir: FilesService, row: Row) -> std::result::Result<Source, Seq<char>> {
    match row {
        Row::Attachment(_) => Ok(Source::Mail),
        Row::Remote(_) => if dir.selected_account() is None {
            Err("Select an account."@)
        } else if dir.cached_space is None {
            Err("Refresh storage."@)
        } else {
            Ok(Source::Storage(dir.selected_account()->0, dir.cached_space->0))
        },
    }
}

/// What an action does with the content of the selected row, or why it does nothing.
pub open spec fn content_result(
    dir: FilesService,
    action: Action,
    selected: i32,
    has_path: bool,
) -> std::result::Result<Command, Seq<char>> {
    match dir.row(selected) {
        None => Err("Select a file first."@),
        Some(row) => if action == Action::Details {
            Ok(
                Command::Details(
                    row is Remote && (dir.client matches Some(FileClient::Dav(_))) && !dir.offline,
                ),
            )
        } else if action == Action::ReleaseOffline {
            if row is Attachment {
                Err("Attachment caching is managed by Mail."@)
            } else if dir.cached_space is None {
                Err("Refresh storage."@)
            } else {
                Ok(Command::Release(dir.cached_space->0))
            }
        } else if action == Action::Download && !has_path {
            Err("Choose a download destination."@)
        } else if action == Action::Preview && row is Remote && row->Remote_0.size is Some
            && row->Remote_0.size->0 > MAX_PREVIEW {
            Ok(Command::TooLarge)
        } else {
            match source_of(dir, row) {
                Err(m) => Err(m),
                Ok(source) => Ok(
                    if action == Action::KeepOffline {
                        Command::Keep(source)
                    } else if action == Action::Download {
                        Command::Download(source)
                    } else {
                        Command::Preview(source)
                    },
                ),
            }
        },
    }
}

/// What an upload does, or why it does nothing.
pub open spec fn upload_result(
    dir: FilesService,
    action: Action,
    selected: i32,
    has_path: bool,
) -> std::result::Result<Command, Seq<char>> {
    let replace = action == Action::Replace;
    let row = dir.row(selected);
    if replace && row is None {
        Err("Select a file first."@)
    } else if replace && !(row->0 is Remote && row->0->Remote_0.my_rights.can_modify()
        && !row->0->Remote_0.directory()) {
        Err("This file cannot be replaced."@)
    } else if !replace && !dir.can_create {
        Err("You cannot upload into this folder."@)
    } else if !has_path {
        Err("Choose a file to upload."@)
    } else if dir.client is None {
        Err("Storage is disconnected."@)
    } else {
        Ok(Command::Upload(replace))
    }
}

/// Why a node may not be changed so, if it may not.
pub open spec fn change_refusal(action: Action, n: Node) -> Option<Seq<char>> {
    if (action == Action::Metadata || action == Action::RemoveProperty)
        && !n.my_rights.can_modify() {
        Some("You cannot change this file’s properties."@)
    } else if (action == Action::Rename || action == Action::Move) && !n.my_rights.can_rename() {
        Some("You cannot move or rename this file."@)
    } else if action == Action::Delete && !n.my_rights.can_delete() {
        Some("You cannot delete this file."@)
    } else if (action == Action::Share || action == Action::Unshare) && !n.my_rights.may_share {
        Some("You cannot change sharing for this file."@)
    } else {
        None
    }
}

/// Whether the selected row may be changed so, or why it may not.
pub open spec fn modify_result(dir: FilesService, action: Action, selected: i32) -> std::result::Result<
    Command,
    Seq<char>,
> {
    match dir.row(selected) {
        None => Err("Select a file first."@),
        Some(Row::Attachment(_)) => Err("Email attachments cannot be changed in storage."@),
        Some(Row::Remote(n)) => match change_refusal(action, n) {
            Some(m) => Err(m),
            None => Ok(Command::Modify),
        },
    }
}

/// Why a copy into a space cannot begin, if it cannot.
pub open spec fn copy_space_failure(dir: FilesService, b: Seq<char>, selected: i32) -> Option<
    Seq<char>,
> {
    match dir.row(selected) {
        None => Some("Select a file first."@),
        Some(Row::Attachment(_)) => Some("Select a storage file or folder."@),
        Some(Row::Remote(n)) => if !n.my_rights.may_read {
            Some("You cannot read this file."@)
        } else if once(b, '|') is None {
            Some("Invalid destination."@)
        } else {
            match index_of((once(b, '|')->0).0) {
                None => Some("Invalid storage space."@),
                Some(index) => match dir.client {
                    Some(FileClient::Jmap(c)) => if index >= c.accounts@.len() {
                        Some("Storage space is unavailable."@)
                    } else if c.state is None {
                        Some("Refresh before copying."@)
                    } else if c.accounts@[index as int].id@ != c.account_id@
                        && dir.selected_account() is None {
                        Some("Select an account."@)
                    } else {
                        None
                    },
                    _ => Some("Copy between storage spaces requires JMAP."@),
                },
            }
        },
    }
}

/// Whether a target is the space and the folder that the user named.
pub open spec fn is_copy_target(t: CopyTarget, c: jmap::FileClient, b: Seq<char>) -> bool {
    let (space, path) = once(b, '|')->0;
    &&& t.space@ == c.accounts@[index_of(space)->0 as int].id@
    &&& t.path@ == path
    &&& t.source@ == c.account_id@
    &&& t.source_state@ == c.state->0@
}

/// Whether a command copies the selected node as the user asked.
pub open spec fn copies_space(dir: FilesService, b: Seq<char>, command: Command) -> bool {
    match dir.client {
        Some(FileClient::Jmap(c)) => match command {
            Command::CopyWithin(t) => is_copy_target(t, c, b) && t.space@ == c.account_id@,
            Command::CopyBetween(t, account) => is_copy_target(t, c, b) && t.space@ != c.account_id@
                && Some(account) == dir.selected_account(),
            _ => false,
        },
        _ => false,
    }
}

impl FilesService {
    fn source(&self, entry: &Entry) -> (r: Outcome<Source>)
        ensures
            match source_of(*self, entry@) {
                Ok(source) => r == Ok::<Source, String>(source),
                Err(m) => refuses(r, m),
            },
    {
        match entry {
            Entry::Attachment(_) => Ok(Source::Mail),
            Entry::Remote(_) => {
                let account: i64 = match self.account_id() {
                    Some(id) => id,
                    None => {
                        return Err(lit("Select an account."));
                    },
                };
                match self.cached_space {
                    Some(space) => Ok(Source::Storage(account, space)),
                    None => Err(lit("Refresh storage.")),
                }
            },
        }
    }

    fn content(&self, action: Action, selected: i32, has_path: bool) -> (r: Outcome<Command>)
        requires
            action == Action::Preview || action == Action::Download || action == Action::Details
                || action == Action::KeepOffline || action == Action::ReleaseOffline,
        ensures
            match content_result(*self, action, selected, has_path) {
                Ok(command) => r == Ok::<Command, String>(command),
                Err(m) => refuses(r, m),
            },
    {
        let entry = match self.selected(selected) {
            Ok(e) => e,
            Err(e) => {
                return Err(e);
            },
        };
        let remote = matches!(entry, Entry::Remote(_));
        match action {
            Action::Details => {
                let dav = matches!(self.client, Some(FileClient::Dav(_)));
                return Ok(Command::Details(remote && dav && !self.offline));
            },
            Action::ReleaseOffline => {
                if !remote {
                    return Err(lit("Attachment caching is managed by Mail."));
                }
                return match self.cached_space {
                    Some(space) => Ok(Command::Release(space)),
                    None => Err(lit("Refresh storage.")),
                };
            },
            Action::Download => {
                if !has_path {
                    return Err(lit("Choose a download destination."));
                }
            },
            Action::Preview => {
                match entry {
                    Entry::Remote(n) => match n.size {
                        Some(size) => {
                            if size > MAX_PREVIEW {
                                return Ok(Command::TooLarge);
                            }
                        },
                        None => {},
                    },
                    Entry::Attachment(_) => {},
                }
            },
            _ => {},
        }
        let source = match self.source(entry) {
            Ok(s) => s,
            Err(e) => {
                return Err(e);
            },
        };
        Ok(
            match action {
                Action::KeepOffline => Command::Keep(source),
                Action::Download => Command::Download(source),
                _ => Command::Preview(source),
            },
        )
    }

    fn upload(&self, action: Action, selected: i32, has_path: bool) -> (r: Outcome<Command>)
        requires
            action == Action::Upload || action == Action::Replace,
        ensures
            match upload_result(*self, action, selected, has_path) {
                Ok(command) => r == Ok::<Command, String>(command),
                Err(m) => refuses(r, m),
            },
    {
        let replace = matches!(action, Action::Replace);
        if replace {
            let replaceable = match self.selected(selected) {
                Ok(Entry::Remote(n)) => n.my_rights.modify() && !n.is_directory(),
                Ok(_) => false,
                Err(e) => {
                    return Err(e);
                },
            };
            if !replaceable {
                return Err(lit("This file cannot be replaced."));
            }
        } else if !self.can_create {
            return Err(lit("You cannot upload into this folder."));
        }
        if !has_path {
            return Err(lit("Choose a file to upload."));
        }
        if self.client.is_none() {
            return Err(lit("Storage is disconnected."));
        }
        Ok(Command::Upload(replace))
    }

    fn modify(&self, action: Action, selected: i32) -> (r: Outcome<Command>)
        ensures
            match modify_result(*self, action, selected) {
                Ok(command) => r == Ok::<Command, String>(command),
                Err(m) => refuses(r, m),
            },
    {
        let n = match self.selected(selected) {
            Ok(Entry::Remote(n)) => n,
            Ok(_) => {
                return Err(lit("Email attachments cannot be changed in storage."));
            },
            Err(e) => {
                return Err(e);
            },
        };
        match action {
            Action::Metadata | Action::RemoveProperty => {
                if !n.my_rights.modify() {
                    return Err(lit("You cannot change this file’s properties."));
                }
            },
            Action::Rename | Action::Move => {
                if !n.my_rights.rename() {
                    return Err(lit("You cannot move or rename this file."));
                }
            },
            Action::Delete => {
                if !n.my_rights.delete() {
                    return Err(lit("You cannot delete this file."));
                }
            },
            Action::Share | Action::Unshare => {
                if !n.my_rights.may_share {
                    return Err(lit("You cannot change sharing for this file."));
                }
            },
            _ => {},
        }
        Ok(Command::Modify)
    }

    fn copy_space(&self, b: &str, selected: i32) -> (r: Outcome<Command>)
        ensures
            match copy_space_failure(*self, b@, selected) {
                Some(m) => refuses(r, m),
                None => r is Ok && copies_space(*self, b@, r->Ok_0),
            },
    {
        match self.selected(selected) {
            Ok(Entry::Remote(n)) => {
                if !n.my_rights.may_read {
                    return Err(lit("You cannot read this file."));
                }
            },
            Ok(_) => {
                return Err(lit("Select a storage file or folder."));
            },
            Err(e) => {
                return Err(e);
            },
        }
        let (space, path) = match split_once(b, '|') {
            Some(parts) => parts,
            None => {
                return Err(lit("Invalid destination."));
            },
        };
        let index: usize = match read_index(space.as_str()) {
            Some(n) => n,
            None => {
                return Err(lit("Invalid storage space."));
            },
        };
        let c = match &self.client {
            Some(FileClient::Jmap(c)) => c,
            _ => {
                return Err(lit("Copy between storage spaces requires JMAP."));
            },
        };
        if index >= c.accounts.len() {
            return Err(lit("Storage space is unavailable."));
        }
        let state = match &c.state {
            Some(s) => s.clone(),
            None => {
                return Err(lit("Refresh before copying."));
            },
        };
        let target = CopyTarget {
            space: c.accounts[index].id.clone(),
            path,
            source: c.account_id.clone(),
            source_state: state,
        };
        if same(target.space.as_str(), c.account_id.as_str()) {
            return Ok(Command::CopyWithin(target));
        }
        match self.account_id() {
            Some(account) => Ok(Command::CopyBetween(target, account)),
            None => Err(lit("Select an account.")),
        }
    }
}

/// What an action that leaves the workspace as it is leads to, or why it leads to nothing.
pub open spec fn plain_result(
    dir: FilesService,
    action: Action,
    selected: i32,
    has_path: bool,
) -> std::result::Result<Command, Seq<char>> {
    match action {
        Action::Load => Ok(Command::Settings),
        Action::Refresh | Action::More => Ok(Command::Refresh),
        Action::IndexText => Ok(Command::IndexText(dir.selected_account())),
        Action::Notifications | Action::ClearNotifications => if !(dir.client matches Some(
            FileClient::Jmap(_),
        )) {
            Err("Sharing notifications require JMAP storage."@)
        } else if action == Action::ClearNotifications && dir.notification_ids@.len() > 0 {
            if dir.notification_state is None {
                Err("Reload sharing activity before clearing it."@)
            } else {
                Ok(Command::Notifications(true))
            }
        } else {
            Ok(Command::Notifications(false))
        },
        Action::Preview
        | Action::Download
        | Action::Details
        | Action::KeepOffline
        | Action::ReleaseOffline => content_result(dir, action, selected, has_path),
        Action::Folder => if !dir.can_create {
            Err("You cannot create files in this folder."@)
        } else if dir.client is None {
            Err("Storage is disconnected."@)
        } else {
            Ok(Command::CreateFolder)
        },
        Action::Upload | Action::Replace => upload_result(dir, action, selected, has_path),
        _ => modify_result(dir, action, selected),
    }
}

/// No command goes out that the user has no right to or that lacks what it needs: a node is renamed or
/// moved, deleted, shared or given properties where its rights let, a file is replaced where its
/// content may be changed, and something is added where the folder takes it. A download has a
/// place to go to, and what is read comes from the space that is shown, or from mail.
pub proof fn commands_need_their_rights(
    dir: FilesService,
    action: Action,
    selected: i32,
    has_path: bool,
)
    requires
        plain_result(dir, action, selected, has_path) is Ok,
    ensures
        ({
            let command = plain_result(dir, action, selected, has_path)->Ok_0;
            let row = dir.row(selected);
            let there = row is Some && row->0 is Remote;
            let rights = row->0->Remote_0.my_rights;
            let stored = dir.selected_account() is Some && dir.cached_space is Some;
            let storage = Source::Storage(dir.selected_account()->0, dir.cached_space->0);
            let reads = |source: Source|
                row is Some && (if row->0 is Remote {
                    stored && source == storage
                } else {
                    source == Source::Mail
                });
            &&& action == Action::Rename || action == Action::Move ==> command == Command::Modify
                && there && (rights.may_rename || rights.may_write)
            &&& action == Action::Delete ==> command == Command::Modify && there && (
            rights.may_delete || rights.may_write)
            &&& action == Action::Share || action == Action::Unshare ==> command == Command::Modify
                && there && rights.may_share
            &&& action == Action::Metadata || action == Action::RemoveProperty ==> command
                == Command::Modify && there && (rights.may_modify_content || rights.may_write)
            &&& action == Action::Replace ==> command == Command::Upload(true) && there && (
            rights.may_modify_content || rights.may_write) && !row->0->Remote_0.directory()
                && has_path && dir.client is Some
            &&& action == Action::Upload ==> command == Command::Upload(false) && dir.can_create
                && has_path && dir.client is Some
            &&& action == Action::Folder ==> command == Command::CreateFolder && dir.can_create
                && dir.client is Some
            &&& action == Action::Download ==> has_path && command is Download && reads(
                command->Download_0,
            )
            &&& action == Action::KeepOffline ==> command is Keep && reads(command->Keep_0)
            &&& action == Action::Preview ==> command == Command::TooLarge || (command is Preview
                && reads(command->Preview_0) && (there && row->0->Remote_0.size is Some
                ==> row->0->Remote_0.size->0 <= MAX_PREVIEW))
            &&& action == Action::ReleaseOffline ==> there && dir.cached_space is Some && command
                == Command::Release(dir.cached_space->0)
            &&& action == Action::Details ==> row is Some && command is Details
            &&& action == Action::Refresh || action == Action::More ==> command == Command::Refresh
            &&& action == Action::Load ==> command == Command::Settings
        }),
{
}

/// Of the commands that leave the place as it is, those that change storage are those of the actions
/// that are recorded as changes before they are sent.
pub proof fn changes_are_known_as_changes(
    dir: FilesService,
    action: Action,
    selected: i32,
    has_path: bool,
)
    requires
        !action.manages_operations() && !moves_about(action),
        action != Action::Poll && action != Action::CopySpace,
        plain_result(dir, action, selected, has_path) is Ok,
    ensures
        ({
            let command = plain_result(dir, action, selected, has_path)->Ok_0;
            action.mutates() <==> command == Command::Modify || command is Upload || command
                == Command::CreateFolder
        }),
{
}

/// Who has the right to change a node is not refused.
pub proof fn rights_suffice(dir: FilesService, action: Action, selected: i32, has_path: bool)
    requires
        dir.row(selected) is Some && dir.row(selected)->0 is Remote,
    ensures
        ({
            let rights = dir.row(selected)->0->Remote_0.my_rights;
            let allowed = plain_result(dir, action, selected, has_path) == Ok::<Command, Seq<char>>(
                Command::Modify,
            );
            &&& (action == Action::Rename || action == Action::Move) && (rights.may_rename
                || rights.may_write) ==> allowed
            &&& action == Action::Delete && (rights.may_delete || rights.may_write) ==> allowed
            &&& (action == Action::Share || action == Action::Unshare) && rights.may_share
                ==> allowed
            &&& (action == Action::Metadata || action == Action::RemoveProperty) && (
            rights.may_modify_content || rights.may_write) ==> allowed
            &&& action == Action::Copy ==> allowed
        }),
{
}

/// Whether an action may change the workspace before anything is asked of the storage.
pub open spec fn moves_about(action: Action) -> bool {
    match action {
        Action::Account
        | Action::AccountId
        | Action::AttachmentSource
        | Action::Scope
        | Action::Connect
        | Action::Space
        | Action::Filter
        | Action::Search
        | Action::Up
        | Action::Enter => true,
        _ => false,
    }
}

/// Begin an action: what it changes in the workspace, and what is left to do. `gone` says whether
/// the account that was selected is no longer there, `has_path` whether the user chose a file, and
/// `filter` holds the options of a filter where they could be read. Removal of an account
/// invalidates its session before any action but the selection of another.
pub fn perform(
    dir: &mut FilesService,
    gone: bool,
    action: Action,
    a: &str,
    b: &str,
    selected: i32,
    has_path: bool,
    filter: Option<BrowseOptions>,
) -> (r: Outcome<Command>)
    requires
        !action.manages_operations(),
    ensures
        ({
            let lost = gone && action != Action::Account && action != Action::AccountId;
            &&& lost ==> refuses(
                r,
                "The selected account was removed. Select another account."@,
            ) && *final(dir) == *old(dir)
            &&& !lost && (action == Action::Account || action == Action::AccountId)
                ==> match chosen_account(*old(dir), action, a@) {
                Err(m) => refuses(r, m) && left_space(*old(dir), *final(dir)),
                Ok(index) => r == Ok::<Command, String>(Command::Settings) && account_selected(
                    *old(dir),
                    *final(dir),
                    index,
                    b@,
                ),
            }
            &&& !lost && action == Action::AttachmentSource ==> r == Ok::<Command, String>(
                Command::Refresh,
            ) && final(dir).server_attachments == (a@ == "server"@) && final(dir).query@.len() == 0
                && *final(dir) == (FilesService {
                server_attachments: final(dir).server_attachments,
                query_state: None,
                query: final(dir).query,
                ..*old(dir)
            })
            &&& !lost && action == Action::Scope ==> r == Ok::<Command, String>(Command::Refresh)
                && final(dir).attachments == (a@ == "attachments"@) && final(dir).query@.len() == 0
                && *final(dir) == (FilesService {
                attachments: final(dir).attachments,
                query: final(dir).query,
                ..*old(dir)
            })
            &&& !lost && action == Action::Connect ==> r == Ok::<Command, String>(Command::Connect)
                && final(dir).history@.len() == 0 && final(dir).entries@.len() == 0 && final(
                dir).settings.endpoint@ == a@ && final(dir).settings.webdav == (b@ == "dav"@)
                && *final(dir) == (FilesService {
                attachments: false,
                history: final(dir).history,
                entries: final(dir).entries,
                cached_space: None,
                settings: final(dir).settings,
                ..*old(dir)
            })
            &&& !lost && action == Action::Search ==> if encode_utf8(a@).len() > 1024 {
                refuses(r, "Search is too long."@) && *final(dir) == *old(dir)
            } else {
                r == Ok::<Command, String>(Command::Refresh) && final(dir).query@ == a@ && *final(
                    dir) == (FilesService { query: final(dir).query, ..*old(dir) })
            }
            &&& !lost && action == Action::Up ==> r == Ok::<Command, String>(Command::Refresh) && left(
                *old(dir),
                *final(dir),
            )
            &&& !lost && action == Action::Filter ==> match filter {
                None => refuses(r, "Invalid file filters."@) && *final(dir) == *old(dir),
                Some(o) => match filter_failure(o@) {
                    Some(m) => refuses(r, m) && *final(dir) == *old(dir),
                    None => r == Ok::<Command, String>(Command::Refresh) && final(dir).browse@ == (
                    if o@.node_type == Some("directory"@) {
                        jmap::Browse { min_size: None, max_size: None, ..o@ }
                    } else {
                        o@
                    }) && *final(dir) == (FilesService { browse: final(dir).browse, ..*old(dir) }),
                },
            }
            &&& !lost && action == Action::Enter ==> match old(dir).row(selected) {
                Some(Row::Remote(n)) if n.directory() && old(dir).history@.len() < MAX_HISTORY => r
                    == Ok::<Command, String>(Command::Refresh) && entered(
                    *old(dir),
                    *final(dir),
                    n,
                ),
                Some(Row::Remote(n)) if n.directory() => refuses(r, "Folder path is too deep."@)
                    && *final(dir) == *old(dir),
                Some(_) => refuses(r, "Select a folder."@) && *final(dir) == *old(dir),
                None => refuses(r, "Select a file first."@) && *final(dir) == *old(dir),
            }
            &&& !lost && action == Action::Space ==> space_selected(*old(dir), *final(dir), a@, r)
            &&& !lost && !moves_about(action) ==> *final(dir) == *old(dir)
            &&& !lost && action == Action::Poll ==> r is Ok && match old(dir).client {
                _ if old(dir).attachments => r->Ok_0 is Idle,
                Some(FileClient::Jmap(c)) => r->Ok_0 is Poll && opt(r->Ok_0->Poll_0) == opt(
                    c.state,
                ),
                _ => r->Ok_0 is Poll && r->Ok_0->Poll_0 is None,
            }
            &&& !lost && action == Action::CopySpace ==> match copy_space_failure(
                *old(dir),
                b@,
                selected,
            ) {
                Some(m) => refuses(r, m),
                None => r is Ok && copies_space(*old(dir), b@, r->Ok_0),
            }
            &&& !lost && !moves_about(action) && action != Action::Poll && action
                != Action::CopySpace ==> match plain_result(*old(dir), action, selected, has_path) {
                Ok(command) => r == Ok::<Command, String>(command),
                Err(m) => refuses(r, m),
            }
        }),
{
    if gone && !matches!(action, Action::Account | Action::AccountId) {
        return Err(lit("The selected account was removed. Select another account."));
    }
    match action {
        Action::Load => Ok(Command::Settings),
        Action::Account | Action::AccountId => match dir.select_account(action, a, b) {
            Ok(_) => Ok(Command::Settings),
            Err(e) => Err(e),
        },
        Action::AttachmentSource => {
            dir.attachment_source(a);
            Ok(Command::Refresh)
        },
        Action::Scope => {
            dir.scope(a);
            Ok(Command::Refresh)
        },
        Action::Connect => {
            dir.set_connection(a, b);
            Ok(Command::Connect)
        },
        Action::Space => {
            if dir.offline {
                match dir.cached_space_at(a) {
                    Ok((account, remote, space)) => Ok(
                        Command::RecordSpace(account, remote, space),
                    ),
                    Err(e) => Err(e),
                }
            } else {
                match dir.select_space(a) {
                    Ok(_) => Ok(Command::Refresh),
                    Err(e) => Err(e),
                }
            }
        },
        Action::IndexText => Ok(Command::IndexText(dir.account_id())),
        Action::Filter => match dir.set_filter(filter) {
            Ok(_) => Ok(Command::Refresh),
            Err(e) => Err(e),
        },
        Action::Search => match dir.search(a) {
            Ok(_) => Ok(Command::Refresh),
            Err(e) => Err(e),
        },
        Action::Up => {
            dir.up();
            Ok(Command::Refresh)
        },
        Action::Enter => match dir.enter(selected) {
            Ok(_) => Ok(Command::Refresh),
            Err(e) => Err(e),
        },
        Action::Notifications | Action::ClearNotifications => {
            if !matches!(dir.client, Some(FileClient::Jmap(_))) {
                return Err(lit("Sharing notifications require JMAP storage."));
            }
            if matches!(action, Action::ClearNotifications) && dir.notification_ids.len() > 0 {
                if dir.notification_state.is_none() {
                    return Err(lit("Reload sharing activity before clearing it."));
                }
                Ok(Command::Notifications(true))
            } else {
                Ok(Command::Notifications(false))
            }
        },
        Action::Poll => {
            if dir.attachments {
                return Ok(Command::Idle);
            }
            match &dir.client {
                Some(FileClient::Jmap(c)) => Ok(Command::Poll(c.state.clone())),
                _ => Ok(Command::Poll(None)),
            }
        },
        Action::Preview
        | Action::Download
        | Action::Details
        | Action::KeepOffline
        | Action::ReleaseOffline => dir.content(action, selected, has_path),
        Action::Folder => {
            if !dir.can_create {
                return Err(lit("You cannot create files in this folder."));
            }
            if dir.client.is_none() {
                return Err(lit("Storage is disconnected."));
            }
            Ok(Command::CreateFolder)
        },
        Action::Upload | Action::Replace => dir.upload(action, selected, has_path),
        Action::CopySpace => dir.copy_space(b, selected),
        Action::Refresh | Action::More => Ok(Command::Refresh),
        _ => dir.modify(action, selected),
    }
}

/// Whether a space was selected as the user asked, or refused: among those of the connection, or,
/// while offline, among those that are recorded, where nothing changes before the selection is
/// recorded.
pub open spec fn space_selected(
    before: FilesService,
    after: FilesService,
    a: Seq<char>,
    r: Outcome<Command>,
) -> bool {
    let index = index_of(a);
    if before.offline {
        let list = before.cached_spaces@;
        if index is None {
            refuses(r, "Invalid storage space."@) && after == before
        } else if index->0 >= list.len() {
            refuses(r, "Storage space is unavailable offline."@) && after == before
        } else if before.selected_account() is None {
            refuses(r, "Select an account."@) && after == before
        } else {
            let space = list[index->0 as int];
            &&& r is Ok
            &&& r->Ok_0 is RecordSpace
            &&& Some(r->Ok_0->RecordSpace_0) == before.selected_account()
            &&& r->Ok_0->RecordSpace_1@ == space.2@
            &&& r->Ok_0->RecordSpace_2 == space.0
            &&& after == before
        }
    } else {
        match before.client {
            None => refuses(r, "Storage is disconnected."@) && after == before,
            Some(FileClient::Dav(_)) => refuses(
                r,
                "Shared WebDAV spaces use their own connection URL."@,
            ) && after == before,
            Some(FileClient::Jmap(c)) => if index is None {
                refuses(r, "Invalid storage space."@) && after == before
            } else if index->0 >= c.accounts@.len() {
                refuses(r, "Storage space is unavailable."@) && after == before
            } else {
                &&& r == Ok::<Command, String>(Command::Refresh)
                &&& after.client matches Some(FileClient::Jmap(now)) && now.account_id@
                    == c.accounts@[index->0 as int].id@ && now == (jmap::FileClient {
                    account_id: now.account_id,
                    state: None,
                    ..c
                })
                &&& after.history@.len() == 0
                &&& after.query@.len() == 0
                &&& after == (FilesService {
                    client: after.client,
                    history: after.history,
                    query: after.query,
                    ..before
                })
            },
        }
    }
}

} // verus!
