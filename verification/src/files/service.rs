//! Protocol-independent file workspace, owned by the core. Native hosts only
//! choose paths, render previews and dispatch commands.

use crate::files::dav::DavClient;
use crate::files::jmap::{self, BrowseOptions};
use crate::files::mail_search::{Attachment, AttachmentFile, MailSearch};
use crate::files::store::{Operation, OperationState};
use crate::config::{join_path, joined};
use crate::files::changes::policy_name;
use crate::files::json::{Json, Value};
use crate::files::{is_valid_name, valid_name, CollisionPolicy, ConnectionSettings, FileNode, Node};
use crate::text::{
    contains, has_text, i64_text, lit, opt, parse_i64, parsed_i64, same, signed_decimal,
};
use vstd::prelude::*;
use vstd::string::*;

verus! {

/// An outcome whose failure is what the user is told.
pub type Outcome<T> = std::result::Result<T, String>;

/// Whether an outcome is a failure that says `m`.
pub open spec fn refuses<T>(r: Outcome<T>, m: Seq<char>) -> bool {
    r is Err && r->Err_0@ == m
}

/// What an action of the workspace gives back.
pub enum Output {
    Operations(Vec<Operation>),
    Status(String),
    Preview(Preview),
}

/// Something to look at.
pub enum Preview {
    Text(String),
    Data(Vec<u8>, String),
}

/// A row of the workspace.
#[derive(Clone)]
pub enum Entry {
    Attachment(AttachmentFile),
    Remote(FileNode),
}

/// The model of an [`Entry`].
pub enum Row {
    Attachment(Attachment),
    Remote(Node),
}

impl View for Entry {
    type V = Row;

    open spec fn view(&self) -> Row {
        match self {
            Entry::Attachment(a) => Row::Attachment(a@),
            Entry::Remote(n) => Row::Remote(n@),
        }
    }
}

/// The models of a list of rows.
pub open spec fn rows(v: Seq<Entry>) -> Seq<Row> {
    v.map_values(|e: Entry| e@)
}

/// A connection to a storage, by either protocol.
pub enum FileClient {
    Jmap(jmap::FileClient),
    Dav(DavClient),
}

/// The workspace: what is selected, connected and shown.
pub struct FilesService {
    pub browse: BrowseOptions,
    pub collision: CollisionPolicy,
    pub case_insensitive: bool,
    pub offline: bool,
    pub cached_space: Option<i64>,
    pub cached_spaces: Vec<(i64, String, String)>,
    pub active_operation: Option<i64>,
    pub accounts: Vec<(i64, String)>,
    pub account: usize,
    pub settings: ConnectionSettings,
    pub attachments: bool,
    pub server_attachments: bool,
    pub mail_search: Option<MailSearch>,
    pub client: Option<FileClient>,
    pub history: Vec<FileNode>,
    pub entries: Vec<Entry>,
    pub query: String,
    pub next: Option<usize>,
    pub before: Option<i64>,
    pub query_state: Option<String>,
    pub can_create: bool,
    pub quota: String,
    pub notification_ids: Vec<String>,
    pub notification_state: Option<String>,
}

/// An action of the workspace.
#[derive(Clone, Copy, Debug, PartialEq, Eq, Structural)]
pub enum Action {
    Load,
    Account,
    AccountId,
    AttachmentSource,
    Scope,
    Connect,
    Space,
    IndexText,
    Filter,
    Search,
    Up,
    Enter,
    Notifications,
    ClearNotifications,
    Poll,
    Preview,
    Download,
    Details,
    KeepOffline,
    ReleaseOffline,
    Folder,
    Upload,
    Replace,
    CopySpace,
    Rename,
    Move,
    Copy,
    Delete,
    Share,
    Unshare,
    Lock,
    Unlock,
    Metadata,
    RemoveProperty,
    Refresh,
    More,
    Transfers,
    RetryOperation,
    CancelOperation,
    ResolveOperation,
}

/// How an action is called.
pub open spec fn action_name(a: Action) -> Seq<char> {
    match a {
        Action::Load => "load"@,
        Action::Account => "account"@,
        Action::AccountId => "account-id"@,
        Action::AttachmentSource => "attachment-source"@,
        Action::Scope => "scope"@,
        Action::Connect => "connect"@,
        Action::Space => "space"@,
        Action::IndexText => "index-text"@,
        Action::Filter => "filter"@,
        Action::Search => "search"@,
        Action::Up => "up"@,
        Action::Enter => "enter"@,
        Action::Notifications => "notifications"@,
        Action::ClearNotifications => "clear-notifications"@,
        Action::Poll => "poll"@,
        Action::Preview => "preview"@,
        Action::Download => "download"@,
        Action::Details => "details"@,
        Action::KeepOffline => "keep-offline"@,
        Action::ReleaseOffline => "release-offline"@,
        Action::Folder => "folder"@,
        Action::Upload => "upload"@,
        Action::Replace => "replace"@,
        Action::CopySpace => "copy-space"@,
        Action::Rename => "rename"@,
        Action::Move => "move"@,
        Action::Copy => "copy"@,
        Action::Delete => "delete"@,
        Action::Share => "share"@,
        Action::Unshare => "unshare"@,
        Action::Lock => "lock"@,
        Action::Unlock => "unlock"@,
        Action::Metadata => "metadata"@,
        Action::RemoveProperty => "remove-property"@,
        Action::Refresh => "refresh"@,
        Action::More => "more"@,
        Action::Transfers => "transfers"@,
        Action::RetryOperation => "retry-operation"@,
        Action::CancelOperation => "cancel-operation"@,
        Action::ResolveOperation => "resolve-operation"@,
    }
}

impl Action {
    /// The action of that name.
    pub fn parse(name: &str) -> (r: Option<Action>)
        ensures
            match r {
                Some(a) => action_name(a) == name@,
                None => forall|a: Action| #[trigger] action_name(a) != name@,
            },
    {
        if same(name, "load") {
            Some(Action::Load)
        } else if same(name, "account") {
            Some(Action::Account)
        } else if same(name, "account-id") {
            Some(Action::AccountId)
        } else if same(name, "attachment-source") {
            Some(Action::AttachmentSource)
        } else if same(name, "scope") {
            Some(Action::Scope)
        } else if same(name, "connect") {
            Some(Action::Connect)
        } else if same(name, "space") {
            Some(Action::Space)
        } else if same(name, "index-text") {
            Some(Action::IndexText)
        } else if same(name, "filter") {
            Some(Action::Filter)
        } else if same(name, "search") {
            Some(Action::Search)
        } else if same(name, "up") {
            Some(Action::Up)
        } else if same(name, "enter") {
            Some(Action::Enter)
        } else if same(name, "notifications") {
            Some(Action::Notifications)
        } else if same(name, "clear-notifications") {
            Some(Action::ClearNotifications)
        } else if same(name, "poll") {
            Some(Action::Poll)
        } else if same(name, "preview") {
            Some(Action::Preview)
        } else if same(name, "download") {
            Some(Action::Download)
        } else if same(name, "details") {
            Some(Action::Details)
        } else if same(name, "keep-offline") {
            Some(Action::KeepOffline)
        } else if same(name, "release-offline") {
            Some(Action::ReleaseOffline)
        } else if same(name, "folder") {
            Some(Action::Folder)
        } else if same(name, "upload") {
            Some(Action::Upload)
        } else if same(name, "replace") {
            Some(Action::Replace)
        } else if same(name, "copy-space") {
            Some(Action::CopySpace)
        } else if same(name, "rename") {
            Some(Action::Rename)
        } else if same(name, "move") {
            Some(Action::Move)
        } else if same(name, "copy") {
            Some(Action::Copy)
        } else if same(name, "delete") {
            Some(Action::Delete)
        } else if same(name, "share") {
            Some(Action::Share)
        } else if same(name, "unshare") {
            Some(Action::Unshare)
        } else if same(name, "lock") {
            Some(Action::Lock)
        } else if same(name, "unlock") {
            Some(Action::Unlock)
        } else if same(name, "metadata") {
            Some(Action::Metadata)
        } else if same(name, "remove-property") {
            Some(Action::RemoveProperty)
        } else if same(name, "refresh") {
            Some(Action::Refresh)
        } else if same(name, "more") {
            Some(Action::More)
        } else if same(name, "transfers") {
            Some(Action::Transfers)
        } else if same(name, "retry-operation") {
            Some(Action::RetryOperation)
        } else if same(name, "cancel-operation") {
            Some(Action::CancelOperation)
        } else if same(name, "resolve-operation") {
            Some(Action::ResolveOperation)
        } else {
            None
        }
    }

    /// An action that changes the storage: it is recorded before it contacts the server.
    pub open spec fn mutates(self) -> bool {
        match self {
            Action::Upload
            | Action::Replace
            | Action::Folder
            | Action::Rename
            | Action::Move
            | Action::Copy
            | Action::CopySpace
            | Action::Delete
            | Action::Share
            | Action::Unshare
            | Action::Metadata
            | Action::RemoveProperty
            | Action::Lock
            | Action::Unlock => true,
            _ => false,
        }
    }

    pub fn is_mutation(&self) -> (r: bool)
        ensures
            r == self.mutates(),
    {
        matches!(
            self,
            Action::Upload
                | Action::Replace
                | Action::Folder
                | Action::Rename
                | Action::Move
                | Action::Copy
                | Action::CopySpace
                | Action::Delete
                | Action::Share
                | Action::Unshare
                | Action::Metadata
                | Action::RemoveProperty
                | Action::Lock
                | Action::Unlock
        )
    }

    /// An action that looks at or settles recorded operations.
    pub open spec fn manages_operations(self) -> bool {
        self == Action::Transfers || self == Action::RetryOperation || self
            == Action::CancelOperation || self == Action::ResolveOperation
    }

    pub fn is_transfer_action(&self) -> (r: bool)
        ensures
            r == self.manages_operations(),
    {
        matches!(
            self,
            Action::Transfers
                | Action::RetryOperation
                | Action::CancelOperation
                | Action::ResolveOperation
        )
    }

    /// An action that can land on a name that is taken, and so goes by the collision policy.
    pub open spec fn may_collide(self) -> bool {
        self == Action::Folder || self == Action::Rename || self == Action::Move || self
            == Action::Copy || self == Action::CopySpace
    }

    pub fn can_collide(&self) -> (r: bool)
        ensures
            r == self.may_collide(),
    {
        matches!(
            self,
            Action::Folder | Action::Rename | Action::Move | Action::Copy | Action::CopySpace
        )
    }
}

/// Whether an action only reads mail metadata. Such reads stay responsive during a large remote
/// tree scan: they do not touch file content or remote mutations, and do not wait for other file
/// work.
pub open spec fn reads_metadata_only(attachments: bool, action: Action, b: Seq<char>) -> bool {
    (attachments && b != "storage"@ && (action == Action::Load || action == Action::Account
        || action == Action::AccountId || action == Action::Search || action == Action::Refresh
        || action == Action::More || action == Action::AttachmentSource)) || ((action
        == Action::Account || action == Action::AccountId) && b == "attachments"@)
}

impl FilesService {
    /// The selected account.
    pub open spec fn selected_account(self) -> Option<i64> {
        if 1 <= self.account <= self.accounts@.len() {
            Some(self.accounts@[self.account - 1].0)
        } else {
            None
        }
    }

    /// The folder that is shown; `None` at the top level.
    pub open spec fn folder(self) -> Option<Seq<char>> {
        if self.history@.len() > 0 {
            Some(self.history@.last().id@)
        } else {
            None
        }
    }

    /// The row at an index, where there is one.
    pub open spec fn row(self, index: i32) -> Option<Row> {
        if 0 <= index < self.entries@.len() {
            Some(rows(self.entries@)[index as int])
        } else {
            None
        }
    }

    pub fn account_id(&self) -> (r: Option<i64>)
        ensures
            r == self.selected_account(),
    {
        if 1 <= self.account && self.account <= self.accounts.len() {
            Some(self.accounts[self.account - 1].0)
        } else {
            None
        }
    }

    pub fn parent(&self) -> (r: Option<String>)
        ensures
            opt(r) == self.folder(),
    {
        let n: usize = self.history.len();
        if n > 0 {
            Some(self.history[n - 1].id.clone())
        } else {
            None
        }
    }

    pub fn selected(&self, index: i32) -> (r: Outcome<&Entry>)
        ensures
            match self.row(index) {
                Some(row) => r is Ok && r->Ok_0@ == row && *r->Ok_0 == self.entries@[index as int],
                None => refuses(r, "Select a file first."@),
            },
    {
        if index >= 0 && (index as u64) < self.entries.len() as u64 {
            Ok(&self.entries[index as usize])
        } else {
            Err(lit("Select a file first."))
        }
    }

    pub fn metadata_only(&self, action: Action, b: &str) -> (r: bool)
        ensures
            r == reads_metadata_only(self.attachments, action, b@),
    {
        (self.attachments && !same(b, "storage") && matches!(
            action,
            Action::Load
                | Action::Account
                | Action::AccountId
                | Action::Search
                | Action::Refresh
                | Action::More
                | Action::AttachmentSource
        )) || (matches!(action, Action::Account | Action::AccountId) && same(b, "attachments"))
    }
}

/// The place of an account in a list, counted from one; 0 where it is not there.
pub open spec fn place_of(accounts: Seq<(i64, String)>, id: Option<i64>) -> int
    decreases accounts.len(),
{
    if id is None || accounts.len() == 0 {
        0
    } else if accounts[0].0 == id->0 {
        1
    } else {
        let rest = place_of(accounts.skip(1), id);
        if rest == 0 {
            0
        } else {
            rest + 1
        }
    }
}

proof fn place_of_is(accounts: Seq<(i64, String)>, id: i64, k: int)
    requires
        0 <= k <= accounts.len(),
        forall|j: int| 0 <= j < k ==> (#[trigger] accounts[j]).0 != id,
        k < accounts.len() ==> accounts[k].0 == id,
    ensures
        place_of(accounts, Some(id)) == (if k < accounts.len() {
            k + 1
        } else {
            0
        }),
    decreases accounts.len(),
{
    if k > 0 {
        assert(forall|j: int| 0 <= j < k - 1 ==> accounts.skip(1)[j] == accounts[j + 1]);
        place_of_is(accounts.skip(1), id, k - 1);
    }
}

pub(crate) fn find_account(accounts: &Vec<(i64, String)>, id: i64) -> (r: usize)
    ensures
        r == place_of(accounts@, Some(id)),
        r <= accounts@.len(),
        r > 0 ==> accounts@[r - 1].0 == id,
{
    let mut i: usize = 0;
    while i < accounts.len()
        invariant
            i <= accounts.len(),
            forall|j: int| 0 <= j < i ==> (#[trigger] accounts@[j]).0 != id,
        decreases accounts.len() - i,
    {
        if accounts[i].0 == id {
            proof {
                place_of_is(accounts@, id, i as int);
            }
            return i + 1;
        }
        i = i + 1;
    }
    proof {
        place_of_is(accounts@, id, accounts@.len() as int);
    }
    0
}

impl FilesService {
    /// Take the accounts that are here now. The selected account stays selected wherever it now
    /// stands; returns whether it is gone.
    pub fn init(&mut self, accounts: Vec<(i64, String)>) -> (r: bool)
        ensures
            final(self).accounts == accounts,
            final(self).account == place_of(accounts@, old(self).selected_account()),
            r == (old(self).selected_account() is Some && final(self).account == 0),
            final(self).selected_account() is Some ==> final(self).selected_account() == old(
                self).selected_account(),
            *final(self) == (FilesService {
                accounts: final(self).accounts,
                account: final(self).account,
                ..*old(self)
            }),
    {
        let prior = self.account_id();
        self.accounts = accounts;
        self.account = match prior {
            Some(id) => find_account(&self.accounts, id),
            None => 0,
        };
        prior.is_some() && self.account == 0
    }

    /// Take the storage spaces that are recorded for the selected account. Where it is gone, its
    /// session and everything shown of it go too.
    pub fn init_spaces(&mut self, spaces: Vec<(i64, String, String)>, gone: bool)
        ensures
            final(self).cached_spaces == spaces,
            if gone {
                &&& final(self).cached_space is None
                &&& !final(self).offline
                &&& final(self).mail_search is None
                &&& final(self).client is None
                &&& final(self).history@.len() == 0
                &&& final(self).entries@.len() == 0
                &&& *final(self) == (FilesService {
                    cached_spaces: spaces,
                    cached_space: None,
                    offline: false,
                    mail_search: None,
                    client: None,
                    history: final(self).history,
                    entries: final(self).entries,
                    ..*old(self)
                })
            } else {
                *final(self) == (FilesService { cached_spaces: spaces, ..*old(self) })
            },
    {
        self.cached_spaces = spaces;
        if gone {
            self.cached_space = None;
            self.offline = false;
            self.mail_search = None;
            self.client = None;
            self.history.clear();
            self.entries.clear();
        }
    }

    /// Begin to connect: the account to connect.
    pub fn connect(&mut self) -> (r: Outcome<i64>)
        ensures
            match old(self).selected_account() {
                Some(id) => r == Ok::<i64, String>(id) && *final(self) == (FilesService {
                    client: None,
                    can_create: false,
                    ..*old(self)
                }),
                None => refuses(r, "Select an account to browse server storage."@) && *final(self)
                    == *old(self),
            },
    {
        match self.account_id() {
            Some(id) => {
                self.client = None;
                self.can_create = false;
                Ok(id)
            },
            None => Err(lit("Select an account to browse server storage.")),
        }
    }

    /// Take up a connection.
    pub fn connected(&mut self, client: FileClient)
        ensures
            *final(self) == (FilesService {
                client: Some(client),
                offline: false,
                ..*old(self)
            }),
    {
        self.client = Some(client);
        self.offline = false;
    }

    /// An operation that was at work when the last action was cut off: nobody knows how it ended.
    pub fn take_interrupted(&mut self) -> (r: Option<(i64, OperationState, String)>)
        ensures
            *final(self) == (FilesService { active_operation: None, ..*old(self) }),
            match old(self).active_operation {
                Some(id) => r matches Some((op, state, message)) && op == id && state
                    == OperationState::Uncertain && message@
                    == "Cancelled while contacting storage. Inspect the destination before retrying."@,
                None => r is None,
            },
    {
        match self.active_operation.take() {
            Some(id) => Some(
                (
                    id,
                    OperationState::Uncertain,
                    lit(
                        "Cancelled while contacting storage. Inspect the destination before retrying.",
                    ),
                ),
            ),
            None => None,
        }
    }

    /// Set the connection to the policy that the action goes by: anything that cannot land on a
    /// name that is taken rejects such a name.
    pub fn apply_policy(&mut self, action: Action)
        ensures
            ({
                let policy = if action.may_collide() {
                    old(self).collision
                } else {
                    CollisionPolicy::Reject
                };
                match old(self).client {
                    Some(FileClient::Jmap(c)) => *final(self) == (FilesService {
                        client: Some(
                            FileClient::Jmap(
                                jmap::FileClient {
                                    collision: policy,
                                    compare_case_insensitively: old(self).case_insensitive,
                                    ..c
                                },
                            ),
                        ),
                        ..*old(self)
                    }),
                    _ => *final(self) == *old(self),
                }
            }),
    {
        let policy = if action.can_collide() {
            self.collision
        } else {
            CollisionPolicy::Reject
        };
        let fold = self.case_insensitive;
        match self.client.take() {
            Some(FileClient::Jmap(c)) => {
                let mut c = c;
                c.collision = policy;
                c.compare_case_insensitively = fold;
                self.client = Some(FileClient::Jmap(c));
            },
            other => {
                self.client = other;
            },
        }
    }
}

/// What an action on recorded operations is about.
pub enum Transfer {
    /// All operations of an account.
    All(i64),
    /// One operation of an account.
    One(i64, i64),
}

/// How a recorded operation is settled.
#[derive(Clone, Copy, Debug, PartialEq, Eq, Structural)]
pub enum Settlement {
    /// It is sent again.
    Resume,
    /// It is recorded as ended so.
    Finish(OperationState),
}

/// Why an operation cannot be settled so, if it cannot. Only an operation that has not contacted
/// the server may be sent again, and one that is at work is left alone.
pub open spec fn settle_failure(action: Action, state: Seq<char>) -> Option<Seq<char>> {
    if action == Action::RetryOperation {
        if state != "queued"@ {
            Some(
                "Only operations that have not contacted the server may be resumed. Inspect uncertain changes and mark them reviewed."@,
            )
        } else {
            None
        }
    } else if state == "running"@ {
        Some("Cancel the active operation first."@)
    } else {
        None
    }
}

/// Settle a recorded operation that is in that state.
pub fn settle(action: Action, state: &str) -> (r: Outcome<Settlement>)
    requires
        action.manages_operations(),
        action != Action::Transfers,
    ensures
        match settle_failure(action, state@) {
            Some(m) => refuses(r, m),
            None => r == Ok::<Settlement, String>(
                if action == Action::RetryOperation {
                    Settlement::Resume
                } else if action == Action::ResolveOperation {
                    Settlement::Finish(OperationState::Completed)
                } else {
                    Settlement::Finish(OperationState::Cancelled)
                },
            ),
        },
{
    match action {
        Action::RetryOperation => {
            if !same(state, "queued") {
                return Err(
                    lit(
                        "Only operations that have not contacted the server may be resumed. Inspect uncertain changes and mark them reviewed.",
                    ),
                );
            }
            Ok(Settlement::Resume)
        },
        _ => {
            if same(state, "running") {
                return Err(lit("Cancel the active operation first."));
            }
            Ok(
                Settlement::Finish(
                    if matches!(action, Action::ResolveOperation) {
                        OperationState::Completed
                    } else {
                        OperationState::Cancelled
                    },
                ),
            )
        },
    }
}

/// How an operation that contacted the server ended. A failure leaves it uncertain: the change may
/// have been made.
pub fn ended(success: bool) -> (r: OperationState)
    ensures
        r == (if success {
            OperationState::Completed
        } else {
            OperationState::Uncertain
        }),
{
    if success {
        OperationState::Completed
    } else {
        OperationState::Uncertain
    }
}

/// A change is never sent twice unseen: an operation that contacted the server, however that
/// ended, is not resumed.
pub proof fn contacted_operations_are_not_resumed(s: OperationState)
    ensures
        settle_failure(Action::RetryOperation, crate::files::store::state_name(s)) is None <==> s
            == OperationState::Queued,
{
    reveal_strlit("queued");
    reveal_strlit("preparing");
    reveal_strlit("running");
    reveal_strlit("completed");
    reveal_strlit("uncertain");
    reveal_strlit("failed");
    reveal_strlit("cancelled");
    let name = crate::files::store::state_name(s);
    if s != OperationState::Queued {
        assert(name[0] != "queued"@[0]);
    }
}

/// A change of the connection cancels what was queued for the old one, so that it is never sent
/// over the new one, and keeps the record of everything that reached a server.
pub proof fn connection_changes_cancel_only_what_was_queued(s: OperationState)
    ensures
        settle_failure(
            Action::RetryOperation,
            crate::files::store::state_name(s.disconnected()),
        ) is Some,
        s.disconnected() == s || s == OperationState::Queued || s == OperationState::Preparing,
        s == OperationState::Uncertain || s == OperationState::Running ==> s.disconnected() == s,
        s.disconnected().disconnected() == s.disconnected(),
{
    contacted_operations_are_not_resumed(s.disconnected());
}

/// The collision policy that a payload records; rejecting where it records none.
pub open spec fn payload_policy(payload: Value) -> CollisionPolicy {
    match payload.at("collision"@).text() {
        Some(name) => if name == "rename"@ {
            CollisionPolicy::Rename
        } else if name == "replace"@ {
            CollisionPolicy::Replace
        } else if name == "newest"@ {
            CollisionPolicy::Newest
        } else {
            CollisionPolicy::Reject
        },
        None => CollisionPolicy::Reject,
    }
}

/// A policy that was recorded with an operation is the one that is read from it.
pub proof fn recorded_policies_are_read_back(payload: Value, p: CollisionPolicy)
    requires
        payload is Object,
    ensures
        payload_policy(
            payload.put("collision"@, Value::Text(crate::files::changes::policy_name(p))),
        ) == p,
{
    reveal_strlit("reject");
    reveal_strlit("rename");
    reveal_strlit("replace");
    reveal_strlit("newest");
    assert("reject"@.len() == 6 && "rename"@.len() == 6 && "newest"@.len() == 6);
    assert("replace"@.len() == 7);
    assert("reject"@[2] == 'j' && "rename"@[2] == 'n' && "newest"@[2] == 'w');
    crate::files::json::put_is_read_back(
        payload,
        "collision"@,
        Value::Text(crate::files::changes::policy_name(p)),
        "collision"@,
    );
}

fn read_policy(payload: &Json) -> (r: CollisionPolicy)
    ensures
        r == payload_policy(payload@),
{
    match payload.text_at("collision") {
        Some(name) => if same(name, "rename") {
            CollisionPolicy::Rename
        } else if same(name, "replace") {
            CollisionPolicy::Replace
        } else if same(name, "newest") {
            CollisionPolicy::Newest
        } else {
            CollisionPolicy::Reject
        },
        None => CollisionPolicy::Reject,
    }
}

fn read_fold(payload: &Json) -> (r: bool)
    ensures
        r == (payload@.at("caseInsensitive"@).bool() == Some(true)),
{
    match payload.bool_at("caseInsensitive") {
        Some(b) => b,
        None => false,
    }
}

/// Whether two lists of accounts are the same.
pub open spec fn same_accounts(a: Seq<(i64, String)>, b: Seq<(i64, String)>) -> bool {
    a.len() == b.len() && forall|i: int|
        0 <= i < a.len() ==> (#[trigger] a[i]).0 == b[i].0 && a[i].1@ == b[i].1@
}

impl FilesService {
    /// A workspace in which nothing is selected or shown.
    pub open spec fn is_blank(self) -> bool {
        &&& self.browse@ == jmap::Browse::all()
        &&& !self.offline
        &&& self.cached_space is None
        &&& self.cached_spaces@.len() == 0
        &&& self.active_operation is None
        &&& !self.attachments
        &&& !self.server_attachments
        &&& self.mail_search is None
        &&& self.client is None
        &&& self.history@.len() == 0
        &&& self.entries@.len() == 0
        &&& self.query@.len() == 0
        &&& self.next is None
        &&& self.before is None
        &&& self.query_state is None
        &&& !self.can_create
        &&& self.quota@.len() == 0
        &&& self.notification_ids@.len() == 0
        &&& self.notification_state is None
    }

    /// A new workspace.
    pub fn new() -> (r: FilesService)
        ensures
            r.is_blank(),
            r.collision == CollisionPolicy::Reject,
            !r.case_insensitive,
            r.accounts@.len() == 0,
            r.account == 0,
            r.settings.endpoint@.len() == 0,
            !r.settings.webdav,
    {
        FilesService {
            browse: BrowseOptions::default(),
            collision: CollisionPolicy::Reject,
            case_insensitive: false,
            offline: false,
            cached_space: None,
            cached_spaces: Vec::new(),
            active_operation: None,
            accounts: Vec::new(),
            account: 0,
            settings: ConnectionSettings::default(),
            attachments: false,
            server_attachments: false,
            mail_search: None,
            client: None,
            history: Vec::new(),
            entries: Vec::new(),
            query: String::new(),
            next: None,
            before: None,
            query_state: None,
            can_create: false,
            quota: String::new(),
            notification_ids: Vec::new(),
            notification_state: None,
        }
    }

    /// What an action on recorded operations is about.
    pub fn transfer(&self, action: Action, a: &str) -> (r: Outcome<Transfer>)
        requires
            action.manages_operations(),
        ensures
            match self.selected_account() {
                None => refuses(r, "Select an account."@),
                Some(account) => if action == Action::Transfers {
                    r is Ok && r->Ok_0 == Transfer::All(account)
                } else {
                    match parsed_i64(a@) {
                        Some(id) => r is Ok && r->Ok_0 == Transfer::One(account, id),
                        None => refuses(r, "Invalid operation."@),
                    }
                },
            },
    {
        let account: i64 = match self.account_id() {
            Some(id) => id,
            None => {
                return Err(lit("Select an account."));
            },
        };
        if matches!(action, Action::Transfers) {
            return Ok(Transfer::All(account));
        }
        match parse_i64(a) {
            Some(id) => Ok(Transfer::One(account, id)),
            None => Err(lit("Invalid operation.")),
        }
    }

    /// The workspace in which a recorded operation is sent again: the same account and connection,
    /// and the policy that was recorded.
    pub fn resume(&self, payload: &Json) -> (r: FilesService)
        ensures
            r.is_blank(),
            same_accounts(r.accounts@, self.accounts@),
            r.account == self.account,
            r.settings == self.settings,
            r.collision == payload_policy(payload@),
            r.case_insensitive == (payload@.at("caseInsensitive"@).bool() == Some(true)),
    {
        let mut accounts: Vec<(i64, String)> = Vec::new();
        let mut i: usize = 0;
        while i < self.accounts.len()
            invariant
                i <= self.accounts.len(),
                accounts@.len() == i,
                forall|k: int|
                    0 <= k < i ==> (#[trigger] accounts@[k]).0 == self.accounts@[k].0
                        && accounts@[k].1@ == self.accounts@[k].1@,
            decreases self.accounts.len() - i,
        {
            accounts.push((self.accounts[i].0, self.accounts[i].1.clone()));
            i = i + 1;
        }
        let mut pending = FilesService::new();
        pending.accounts = accounts;
        pending.account = self.account;
        pending.settings = self.settings.copy();
        pending.collision = read_policy(payload);
        pending.case_insensitive = read_fold(payload);
        pending
    }

    /// Take up what a recorded operation was about. Current permissions and preconditions are
    /// checked when it is sent.
    pub fn resumed(&mut self, history: Vec<FileNode>, space: Option<i64>, n: Option<FileNode>)
        requires
            old(self).entries@.len() == 0,
        ensures
            final(self).history == history,
            final(self).cached_space == space,
            final(self).can_create,
            match n {
                Some(n) => final(self).entries@ == seq![Entry::Remote(n)],
                None => final(self).entries@.len() == 0,
            },
            *final(self) == (FilesService {
                history,
                cached_space: space,
                can_create: true,
                entries: final(self).entries,
                ..*old(self)
            }),
    {
        self.history = history;
        self.cached_space = space;
        match n {
            Some(n) => {
                self.entries.push(Entry::Remote(n));
                proof {
                    assert(self.entries@ =~= seq![Entry::Remote(n)]);
                }
            },
            None => {},
        }
        self.can_create = true;
    }

    /// The node that an action is recorded with.
    pub fn job_node(&self, selected: i32) -> (r: Option<&FileNode>)
        ensures
            match self.row(selected) {
                Some(Row::Remote(n)) => r is Some && r->0@ == n,
                _ => r is None,
            },
    {
        match self.selected(selected) {
            Ok(Entry::Remote(n)) => Some(n),
            _ => None,
        }
    }

    /// The state of the storage that an action is recorded with, and the space whose recorded
    /// state stands in where the connection knows none.
    pub fn job_state(&self) -> (r: (Option<String>, Option<i64>))
        ensures
            ({
                let known = match self.client {
                    Some(FileClient::Jmap(c)) => opt(c.state),
                    _ => None,
                };
                &&& opt(r.0) == known
                &&& r.1 == (if known is None && !self.settings.webdav {
                    self.cached_space
                } else {
                    None
                })
            }),
    {
        let known = match &self.client {
            Some(FileClient::Jmap(c)) => c.state.clone(),
            _ => None,
        };
        let space = if known.is_none() && !self.settings.webdav {
            self.cached_space
        } else {
            None
        };
        (known, space)
    }

    /// What is recorded of an action before it contacts the server. `n` and `history` are the node
    /// and the folders that are shown, as they are stored.
    pub fn job_payload(&self, a: &str, b: &str, n: Json, history: Json, state: &Option<String>) -> (r:
        Json)
        ensures
            r@ == Value::empty().with("a"@, Value::Text(a@)).with("b"@, Value::Text(b@)).with(
                "node"@,
                n@,
            ).with("history"@, history@).with("state"@, Value::opt_text(opt(*state))).with(
                "collision"@,
                Value::Text(policy_name(self.collision)),
            ).with("caseInsensitive"@, Value::Bool(self.case_insensitive)),
    {
        Json::object().with("a", Json::text(a)).with("b", Json::text(b)).with("node", n).with(
            "history",
            history,
        ).with("state", Json::opt_text(state)).with(
            "collision",
            Json::text(self.collision.as_str()),
        ).with("caseInsensitive", Json::Bool(self.case_insensitive))
    }

    /// What the user is told of an operation that waits for a connection.
    pub fn queued_status(id: i64) -> (r: String)
        ensures
            r@ == "Queued operation #"@ + signed_decimal(id as int)
                + ". Reconnect and review it in Transfers."@,
    {
        let number = i64_text(id);
        lit("Queued operation #").concat(number.as_str()).concat(
            ". Reconnect and review it in Transfers.",
        )
    }
}

/// Whether the storage is still in the state that an operation was recorded with.
pub fn check_resumed(payload: &Json, current: &str) -> (r: Outcome<()>)
    ensures
        match payload@.at("state"@).text() {
            Some(s) => if s != current@ {
                refuses(
                    r,
                    "Storage changed since this operation was queued. Cancel it and repeat the action from a refreshed view."@,
                )
            } else {
                r is Ok
            },
            None => r is Ok,
        },
{
    match payload.text_at("state") {
        Some(s) => {
            if !same(s, current) {
                return Err(
                    lit(
                        "Storage changed since this operation was queued. Cancel it and repeat the action from a refreshed view.",
                    ),
                );
            }
            Ok(())
        },
        None => Ok(()),
    }
}

/// Where a recorded operation staged its upload. The name is checked again: it never leads out of
/// the staging directory.
pub fn staged_path(kind: Action, directory: &str, payload: &Json) -> (r: Outcome<Option<String>>)
    ensures
        match payload@.at("stagedName"@).text() {
            Some(name) => if !valid_name(name) {
                refuses(r, crate::files::invalid_name_message())
            } else {
                r is Ok && opt(r->Ok_0) == Some(joined(directory@, name))
            },
            None => if kind == Action::Upload || kind == Action::Replace {
                refuses(
                    r,
                    "The queued upload has no complete staging data. Cancel it and select the source again."@,
                )
            } else {
                r matches Ok(None)
            },
        },
{
    match payload.text_at("stagedName") {
        Some(name) => {
            if !is_valid_name(name) {
                return Err(
                    lit(
                        "Enter a file name of 1–255 bytes without slashes or control characters.",
                    ),
                );
            }
            Ok(Some(join_path(directory, name)))
        },
        None => {
            if matches!(kind, Action::Upload | Action::Replace) {
                return Err(
                    lit(
                        "The queued upload has no complete staging data. Cancel it and select the source again.",
                    ),
                );
            }
            Ok(None)
        },
    }
}

/// Whether a failure means that the storage could not be reached, so that what is recorded of it
/// may be shown instead.
pub open spec fn is_network_failure(message: Seq<char>) -> bool {
    has_text(message, "Could not reach file storage"@) || has_text(
        message,
        "Could not discover file storage"@,
    ) || has_text(message, "timed out"@)
}

fn network_failure(message: &str) -> (r: bool)
    ensures
        r == is_network_failure(message@),
{
    contains(message, "Could not reach file storage") || contains(
        message,
        "Could not discover file storage",
    ) || contains(message, "timed out")
}

impl FilesService {
    /// Whether what is recorded of the storage is shown after a failure: where storage is shown
    /// and could not be reached.
    pub fn falls_back(&self, message: &str) -> (r: bool)
        ensures
            r == (!self.attachments && is_network_failure(message@)),
    {
        !self.attachments && network_failure(message)
    }
}

/// What an action that is not known is answered.
pub fn unknown_action(gone: bool) -> (r: String)
    ensures
        r@ == if gone {
            "The selected account was removed. Select another account."@
        } else {
            "Unknown file action."@
        },
{
    if gone {
        lit("The selected account was removed. Select another account.")
    } else {
        lit("Unknown file action.")
    }
}

/// What is known of an account that a storage is connected for.
pub struct AccountLogin {
    pub id: i64,
    /// Whether it logs in with a password.
    pub by_password: bool,
    pub email: String,
    pub username: String,
    pub jmap_url: String,
}

/// How a storage is connected.
pub struct Login {
    pub user: String,
    pub endpoint: String,
    pub webdav: bool,
}

/// The user that an account logs in as: its user name, or its address where it has none.
pub open spec fn login_user(account: AccountLogin) -> Seq<char> {
    if account.username@.len() == 0 {
        account.email@
    } else {
        account.username@
    }
}

/// The account of that id.
pub open spec fn account_by_id(accounts: Seq<AccountLogin>, id: i64) -> Option<AccountLogin>
    decreases accounts.len(),
{
    if accounts.len() == 0 {
        None
    } else if accounts[0].id == id {
        Some(accounts[0])
    } else {
        account_by_id(accounts.skip(1), id)
    }
}

fn find_login(accounts: &Vec<AccountLogin>, id: i64) -> (r: Option<&AccountLogin>)
    ensures
        match account_by_id(accounts@, id) {
            Some(a) => r is Some && *r->0 == a,
            None => r is None,
        },
{
    let mut i: usize = 0;
    proof {
        assert(accounts@.skip(0) == accounts@);
    }
    while i < accounts.len()
        invariant
            i <= accounts.len(),
            account_by_id(accounts@.skip(i as int), id) == account_by_id(accounts@, id),
        decreases accounts.len() - i,
    {
        proof {
            assert(accounts@.skip(i as int)[0] == accounts@[i as int]);
            assert(accounts@.skip(i as int).skip(1) == accounts@.skip(i + 1));
        }
        if accounts[i].id == id {
            return Some(&accounts[i]);
        }
        i = i + 1;
    }
    None
}

fn user_of(account: &AccountLogin) -> (r: String)
    ensures
        r@ == login_user(*account),
{
    if account.username.as_str().is_empty() {
        account.email.clone()
    } else {
        account.username.clone()
    }
}

/// How the storage of an account is connected: only with a password, and by JMAP at the account's
/// own server where no other is set.
pub fn connect_files(accounts: &Vec<AccountLogin>, id: i64, settings: &ConnectionSettings) -> (r: crate::error::Result<
    Login,
>)
    ensures
        match account_by_id(accounts@, id) {
            None => crate::error::fails(r, "Account was removed."@),
            Some(a) => if !a.by_password {
                crate::error::fails(
                    r,
                    "Connect storage using a Stalwart password or application-password account."@,
                )
            } else {
                &&& r is Ok
                &&& r->Ok_0.user@ == login_user(a)
                &&& r->Ok_0.webdav == settings.webdav
                &&& r->Ok_0.endpoint@ == (if !settings.webdav && settings.endpoint@.len() == 0 {
                    a.jmap_url@
                } else {
                    settings.endpoint@
                })
            },
        },
{
    let account = match find_login(accounts, id) {
        Some(a) => a,
        None => {
            return Err(crate::error::other("Account was removed."));
        },
    };
    if !account.by_password {
        return Err(
            crate::error::other(
                "Connect storage using a Stalwart password or application-password account.",
            ),
        );
    }
    let endpoint = if !settings.webdav && settings.endpoint.as_str().is_empty() {
        account.jmap_url.clone()
    } else {
        settings.endpoint.clone()
    };
    Ok(Login { user: user_of(account), endpoint, webdav: settings.webdav })
}

/// How the mail of an account is searched on its server: only with a password.
pub fn connect_attachment_search(accounts: &Vec<AccountLogin>, id: i64) -> (r: crate::error::Result<
    Login,
>)
    ensures
        match account_by_id(accounts@, id) {
            None => crate::error::fails(r, "Account was removed."@),
            Some(a) => if !a.by_password {
                crate::error::fails(
                    r,
                    "Server attachment search requires a JMAP password or application-password account."@,
                )
            } else {
                r is Ok && r->Ok_0.user@ == login_user(a) && r->Ok_0.endpoint@ == a.jmap_url@
                    && !r->Ok_0.webdav
            },
        },
{
    let account = match find_login(accounts, id) {
        Some(a) => a,
        None => {
            return Err(crate::error::other("Account was removed."));
        },
    };
    if !account.by_password {
        return Err(
            crate::error::other(
                "Server attachment search requires a JMAP password or application-password account.",
            ),
        );
    }
    Ok(Login { user: user_of(account), endpoint: account.jmap_url.clone(), webdav: false })
}

} // verus!
