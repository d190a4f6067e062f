//! Durable projections and operation history.

use crate::config::{joined, Paths};
use crate::error::other;
use crate::files::json::{views, Json, Value};
use crate::text::{
    i64_text, join, join_texts, lit, parse_i64, parsed_i64, same, signed_decimal, stands_at,
    strip_prefix, texts,
};
use vstd::prelude::*;
use vstd::string::*;

verus! {

/// An operation as the history shows it.
#[derive(Clone, Debug)]
pub struct Operation {
    pub id: i64,
    pub action: String,
    pub state: String,
    pub error: String,
    pub bytes: u64,
    pub description: String,
}

/// The state of an operation.
#[derive(Clone, Copy, Debug, PartialEq, Eq, Structural)]
pub enum OperationState {
    /// Its upload is being copied aside.
    Preparing,
    /// It has not contacted the server.
    Queued,
    /// It is contacting the server.
    Running,
    Completed,
    /// It contacted the server and nobody knows how it ended.
    Uncertain,
    Failed,
    Cancelled,
}

/// How a state is stored.
pub open spec fn state_name(s: OperationState) -> Seq<char> {
    match s {
        OperationState::Preparing => "preparing"@,
        OperationState::Queued => "queued"@,
        OperationState::Running => "running"@,
        OperationState::Completed => "completed"@,
        OperationState::Uncertain => "uncertain"@,
        OperationState::Failed => "failed"@,
        OperationState::Cancelled => "cancelled"@,
    }
}

impl OperationState {
    pub fn as_str(&self) -> (r: &'static str)
        ensures
            r@ == state_name(*self),
    {
        match self {
            OperationState::Preparing => "preparing",
            OperationState::Queued => "queued",
            OperationState::Running => "running",
            OperationState::Completed => "completed",
            OperationState::Uncertain => "uncertain",
            OperationState::Failed => "failed",
            OperationState::Cancelled => "cancelled",
        }
    }

    /// The state of that name.
    pub fn from_name(name: &str) -> (r: Option<OperationState>)
        ensures
            match r {
                Some(s) => state_name(s) == name@,
                None => forall|s: OperationState| #[trigger] state_name(s) != name@,
            },
    {
        if same(name, "preparing") {
            Some(OperationState::Preparing)
        } else if same(name, "queued") {
            Some(OperationState::Queued)
        } else if same(name, "running") {
            Some(OperationState::Running)
        } else if same(name, "completed") {
            Some(OperationState::Completed)
        } else if same(name, "uncertain") {
            Some(OperationState::Uncertain)
        } else if same(name, "failed") {
            Some(OperationState::Failed)
        } else if same(name, "cancelled") {
            Some(OperationState::Cancelled)
        } else {
            None
        }
    }

    /// What an operation becomes when its connection changes: one that has not contacted the
    /// server is cancelled, and every other one stays on record.
    pub open spec fn disconnected(self) -> OperationState {
        match self {
            OperationState::Preparing | OperationState::Queued => OperationState::Cancelled,
            other => other,
        }
    }

    /// What an operation is found to be when the application starts again, and what is said of it.
    /// One that was contacting the server may have changed anything; one that was staging has
    /// nothing to send.
    pub open spec fn recovered(self) -> OperationState {
        match self {
            OperationState::Running => OperationState::Uncertain,
            OperationState::Preparing => OperationState::Failed,
            other => other,
        }
    }

    pub fn recover(&self) -> (r: (OperationState, Option<&'static str>))
        ensures
            r.0 == self.recovered(),
            match *self {
                OperationState::Running => r.1 is Some && r.1->0@
                    == "Interrupted during a server request. Refresh and reconcile before retrying."@,
                OperationState::Preparing => r.1 is Some && r.1->0@
                    == "Interrupted while staging an upload. Select the source again."@,
                _ => r.1 is None,
            },
    {
        match self {
            OperationState::Running => (
                OperationState::Uncertain,
                Some(
                    "Interrupted during a server request. Refresh and reconcile before retrying.",
                ),
            ),
            OperationState::Preparing => (
                OperationState::Failed,
                Some("Interrupted while staging an upload. Select the source again."),
            ),
            other => (*other, None),
        }
    }

    /// Whether what an operation staged must be kept: it may still be sent, or looked at.
    pub open spec fn keeps_staging(self) -> bool {
        self == OperationState::Queued || self == OperationState::Running || self
            == OperationState::Uncertain
    }
}

/// After a restart no operation is left that could be taken for one at work, and nothing that an
/// operation may still need was given up for lost.
pub proof fn restarts_settle_every_operation(s: OperationState)
    ensures
        s.recovered() != OperationState::Running,
        s.recovered() != OperationState::Preparing,
        s.recovered().recovered() == s.recovered(),
        s.keeps_staging() ==> s.recovered().keeps_staging(),
        s == OperationState::Queued ==> s.recovered() == OperationState::Queued,
{
}

/// The name that an operation goes by: what it staged, the node it is about, or its argument.
pub open spec fn operation_name(payload: Value) -> Seq<char> {
    if payload.at("stagedName"@).text() is Some {
        payload.at("stagedName"@).text()->0
    } else if payload.at("node"@).at("name"@).text() is Some {
        payload.at("node"@).at("name"@).text()->0
    } else if payload.at("a"@).text() is Some {
        payload.at("a"@).text()->0
    } else {
        Seq::empty()
    }
}

/// The names among the items of a list, those that are texts.
pub open spec fn names_in(items: Seq<Value>) -> Seq<Seq<char>>
    decreases items.len(),
{
    if items.len() == 0 {
        Seq::empty()
    } else {
        let before = names_in(items.drop_last());
        match items.last().at("name"@).text() {
            Some(name) => before.push(name),
            None => before,
        }
    }
}

/// What an operation is about: its folder and its name.
pub open spec fn description(payload: Value) -> Seq<char> {
    "/"@ + join(
        match payload.at("history"@).items() {
            Some(items) => names_in(items),
            None => Seq::empty(),
        },
        " / "@,
    ) + " · "@ + operation_name(payload)
}

/// What an operation is about.
pub fn describe(payload: &Json) -> (r: String)
    ensures
        r@ == description(payload@),
{
    let own = match payload.get("node") {
        Some(n) => n.text_at("name"),
        None => None,
    };
    let name = match payload.text_at("stagedName") {
        Some(s) => lit(s),
        None => match own {
            Some(s) => lit(s),
            None => match payload.text_at("a") {
                Some(s) => lit(s),
                None => String::new(),
            },
        },
    };
    let mut folders: Vec<String> = Vec::new();
    proof {
        assert(texts(folders@) =~= Seq::<Seq<char>>::empty());
    }
    match payload.list_at("history") {
        Some(items) => {
            let ghost all = views(items@);
            let mut i: usize = 0;
            proof {
                assert(all.take(0) == Seq::<Value>::empty());
            }
            while i < items.len()
                invariant
                    i <= items.len(),
                    all == views(items@),
                    texts(folders@) == names_in(all.take(i as int)),
                decreases items.len() - i,
            {
                proof {
                    assert(all.take(i + 1).drop_last() == all.take(i as int));
                    assert(all.take(i + 1).last() == items@[i as int]@);
                }
                match items[i].text_at("name") {
                    Some(s) => {
                        let ghost before = texts(folders@);
                        folders.push(lit(s));
                        proof {
                            assert(texts(folders@) =~= before.push(s@));
                        }
                    },
                    None => {},
                }
                i = i + 1;
            }
            proof {
                assert(all.take(all.len() as int) == all);
            }
        },
        None => {},
    }
    let folder = join_texts(&folders, " / ");
    lit("/").concat(folder.as_str()).concat(" · ").concat(name.as_str())
}

/// An operation as the history shows it, from what is stored of it.
pub fn operation(id: i64, action: String, state: String, error: String, bytes: i64, payload: &Json) -> (r:
    Operation)
    ensures
        r.id == id,
        r.action == action,
        r.state == state,
        r.error == error,
        r.bytes == (if bytes < 0 {
            0
        } else {
            bytes as int
        }),
        r.description@ == description(payload@),
{
    Operation {
        id,
        action,
        state,
        error,
        bytes: if bytes < 0 {
            0
        } else {
            bytes as u64
        },
        description: describe(payload),
    }
}

/// One line of the activity of an account.
pub fn activity_entry(id: i64, action: &str, state: &str, error: &str) -> (r: String)
    ensures
        r@ == "#"@ + signed_decimal(id as int) + " · "@ + action@ + " · "@ + state@ + "\n"@
            + error@,
{
    let number = i64_text(id);
    lit("#").concat(number.as_str()).concat(" · ").concat(action).concat(" · ").concat(
        state,
    ).concat("\n").concat(error)
}

/// The account that an entry of the earlier settings belongs to, where it is one that is here.
pub open spec fn legacy_account(key: Seq<char>, accounts: Seq<i64>) -> Option<i64> {
    if stands_at(key, "files:"@, 0) {
        match parsed_i64(key.skip("files:"@.len() as int)) {
            Some(id) => if accounts.contains(id) {
                Some(id)
            } else {
                None
            },
            None => None,
        }
    } else {
        None
    }
}

fn has_account(accounts: &Vec<i64>, id: i64) -> (r: bool)
    ensures
        r == accounts@.contains(id),
{
    let mut i: usize = 0;
    while i < accounts.len()
        invariant
            i <= accounts.len(),
            forall|j: int| 0 <= j < i ==> accounts@[j] != id,
        decreases accounts.len() - i,
    {
        if accounts[i] == id {
            proof {
                assert(accounts@[i as int] == id);
            }
            return true;
        }
        i = i + 1;
    }
    false
}

/// The account that an entry of the earlier settings belongs to.
pub fn legacy_settings(key: &str, accounts: &Vec<i64>) -> (r: Option<i64>)
    ensures
        r == legacy_account(key@, accounts@),
{
    let rest = match strip_prefix(key, "files:") {
        Some(rest) => rest,
        None => {
            return None;
        },
    };
    match parse_i64(rest.as_str()) {
        Some(id) => if has_account(accounts, id) {
            Some(id)
        } else {
            None
        },
        None => None,
    }
}

/// The connections that belong to no account.
pub open spec fn orphans(connections: Seq<i64>, accounts: Seq<i64>) -> Seq<i64> {
    connections.filter(|id: i64| !accounts.contains(id))
}

/// The connections to forget: those of accounts that were removed.
pub fn orphaned(connections: &Vec<i64>, accounts: &Vec<i64>) -> (r: Vec<i64>)
    ensures
        r@ == orphans(connections@, accounts@),
{
    let ghost gone = |id: i64| !accounts@.contains(id);
    let mut out: Vec<i64> = Vec::new();
    let mut i: usize = 0;
    proof {
        reveal(Seq::filter);
        assert(connections@.take(0) == Seq::<i64>::empty());
        assert(out@ =~= connections@.take(0).filter(gone));
    }
    while i < connections.len()
        invariant
            i <= connections.len(),
            gone == (|id: i64| !accounts@.contains(id)),
            out@ == connections@.take(i as int).filter(gone),
        decreases connections.len() - i,
    {
        proof {
            assert(connections@.take(i + 1) == connections@.take(i as int).push(
                connections@[i as int],
            ));
            crate::text::filter_push(
                connections@.take(i as int),
                connections@[i as int],
                gone,
            );
        }
        if !has_account(accounts, connections[i]) {
            out.push(connections[i]);
        }
        i = i + 1;
    }
    proof {
        assert(connections@.take(connections@.len() as int) == connections@);
    }
    out
}

/// Whether a directory of the staging area is left over: it is named like an operation that no
/// longer needs it.
pub fn is_stale_staging(account: &str, job: &str, pending: &Vec<(i64, i64)>) -> (r: bool)
    ensures
        r == (parsed_i64(account@) is Some && parsed_i64(job@) is Some && !pending@.contains(
            (parsed_i64(account@)->0, parsed_i64(job@)->0),
        )),
{
    let owner: i64 = match parse_i64(account) {
        Some(n) => n,
        None => {
            return false;
        },
    };
    let id: i64 = match parse_i64(job) {
        Some(n) => n,
        None => {
            return false;
        },
    };
    let mut i: usize = 0;
    while i < pending.len()
        invariant
            i <= pending.len(),
            parsed_i64(account@) == Some(owner),
            parsed_i64(job@) == Some(id),
            forall|j: int| 0 <= j < i ==> pending@[j] != (owner, id),
        decreases pending.len() - i,
    {
        if pending[i].0 == owner && pending[i].1 == id {
            proof {
                assert(pending@[i as int] == (owner, id));
            }
            return false;
        }
        i = i + 1;
    }
    true
}

/// Whether saving the connection of an account gives up what was known of the one before: queued
/// operations, storage spaces and the selected one belong to the old connection.
pub fn connection_changed(stored: Option<&str>, new: &str) -> (r: bool)
    ensures
        r == (stored is Some && stored->0@ != new@),
{
    match stored {
        Some(old) => !same(old, new),
        None => false,
    }
}

/// Whether an operation is cancelled when its connection changes: it has not contacted the server.
pub fn cancelled_with_connection(state: OperationState) -> (r: bool)
    ensures
        r == (state.disconnected() != state),
{
    matches!(state, OperationState::Preparing | OperationState::Queued)
}

/// Where an operation stages its upload.
pub fn staging_dir(paths: &Paths, account: i64, id: i64) -> (r: String)
    ensures
        r@ == joined(
            joined(
                joined(paths.data_dir@, "file_transfers"@),
                signed_decimal(account as int),
            ),
            signed_decimal(id as int),
        ),
{
    crate::config::join_path(
        paths.files_staging_dir(account).as_str(),
        i64_text(id).as_str(),
    )
}

/// A state is read back as it was written: no two states share a name.
pub proof fn states_are_read_back(a: OperationState, b: OperationState)
    ensures
        state_name(a) == state_name(b) ==> a == b,
{
    reveal_strlit("preparing");
    reveal_strlit("queued");
    reveal_strlit("running");
    reveal_strlit("completed");
    reveal_strlit("uncertain");
    reveal_strlit("failed");
    reveal_strlit("cancelled");
    if state_name(a) == state_name(b) {
        assert(state_name(a)[0] == state_name(b)[0]);
        assert(state_name(a)[2] == state_name(b)[2]);
    }
}

} // verus!
