//! Coherent online snapshots of the physically separate mail, calendar and files stores. All
//! three writer queues are held at the same barrier while committed pages are copied, so no
//! application write can land between the captured database states.

use crate::error::{fails, other, says, CoreError, Result};
use crate::text::{decimal, i64_text, is_same_ascii, lit, same_ascii, signed_decimal, u64_text};
use vstd::prelude::*;
use vstd::string::*;

verus! {

pub const SNAPSHOT_FORMAT: &'static str = "flectar-mail-database-snapshot";

pub const SNAPSHOT_VERSION: u32 = 2;

pub const MAIL_FILE: &'static str = "mail.sqlite3";

pub const CALENDAR_FILE: &'static str = "calendar.sqlite3";

pub const FILES_FILE: &'static str = "files.sqlite3";

/// What a snapshot records of one store.
#[derive(Debug)]
pub struct DatabaseSnapshotStore {
    pub file: String,
    pub schema_version: i64,
    pub sqlite_version: String,
    pub page_count: i64,
    pub page_size: i64,
}

/// What a snapshot records of itself.
#[derive(Debug)]
pub struct DatabaseSnapshotManifest {
    pub format: String,
    pub version: u32,
    pub created_at: String,
    pub core_version: String,
    pub mail: DatabaseSnapshotStore,
    pub calendar: DatabaseSnapshotStore,
    pub files: Option<DatabaseSnapshotStore>,
    pub file_transfer_payloads: bool,
}

/// What the user is told where the stores could not be held together.
pub fn coordination_error(phase: &str, error: &str) -> (r: CoreError)
    ensures
        says(r, "database snapshot "@ + phase@ + " coordination failed: "@ + error@),
{
    other(
        lit("database snapshot ").concat(phase).concat(" coordination failed: ").concat(
            error,
        ).as_str(),
    )
}

/// What a copied store was found to be.
pub struct StoreCheck {
    pub schema_version: i64,
    pub page_count: i64,
    pub page_size: i64,
    pub integrity: String,
    pub foreign_key_violation: bool,
}

/// Why a copied store is not what was captured, if it is not.
pub open spec fn store_problem(
    expected: DatabaseSnapshotStore,
    found: StoreCheck,
    store: Seq<char>,
) -> Option<Seq<char>> {
    if found.schema_version != expected.schema_version {
        Some(
            store + " snapshot schema changed during verification: expected "@ + signed_decimal(
                expected.schema_version as int,
            ) + ", found "@ + signed_decimal(found.schema_version as int),
        )
    } else if found.page_count != expected.page_count || found.page_size != expected.page_size {
        Some(
            store + " snapshot page geometry changed during verification: expected "@
                + signed_decimal(expected.page_count as int) + " pages of "@ + signed_decimal(
                expected.page_size as int,
            ) + " bytes, found "@ + signed_decimal(found.page_count as int) + " pages of "@
                + signed_decimal(found.page_size as int) + " bytes"@,
        )
    } else if !same_ascii(found.integrity@, "ok"@) {
        Some(store + " snapshot integrity_check failed: "@ + found.integrity@)
    } else if found.foreign_key_violation {
        Some(store + " snapshot contains a foreign-key violation"@)
    } else {
        None
    }
}

/// Whether a copied store is what was captured.
pub fn verify_store(expected: &DatabaseSnapshotStore, found: &StoreCheck, store: &str) -> (r: Result<
    (),
>)
    ensures
        match store_problem(*expected, *found, store@) {
            Some(m) => fails(r, m),
            None => r is Ok,
        },
{
    if found.schema_version != expected.schema_version {
        let a = i64_text(expected.schema_version);
        let b = i64_text(found.schema_version);
        return Err(
            other(
                lit(store).concat(
                    " snapshot schema changed during verification: expected ",
                ).concat(a.as_str()).concat(", found ").concat(b.as_str()).as_str(),
            ),
        );
    }
    if found.page_count != expected.page_count || found.page_size != expected.page_size {
        let a = i64_text(expected.page_count);
        let b = i64_text(expected.page_size);
        let c = i64_text(found.page_count);
        let d = i64_text(found.page_size);
        return Err(
            other(
                lit(store).concat(
                    " snapshot page geometry changed during verification: expected ",
                ).concat(a.as_str()).concat(" pages of ").concat(b.as_str()).concat(
                    " bytes, found ",
                ).concat(c.as_str()).concat(" pages of ").concat(d.as_str()).concat(
                    " bytes",
                ).as_str(),
            ),
        );
    }
    if !is_same_ascii(found.integrity.as_str(), "ok") {
        return Err(
            other(
                lit(store).concat(" snapshot integrity_check failed: ").concat(
                    found.integrity.as_str(),
                ).as_str(),
            ),
        );
    }
    if found.foreign_key_violation {
        return Err(
            other(lit(store).concat(" snapshot contains a foreign-key violation").as_str()),
        );
    }
    Ok(())
}

/// Whether a snapshot can be made at a destination: it must not exist, which keeps an export from
/// overwriting an older backup, and it must lie in a directory.
pub fn check_destination(present: bool, destination: &str, has_parent: bool) -> (r: Result<()>)
    ensures
        if present {
            fails(r, "snapshot destination already exists: "@ + destination@)
        } else if !has_parent {
            fails(r, "database snapshot destination has no parent directory"@)
        } else {
            r is Ok
        },
{
    if present {
        return Err(
            other(lit("snapshot destination already exists: ").concat(destination).as_str()),
        );
    }
    if !has_parent {
        return Err(other("database snapshot destination has no parent directory"));
    }
    Ok(())
}

/// The name of the directory in which a snapshot is made, beside its destination.
pub fn staging_name(name: Option<&str>, process: u32, nonce: &str) -> (r: Result<String>)
    ensures
        match name {
            None => fails(r, "database snapshot destination has no directory name"@),
            Some(n) => r is Ok && r->Ok_0@ == "."@ + n@ + ".partial-"@ + decimal(process as nat)
                + "-"@ + nonce@,
        },
{
    match name {
        None => Err(other("database snapshot destination has no directory name")),
        Some(n) => {
            let id = u64_text(process as u64);
            Ok(
                lit(".").concat(n).concat(".partial-").concat(id.as_str()).concat("-").concat(
                    nonce,
                ),
            )
        },
    }
}

/// How many stores a snapshot holds at its barrier.
pub const STORES: u8 = 3;

/// What the barrier does next.
#[derive(Clone, Copy, Debug, PartialEq, Eq, Structural)]
pub enum BarrierAction {
    Wait,
    /// Let every store be copied.
    StartAll,
    /// Let every store go on.
    ReleaseAll,
}

/// The barrier of a snapshot: every writer stops at it before any store is copied, and none goes on
/// before every store is copied.
#[derive(Clone, Copy, Debug, PartialEq, Eq, Structural)]
pub struct Barrier {
    pub ready: u8,
    pub copied: u8,
}

impl Barrier {
    pub open spec fn wf(self) -> bool {
        self.ready <= STORES && self.copied <= STORES && (self.copied > 0 ==> self.ready == STORES)
    }

    /// Whether the copies were started.
    pub open spec fn started(self) -> bool {
        self.ready == STORES
    }

    /// Whether the writers were let go.
    pub open spec fn released(self) -> bool {
        self.copied == STORES
    }

    pub fn new() -> (r: Barrier)
        ensures
            r.wf(),
            r == (Barrier { ready: 0, copied: 0 }),
    {
        Barrier { ready: 0, copied: 0 }
    }

    /// A writer stopped at the barrier.
    pub fn stopped(&mut self) -> (r: BarrierAction)
        requires
            old(self).wf(),
            !old(self).started(),
        ensures
            final(self).wf(),
            *final(self) == (Barrier { ready: (old(self).ready + 1) as u8, ..*old(self) }),
            r == (if final(self).started() {
                BarrierAction::StartAll
            } else {
                BarrierAction::Wait
            }),
    {
        self.ready = self.ready + 1;
        if self.ready == STORES {
            BarrierAction::StartAll
        } else {
            BarrierAction::Wait
        }
    }

    /// A store was copied.
    pub fn copy_ended(&mut self) -> (r: BarrierAction)
        requires
            old(self).wf(),
            old(self).started(),
            !old(self).released(),
        ensures
            final(self).wf(),
            *final(self) == (Barrier { copied: (old(self).copied + 1) as u8, ..*old(self) }),
            r == (if final(self).released() {
                BarrierAction::ReleaseAll
            } else {
                BarrierAction::Wait
            }),
    {
        self.copied = self.copied + 1;
        if self.copied == STORES {
            BarrierAction::ReleaseAll
        } else {
            BarrierAction::Wait
        }
    }
}

/// What a barrier is told.
pub enum BarrierEvent {
    /// A writer stopped.
    Stopped,
    /// A store was copied.
    Copied,
}

/// The barrier after what it was told.
pub open spec fn barrier_after(events: Seq<BarrierEvent>) -> Barrier
    decreases events.len(),
{
    if events.len() == 0 {
        Barrier { ready: 0, copied: 0 }
    } else {
        let before = barrier_after(events.drop_last());
        match events.last() {
            BarrierEvent::Stopped => Barrier { ready: (before.ready + 1) as u8, ..before },
            BarrierEvent::Copied => Barrier { copied: (before.copied + 1) as u8, ..before },
        }
    }
}

/// Whether a barrier may be told so: writers stop until all have stopped, and stores are copied
/// once they have, until all are copied.
pub open spec fn barrier_holds(events: Seq<BarrierEvent>) -> bool
    decreases events.len(),
{
    events.len() == 0 || ({
        let before = barrier_after(events.drop_last());
        &&& barrier_holds(events.drop_last())
        &&& match events.last() {
            BarrierEvent::Stopped => !before.started(),
            BarrierEvent::Copied => before.started() && !before.released(),
        }
    })
}

/// No application write lands between the captured states: every writer stands at the barrier
/// before the first store is copied, no writer stops later, and the writers go on only when every
/// store is copied.
pub proof fn captured_states_are_coherent(events: Seq<BarrierEvent>, k: int)
    requires
        barrier_holds(events),
        0 <= k < events.len(),
        events[k] == BarrierEvent::Copied,
    ensures
        barrier_after(events.take(k)).ready == STORES,
        !barrier_after(events.take(k)).released(),
        forall|j: int| k <= j < events.len() ==> events[j] == BarrierEvent::Copied,
        barrier_after(events).wf(),
        barrier_after(events).released() <==> events.len() == 2 * STORES,
    decreases events.len(),
{
    barrier_counts(events);
    let head = events.drop_last();
    if k < head.len() {
        captured_states_are_coherent(head, k);
        assert(head.take(k) =~= events.take(k));
        assert(barrier_after(head).ready == STORES) by {
            barrier_counts(head);
        }
        assert forall|j: int| k <= j < events.len() implies events[j] == BarrierEvent::Copied by {
            if j < head.len() {
                assert(head[j] == events[j]);
            }
        }
    } else {
        assert(head =~= events.take(k));
    }
}

/// A barrier counts what it was told, and has all writers before the first copy.
proof fn barrier_counts(events: Seq<BarrierEvent>)
    requires
        barrier_holds(events),
    ensures
        barrier_after(events).wf(),
        barrier_after(events).ready + barrier_after(events).copied == events.len(),
        events.contains(BarrierEvent::Copied) ==> barrier_after(events).started(),
    decreases events.len(),
{
    if events.len() > 0 {
        let head = events.drop_last();
        barrier_counts(head);
        if events.contains(BarrierEvent::Copied) && events.last() == BarrierEvent::Stopped {
            let i = choose|i: int| 0 <= i < events.len() && events[i] == BarrierEvent::Copied;
            assert(head[i] == BarrierEvent::Copied);
            assert(head.contains(BarrierEvent::Copied));
        }
    }
}

/// What a snapshot records of itself.
pub fn manifest(
    created_at: String,
    core_version: String,
    mail: DatabaseSnapshotStore,
    calendar: DatabaseSnapshotStore,
    files: DatabaseSnapshotStore,
    payloads: bool,
) -> (r: DatabaseSnapshotManifest)
    ensures
        r.format@ == SNAPSHOT_FORMAT@,
        r.version == SNAPSHOT_VERSION,
        r.created_at == created_at,
        r.core_version == core_version,
        r.mail == mail,
        r.calendar == calendar,
        r.files == Some(files),
        r.file_transfer_payloads == payloads,
{
    DatabaseSnapshotManifest {
        format: lit(SNAPSHOT_FORMAT),
        version: SNAPSHOT_VERSION,
        created_at,
        core_version,
        mail,
        calendar,
        files: Some(files),
        file_transfer_payloads: payloads,
    }
}

/// The deepest directory of the transfer staging area.
pub const MAX_PAYLOAD_DEPTH: usize = 3;

/// A directory of the staging area that is still to be copied.
pub struct PayloadDir {
    pub source: String,
    pub target: String,
    pub depth: usize,
}

/// What becomes of an entry of the staging area.
#[derive(Clone, Copy, Debug, PartialEq, Eq, Structural)]
pub enum PayloadEntry {
    /// It is entered later.
    Enter,
    /// It is copied.
    Copy,
}

/// Whether a directory of the staging area can be copied: nothing lies deeper than an operation's
/// own files.
pub fn check_payload(depth: usize) -> (r: Result<()>)
    ensures
        r is Ok <==> depth <= MAX_PAYLOAD_DEPTH,
        r matches Err(e) ==> says(e, "Invalid transfer staging hierarchy."@),
{
    if depth > MAX_PAYLOAD_DEPTH {
        return Err(other("Invalid transfer staging hierarchy."));
    }
    Ok(())
}

/// What becomes of an entry of the staging area. A link is never followed.
pub fn payload_entry(is_dir: bool, is_file: bool) -> (r: Result<PayloadEntry>)
    ensures
        if is_dir {
            r == Ok::<PayloadEntry, CoreError>(PayloadEntry::Enter)
        } else if is_file {
            r == Ok::<PayloadEntry, CoreError>(PayloadEntry::Copy)
        } else {
            fails(r, "Unexpected link in transfer staging."@)
        },
{
    if is_dir {
        Ok(PayloadEntry::Enter)
    } else if is_file {
        Ok(PayloadEntry::Copy)
    } else {
        Err(other("Unexpected link in transfer staging."))
    }
}

/// The staging area, level by level.
pub struct PayloadWalk {
    pub queue: Vec<PayloadDir>,
}

impl PayloadWalk {
    pub open spec fn wf(self) -> bool {
        forall|i: int| 0 <= i < self.queue@.len() ==> (#[trigger] self.queue@[i]).depth
            <= MAX_PAYLOAD_DEPTH + 1
    }

    pub fn begin(source: &str, target: &str) -> (r: PayloadWalk)
        ensures
            r.wf(),
            r.queue@.len() == 1,
            r.queue@[0].source@ == source@,
            r.queue@[0].target@ == target@,
            r.queue@[0].depth == 0,
    {
        PayloadWalk { queue: vec![PayloadDir { source: lit(source), target: lit(target), depth: 0 }] }
    }

    /// The next directory to copy; `None` at the end.
    pub fn next(&mut self) -> (r: Result<Option<PayloadDir>>)
        requires
            old(self).wf(),
        ensures
            final(self).wf(),
            if old(self).queue@.len() == 0 {
                r matches Ok(None) && final(self).queue@ == old(self).queue@
            } else {
                final(self).queue@ == old(self).queue@.skip(1) && if old(self).queue@[0].depth
                    > MAX_PAYLOAD_DEPTH {
                    fails(r, "Invalid transfer staging hierarchy."@)
                } else {
                    r is Ok && r->Ok_0 == Some(old(self).queue@[0])
                }
            },
    {
        if self.queue.len() == 0 {
            return Ok(None);
        }
        let ghost before = self.queue@;
        let first = self.queue.remove(0);
        proof {
            assert(self.queue@ =~= before.skip(1));
        }
        match check_payload(first.depth) {
            Ok(_) => Ok(Some(first)),
            Err(e) => Err(e),
        }
    }

    /// Take an entry of the directory that is being copied; returns whether it is copied now.
    pub fn entry(
        &mut self,
        at: &PayloadDir,
        source: &str,
        target: &str,
        is_dir: bool,
        is_file: bool,
    ) -> (r: Result<bool>)
        requires
            old(self).wf(),
            at.depth <= MAX_PAYLOAD_DEPTH,
        ensures
            final(self).wf(),
            if is_dir {
                &&& r == Ok::<bool, CoreError>(false)
                &&& final(self).queue@.len() == old(self).queue@.len() + 1
                &&& final(self).queue@.drop_last() == old(self).queue@
                &&& final(self).queue@.last().source@ == source@
                &&& final(self).queue@.last().target@ == target@
                &&& final(self).queue@.last().depth == at.depth + 1
            } else if is_file {
                r == Ok::<bool, CoreError>(true) && final(self).queue@ == old(self).queue@
            } else {
                fails(r, "Unexpected link in transfer staging."@) && final(self).queue@ == old(
                    self).queue@
            },
    {
        match payload_entry(is_dir, is_file) {
            Ok(PayloadEntry::Enter) => {
                let ghost before = self.queue@;
                self.queue.push(
                    PayloadDir {
                        source: lit(source),
                        target: lit(target),
                        depth: at.depth + 1,
                    },
                );
                proof {
                    assert(self.queue@.drop_last() =~= before);
                }
                Ok(false)
            },
            Ok(PayloadEntry::Copy) => Ok(true),
            Err(e) => Err(e),
        }
    }
}

} // verus!
