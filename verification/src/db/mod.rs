//! The SQLite stores in WAL mode: how each is opened, checked and migrated.

pub mod snapshot;

use crate::error::{fails, other, says, Result};
use crate::text::{i64_text, is_same_ascii, lit, same_ascii, signed_decimal};
use vstd::prelude::*;
use vstd::string::*;

verus! {

/// Backpressure keeps a burst of sync/UI work from retaining an unbounded
/// number of captured query arguments while SQLite is busy with a long write.
pub const JOB_QUEUE_CAPACITY: usize = 128;

/// One of the physically separate stores.
#[derive(Clone, Copy, Debug, PartialEq, Eq, Structural)]
pub enum StoreKind {
    Mail,
    Calendar,
    Files,
}

/// How much memory a connection may use.
#[derive(Clone, Copy, Debug, PartialEq, Eq, Structural)]
pub struct Profile {
    /// The bytes of the file that may be mapped.
    pub mmap_size: i64,
    /// The page cache as SQLite takes it: negative, in KiB.
    pub cache_size: i64,
}

impl StoreKind {
    /// The memory that a connection to the store may use. Each connection's private page cache is
    /// bounded; calendar queries touch a tiny working set compared with mailbox scans.
    pub fn profile(&self) -> (r: Profile)
        ensures
            r == (match *self {
                StoreKind::Mail => Profile { mmap_size: 67108864, cache_size: (-8192) as i64 },
                StoreKind::Calendar => Profile { mmap_size: 16777216, cache_size: (-2048) as i64 },
                StoreKind::Files => Profile { mmap_size: 33554432, cache_size: (-4096) as i64 },
            }),
            r.cache_size < 0,
    {
        match self {
            StoreKind::Mail => Profile { mmap_size: 67108864, cache_size: -8192 },
            StoreKind::Calendar => Profile { mmap_size: 16777216, cache_size: -2048 },
            StoreKind::Files => Profile { mmap_size: 33554432, cache_size: -4096 },
        }
    }

    /// How the store is called in messages.
    pub fn name(&self) -> (r: &'static str)
        ensures
            r@ == (match *self {
                StoreKind::Mail => "mail"@,
                StoreKind::Calendar => "calendar"@,
                StoreKind::Files => "files"@,
            }),
    {
        match self {
            StoreKind::Mail => "mail",
            StoreKind::Calendar => "calendar",
            StoreKind::Files => "files",
        }
    }

    /// Whether the store has a reader beside its writer. Calendar operations are short and
    /// low-volume: one serialized connection serves both.
    pub fn has_reader(&self) -> (r: bool)
        ensures
            r == (*self != StoreKind::Calendar),
    {
        !matches!(self, StoreKind::Calendar)
    }
}

/// The file that SQLite keeps beside a database.
pub fn sqlite_sidecar(path: &str, suffix: &str) -> (r: String)
    ensures
        r@ == path@ + suffix@,
{
    lit(path).concat(suffix)
}

/// Whether a check of a database found nothing.
pub fn quick_check(result: &str, store: &str) -> (r: Result<()>)
    ensures
        r is Ok <==> same_ascii(result@, "ok"@),
        r matches Err(e) ==> says(e, store@ + " database quick_check failed: "@ + result@),
{
    if is_same_ascii(result, "ok") {
        Ok(())
    } else {
        Err(other(lit(store).concat(" database quick_check failed: ").concat(result).as_str()))
    }
}

/// Whether a database is checked before it is migrated. A clean final close removes the sidecars:
/// their presence is a cheap dirty-shutdown signal.
pub fn check_before(wal: bool, journal: bool) -> (r: bool)
    ensures
        r == (wal || journal),
{
    wal || journal
}

/// Whether a database is checked after it was migrated: never on every normal launch.
pub fn check_after(version_before: i64, version_after: i64) -> (r: bool)
    ensures
        r == (version_before != version_after),
{
    version_before != version_after
}

/// What a store says of a schema that is newer than the application.
pub open spec fn newer_schema(kind: StoreKind, version: i64) -> Seq<char> {
    match kind {
        StoreKind::Files => "Files database was created by a newer application."@,
        _ => "mail database schema "@ + signed_decimal(version as int)
            + " requires a newer application; open this profile with a compatible version. Existing data has not been changed."@,
    }
}

/// The first migration that is still to run, out of `latest`; `latest` where none is. A schema
/// that is newer than the application is left alone.
pub fn first_migration(kind: StoreKind, version: i64, latest: usize) -> (r: Result<usize>)
    requires
        latest <= i64::MAX,
        kind != StoreKind::Calendar,
    ensures
        if version > latest {
            fails(r, newer_schema(kind, version))
        } else {
            r is Ok && r->Ok_0 == (if version < 0 {
                latest as int
            } else {
                version as int
            })
        },
{
    if version > latest as i64 {
        return Err(
            match kind {
                StoreKind::Files => other("Files database was created by a newer application."),
                _ => {
                    let number = i64_text(version);
                    other(
                        lit("mail database schema ").concat(number.as_str()).concat(
                            " requires a newer application; open this profile with a compatible version. Existing data has not been changed.",
                        ).as_str(),
                    )
                },
            },
        );
    }
    if version < 0 {
        return Ok(latest);
    }
    Ok(version as usize)
}

} // verus!
