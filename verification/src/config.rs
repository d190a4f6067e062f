//! Where the application keeps its files.

use crate::error::{other, says, Result};
use crate::text::{i64_text, lit, signed_decimal};
use vstd::prelude::*;
use vstd::string::*;

verus! {

/// The directories of the application, as paths with `/` between their parts.
#[derive(Debug, Clone)]
pub struct Paths {
    /// Durable application state. Databases, raw mail, drafts, queues, and
    /// settings live here and must survive process death and cache eviction.
    pub data_dir: String,
    /// Reconstructable data such as downloaded attachment bodies and preview
    /// scratch files. Hosts may place this in an OS-managed cache directory.
    pub cache_dir: String,
}

/// A relative part put behind a path: one separator between them, none behind an empty path or a
/// path that ends in one.
pub open spec fn joined(base: Seq<char>, part: Seq<char>) -> Seq<char> {
    if base.len() == 0 || base.last() == '/' {
        base + part
    } else {
        base.push('/') + part
    }
}

/// Put a relative part behind a path.
pub fn join_path(base: &str, part: &str) -> (r: String)
    ensures
        r@ == joined(base@, part@),
{
    let n: usize = base.unicode_len();
    let mut out = lit(base);
    if n > 0 && base.get_char(n - 1) != '/' {
        out.push('/');
    }
    out.append(part);
    out
}

impl Paths {
    /// Resolve desktop directories from those that the operating system names. Mobile hosts must
    /// inject their sandbox paths explicitly; silently using the process working directory is
    /// never safe on Android or iOS.
    pub fn default_dirs(data_root: Option<String>, cache_root: Option<String>) -> (r: Result<Self>)
        ensures
            match (data_root, cache_root) {
                (Some(data), Some(cache)) => r matches Ok(p) && p.data_dir@ == joined(
                    data@,
                    "flectar-mail"@,
                ) && p.cache_dir@ == joined(cache@, "flectar-mail"@),
                (None, _) => r matches Err(e) && says(
                    e,
                    "the operating system has no application data directory"@,
                ),
                (Some(_), None) => r matches Err(e) && says(
                    e,
                    "the operating system has no application cache directory"@,
                ),
            },
    {
        match data_root {
            None => Err(other("the operating system has no application data directory")),
            Some(data) => match cache_root {
                None => Err(other("the operating system has no application cache directory")),
                Some(cache) => Ok(
                    Self::new(
                        join_path(data.as_str(), "flectar-mail"),
                        join_path(cache.as_str(), "flectar-mail"),
                    ),
                ),
            },
        }
    }

    /// Resolve the directories of an application sandbox from its home directory.
    pub fn sandbox_dirs(home: Option<String>) -> (r: Result<Self>)
        ensures
            match home {
                Some(root) => r matches Ok(p) && p.data_dir@ == joined(
                    root@,
                    "Library/Application Support/Flectar"@,
                ) && p.cache_dir@ == joined(root@, "Library/Caches/Flectar"@),
                None => r matches Err(e) && says(
                    e,
                    "iOS did not supply the application sandbox."@,
                ),
            },
    {
        match home {
            Some(root) => Ok(
                Self::new(
                    join_path(root.as_str(), "Library/Application Support/Flectar"),
                    join_path(root.as_str(), "Library/Caches/Flectar"),
                ),
            ),
            None => Err(other("iOS did not supply the application sandbox.")),
        }
    }

    /// Where the platform host must supply the directories, none can be resolved.
    pub fn hosted_dirs() -> (r: Result<Self>)
        ensures
            r matches Err(e) && says(
                e,
                "mobile application storage must be supplied by the platform host"@,
            ),
    {
        Err(other("mobile application storage must be supplied by the platform host"))
    }

    pub fn new(data_dir: String, cache_dir: String) -> (r: Self)
        ensures
            r.data_dir == data_dir,
            r.cache_dir == cache_dir,
    {
        Self { data_dir, cache_dir }
    }

    pub fn for_tests(root: &str) -> (r: Self)
        ensures
            r.data_dir@ == root@,
            r.cache_dir@ == joined(root@, "cache"@),
    {
        Self::new(lit(root), join_path(root, "cache"))
    }

    pub fn db_file(&self) -> (r: String)
        ensures
            r@ == joined(self.data_dir@, "flectar-mail.db"@),
    {
        join_path(self.data_dir.as_str(), "flectar-mail.db")
    }

    /// Calendar data lives in its own SQLite database so large mailbox writes,
    /// FTS maintenance, and mail backfills never contend with calendar reads or
    /// sync bookkeeping.
    pub fn calendar_db_file(&self) -> (r: String)
        ensures
            r@ == joined(self.data_dir@, "flectar-calendar.db"@),
    {
        join_path(self.data_dir.as_str(), "flectar-calendar.db")
    }

    pub fn files_db_file(&self) -> (r: String)
        ensures
            r@ == joined(self.data_dir@, "flectar-files.db"@),
    {
        join_path(self.data_dir.as_str(), "flectar-files.db")
    }

    pub fn files_cache_dir(&self, account_id: i64) -> (r: String)
        ensures
            r@ == joined(joined(self.cache_dir@, "files"@), signed_decimal(account_id as int)),
    {
        join_path(
            join_path(self.cache_dir.as_str(), "files").as_str(),
            i64_text(account_id).as_str(),
        )
    }

    pub fn files_staging_dir(&self, account_id: i64) -> (r: String)
        ensures
            r@ == joined(
                joined(self.data_dir@, "file_transfers"@),
                signed_decimal(account_id as int),
            ),
    {
        join_path(
            join_path(self.data_dir.as_str(), "file_transfers").as_str(),
            i64_text(account_id).as_str(),
        )
    }

    /// Small, reconstructable projection of the last visible mailbox page.
    /// The native shell may paint this before the databases finish opening;
    /// SQLite remains authoritative and replaces it during normal startup.
    pub fn warm_start_file(&self) -> (r: String)
        ensures
            r@ == joined(self.cache_dir@, "warm-start-mailbox-v2.json"@),
    {
        join_path(self.cache_dir.as_str(), "warm-start-mailbox-v2.json")
    }

    /// Directory for raw .eml files of one account.
    pub fn mail_dir(&self, account_id: i64) -> (r: String)
        ensures
            r@ == joined(joined(self.data_dir@, "mail"@), signed_decimal(account_id as int)),
    {
        join_path(self.mail_root().as_str(), i64_text(account_id).as_str())
    }

    /// Directory for extracted attachment files.
    pub fn attachments_dir(&self, account_id: i64) -> (r: String)
        ensures
            r@ == joined(
                joined(self.cache_dir@, "attachments"@),
                signed_decimal(account_id as int),
            ),
    {
        join_path(
            join_path(self.cache_dir.as_str(), "attachments").as_str(),
            i64_text(account_id).as_str(),
        )
    }

    /// Root for app-managed copies of outgoing (draft) attachments. Files
    /// picked in the composer are staged here so dispatch only ever reads
    /// files the app itself wrote, never an arbitrary caller-supplied path.
    pub fn draft_attachments_dir(&self) -> (r: String)
        ensures
            r@ == joined(self.data_dir@, "draft_attachments"@),
    {
        join_path(self.data_dir.as_str(), "draft_attachments")
    }

    /// Directory holding local embedding-model weights (`<models_dir>/<key>`).
    pub fn models_dir(&self) -> (r: String)
        ensures
            r@ == joined(self.cache_dir@, "models"@),
    {
        join_path(self.cache_dir.as_str(), "models")
    }

    pub fn temp_dir(&self) -> (r: String)
        ensures
            r@ == joined(self.cache_dir@, "tmp"@),
    {
        join_path(self.cache_dir.as_str(), "tmp")
    }

    pub fn mail_root(&self) -> (r: String)
        ensures
            r@ == joined(self.data_dir@, "mail"@),
    {
        join_path(self.data_dir.as_str(), "mail")
    }

    /// The directories that must exist before the application starts; the first two are private
    /// to the user.
    pub fn required_dirs(&self) -> (r: Vec<String>)
        ensures
            crate::text::texts(r@) == seq![
                self.data_dir@,
                self.cache_dir@,
                joined(self.data_dir@, "mail"@),
                joined(self.data_dir@, "draft_attachments"@),
                joined(self.cache_dir@, "tmp"@),
            ],
    {
        let r = vec![
            self.data_dir.clone(),
            self.cache_dir.clone(),
            self.mail_root(),
            self.draft_attachments_dir(),
            self.temp_dir(),
        ];
        proof {
            assert(crate::text::texts(r@) =~= seq![
                self.data_dir@,
                self.cache_dir@,
                joined(self.data_dir@, "mail"@),
                joined(self.data_dir@, "draft_attachments"@),
                joined(self.cache_dir@, "tmp"@),
            ]);
        }
        r
    }
}

/// A path made from `base` lies under it: it begins with `base`, and with a separator behind it
/// where `base` has none of its own.
pub proof fn joined_stays_under(base: Seq<char>, part: Seq<char>)
    ensures
        base.is_prefix_of(joined(base, part)),
        base.len() > 0 ==> joined(base, part).len() > 0,
        base.len() > 0 && base.last() != '/' ==> base.push('/').is_prefix_of(joined(base, part)),
{
}

/// Durable and reconstructable state never share a path: where neither directory lies under the
/// other, no path under the one is a path under the other.
pub proof fn durable_and_cached_are_apart(
    data: Seq<char>,
    cache: Seq<char>,
    kept: Seq<char>,
    rebuilt: Seq<char>,
)
    requires
        !data.is_prefix_of(cache),
        !cache.is_prefix_of(data),
    ensures
        joined(data, kept) != joined(cache, rebuilt),
{
    joined_stays_under(data, kept);
    joined_stays_under(cache, rebuilt);
    if joined(data, kept) == joined(cache, rebuilt) {
        let p = joined(data, kept);
        if data.len() <= cache.len() {
            assert(data =~= p.subrange(0, data.len() as int));
            assert(cache =~= p.subrange(0, cache.len() as int));
            assert(data =~= cache.subrange(0, data.len() as int));
        } else {
            assert(data =~= p.subrange(0, data.len() as int));
            assert(cache =~= p.subrange(0, cache.len() as int));
            assert(cache =~= data.subrange(0, cache.len() as int));
        }
    }
}

} // verus!
