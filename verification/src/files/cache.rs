//! Account-scoped disk content cache. Remote identifiers never become paths.

use crate::error::{fails, other, Result};
use crate::files::mail_search::RemoteAttachment;
use crate::files::{valid_name, FileNode, Node, MAX_TRANSFER};
use crate::sorting::{sort_list, sorted_by};
use crate::text::{chars, has_member, i64_text, signed_decimal, stands_at, starts_with, texts};
use sha2::Digest;
use vstd::prelude::*;
use vstd::string::*;
use vstd::utf8::encode_utf8;

verus! {

/// The SHA-256 digest of a run of bytes.
pub uninterp spec fn sha256(bytes: Seq<u8>) -> Seq<u8>;

/// Calls `sha2::Sha256::digest`. The digest depends on the bytes alone and has 32 of them.
#[verifier::external_body]
fn digest(bytes: &[u8]) -> (r: Vec<u8>)
    ensures
        r@ == sha256(bytes@),
        r@.len() == 32,
{
    sha2::Sha256::digest(bytes).to_vec()
}

/// A hexadecimal digit.
pub open spec fn hex(c: char) -> bool {
    '0' <= c <= '9' || 'a' <= c <= 'f' || 'A' <= c <= 'F'
}

/// The name of a cached content: 64 hexadecimal digits.
pub open spec fn content_name(key: Seq<char>) -> bool {
    key.len() == 64 && forall|i: int| 0 <= i < key.len() ==> hex(#[trigger] key[i])
}

/// The lower-case hexadecimal digit of a number below sixteen.
pub open spec fn low_hex(n: int) -> char {
    if n < 10 {
        (48 + n) as u8 as char
    } else {
        (87 + n) as u8 as char
    }
}

/// Bytes in hexadecimal, two digits each.
pub open spec fn hex_text(bytes: Seq<u8>) -> Seq<char>
    decreases bytes.len(),
{
    if bytes.len() == 0 {
        Seq::empty()
    } else {
        hex_text(bytes.drop_last()).push(low_hex(bytes.last() as int / 16)).push(
            low_hex(bytes.last() as int % 16),
        )
    }
}

/// The digest of a text's bytes, in hexadecimal digits.
pub open spec fn sha256_hex(text: Seq<char>) -> Seq<char> {
    hex_text(sha256(encode_utf8(text)))
}

fn digit_of(n: u8) -> (r: char)
    requires
        n < 16,
    ensures
        r == low_hex(n as int),
        hex(r),
{
    if n < 10 {
        (48 + n) as char
    } else {
        (87 + n) as char
    }
}

/// Write bytes in hexadecimal.
pub fn write_hex(bytes: &Vec<u8>) -> (r: String)
    ensures
        r@ == hex_text(bytes@),
        r@.len() == 2 * bytes@.len(),
        forall|i: int| 0 <= i < r@.len() ==> hex(#[trigger] r@[i]),
{
    let mut out = String::new();
    let mut i: usize = 0;
    proof {
        assert(bytes@.take(0) == Seq::<u8>::empty());
    }
    while i < bytes.len()
        invariant
            i <= bytes.len(),
            out@ == hex_text(bytes@.take(i as int)),
            out@.len() == 2 * i,
            forall|k: int| 0 <= k < out@.len() ==> hex(#[trigger] out@[k]),
        decreases bytes.len() - i,
    {
        proof {
            assert(bytes@.take(i + 1).drop_last() == bytes@.take(i as int));
            assert(bytes@.take(i + 1).last() == bytes@[i as int]);
        }
        let b: u8 = bytes[i];
        out.push(digit_of(b / 16));
        out.push(digit_of(b % 16));
        i = i + 1;
    }
    proof {
        assert(bytes@.take(bytes@.len() as int) == bytes@);
    }
    out
}

/// The name that a text gives to a cached content.
fn name_of(text: &str) -> (r: String)
    ensures
        r@ == sha256_hex(text@),
        content_name(r@),
{
    write_hex(&digest(text.as_bytes()))
}

/// What tells one content of a node from another: the content's id where it is no URL, else the
/// validator, else nothing.
pub open spec fn validator_of(n: Node) -> Seq<char> {
    if n.blob_id is Some && !stands_at(n.blob_id->0, "http://"@, 0) && !stands_at(
        n.blob_id->0,
        "https://"@,
        0,
    ) {
        n.blob_id->0
    } else {
        match n.etag {
            Some(e) => e,
            None => Seq::empty(),
        }
    }
}

/// What the name of a cached content is made from.
pub open spec fn content_text(space: i64, n: Node) -> Seq<char> {
    signed_decimal(space as int) + "\0"@ + n.id + "\0"@ + validator_of(n)
}

/// The validator of a node's content.
pub fn validator(n: &FileNode) -> (r: String)
    ensures
        r@ == validator_of(n@),
{
    match &n.blob_id {
        Some(id) => {
            if !starts_with(id.as_str(), "http://") && !starts_with(id.as_str(), "https://") {
                return id.clone();
            }
        },
        None => {},
    }
    match &n.etag {
        Some(e) => e.clone(),
        None => String::new(),
    }
}

/// The name of a node's content in the cache.
pub fn content_key(space: i64, n: &FileNode) -> (r: String)
    ensures
        r@ == sha256_hex(content_text(space, n@)),
        content_name(r@),
{
    let text = i64_text(space).concat("\0").concat(n.id.as_str()).concat("\0").concat(
        validator(n).as_str(),
    );
    name_of(text.as_str())
}

/// The name of a mail attachment's content in the cache.
pub fn remote_key(remote: &RemoteAttachment) -> (r: String)
    ensures
        r@ == sha256_hex(remote.account@ + "\0"@ + remote.blob@),
        content_name(r@),
{
    name_of(remote.account.clone().concat("\0").concat(remote.blob.as_str()).as_str())
}

/// Where the content of a node comes from.
#[derive(Debug, PartialEq, Eq, Structural)]
pub enum ContentSource {
    /// The cache holds it.
    Cached,
    /// It must be downloaded.
    Remote,
}

/// Whether the content of a node may be read, and where it comes from. `recorded` is the size
/// that the cache recorded under the content's name, `on_disk` the size of the file of that name.
pub fn content(n: &FileNode, recorded: Option<i64>, on_disk: Option<u64>, offline: bool) -> (r: Result<
    ContentSource,
>)
    ensures
        if !n@.my_rights.may_read {
            fails(r, "You do not have permission to read this file."@)
        } else if n@.directory() {
            fails(r, "Select a file."@)
        } else if validator_of(n@).len() > 0 && on_disk is Some && recorded is Some && recorded->0
            == on_disk->0 {
            r == Ok::<ContentSource, crate::error::CoreError>(ContentSource::Cached)
        } else if offline {
            fails(r, "This file is not available offline. Connect and choose Keep offline first."@)
        } else {
            r == Ok::<ContentSource, crate::error::CoreError>(ContentSource::Remote)
        },
{
    if !n.my_rights.may_read {
        return Err(other("You do not have permission to read this file."));
    }
    if n.is_directory() {
        return Err(other("Select a file."));
    }
    let whole = match (recorded, on_disk) {
        (Some(a), Some(b)) => a >= 0 && a as u64 == b,
        _ => false,
    };
    if !validator(n).as_str().is_empty() && whole {
        return Ok(ContentSource::Cached);
    }
    if offline {
        return Err(
            other("This file is not available offline. Connect and choose Keep offline first."),
        );
    }
    Ok(ContentSource::Remote)
}

// Two GiB per account, including explicitly pinned files. Pins survive ordinary
// eviction, but server deletion/revocation and account removal take precedence.
pub const CACHE_BUDGET: i64 = 2147483648;

/// The budget before a download: the bounded transfer maximum is reserved, as the server may omit
/// the size.
pub fn download_budget() -> (r: i64)
    ensures
        r == CACHE_BUDGET - MAX_TRANSFER,
{
    CACHE_BUDGET - MAX_TRANSFER as i64
}

/// The sizes of the first `k` candidates together.
pub open spec fn freed(sizes: Seq<i64>, k: int) -> int
    decreases k,
{
    if k <= 0 || k > sizes.len() {
        0
    } else {
        freed(sizes, k - 1) + sizes[k - 1]
    }
}

/// How many candidates leave, from the first on: as few as bring the size within the budget, all
/// where none do.
pub open spec fn evicted(size: int, sizes: Seq<i64>, budget: int, k: int) -> int
    decreases sizes.len() - k,
{
    if k < 0 || k >= sizes.len() || size - freed(sizes, k) <= budget {
        k
    } else {
        evicted(size, sizes, budget, k + 1)
    }
}

/// How many of the candidates, the longest unused first, leave a cache of that size. Pinned
/// contents are no candidates.
pub fn trim(size: i64, sizes: &Vec<i64>, budget: i64) -> (r: Result<usize>)
    ensures
        ({
            let k = evicted(size as int, sizes@, budget as int, 0);
            if size - freed(sizes@, k) > budget {
                fails(
                    r,
                    "Offline files fill the 2 GiB account cache. Release an offline copy before downloading another file."@,
                )
            } else {
                r is Ok && r->Ok_0 == k
            }
        }),
{
    let mut left: i128 = size as i128;
    let mut k: usize = 0;
    while k < sizes.len() && left > budget as i128
        invariant
            k <= sizes@.len(),
            left == size - freed(sizes@, k as int),
            left <= 0x7fff_ffff_ffff_ffff + k * 0x8000_0000_0000_0000,
            left >= -0x1_0000_0000_0000_0000,
            evicted(size as int, sizes@, budget as int, 0) == evicted(
                size as int,
                sizes@,
                budget as int,
                k as int,
            ),
        decreases sizes.len() - k,
    {
        left = left - sizes[k] as i128;
        k = k + 1;
    }
    if left > budget as i128 {
        return Err(
            other(
                "Offline files fill the 2 GiB account cache. Release an offline copy before downloading another file.",
            ),
        );
    }
    Ok(k)
}

proof fn evicted_is_least(size: int, sizes: Seq<i64>, budget: int, k: int)
    requires
        0 <= k <= sizes.len(),
    ensures
        ({
            let n = evicted(size, sizes, budget, k);
            &&& k <= n <= sizes.len()
            &&& forall|j: int| k <= j < n ==> size - #[trigger] freed(sizes, j) > budget
            &&& n < sizes.len() ==> size - freed(sizes, n) <= budget
        }),
    decreases sizes.len() - k,
{
    if k < sizes.len() && size - freed(sizes, k) > budget {
        evicted_is_least(size, sizes, budget, k + 1);
    }
}

/// Eviction takes no more than it must: where it takes anything, one content less would not have
/// been enough, and it stops as soon as the budget holds.
pub proof fn eviction_takes_no_more_than_it_must(size: int, sizes: Seq<i64>, budget: int)
    ensures
        ({
            let n = evicted(size, sizes, budget, 0);
            &&& 0 <= n <= sizes.len()
            &&& size <= budget ==> n == 0
            &&& n > 0 ==> size - freed(sizes, n - 1) > budget
            &&& n < sizes.len() ==> size - freed(sizes, n) <= budget
        }),
{
    evicted_is_least(size, sizes, budget, 0);
}

pub fn safe_key(key: &str) -> (r: bool)
    ensures
        r == content_name(key@),
{
    let v = chars(key);
    if v.len() != 64 {
        return false;
    }
    let mut i: usize = 0;
    while i < v.len()
        invariant
            v@ == key@,
            v@.len() == 64,
            i <= v.len(),
            forall|j: int| 0 <= j < i ==> hex(#[trigger] key@[j]),
        decreases v.len() - i,
    {
        let c: char = v[i];
        if !(('0' <= c && c <= '9') || ('a' <= c && c <= 'f') || ('A' <= c && c <= 'F')) {
            proof {
                assert(!hex(key@[i as int]));
            }
            return false;
        }
        i = i + 1;
    }
    true
}

/// Remote identifiers never become paths: the name of a cached content is always a valid leaf
/// name.
pub proof fn content_names_stay_in_the_cache(key: Seq<char>)
    requires
        content_name(key),
    ensures
        valid_name(key),
{
    reveal_strlit(".");
    reveal_strlit("..");
    assert(vstd::utf8::is_ascii_chars(key)) by {
        assert forall|i: int| 0 <= i < key.len() implies '\0' <= #[trigger] key[i] <= '\u{7f}' by {
            assert(hex(key[i]));
        }
    }
    vstd::utf8::is_ascii_chars_encode_utf8(key);
    assert(encode_utf8(key).len() == 64);
    assert forall|i: int| 0 <= i < key.len() implies !crate::text::control(#[trigger] key[i])
        && key[i] != '/' && key[i] != '\\' by {
        assert(hex(key[i]));
    }
}

/// Whether a file of the cache directory is left over: a content that the cache does not record.
/// Only our opaque names are touched.
pub fn is_leftover(key: &str, recorded: &Vec<String>, is_file: bool) -> (r: bool)
    ensures
        r == (content_name(key@) && !texts(recorded@).contains(key@) && is_file),
{
    safe_key(key) && !has_member(recorded.as_slice(), key) && is_file
}

/// How much of the shared attachment cache remote downloads may take.
pub const REMOTE_BUDGET: u64 = 1610612736;

/// A file of the remote attachment cache: when it was modified, in nanoseconds since 1970, where
/// that is known, its path and its size.
pub struct CachedFile {
    pub modified: Option<i128>,
    pub path: String,
    pub size: u64,
}

/// Files of unknown age come first, then the oldest.
pub open spec fn older(a: CachedFile, b: CachedFile) -> bool {
    match (a.modified, b.modified) {
        (None, Some(_)) => true,
        (Some(x), Some(y)) => x < y,
        _ => false,
    }
}

/// A sum that stops at the largest number.
pub open spec fn saturating_sum(files: Seq<CachedFile>) -> int
    decreases files.len(),
{
    if files.len() == 0 {
        0
    } else {
        let s = saturating_sum(files.drop_last()) + files.last().size;
        if s > u64::MAX {
            u64::MAX as int
        } else {
            s
        }
    }
}

/// How many files leave, from the first on, until the total is within the budget.
pub open spec fn leaving(total: int, files: Seq<CachedFile>, k: int) -> int
    decreases files.len() - k,
{
    if k < 0 || k >= files.len() || total <= REMOTE_BUDGET {
        k
    } else {
        leaving(
            if total >= files[k].size {
                total - files[k].size
            } else {
                0
            },
            files,
            k + 1,
        )
    }
}

/// How many bytes are left once the first `k` files are gone.
pub open spec fn left_after(total: int, files: Seq<CachedFile>, k: int) -> int
    decreases k,
{
    if k <= 0 || k > files.len() {
        total
    } else {
        let before = left_after(total, files, k - 1);
        if before >= files[k - 1].size {
            before - files[k - 1].size
        } else {
            0
        }
    }
}

proof fn leaving_stops_in_time(total: int, files: Seq<CachedFile>, k: int)
    requires
        0 <= k <= files.len(),
    ensures
        ({
            let n = leaving(left_after(total, files, k), files, k);
            &&& k <= n <= files.len()
            &&& n < files.len() ==> left_after(total, files, n) <= REMOTE_BUDGET
            &&& n > k ==> left_after(total, files, n - 1) > REMOTE_BUDGET
        }),
    decreases files.len() - k,
{
    if k < files.len() && left_after(total, files, k) > REMOTE_BUDGET {
        leaving_stops_in_time(total, files, k + 1);
    }
}

/// Files leave the cache until what is left fits, and no file leaves that need not.
pub proof fn cached_files_leave_only_for_room(total: int, files: Seq<CachedFile>)
    ensures
        ({
            let n = leaving(total, files, 0);
            &&& 0 <= n <= files.len()
            &&& total <= REMOTE_BUDGET ==> n == 0
            &&& n < files.len() ==> left_after(total, files, n) <= REMOTE_BUDGET
            &&& n > 0 ==> left_after(total, files, n - 1) > REMOTE_BUDGET
        }),
{
    leaving_stops_in_time(total, files, 0);
}

/// The files that leave the remote attachment cache before another download, oldest first.
pub fn evict_remote(files: Vec<CachedFile>) -> (r: Vec<String>)
    ensures
        ({
            let sorted = sorted_by(files@, |a: CachedFile, b: CachedFile| older(a, b));
            let n = leaving(saturating_sum(files@), sorted, 0);
            texts(r@) == sorted.take(n).map_values(|f: CachedFile| f.path@)
        }),
{
    let mut total: u64 = 0;
    let mut i: usize = 0;
    proof {
        assert(files@.take(0) == Seq::<CachedFile>::empty());
    }
    while i < files.len()
        invariant
            i <= files.len(),
            total == saturating_sum(files@.take(i as int)),
        decreases files.len() - i,
    {
        proof {
            assert(files@.take(i + 1).drop_last() == files@.take(i as int));
        }
        total = total.saturating_add(files[i].size);
        i = i + 1;
    }
    proof {
        assert(files@.take(files@.len() as int) == files@);
    }
    let ghost whole = saturating_sum(files@);
    let ahead = |a: &CachedFile, b: &CachedFile| -> (r: bool)
        ensures
            r == older(*a, *b),
        {
            match (a.modified, b.modified) {
                (None, Some(_)) => true,
                (Some(x), Some(y)) => x < y,
                _ => false,
            }
        };
    let sorted = sort_list(files, ahead, Ghost(|a: CachedFile, b: CachedFile| older(a, b)));
    let mut out: Vec<String> = Vec::new();
    i = 0;
    proof {
        assert(texts(out@) =~= sorted@.take(0).map_values(|f: CachedFile| f.path@));
        leaving_is_ahead(whole, sorted@, 0);
    }
    while i < sorted.len() && total > REMOTE_BUDGET
        invariant
            i <= sorted.len(),
            i <= leaving(whole, sorted@, 0) <= sorted@.len(),
            texts(out@) == sorted@.take(i as int).map_values(|f: CachedFile| f.path@),
            leaving(whole, sorted@, 0) == leaving(total as int, sorted@, i as int),
        decreases sorted.len() - i,
    {
        let ghost before = texts(out@);
        proof {
            leaving_is_ahead(total as int, sorted@, i as int);
            assert(sorted@.take(i + 1) == sorted@.take(i as int).push(sorted@[i as int]));
        }
        out.push(sorted[i].path.clone());
        proof {
            assert(texts(out@) =~= before.push(sorted@[i as int].path@));
            assert(texts(out@) =~= sorted@.take(i + 1).map_values(|f: CachedFile| f.path@));
        }
        total = total.saturating_sub(sorted[i].size);
        i = i + 1;
        proof {
            leaving_is_ahead(total as int, sorted@, i as int);
        }
    }
    out
}

proof fn leaving_is_ahead(total: int, files: Seq<CachedFile>, k: int)
    requires
        0 <= k <= files.len(),
    ensures
        k <= leaving(total, files, k) <= files.len(),
    decreases files.len() - k,
{
    if k < files.len() && total > REMOTE_BUDGET {
        leaving_is_ahead(
            if total >= files[k].size {
                total - files[k].size
            } else {
                0
            },
            files,
            k + 1,
        );
    }
}

} // verus!
