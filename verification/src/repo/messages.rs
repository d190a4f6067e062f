//! Messages: what is stored of them, which of them still lack content, and how they are shown.

use crate::error::{CoreError, Result};
use crate::repo::contacts::Address;
use crate::repo::ids::holds;
use crate::repo::sql::{number_list, write_numbers, Bind, Bound};
use crate::sorting::{
    orders, sort_list, sorted_by, sorting_keeps_items, sorting_orders_what_is_there,
};
use crate::text::{i64_text, lit, opt, same, signed_decimal, trim, trimmed};
use vstd::prelude::*;
use vstd::string::*;

verus! {

/// Parsed header data ready for insertion (produced by the sync engine). How the sender was
/// verified is given as it is stored.
#[derive(Debug, Clone)]
pub struct NewMessage {
    pub account_id: i64,
    pub folder_id: i64,
    pub uid: Option<i64>,
    pub message_id: Option<String>,
    pub gm_msgid: Option<String>,
    pub gm_thrid: Option<String>,
    pub subject: String,
    pub from: Option<Address>,
    pub to: Vec<Address>,
    pub cc: Vec<Address>,
    pub bcc: Vec<Address>,
    pub date: i64,
    pub internal_date: Option<i64>,
    pub is_read: bool,
    pub is_starred: bool,
    pub is_draft: bool,
    pub is_outgoing: bool,
    pub is_automated: bool,
    pub has_attachments: bool,
    pub size: Option<i64>,
    pub snippet: String,
    pub references: Vec<String>,
    pub list_unsubscribe: Option<String>,
    pub list_unsubscribe_post: Option<String>,
    /// Transmitting party misaligned with From:
    /// email or bare DKIM domain, shown as "via" in the UI. None when the
    /// transmitting domain aligns with From:.
    pub sender_addr: Option<String>,
    pub sender_verification: String,
}

/// What is stored of a message.
#[derive(Debug, Clone)]
pub struct MessageRow {
    pub id: i64,
    pub account_id: i64,
    pub thread_id: Option<i64>,
    pub folder_id: Option<i64>,
    pub uid: Option<i64>,
    pub message_id: Option<String>,
    pub subject: String,
    pub size: Option<i64>,
    pub is_read: bool,
    pub is_starred: bool,
    pub body_state: String,
    pub raw_path: Option<String>,
    pub jmap_id: Option<String>,
    pub jmap_blob_id: Option<String>,
}

/// A stored message with its moment.
#[derive(Debug)]
pub struct DatedRow {
    pub row: MessageRow,
    pub date: i64,
    pub internal_date: Option<i64>,
}

/// When a message arrived, or else when it was written.
pub open spec fn moment(date: i64, internal_date: Option<i64>) -> i64 {
    match internal_date {
        Some(t) => t,
        None => date,
    }
}

fn moment_of(date: i64, internal_date: Option<i64>) -> (r: i64)
    ensures
        r == moment(date, internal_date),
{
    match internal_date {
        Some(t) => t,
        None => date,
    }
}

/// Whether a row that another transport created may be the Email.
pub open spec fn adoptable(
    m: DatedRow,
    account_id: i64,
    message_id: Seq<char>,
    subject: Seq<char>,
    received_at_ms: i64,
    size: i64,
) -> bool {
    m.row.account_id == account_id && opt(m.row.message_id) == Some(message_id) && m.row.jmap_id
        is None && m.row.subject@ == subject && m.row.size == Some(size) && -300000 <= moment(
        m.date,
        m.internal_date,
    ) - received_at_ms <= 300000
}

/// A message is adopted only where everything fits: its account, its message id, its subject and its
/// size are those that are asked for, it was not adopted before, and it was received within five
/// minutes, before or after.
pub proof fn adoption_needs_everything(
    m: DatedRow,
    account_id: i64,
    message_id: Seq<char>,
    subject: Seq<char>,
    received_at_ms: i64,
    size: i64,
)
    ensures
        ({
            let received: int = if m.internal_date is Some {
                m.internal_date->0 as int
            } else {
                m.date as int
            };
            let minutes: int = 5;
            adoptable(m, account_id, message_id, subject, received_at_ms, size) <==> {
                &&& m.row.account_id == account_id
                &&& m.row.message_id is Some && m.row.message_id->0@ == message_id
                &&& m.row.jmap_id is None
                &&& m.row.subject@ == subject
                &&& m.row.size is Some && m.row.size->0 == size
                &&& received_at_ms - minutes * 60 * 1000 <= received <= received_at_ms + minutes
                    * 60 * 1000
            }
        }),
{
}

/// Conservatively adopt a row created by another transport. RFC 8621 allows
/// multiple Emails with the same Message-ID, so Message-ID by itself is not a
/// safe remote identity: subject, size and moment must agree too, and only one row may fit.
/// Returns its place.
pub fn jmap_adoption_candidate(
    rows: &Vec<DatedRow>,
    account_id: i64,
    message_id: &str,
    subject: &str,
    received_at_ms: i64,
    size: i64,
) -> (r: Option<usize>)
    ensures
        match r {
            Some(k) => k < rows@.len() && forall|i: int|
                0 <= i < rows@.len() ==> (adoptable(
                    #[trigger] rows@[i],
                    account_id,
                    message_id@,
                    subject@,
                    received_at_ms,
                    size,
                ) <==> i == k),
            None => (forall|i: int|
                0 <= i < rows@.len() ==> !adoptable(
                    #[trigger] rows@[i],
                    account_id,
                    message_id@,
                    subject@,
                    received_at_ms,
                    size,
                )) || (exists|i: int, j: int|
                0 <= i < j < rows@.len() && adoptable(
                    #[trigger] rows@[i],
                    account_id,
                    message_id@,
                    subject@,
                    received_at_ms,
                    size,
                ) && adoptable(
                    #[trigger] rows@[j],
                    account_id,
                    message_id@,
                    subject@,
                    received_at_ms,
                    size,
                )),
        },
{
    let mut found: Option<usize> = None;
    let mut i: usize = 0;
    while i < rows.len()
        invariant
            i <= rows.len(),
            match found {
                Some(k) => k < i && forall|j: int|
                    0 <= j < i ==> (adoptable(
                        #[trigger] rows@[j],
                        account_id,
                        message_id@,
                        subject@,
                        received_at_ms,
                        size,
                    ) <==> j == k),
                None => forall|j: int|
                    0 <= j < i ==> !adoptable(
                        #[trigger] rows@[j],
                        account_id,
                        message_id@,
                        subject@,
                        received_at_ms,
                        size,
                    ),
            },
        decreases rows.len() - i,
    {
        let m = &rows[i];
        let known = match &m.row.message_id {
            Some(id) => same(id.as_str(), message_id),
            None => false,
        };
        let fits = match m.row.size {
            Some(n) => n == size,
            None => false,
        };
        let apart: i128 = moment_of(m.date, m.internal_date) as i128 - received_at_ms as i128;
        if m.row.account_id == account_id && known && m.row.jmap_id.is_none() && same(
            m.row.subject.as_str(),
            subject,
        ) && fits && -300000 <= apart && apart <= 300000 {
            match found {
                Some(k) => {
                    proof {
                        assert(adoptable(
                            rows@[k as int],
                            account_id,
                            message_id@,
                            subject@,
                            received_at_ms,
                            size,
                        ));
                        assert(adoptable(
                            rows@[i as int],
                            account_id,
                            message_id@,
                            subject@,
                            received_at_ms,
                            size,
                        ));
                    }
                    return None;
                },
                None => {
                    found = Some(i);
                },
            }
        }
        i = i + 1;
    }
    found
}

/// How far the content of an account is cached.
#[derive(Debug, Clone, Copy, PartialEq, Eq, Structural)]
pub struct ContentProgress {
    pub done: u64,
    pub total: u64,
    pub failed: u64,
}

/// What decides whether the content of a message can be fetched.
#[derive(Debug)]
pub struct ContentRow {
    pub id: i64,
    pub gmail: bool,
    pub gm_msgid: Option<String>,
    pub uid: Option<i64>,
    pub role: Option<String>,
    pub body_state: String,
    pub date: i64,
    pub internal_date: Option<i64>,
    /// Whether fetching failed before.
    pub failed: bool,
    /// When a failed fetch may be tried again.
    pub next_retry_at: Option<i64>,
}

/// Whether a message stands in the folder of all mail, where an account that is not Gmail's holds
/// only copies.
pub open spec fn is_copy(m: ContentRow) -> bool {
    opt(m.role) == Some("all"@)
}

/// Whether a message is as new as asked for.
pub open spec fn recent(m: ContentRow, cutoff_ms: Option<i64>) -> bool {
    match cutoff_ms {
        Some(t) => moment(m.date, m.internal_date) >= t,
        None => true,
    }
}

/// Whether the content of a message counts. Local-only/orphaned rows cannot be fetched and
/// therefore must not hold completion open forever.
pub open spec fn counted(m: ContentRow, cutoff_ms: Option<i64>) -> bool {
    (if m.gmail {
        m.gm_msgid is Some
    } else {
        m.uid is Some && !is_copy(m)
    }) && recent(m, cutoff_ms)
}

/// Whether the content of a message is there.
pub open spec fn has_content(m: ContentRow) -> bool {
    m.gmail || m.body_state@ == "cached"@
}

/// Text-content cache progress of an account, of the messages since a moment where one is given.
pub fn content_progress_since(rows: &Vec<ContentRow>, cutoff_ms: Option<i64>) -> (r: ContentProgress)
    ensures
        r.total == rows@.filter(|m: ContentRow| counted(m, cutoff_ms)).len(),
        r.done == rows@.filter(|m: ContentRow| counted(m, cutoff_ms) && has_content(m)).len(),
        r.failed == rows@.filter(
            |m: ContentRow| counted(m, cutoff_ms) && !has_content(m) && m.failed,
        ).len(),
{
    let ghost all = rows@;
    let ghost p = |m: ContentRow| counted(m, cutoff_ms);
    let ghost q = |m: ContentRow| counted(m, cutoff_ms) && has_content(m);
    let ghost f = |m: ContentRow| counted(m, cutoff_ms) && !has_content(m) && m.failed;
    let mut progress = ContentProgress { done: 0, total: 0, failed: 0 };
    let mut i: usize = 0;
    proof {
        assert(all.take(0) =~= Seq::<ContentRow>::empty());
        reveal(Seq::filter);
    }
    while i < rows.len()
        invariant
            i <= rows.len(),
            all == rows@,
            p == (|m: ContentRow| counted(m, cutoff_ms)),
            q == (|m: ContentRow| counted(m, cutoff_ms) && has_content(m)),
            f == (|m: ContentRow| counted(m, cutoff_ms) && !has_content(m) && m.failed),
            progress.total == all.take(i as int).filter(p).len(),
            progress.done == all.take(i as int).filter(q).len(),
            progress.failed == all.take(i as int).filter(f).len(),
            progress.total <= i && progress.done <= i && progress.failed <= i,
        decreases rows.len() - i,
    {
        let m = &rows[i];
        proof {
            assert(all.take(i + 1) =~= all.take(i as int).push(all[i as int]));
            crate::text::filter_push(all.take(i as int), all[i as int], p);
            crate::text::filter_push(all.take(i as int), all[i as int], q);
            crate::text::filter_push(all.take(i as int), all[i as int], f);
        }
        let remote = if m.gmail {
            m.gm_msgid.is_some()
        } else {
            m.uid.is_some() && !stands_in_all(m)
        };
        if remote && is_recent(m, cutoff_ms) {
            progress.total = progress.total + 1;
            if m.gmail || same(m.body_state.as_str(), "cached") {
                progress.done = progress.done + 1;
            } else if m.failed {
                progress.failed = progress.failed + 1;
            }
        }
        i = i + 1;
    }
    proof {
        assert(all.take(all.len() as int) =~= all);
    }
    progress
}

fn stands_in_all(m: &ContentRow) -> (r: bool)
    ensures
        r == is_copy(*m),
{
    match &m.role {
        Some(role) => same(role.as_str(), "all"),
        None => false,
    }
}

fn is_recent(m: &ContentRow, cutoff_ms: Option<i64>) -> (r: bool)
    ensures
        r == recent(*m, cutoff_ms),
{
    match cutoff_ms {
        Some(t) => moment_of(m.date, m.internal_date) >= t,
        None => true,
    }
}

/// Text-content cache progress of an account.
pub fn content_progress(rows: &Vec<ContentRow>) -> (r: ContentProgress)
    ensures
        r.total == rows@.filter(|m: ContentRow| counted(m, None)).len(),
        r.done == rows@.filter(|m: ContentRow| counted(m, None) && has_content(m)).len(),
        r.failed == rows@.filter(
            |m: ContentRow| counted(m, None) && !has_content(m) && m.failed,
        ).len(),
{
    content_progress_since(rows, None)
}

/// How many messages have content, and how many could have, since a moment where one is given.
pub fn body_progress_since(rows: &Vec<ContentRow>, cutoff_ms: Option<i64>) -> (r: (u64, u64))
    ensures
        r.0 == rows@.filter(|m: ContentRow| counted(m, cutoff_ms) && has_content(m)).len(),
        r.1 == rows@.filter(|m: ContentRow| counted(m, cutoff_ms)).len(),
{
    let progress = content_progress_since(rows, cutoff_ms);
    (progress.done, progress.total)
}

/// How many messages have content, and how many could have.
pub fn body_progress(rows: &Vec<ContentRow>) -> (r: (u64, u64))
    ensures
        r.0 == rows@.filter(|m: ContentRow| counted(m, None) && has_content(m)).len(),
        r.1 == rows@.filter(|m: ContentRow| counted(m, None)).len(),
{
    body_progress_since(rows, None)
}

proof fn filters_add(
    s: Seq<ContentRow>,
    p: spec_fn(ContentRow) -> bool,
    q: spec_fn(ContentRow) -> bool,
    f: spec_fn(ContentRow) -> bool,
)
    requires
        forall|m: ContentRow| #![trigger q(m)] #![trigger f(m)] (q(m) ==> p(m) && !f(m)) && (f(m) ==> p(m)),
    ensures
        s.filter(q).len() + s.filter(f).len() <= s.filter(p).len(),
    decreases s.len(),
{
    reveal(Seq::filter);
    if s.len() > 0 {
        filters_add(s.drop_last(), p, q, f);
        assert(q(s.last()) ==> p(s.last()) && !f(s.last()));
        assert(f(s.last()) ==> p(s.last()));
    }
}

/// Progress never runs over: what is done and what failed are different messages of the total.
pub proof fn progress_stays_within_the_total(rows: Seq<ContentRow>, cutoff_ms: Option<i64>)
    ensures
        rows.filter(|m: ContentRow| counted(m, cutoff_ms) && has_content(m)).len() + rows.filter(
            |m: ContentRow| counted(m, cutoff_ms) && !has_content(m) && m.failed,
        ).len() <= rows.filter(|m: ContentRow| counted(m, cutoff_ms)).len(),
{
    filters_add(
        rows,
        |m: ContentRow| counted(m, cutoff_ms),
        |m: ContentRow| counted(m, cutoff_ms) && has_content(m),
        |m: ContentRow| counted(m, cutoff_ms) && !has_content(m) && m.failed,
    );
}

/// Whether content can be claimed.
pub open spec fn claimable(body_state: Seq<char>) -> bool {
    body_state == "none"@
}

/// The state of content after a claim.
pub open spec fn body_claimed(body_state: Seq<char>) -> Seq<char> {
    if claimable(body_state) {
        "fetching"@
    } else {
        body_state
    }
}

/// The state of content after a claim was given back.
pub open spec fn body_released(body_state: Seq<char>) -> Seq<char> {
    if body_state == "fetching"@ {
        "none"@
    } else {
        body_state
    }
}

/// Claim a body fetch exactly once. Repeated opens while a request is already
/// queued must not enqueue duplicate network work.
pub fn begin_body_fetch(body_state: &mut String) -> (r: bool)
    ensures
        r == claimable(old(body_state)@),
        final(body_state)@ == body_claimed(old(body_state)@),
{
    if same(body_state.as_str(), "none") {
        *body_state = lit("fetching");
        true
    } else {
        false
    }
}

/// Release a body-fetch claim only if it has not completed in the meantime.
pub fn cancel_body_fetch(body_state: &mut String)
    ensures
        final(body_state)@ == body_released(old(body_state)@),
{
    if same(body_state.as_str(), "fetching") {
        *body_state = lit("none");
    }
}

/// A body fetch is claimed once: after a claim no other succeeds until it is given back, and
/// giving it back undoes the claim. Content that arrived in the meantime stays.
pub proof fn body_fetches_are_claimed_once(body_state: Seq<char>)
    ensures
        !claimable(body_claimed(body_state)),
        claimable(body_state) ==> body_released(body_claimed(body_state)) == body_state,
        body_released("cached"@) == "cached"@,
{
    reveal_strlit("none");
    reveal_strlit("fetching");
    reveal_strlit("cached");
    assert("fetching"@.len() == 8);
    assert("none"@.len() == 4);
    assert("cached"@.len() == 6);
}

/// What a change means that met no row.
pub fn require_changed(changed: usize, what: &str, id: i64) -> (r: Result<()>)
    ensures
        if changed == 0 {
            r is Err && r->Err_0 is NotFound && r->Err_0->NotFound_0@ == what@ + " "@
                + signed_decimal(id as int)
        } else {
            r is Ok
        },
{
    if changed == 0 {
        return Err(CoreError::NotFound(lit(what).concat(" ").concat(i64_text(id).as_str())));
    }
    Ok(())
}

/// A message and its content, missing or not.
pub struct MissingBody {
    pub id: i64,
    pub uid: i64,
    pub date: i64,
}

/// Whether the content of a message is to be fetched now.
pub open spec fn is_missing(m: ContentRow, now: i64, cutoff_ms: Option<i64>) -> bool {
    m.uid is Some && m.body_state@ == "none"@ && (m.gmail || !is_copy(m)) && (!m.failed || (
    match m.next_retry_at {
        Some(t) => t <= now,
        None => true,
    })) && recent(m, cutoff_ms)
}

/// The messages whose content is to be fetched.
pub open spec fn missing(rows: Seq<ContentRow>, now: i64, cutoff_ms: Option<i64>) -> Seq<
    MissingBody,
>
    decreases rows.len(),
{
    if rows.len() == 0 {
        Seq::empty()
    } else {
        let before = missing(rows.drop_last(), now, cutoff_ms);
        let m = rows.last();
        if is_missing(m, now, cutoff_ms) {
            before.push(MissingBody { id: m.id, uid: m.uid->0, date: m.date })
        } else {
            before
        }
    }
}

/// As many as a limit admits; a negative limit admits all.
pub open spec fn limited<T>(s: Seq<T>, limit: i64) -> Seq<T> {
    if 0 <= limit < s.len() {
        s.take(limit as int)
    } else {
        s
    }
}

/// Whether one missing content is newer than another.
pub open spec fn newer() -> spec_fn(MissingBody, MissingBody) -> bool {
    |a: MissingBody, b: MissingBody| a.date > b.date
}

/// Whether the body of a message is to be fetched: the message is on the server, its body was not
/// fetched, it is no copy, its last failure lies far enough back, and it is recent enough.
pub open spec fn needs_body(m: ContentRow, now: i64, cutoff_ms: Option<i64>) -> bool {
    let received = if m.internal_date is Some {
        m.internal_date->0
    } else {
        m.date
    };
    &&& m.uid is Some
    &&& m.body_state@ == "none"@
    &&& m.gmail || !(m.role is Some && m.role->0@ == "all"@)
    &&& m.failed && m.next_retry_at is Some ==> m.next_retry_at->0 <= now
    &&& cutoff_ms is Some ==> received >= cutoff_ms->0
}

/// What is known of a message whose body is to be fetched.
pub open spec fn body_of(m: ContentRow) -> MissingBody {
    MissingBody { id: m.id, uid: m.uid->0, date: m.date }
}

/// Whether a body is one of those that are to be fetched.
pub open spec fn is_needed(
    rows: Seq<ContentRow>,
    now: i64,
    cutoff_ms: Option<i64>,
    b: MissingBody,
) -> bool {
    exists|i: int|
        0 <= i < rows.len() && needs_body(#[trigger] rows[i], now, cutoff_ms) && b == body_of(
            rows[i],
        )
}

proof fn missing_are_needed(rows: Seq<ContentRow>, now: i64, cutoff_ms: Option<i64>)
    ensures
        forall|b: MissingBody| #[trigger]
            missing(rows, now, cutoff_ms).contains(b) <==> is_needed(rows, now, cutoff_ms, b),
    decreases rows.len(),
{
    if rows.len() > 0 {
        let head = rows.drop_last();
        let last = rows.len() - 1;
        let before = missing(head, now, cutoff_ms);
        let all = missing(rows, now, cutoff_ms);
        let m = rows.last();
        missing_are_needed(head, now, cutoff_ms);
        assert(is_missing(m, now, cutoff_ms) == needs_body(m, now, cutoff_ms));
        assert forall|b: MissingBody| #[trigger] all.contains(b) <==> is_needed(
            rows,
            now,
            cutoff_ms,
            b,
        ) by {
            if all.contains(b) {
                let k = choose|k: int| 0 <= k < all.len() && all[k] == b;
                if k < before.len() {
                    assert(before[k] == b);
                    assert(before.contains(b));
                    let i = choose|i: int|
                        0 <= i < head.len() && needs_body(#[trigger] head[i], now, cutoff_ms) && b
                            == body_of(head[i]);
                    assert(rows[i] == head[i]);
                } else {
                    assert(rows[last] == m);
                }
            }
            if is_needed(rows, now, cutoff_ms, b) {
                let i = choose|i: int|
                    0 <= i < rows.len() && needs_body(#[trigger] rows[i], now, cutoff_ms) && b
                        == body_of(rows[i]);
                if i < last {
                    assert(head[i] == rows[i]);
                    assert(before.contains(b));
                    let k = choose|k: int| 0 <= k < before.len() && before[k] == b;
                    assert(all[k] == b);
                } else {
                    assert(all[all.len() - 1] == b);
                }
            }
        }
    }
}

/// What is fetched next: bodies that are to be fetched and nothing else, the newest first, and all
/// of them where the limit leaves room.
pub proof fn needed_bodies_are_fetched(
    rows: Seq<ContentRow>,
    limit: i64,
    now: i64,
    cutoff_ms: Option<i64>,
)
    ensures
        ({
            let out = limited(sorted_by(missing(rows, now, cutoff_ms), newer()), limit);
            &&& forall|b: MissingBody| #[trigger]
                out.contains(b) ==> is_needed(rows, now, cutoff_ms, b)
            &&& forall|i: int, j: int|
                0 <= i < j < out.len() ==> (#[trigger] out[i]).date >= (#[trigger] out[j]).date
            &&& limit >= 0 ==> out.len() <= limit
            &&& (limit < 0 || out.len() < limit) ==> forall|b: MissingBody| #[trigger]
                is_needed(rows, now, cutoff_ms, b) ==> out.contains(b)
        }),
{
    let all = missing(rows, now, cutoff_ms);
    let sorted = sorted_by(all, newer());
    let out = limited(sorted, limit);
    assert(orders(newer()));
    sorting_orders_what_is_there(all, newer());
    sorting_keeps_items(all, newer());
    missing_are_needed(rows, now, cutoff_ms);
    assert forall|b: MissingBody| #[trigger] out.contains(b) implies is_needed(
        rows,
        now,
        cutoff_ms,
        b,
    ) by {
        let k = choose|k: int| 0 <= k < out.len() && out[k] == b;
        assert(sorted[k] == b);
        assert(sorted.contains(b));
        assert(all.contains(b));
    }
    assert forall|i: int, j: int| 0 <= i < j < out.len() implies (#[trigger] out[i]).date >= (
    #[trigger] out[j]).date by {
        assert(!newer()(sorted[j], sorted[i]));
    }
    if limit < 0 || out.len() < limit {
        assert(out == sorted);
        assert forall|b: MissingBody| #[trigger]
            is_needed(rows, now, cutoff_ms, b) implies out.contains(b) by {
            assert(all.contains(b));
            assert(sorted.contains(b));
        }
    }
}

/// Messages of a folder still lacking bodies, newest first. Accounts that are not Gmail's do not
/// download duplicate content from the special-use All folder, and what failed waits for its
/// deadline.
pub fn missing_bodies(rows: &Vec<ContentRow>, limit: i64, now: i64, cutoff_ms: Option<i64>) -> (r:
    Vec<MissingBody>)
    ensures
        r@ == limited(sorted_by(missing(rows@, now, cutoff_ms), newer()), limit),
{
    let ghost all = rows@;
    let mut found: Vec<MissingBody> = Vec::new();
    let mut i: usize = 0;
    proof {
        assert(all.take(0) =~= Seq::<ContentRow>::empty());
    }
    while i < rows.len()
        invariant
            i <= rows.len(),
            all == rows@,
            found@ == missing(all.take(i as int), now, cutoff_ms),
        decreases rows.len() - i,
    {
        let m = &rows[i];
        proof {
            assert(all.take(i + 1).drop_last() =~= all.take(i as int));
            assert(all.take(i + 1).last() == all[i as int]);
        }
        let due = !m.failed || match m.next_retry_at {
            Some(t) => t <= now,
            None => true,
        };
        match m.uid {
            Some(uid) => {
                if same(m.body_state.as_str(), "none") && (m.gmail || !stands_in_all(m)) && due
                    && is_recent(m, cutoff_ms) {
                    found.push(MissingBody { id: m.id, uid, date: m.date });
                }
            },
            None => {},
        }
        i = i + 1;
    }
    proof {
        assert(all.take(all.len() as int) =~= all);
    }
    let order = |a: &MissingBody, b: &MissingBody| -> (r: bool)
        ensures
            r == (a.date > b.date),
        { a.date > b.date };
    let mut sorted = sort_list(found, order, Ghost(newer()));
    if limit >= 0 && sorted.len() as u64 > limit as u64 {
        sorted.truncate(limit as usize);
    }
    sorted
}

/// A message of a thread that may tell how to unsubscribe.
#[derive(Debug)]
pub struct UnsubscribeRow {
    pub id: i64,
    pub date: i64,
    pub is_draft: bool,
    pub list_unsubscribe: Option<String>,
    pub raw_path: Option<String>,
}

/// Whether a message tells how to unsubscribe.
pub open spec fn tells(m: UnsubscribeRow) -> bool {
    !m.is_draft && m.list_unsubscribe is Some
}

/// Whether the raw form of a message may tell what its row does not.
pub open spec fn may_tell(m: UnsubscribeRow) -> bool {
    !m.is_draft && m.list_unsubscribe is None && m.raw_path is Some
}

/// The place of the first of the newest messages that pass.
pub open spec fn newest_of(
    rows: Seq<UnsubscribeRow>,
    p: spec_fn(UnsubscribeRow) -> bool,
) -> Option<int>
    decreases rows.len(),
{
    if rows.len() == 0 {
        None
    } else {
        let before = newest_of(rows.drop_last(), p);
        if p(rows.last()) && (before is None || rows.last().date > rows[before->0].date) {
            Some(rows.len() - 1)
        } else {
            before
        }
    }
}

/// The newest of some messages is one of them, and none of them is newer.
proof fn newest_of_is_newest(rows: Seq<UnsubscribeRow>, p: spec_fn(UnsubscribeRow) -> bool)
    ensures
        match newest_of(rows, p) {
            Some(k) => 0 <= k < rows.len() && p(rows[k]) && forall|i: int|
                0 <= i < rows.len() && p(#[trigger] rows[i]) ==> rows[i].date <= rows[k].date,
            None => forall|i: int| 0 <= i < rows.len() ==> !p(#[trigger] rows[i]),
        },
    decreases rows.len(),
{
    if rows.len() > 0 {
        let head = rows.drop_last();
        newest_of_is_newest(head, p);
        assert forall|i: int| 0 <= i < head.len() implies head[i] == #[trigger] rows[i] by {}
    }
}

/// The message by which one unsubscribes from a thread is the newest that is no draft and says how;
/// there is none where no message says it.
pub proof fn unsubscribing_takes_the_newest(rows: Seq<UnsubscribeRow>)
    ensures
        match newest_of(rows, |m: UnsubscribeRow| tells(m)) {
            Some(k) => 0 <= k < rows.len() && !rows[k].is_draft && rows[k].list_unsubscribe is Some
                && forall|i: int|
                0 <= i < rows.len() && !(#[trigger] rows[i]).is_draft
                    && rows[i].list_unsubscribe is Some ==> rows[i].date <= rows[k].date,
            None => forall|i: int|
                0 <= i < rows.len() ==> (#[trigger] rows[i]).is_draft
                    || rows[i].list_unsubscribe is None,
        },
{
    let p = |m: UnsubscribeRow| tells(m);
    newest_of_is_newest(rows, p);
    assert forall|i: int| 0 <= i < rows.len() implies p(#[trigger] rows[i]) == (!rows[i].is_draft
        && rows[i].list_unsubscribe is Some) by {}
}

/// Newest non-draft message of a thread that carries a List-Unsubscribe
/// header, if any.
pub fn thread_unsubscribe_message(rows: &Vec<UnsubscribeRow>) -> (r: Option<i64>)
    ensures
        r == match newest_of(rows@, |m: UnsubscribeRow| tells(m)) {
            Some(k) => Some(rows@[k].id),
            None => None,
        },
{
    let ghost all = rows@;
    let ghost p = |m: UnsubscribeRow| tells(m);
    let mut found: Option<usize> = None;
    let mut i: usize = 0;
    proof {
        assert(all.take(0) =~= Seq::<UnsubscribeRow>::empty());
    }
    while i < rows.len()
        invariant
            i <= rows.len(),
            all == rows@,
            p == (|m: UnsubscribeRow| tells(m)),
            match found {
                Some(k) => k < i && newest_of(all.take(i as int), p) == Some(k as int),
                None => newest_of(all.take(i as int), p) is None,
            },
        decreases rows.len() - i,
    {
        let m = &rows[i];
        proof {
            assert(all.take(i + 1).drop_last() =~= all.take(i as int));
            assert(all.take(i + 1).last() == all[i as int]);
        }
        if !m.is_draft && m.list_unsubscribe.is_some() {
            let first = match found {
                Some(k) => {
                    proof {
                        assert(all.take(i + 1)[k as int] == all[k as int]);
                    }
                    m.date > rows[k].date
                },
                None => true,
            };
            if first {
                found = Some(i);
            }
        }
        i = i + 1;
    }
    proof {
        assert(all.take(all.len() as int) =~= all);
    }
    match found {
        Some(k) => Some(rows[k].id),
        None => None,
    }
}

/// A message whose raw form is worth reading again.
#[derive(Debug)]
pub struct RawCandidate {
    pub id: i64,
    pub raw_path: String,
    pub date: i64,
}

/// The messages whose raw form may tell what their rows do not.
pub open spec fn candidates(rows: Seq<UnsubscribeRow>) -> Seq<RawCandidate>
    decreases rows.len(),
{
    if rows.len() == 0 {
        Seq::empty()
    } else {
        let before = candidates(rows.drop_last());
        let m = rows.last();
        if may_tell(m) {
            before.push(RawCandidate { id: m.id, raw_path: m.raw_path->0, date: m.date })
        } else {
            before
        }
    }
}

/// Thread messages with no stored List-Unsubscribe but a raw MIME file on
/// disk, newest first. Mail synced before the header was part of the IMAP
/// header fetch has no stored header even when the raw carries it, so
/// these rows are worth re-reading once before reporting "no unsubscribe link".
pub fn thread_unsubscribe_candidates(rows: &Vec<UnsubscribeRow>) -> (r: Vec<RawCandidate>)
    ensures
        r@ == sorted_by(candidates(rows@), |a: RawCandidate, b: RawCandidate| a.date > b.date),
{
    let ghost all = rows@;
    let mut found: Vec<RawCandidate> = Vec::new();
    let mut i: usize = 0;
    proof {
        assert(all.take(0) =~= Seq::<UnsubscribeRow>::empty());
    }
    while i < rows.len()
        invariant
            i <= rows.len(),
            all == rows@,
            found@ == candidates(all.take(i as int)),
        decreases rows.len() - i,
    {
        let m = &rows[i];
        proof {
            assert(all.take(i + 1).drop_last() =~= all.take(i as int));
            assert(all.take(i + 1).last() == all[i as int]);
        }
        match &m.raw_path {
            Some(path) => {
                if !m.is_draft && m.list_unsubscribe.is_none() {
                    found.push(RawCandidate { id: m.id, raw_path: path.clone(), date: m.date });
                }
            },
            None => {},
        }
        i = i + 1;
    }
    proof {
        assert(all.take(all.len() as int) =~= all);
    }
    let order = |a: &RawCandidate, b: &RawCandidate| -> (r: bool)
        ensures
            r == (a.date > b.date),
        { a.date > b.date };
    sort_list(found, order, Ghost(|a: RawCandidate, b: RawCandidate| a.date > b.date))
}

/// A message of a thread and its moment.
#[derive(Debug, Clone, Copy)]
pub struct ThreadEntry {
    pub id: i64,
    pub date: i64,
}

/// Whether one message is shown before another when only the latest is: by its moment, and of two
/// of the same moment by its id.
pub open spec fn outlasts(a: ThreadEntry, b: ThreadEntry) -> bool {
    a.date > b.date || (a.date == b.date && a.id >= b.id)
}

/// The message of a thread that a preview shows: the newest, and of two of the same moment the
/// last that was stored.
pub fn latest_in_thread(rows: &Vec<ThreadEntry>) -> (r: Option<i64>)
    ensures
        match r {
            Some(id) => exists|k: int|
                0 <= k < rows@.len() && (#[trigger] rows@[k]).id == id && forall|i: int|
                    0 <= i < rows@.len() ==> outlasts(rows@[k], #[trigger] rows@[i]),
            None => rows@.len() == 0,
        },
{
    if rows.len() == 0 {
        return None;
    }
    let mut best: usize = 0;
    let mut i: usize = 1;
    while i < rows.len()
        invariant
            best < i <= rows.len(),
            forall|j: int| 0 <= j < i ==> outlasts(rows@[best as int], #[trigger] rows@[j]),
        decreases rows.len() - i,
    {
        let (a, b) = (rows[i], rows[best]);
        if a.date > b.date || (a.date == b.date && a.id > b.id) {
            best = i;
        }
        i = i + 1;
    }
    Some(rows[best].id)
}

/// What a list of attachments says of one.
#[derive(Debug)]
pub struct AttachmentMeta {
    pub id: i64,
    pub filename: Option<String>,
    pub mime_type: Option<String>,
    pub size: Option<i64>,
    pub is_inline: bool,
}

/// A message as the reader's query reports it.
#[derive(Debug)]
pub struct DetailRow {
    pub id: i64,
    pub thread_id: Option<i64>,
    pub account_id: i64,
    pub from_name: Option<String>,
    pub from_addr: Option<String>,
    pub to: Vec<Address>,
    pub cc: Vec<Address>,
    pub subject: String,
    pub local_subject_prefix: String,
    pub date: i64,
    pub is_read: bool,
    pub is_starred: bool,
    pub is_draft: bool,
    pub is_outgoing: bool,
    pub snippet: String,
    pub body_state: String,
    pub text_body: Option<String>,
    pub html_body: Option<String>,
    pub local_body_note: String,
    pub list_unsubscribe: Option<String>,
    pub list_unsubscribe_post: Option<String>,
    pub sender_addr: Option<String>,
    pub sender_verification: String,
    pub send_state: Option<String>,
    pub send_error: Option<String>,
}

/// A message as the reader shows it.
#[derive(Debug)]
pub struct MessageDetail {
    pub id: i64,
    pub thread_id: i64,
    pub account_id: i64,
    pub from: Address,
    pub to: Vec<Address>,
    pub cc: Vec<Address>,
    pub subject: String,
    pub date: i64,
    pub is_read: bool,
    pub is_starred: bool,
    pub is_draft: bool,
    pub is_outgoing: bool,
    pub snippet: String,
    pub body_state: String,
    pub text_body: Option<String>,
    pub html_body: Option<String>,
    pub automation_note: Option<String>,
    pub attachments: Vec<AttachmentMeta>,
    pub list_unsubscribe: Option<String>,
    pub list_unsubscribe_post: Option<String>,
    pub via: Option<String>,
    pub sender_verification: String,
    pub send_state: Option<String>,
    pub send_error: Option<String>,
}

/// Whether a message is shown as its row says, whatever its attachments are. Local annotations are
/// shown beside what was received.
pub open spec fn shows(d: MessageDetail, row: DetailRow) -> bool {
    &&& d.id == row.id && d.account_id == row.account_id && d.date == row.date
    &&& d.thread_id == match row.thread_id {
        Some(t) => t,
        None => 0,
    }
    &&& d.from.name == row.from_name
    &&& d.from.email@ == match row.from_addr {
        Some(a) => a@,
        None => Seq::empty(),
    }
    &&& d.to == row.to && d.cc == row.cc
    &&& d.subject@ == row.local_subject_prefix@ + row.subject@
    &&& d.is_read == row.is_read && d.is_starred == row.is_starred && d.is_draft == row.is_draft
        && d.is_outgoing == row.is_outgoing
    &&& d.snippet == row.snippet && d.body_state == row.body_state && d.text_body == row.text_body
        && d.html_body == row.html_body
    &&& d.automation_note == (if trimmed(row.local_body_note@).len() == 0 {
        None
    } else {
        Some(row.local_body_note)
    })
    &&& d.list_unsubscribe == row.list_unsubscribe && d.list_unsubscribe_post
        == row.list_unsubscribe_post && d.via == row.sender_addr
    &&& d.sender_verification == row.sender_verification && d.send_state == row.send_state
        && d.send_error == row.send_error
}

/// Read a message for the reader, its attachments aside.
pub fn detail_from_row(row: DetailRow) -> (r: MessageDetail)
    ensures
        shows(r, row),
        r.attachments@.len() == 0,
        r.id == row.id && r.account_id == row.account_id && r.date == row.date,
        r.from.name == row.from_name && r.to == row.to && r.cc == row.cc,
        row.from_addr is Some ==> r.from.email@ == row.from_addr->0@,
        row.thread_id is Some ==> r.thread_id == row.thread_id->0,
        r.subject@ == row.local_subject_prefix@ + row.subject@,
        r.is_read == row.is_read && r.is_starred == row.is_starred,
        r.is_draft == row.is_draft && r.is_outgoing == row.is_outgoing,
        r.snippet == row.snippet && r.body_state == row.body_state,
        r.text_body == row.text_body && r.html_body == row.html_body,
        r.automation_note is Some <==> trimmed(row.local_body_note@).len() > 0,
        r.automation_note is Some ==> r.automation_note->0 == row.local_body_note,
        r.list_unsubscribe == row.list_unsubscribe,
        r.list_unsubscribe_post == row.list_unsubscribe_post,
        r.via == row.sender_addr && r.sender_verification == row.sender_verification,
        r.send_state == row.send_state && r.send_error == row.send_error,
{
    let note = trim(row.local_body_note.as_str());
    let empty = note.as_str().is_empty();
    let ghost prefix = row.local_subject_prefix@;
    let subject = if row.local_subject_prefix.as_str().is_empty() {
        proof {
            assert(prefix + row.subject@ =~= row.subject@);
        }
        row.subject
    } else {
        row.local_subject_prefix.concat(row.subject.as_str())
    };
    let thread_id: i64 = match row.thread_id {
        Some(t) => t,
        None => 0,
    };
    let email = match row.from_addr {
        Some(a) => a,
        None => String::new(),
    };
    let automation_note = if empty {
        None
    } else {
        Some(row.local_body_note)
    };
    MessageDetail {
        id: row.id,
        thread_id,
        account_id: row.account_id,
        from: Address { name: row.from_name, email },
        to: row.to,
        cc: row.cc,
        subject,
        date: row.date,
        is_read: row.is_read,
        is_starred: row.is_starred,
        is_draft: row.is_draft,
        is_outgoing: row.is_outgoing,
        snippet: row.snippet,
        body_state: row.body_state,
        text_body: row.text_body,
        html_body: row.html_body,
        automation_note,
        attachments: Vec::new(),
        list_unsubscribe: row.list_unsubscribe,
        list_unsubscribe_post: row.list_unsubscribe_post,
        via: row.sender_addr,
        sender_verification: row.sender_verification,
        send_state: row.send_state,
        send_error: row.send_error,
    }
}

/// One message for the reader.
pub fn detail(id: i64, row: Option<DetailRow>, attachments: Vec<AttachmentMeta>) -> (r: Result<
    MessageDetail,
>)
    ensures
        match row {
            Some(row) => r is Ok && shows(r->Ok_0, row) && r->Ok_0.attachments == attachments,
            None => r is Err && r->Err_0 is NotFound && r->Err_0->NotFound_0@ == "message "@
                + signed_decimal(id as int),
        },
{
    match row {
        Some(row) => {
            let mut d = detail_from_row(row);
            d.attachments = attachments;
            Ok(d)
        },
        None => Err(CoreError::NotFound(lit("message ").concat(i64_text(id).as_str()))),
    }
}

/// An attachment and the message that it belongs to.
#[derive(Debug)]
pub struct OwnedAttachment {
    pub message_id: i64,
    pub meta: AttachmentMeta,
}

/// The attachments of a message, in order.
pub open spec fn attachments_of(atts: Seq<OwnedAttachment>, message_id: i64) -> Seq<AttachmentMeta>
    decreases atts.len(),
{
    if atts.len() == 0 {
        Seq::empty()
    } else {
        let before = attachments_of(atts.drop_last(), message_id);
        if atts.last().message_id == message_id {
            before.push(atts.last().meta)
        } else {
            before
        }
    }
}

/// The messages of a thread for the reader, each with its attachments: what it is shown as alone.
pub fn list_for_thread(rows: Vec<DetailRow>, attachments: Vec<OwnedAttachment>) -> (r: Vec<
    MessageDetail,
>)
    requires
        forall|i: int, j: int|
            0 <= i < j < rows@.len() ==> (#[trigger] rows@[i]).id != (#[trigger] rows@[j]).id,
    ensures
        r@.len() == rows@.len(),
        forall|i: int|
            0 <= i < rows@.len() ==> shows(#[trigger] r@[i], rows@[i]) && r@[i].attachments@
                == attachments_of(attachments@, rows@[i].id),
{
    let ghost all = rows@;
    let ghost atts = attachments@;
    let mut out: Vec<MessageDetail> = Vec::new();
    for row in it: rows
        invariant
            it.seq() == all,
            out@.len() == it.index(),
            forall|i: int|
                0 <= i < it.index() ==> shows(#[trigger] out@[i], all[i])
                    && out@[i].attachments@.len() == 0,
    {
        out.push(detail_from_row(row));
    }
    proof {
        assert(atts.take(0) =~= Seq::<OwnedAttachment>::empty());
        assert forall|i: int| 0 <= i < all.len() implies (#[trigger] out@[i]).attachments@
            == attachments_of(atts.take(0), all[i].id) by {
            assert(out@[i].attachments@ =~= Seq::<AttachmentMeta>::empty());
        }
    }
    for a in it: attachments
        invariant
            it.seq() == atts,
            out@.len() == all.len(),
            forall|i: int, j: int|
                0 <= i < j < all.len() ==> (#[trigger] all[i]).id != (#[trigger] all[j]).id,
            forall|i: int|
                0 <= i < all.len() ==> shows(#[trigger] out@[i], all[i]) && out@[i].attachments@
                    == attachments_of(atts.take(it.index()), all[i].id),
    {
        proof {
            assert(atts.take(it.index() + 1).drop_last() =~= atts.take(it.index()));
            assert(atts.take(it.index() + 1).last() == a);
        }
        let mut k: usize = 0;
        let mut at: Option<usize> = None;
        while k < out.len() && at.is_none()
            invariant
                k <= out@.len(),
                out@.len() == all.len(),
                forall|i: int| 0 <= i < all.len() ==> shows(#[trigger] out@[i], all[i]),
                match at {
                    Some(x) => x < out@.len() && all[x as int].id == a.message_id,
                    None => forall|i: int|
                        0 <= i < k ==> (#[trigger] all[i]).id != a.message_id,
                },
            decreases out.len() - k,
        {
            proof {
                assert(shows(out@[k as int], all[k as int]));
            }
            if out[k].id == a.message_id {
                at = Some(k);
            }
            k = k + 1;
        }
        let ghost held = out@;
        match at {
            Some(x) => {
                out[x].attachments.push(a.meta);
                proof {
                    assert forall|i: int| 0 <= i < all.len() implies shows(
                        #[trigger] out@[i],
                        all[i],
                    ) && out@[i].attachments@ == attachments_of(
                        atts.take(it.index() + 1),
                        all[i].id,
                    ) by {
                        assert(shows(held[i], all[i]));
                        if i < x {
                            assert(all[i].id != all[x as int].id);
                        } else if x < i {
                            assert(all[x as int].id != all[i].id);
                        }
                    }
                }
            },
            None => {
                proof {
                    assert forall|i: int| 0 <= i < all.len() implies shows(
                        #[trigger] out@[i],
                        all[i],
                    ) && out@[i].attachments@ == attachments_of(
                        atts.take(it.index() + 1),
                        all[i].id,
                    ) by {
                        assert(shows(held[i], all[i]));
                        assert(all[i].id != a.message_id);
                    }
                }
            },
        }
    }
    proof {
        assert(atts.take(atts.len() as int) =~= atts);
    }
    out
}

/// The query of the user's own sent messages with bodies, newest first - the corpus for
/// learning their writing voice - and its values.
pub fn list_sent_bodies(account_id: Option<i64>, limit: i64) -> (r: (String, Vec<Bind>))
    ensures
        r.0@
            == "SELECT m.id, m.subject, b.text_body FROM messages m JOIN folders f ON f.id = m.folder_id AND f.role = 'sent' JOIN message_bodies b ON b.message_id = m.id WHERE m.is_draft = 0 AND b.text_body IS NOT NULL AND b.text_body <> '' "@
            + (if account_id is Some {
            "AND m.account_id = ?2"@
        } else {
            ""@
        }) + " ORDER BY m.date DESC LIMIT ?1"@,
        crate::repo::sql::bounds(r.1@) == match account_id {
            Some(id) => seq![Bound::Int(limit), Bound::Int(id)],
            None => seq![Bound::Int(limit)],
        },
{
    let mut bind: Vec<Bind> = Vec::new();
    bind.push(Bind::Int(limit));
    let clause = match account_id {
        Some(id) => {
            bind.push(Bind::Int(id));
            "AND m.account_id = ?2"
        },
        None => "",
    };
    proof {
        assert(crate::repo::sql::bounds(bind@) =~= match account_id {
            Some(id) => seq![Bound::Int(limit), Bound::Int(id)],
            None => seq![Bound::Int(limit)],
        });
    }
    let sql = lit(
        "SELECT m.id, m.subject, b.text_body FROM messages m JOIN folders f ON f.id = m.folder_id AND f.role = 'sent' JOIN message_bodies b ON b.message_id = m.id WHERE m.is_draft = 0 AND b.text_body IS NOT NULL AND b.text_body <> '' ",
    ).concat(clause).concat(" ORDER BY m.date DESC LIMIT ?1");
    (sql, bind)
}

/// The query of those among `ids` that are the user's own sent (non-draft) messages; none is
/// needed where nothing is asked for.
pub fn sent_query(ids: &Vec<i64>) -> (r: Option<String>)
    ensures
        if ids@.len() == 0 {
            r is None
        } else {
            r is Some && r->0@
                == "SELECT m.id FROM messages m JOIN folders f ON f.id = m.folder_id AND f.role = 'sent' WHERE m.is_draft = 0 AND m.id IN ("@
                + number_list(ids@) + ")"@
        },
{
    if ids.len() == 0 {
        return None;
    }
    let list = write_numbers(ids);
    Some(
        lit(
            "SELECT m.id FROM messages m JOIN folders f ON f.id = m.folder_id AND f.role = 'sent' WHERE m.is_draft = 0 AND m.id IN (",
        ).concat(list.as_str()).concat(")"),
    )
}

/// Of `ids`, return those that are the user's own sent (non-draft) messages,
/// preserving the input order. Used to keep only self-authored few-shot hits.
pub fn filter_sent(ids: &Vec<i64>, sent: &Vec<i64>) -> (r: Vec<i64>)
    ensures
        r@ == ids@.filter(|id: i64| sent@.contains(id)),
{
    let ghost p = |id: i64| sent@.contains(id);
    let mut out: Vec<i64> = Vec::new();
    let mut i: usize = 0;
    proof {
        assert(ids@.take(0) =~= Seq::<i64>::empty());
        reveal(Seq::filter);
    }
    while i < ids.len()
        invariant
            i <= ids.len(),
            p == (|id: i64| sent@.contains(id)),
            out@ == ids@.take(i as int).filter(p),
        decreases ids.len() - i,
    {
        proof {
            assert(ids@.take(i + 1) =~= ids@.take(i as int).push(ids@[i as int]));
            crate::text::filter_push(ids@.take(i as int), ids@[i as int], p);
        }
        if holds(sent, ids[i]) {
            out.push(ids[i]);
        }
        i = i + 1;
    }
    proof {
        assert(ids@.take(ids@.len() as int) =~= ids@);
    }
    out
}

} // verus!
