//! Exact unread counts for split tabs and sidebar rows: a handful of scalar counts that share
//! the conditions of the thread list.

use crate::repo::labels::{label_tab, tab_key, Label};
use crate::repo::rows::{asks_for, Cell, Database, Scope};
use crate::repo::sql::{Bind, Bound, Conditions, Filter};
use crate::repo::thread_rows::{
    inbox_counts_count_their_threads, is_in_tab, is_in_view, is_unread, is_unread_in_inbox,
    view_counts_count_their_threads,
};
use crate::repo::threads::{MailView, TabFilter};
use crate::text::{i64_text, lit, signed_decimal};
use vstd::prelude::*;
use vstd::string::*;

verus! {

/// A thread with a message in a folder of the role that the parameter names.
pub open spec fn in_role(param: Seq<char>) -> Seq<char> {
    "(EXISTS (SELECT 1 FROM messages m JOIN folders f ON f.id = m.folder_id WHERE m.thread_id = t.id AND f.role = "@
        + param
        + ") OR EXISTS ( SELECT 1 FROM messages m JOIN accounts ma ON ma.id = m.account_id AND ma.provider = 'gmail' JOIN message_folders mf ON mf.message_id = m.id JOIN folders f ON f.id = mf.folder_id WHERE m.thread_id = t.id AND f.role = "@
        + param + " ))"@
}

/// The clause of a thread with a message in a folder of a role.
pub fn role_clause(param: &str) -> (r: String)
    ensures
        r@ == in_role(param@),
{
    lit(
        "(EXISTS (SELECT 1 FROM messages m JOIN folders f ON f.id = m.folder_id WHERE m.thread_id = t.id AND f.role = ",
    ).concat(param).concat(
        ") OR EXISTS ( SELECT 1 FROM messages m JOIN accounts ma ON ma.id = m.account_id AND ma.provider = 'gmail' JOIN message_folders mf ON mf.message_id = m.id JOIN folders f ON f.id = mf.folder_id WHERE m.thread_id = t.id AND f.role = ",
    ).concat(param).concat(" ))")
}

/// A thread of a default bucket: forced there by a routing rule, or unrouted and split by the
/// newest incoming message.
pub open spec fn in_bucket(automated: bool) -> Seq<char> {
    if automated {
        "(t.routed_tab = 'other' OR ((t.routed_tab IS NULL OR t.routed_tab = 'pending') AND (SELECT m.is_automated FROM messages m WHERE m.thread_id = t.id AND m.is_draft = 0 AND m.is_outgoing = 0 ORDER BY m.date DESC, m.id DESC LIMIT 1) = 1))"@
    } else {
        "(t.routed_tab = 'important' OR ((t.routed_tab IS NULL OR t.routed_tab = 'pending') AND (SELECT m.is_automated FROM messages m WHERE m.thread_id = t.id AND m.is_draft = 0 AND m.is_outgoing = 0 ORDER BY m.date DESC, m.id DESC LIMIT 1) = 0))"@
    }
}

/// The clause of a default bucket.
pub fn bucket_clause(automated: bool) -> (r: &'static str)
    ensures
        r@ == in_bucket(automated),
{
    if automated {
        "(t.routed_tab = 'other' OR ((t.routed_tab IS NULL OR t.routed_tab = 'pending') AND (SELECT m.is_automated FROM messages m WHERE m.thread_id = t.id AND m.is_draft = 0 AND m.is_outgoing = 0 ORDER BY m.date DESC, m.id DESC LIMIT 1) = 1))"
    } else {
        "(t.routed_tab = 'important' OR ((t.routed_tab IS NULL OR t.routed_tab = 'pending') AND (SELECT m.is_automated FROM messages m WHERE m.thread_id = t.id AND m.is_draft = 0 AND m.is_outgoing = 0 ORDER BY m.date DESC, m.id DESC LIMIT 1) = 0))"
    }
}

/// A thread with a message that carries the label that the parameter names.
pub open spec fn labelled(param: Seq<char>) -> Seq<char> {
    "EXISTS (SELECT 1 FROM message_labels ml JOIN messages m ON m.id = ml.message_id WHERE m.thread_id = t.id AND ml.label_id = "@
        + param + ")"@
}

/// The clause of a thread that carries a label.
pub fn label_clause(param: &str) -> (r: String)
    ensures
        r@ == labelled(param@),
{
    lit(
        "EXISTS (SELECT 1 FROM message_labels ml JOIN messages m ON m.id = ml.message_id WHERE m.thread_id = t.id AND ml.label_id = ",
    ).concat(param).concat(")")
}

/// The tab of a split rule.
pub open spec fn split_tab(id: i64) -> Seq<char> {
    "split:"@ + signed_decimal(id as int)
}

impl Filter {
    /// Those of an account, where one is asked for.
    pub open spec fn of_account(self, account_id: Option<i64>) -> Filter {
        match account_id {
            Some(id) => {
                let bound = self.bind(Bound::Int(id));
                bound.and("t.account_id = "@ + bound.param())
            },
            None => self,
        }
    }

    /// Threads with unread messages.
    pub open spec fn unread(account_id: Option<i64>) -> Filter {
        Filter::all().and("t.unread_count > 0"@).of_account(account_id)
    }

    /// Those in the inbox that are not snoozed.
    pub open spec fn inbox(self) -> Filter {
        let bound = self.bind(Bound::Text("inbox"@));
        bound.and(in_role(bound.param())).and("s.thread_id IS NULL"@)
    }

    /// Those routed to a tab.
    pub open spec fn routed(self, tab: Seq<char>) -> Filter {
        let bound = self.bind(Bound::Text(tab));
        bound.and("t.routed_tab = "@ + bound.param())
    }

    /// Those that carry a label.
    pub open spec fn label(self, id: i64) -> Filter {
        let bound = self.bind(Bound::Int(id));
        bound.and(labelled(bound.param()))
    }
}

impl Conditions {
    fn of_account(&mut self, account_id: Option<i64>)
        ensures
            final(self)@ == old(self)@.of_account(account_id),
    {
        match account_id {
            Some(id) => {
                let param = self.bind(Bind::Int(id));
                self.and(lit("t.account_id = ").concat(param.as_str()));
            },
            None => {},
        }
    }

    /// Base: threads with unread messages, optionally account-scoped.
    pub fn unread(account_id: Option<i64>) -> (r: Conditions)
        ensures
            r@ == Filter::unread(account_id),
    {
        let mut q = Conditions::new();
        q.and(lit("t.unread_count > 0"));
        q.of_account(account_id);
        q
    }

    /// Same base without the unread filter (drafts badge counts all drafts).
    pub fn any(account_id: Option<i64>) -> (r: Conditions)
        ensures
            r@ == Filter::all().of_account(account_id),
    {
        let mut q = Conditions::new();
        q.of_account(account_id);
        q
    }

    pub fn clause(self, c: &str) -> (r: Conditions)
        ensures
            r@ == self@.and(c@),
    {
        let mut q = self;
        q.and(lit(c));
        q
    }

    pub fn inbox(self) -> (r: Conditions)
        ensures
            r@ == self@.inbox(),
    {
        let mut q = self;
        let param = q.bind(Bind::Text(lit("inbox")));
        q.and(role_clause(param.as_str()));
        q.and(lit("s.thread_id IS NULL"));
        q
    }

    /// Important (`automated=false`) / Other (`automated=true`) default buckets.
    pub fn bucket(self, automated: bool) -> (r: Conditions)
        ensures
            r@ == self@.and(in_bucket(automated)),
    {
        self.clause(bucket_clause(automated))
    }

    fn routed(self, tab: String) -> (r: Conditions)
        ensures
            r@ == self@.routed(tab@),
    {
        let mut q = self;
        let param = q.bind(Bind::Text(tab));
        q.and(lit("t.routed_tab = ").concat(param.as_str()));
        q
    }

    /// A custom split tab: threads routed to `split:<id>`.
    pub fn routed_split(self, id: i64) -> (r: Conditions)
        ensures
            r@ == self@.routed(split_tab(id)),
    {
        self.routed(lit("split:").concat(i64_text(id).as_str()))
    }

    /// An auto-category tab: threads routed to `label:<id>`.
    pub fn routed_label(self, id: i64) -> (r: Conditions)
        ensures
            r@ == self@.routed(label_tab(id)),
    {
        self.routed(tab_key(id))
    }

    /// A manual (user) label: a cross-cutting membership filter, not a routed tab.
    pub fn label(self, label_id: i64) -> (r: Conditions)
        ensures
            r@ == self@.label(label_id),
    {
        let mut q = self;
        let param = q.bind(Bind::Int(label_id));
        q.and(label_clause(param.as_str()));
        q
    }

    /// The query that counts the threads.
    pub fn count_query(&self) -> (r: String)
        ensures
            r@ == "SELECT COUNT(*) FROM threads t LEFT JOIN snoozes s ON s.thread_id = t.id "@
                + self@.behind("WHERE "@),
    {
        let filter = self.behind("WHERE ");
        lit("SELECT COUNT(*) FROM threads t LEFT JOIN snoozes s ON s.thread_id = t.id ").concat(
            filter.as_str(),
        )
    }
}

/// A count under the key that it is reported with.
#[derive(Debug)]
pub struct KeyedCount {
    pub key: String,
    pub query: Conditions,
}

/// Whether a count is that of an id.
pub open spec fn counts_for(c: KeyedCount, id: i64, query: Filter) -> bool {
    c.key@ == signed_decimal(id as int) && c.query@ == query
}

/// The counts of a mailbox, each with the query that gives it.
#[derive(Debug)]
pub struct UnreadQueries {
    pub inbox: Conditions,
    pub important: Conditions,
    pub other: Conditions,
    pub splits: Vec<KeyedCount>,
    pub labels: Vec<KeyedCount>,
    pub views: Vec<KeyedCount>,
}

/// A thread with a draft.
pub open spec fn drafted() -> Seq<char> {
    "(EXISTS (SELECT 1 FROM messages m JOIN folders f ON f.id = m.folder_id WHERE m.thread_id = t.id AND m.is_draft = 1 AND f.role = 'drafts') OR EXISTS ( SELECT 1 FROM messages m JOIN accounts ma ON ma.id = m.account_id AND ma.provider = 'gmail' JOIN message_folders mf ON mf.message_id = m.id JOIN folders f ON f.id = mf.folder_id WHERE m.thread_id = t.id AND m.is_draft = 1 AND f.role = 'drafts' ))"@
}

/// The query that counts the unread threads of a label: an auto category reads the single resolved
/// tab, a manual label stays a membership filter.
pub open spec fn label_filter(account_id: Option<i64>, label: Label) -> Filter {
    let inbox = Filter::unread(account_id).inbox();
    if label.is_auto {
        inbox.routed(label_tab(label.id))
    } else {
        inbox.label(label.id)
    }
}

/// The counts of a mailbox, of all accounts or of one.
pub fn unread_counts(account_id: Option<i64>, splits: &Vec<i64>, labels: &Vec<Label>) -> (r:
    UnreadQueries)
    ensures
        ({
            let unread = Filter::unread(account_id);
            &&& r.inbox@ == unread.inbox()
            &&& r.important@ == unread.inbox().and(in_bucket(false))
            &&& r.other@ == unread.inbox().and(in_bucket(true))
            &&& r.splits@.len() == splits@.len()
            &&& forall|i: int|
                0 <= i < splits@.len() ==> counts_for(
                    #[trigger] r.splits@[i],
                    splits@[i],
                    unread.inbox().routed(split_tab(splits@[i])),
                )
            &&& r.labels@.len() == labels@.len()
            &&& forall|i: int|
                0 <= i < labels@.len() ==> counts_for(
                    #[trigger] r.labels@[i],
                    labels@[i].id,
                    label_filter(account_id, labels@[i]),
                )
            &&& r.views@.len() == 3
            &&& r.views@[0].key@ == "starred"@ && r.views@[0].query@ == unread.and(
                "t.starred_count > 0"@,
            )
            &&& r.views@[1].key@ == "snoozed"@ && r.views@[1].query@ == unread.and(
                "s.thread_id IS NOT NULL"@,
            )
            &&& r.views@[2].key@ == "drafts"@ && r.views@[2].query@
                == Filter::all().of_account(account_id).and(drafted())
        }),
        asks_for(
            r.inbox@,
            |db: Database, s: Scope|
                is_unread_in_inbox(db, s.row("t"@), s.row("s"@), account_id),
        ),
        asks_for(
            r.important@,
            |db: Database, s: Scope|
                is_unread_in_inbox(db, s.row("t"@), s.row("s"@), account_id) && is_in_tab(
                    Some(TabFilter::Important),
                    db,
                    s.row("t"@),
                ),
        ),
        asks_for(
            r.other@,
            |db: Database, s: Scope|
                is_unread_in_inbox(db, s.row("t"@), s.row("s"@), account_id) && is_in_tab(
                    Some(TabFilter::Other),
                    db,
                    s.row("t"@),
                ),
        ),
        forall|i: int|
            #![trigger r.splits@[i]]
            0 <= i < splits@.len() ==> asks_for(
                r.splits@[i].query@,
                |db: Database, s: Scope|
                    is_unread_in_inbox(db, s.row("t"@), s.row("s"@), account_id) && is_in_tab(
                        Some(TabFilter::Split(splits@[i])),
                        db,
                        s.row("t"@),
                    ),
            ),
        asks_for(
            r.views@[0].query@,
            |db: Database, s: Scope|
                is_unread(s.row("t"@), account_id) && is_in_view(
                    MailView::Starred,
                    db,
                    s.row("t"@),
                    s.row("s"@),
                ),
        ),
        asks_for(
            r.views@[1].query@,
            |db: Database, s: Scope|
                is_unread(s.row("t"@), account_id) && is_in_view(
                    MailView::Snoozed,
                    db,
                    s.row("t"@),
                    s.row("s"@),
                ),
        ),
        asks_for(
            r.views@[2].query@,
            |db: Database, s: Scope|
                (account_id is Some ==> s.row("t"@).at("account_id"@) == Cell::Int(
                    account_id->0 as int,
                )) && is_in_view(MailView::Drafts, db, s.row("t"@), s.row("s"@)),
        ),
{
    proof {
        inbox_counts_count_their_threads(account_id, 0);
        view_counts_count_their_threads(account_id);
        assert forall|id: i64| asks_for(
            #[trigger] Filter::unread(account_id).inbox().routed(split_tab(id)),
            |db: Database, s: Scope|
                is_unread_in_inbox(db, s.row("t"@), s.row("s"@), account_id) && is_in_tab(
                    Some(TabFilter::Split(id)),
                    db,
                    s.row("t"@),
                ),
        ) by {
            inbox_counts_count_their_threads(account_id, id);
        }
    }
    let mut split_counts: Vec<KeyedCount> = Vec::new();
    let mut i: usize = 0;
    while i < splits.len()
        invariant
            i <= splits.len(),
            split_counts@.len() == i,
            forall|k: int|
                0 <= k < i ==> counts_for(
                    #[trigger] split_counts@[k],
                    splits@[k],
                    Filter::unread(account_id).inbox().routed(split_tab(splits@[k])),
                ),
        decreases splits.len() - i,
    {
        split_counts.push(
            KeyedCount {
                key: i64_text(splits[i]),
                query: Conditions::unread(account_id).inbox().routed_split(splits[i]),
            },
        );
        i = i + 1;
    }
    let mut label_counts: Vec<KeyedCount> = Vec::new();
    let mut j: usize = 0;
    while j < labels.len()
        invariant
            j <= labels.len(),
            label_counts@.len() == j,
            forall|k: int|
                0 <= k < j ==> counts_for(
                    #[trigger] label_counts@[k],
                    labels@[k].id,
                    label_filter(account_id, labels@[k]),
                ),
        decreases labels.len() - j,
    {
        let q = Conditions::unread(account_id).inbox();
        let query = if labels[j].is_auto {
            q.routed_label(labels[j].id)
        } else {
            q.label(labels[j].id)
        };
        label_counts.push(KeyedCount { key: i64_text(labels[j].id), query });
        j = j + 1;
    }
    let mut views: Vec<KeyedCount> = Vec::new();
    views.push(
        KeyedCount {
            key: lit("starred"),
            query: Conditions::unread(account_id).clause("t.starred_count > 0"),
        },
    );
    views.push(
        KeyedCount {
            key: lit("snoozed"),
            query: Conditions::unread(account_id).clause("s.thread_id IS NOT NULL"),
        },
    );
    // Drafts badge = number of threads with a draft, unread or not.
    views.push(
        KeyedCount {
            key: lit("drafts"),
            query: Conditions::any(account_id).clause(
                "(EXISTS (SELECT 1 FROM messages m JOIN folders f ON f.id = m.folder_id WHERE m.thread_id = t.id AND m.is_draft = 1 AND f.role = 'drafts') OR EXISTS ( SELECT 1 FROM messages m JOIN accounts ma ON ma.id = m.account_id AND ma.provider = 'gmail' JOIN message_folders mf ON mf.message_id = m.id JOIN folders f ON f.id = mf.folder_id WHERE m.thread_id = t.id AND m.is_draft = 1 AND f.role = 'drafts' ))",
            ),
        },
    );
    UnreadQueries {
        inbox: Conditions::unread(account_id).inbox(),
        important: Conditions::unread(account_id).inbox().bucket(false),
        other: Conditions::unread(account_id).inbox().bucket(true),
        splits: split_counts,
        labels: label_counts,
        views,
    }
}

/// The badges of the sidebar section of an account.
#[derive(Debug, Clone, Copy, PartialEq, Eq, Structural)]
pub struct MailboxBadgeCounts {
    pub account_id: i64,
    pub inbox: i64,
    pub starred: i64,
    pub drafts: i64,
}

/// A count of an account, as a grouped scan reports it.
#[derive(Debug, Clone, Copy)]
pub struct AccountCount {
    pub account_id: i64,
    pub value: i64,
}

/// What a scan reports of an account; nothing is reported of an account with nothing to count.
pub open spec fn reported(rows: Seq<AccountCount>, account_id: i64) -> i64
    decreases rows.len(),
{
    if rows.len() == 0 {
        0
    } else if rows.last().account_id == account_id {
        rows.last().value
    } else {
        reported(rows.drop_last(), account_id)
    }
}

/// A badge shows what a scan reported last of its account, and nothing where it reported nothing.
pub proof fn badges_show_their_account(rows: Seq<AccountCount>, account_id: i64)
    ensures
        forall|k: int|
            0 <= k < rows.len() && (#[trigger] rows[k]).account_id == account_id && (forall|j: int|
                k < j < rows.len() ==> (#[trigger] rows[j]).account_id != account_id) ==> reported(
                rows,
                account_id,
            ) == rows[k].value,
        (forall|k: int| 0 <= k < rows.len() ==> (#[trigger] rows[k]).account_id != account_id)
            ==> reported(rows, account_id) == 0,
    decreases rows.len(),
{
    if rows.len() > 0 {
        let head = rows.drop_last();
        let last = rows.len() - 1;
        badges_show_their_account(head, account_id);
        assert(rows[last] == rows.last());
        assert forall|k: int| 0 <= k < head.len() implies head[k] == #[trigger] rows[k] by {}
        assert forall|k: int|
            0 <= k < rows.len() && (#[trigger] rows[k]).account_id == account_id && (forall|j: int|
                k < j < rows.len() ==> (#[trigger] rows[j]).account_id != account_id) implies reported(
            rows,
            account_id,
        ) == rows[k].value by {
            if k < last {
                assert(rows[last].account_id != account_id);
                assert(head[k].account_id == account_id);
                assert forall|j: int| k < j < head.len() implies (#[trigger] head[j]).account_id
                    != account_id by {
                    assert(rows[j].account_id != account_id);
                }
            }
        }
        if forall|k: int| 0 <= k < rows.len() ==> (#[trigger] rows[k]).account_id != account_id {
            assert(rows[last].account_id != account_id);
            assert forall|k: int| 0 <= k < head.len() implies (#[trigger] head[k]).account_id
                != account_id by {
                assert(rows[k].account_id != account_id);
            }
        }
    }
}

fn report_of(rows: &Vec<AccountCount>, account_id: i64) -> (r: i64)
    ensures
        r == reported(rows@, account_id),
{
    let mut i: usize = rows.len();
    proof {
        assert(rows@.take(i as int) =~= rows@);
    }
    while i > 0
        invariant
            i <= rows.len(),
            reported(rows@, account_id) == reported(rows@.take(i as int), account_id),
        decreases i,
    {
        i = i - 1;
        proof {
            assert(rows@.take(i + 1).drop_last() =~= rows@.take(i as int));
            assert(rows@.take(i + 1).last() == rows@[i as int]);
        }
        if rows[i].account_id == account_id {
            return rows[i].value;
        }
    }
    0
}

/// The native sidebar's badges for every account, out of one grouped scan per badge. An account
/// that a scan does not report has nothing to count; what is reported of an account that is not
/// listed is passed over.
pub fn mailbox_badge_counts(
    account_ids: &Vec<i64>,
    inbox: &Vec<AccountCount>,
    starred: &Vec<AccountCount>,
    drafts: &Vec<AccountCount>,
) -> (r: Vec<MailboxBadgeCounts>)
    requires
        account_ids@.no_duplicates(),
    ensures
        r@ == account_ids@.map_values(
            |id: i64|
                MailboxBadgeCounts {
                    account_id: id,
                    inbox: reported(inbox@, id),
                    starred: reported(starred@, id),
                    drafts: reported(drafts@, id),
                },
        ),
{
    let mut counts: Vec<MailboxBadgeCounts> = Vec::new();
    let mut i: usize = 0;
    while i < account_ids.len()
        invariant
            i <= account_ids.len(),
            counts@.len() == i,
            forall|k: int|
                0 <= k < i ==> #[trigger] counts@[k] == (MailboxBadgeCounts {
                    account_id: account_ids@[k],
                    inbox: reported(inbox@, account_ids@[k]),
                    starred: reported(starred@, account_ids@[k]),
                    drafts: reported(drafts@, account_ids@[k]),
                }),
        decreases account_ids.len() - i,
    {
        let account_id: i64 = account_ids[i];
        counts.push(
            MailboxBadgeCounts {
                account_id,
                inbox: report_of(inbox, account_id),
                starred: report_of(starred, account_id),
                drafts: report_of(drafts, account_id),
            },
        );
        i = i + 1;
    }
    counts
}

} // verus!
