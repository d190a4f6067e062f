//! Threads: which of them a view shows, how they are paged, and what is known of each.

use crate::repo::contacts::Address;
use crate::repo::counts::{role_clause, split_tab};
use crate::repo::labels::label_tab;
use crate::repo::rows::{asks_for, Database, Scope};
use crate::repo::sql::{parse_numbers, read_numbers, Bind, Bound, Conditions, Filter};
use crate::repo::thread_rows::{lists_show_their_threads, lists_thread, row_is_behind};
use crate::sorting::{
    in_order, orders, sort_list, sorted_by, sorting_keeps_items, sorting_orders_what_is_there,
};
use crate::text::{
    i64_text, is_same_ascii, lit, same_ascii, signed_decimal, split, split_char, texts, trim,
    trimmed,
};
use vstd::prelude::*;
use vstd::string::*;

verus! {

/// A thread as a list shows it.
#[derive(Debug)]
pub struct ThreadSummary {
    pub id: i64,
    pub account_id: i64,
    pub account_email: String,
    pub subject: String,
    pub snippet: String,
    pub participants: Vec<Address>,
    pub last_message_at: i64,
    pub message_count: i64,
    pub unread_count: i64,
    pub is_starred: bool,
    pub has_attachments: bool,
    pub has_replied: bool,
    pub snoozed_until: Option<i64>,
    pub labels: Vec<i64>,
}

/// A thread as the summary query reports it.
#[derive(Debug)]
pub struct SummaryRow {
    pub id: i64,
    pub account_id: i64,
    pub account_email: String,
    pub subject: Option<String>,
    pub snippet: String,
    pub participants: Vec<Address>,
    pub last_message_at: i64,
    pub message_count: i64,
    pub unread_count: i64,
    pub starred_count: i64,
    pub attachment_count: i64,
    pub has_replied: i64,
    pub snoozed_until: Option<i64>,
    pub label_ids: Option<String>,
}

/// The ids of a list that SQLite joined with commas; what is no number is passed over.
pub open spec fn id_list(csv: Seq<char>) -> Seq<i64> {
    read_numbers(split(csv, |c: char| c == ',').map_values(|s: Seq<char>| trimmed(s)))
}

/// Parse a SQLite `group_concat` result ("1,3,5") into a list of ids.
pub fn parse_id_list(csv: &str) -> (r: Vec<i64>)
    ensures
        r@ == id_list(csv@),
{
    let parts = split_char(csv, ',');
    let mut all: Vec<String> = Vec::new();
    let mut i: usize = 0;
    while i < parts.len()
        invariant
            i <= parts.len(),
            all@.len() == i,
            forall|k: int| 0 <= k < i ==> (#[trigger] all@[k])@ == trimmed(parts@[k]@),
        decreases parts.len() - i,
    {
        all.push(trim(parts[i].as_str()));
        i = i + 1;
    }
    proof {
        assert(texts(all@) =~= texts(parts@).map_values(|s: Seq<char>| trimmed(s)));
    }
    parse_numbers(&all)
}

/// Read a thread out of the summary query.
pub fn summary_from_row(row: SummaryRow) -> (r: ThreadSummary)
    ensures
        r.id == row.id && r.account_id == row.account_id && r.account_email == row.account_email,
        r.subject@ == match row.subject {
            Some(s) => s@,
            None => Seq::empty(),
        },
        r.snippet == row.snippet && r.participants == row.participants,
        r.last_message_at == row.last_message_at && r.message_count == row.message_count
            && r.unread_count == row.unread_count,
        r.is_starred == (row.starred_count > 0),
        r.has_attachments == (row.attachment_count > 0),
        r.has_replied == (row.has_replied > 0),
        r.snoozed_until == row.snoozed_until,
        r.labels@ == id_list(
            match row.label_ids {
                Some(s) => s@,
                None => Seq::empty(),
            },
        ),
{
    let subject = match row.subject {
        Some(s) => s,
        None => String::new(),
    };
    let label_ids = match row.label_ids {
        Some(s) => s,
        None => String::new(),
    };
    ThreadSummary {
        id: row.id,
        account_id: row.account_id,
        account_email: row.account_email,
        subject,
        snippet: row.snippet,
        participants: row.participants,
        last_message_at: row.last_message_at,
        message_count: row.message_count,
        unread_count: row.unread_count,
        is_starred: row.starred_count > 0,
        has_attachments: row.attachment_count > 0,
        has_replied: row.has_replied > 0,
        snoozed_until: row.snoozed_until,
        labels: parse_id_list(label_ids.as_str()),
    }
}

/// What a list shows.
#[derive(Debug, Clone, Copy, PartialEq, Eq, Structural)]
pub enum MailView {
    Inbox,
    Starred,
    Snoozed,
    Sent,
    Drafts,
    Done,
    Trash,
    Spam,
    All,
}

/// Which inbox tab to filter to. Overlay tabs (Split/AutoLabel) read the single
/// resolved `threads.routed_tab` so a thread appears in exactly one; the
/// Important/Other defaults catch everything still unrouted. Manual (user)
/// labels are a cross-cutting filter, not a routed tab.
#[derive(Debug, Clone, Copy)]
pub enum TabFilter {
    Important,
    Other,
    Split(i64),
    AutoLabel(i64),
    ManualLabel(i64),
}

/// Where a page of threads ended.
#[derive(Debug, Clone, Copy, PartialEq, Eq, Structural)]
pub struct ThreadCursor {
    pub last_message_at: i64,
    pub thread_id: i64,
}

/// What a list of threads is asked for.
#[derive(Debug)]
pub struct ListArgs {
    pub view: MailView,
    pub tab: Option<TabFilter>,
    pub account_id: Option<i64>,
    /// Restrict to threads with a message in this folder (user-folder view).
    pub folder_id: Option<i64>,
    pub cursor: Option<ThreadCursor>,
    pub limit: i64,
}

/// A thread with a draft in a folder of the role that the parameter names.
pub open spec fn drafted_in(param: Seq<char>) -> Seq<char> {
    "(EXISTS (SELECT 1 FROM messages m JOIN folders f ON f.id = m.folder_id WHERE m.thread_id = t.id AND m.is_draft = 1 AND f.role = "@
        + param
        + ") OR EXISTS ( SELECT 1 FROM messages m JOIN accounts ma ON ma.id = m.account_id AND ma.provider = 'gmail' JOIN message_folders mf ON mf.message_id = m.id JOIN folders f ON f.id = mf.folder_id WHERE m.thread_id = t.id AND m.is_draft = 1 AND f.role = "@
        + param + " ))"@
}

/// A thread with a message in the folder that the parameter names.
pub open spec fn in_folder(param: Seq<char>) -> Seq<char> {
    "EXISTS (SELECT 1 FROM messages m WHERE m.thread_id = t.id AND ( m.folder_id = "@ + param
        + " OR ( EXISTS (SELECT 1 FROM accounts ma WHERE ma.id = m.account_id AND ma.provider = 'gmail') AND EXISTS (SELECT 1 FROM message_folders mf WHERE mf.message_id = m.id AND mf.folder_id = "@
        + param + ") ) ))"@
}

/// A thread behind the cursor that the two parameters give.
pub open spec fn behind_cursor(moment: Seq<char>, id: Seq<char>) -> Seq<char> {
    "(t.last_message_at < "@ + moment + " OR (t.last_message_at = "@ + moment + " AND t.id < "@
        + id + "))"@
}

/// Important/Other follows the newest incoming message. Requiring every
/// historical message to have the same type made mixed threads match neither
/// tab (for example, an automated notification followed by a human reply).
pub open spec fn default_tab(automated: bool) -> Seq<char> {
    if automated {
        "(t.routed_tab = 'other' OR ((t.routed_tab IS NULL OR t.routed_tab = 'pending') AND ((SELECT m.is_automated FROM messages m WHERE m.thread_id = t.id AND m.is_draft = 0 AND m.is_outgoing = 0 ORDER BY m.date DESC, m.id DESC LIMIT 1) = 1)))"@
    } else {
        "(t.routed_tab = 'important' OR ((t.routed_tab IS NULL OR t.routed_tab = 'pending') AND ((SELECT m.is_automated FROM messages m WHERE m.thread_id = t.id AND m.is_draft = 0 AND m.is_outgoing = 0 ORDER BY m.date DESC, m.id DESC LIMIT 1) = 0)))"@
    }
}

impl Filter {
    /// Those with a message in a folder of a role.
    pub open spec fn role(self, role: Seq<char>) -> Filter {
        let bound = self.bind(Bound::Text(role));
        bound.and(crate::repo::counts::in_role(bound.param()))
    }

    /// Those that a view shows.
    pub open spec fn of_view(self, view: MailView) -> Filter {
        match view {
            MailView::Inbox => self.role("inbox"@).and("s.thread_id IS NULL"@),
            MailView::Starred => self.and("t.starred_count > 0"@),
            MailView::Snoozed => self.and("s.thread_id IS NOT NULL"@),
            MailView::Sent => self.role("sent"@),
            MailView::Drafts => {
                let bound = self.bind(Bound::Text("drafts"@));
                bound.and(drafted_in(bound.param()))
            },
            MailView::Done => {
                let archive = self.bind(Bound::Text("archive"@));
                let inbox = archive.bind(Bound::Text("inbox"@));
                inbox.and(crate::repo::counts::in_role(archive.param())).and(
                    "NOT "@ + crate::repo::counts::in_role(inbox.param()),
                )
            },
            MailView::Trash => self.role("trash"@),
            MailView::Spam => self.role("spam"@),
            MailView::All => self,
        }
    }

    /// Those of a tab.
    pub open spec fn tab(self, tab: Option<TabFilter>) -> Filter {
        match tab {
            Some(TabFilter::Important) => self.and(default_tab(false)),
            Some(TabFilter::Other) => self.and(default_tab(true)),
            Some(TabFilter::Split(id)) => self.routed(split_tab(id)),
            Some(TabFilter::AutoLabel(id)) => self.routed(label_tab(id)),
            Some(TabFilter::ManualLabel(id)) => self.label(id),
            None => self,
        }
    }

    /// Those of a folder, where one is asked for.
    pub open spec fn folder(self, folder_id: Option<i64>) -> Filter {
        match folder_id {
            Some(id) => {
                let bound = self.bind(Bound::Int(id));
                bound.and(in_folder(bound.param()))
            },
            None => self,
        }
    }

    /// Those behind a cursor, where one is given.
    pub open spec fn after(self, cursor: Option<ThreadCursor>) -> Filter {
        match cursor {
            Some(c) => {
                let moment = self.bind(Bound::Int(c.last_message_at));
                let both = moment.bind(Bound::Int(c.thread_id));
                both.and(behind_cursor(moment.param(), both.param()))
            },
            None => self,
        }
    }
}

/// The conditions of a list.
pub open spec fn filter_of(args: ListArgs, include_cursor: bool) -> Filter {
    let shown = Filter::all().of_view(args.view).of_account(args.account_id).tab(args.tab).folder(
        args.folder_id,
    );
    if include_cursor {
        shown.after(args.cursor)
    } else {
        shown
    }
}

impl Conditions {
    fn role(&mut self, role: &str)
        ensures
            final(self)@ == old(self)@.role(role@),
    {
        let param = self.bind(Bind::Text(lit(role)));
        self.and(role_clause(param.as_str()));
    }

    fn view_clauses(&mut self, view: MailView)
        ensures
            final(self)@ == old(self)@.of_view(view),
    {
        match view {
            MailView::Inbox => {
                self.role("inbox");
                self.and(lit("s.thread_id IS NULL"));
            },
            MailView::Starred => self.and(lit("t.starred_count > 0")),
            MailView::Snoozed => self.and(lit("s.thread_id IS NOT NULL")),
            MailView::Sent => self.role("sent"),
            MailView::Drafts => {
                let param = self.bind(Bind::Text(lit("drafts")));
                self.and(
                    lit(
                        "(EXISTS (SELECT 1 FROM messages m JOIN folders f ON f.id = m.folder_id WHERE m.thread_id = t.id AND m.is_draft = 1 AND f.role = ",
                    ).concat(param.as_str()).concat(
                        ") OR EXISTS ( SELECT 1 FROM messages m JOIN accounts ma ON ma.id = m.account_id AND ma.provider = 'gmail' JOIN message_folders mf ON mf.message_id = m.id JOIN folders f ON f.id = mf.folder_id WHERE m.thread_id = t.id AND m.is_draft = 1 AND f.role = ",
                    ).concat(param.as_str()).concat(" ))"),
                );
            },
            MailView::Done => {
                let archive = self.bind(Bind::Text(lit("archive")));
                let inbox = self.bind(Bind::Text(lit("inbox")));
                self.and(role_clause(archive.as_str()));
                let shown = role_clause(inbox.as_str());
                self.and(lit("NOT ").concat(shown.as_str()));
            },
            MailView::Trash => self.role("trash"),
            MailView::Spam => self.role("spam"),
            MailView::All => {},
        }
    }

    fn tab_clauses(self, tab: Option<TabFilter>) -> (r: Conditions)
        ensures
            r@ == self@.tab(tab),
    {
        match tab {
            Some(TabFilter::Important) => self.clause(
                "(t.routed_tab = 'important' OR ((t.routed_tab IS NULL OR t.routed_tab = 'pending') AND ((SELECT m.is_automated FROM messages m WHERE m.thread_id = t.id AND m.is_draft = 0 AND m.is_outgoing = 0 ORDER BY m.date DESC, m.id DESC LIMIT 1) = 0)))",
            ),
            Some(TabFilter::Other) => self.clause(
                "(t.routed_tab = 'other' OR ((t.routed_tab IS NULL OR t.routed_tab = 'pending') AND ((SELECT m.is_automated FROM messages m WHERE m.thread_id = t.id AND m.is_draft = 0 AND m.is_outgoing = 0 ORDER BY m.date DESC, m.id DESC LIMIT 1) = 1)))",
            ),
            Some(TabFilter::Split(id)) => self.routed_split(id),
            Some(TabFilter::AutoLabel(id)) => self.routed_label(id),
            Some(TabFilter::ManualLabel(id)) => self.label(id),
            None => self,
        }
    }
}

/// The conditions of a list, with those of its cursor or without.
pub fn build_filter(args: &ListArgs, include_cursor: bool) -> (r: Conditions)
    ensures
        r@ == filter_of(*args, include_cursor),
        asks_for(
            r@,
            |db: Database, s: Scope|
                lists_thread(*args, db, s.row("t"@), s.row("s"@)) && (include_cursor && args.cursor
                    is Some ==> row_is_behind(s.row("t"@), args.cursor->0)),
        ),
{
    proof {
        lists_show_their_threads(*args, include_cursor);
    }
    let mut q = Conditions::new();
    q.view_clauses(args.view);
    match args.account_id {
        Some(id) => {
            let param = q.bind(Bind::Int(id));
            q.and(lit("t.account_id = ").concat(param.as_str()));
        },
        None => {},
    }
    let mut q = q.tab_clauses(args.tab);
    match args.folder_id {
        Some(id) => {
            let param = q.bind(Bind::Int(id));
            q.and(
                lit(
                    "EXISTS (SELECT 1 FROM messages m WHERE m.thread_id = t.id AND ( m.folder_id = ",
                ).concat(param.as_str()).concat(
                    " OR ( EXISTS (SELECT 1 FROM accounts ma WHERE ma.id = m.account_id AND ma.provider = 'gmail') AND EXISTS (SELECT 1 FROM message_folders mf WHERE mf.message_id = m.id AND mf.folder_id = ",
                ).concat(param.as_str()).concat(") ) ))"),
            );
        },
        None => {},
    }
    if include_cursor {
        match args.cursor {
            Some(cursor) => {
                let moment = q.bind(Bind::Int(cursor.last_message_at));
                let id = q.bind(Bind::Int(cursor.thread_id));
                q.and(
                    lit("(t.last_message_at < ").concat(moment.as_str()).concat(
                        " OR (t.last_message_at = ",
                    ).concat(moment.as_str()).concat(" AND t.id < ").concat(id.as_str()).concat(
                        "))",
                    ),
                );
            },
            None => {},
        }
    }
    q
}

/// What every summary reads of a thread.
pub open spec fn summary_select() -> Seq<char> {
    "SELECT t.id, t.account_id, a.email AS account_email, (SELECT COALESCE(m.local_subject_prefix, '') || m.subject FROM messages m WHERE m.thread_id = t.id ORDER BY m.date DESC LIMIT 1) AS subject, t.snippet, t.participants_json, t.last_message_at, t.message_count, t.unread_count, t.starred_count, t.attachment_count, EXISTS ( SELECT 1 FROM messages reply JOIN message_refs mr ON mr.message_id = reply.id WHERE reply.thread_id = t.id AND reply.is_outgoing = 1 AND reply.is_draft = 0 ) AS has_replied, s.wake_at AS snoozed_until, (SELECT group_concat(DISTINCT ml.label_id) FROM message_labels ml JOIN messages ml_m ON ml_m.id = ml.message_id WHERE ml_m.thread_id = t.id) AS label_ids FROM threads t JOIN accounts a ON a.id = t.account_id LEFT JOIN snoozes s ON s.thread_id = t.id"@
}

fn select_summary() -> (r: &'static str)
    ensures
        r@ == summary_select(),
{
    "SELECT t.id, t.account_id, a.email AS account_email, (SELECT COALESCE(m.local_subject_prefix, '') || m.subject FROM messages m WHERE m.thread_id = t.id ORDER BY m.date DESC LIMIT 1) AS subject, t.snippet, t.participants_json, t.last_message_at, t.message_count, t.unread_count, t.starred_count, t.attachment_count, EXISTS ( SELECT 1 FROM messages reply JOIN message_refs mr ON mr.message_id = reply.id WHERE reply.thread_id = t.id AND reply.is_outgoing = 1 AND reply.is_draft = 0 ) AS has_replied, s.wake_at AS snoozed_until, (SELECT group_concat(DISTINCT ml.label_id) FROM message_labels ml JOIN messages ml_m ON ml_m.id = ml.message_id WHERE ml_m.thread_id = t.id) AS label_ids FROM threads t JOIN accounts a ON a.id = t.account_id LEFT JOIN snoozes s ON s.thread_id = t.id"
}

/// The query of one summary, by its first parameter.
pub fn summary_query() -> (r: String)
    ensures
        r@ == summary_select() + " WHERE t.id = ?1"@,
{
    lit(select_summary()).concat(" WHERE t.id = ?1")
}

/// The query of many summaries, with a parameter for each.
pub fn summaries_query(count: usize) -> (r: String)
    requires
        count < usize::MAX,
    ensures
        r@ == summary_select() + " WHERE t.id IN ("@ + crate::repo::sql::parameters(count as int)
            + ")"@,
{
    let placeholders = crate::repo::sql::numbered_parameters(count);
    lit(select_summary()).concat(" WHERE t.id IN (").concat(placeholders.as_str()).concat(")")
}

/// The query of a list, newest first. It asks for one thread more than the page holds, so that
/// the page knows whether another follows.
pub fn list_query(args: &ListArgs) -> (r: String)
    requires
        args.limit < i64::MAX,
    ensures
        r@ == summary_select() + " "@ + filter_of(*args, true).behind("WHERE "@)
            + " ORDER BY t.last_message_at DESC, t.id DESC LIMIT "@ + signed_decimal(
            args.limit + 1,
        ),
{
    let q = build_filter(args, true);
    let filter = q.behind("WHERE ");
    let limit = i64_text(args.limit + 1);
    lit(select_summary()).concat(" ").concat(filter.as_str()).concat(
        " ORDER BY t.last_message_at DESC, t.id DESC LIMIT ",
    ).concat(limit.as_str())
}

/// The query that counts the exact result set represented by `ListArgs` without materializing
/// thread summaries or walking cursor pages. Keeping this on the same filter
/// builder as the list prevents sidebar totals from drifting from list contents.
pub fn count_query(args: &ListArgs) -> (r: String)
    ensures
        r@
            == "SELECT COUNT(*) FROM threads t JOIN accounts a ON a.id = t.account_id LEFT JOIN snoozes s ON s.thread_id = t.id "@
            + filter_of(*args, false).behind("WHERE "@),
{
    let q = build_filter(args, false);
    let filter = q.behind("WHERE ");
    lit(
        "SELECT COUNT(*) FROM threads t JOIN accounts a ON a.id = t.account_id LEFT JOIN snoozes s ON s.thread_id = t.id ",
    ).concat(filter.as_str())
}

/// A count as the query reports it.
pub open spec fn counted(reported: i64) -> int {
    if reported > 0 {
        reported as int
    } else {
        0
    }
}

/// A count as the query reports it.
pub fn count(reported: i64) -> (r: usize)
    requires
        reported <= usize::MAX,
    ensures
        r == counted(reported),
{
    if reported > 0 {
        reported as usize
    } else {
        0
    }
}

/// A page of threads.
#[derive(Debug)]
pub struct ThreadPage {
    pub threads: Vec<ThreadSummary>,
    pub next_cursor: Option<ThreadCursor>,
}

/// Where a list that ends with this thread goes on.
pub open spec fn cursor_of(t: ThreadSummary) -> ThreadCursor {
    ThreadCursor { last_message_at: t.last_message_at, thread_id: t.id }
}

/// The threads that a page shows of those that were read.
pub open spec fn shown(rows: Seq<ThreadSummary>, limit: i64) -> Seq<ThreadSummary> {
    if 0 <= limit < rows.len() {
        rows.take(limit as int)
    } else {
        rows
    }
}

/// Where a page ends, where more follows.
pub open spec fn page_end(rows: Seq<ThreadSummary>, limit: i64) -> Option<ThreadCursor> {
    if rows.len() > limit && shown(rows, limit).len() > 0 {
        Some(cursor_of(shown(rows, limit).last()))
    } else {
        None
    }
}

/// Whether a page is what is made of the threads that were read.
pub open spec fn is_page(rows: Seq<ThreadSummary>, limit: i64, page: ThreadPage) -> bool {
    page.threads@ == shown(rows, limit) && page.next_cursor == page_end(rows, limit)
}

/// Make a page of the threads that were read.
pub fn page(rows: Vec<ThreadSummary>, limit: i64) -> (r: ThreadPage)
    ensures
        is_page(rows@, limit, r),
{
    let mut threads = rows;
    let more = if limit < 0 {
        true
    } else {
        threads.len() as u64 > limit as u64
    };
    if !more {
        return ThreadPage { threads, next_cursor: None };
    }
    if limit >= 0 {
        threads.truncate(limit as usize);
    }
    let n: usize = threads.len();
    let next_cursor = if n > 0 {
        let last = &threads[n - 1];
        Some(ThreadCursor { last_message_at: last.last_message_at, thread_id: last.id })
    } else {
        None
    };
    ThreadPage { threads, next_cursor }
}

/// Whether a thread comes behind a cursor, newest first.
pub open spec fn is_behind(t: ThreadSummary, c: ThreadCursor) -> bool {
    t.last_message_at < c.last_message_at || (t.last_message_at == c.last_message_at && t.id
        < c.thread_id)
}

/// Whether threads stand in the order in which they are listed: newest first.
pub open spec fn threads_in_order(all: Seq<ThreadSummary>) -> bool {
    forall|i: int, j: int|
        0 <= i < j < all.len() ==> is_behind(#[trigger] all[j], cursor_of(#[trigger] all[i]))
}

/// What is read for a page: those behind the cursor, one more than the page holds.
pub open spec fn threads_read(
    all: Seq<ThreadSummary>,
    cursor: Option<ThreadCursor>,
    limit: i64,
) -> Seq<ThreadSummary> {
    let behind = match cursor {
        Some(c) => all.filter(|t: ThreadSummary| is_behind(t, c)),
        None => all,
    };
    if behind.len() > limit {
        behind.take(limit + 1)
    } else {
        behind
    }
}

/// Whether pages are those of one walk through the threads: each is read behind the end of the one
/// before, and the last says that nothing follows.
pub open spec fn is_walk(all: Seq<ThreadSummary>, limit: i64, pages: Seq<ThreadPage>) -> bool {
    &&& pages.len() > 0
    &&& is_page(threads_read(all, None, limit), limit, pages[0])
    &&& forall|i: int|
        0 < i < pages.len() ==> pages[i - 1].next_cursor is Some && is_page(
            threads_read(all, pages[i - 1].next_cursor, limit),
            limit,
            #[trigger] pages[i],
        )
    &&& pages.last().next_cursor is None
}

/// The threads of pages, one page behind the other.
pub open spec fn threads_shown(pages: Seq<ThreadPage>) -> Seq<ThreadSummary>
    decreases pages.len(),
{
    if pages.len() == 0 {
        Seq::empty()
    } else {
        threads_shown(pages.drop_last()) + pages.last().threads@
    }
}

/// What stands behind a thread is what follows it.
proof fn behind_a_thread(all: Seq<ThreadSummary>, n: int)
    requires
        threads_in_order(all),
        0 < n <= all.len(),
    ensures
        all.filter(|t: ThreadSummary| is_behind(t, cursor_of(all[n - 1]))) == all.skip(n),
{
    let end = cursor_of(all[n - 1]);
    let p = |t: ThreadSummary| is_behind(t, end);
    assert forall|i: int| 0 <= i < n implies !p(#[trigger] all[i]) by {
        if i < n - 1 {
            assert(is_behind(all[n - 1], cursor_of(all[i])));
        }
    }
    assert forall|i: int| n <= i < all.len() implies p(#[trigger] all[i]) by {
        assert(is_behind(all[i], cursor_of(all[n - 1])));
    }
    crate::sorting::filter_keeps_tail(all, p, n);
}

/// A page that is read from a place of the list on goes on from there.
proof fn page_goes_on(all: Seq<ThreadSummary>, m: int, limit: i64, page: ThreadPage)
    requires
        0 <= m <= all.len(),
        limit > 0,
        is_page(threads_read(all.skip(m), None, limit), limit, page),
    ensures
        ({
            let end = m + page.threads@.len();
            &&& end <= all.len()
            &&& all.take(m) + page.threads@ == all.take(end)
            &&& match page.next_cursor {
                Some(c) => m < end < all.len() && c == cursor_of(all[end - 1])
                    && page.threads@.len() == limit,
                None => end == all.len() && page.threads@.len() <= limit,
            }
        }),
{
    let rest = all.skip(m);
    let rows = threads_read(rest, None, limit);
    if rest.len() > limit {
        assert(rows =~= rest.take(limit + 1));
        assert(page.threads@ =~= all.subrange(m, m + limit));
        assert(all.take(m) + page.threads@ =~= all.take(m + limit));
    } else {
        assert(rows == rest);
        assert(all.take(m) + page.threads@ =~= all.take(all.len() as int));
    }
}

/// After any number of pages, what was shown is where the list begins, and the walk goes on right
/// behind it.
proof fn walk_shows_a_beginning(
    all: Seq<ThreadSummary>,
    limit: i64,
    pages: Seq<ThreadPage>,
    k: int,
)
    requires
        threads_in_order(all),
        limit > 0,
        is_walk(all, limit, pages),
        0 < k <= pages.len(),
    ensures
        ({
            let shown = threads_shown(pages.take(k));
            &&& shown.len() <= all.len()
            &&& shown == all.take(shown.len() as int)
            &&& match pages[k - 1].next_cursor {
                Some(end) => 0 < shown.len() < all.len() && end == cursor_of(all[shown.len() - 1])
                    && pages[k - 1].threads@.len() == limit,
                None => shown.len() == all.len() && pages[k - 1].threads@.len() <= limit,
            }
        }),
    decreases k,
{
    let now = pages.take(k);
    assert(now.last() == pages[k - 1]);
    assert(now.drop_last() =~= pages.take(k - 1));
    let before = threads_shown(pages.take(k - 1));
    let m = before.len() as int;
    if k == 1 {
        assert(pages.take(0) =~= Seq::<ThreadPage>::empty());
        assert(before =~= all.take(0));
        assert(all.skip(0) =~= all);
    } else {
        walk_shows_a_beginning(all, limit, pages, k - 1);
        assert(is_page(
            threads_read(all, pages[k - 2].next_cursor, limit),
            limit,
            pages[k - 1],
        ));
        behind_a_thread(all, m);
        assert(threads_read(all, pages[k - 2].next_cursor, limit) == threads_read(
            all.skip(m),
            None,
            limit,
        ));
    }
    page_goes_on(all, m, limit, pages[k - 1]);
}

/// Pages miss no thread and show none twice, not even among threads of the same moment: the pages
/// of a walk, one behind the other, are the list itself, and together they show as many threads as
/// are counted of it. Every page but the last is full, and the last holds no more than a page does.
pub proof fn pages_miss_no_thread(
    all: Seq<ThreadSummary>,
    limit: i64,
    pages: Seq<ThreadPage>,
    reported: i64,
)
    requires
        threads_in_order(all),
        limit > 0,
        is_walk(all, limit, pages),
        reported == all.len(),
    ensures
        threads_shown(pages) == all,
        threads_shown(pages).len() == counted(reported),
        forall|i: int|
            0 <= i < pages.len() - 1 ==> (#[trigger] pages[i]).threads@.len() == limit,
        pages.last().threads@.len() <= limit,
{
    assert(pages.take(pages.len() as int) =~= pages);
    walk_shows_a_beginning(all, limit, pages, pages.len() as int);
    assert(all.take(all.len() as int) =~= all);
    assert forall|i: int| 0 <= i < pages.len() - 1 implies (#[trigger] pages[i]).threads@.len()
        == limit by {
        walk_shows_a_beginning(all, limit, pages, i + 1);
        assert(is_page(threads_read(all, pages[i].next_cursor, limit), limit, pages[i + 1]));
    }
}

/// What is counted is the whole list, wherever a page of it begins and however many it holds.
pub proof fn counts_ignore_the_page(args: ListArgs, cursor: Option<ThreadCursor>, limit: i64)
    ensures
        filter_of((ListArgs { cursor, limit, ..args }), false) == filter_of(args, false),
        filter_of(args, true) == filter_of(args, false).after(args.cursor),
{
}

/// The place of the last thread with that id among those that were read.
pub open spec fn row_with(rows: Seq<ThreadSummary>, id: i64) -> Option<int>
    decreases rows.len(),
{
    if rows.len() == 0 {
        None
    } else if rows.last().id == id {
        Some(rows.len() - 1)
    } else {
        row_with(rows.drop_last(), id)
    }
}

/// The places of the threads in the order in which they were asked for, each once; those that
/// were not read are skipped.
pub open spec fn hydrated(ids: Seq<i64>, rows: Seq<ThreadSummary>) -> Seq<int>
    decreases ids.len(),
{
    if ids.len() == 0 {
        Seq::empty()
    } else {
        let before = hydrated(ids.drop_last(), rows);
        match row_with(rows, ids.last()) {
            Some(k) => if ids.drop_last().contains(ids.last()) {
                before
            } else {
                before.push(k)
            },
            None => before,
        }
    }
}

proof fn row_with_finds(rows: Seq<ThreadSummary>, id: i64)
    ensures
        match row_with(rows, id) {
            Some(k) => 0 <= k < rows.len() && rows[k].id == id,
            None => forall|k: int| 0 <= k < rows.len() ==> (#[trigger] rows[k]).id != id,
        },
    decreases rows.len(),
{
    if rows.len() > 0 && rows.last().id != id {
        let head = rows.drop_last();
        row_with_finds(head, id);
        if row_with(head, id) is None {
            assert forall|k: int| 0 <= k < rows.len() implies (#[trigger] rows[k]).id != id by {
                if k < head.len() {
                    assert(head[k].id != id);
                }
            }
        }
    }
}

fn find_row(keys: &Vec<i64>, id: i64, Ghost(all): Ghost<Seq<ThreadSummary>>) -> (r: Option<usize>)
    requires
        keys@ == all.map_values(|t: ThreadSummary| t.id),
    ensures
        match r {
            Some(k) => row_with(all, id) == Some(k as int) && k < all.len(),
            None => row_with(all, id) is None,
        },
{
    let mut i: usize = keys.len();
    proof {
        assert(all.take(i as int) =~= all);
    }
    while i > 0
        invariant
            i <= keys@.len(),
            keys@ == all.map_values(|t: ThreadSummary| t.id),
            row_with(all, id) == row_with(all.take(i as int), id),
        decreases i,
    {
        i = i - 1;
        proof {
            assert(all.take(i + 1).drop_last() =~= all.take(i as int));
            assert(all.take(i + 1).last() == all[i as int]);
        }
        if keys[i] == id {
            return Some(i);
        }
    }
    None
}

/// Summaries for many threads, returned in `thread_ids` order.
/// Ids that no longer exist are silently skipped.
pub fn get_summaries(thread_ids: &Vec<i64>, rows: Vec<ThreadSummary>) -> (r: Vec<ThreadSummary>)
    ensures
        r@ == hydrated(thread_ids@, rows@).map_values(|k: int| rows@[k]),
{
    let ghost all = rows@;
    let mut keys: Vec<i64> = Vec::new();
    let mut slots: Vec<Option<ThreadSummary>> = Vec::new();
    for t in it: rows
        invariant
            it.seq() == all,
            keys@.len() == it.index(),
            slots@.len() == it.index(),
            forall|k: int| 0 <= k < it.index() ==> #[trigger] keys@[k] == all[k].id,
            forall|k: int| 0 <= k < it.index() ==> #[trigger] slots@[k] == Some(all[k]),
    {
        keys.push(t.id);
        slots.push(Some(t));
    }
    proof {
        assert(keys@ =~= all.map_values(|t: ThreadSummary| t.id));
        assert(thread_ids@.take(0) =~= Seq::<i64>::empty());
    }
    let mut out: Vec<ThreadSummary> = Vec::new();
    let mut i: usize = 0;
    while i < thread_ids.len()
        invariant
            i <= thread_ids.len(),
            keys@ == all.map_values(|t: ThreadSummary| t.id),
            slots@.len() == all.len(),
            forall|k: int|
                0 <= k < all.len() ==> #[trigger] slots@[k] == Some(all[k]) || thread_ids@.take(
                    i as int,
                ).contains(all[k].id),
            out@ == hydrated(thread_ids@.take(i as int), all).map_values(|k: int| all[k]),
        decreases thread_ids.len() - i,
    {
        let id: i64 = thread_ids[i];
        let ghost done = thread_ids@.take(i as int);
        let ghost next = thread_ids@.take(i + 1);
        proof {
            assert(next.drop_last() =~= done);
            assert(next.last() == id);
            row_with_finds(all, id);
        }
        let mut seen = false;
        let mut j: usize = 0;
        while j < i
            invariant
                j <= i < thread_ids.len(),
                done == thread_ids@.take(i as int),
                seen == done.take(j as int).contains(id),
            decreases i - j,
        {
            proof {
                assert(done.take(j + 1) =~= done.take(j as int).push(done[j as int]));
                assert(done.take(j + 1)[j as int] == done[j as int]);
                assert(forall|x: int| 0 <= x < j ==> done.take(j + 1)[x] == done.take(j as int)[x]);
            }
            if thread_ids[j] == id {
                seen = true;
            }
            j = j + 1;
        }
        proof {
            assert(done.take(i as int) =~= done);
        }
        if !seen {
            match find_row(&keys, id, Ghost(all)) {
                Some(k) => {
                    let taken = slots[k].take();
                    match taken {
                        Some(t) => out.push(t),
                        None => {},
                    }
                },
                None => {},
            }
        }
        proof {
            assert forall|k: int| 0 <= k < all.len() implies #[trigger] slots@[k] == Some(all[k])
                || next.contains(all[k].id) by {
                if done.contains(all[k].id) {
                    let x = choose|x: int| 0 <= x < done.len() && done[x] == all[k].id;
                    assert(next[x] == all[k].id);
                }
                assert(next[i as int] == id);
            }
            assert(out@ =~= hydrated(next, all).map_values(|k: int| all[k]));
        }
        i = i + 1;
    }
    proof {
        assert(thread_ids@.take(thread_ids@.len() as int) =~= thread_ids@);
    }
    out
}

/// Ranked threads come back in the order of their ranks: of ids that are all different, those
/// whose thread is still there, in order.
pub proof fn hydrating_preserves_ranking(ids: Seq<i64>, rows: Seq<ThreadSummary>)
    requires
        ids.no_duplicates(),
    ensures
        hydrated(ids, rows).map_values(|k: int| rows[k].id) == ids.filter(
            |id: i64| row_with(rows, id) is Some,
        ),
        forall|id: i64|
            #[trigger] row_with(rows, id) is Some <==> exists|k: int|
                0 <= k < rows.len() && (#[trigger] rows[k]).id == id,
    decreases ids.len(),
{
    assert forall|id: i64|
        #[trigger] row_with(rows, id) is Some <==> exists|k: int|
            0 <= k < rows.len() && (#[trigger] rows[k]).id == id by {
        row_with_finds(rows, id);
    }
    let p = |id: i64| row_with(rows, id) is Some;
    reveal(Seq::filter);
    if ids.len() > 0 {
        let head = ids.drop_last();
        assert(head.no_duplicates());
        hydrating_preserves_ranking(head, rows);
        row_with_finds(rows, ids.last());
        assert(!head.contains(ids.last())) by {
            if head.contains(ids.last()) {
                let x = choose|x: int| 0 <= x < head.len() && head[x] == ids.last();
                assert(ids[x] == ids[ids.len() - 1]);
            }
        }
        assert(hydrated(ids, rows).map_values(|k: int| rows[k].id) =~= ids.filter(p));
    } else {
        assert(hydrated(ids, rows).map_values(|k: int| rows[k].id) =~= ids.filter(p));
    }
}

/// The next step of finding the thread of a message by what it refers to.
#[derive(Debug, Clone, Copy, PartialEq, Eq, Structural)]
pub enum ReferenceStep {
    /// Look for the thread of the message that this reference names.
    Named(usize),
    /// Look for the thread of a message that itself refers to what this reference names.
    Sibling(usize),
    /// The message belongs to that thread, or to none that is known.
    Found(Option<i64>),
}

/// Begin to look for a thread by references.
pub fn by_references(refs: usize) -> (r: ReferenceStep)
    ensures
        r == (if refs > 0 {
            ReferenceStep::Named(0)
        } else {
            ReferenceStep::Found(None)
        }),
{
    if refs > 0 {
        ReferenceStep::Named(0)
    } else {
        ReferenceStep::Found(None)
    }
}

impl ReferenceStep {
    /// The step behind one that found `hit`.
    pub open spec fn after(self, hit: Option<i64>, refs: usize) -> ReferenceStep {
        if self is Found {
            self
        } else if hit is Some {
            ReferenceStep::Found(hit)
        } else {
            match self {
                ReferenceStep::Named(i) => ReferenceStep::Sibling(i),
                ReferenceStep::Sibling(i) => if i + 1 < refs {
                    ReferenceStep::Named((i + 1) as usize)
                } else {
                    ReferenceStep::Found(None)
                },
                ReferenceStep::Found(_) => self,
            }
        }
    }

    /// Go on with what a step found.
    pub fn next(self, hit: Option<i64>, refs: usize) -> (r: ReferenceStep)
        ensures
            r == self.after(hit, refs),
    {
        match self {
            ReferenceStep::Found(_) => self,
            _ => {
                if hit.is_some() {
                    return ReferenceStep::Found(hit);
                }
                match self {
                    ReferenceStep::Named(i) => ReferenceStep::Sibling(i),
                    ReferenceStep::Sibling(i) => if i < refs && i < refs - 1 {
                        ReferenceStep::Named(i + 1)
                    } else {
                        ReferenceStep::Found(None)
                    },
                    ReferenceStep::Found(_) => self,
                }
            },
        }
    }
}

/// Whether a message may join a thread by its normalized subject alone: an empty one says nothing.
pub fn joins_by_subject(subject_norm: &str) -> (r: bool)
    ensures
        r == (subject_norm@.len() > 0),
{
    !subject_norm.is_empty()
}

/// What a thread's aggregates are made of.
#[derive(Debug)]
pub struct ThreadMessage {
    pub date: i64,
    pub is_read: bool,
    pub is_draft: bool,
    pub is_starred: bool,
    pub has_attachments: bool,
    pub snippet: String,
    pub from_name: Option<String>,
    pub from_addr: Option<String>,
}

/// Who wrote a message, and when.
#[derive(Debug)]
pub struct Sender {
    pub name: Option<String>,
    pub email: String,
    pub date: i64,
}

/// A thread's denormalized aggregates.
#[derive(Debug)]
pub struct ThreadAggregates {
    pub last_message_at: i64,
    pub message_count: usize,
    pub unread_count: usize,
    pub starred_count: usize,
    pub attachment_count: usize,
    pub snippet: String,
    pub participants: Vec<Sender>,
}

/// The place of the first message of the latest moment.
pub open spec fn newest(messages: Seq<ThreadMessage>) -> int
    decreases messages.len(),
{
    if messages.len() <= 1 {
        0
    } else {
        let k = newest(messages.drop_last());
        if messages.last().date > messages[k].date {
            messages.len() - 1
        } else {
            k
        }
    }
}

/// No message of a thread is later than its newest.
proof fn newest_is_the_latest(messages: Seq<ThreadMessage>)
    ensures
        messages.len() > 0 ==> 0 <= newest(messages) < messages.len(),
        forall|i: int|
            0 <= i < messages.len() ==> (#[trigger] messages[i]).date <= messages[newest(
                messages,
            )].date,
    decreases messages.len(),
{
    if messages.len() > 1 {
        let head = messages.drop_last();
        newest_is_the_latest(head);
        assert forall|i: int| 0 <= i < messages.len() implies (#[trigger] messages[i]).date
            <= messages[newest(messages)].date by {
            if i < head.len() {
                assert(head[i] == messages[i]);
            }
        }
    }
}

/// Who wrote the messages.
pub open spec fn senders(messages: Seq<ThreadMessage>) -> Seq<Sender>
    decreases messages.len(),
{
    if messages.len() == 0 {
        Seq::empty()
    } else {
        let before = senders(messages.drop_last());
        let m = messages.last();
        match m.from_addr {
            Some(email) => before.push(Sender { name: m.from_name, email, date: m.date }),
            None => before,
        }
    }
}

/// Whether an address stands among senders.
pub open spec fn wrote(list: Seq<Sender>, email: Seq<char>) -> bool {
    exists|i: int| 0 <= i < list.len() && same_ascii((#[trigger] list[i]).email@, email)
}

/// The first of each sender's messages.
pub open spec fn distinct(list: Seq<Sender>) -> Seq<Sender>
    decreases list.len(),
{
    if list.len() == 0 {
        Seq::empty()
    } else {
        let before = distinct(list.drop_last());
        if wrote(before, list.last().email@) {
            before
        } else {
            before.push(list.last())
        }
    }
}

/// Whether one message is later than another.
pub open spec fn later() -> spec_fn(Sender, Sender) -> bool {
    |a: Sender, b: Sender| a.date > b.date
}

/// The participants of a thread: distinct senders, most recent first, capped at 5.
pub open spec fn participants(messages: Seq<ThreadMessage>) -> Seq<Sender> {
    let all = distinct(sorted_by(senders(messages), later()));
    if all.len() > 5 {
        all.take(5)
    } else {
        all
    }
}

/// Unread messages of a thread; a draft never counts as unread.
pub open spec fn unread(m: ThreadMessage) -> bool {
    !m.is_read && !m.is_draft
}

fn copy_name(name: &Option<String>) -> (r: Option<String>)
    ensures
        r == *name,
{
    match name {
        Some(s) => Some(s.clone()),
        None => None,
    }
}

fn gather(messages: &Vec<ThreadMessage>) -> (r: Vec<Sender>)
    ensures
        r@ == senders(messages@),
{
    let mut out: Vec<Sender> = Vec::new();
    let mut i: usize = 0;
    proof {
        assert(messages@.take(0) =~= Seq::<ThreadMessage>::empty());
    }
    while i < messages.len()
        invariant
            i <= messages.len(),
            out@ == senders(messages@.take(i as int)),
        decreases messages.len() - i,
    {
        proof {
            assert(messages@.take(i + 1).drop_last() =~= messages@.take(i as int));
            assert(messages@.take(i + 1).last() == messages@[i as int]);
        }
        let m = &messages[i];
        match &m.from_addr {
            Some(email) => {
                out.push(
                    Sender { name: copy_name(&m.from_name), email: email.clone(), date: m.date },
                );
            },
            None => {},
        }
        i = i + 1;
    }
    proof {
        assert(messages@.take(messages@.len() as int) =~= messages@);
    }
    out
}

fn keep_distinct(list: Vec<Sender>) -> (r: Vec<Sender>)
    ensures
        r@ == distinct(list@),
{
    let ghost all = list@;
    let mut out: Vec<Sender> = Vec::new();
    proof {
        assert(all.take(0) =~= Seq::<Sender>::empty());
    }
    for x in it: list
        invariant
            it.seq() == all,
            out@ == distinct(all.take(it.index())),
    {
        proof {
            assert(all.take(it.index() + 1).drop_last() =~= all.take(it.index()));
            assert(all.take(it.index() + 1).last() == x);
        }
        let mut known = false;
        let mut j: usize = 0;
        while j < out.len()
            invariant
                j <= out.len(),
                known == exists|i: int|
                    0 <= i < j && same_ascii((#[trigger] out@[i]).email@, x.email@),
            decreases out.len() - j,
        {
            if is_same_ascii(out[j].email.as_str(), x.email.as_str()) {
                proof {
                    assert(same_ascii(out@[j as int].email@, x.email@));
                }
                known = true;
            }
            j = j + 1;
        }
        proof {
            assert(known == wrote(out@, x.email@));
        }
        if !known {
            out.push(x);
        }
    }
    proof {
        assert(all.take(all.len() as int) =~= all);
    }
    out
}

/// Recompute a thread's denormalized aggregates from its messages. A thread without messages is
/// no thread any more.
pub fn recompute(messages: &Vec<ThreadMessage>) -> (r: Option<ThreadAggregates>)
    ensures
        r is None <==> messages@.len() == 0,
        r matches Some(t) ==> {
            &&& t.last_message_at == messages@[newest(messages@)].date
            &&& t.message_count == messages@.len()
            &&& t.unread_count == messages@.filter(|m: ThreadMessage| unread(m)).len()
            &&& t.starred_count == messages@.filter(|m: ThreadMessage| m.is_starred).len()
            &&& t.attachment_count == messages@.filter(|m: ThreadMessage| m.has_attachments).len()
            &&& t.snippet == messages@[newest(messages@)].snippet
            &&& t.participants@ == participants(messages@)
        },
        r matches Some(t) ==> forall|i: int|
            0 <= i < messages@.len() ==> (#[trigger] messages@[i]).date <= t.last_message_at,
        r matches Some(t) ==> exists|i: int|
            0 <= i < messages@.len() && (#[trigger] messages@[i]).date == t.last_message_at
                && messages@[i].snippet == t.snippet,
        r matches Some(t) ==> t.unread_count == messages@.filter(
            |m: ThreadMessage| !m.is_read && !m.is_draft,
        ).len(),
{
    proof {
        newest_is_the_latest(messages@);
        let counted_unread = |m: ThreadMessage| unread(m);
        let said = |m: ThreadMessage| !m.is_read && !m.is_draft;
        assert(counted_unread =~= said);
    }
    if messages.len() == 0 {
        return None;
    }
    let ghost all = messages@;
    let ghost is_unread = |m: ThreadMessage| unread(m);
    let ghost starred = |m: ThreadMessage| m.is_starred;
    let ghost attached = |m: ThreadMessage| m.has_attachments;
    let mut latest: usize = 0;
    let mut unread_count: usize = 0;
    let mut starred_count: usize = 0;
    let mut attachment_count: usize = 0;
    let mut i: usize = 0;
    proof {
        assert(all.take(0) =~= Seq::<ThreadMessage>::empty());
        reveal(Seq::filter);
    }
    while i < messages.len()
        invariant
            i <= messages.len(),
            all == messages@,
            all.len() > 0,
            latest < all.len(),
            i > 0 ==> latest < i,
            latest == newest(all.take(i as int)),
            is_unread == (|m: ThreadMessage| unread(m)),
            starred == (|m: ThreadMessage| m.is_starred),
            attached == (|m: ThreadMessage| m.has_attachments),
            unread_count == all.take(i as int).filter(is_unread).len(),
            starred_count == all.take(i as int).filter(starred).len(),
            attachment_count == all.take(i as int).filter(attached).len(),
            unread_count <= i && starred_count <= i && attachment_count <= i,
        decreases messages.len() - i,
    {
        let m = &messages[i];
        proof {
            let next = all.take(i + 1);
            assert(next.drop_last() =~= all.take(i as int));
            assert(next.last() == all[i as int]);
            assert(next =~= all.take(i as int).push(all[i as int]));
            crate::text::filter_push(all.take(i as int), all[i as int], is_unread);
            crate::text::filter_push(all.take(i as int), all[i as int], starred);
            crate::text::filter_push(all.take(i as int), all[i as int], attached);
            if i > 0 {
                assert(next[latest as int] == all[latest as int]);
            }
        }
        if i > 0 && m.date > messages[latest].date {
            latest = i;
        }
        if !m.is_read && !m.is_draft {
            unread_count = unread_count + 1;
        }
        if m.is_starred {
            starred_count = starred_count + 1;
        }
        if m.has_attachments {
            attachment_count = attachment_count + 1;
        }
        i = i + 1;
    }
    proof {
        assert(all.take(all.len() as int) =~= all);
    }
    let order = |a: &Sender, b: &Sender| -> (r: bool)
        ensures
            r == (a.date > b.date),
        { a.date > b.date };
    let sorted = sort_list(gather(messages), order, Ghost(later()));
    let mut participants = keep_distinct(sorted);
    if participants.len() > 5 {
        participants.truncate(5);
    }
    Some(
        ThreadAggregates {
            last_message_at: messages[latest].date,
            message_count: messages.len(),
            unread_count,
            starred_count,
            attachment_count,
            snippet: messages[latest].snippet.clone(),
            participants,
        },
    )
}

proof fn distinct_was_there(list: Seq<Sender>)
    ensures
        forall|i: int| 0 <= i < distinct(list).len() ==> list.contains(#[trigger] distinct(list)[i]),
    decreases list.len(),
{
    if list.len() > 0 {
        let head = list.drop_last();
        distinct_was_there(head);
        assert forall|i: int| 0 <= i < distinct(list).len() implies list.contains(
            #[trigger] distinct(list)[i],
        ) by {
            if i < distinct(head).len() {
                assert(distinct(list)[i] == distinct(head)[i]);
                assert(head.contains(distinct(head)[i]));
                let k = choose|k: int| 0 <= k < head.len() && head[k] == distinct(head)[i];
                assert(list[k] == distinct(list)[i]);
            } else {
                assert(list[list.len() - 1] == distinct(list)[i]);
            }
        }
    }
}

proof fn distinct_keeps_order(list: Seq<Sender>)
    requires
        in_order(list, later()),
    ensures
        forall|i: int, j: int|
            0 <= i < j < distinct(list).len() ==> (#[trigger] distinct(list)[i]).date >= (
            #[trigger] distinct(list)[j]).date && !same_ascii(
                distinct(list)[i].email@,
                distinct(list)[j].email@,
            ),
    decreases list.len(),
{
    if list.len() > 0 {
        let head = list.drop_last();
        assert(in_order(head, later())) by {
            assert forall|i: int, j: int| 0 <= i < j < head.len() implies !later()(
                #[trigger] head[j],
                #[trigger] head[i],
            ) by {
                assert(!later()(list[j], list[i]));
            }
        }
        distinct_keeps_order(head);
        distinct_was_there(head);
        let kept = distinct(list);
        assert forall|i: int, j: int| 0 <= i < j < kept.len() implies (#[trigger] kept[i]).date >= (
        #[trigger] kept[j]).date && !same_ascii(kept[i].email@, kept[j].email@) by {
            assert(kept[i] == distinct(head)[i]);
            if j < distinct(head).len() {
                assert(kept[j] == distinct(head)[j]);
            } else {
                assert(head.contains(distinct(head)[i]));
                let k = choose|k: int| 0 <= k < head.len() && head[k] == distinct(head)[i];
                assert(list[k] == kept[i]);
                assert(!later()(list[list.len() - 1], list[k]));
                assert(!wrote(distinct(head), list.last().email@));
            }
        }
    }
}

/// The participants of a thread are at most five, no address stands among them twice, and whoever
/// wrote more recently comes first.
pub proof fn participants_are_distinct_and_recent(messages: Seq<ThreadMessage>)
    ensures
        participants(messages).len() <= 5,
        forall|i: int, j: int|
            0 <= i < j < participants(messages).len() ==> (#[trigger] participants(
                messages,
            )[i]).date >= (#[trigger] participants(messages)[j]).date && !same_ascii(
                participants(messages)[i].email@,
                participants(messages)[j].email@,
            ),
{
    assert(orders(later()));
    sorting_orders_what_is_there(senders(messages), later());
    distinct_keeps_order(sorted_by(senders(messages), later()));
}

/// Whether someone wrote one of the messages, under that name and at that moment.
pub open spec fn is_writer(messages: Seq<ThreadMessage>, x: Sender) -> bool {
    exists|i: int|
        0 <= i < messages.len() && (#[trigger] messages[i]).from_addr == Some(x.email)
            && messages[i].from_name == x.name && messages[i].date == x.date
}

proof fn senders_wrote(messages: Seq<ThreadMessage>)
    ensures
        forall|x: Sender| #[trigger] senders(messages).contains(x) ==> is_writer(messages, x),
        forall|i: int|
            0 <= i < messages.len() && (#[trigger] messages[i]).from_addr is Some ==> wrote(
                senders(messages),
                messages[i].from_addr->0@,
            ),
    decreases messages.len(),
{
    if messages.len() > 0 {
        let head = messages.drop_last();
        let last = messages.len() - 1;
        senders_wrote(head);
        let all = senders(messages);
        let before = senders(head);
        assert forall|x: Sender| #[trigger] all.contains(x) implies is_writer(messages, x) by {
            let k = choose|k: int| 0 <= k < all.len() && all[k] == x;
            if k < before.len() {
                assert(before[k] == x);
                assert(before.contains(x));
                let i = choose|i: int|
                    0 <= i < head.len() && (#[trigger] head[i]).from_addr == Some(x.email)
                        && head[i].from_name == x.name && head[i].date == x.date;
                assert(messages[i] == head[i]);
            } else {
                assert(messages[last].from_addr == Some(x.email));
            }
        }
        assert forall|i: int| 0 <= i < messages.len() && (
        #[trigger] messages[i]).from_addr is Some implies wrote(
            all,
            messages[i].from_addr->0@,
        ) by {
            if i < head.len() {
                assert(head[i] == messages[i]);
                let email = head[i].from_addr->0@;
                let k = choose|k: int|
                    0 <= k < before.len() && same_ascii((#[trigger] before[k]).email@, email);
                assert(all[k] == before[k]);
            } else {
                assert(same_ascii(all[all.len() - 1].email@, messages[i].from_addr->0@));
            }
        }
    }
}

proof fn same_ascii_is_an_equivalence(a: Seq<char>, b: Seq<char>, c: Seq<char>)
    requires
        same_ascii(a, b),
        same_ascii(b, c),
    ensures
        same_ascii(a, c),
{
    assert forall|i: int| 0 <= i < a.len() implies crate::text::ascii_lower(#[trigger] a[i])
        == crate::text::ascii_lower(c[i]) by {
        assert(crate::text::ascii_lower(b[i]) == crate::text::ascii_lower(c[i]));
    }
}

proof fn distinct_keeps_everyone(list: Seq<Sender>, email: Seq<char>)
    requires
        wrote(list, email),
    ensures
        wrote(distinct(list), email),
    decreases list.len(),
{
    let k = choose|k: int| 0 <= k < list.len() && same_ascii((#[trigger] list[k]).email@, email);
    let head = list.drop_last();
    let before = distinct(head);
    let all = distinct(list);
    if k < head.len() {
        assert(same_ascii(head[k].email@, email));
        distinct_keeps_everyone(head, email);
        let j = choose|j: int|
            0 <= j < before.len() && same_ascii((#[trigger] before[j]).email@, email);
        assert(all[j] == before[j]);
    } else if wrote(before, list.last().email@) {
        let j = choose|j: int|
            0 <= j < before.len() && same_ascii((#[trigger] before[j]).email@, list.last().email@);
        same_ascii_is_an_equivalence(before[j].email@, list.last().email@, email);
        assert(same_ascii(all[j].email@, email));
    } else {
        assert(same_ascii(all[all.len() - 1].email@, email));
    }
}

/// The participants of a thread are people who wrote one of its messages, each with the name and the
/// moment of that message; where fewer than five are named, everyone who wrote is.
pub proof fn participants_wrote(messages: Seq<ThreadMessage>)
    ensures
        forall|x: Sender| #[trigger] participants(messages).contains(x) ==> is_writer(messages, x),
        participants(messages).len() < 5 ==> forall|i: int|
            0 <= i < messages.len() && (#[trigger] messages[i]).from_addr is Some ==> wrote(
                participants(messages),
                messages[i].from_addr->0@,
            ),
{
    assert(orders(later()));
    let all = senders(messages);
    let sorted = sorted_by(all, later());
    sorting_keeps_items(all, later());
    senders_wrote(messages);
    distinct_was_there(sorted);
    let out = participants(messages);
    assert forall|x: Sender| #[trigger] out.contains(x) implies is_writer(messages, x) by {
        let k = choose|k: int| 0 <= k < out.len() && out[k] == x;
        assert(x == distinct(sorted)[k]);
        assert(sorted.contains(x));
        assert(all.contains(x));
    }
    if out.len() < 5 {
        assert(out == distinct(sorted));
        assert forall|i: int| 0 <= i < messages.len() && (
        #[trigger] messages[i]).from_addr is Some implies wrote(
            out,
            messages[i].from_addr->0@,
        ) by {
            everyone_is_sorted(all, messages[i].from_addr->0@);
        }
    }
}

/// Whoever wrote is among those who are sorted and named once.
proof fn everyone_is_sorted(all: Seq<Sender>, email: Seq<char>)
    requires
        wrote(all, email),
    ensures
        wrote(distinct(sorted_by(all, later())), email),
{
    assert(orders(later()));
    let sorted = sorted_by(all, later());
    sorting_keeps_items(all, later());
    let k = choose|k: int| 0 <= k < all.len() && same_ascii((#[trigger] all[k]).email@, email);
    assert(all.contains(all[k]));
    assert(sorted.contains(all[k]));
    let j = choose|j: int| 0 <= j < sorted.len() && sorted[j] == all[k];
    assert(same_ascii(sorted[j].email@, email));
    distinct_keeps_everyone(sorted, email);
}

} // verus!
