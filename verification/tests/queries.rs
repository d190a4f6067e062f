//! The queries of the mail store, run against a small store of their own.

use flectar_mail_core::repo::contacts::{
    account_counts_query, account_ids, harvest, harvested, list_record_page, list_records,
    record_counts_query, record_page_query, record_query, records_query, save_record,
    saved_contact_predicate, suggest, Address,
    ContactRecord, ContactRecordCursor, ContactRecordPage, ContactRow, RecordQuery, ReportedCounts,
};
use flectar_mail_core::files::attachment_match_query;
use flectar_mail_core::repo::counts::unread_counts;
use flectar_mail_core::repo::labels::Label;
use flectar_mail_core::repo::messages::{list_sent_bodies, sent_query};
use flectar_mail_core::repo::search::{
    allowed_query, distinct_ids, structured_message_query, structured_thread_query, ParsedQuery,
};
use flectar_mail_core::repo::sql::{escape_like, Bind, Conditions};
use flectar_mail_core::repo::threads::{
    count_query, list_query, page, summaries_query, summary_from_row, summary_query, ListArgs,
    MailView, SummaryRow, TabFilter, ThreadPage, ThreadSummary,
};
use rusqlite::types::Value;
use rusqlite::Connection;

const SCHEMA: &str = "
CREATE TABLE accounts(id INTEGER PRIMARY KEY, email TEXT, provider TEXT DEFAULT 'imap');
CREATE TABLE folders(id INTEGER PRIMARY KEY, account_id INTEGER, role TEXT);
CREATE TABLE threads(id INTEGER PRIMARY KEY, account_id INTEGER, subject_norm TEXT DEFAULT '',
  unread_count INTEGER DEFAULT 0, starred_count INTEGER DEFAULT 0, attachment_count INTEGER DEFAULT 0,
  message_count INTEGER DEFAULT 1, snippet TEXT DEFAULT '', participants_json TEXT DEFAULT '[]',
  last_message_at INTEGER DEFAULT 0, routed_tab TEXT);
CREATE TABLE messages(id INTEGER PRIMARY KEY, thread_id INTEGER, account_id INTEGER DEFAULT 1,
  folder_id INTEGER DEFAULT 1, subject TEXT DEFAULT '', local_subject_prefix TEXT,
  from_name TEXT, from_addr TEXT, to_json TEXT DEFAULT '[]', date INTEGER DEFAULT 1000,
  is_read INTEGER DEFAULT 0, is_starred INTEGER DEFAULT 0, is_draft INTEGER DEFAULT 0,
  is_outgoing INTEGER DEFAULT 0, is_automated INTEGER DEFAULT 0, has_attachments INTEGER DEFAULT 0);
CREATE TABLE message_bodies(message_id INTEGER PRIMARY KEY, text_body TEXT);
CREATE TABLE message_refs(message_id INTEGER, ref_message_id TEXT);
CREATE TABLE message_labels(message_id INTEGER, label_id INTEGER);
CREATE TABLE message_folders(message_id INTEGER, folder_id INTEGER);
CREATE TABLE snoozes(thread_id INTEGER PRIMARY KEY, wake_at INTEGER);
CREATE VIRTUAL TABLE messages_fts USING fts5(subject, from_text, to_text, body);
CREATE TABLE contacts(id INTEGER PRIMARY KEY, email TEXT UNIQUE, name TEXT, folded TEXT,
  phone TEXT DEFAULT '', company TEXT DEFAULT '', job_title TEXT DEFAULT '', website TEXT DEFAULT '',
  birthday TEXT DEFAULT '', postal_address TEXT DEFAULT '', notes TEXT DEFAULT '',
  tags TEXT DEFAULT '', is_managed INTEGER DEFAULT 0, is_favorite INTEGER DEFAULT 0,
  send_count INTEGER DEFAULT 0, recv_count INTEGER DEFAULT 0, last_interacted INTEGER);
CREATE TABLE contact_accounts(contact_id INTEGER, account_id INTEGER, send_count INTEGER,
  recv_count INTEGER, last_interacted INTEGER);
CREATE TABLE carddav_objects(id INTEGER PRIMARY KEY, contact_id INTEGER, remote_exists INTEGER,
  deleted INTEGER);
INSERT INTO accounts(id, email) VALUES (1, 'me@test.dev');
INSERT INTO folders VALUES (1, 1, 'inbox');
";

fn store() -> Connection {
    let conn = Connection::open_in_memory().unwrap();
    conn.execute_batch(SCHEMA).unwrap();
    conn
}

fn run(conn: &Connection, sql: &str) {
    conn.execute_batch(sql).unwrap();
}

fn values(bind: &[Bind]) -> Vec<Value> {
    bind.iter()
        .map(|b| match b {
            Bind::Int(n) => Value::Integer(*n),
            Bind::Text(s) => Value::Text(s.clone()),
        })
        .collect()
}

fn ids(conn: &Connection, sql: &str, bind: &[Bind]) -> Vec<i64> {
    let mut stmt = conn.prepare(sql).unwrap();
    let rows = stmt
        .query_map(rusqlite::params_from_iter(values(bind)), |row| row.get(0))
        .unwrap();
    rows.map(|r| r.unwrap()).collect()
}

fn counted(conn: &Connection, q: &Conditions) -> i64 {
    ids(conn, &q.count_query(), &q.bind)[0]
}

/// A thread with one message in the inbox.
fn seed(conn: &Connection, id: i64, from: &str, subject: &str, unread: i64, automated: bool) {
    run(
        conn,
        &format!(
            "INSERT INTO threads(id, account_id, unread_count, last_message_at) VALUES ({id}, 1, {unread}, 1000);
             INSERT INTO messages(id, thread_id, from_addr, subject, is_automated) VALUES ({id}, {id}, '{from}', '{subject}', {});
             INSERT INTO messages_fts(rowid, subject, from_text, to_text, body) VALUES ({id}, '{subject}', '{from}', '', '');",
            automated as i64
        ),
    );
}

fn summaries(conn: &Connection, sql: &str, bind: &[Bind]) -> Vec<ThreadSummary> {
    let mut stmt = conn.prepare(sql).unwrap();
    let rows = stmt
        .query_map(rusqlite::params_from_iter(values(bind)), |row| {
            Ok(SummaryRow {
                id: row.get("id")?,
                account_id: row.get("account_id")?,
                account_email: row.get("account_email")?,
                subject: row.get("subject")?,
                snippet: row.get("snippet")?,
                participants: Vec::new(),
                last_message_at: row.get("last_message_at")?,
                message_count: row.get("message_count")?,
                unread_count: row.get("unread_count")?,
                starred_count: row.get("starred_count")?,
                attachment_count: row.get("attachment_count")?,
                has_replied: row.get("has_replied")?,
                snoozed_until: row.get("snoozed_until")?,
                label_ids: row.get("label_ids")?,
            })
        })
        .unwrap();
    rows.map(|r| summary_from_row(r.unwrap())).collect()
}

fn args(view: MailView) -> ListArgs {
    ListArgs { view, tab: None, account_id: None, folder_id: None, cursor: None, limit: 50 }
}

fn listed(conn: &Connection, args: &ListArgs) -> ThreadPage {
    let filter = flectar_mail_core::repo::threads::build_filter(args, true);
    page(summaries(conn, &list_query(args), &filter.bind), args.limit)
}

#[test]
fn partitions_important_and_other() {
    let conn = store();
    seed(&conn, 1, "a@b.c", "subj", 1, false); // unread human
    seed(&conn, 2, "a@b.c", "subj", 1, true); // unread automated
    seed(&conn, 3, "a@b.c", "subj", 0, true); // read automated
    let c = unread_counts(None, &Vec::new(), &Vec::new());
    assert_eq!(counted(&conn, &c.inbox), 2);
    assert_eq!(counted(&conn, &c.important), 1);
    assert_eq!(counted(&conn, &c.other), 1);
    assert_eq!(c.views[0].key, "starred");
    assert_eq!(counted(&conn, &c.views[0].query), 0);
    let none = unread_counts(Some(99), &Vec::new(), &Vec::new());
    assert_eq!(counted(&conn, &none.inbox), 0);
}

#[test]
fn mixed_threads_are_counted_by_the_newest_incoming_message() {
    let conn = store();
    seed(&conn, 1, "a@b.c", "subj", 1, false);
    run(&conn, "INSERT INTO messages(id, thread_id, date, is_automated) VALUES (101, 1, 2000, 1)");
    seed(&conn, 2, "a@b.c", "subj", 1, true);
    run(&conn, "INSERT INTO messages(id, thread_id, date, is_automated) VALUES (102, 2, 2000, 0)");
    let c = unread_counts(None, &Vec::new(), &Vec::new());
    assert_eq!(counted(&conn, &c.inbox), 2);
    assert_eq!(counted(&conn, &c.important), 1, "latest human reply belongs in Important");
    assert_eq!(counted(&conn, &c.other), 1, "latest automated reply belongs in Other");
}

#[test]
fn split_and_label_maps() {
    let conn = store();
    seed(&conn, 1, "a@b.c", "subj", 1, false);
    run(&conn, "INSERT INTO message_labels VALUES (1, 5)");
    run(&conn, "UPDATE threads SET routed_tab = 'split:7' WHERE id = 1");
    let label = |is_auto: bool| Label {
        id: 5,
        name: "L".to_owned(),
        color: "#fff".to_owned(),
        keyword: "KwL".to_owned(),
        position: 0,
        owner_account_id: None,
        is_auto,
    };
    let c = unread_counts(Some(1), &vec![7], &vec![label(false)]);
    assert_eq!((c.splits[0].key.as_str(), c.labels[0].key.as_str()), ("7", "5"));
    assert_eq!(counted(&conn, &c.splits[0].query), 1);
    assert_eq!(counted(&conn, &c.labels[0].query), 1);
    let auto = unread_counts(Some(1), &Vec::new(), &vec![label(true)]);
    assert_eq!(counted(&conn, &auto.labels[0].query), 0);
    run(&conn, "UPDATE threads SET routed_tab = 'label:5' WHERE id = 1");
    assert_eq!(counted(&conn, &auto.labels[0].query), 1);
}

#[test]
fn draft_badges_count_all_drafts() {
    let conn = store();
    run(
        &conn,
        "INSERT INTO folders VALUES (2, 1, 'drafts');
         INSERT INTO threads(id, account_id) VALUES (2, 1);
         INSERT INTO messages(thread_id, folder_id, is_draft, is_read) VALUES (2, 2, 1, 1);",
    );
    let c = unread_counts(Some(1), &Vec::new(), &Vec::new());
    assert_eq!(c.views[2].key, "drafts");
    assert_eq!(counted(&conn, &c.views[2].query), 1);
    assert_eq!(listed(&conn, &args(MailView::Drafts)).threads.len(), 1);
}

#[test]
fn summary_reports_only_sent_replies_as_replied() {
    let conn = store();
    seed(&conn, 1, "sender@example.com", "Update", 0, false);
    let one = || {
        let all = summaries(&conn, &summary_query(), &[Bind::Int(1)]);
        all.into_iter().next().unwrap()
    };
    assert!(!one().has_replied);
    let add = |id: i64, draft: i64, outgoing: i64, refers: bool| {
        run(
            &conn,
            &format!("INSERT INTO messages(id, thread_id, is_draft, is_outgoing) VALUES ({id}, 1, {draft}, {outgoing})"),
        );
        if refers {
            run(&conn, &format!("INSERT INTO message_refs VALUES ({id}, 'mid-1')"));
        }
    };
    add(2, 0, 0, true);
    assert!(!one().has_replied);
    add(3, 1, 1, true);
    assert!(!one().has_replied);
    add(4, 0, 1, false);
    assert!(!one().has_replied);
    add(5, 0, 1, true);
    assert!(one().has_replied);
    run(&conn, "INSERT INTO message_labels VALUES (1, 8), (2, 9)");
    let mut labels = one().labels;
    labels.sort();
    assert_eq!(labels, [8, 9]);
    assert_eq!(summaries(&conn, &summaries_query(2), &[Bind::Int(1), Bind::Int(7)]).len(), 1);
}

#[test]
fn scalar_count_matches_the_unpaginated_list_filter() {
    let conn = store();
    for (id, subject) in [(1, "one"), (2, "two"), (3, "three")] {
        seed(&conn, id, "sender@example.com", subject, 0, false);
    }
    let args = ListArgs {
        account_id: Some(1),
        folder_id: Some(1),
        limit: 2,
        ..args(MailView::Inbox)
    };
    let page = listed(&conn, &args);
    assert_eq!(page.threads.len(), 2);
    assert!(page.next_cursor.is_some());
    let filter = flectar_mail_core::repo::threads::build_filter(&args, false);
    assert_eq!(ids(&conn, &count_query(&args), &filter.bind), [3]);
}

#[test]
fn keyset_cursor_never_skips_threads_with_the_same_timestamp() {
    let conn = store();
    for (id, subject) in [(1, "one"), (2, "two"), (3, "three")] {
        seed(&conn, id, "sender@example.com", subject, 0, false);
    }
    let first = listed(&conn, &ListArgs { limit: 2, ..args(MailView::Inbox) });
    let second = listed(
        &conn,
        &ListArgs { limit: 2, cursor: first.next_cursor, ..args(MailView::Inbox) },
    );
    let ids: Vec<i64> =
        first.threads.iter().chain(second.threads.iter()).map(|thread| thread.id).collect();
    assert_eq!(ids, vec![3, 2, 1]);
    assert!(second.next_cursor.is_none());
}

#[test]
fn views_and_tabs_select_their_threads() {
    let conn = store();
    seed(&conn, 1, "a@b.c", "one", 1, false);
    seed(&conn, 2, "a@b.c", "two", 1, true);
    run(
        &conn,
        "INSERT INTO folders VALUES (2, 1, 'trash'), (3, 1, 'archive'), (4, 1, 'sent'), (5, 1, 'spam');
         INSERT INTO threads(id, account_id) VALUES (3, 1), (4, 1), (5, 1), (6, 1);
         INSERT INTO messages(thread_id, folder_id) VALUES (3, 2), (4, 3), (5, 4), (6, 5);
         UPDATE threads SET starred_count = 1 WHERE id = 4;
         INSERT INTO snoozes VALUES (2, 99);",
    );
    let shown = |view: MailView, tab: Option<TabFilter>| {
        let mut ids: Vec<i64> = listed(&conn, &ListArgs { tab, ..args(view) })
            .threads
            .iter()
            .map(|t| t.id)
            .collect();
        ids.sort();
        ids
    };
    assert_eq!(shown(MailView::Inbox, None), [1]);
    assert_eq!(shown(MailView::Snoozed, None), [2]);
    assert_eq!(shown(MailView::Starred, None), [4]);
    assert_eq!(shown(MailView::Trash, None), [3]);
    assert_eq!(shown(MailView::Done, None), [4]);
    assert_eq!(shown(MailView::Sent, None), [5]);
    assert_eq!(shown(MailView::Spam, None), [6]);
    assert_eq!(shown(MailView::All, None), [1, 2, 3, 4, 5, 6]);
    assert_eq!(shown(MailView::Inbox, Some(TabFilter::Important)), [1]);
    assert!(shown(MailView::Inbox, Some(TabFilter::Other)).is_empty());
    assert_eq!(shown(MailView::Snoozed, Some(TabFilter::Other)), [2]);
    run(&conn, "UPDATE threads SET routed_tab = 'split:4' WHERE id = 1");
    assert_eq!(shown(MailView::Inbox, Some(TabFilter::Split(4))), [1]);
    assert!(shown(MailView::Inbox, Some(TabFilter::AutoLabel(4))).is_empty());
    run(&conn, "INSERT INTO message_labels VALUES (1, 9)");
    assert_eq!(shown(MailView::Inbox, Some(TabFilter::ManualLabel(9))), [1]);
}

fn query() -> ParsedQuery {
    ParsedQuery {
        fts: String::new(),
        fts_or: String::new(),
        fts_not: String::new(),
        from: None,
        to: None,
        in_folder: None,
        is_unread: None,
        is_starred: None,
        has_attachment: None,
        account_id: None,
        terms: Vec::new(),
    }
}

fn search(conn: &Connection, q: &ParsedQuery, chronological: bool) -> Vec<i64> {
    match structured_thread_query(q, 20, chronological) {
        Some(s) => distinct_ids(&ids(conn, &s.sql, &s.bind), 20),
        None => Vec::new(),
    }
}

#[test]
fn trash_and_spam_are_hidden_unless_scoped() {
    let conn = store();
    run(&conn, "INSERT INTO folders VALUES (5, 1, 'trash')");
    seed(&conn, 1, "sender@test.dev", "Hello there", 0, false);
    let from = || ParsedQuery { from: Some("SENDER".to_owned()), ..query() };
    // In the inbox, a from: search finds it.
    assert_eq!(search(&conn, &from(), false), [1]);
    // Moved to Trash, the default search no longer returns it.
    run(&conn, "UPDATE messages SET folder_id = 5 WHERE id = 1");
    assert!(search(&conn, &from(), false).is_empty());
    // An explicit `in:trash` opts back in.
    let scoped = ParsedQuery { in_folder: Some("trash".to_owned()), ..from() };
    assert_eq!(search(&conn, &scoped, false), [1]);
}

#[test]
fn subject_and_body_operators_scope_the_column() {
    let conn = store();
    seed(&conn, 1, "sender@test.dev", "quarterlyplan meeting", 0, false);
    run(&conn, "UPDATE messages_fts SET body = 'budgetnumbers here' WHERE rowid = 1");
    let found = |fts: &str| {
        search(&conn, &ParsedQuery { fts: fts.to_owned(), ..query() }, false)
    };
    assert_eq!(found("subject : quarterlyplan"), [1]);
    assert_eq!(found("body : budgetnumbers"), [1]);
    assert!(found("subject : budgetnumbers").is_empty());
    assert!(found("body : quarterlyplan").is_empty());
}

#[test]
fn account_id_scopes_results_to_one_account() {
    let conn = store();
    seed(&conn, 1, "a@one.dev", "sharedterm alpha", 0, false);
    seed(&conn, 99, "b@two.dev", "sharedterm beta", 0, false);
    run(
        &conn,
        "INSERT INTO accounts(id, email) VALUES (2, 'me2@test.dev');
         INSERT INTO folders VALUES (2, 2, 'inbox');
         UPDATE messages SET account_id = 2, folder_id = 2 WHERE id = 99;",
    );
    let found = |account_id: Option<i64>| {
        let q = ParsedQuery { fts: "sharedterm".to_owned(), account_id, ..query() };
        let mut out = search(&conn, &q, false);
        out.sort();
        out
    };
    assert_eq!(found(None), vec![1, 99]);
    assert_eq!(found(Some(1)), vec![1]);
    assert_eq!(found(Some(2)), vec![99]);
}

#[test]
fn searches_filter_by_their_operators() {
    let conn = store();
    seed(&conn, 1, "a@x", "alpha one", 0, false);
    seed(&conn, 2, "b@x", "alpha two", 0, false);
    run(
        &conn,
        "UPDATE messages SET is_read = 1, date = 3000, to_json = '[Carol]' WHERE id = 1;
         UPDATE messages SET is_starred = 1, has_attachments = 1 WHERE id = 2;
         INSERT INTO messages(id, thread_id, date) VALUES (3, 2, 4000);
         INSERT INTO messages_fts(rowid, subject) VALUES (3, 'alpha again');",
    );
    let alpha = || ParsedQuery { fts: "alpha".to_owned(), ..query() };
    assert_eq!(search(&conn, &alpha(), true), [2, 1]);
    assert_eq!(search(&conn, &ParsedQuery { is_unread: Some(true), ..query() }, false), [2]);
    assert_eq!(search(&conn, &ParsedQuery { is_starred: Some(true), ..query() }, false), [2]);
    assert_eq!(search(&conn, &ParsedQuery { has_attachment: Some(true), ..query() }, false), [2]);
    assert_eq!(search(&conn, &ParsedQuery { to: Some("CAROL".to_owned()), ..query() }, false), [1]);
    let without = ParsedQuery { fts_not: "two".to_owned(), ..alpha() };
    let mut left = search(&conn, &without, false);
    left.sort();
    assert_eq!(left, [1, 2]);
    assert!(search(&conn, &query(), false).is_empty());
    assert!(structured_thread_query(&alpha(), 0, true).is_none());
    let messages = structured_message_query(&without, 20).unwrap();
    let mut found = ids(&conn, &messages.sql, &messages.bind);
    found.sort();
    assert_eq!(found, [1, 3]);
    assert!(structured_message_query(&query(), 20).is_none());
    let allowed = allowed_query(&without, &vec![1, 2, 77]).unwrap();
    assert_eq!(ids(&conn, &allowed.sql, &allowed.bind), [1]);
    assert!(allowed_query(&without, &Vec::new()).is_none());
}

#[test]
fn sent_mail_is_found_by_its_folder() {
    let conn = store();
    run(
        &conn,
        "INSERT INTO folders VALUES (2, 1, 'sent');
         INSERT INTO messages(id, thread_id, folder_id, subject, date) VALUES (1, 1, 2, 'a', 5), (2, 1, 2, 'b', 9), (3, 1, 1, 'c', 7);
         INSERT INTO message_bodies VALUES (1, 'x'), (2, 'y'), (3, 'z');",
    );
    let (sql, bind) = list_sent_bodies(Some(1), 10);
    assert_eq!(ids(&conn, &sql, &bind), [2, 1]);
    let (sql, bind) = list_sent_bodies(None, 1);
    assert_eq!(ids(&conn, &sql, &bind), [2]);
    let mut sent = ids(&conn, &sent_query(&vec![1, 3]).unwrap(), &[]);
    sent.sort();
    assert_eq!(sent, [1]);
    assert!(sent_query(&Vec::new()).is_none());
}

fn person(conn: &Connection, id: i64, email: &str, name: &str, account: Option<i64>, managed: bool) {
    run(
        conn,
        &format!(
            "INSERT INTO contacts(id, email, name, folded, is_managed, send_count) VALUES ({id}, '{email}', '{name}', '{}', {}, 1)",
            format!("{name} {email}").to_lowercase(),
            managed as i64
        ),
    );
    if let Some(account) = account {
        run(conn, &format!("INSERT INTO contact_accounts VALUES ({id}, {account}, 1, 0, 0)"));
    }
}

fn suggested(conn: &Connection, folded: &str, account: Option<i64>, learned: bool) -> Vec<String> {
    let Some((sql, bind)) = suggest(folded, account, learned, 10) else {
        return Vec::new();
    };
    let mut stmt = conn.prepare(&sql).unwrap();
    let rows = stmt
        .query_map(rusqlite::params_from_iter(values(&bind)), |row| row.get(1))
        .unwrap();
    rows.map(|r| r.unwrap()).collect()
}

#[test]
fn autocomplete_scopes_to_account() {
    let conn = store();
    // alice belongs to account 1, carol to account 2.
    person(&conn, 1, "alice@acme.com", "Alice", Some(1), false);
    person(&conn, 2, "carol@acme.com", "Carol", Some(2), false);
    assert_eq!(suggested(&conn, "a", Some(1), true), ["alice@acme.com"]);
    assert_eq!(suggested(&conn, "a", Some(2), true), ["carol@acme.com"]);
    // Global (view-all): both surface.
    assert_eq!(suggested(&conn, "a", None, true).len(), 2);
    assert!(suggested(&conn, "zzz", None, true).is_empty());
    assert!(suggested(&conn, "  ", None, true).is_empty());
    assert_eq!(suggested(&conn, "acme ali", None, true), ["alice@acme.com"]);
    // A wildcard stands for itself.
    assert!(suggested(&conn, "%", None, true).is_empty());
    assert_eq!(escape_like("50%_a\\"), "50\\%\\_a\\\\");
}

/// Take up a person that mail of the first account shows.
fn seen(conn: &Connection, email: &str, name: &str, sent: bool, when: i64) {
    let address = Address { name: Some(name.to_owned()), email: email.to_owned() };
    let shown = harvest(&address).unwrap();
    let saved = saved_contact_predicate("contacts");
    let known = conn
        .query_row(
            &format!("SELECT name, folded, send_count, recv_count, last_interacted, {saved} FROM contacts WHERE email = ?1"),
            [&shown.email],
            |r| {
                let row = ContactRow {
                    name: r.get(0)?,
                    folded: r.get(1)?,
                    send_count: r.get(2)?,
                    recv_count: r.get(3)?,
                    last_interacted: r.get(4)?,
                };
                Ok((row, r.get::<_, bool>(5)?))
            },
        )
        .ok();
    let saved = known.as_ref().map_or(false, |(_, saved)| *saved);
    let folded = shown.text.to_lowercase();
    let row = harvested(known.map(|(row, _)| row), saved, shown.name, folded, sent, when);
    conn.execute(
        "INSERT INTO contacts(email, name, folded, send_count, recv_count, last_interacted) VALUES (?1, ?2, ?3, ?4, ?5, ?6) ON CONFLICT(email) DO UPDATE SET name = ?2, folded = ?3, send_count = ?4, recv_count = ?5, last_interacted = ?6",
        (&shown.email, row.name, row.folded, row.send_count, row.recv_count, row.last_interacted),
    )
    .unwrap();
    conn.execute(
        "INSERT INTO contact_accounts SELECT id, 1, 0, 1, ?2 FROM contacts WHERE email = ?1",
        (&shown.email, when),
    )
    .unwrap();
}

/// Save a contact that the user manages, as a new one.
fn save(conn: &Connection, record: &ContactRecord) {
    let s = save_record(record).ok().unwrap();
    conn.execute(
        "INSERT INTO contacts(email, name, folded, phone, company, job_title, website, birthday, postal_address, notes, tags, is_favorite, is_managed) VALUES (?1, ?2, ?3, ?4, ?5, ?6, ?7, ?8, ?9, ?10, ?11, ?12, 1) ON CONFLICT(email) DO UPDATE SET is_managed = 1",
        (
            s.email, s.name, s.text.to_lowercase(), s.phone, s.company, s.job_title, s.website,
            s.birthday, s.postal_address, s.notes, s.tags, record.is_favorite
        ),
    )
    .unwrap();
}

fn records(conn: &Connection, c: &Conditions, limit: &str) -> Vec<ContactRecord> {
    let sql = records_query(c, limit);
    let mut stmt = conn.prepare(&sql).unwrap();
    let rows = stmt
        .query_map(rusqlite::params_from_iter(values(&c.bind)), |r| {
            Ok(ContactRecord {
                id: r.get(0)?,
                name: r.get(1)?,
                email: r.get(2)?,
                phone: r.get(3)?,
                company: r.get(4)?,
                job_title: r.get(5)?,
                website: r.get(6)?,
                birthday: r.get(7)?,
                postal_address: r.get(8)?,
                notes: r.get(9)?,
                tags: r.get(10)?,
                is_favorite: r.get(11)?,
                interactions: r.get(12)?,
                last_interacted: r.get(13)?,
                is_managed: r.get(14)?,
                account_ids: account_ids(&r.get::<_, String>(15)?),
            })
        })
        .unwrap();
    rows.map(|r| r.unwrap()).collect()
}

fn directory(
    conn: &Connection,
    suggestions_only: bool,
    cursor: Option<&ContactRecordCursor>,
    limit: i64,
) -> ContactRecordPage {
    let q =
        RecordQuery { folded: "", account_id: None, favorites_only: false, suggestions_only };
    let (c, param) = record_page_query(&q, cursor, limit);
    let rows = records(conn, &c, &param);
    let (total, favorites, suggestions) = conn
        .query_row(&record_counts_query(), [], |r| Ok((r.get(0)?, r.get(1)?, r.get(2)?)))
        .unwrap();
    let mut stmt = conn.prepare(&account_counts_query()).unwrap();
    let accounts = stmt
        .query_map([], |r| Ok((r.get(0)?, r.get(1)?)))
        .unwrap()
        .map(|r| r.unwrap())
        .collect();
    list_record_page(rows, limit, ReportedCounts { total, favorites, suggestions, accounts })
}

#[test]
fn managed_contact_round_trip_and_harvest_preserves_edited_name() {
    let conn = store();
    let ada = ContactRecord {
        id: 0,
        name: "Ada Lovelace".to_owned(),
        email: "ADA@EXAMPLE.COM".to_owned(),
        phone: "+44 20 0000 0000".to_owned(),
        company: "Analytical Engines".to_owned(),
        job_title: "Programmer".to_owned(),
        website: "https://example.com/ada".to_owned(),
        birthday: "1815-12-10".to_owned(),
        postal_address: "London".to_owned(),
        notes: "Prefers written updates.".to_owned(),
        tags: "vip, history".to_owned(),
        is_favorite: true,
        interactions: 0,
        last_interacted: None,
        account_ids: Vec::new(),
        is_managed: true,
    };
    save(&conn, &ada);
    let (c, limit) = list_records("", 20);
    let created = records(&conn, &c, &limit).remove(0);
    assert!(created.id > 0);
    assert_eq!(created.email, "ada@example.com");
    assert!(created.is_favorite);
    assert_eq!(created.phone, ada.phone);
    assert_eq!(created.company, ada.company);
    assert_eq!(created.job_title, ada.job_title);
    assert_eq!(created.website, ada.website);
    assert_eq!(created.birthday, ada.birthday);
    assert_eq!(created.postal_address, ada.postal_address);
    assert_eq!(created.notes, ada.notes);
    assert_eq!(created.tags, ada.tags);
    // Manually managed contacts remain available to account-scoped compose.
    assert_eq!(suggested(&conn, "ada", Some(1), true), ["ada@example.com"]);

    seen(&conn, "ada@example.com", "Automated Header Name", false, 200);
    let (c, limit) = list_records("analytical vip", 20);
    let listed = records(&conn, &c, &limit);
    assert_eq!(listed.len(), 1);
    assert_eq!(listed[0].name, "Ada Lovelace");
    assert_eq!(listed[0].interactions, 1);
    assert_eq!(listed[0].account_ids, [1]);
    assert!(listed[0].is_managed);
    let name: String = conn.query_row(&record_query(), [created.id], |r| r.get(1)).unwrap();
    assert_eq!(name, "Ada Lovelace");

    run(&conn, "DELETE FROM contacts");
    let (c, limit) = list_records("", 20);
    assert!(records(&conn, &c, &limit).is_empty());
}

#[test]
fn directory_pages_are_strict_non_overlapping_batches() {
    let conn = store();
    for i in 0..61 {
        seen(&conn, &format!("person-{i:02}@example.com"), &format!("Person {i:02}"), false, i);
    }
    let first = directory(&conn, true, None, 25);
    seen(&conn, "aardvark@example.com", "Aardvark", false, 100);
    let second = directory(&conn, true, first.next_cursor.as_ref(), 25);
    let third = directory(&conn, true, second.next_cursor.as_ref(), 25);
    assert_eq!(first.records.len(), 25);
    assert_eq!(second.records.len(), 25);
    assert_eq!(third.records.len(), 11);
    assert!(first.next_cursor.is_some());
    assert!(second.next_cursor.is_some());
    assert!(third.next_cursor.is_none());
    let shown: Vec<&ContactRecord> =
        first.records.iter().chain(&second.records).chain(&third.records).collect();
    let ids: std::collections::HashSet<i64> = shown.iter().map(|r| r.id).collect();
    assert_eq!(ids.len(), 61);
    // The newly inserted head belongs before the cursor.
    assert!(shown.iter().all(|r| r.email != "aardvark@example.com"));
    assert_eq!(first.total_count, 0);
    assert_eq!(first.suggestion_count, 61);
    assert_eq!(first.account_counts, vec![(1, 0)]);
}

#[test]
fn suggestions_stay_separate_until_saved() {
    let conn = store();
    seen(&conn, "grace@example.com", "Grace Hopper", true, 100);
    let saved_page = directory(&conn, false, None, 25);
    let suggestion_page = directory(&conn, true, None, 25);
    assert!(saved_page.records.is_empty());
    assert_eq!(saved_page.total_count, 0);
    assert_eq!(suggestion_page.records.len(), 1);
    assert_eq!(suggestion_page.suggestion_count, 1);
    assert!(!suggestion_page.records[0].is_managed);
    assert!(suggested(&conn, "grace", None, false).is_empty());
    assert_eq!(suggested(&conn, "grace", None, true).len(), 1);

    save(&conn, &suggestion_page.records[0]);
    let promoted = directory(&conn, false, None, 25);
    assert_eq!(promoted.records.len(), 1);
    assert!(promoted.records[0].is_managed);
    assert!(directory(&conn, true, None, 25).records.is_empty());
    assert_eq!((promoted.total_count, promoted.favorite_count), (1, 0));
    assert_eq!(promoted.suggestion_count, 0);
    assert_eq!(promoted.account_counts, vec![(1, 1)]);
    assert_eq!(suggested(&conn, "grace", None, false).len(), 1);
}

#[test]
fn carddav_contacts_stay_saved_and_keep_remote_names_when_seen_in_mail() {
    let conn = store();
    person(&conn, 1, "grace@example.com", "Grace Hopper", Some(1), false);
    assert!(suggested(&conn, "grace", Some(1), false).is_empty());
    run(&conn, "INSERT INTO carddav_objects VALUES (1, 1, 1, 0)");
    assert_eq!(suggested(&conn, "grace", Some(1), false), ["grace@example.com"]);
    run(&conn, "UPDATE carddav_objects SET deleted = 1");
    assert!(suggested(&conn, "grace", Some(1), false).is_empty());
}

#[test]
fn pages_of_records_go_on_behind_their_cursor() {
    let conn = store();
    for i in 0..6 {
        person(&conn, i + 1, &format!("p{i}@x"), &format!("Person {i}"), Some(1), true);
    }
    run(&conn, "UPDATE contacts SET is_favorite = 1 WHERE id = 6");
    let page = |cursor: Option<&ContactRecordCursor>| {
        let q = RecordQuery {
            folded: "",
            account_id: Some(1),
            favorites_only: false,
            suggestions_only: false,
        };
        let (c, limit) = record_page_query(&q, cursor, 2);
        let sql = format!(
            "SELECT id FROM contacts {} ORDER BY is_favorite DESC, CASE WHEN name IS NULL OR name = '' THEN email ELSE name END COLLATE NOCASE, email COLLATE NOCASE, id LIMIT {limit}",
            c.behind("WHERE ")
        );
        ids(&conn, &sql, &c.bind)
    };
    assert_eq!(page(None), [6, 1, 2]);
    let cursor = ContactRecordCursor {
        is_favorite: false,
        sort_name: "person 0".to_owned(),
        email: "p0@x".to_owned(),
        id: 1,
    };
    assert_eq!(page(Some(&cursor)), [2, 3, 4]);
}

#[test]
fn records_are_listed_by_every_word() {
    let conn = store();
    person(&conn, 1, "ada@example.com", "Ada Lovelace", None, true);
    person(&conn, 2, "grace@example.com", "Grace Hopper", None, true);
    person(&conn, 3, "alan@example.com", "Alan", None, false);
    let listed = |folded: &str, limit: i64| {
        let (c, param) = list_records(folded, limit);
        let sql = format!("SELECT id FROM contacts {} ORDER BY id LIMIT {param}", c.behind("WHERE "));
        ids(&conn, &sql, &c.bind)
    };
    assert_eq!(listed("", 100), [1, 2]);
    assert_eq!(listed("ada example", 100), [1]);
    assert_eq!(listed("", 1), [1]);
    assert_eq!(listed("", 0), [1]);
    let (c, _) = list_records("", 9_999);
    assert!(matches!(c.bind.last(), Some(Bind::Int(500))));
}

#[test]
fn attachment_searches_match_by_prefix() {
    let conn = store();
    run(
        &conn,
        "CREATE VIRTUAL TABLE files USING fts5(name, tokenize = 'unicode61 remove_diacritics 2');
         INSERT INTO files(rowid, name) VALUES (1, 'Résumé final.pdf maria@example.com');",
    );
    let found = |text: &str| {
        let q = attachment_match_query(text);
        ids(&conn, "SELECT rowid FROM files WHERE files MATCH ?1", &[Bind::Text(q)]).len()
    };
    assert_eq!(found("resume maria"), 1);
    assert_eq!(found("resu"), 1);
    assert_eq!(found("\" OR secret*"), 0);
}
