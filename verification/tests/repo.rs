//! The rules of the mail store.

use flectar_mail_core::error::CoreError;
use flectar_mail_core::files::json::Json;
use flectar_mail_core::repo::accounts::{
    forgets_folders, is_visible, jmap_identity_changed, reorder, NewAccount, RemoteIdentity,
    CREDENTIAL_SETUP_STATE,
};
use flectar_mail_core::repo::actions::{
    due, due_calendar, due_except_send, due_sends, has_due, has_due_except_send, has_due_sends,
    has_pending_for_message, has_pending_remote_creation, jmap_reconciliation_guards, last_undoable,
    next_mail_due_at,
    next_send_due_at, ActionState, Lane, PendingAction,
};
use flectar_mail_core::repo::attachments::{
    replace_attachments, upsert_planned_attachments, AttachmentRow, NewAttachment,
    PlannedAttachment,
};
use flectar_mail_core::repo::carddav::{
    attach_new_contact, contact_href, contact_text, ensure_default, left_behind, remove_remote,
    resource_name, retain_addressbooks, takes_ownership, upsert_remote, Attach, Binding, Fate,
    HrefError, KnownBook,
};
use flectar_mail_core::repo::contacts::{
    account_ids, check_changed, harvest, harvested, learns, list_record_page, recipients_to_learn,
    save_record, Address, ContactRecord, ReportedCounts,
};
use flectar_mail_core::repo::counts::{mailbox_badge_counts, AccountCount, MailboxBadgeCounts};
use flectar_mail_core::repo::folding::fold;
use flectar_mail_core::repo::labels::{
    reconcile_keywords, restore_auto_defaults, save, tab_key, Label, LabelRow, LabelWrite, Scope,
};
use flectar_mail_core::repo::messages::{
    begin_body_fetch, body_progress, cancel_body_fetch, content_progress, content_progress_since,
    detail, filter_sent, jmap_adoption_candidate, latest_in_thread, list_for_thread,
    missing_bodies, require_changed, thread_unsubscribe_candidates, thread_unsubscribe_message,
    AttachmentMeta, ContentProgress, ContentRow, DatedRow, DetailRow, MessageRow, OwnedAttachment,
    ThreadEntry, UnsubscribeRow,
};
use flectar_mail_core::repo::search::{
    allowed_message_ids, candidate_cap, distinct_ids, relaxed, relaxes, sender_match,
    shown_results, thread_signal, vector_thread_ids, MessageSignal, MessageThread, ParsedQuery,
    TermMatch, ThreadSignal,
};
use flectar_mail_core::repo::sender_identities::{
    check_discovered, ensure_primary, get_verified, list, own_addresses, replace, resolve_default,
    SenderIdentity,
};
use flectar_mail_core::repo::threads::{
    by_references, count, get_summaries, joins_by_subject, page, parse_id_list, recompute,
    ReferenceStep, ThreadMessage, ThreadSummary,
};

fn text(s: &str) -> String {
    s.to_owned()
}

fn account<'a>(protocol: &'a str, url: &'a str, id: Option<&'a str>) -> NewAccount<'a> {
    NewAccount {
        email: "me@test.dev",
        display_name: None,
        avatar_url: None,
        provider: "imap",
        auth_kind: "password",
        mail_protocol: protocol,
        username: "me@test.dev",
        jmap_url: url,
        jmap_account_id: id,
        imap_host: "",
        imap_port: 993,
        smtp_host: "",
        smtp_port: 465,
    }
}

#[test]
fn credential_setup_accounts_are_recoverable_but_not_visible_or_started() {
    assert!(!is_visible(CREDENTIAL_SETUP_STATE));
    assert!(is_visible("idle"));
}

#[test]
fn changing_jmap_identity_invalidates_all_remote_checkpoints() {
    let stored = RemoteIdentity {
        protocol: text("jmap"),
        jmap_url: text("https://mail.test.dev"),
        jmap_account_id: Some(text("account-a")),
    };
    let same = account("jmap", "https://mail.test.dev", Some("account-a"));
    assert!(!jmap_identity_changed(&stored, &same));
    let changed = account("jmap", "https://new.test.dev", Some("account-b"));
    assert!(jmap_identity_changed(&stored, &changed));
    assert!(forgets_folders(&stored, &changed));
    let imap = account("imap", "https://mail.test.dev", Some("account-a"));
    assert!(jmap_identity_changed(&stored, &imap));
    assert!(!forgets_folders(&stored, &imap));
    let before = RemoteIdentity {
        protocol: text("imap"),
        jmap_url: text(""),
        jmap_account_id: None,
    };
    assert!(!jmap_identity_changed(&before, &account("imap", "https://x", None)));

    let mut mutation = action(1, "star", None, 0);
    let mut send = action(2, "send", None, 0);
    send.set_state(ActionState::Inflight, None, 5);
    mutation.connection_changed(true, 9);
    send.connection_changed(true, 9);
    assert_eq!(mutation.state, ActionState::Cancelled);
    assert_eq!(send.state, ActionState::Failed);
}

#[test]
fn reorder_moves_before_and_after_and_persists_for_both_lists() {
    let (first, second, third) = (1, 2, 3);
    let order = reorder(vec![first, second, third], first, third, true).unwrap();
    assert_eq!(order, [second, third, first]);
    let order = reorder(order, first, second, false).unwrap();
    assert_eq!(order, [first, second, third]);
    assert_eq!(reorder(vec![1, 2], 2, 2, true).unwrap(), [1, 2]);
    let gone = reorder(vec![1, 2], 9, 2, true).unwrap_err();
    assert_eq!(gone.message(), "not found: source account");
    assert_eq!(gone.code(), "not_found");
    let gone = reorder(vec![1, 2], 1, 9, true).unwrap_err();
    assert_eq!(gone.message(), "not found: target account");
}

fn action(id: i64, kind: &str, not_before: Option<i64>, created: i64) -> PendingAction {
    PendingAction::enqueue(id, 1, kind, None, None, Json::object(), not_before, created)
}

#[test]
fn due_is_stable_and_has_due_ignores_future_and_calendar_actions() {
    let queue = |done: bool| {
        let mut later = action(1, "star", None, 1);
        let mut first = action(2, "archive", None, 1);
        if done {
            later.set_state(ActionState::Done, None, 2);
            first.set_state(ActionState::Done, None, 2);
        }
        vec![
            later,
            first,
            action(3, "trash", Some(20_000), 1),
            action(4, "cal_create", None, 1),
        ]
    };
    let ids = |list: Vec<PendingAction>| list.iter().map(|a| a.id).collect::<Vec<_>>();
    assert_eq!(ids(due(queue(false), Lane::Mail, 1, 10_000, 20)), [1, 2]);
    assert!(has_due(&queue(false), Lane::Mail, 1, 10_000));
    assert!(!has_due(&queue(true), Lane::Mail, 1, 10_000));
    assert!(has_due(&queue(true), Lane::Mail, 1, 20_000));
    assert_eq!(ids(due_calendar(queue(true), 1, 10_000, 20)), [4]);
    assert_eq!(ids(due(queue(true), Lane::Mail, 1, 20_000, 20)), [3]);
    assert_eq!(ids(due(queue(false), Lane::Mail, 1, 10_000, 1)), [1]);
    assert_eq!(ids(due(queue(false), Lane::Mail, 2, 10_000, 20)), Vec::<i64>::new());
}

#[test]
fn smtp_submissions_are_owned_only_by_the_send_queue() {
    let queue = || vec![action(1, "send", Some(1_000), 0), action(2, "append_sent", Some(1_000), 0)];
    let ids = |list: Vec<PendingAction>| list.iter().map(|a| a.id).collect::<Vec<_>>();
    assert_eq!(ids(due_sends(queue(), 1, 1_000, 20)), [1]);
    assert_eq!(ids(due_except_send(queue(), 1, 1_000, 20)), [2]);
    assert!(has_due_sends(&queue(), 1, 1_000));
    assert!(has_due_except_send(&queue(), 1, 1_000));
    assert_eq!(next_send_due_at(&queue(), 1), Some(1_000));
    assert_eq!(next_mail_due_at(&queue()), Some(1_000));
}

#[test]
fn jmap_reconciliation_guards_only_the_fields_owned_by_local_intent() {
    let on = |id: i64, kind: &str| {
        PendingAction::enqueue(id, 1, kind, Some(7), None, Json::object(), None, 0)
    };
    let mut queue = vec![on(1, "star")];
    assert_eq!(jmap_reconciliation_guards(&queue, 7), (true, false));
    assert!(!has_pending_remote_creation(&queue, 7));
    queue.push(on(2, "move"));
    assert_eq!(jmap_reconciliation_guards(&queue, 7), (true, true));
    queue.push(on(3, "send"));
    assert!(has_pending_remote_creation(&queue, 7));
    assert!(has_pending_for_message(&queue, 7));
    assert!(!has_pending_for_message(&queue, 8));
}

#[test]
fn claims_and_recoveries_follow_the_state() {
    let mut a = action(1, "star", None, 0);
    assert!(a.try_claim());
    assert!(!a.try_claim());
    assert!(a.recover_inflight(9));
    assert_eq!(a.state, ActionState::Pending);
    let mut send = action(2, "send", None, 0);
    assert!(send.try_claim());
    assert!(send.recover_inflight(9));
    assert_eq!((send.state, send.not_before), (ActionState::Pending, Some(9)));
    let mut waiting = action(3, "trash", Some(50), 0);
    assert!(waiting.try_cancel(10));
    assert_eq!(waiting.state, ActionState::Cancelled);
    let mut retried = action(4, "star", None, 0);
    retried.bump_attempt(99, text("offline"));
    assert_eq!((retried.attempts, retried.not_before), (1, Some(99)));
    assert!(last_undoable(&vec![action(5, "archive", Some(10), 5)], 0).is_some());
}

fn addr(email: &str, name: Option<&str>) -> Address {
    Address { name: name.map(text), email: text(email) }
}

#[test]
fn harvest_counts_and_autocomplete() {
    let alice = harvest(&addr("Alice@Acme.com", Some("Alice"))).unwrap();
    assert_eq!(
        (alice.email.as_str(), alice.name.as_str(), alice.text.as_str()),
        ("alice@acme.com", "Alice", "Alice Alice@Acme.com")
    );
    let first = harvested(None, false, alice.name, text("alice"), true, 100);
    assert_eq!((first.send_count, first.recv_count), (1, 0));
    let later = harvested(Some(first), false, text(""), text("other"), true, 200);
    assert_eq!((later.send_count, later.recv_count), (2, 0));
    // The harvested name survives even when a later sighting had none.
    assert_eq!(later.name.as_deref(), Some("Alice"));
    assert_eq!(later.folded.as_deref(), Some("alice"));
    assert_eq!(later.last_interacted, Some(200));
    assert!(harvest(&addr("nobody", None)).is_none());
    assert!(harvest(&addr("", None)).is_none());
}

#[test]
fn successful_send_learns_unique_recipients_exactly_once() {
    let recipients = vec![
        addr("alice@example.test", Some("Alice")),
        addr("BOB@example.test", Some("Bob")),
        addr("ALICE@example.test", None),
        addr("me@test.dev", None),
    ];
    let own = vec![text("me@test.dev")];
    assert_eq!(recipients_to_learn(&recipients, &own), [0, 1]);
    let identities = vec![
        identity("ME@test.dev", true, false, "pending"),
        identity("alias@test.dev", false, false, "accepted"),
        identity("other@test.dev", false, false, "pending"),
    ];
    assert_eq!(own_addresses(&identities, 1), ["me@test.dev", "alias@test.dev"]);
    assert!(own_addresses(&identities, 2).is_empty());
    assert!(learns(false, true));
    assert!(!learns(true, true));
    assert!(!learns(false, false));
    assert!(recipients_to_learn(&vec![addr("  ", None)], &own).is_empty());
}

fn record(name: &str, email: &str) -> ContactRecord {
    ContactRecord {
        id: 0,
        name: text(name),
        email: text(email),
        phone: String::new(),
        company: text("Analytical Engines"),
        job_title: String::new(),
        website: String::new(),
        birthday: String::new(),
        postal_address: text("London"),
        notes: String::new(),
        tags: text("vip"),
        is_favorite: false,
        interactions: 0,
        last_interacted: None,
        is_managed: true,
        account_ids: Vec::new(),
    }
}

#[test]
fn records_are_stored_trimmed() {
    let stored = save_record(&record(" Ada Lovelace ", "ADA@EXAMPLE.COM")).ok().unwrap();
    assert_eq!((stored.name.as_str(), stored.email.as_str()), ("Ada Lovelace", "ada@example.com"));
    assert!(!stored.update);
    assert_eq!(
        stored.text,
        "Ada Lovelace ada@example.com Analytical Engines    vip London"
    );
    let bad = save_record(&record("Ada", "nowhere")).err().unwrap();
    assert_eq!(bad.message(), "contact email address is invalid");
    assert!(check_changed(1).is_ok());
    assert_eq!(check_changed(0).unwrap_err().message(), "contact not found");
    assert_eq!(account_ids("1,3,x"), [1, 3]);
}

#[test]
fn nameless_records_are_paged_by_their_address() {
    let counts = ReportedCounts { total: 2, favorites: -1, suggestions: 0, accounts: vec![(1, -2)] };
    let nameless = list_record_page(vec![record("", "a@b.c"), record("", "d@e.f")], 0, counts);
    assert_eq!(nameless.records.len(), 1);
    assert_eq!(nameless.next_cursor.unwrap().sort_name, "a@b.c");
    assert_eq!((nameless.total_count, nameless.favorite_count), (2, 0));
    assert_eq!(nameless.account_counts, [(1, 0)]);
}

#[test]
fn native_sidebar_badges_follow_read_and_draft_mutations() {
    let one = |value: i64| vec![AccountCount { account_id: 1, value }];
    let badges = mailbox_badge_counts(&vec![1, 2], &one(1), &one(1), &one(1));
    assert_eq!(
        badges,
        vec![
            MailboxBadgeCounts { account_id: 1, inbox: 1, starred: 1, drafts: 1 },
            MailboxBadgeCounts { account_id: 2, inbox: 0, starred: 0, drafts: 0 },
        ]
    );
    let foreign = vec![AccountCount { account_id: 9, value: 4 }];
    let badges = mailbox_badge_counts(&vec![1, 2], &foreign, &Vec::new(), &one(1));
    assert_eq!((badges[0].inbox, badges[0].starred, badges[0].drafts), (0, 0, 1));
}

fn label(id: i64, name: &str, keyword: &str, owner: Option<i64>, is_auto: bool) -> Label {
    Label {
        id,
        name: text(name),
        color: text("#fff"),
        keyword: text(keyword),
        position: 0,
        owner_account_id: owner,
        is_auto,
    }
}

#[test]
fn save_keeps_keyword_on_rename() {
    let rows = vec![
        LabelRow { label: label(1, "Follow up", "Follow_up", None, false), scope: Scope::Global },
        LabelRow { label: label(2, "News", "FlectarMailAutoNews", None, true), scope: Scope::Automatic },
        LabelRow { label: label(3, "Work", "Work", Some(7), false), scope: Scope::Account },
    ];
    match save(&Vec::new(), None, "Follow up", "#fff", 0, None).unwrap() {
        LabelWrite::Insert { keyword, scope, owner_account_id, .. } => {
            assert_eq!((keyword.as_str(), scope, owner_account_id), ("Follow_up", Scope::Global, None));
        }
        other => panic!("{other:?}"),
    }
    match save(&rows, Some(1), "Chase later", "#000", 1, None).unwrap() {
        LabelWrite::Update { id, name, color, position } => {
            assert_eq!((id, name.as_str(), color.as_str(), position), (1, "Chase later", "#000", 1));
        }
        other => panic!("{other:?}"),
    }
    let twice = save(&rows, None, "FOLLOW UP", "#fff", 0, None).unwrap_err();
    assert_eq!(twice.message(), "a label named 'FOLLOW UP' already exists in this scope");
    // Another scope, and the label itself, are no clash.
    assert!(save(&rows, None, "Follow up", "#fff", 0, Some(7)).is_ok());
    assert!(save(&rows, Some(1), "follow UP", "#fff", 0, None).is_ok());
    assert!(save(&rows, None, "work", "#fff", 0, Some(7)).is_err());
    assert!(save(&rows, None, "work", "#fff", 0, Some(8)).is_ok());
    let gone = save(&rows, Some(9), "x", "#fff", 0, None).unwrap_err();
    assert_eq!(gone.message(), "not found: label 9");
    assert_eq!(tab_key(5), "label:5");
    assert_eq!(Scope::Account.as_str(), "account");
}

#[test]
fn restore_auto_defaults_recreates_only_missing_categories() {
    let all: Vec<String> =
        restore_auto_defaults(&Vec::new()).iter().map(|l| text(l.keyword)).collect();
    assert_eq!(
        all,
        [
            "FlectarMailAutoMarketing",
            "FlectarMailAutoNews",
            "FlectarMailAutoSocial",
            "FlectarMailAutoPitch",
        ]
    );
    let without: Vec<String> =
        all.iter().filter(|k| k.as_str() != "FlectarMailAutoSocial").cloned().collect();
    let missing = restore_auto_defaults(&without);
    assert_eq!(missing.len(), 1);
    assert_eq!((missing[0].name, missing[0].color, missing[0].position), ("Social", "#7bc47f", 1002));
    assert!(restore_auto_defaults(&all).is_empty());
}

/// Server reconcile must never strip local-only auto labels.
#[test]
fn reconcile_skips_auto_labels() {
    let labels = vec![
        label(1, "Work", "Work", Some(1), false),
        label(2, "News", "FlectarMailAutoNews", None, true),
        label(3, "Other", "Other", Some(2), false),
    ];
    // Server reports no keywords at all: manual membership is removed,
    // auto membership survives.
    let changed = reconcile_keywords(&labels, 1, &Vec::new(), &vec![1, 2, 3]);
    assert_eq!(changed.len(), 1);
    assert_eq!((changed[0].label_id, changed[0].add), (1, false));
    // Server later reports the manual keyword: membership comes back.
    let changed =
        reconcile_keywords(&labels, 1, &vec![text("Work"), text("Foreign")], &vec![2, 3]);
    assert_eq!(changed.len(), 1);
    assert_eq!((changed[0].label_id, changed[0].add), (1, true));
    assert!(reconcile_keywords(&labels, 1, &vec![text("Work")], &vec![1, 2]).is_empty());
}

#[test]
fn preview_selects_only_the_newest_message_without_fetching_history() {
    let mut rows = vec![ThreadEntry { id: 1, date: 1 }];
    for id in 100..200 {
        rows.push(ThreadEntry { id, date: 2 });
    }
    assert_eq!(latest_in_thread(&rows), Some(199));
    assert_eq!(latest_in_thread(&Vec::new()), None);
}

#[test]
fn body_fetch_claim_deduplicates_and_can_be_released() {
    let mut state = text("none");
    assert!(begin_body_fetch(&mut state));
    assert!(!begin_body_fetch(&mut state));
    cancel_body_fetch(&mut state);
    assert!(begin_body_fetch(&mut state));
    let mut cached = text("cached");
    assert!(!begin_body_fetch(&mut cached));
    cancel_body_fetch(&mut cached);
    assert_eq!(cached, "cached");
}

fn detail_row(id: i64, date: i64, text_body: Option<&str>) -> DetailRow {
    DetailRow {
        id,
        thread_id: Some(1),
        account_id: 1,
        from_name: None,
        from_addr: Some(text("a@test.dev")),
        to: Vec::new(),
        cc: Vec::new(),
        subject: text("Subject"),
        local_subject_prefix: String::new(),
        date,
        is_read: false,
        is_starred: false,
        is_draft: false,
        is_outgoing: false,
        snippet: String::new(),
        body_state: text("cached"),
        text_body: text_body.map(text),
        html_body: None,
        local_body_note: text("  "),
        list_unsubscribe: None,
        list_unsubscribe_post: None,
        sender_addr: None,
        sender_verification: text("unknown"),
        send_state: None,
        send_error: None,
    }
}

fn meta(id: i64, filename: &str) -> AttachmentMeta {
    AttachmentMeta {
        id,
        filename: Some(text(filename)),
        mime_type: None,
        size: Some(10),
        is_inline: false,
    }
}

/// The batched list must return exactly what per-message details would, in date order.
#[test]
fn list_for_thread_matches_per_message_detail() {
    let rows = || {
        vec![
            detail_row(1, 1000, Some("plain")),
            detail_row(2, 1002, Some("only text")),
            detail_row(3, 1003, None),
        ]
    };
    let batched = list_for_thread(
        rows(),
        vec![
            OwnedAttachment { message_id: 1, meta: meta(10, "a.png") },
            OwnedAttachment { message_id: 3, meta: meta(11, "c.txt") },
            OwnedAttachment { message_id: 1, meta: meta(12, "b.pdf") },
            OwnedAttachment { message_id: 9, meta: meta(13, "lost") },
        ],
    );
    let mine = |id: i64| match id {
        1 => vec![meta(10, "a.png"), meta(12, "b.pdf")],
        3 => vec![meta(11, "c.txt")],
        _ => Vec::new(),
    };
    assert_eq!(batched.len(), 3);
    for (b, row) in batched.iter().zip(rows()) {
        let id = row.id;
        let l = detail(id, Some(row), mine(id)).unwrap();
        assert_eq!(b.id, l.id);
        assert_eq!(b.text_body, l.text_body);
        assert_eq!(b.html_body, l.html_body);
        assert_eq!(b.body_state, l.body_state);
        assert_eq!(b.attachments.len(), l.attachments.len());
        for (ba, la) in b.attachments.iter().zip(&l.attachments) {
            assert_eq!(ba.id, la.id);
            assert_eq!(ba.filename, la.filename);
            assert_eq!(ba.is_inline, la.is_inline);
        }
    }
    let dates: Vec<i64> = batched.iter().map(|m| m.date).collect();
    assert_eq!(dates, [1000, 1002, 1003]);
    let gone = detail(7, None, Vec::new()).unwrap_err();
    assert_eq!(gone.message(), "not found: message 7");
}

#[test]
fn local_automation_annotations_are_exposed_without_rewriting_source_fields() {
    let row = DetailRow {
        subject: text("July invoice"),
        local_subject_prefix: text("[FINANCE] "),
        local_body_note: text("Send to accounts payable."),
        ..detail_row(1, 1, None)
    };
    let shown = detail(1, Some(row), Vec::new()).unwrap();
    assert_eq!(shown.subject, "[FINANCE] July invoice");
    assert_eq!(shown.automation_note.as_deref(), Some("Send to accounts payable."));
    let plain = detail(1, Some(detail_row(1, 1, None)), Vec::new()).unwrap();
    assert_eq!((plain.subject.as_str(), plain.automation_note), ("Subject", None));
}

#[test]
fn unsubscribe_target_falls_back_to_raw_candidates() {
    let row = |id: i64, date: i64, header: Option<&str>, raw: Option<&str>| UnsubscribeRow {
        id,
        date,
        is_draft: false,
        list_unsubscribe: header.map(text),
        raw_path: raw.map(text),
    };
    let bare = vec![row(1, 1, None, None)];
    assert_eq!(thread_unsubscribe_message(&bare), None);
    // No raw on disk yet: nothing to re-read.
    assert!(thread_unsubscribe_candidates(&bare).is_empty());
    let raw = vec![row(1, 1, None, Some("/cache/x.eml")), row(2, 5, None, Some("/cache/y.eml"))];
    let found: Vec<(i64, String)> =
        thread_unsubscribe_candidates(&raw).into_iter().map(|c| (c.id, c.raw_path)).collect();
    assert_eq!(found, [(2, text("/cache/y.eml")), (1, text("/cache/x.eml"))]);
    // Backfilled rows drop out of the candidate list.
    let filled = vec![row(1, 1, Some("<https://x.dev/u>"), Some("/cache/x.eml"))];
    assert_eq!(thread_unsubscribe_message(&filled), Some(1));
    assert!(thread_unsubscribe_candidates(&filled).is_empty());
    let two = vec![row(1, 1, Some("<a>"), None), row(2, 9, Some("<b>"), None)];
    assert_eq!(thread_unsubscribe_message(&two), Some(2));
}

fn content(id: i64) -> ContentRow {
    ContentRow {
        id,
        gmail: false,
        gm_msgid: None,
        uid: Some(id),
        role: Some(text("inbox")),
        body_state: text("none"),
        date: 1000,
        internal_date: None,
        failed: false,
        next_retry_at: None,
    }
}

#[test]
fn content_progress_counts_only_remotely_fetchable_messages() {
    let rows = |cached_date: i64, missing_date: i64| {
        vec![
            ContentRow { body_state: text("cached"), date: cached_date, ..content(1) },
            ContentRow { failed: true, date: missing_date, ..content(2) },
            // Rows detached from a remote UID are not actionable.
            ContentRow { uid: None, date: 2, ..content(3) },
            // A special-use All folder holds copies.
            ContentRow { role: Some(text("all")), date: 3, ..content(4) },
        ]
    };
    assert_eq!(
        content_progress(&rows(1000, 1000)),
        ContentProgress { done: 1, total: 2, failed: 1 }
    );
    assert_eq!(body_progress(&rows(1000, 1000)), (1, 2));
    assert_eq!(
        content_progress_since(&rows(100, 200), Some(150)),
        ContentProgress { done: 0, total: 1, failed: 1 }
    );
    let gmail = vec![
        ContentRow { gmail: true, gm_msgid: Some(text("x")), uid: None, ..content(1) },
        ContentRow { gmail: true, ..content(2) },
    ];
    assert_eq!(content_progress(&gmail), ContentProgress { done: 1, total: 1, failed: 0 });
}

#[test]
fn jmap_adoption_never_relies_on_message_id_alone() {
    let row = |id: i64| DatedRow {
        row: MessageRow {
            id,
            account_id: 1,
            thread_id: Some(1),
            folder_id: Some(1),
            uid: Some(id),
            message_id: Some(text("mid-1")),
            subject: text("Subject"),
            size: Some(1234),
            is_read: false,
            is_starred: false,
            body_state: text("none"),
            raw_path: None,
            jmap_id: None,
            jmap_blob_id: None,
        },
        date: 5_000_000,
        internal_date: Some(1000),
    };
    let one = vec![row(4)];
    assert_eq!(jmap_adoption_candidate(&one, 1, "mid-1", "Subject", 1000, 1234), Some(0));
    assert_eq!(jmap_adoption_candidate(&one, 1, "mid-1", "Subject", 301_000, 1234), Some(0));
    assert_eq!(jmap_adoption_candidate(&one, 1, "mid-1", "Subject", 301_001, 1234), None);
    assert_eq!(jmap_adoption_candidate(&one, 1, "mid-1", "Other", 1000, 1234), None);
    assert_eq!(jmap_adoption_candidate(&one, 2, "mid-1", "Subject", 1000, 1234), None);
    assert_eq!(jmap_adoption_candidate(&one, 1, "mid-1", "Subject", 1000, 1), None);
    assert_eq!(jmap_adoption_candidate(&one, 1, "mid-1", "Subject", i64::MIN, 1234), None);
    let two = vec![row(4), row(5)];
    assert_eq!(jmap_adoption_candidate(&two, 1, "mid-1", "Subject", 1000, 1234), None);
}

#[test]
fn missing_bodies_obeys_content_retry_deadlines_and_all_folder_policy() {
    const NOW: i64 = 1_000;
    let rows = vec![
        ContentRow { date: 100, ..content(1) },
        ContentRow { failed: true, next_retry_at: Some(NOW + 1), ..content(2) },
        ContentRow { failed: true, next_retry_at: Some(NOW), date: 200, ..content(3) },
        ContentRow { failed: true, date: 150, ..content(4) },
        ContentRow { body_state: text("cached"), ..content(5) },
    ];
    let ids = |limit: i64, cutoff: Option<i64>| {
        missing_bodies(&rows, limit, NOW, cutoff).iter().map(|m| m.id).collect::<Vec<_>>()
    };
    assert_eq!(ids(20, None), [3, 4, 1]);
    assert_eq!(ids(20, Some(150)), [3, 4]);
    assert_eq!(ids(1, None), [3]);
    assert_eq!(ids(-1, None).len(), 3);
    // Generic IMAP accounts must not download duplicate content from the
    // special-use All folder. Gmail keeps All Mail as its canonical copy.
    let all = |gmail: bool| vec![ContentRow { gmail, role: Some(text("all")), ..content(99) }];
    assert!(missing_bodies(&all(false), 20, NOW, None).is_empty());
    assert_eq!(missing_bodies(&all(true), 20, NOW, None).len(), 1);
}

fn stored(id: i64, part: Option<&str>, filename: Option<&str>, mime: Option<&str>) -> AttachmentRow {
    AttachmentRow {
        id,
        part_id: part.map(text),
        filename: filename.map(text),
        mime_type: mime.map(text),
        size: None,
        content_id: None,
        is_inline: false,
        has_file: false,
        imap_section: None,
    }
}

fn found<'a>(part: Option<&'a str>, filename: Option<&'a str>, mime: Option<&'a str>) -> NewAttachment<'a> {
    NewAttachment {
        message_id: 1,
        part_id: part,
        filename,
        mime_type: mime,
        size: Some(900),
        content_id: None,
        is_inline: false,
    }
}

fn planned(section: &str, filename: Option<&str>, content_id: Option<&str>) -> PlannedAttachment {
    PlannedAttachment {
        section: text(section),
        filename: filename.map(text),
        mime_type: text("application/pdf"),
        size: 900,
        content_id: content_id.map(text),
        is_inline: false,
        transfer_encoding: text("base64"),
    }
}

#[test]
fn mime_plan_and_imap_section_roundtrip_without_replacing_legacy_ids() {
    let mut rows = vec![AttachmentRow {
        has_file: true,
        ..stored(5, Some("legacy-2"), Some("a.pdf"), Some("application/pdf"))
    }];
    let plan = || vec![planned("2", Some("a.pdf"), None)];
    assert_eq!(upsert_planned_attachments(&mut rows, &plan(), 6), [5]);
    assert_eq!(upsert_planned_attachments(&mut rows, &plan(), 6), [5]);
    assert_eq!(rows[0].imap_section.as_deref(), Some("2"));
    let rows = replace_attachments(
        rows,
        &vec![found(Some("0"), Some("a.pdf"), Some("application/pdf"))],
        6,
    );
    assert_eq!(rows.len(), 1);
    assert_eq!((rows[0].id, rows[0].part_id.as_deref(), rows[0].size), (5, Some("0"), Some(900)));
    assert!(rows[0].has_file);
    assert_eq!(rows[0].imap_section.as_deref(), Some("2"));
}

#[test]
fn attachments_are_matched_by_the_strongest_evidence() {
    // The part id is stronger than the name, and of two that match as well the older wins.
    let rows = || {
        vec![
            stored(3, None, Some("a.pdf"), None),
            stored(2, None, Some("a.pdf"), None),
            stored(1, Some("7"), Some("other"), None),
        ]
    };
    let after = replace_attachments(
        rows(),
        &vec![found(Some("7"), Some("a.pdf"), None), found(None, Some("a.pdf"), None)],
        10,
    );
    let ids: Vec<i64> = after.iter().map(|r| r.id).collect();
    assert_eq!(ids, [2, 1]);
    assert_eq!(after[1].filename.as_deref(), Some("a.pdf"));
    // What nothing matched is new; a stale descriptor goes, a planned one stays.
    let kept = AttachmentRow { imap_section: Some(text("3")), ..stored(4, None, Some("x"), None) };
    let after = replace_attachments(
        vec![stored(1, None, Some("stale"), None), kept],
        &vec![found(None, Some("new"), None), found(None, None, None)],
        10,
    );
    let ids: Vec<i64> = after.iter().map(|r| r.id).collect();
    assert_eq!(ids, [4, 10, 11]);
    // An anonymous part is known by its type and its size.
    let anonymous = AttachmentRow { size: Some(900), ..stored(8, None, None, Some("image/png")) };
    let after = replace_attachments(vec![anonymous], &vec![found(None, None, Some("image/png"))], 10);
    assert_eq!((after.len(), after[0].id), (1, 8));
}

#[test]
fn planned_attachments_adopt_legacy_rows() {
    let mut rows = vec![
        stored(1, None, Some("a.pdf"), None),
        AttachmentRow { has_file: true, ..stored(2, None, Some("a.pdf"), Some("application/pdf")) },
        AttachmentRow { content_id: Some(text("cid")), ..stored(3, None, None, None) },
        stored(4, None, Some("a.pdf"), Some("image/png")),
    ];
    let plan = vec![
        planned("1", Some("a.pdf"), Some("cid")),
        planned("2", Some("a.pdf"), None),
        planned("3", Some("new.pdf"), None),
    ];
    assert_eq!(upsert_planned_attachments(&mut rows, &plan, 20), [3, 2, 20]);
    assert_eq!(rows.len(), 5);
    assert_eq!(rows[2].filename.as_deref(), Some("a.pdf"));
    assert_eq!(rows[4].imap_section.as_deref(), Some("3"));
}

#[test]
fn changes_that_meet_no_row_are_reported() {
    assert!(require_changed(1, "message", 4).is_ok());
    assert_eq!(require_changed(0, "message", 4).unwrap_err().message(), "not found: message 4");
    assert_eq!(require_changed(0, "attachment", 5).unwrap_err().message(), "not found: attachment 5");
    assert_eq!(filter_sent(&vec![3, 1, 2], &vec![2, 3]), [3, 2]);
}

fn summary(id: i64, at: i64) -> ThreadSummary {
    ThreadSummary {
        id,
        account_id: 1,
        account_email: text("me@test.dev"),
        subject: String::new(),
        snippet: String::new(),
        participants: Vec::new(),
        last_message_at: at,
        message_count: 1,
        unread_count: 0,
        is_starred: false,
        has_attachments: false,
        has_replied: false,
        snoozed_until: None,
        labels: Vec::new(),
    }
}

/// Summaries come back in the fused ranking order, skipping ids that no longer exist.
#[test]
fn hydrate_preserves_ranking_order() {
    let rows = || vec![summary(1, 0), summary(2, 0), summary(3, 0)];
    let ids = |order: Vec<i64>| {
        get_summaries(&order, rows()).iter().map(|t| t.id).collect::<Vec<_>>()
    };
    assert_eq!(ids(vec![2, 3, 1]), [2, 3, 1]);
    assert_eq!(ids(vec![1, 9999, 3, 2]), [1, 3, 2]);
    assert_eq!(ids(vec![2, 2, 1]), [2, 1]);
}

#[test]
fn pages_tell_whether_more_follows() {
    let rows = |n: i64| (0..n).map(|i| summary(10 - i, 7)).collect::<Vec<_>>();
    let full = page(rows(3), 2);
    assert_eq!(full.threads.len(), 2);
    let cursor = full.next_cursor.unwrap();
    assert_eq!((cursor.last_message_at, cursor.thread_id), (7, 9));
    assert!(page(rows(2), 2).next_cursor.is_none());
    assert!(page(rows(0), -1).next_cursor.is_none());
    assert_eq!((count(5), count(-3)), (5, 0));
    assert_eq!(parse_id_list("1, 3,x,5"), [1, 3, 5]);
    assert!(parse_id_list("").is_empty());
    assert!(joins_by_subject("hello") && !joins_by_subject(""));
}

#[test]
fn references_are_followed_in_order() {
    let mut step = by_references(2);
    let mut asked = Vec::new();
    while let ReferenceStep::Named(_) | ReferenceStep::Sibling(_) = step {
        asked.push(step);
        step = step.next(None, 2);
    }
    assert_eq!(
        asked,
        [
            ReferenceStep::Named(0),
            ReferenceStep::Sibling(0),
            ReferenceStep::Named(1),
            ReferenceStep::Sibling(1),
        ]
    );
    assert_eq!(step, ReferenceStep::Found(None));
    assert_eq!(ReferenceStep::Sibling(0).next(Some(7), 2), ReferenceStep::Found(Some(7)));
    assert_eq!(by_references(0), ReferenceStep::Found(None));
}

#[test]
fn aggregates_are_made_of_the_messages() {
    let message = |date: i64, from: Option<&str>, name: Option<&str>| ThreadMessage {
        date,
        is_read: false,
        is_draft: false,
        is_starred: date == 3,
        has_attachments: date > 2,
        snippet: format!("at {date}"),
        from_name: name.map(text),
        from_addr: from.map(text),
    };
    let mut messages = vec![
        message(1, Some("a@x"), Some("Old A")),
        message(4, Some("A@X"), Some("New A")),
        message(3, Some("b@x"), None),
        message(2, None, None),
    ];
    messages[0].is_read = true;
    messages[3].is_draft = true;
    let t = recompute(&messages).unwrap();
    assert_eq!((t.last_message_at, t.message_count, t.unread_count), (4, 4, 2));
    assert_eq!((t.starred_count, t.attachment_count, t.snippet.as_str()), (1, 2, "at 4"));
    let who: Vec<(&str, Option<&str>)> =
        t.participants.iter().map(|p| (p.email.as_str(), p.name.as_deref())).collect();
    assert_eq!(who, [("A@X", Some("New A")), ("b@x", None)]);
    assert!(recompute(&Vec::new()).is_none());
    let many: Vec<ThreadMessage> =
        (0..9).map(|i| message(i, Some(["a", "b", "c", "d", "e", "f"][i as usize % 6]), None)).collect();
    assert_eq!(recompute(&many).unwrap().participants.len(), 5);
}

fn query(fts: &str, fts_or: &str) -> ParsedQuery {
    ParsedQuery {
        fts: text(fts),
        fts_or: text(fts_or),
        fts_not: String::new(),
        from: None,
        to: None,
        in_folder: None,
        is_unread: None,
        is_starred: None,
        has_attachment: None,
        account_id: None,
        terms: vec![text("be")],
    }
}

#[test]
fn candidates_are_capped_and_told_apart() {
    assert_eq!((candidate_cap(-5), candidate_cap(1), candidate_cap(20), candidate_cap(1000)), (50, 50, 80, 400));
    assert_eq!((shown_results(-5), shown_results(7)), (1, 7));
    assert_eq!(distinct_ids(&vec![3, 1, 3, 2, 1], 2), [3, 1]);
    assert_eq!(distinct_ids(&vec![3, 1, 3, 2, 1], 9), [3, 1, 2]);
    let allowed = vec![
        MessageThread { message_id: 1, thread_id: 10 },
        MessageThread { message_id: 2, thread_id: 10 },
        MessageThread { message_id: 4, thread_id: 11 },
    ];
    assert_eq!(allowed_message_ids(&vec![4, 3, 1], &allowed), [4, 1]);
    assert_eq!(vector_thread_ids(&vec![2, 3, 1, 4], &allowed, 50), [10, 11]);
    assert!(relaxes(&query("a b", "a OR b"), 0));
    assert!(!relaxes(&query("a", "a"), 0));
    assert!(!relaxes(&query("a b", "a OR b"), 1));
    let loose = relaxed(&query("a b", "a OR b"));
    assert_eq!((loose.fts.as_str(), loose.terms.len()), ("a OR b", 1));
}

#[test]
fn senders_match_by_the_start_of_their_words() {
    let terms = vec![text("be"), text("end"), text("zz")];
    assert_eq!(
        sender_match(&terms, "be don dep", "noreply@bendover.com"),
        [TermMatch::Start, TermMatch::Within, TermMatch::Nowhere]
    );
    assert_eq!(sender_match(&vec![text("be")], "x", "be@group.vn"), [TermMatch::Start]);
    assert_eq!(sender_match(&vec![text("be")], "x", "a.be-c@group.vn"), [TermMatch::Start]);
    assert_eq!(sender_match(&vec![text("group")], "x", "a@group.vn"), [TermMatch::Within]);
    let rows = vec![
        MessageSignal { thread_id: 1, date: 5, affinity: -4 },
        MessageSignal { thread_id: 2, date: 9, affinity: 1 },
        MessageSignal { thread_id: 1, date: 3, affinity: 7 },
    ];
    assert_eq!(thread_signal(&rows, 1), Some(ThreadSignal { date: 5, affinity: 7 }));
    assert_eq!(thread_signal(&rows, 3), None);
}

fn identity(email: &str, primary: bool, default: bool, status: &str) -> SenderIdentity {
    SenderIdentity {
        account_id: 1,
        email: text(email),
        display_name: None,
        reply_to_email: None,
        is_primary: primary,
        is_provider_default: default,
        verification_status: text(status),
        last_synced_at: 0,
    }
}

#[test]
fn only_verified_provider_identities_resolve() {
    let discovered = || {
        vec![
            identity("login@example.test", true, false, "accepted"),
            identity("work@example.test", false, true, "accepted"),
            identity("pending@example.test", false, false, "pending"),
        ]
    };
    let all = replace(Vec::new(), 1, discovered()).unwrap();
    assert!(get_verified(&all, 1, "WORK@example.test").is_some());
    assert!(get_verified(&all, 1, "pending@example.test").is_none());
    assert!(get_verified(&all, 2, "work@example.test").is_none());
    let k = resolve_default(&all, 1, None).unwrap();
    assert_eq!(all[k].email, "work@example.test");
    let k = resolve_default(&all, 1, Some("LOGIN@example.test")).unwrap();
    assert_eq!(all[k].email, "login@example.test");
    let k = resolve_default(&all, 1, Some("pending@example.test")).unwrap();
    assert_eq!(all[k].email, "work@example.test");
    let none = resolve_default(&all, 9, None).unwrap_err();
    assert_eq!(none.message(), "account has no authorized sender identity");
    let missing = check_discovered(&vec![identity("x@y", false, true, "accepted")]).unwrap_err();
    assert_eq!(missing.message(), "sender identity discovery omitted the primary address");
    assert!(replace(Vec::new(), 1, Vec::new()).is_err());
    // An address that is discovered twice replaces nothing.
    let mut twice = discovered();
    twice.push(identity("work@example.test", false, false, "pending"));
    assert_eq!(
        replace(discovered(), 1, twice).unwrap_err().message(),
        "database error: UNIQUE constraint failed: sender_identities.account_id, sender_identities.email"
    );
    let mut cased = discovered();
    cased.push(identity("WORK@example.test", false, false, "pending"));
    assert_eq!(replace(discovered(), 1, cased).unwrap().len(), 4);
    let order: Vec<String> = list(all).into_iter().map(|i| i.email).collect();
    assert_eq!(order, ["work@example.test", "login@example.test", "pending@example.test"]);
}

#[test]
fn every_account_has_its_own_address() {
    let mut all = Vec::new();
    ensure_primary(&mut all, 1, "me@test.dev", Some("Me"), 5);
    assert_eq!(resolve_default(&all, 1, None).unwrap(), 0);
    all[0].is_primary = false;
    all[0].verification_status = text("pending");
    ensure_primary(&mut all, 1, "me@test.dev", None, 9);
    assert_eq!(all.len(), 1);
    assert_eq!((all[0].display_name.as_deref(), all[0].is_primary), (Some("Me"), true));
    assert_eq!((all[0].verification_status.as_str(), all[0].last_synced_at), ("accepted", 5));
    ensure_primary(&mut all, 2, "me@test.dev", None, 9);
    assert_eq!(all.len(), 2);
}

#[test]
fn servers_take_back_only_what_they_brought() {
    let owned = Binding { contact_id: Some(5), owns_contact: true };
    let lent = Binding { contact_id: Some(5), owns_contact: false };
    assert_eq!(remove_remote(owned, 0, 0), Fate::Deleted(5));
    assert_eq!(remove_remote(owned, 0, 3), Fate::Unmanaged(5));
    assert_eq!(remove_remote(owned, 1, 0), Fate::Stays);
    assert_eq!(remove_remote(lent, 0, 0), Fate::Stays);
    assert!(takes_ownership(None, None));
    assert!(!takes_ownership(None, Some(4)));
    assert!(takes_ownership(Some(owned), Some(4)));
    assert_eq!(left_behind(Some(owned), true, 6), Some(5));
    assert_eq!(left_behind(Some(owned), true, 5), None);
    assert_eq!(left_behind(Some(lent), false, 6), None);
    assert_eq!(upsert_remote(Some(5), 0, 0), Fate::Deleted(5));
    assert_eq!(upsert_remote(Some(5), 0, 1), Fate::Stays);
    assert_eq!(upsert_remote(None, 0, 0), Fate::Stays);
    let books = vec![
        KnownBook { id: 1, url: text("https://a/") },
        KnownBook { id: 2, url: text("https://b/") },
    ];
    assert_eq!(retain_addressbooks(&books, &vec![text("https://b/")]), [1]);
    assert!(ensure_default(0) && !ensure_default(1));
    assert_eq!(
        contact_text(&record("Ada", "ada@example.com")),
        "Ada ada@example.com Analytical Engines    vip London"
    );
}

#[test]
fn new_contacts_stand_in_their_address_book() {
    assert_eq!(attach_new_contact(1, true, true), Attach::Known);
    assert_eq!(attach_new_contact(0, false, true), Attach::NoBook);
    assert_eq!(attach_new_contact(0, true, false), Attach::Gone);
    assert_eq!(attach_new_contact(0, true, true), Attach::Queue);
    let name = resource_name("urn:uuid:1b4e");
    assert_eq!(name, "1b4e.vcf");
    assert_eq!(resource_name("urn:uuid:urn:uuid:x"), "x.vcf");
    assert_eq!(
        contact_href("https://dav.example.test/book/", &name),
        Ok(text("/book/1b4e.vcf"))
    );
    assert_eq!(
        contact_href("https://dav.example.test/book?k=1", "a/b.vcf"),
        Ok(text("/book/a%2Fb.vcf?k=1"))
    );
    assert_eq!(contact_href("nonsense", &name), Err(HrefError::NotUrl));
    assert_eq!(contact_href("mailto:x@y", &name), Err(HrefError::NoPath));
}

#[test]
fn errors_are_written_for_clients() {
    let e = CoreError::NotFound(text("label \"7\""));
    assert_eq!(e.to_client_json(), r#"{"code":"not_found","message":"not found: label \"7\""}"#);
    assert_eq!(CoreError::from_json("eof").message(), "json: eof");
}

#[test]
fn texts_are_folded_without_case_and_accents() {
    assert_eq!(fold("R\u{c9}SUM\u{c9} \u{160}koda"), "resume skoda");
    assert_eq!(fold("e\u{301}te\u{301}"), "ete");
    assert_eq!(fold("Stra\u{df}e \u{f8}"), "stra\u{df}e \u{f8}");
}
