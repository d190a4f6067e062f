//! Databases, their snapshots, errors, and changes of nodes.

use flectar_mail_core::config::Paths;
use flectar_mail_core::db::snapshot::{
    check_destination, coordination_error, manifest, payload_entry, staging_name, verify_store,
    Barrier, BarrierAction, DatabaseSnapshotStore, PayloadEntry, PayloadWalk, StoreCheck,
};
use flectar_mail_core::db::{
    check_after, check_before, first_migration, quick_check, sqlite_sidecar, StoreKind,
};
use flectar_mail_core::error::{other, CoreError, KeyringFailure};
use flectar_mail_core::files::dates::Moment;
use flectar_mail_core::files::edit::{
    dav_edit, jmap_edit, put_date, share_patch, DavEdit, JmapEdit,
};
use flectar_mail_core::files::json::Json;
use flectar_mail_core::files::mail_search::{MailSearch, SearchPage};
use flectar_mail_core::files::service::Action;
use flectar_mail_core::files::transport::Transport;
use flectar_mail_core::files::FileNode;

fn convert(value: &serde_json::Value) -> Json {
    match value {
        serde_json::Value::Null => Json::Null,
        serde_json::Value::Bool(b) => Json::Bool(*b),
        serde_json::Value::Number(n) => match (n.as_u64(), n.as_i64()) {
            (Some(n), _) => Json::Unsigned(n),
            (_, Some(n)) => Json::Signed(n),
            _ => Json::Real(n.to_string()),
        },
        serde_json::Value::String(s) => Json::Text(s.clone()),
        serde_json::Value::Array(items) => Json::List(items.iter().map(convert).collect()),
        serde_json::Value::Object(fields) => {
            Json::Object(fields.iter().map(|(k, v)| (k.clone(), convert(v))).collect())
        }
    }
}

fn json(text: &str) -> Json {
    convert(&serde_json::from_str(text).unwrap())
}

fn failure<T>(r: Result<T, CoreError>) -> String {
    match r {
        Ok(_) => panic!("expected a failure"),
        Err(e) => e.message(),
    }
}

#[test]
fn newer_profiles_are_rejected_without_mutation() {
    let conn = rusqlite::Connection::open_in_memory().unwrap();
    conn.pragma_update(None, "user_version", 43).unwrap();
    let version: i64 = conn.pragma_query_value(None, "user_version", |r| r.get(0)).unwrap();
    let error = failure(first_migration(StoreKind::Mail, version, 42));
    assert!(error.contains("requires a newer application"));
    assert_eq!(
        error,
        "mail database schema 43 requires a newer application; open this profile with a compatible version. Existing data has not been changed."
    );
    let after: i64 = conn.pragma_query_value(None, "user_version", |r| r.get(0)).unwrap();
    assert_eq!(after, 43);
    assert_eq!(
        failure(first_migration(StoreKind::Files, 9, 3)),
        "Files database was created by a newer application."
    );
    assert_eq!(first_migration(StoreKind::Mail, 42, 42).ok(), Some(42));
    assert_eq!(first_migration(StoreKind::Mail, 0, 42).ok(), Some(0));
}

#[test]
fn stores_have_their_own_profiles() {
    assert!(StoreKind::Mail.profile().cache_size < 0);
    assert!(StoreKind::Mail.profile().mmap_size >= StoreKind::Calendar.profile().mmap_size);
    assert!(StoreKind::Mail.has_reader());
    assert!(!StoreKind::Calendar.has_reader());
    assert_eq!(StoreKind::Files.name(), "files");
    assert_eq!(sqlite_sidecar("/d/mail.db", "-wal"), "/d/mail.db-wal");
    assert!(quick_check("OK", "mail").is_ok());
    assert_eq!(failure(quick_check("row 1 missing", "mail")), "mail database quick_check failed: row 1 missing");
    assert!(check_before(true, false) && check_before(false, true) && !check_before(false, false));
    assert!(check_after(1, 2) && !check_after(2, 2));
}

fn store() -> DatabaseSnapshotStore {
    DatabaseSnapshotStore {
        file: "mail.sqlite3".to_owned(),
        schema_version: 7,
        sqlite_version: "3".to_owned(),
        page_count: 10,
        page_size: 4096,
    }
}

#[test]
fn snapshots_are_verified_against_what_was_captured() {
    let found = |schema_version, page_count, integrity: &str, foreign_key_violation| StoreCheck {
        schema_version,
        page_count,
        page_size: 4096,
        integrity: integrity.to_owned(),
        foreign_key_violation,
    };
    assert!(verify_store(&store(), &found(7, 10, "ok", false), "mail").is_ok());
    assert_eq!(
        failure(verify_store(&store(), &found(8, 10, "ok", false), "mail")),
        "mail snapshot schema changed during verification: expected 7, found 8"
    );
    assert_eq!(
        failure(verify_store(&store(), &found(7, 11, "ok", false), "mail")),
        "mail snapshot page geometry changed during verification: expected 10 pages of 4096 bytes, found 11 pages of 4096 bytes"
    );
    assert_eq!(
        failure(verify_store(&store(), &found(7, 10, "bad", false), "mail")),
        "mail snapshot integrity_check failed: bad"
    );
    assert_eq!(
        failure(verify_store(&store(), &found(7, 10, "ok", true), "mail")),
        "mail snapshot contains a foreign-key violation"
    );
}

#[test]
fn snapshots_never_overwrite() {
    assert_eq!(
        failure(check_destination(true, "/b/old", true)),
        "snapshot destination already exists: /b/old"
    );
    assert_eq!(
        failure(check_destination(false, "/", false)),
        "database snapshot destination has no parent directory"
    );
    assert!(check_destination(false, "/b/new", true).is_ok());
    assert_eq!(staging_name(Some("new"), 12, "ab").ok().as_deref(), Some(".new.partial-12-ab"));
    assert_eq!(
        failure(staging_name(None, 12, "ab")),
        "database snapshot destination has no directory name"
    );
    let m = manifest("t".to_owned(), "1".to_owned(), store(), store(), store(), true);
    assert_eq!((m.format.as_str(), m.version), ("flectar-mail-database-snapshot", 2));
    assert!(m.files.is_some() && m.file_transfer_payloads);
    assert!(coordination_error("start", "gone").message().contains("start"));
}

#[test]
fn writers_wait_for_every_copy() {
    let mut b = Barrier::new();
    assert_eq!(b.stopped(), BarrierAction::Wait);
    assert_eq!(b.stopped(), BarrierAction::Wait);
    assert_eq!(b.stopped(), BarrierAction::StartAll);
    assert_eq!(b.copy_ended(), BarrierAction::Wait);
    assert_eq!(b.copy_ended(), BarrierAction::Wait);
    assert_eq!(b.copy_ended(), BarrierAction::ReleaseAll);
}

#[test]
fn staged_payloads_are_copied_level_by_level() {
    assert_eq!(payload_entry(true, false).ok(), Some(PayloadEntry::Enter));
    assert_eq!(failure(payload_entry(false, false)), "Unexpected link in transfer staging.");
    let mut w = PayloadWalk::begin("/s", "/t");
    let mut depth = 0;
    while let Some(at) = w.next().ok().unwrap() {
        assert_eq!(at.depth, depth);
        assert_eq!(w.entry(&at, "/s/f", "/t/f", false, true).ok(), Some(true));
        if depth < 3 {
            assert_eq!(w.entry(&at, "/s/d", "/t/d", true, false).ok(), Some(false));
        }
        depth += 1;
    }
    assert_eq!(depth, 4);
    let mut deep = PayloadWalk::begin("/s", "/t");
    for _ in 0..=3 {
        let at = deep.next().ok().unwrap().unwrap();
        deep.entry(&at, "/s/d", "/t/d", true, false).ok().unwrap();
    }
    assert_eq!(failure(deep.next()), "Invalid transfer staging hierarchy.");
}

#[test]
fn errors_have_codes_and_messages() {
    let s = || "x".to_owned();
    for (e, code, message) in [
        (CoreError::Db(s()), "db", "database error: x"),
        (CoreError::Io(s()), "io", "io error: x"),
        (CoreError::Network(s()), "network", "network error: x"),
        (CoreError::Imap(s()), "imap", "imap error: x"),
        (CoreError::ImapParse(s()), "imap", "imap response parse error: x"),
        (CoreError::Jmap(s()), "jmap", "jmap error: x"),
        (CoreError::SendUncertain(s()), "send_uncertain", "send status uncertain: x"),
        (CoreError::Smtp(s()), "smtp", "smtp error: x"),
        (CoreError::Tls(s()), "tls", "tls error: x"),
        (CoreError::Auth(s()), "auth", "auth failed: x"),
        (CoreError::NeedsReauth, "needs_reauth", "account needs re-authentication"),
        (
            CoreError::CredentialStoreUnavailable(s()),
            "credential_store_unavailable",
            "secure credential storage is unavailable: x",
        ),
        (CoreError::Keyring(s()), "keyring", "keyring error: x"),
        (CoreError::Mime(s()), "mime", "mime error: x"),
        (CoreError::CalDav(s()), "caldav", "caldav error: x"),
        (CoreError::NotFound(s()), "not_found", "not found: x"),
        (CoreError::Offline, "offline", "offline"),
        (CoreError::AiNotConfigured, "ai_not_configured", "AI is not configured"),
        (CoreError::Other(s()), "other", "x"),
    ] {
        assert_eq!((e.code(), e.message().as_str()), (code, message));
    }
    assert_eq!(other("why").message(), "why");
    let shown: serde_json::Value =
        serde_json::from_str(&other("say \"it\"\n").to_client_json()).unwrap();
    assert_eq!(shown["message"], "say \"it\"\n");
    assert_eq!(shown["code"], other("x").code());
    assert!(matches!(
        CoreError::from_keyring(KeyringFailure::NoAccess),
        CoreError::CredentialStoreUnavailable(_)
    ));
    assert!(matches!(
        CoreError::from_keyring(KeyringFailure::Reported("no entry".to_owned())),
        CoreError::Keyring(_)
    ));
}

#[test]
fn paths_need_a_platform_directory() {
    assert!(Paths::default_dirs(None, Some("/c".to_owned())).is_err());
    let p = Paths::default_dirs(Some("/d".to_owned()), Some("/c".to_owned())).ok().unwrap();
    assert!(p.db_file().starts_with("/d/"));
    assert!(p.temp_dir().starts_with("/c/"));
    assert!(Paths::for_tests("/t").required_dirs().iter().all(|d| d == "/t" || d.starts_with("/t/")));
}

fn patch(r: Result<JmapEdit, String>) -> Json {
    match r {
        Ok(JmapEdit::Update(j)) => j,
        _ => panic!("expected a patch"),
    }
}

#[test]
fn metadata_dates_are_sent_in_utc() {
    let n = FileNode { node_type: Some("file".to_owned()), ..Default::default() };
    let j = patch(jmap_edit(&n, Action::Metadata, "2024-05-01T12:00:00+02:00||", "x", None));
    assert_eq!(j.text_at("created"), Some("2024-05-01T10:00:00Z"));
    assert_eq!(j.bool_at("executable"), Some(true));
    assert!(j.get("modified").is_none());
    match jmap_edit(&n, Action::Metadata, "|yesterday|", "", None) {
        Err(m) => assert_eq!(m, "Enter a valid modified date with its UTC offset."),
        Ok(_) => panic!("expected a refusal"),
    }
    match jmap_edit(&n, Action::Metadata, "|", "", None) {
        Err(m) => assert_eq!(m, "Invalid dates."),
        Ok(_) => panic!("expected a refusal"),
    }
    let j = patch(jmap_edit(&n, Action::Move, "b.txt", "", Some("p")));
    assert_eq!((j.text_at("name"), j.text_at("parentId")), (Some("b.txt"), Some("p")));
    assert!(jmap_edit(&n, Action::Share, "", "", None).is_err());
    assert!(matches!(jmap_edit(&n, Action::Share, "ann", "", None), Ok(JmapEdit::Share)));
    assert!(jmap_edit(&n, Action::Lock, "", "", None).is_err());
}

#[test]
fn dates_are_put_as_they_were_read() {
    let moment = || Moment {
        seconds: 1_714_557_600,
        nanos: 0,
        millis: 1_714_557_600_000,
        utc: "2024-05-01T10:00:00Z".to_owned(),
    };
    let j = put_date(Json::object(), "created", Some(moment())).unwrap();
    assert_eq!(j.text_at("created"), Some("2024-05-01T10:00:00Z"));
    match put_date(Json::object(), "accessed", None) {
        Err(m) => assert_eq!(m, "Enter a valid accessed date with its UTC offset."),
        Ok(_) => panic!("expected a refusal"),
    }
}

#[test]
fn shares_are_patched_by_pointer() {
    let j = share_patch(true, "a/b~c", Action::Share, "wd");
    let rights = j.get("shareWith/a~1b~0c").unwrap();
    assert_eq!(rights.bool_at("mayRead"), Some(true));
    assert_eq!(rights.bool_at("mayModifyContent"), Some(true));
    assert_eq!(rights.bool_at("mayShare"), Some(false));
    let old = share_patch(false, "x", Action::Share, "a");
    assert_eq!(old.get("shareWith/x").unwrap().bool_at("mayWrite"), Some(true));
    assert!(matches!(
        share_patch(true, "x", Action::Unshare, "").get("shareWith/x"),
        Some(Json::Null)
    ));
    assert!(matches!(dav_edit(Action::Copy, "", ""), DavEdit::Relocate(true)));
    assert!(matches!(dav_edit(Action::Lock, "60", "sr"), DavEdit::Lock(true, true, 60)));
    assert!(matches!(dav_edit(Action::Lock, "", ""), DavEdit::Lock(false, false, 300)));
    match dav_edit(Action::Share, "", "ws") {
        DavEdit::Share(p, removed) => {
            assert_eq!(p, ["read", "write-content", "write-acl"]);
            assert!(!removed);
        }
        _ => panic!("expected a share"),
    }
    match dav_edit(Action::Metadata, "v", "urn:x|title") {
        DavEdit::Patch(ns, name, value) => {
            assert_eq!((ns.as_str(), name.as_str()), ("urn:x", "title"));
            assert_eq!(value.as_deref(), Some("v"));
        }
        _ => panic!("expected a patch"),
    }
}

fn mail() -> MailSearch {
    let transport = Transport::new("https://mail.example.org", "user", "secret").ok().unwrap();
    let session = json(
        r#"{"capabilities":{"urn:ietf:params:jmap:core":{"maxObjectsInGet":2},"urn:ietf:params:jmap:mail":{}},
        "primaryAccounts":{"urn:ietf:params:jmap:mail":"m"},
        "accounts":{"m":{"name":"M","accountCapabilities":{"urn:ietf:params:jmap:mail":{}}}},
        "apiUrl":"https://mail.example.org/jmap","uploadUrl":"https://mail.example.org/up/{accountId}",
        "downloadUrl":"https://mail.example.org/d/{accountId}/{blobId}/{name}?type={type}"}"#,
    );
    MailSearch::from_session(transport, session, 7, None).ok().unwrap()
}

#[test]
fn server_mail_is_searched_page_by_page() {
    let search = mail();
    assert_eq!(search.account, "m");
    assert!(search.search("plans", 0).is_ok());
    assert_eq!(failure(search.search(&"x".repeat(1025), 0)), "Search is too long.");
    let email = json(
        r#"{"id":"e1","receivedAt":"2024-05-01T10:00:00Z","subject":"Plans","from":[{"name":"Ann"}],
        "attachments":[{"blobId":"b1","name":"a.pdf","type":"application/pdf","size":9}]}"#,
    );
    assert_eq!(search.received(&email), 1714557600000);
    let files = search.email_files(&email, search.received(&email)).ok().unwrap();
    assert_eq!(files.len(), 1);
    assert_eq!(
        (files[0].filename.as_str(), files[0].size, files[0].account_id, files[0].date),
        ("a.pdf", 9, 7, 1714557600000)
    );
    assert!(search.email_files(&json("{}"), 0).is_err());
    let query = json(r#"{"ids":["e1"],"queryState":"q","total":1,"position":0}"#);
    let page = SearchPage::begin(0, &query).ok().unwrap();
    let ids = page.next_ids(search.max_get()).unwrap();
    assert_eq!(ids, ["e1"]);
    let url = search.download_url(files[0].remote.as_ref().unwrap(), "a b.pdf", "application/pdf");
    assert_eq!(
        url.ok().as_deref(),
        Some("https://mail.example.org/d/m/b1/a%20b.pdf?type=application%2Fpdf")
    );
}
