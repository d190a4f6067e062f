//! The files workspace: its cache, its operations, its synchronization and its transfers.

use flectar_mail_core::error::CoreError;
use flectar_mail_core::files::cache::{
    content, content_key, download_budget, evict_remote, is_leftover, remote_key, safe_key, trim,
    validator, write_hex, CachedFile, ContentSource, CACHE_BUDGET,
};
use flectar_mail_core::files::course::{Act, Course, Event, Stage};
use flectar_mail_core::files::jmap::{BrowseOptions, FileClient, FilePage};
use flectar_mail_core::files::json::Json;
use flectar_mail_core::files::listing::GetReply;
use flectar_mail_core::files::mail_search::{AttachmentFile, RemoteAttachment};
use flectar_mail_core::files::perform::{perform, Command, Source};
use flectar_mail_core::files::progress::{begin, bytes, Progress};
use flectar_mail_core::files::render::{
    details, indexed_status, quota_text, safe_name, size, QuotaLine,
};
use flectar_mail_core::files::service::{
    check_resumed, connect_attachment_search, connect_files, ended, settle, staged_path,
    unknown_action, AccountLogin, Action, Entry, FilesService, Settlement, Transfer,
};
use flectar_mail_core::files::store::{
    activity_entry, cancelled_with_connection, connection_changed, describe, is_stale_staging,
    legacy_settings, operation, orphaned, OperationState,
};
use flectar_mail_core::files::projection::StoreStep;
use flectar_mail_core::files::sync::{
    begin_delta, can_remove, check_destroyed, plan, reuse_listing, revoked, RecordedSpace, Scan,
    SyncPlan, Walk,
};
use flectar_mail_core::repo::actions::ActionState;
use flectar_mail_core::files::text_index::{
    find_charset, index_text, indexable, may_store, supported, Charset, TextSource,
};
use flectar_mail_core::files::transfer::{
    check_copied, check_push_stream, check_upload, is_file_change, needs_lookup, principal_args, read_push_line,
    resolve_principal, Download, PushReader, Upload,
};
use flectar_mail_core::files::transport::Transport;
use flectar_mail_core::files::tree::{removed_nodes, Placed};
use flectar_mail_core::files::{ConnectionSettings, FileNode, Rights, MAX_TRANSFER};
use sha2::Digest;

fn convert(value: &serde_json::Value) -> Json {
    match value {
        serde_json::Value::Null => Json::Null,
        serde_json::Value::Bool(b) => Json::Bool(*b),
        serde_json::Value::Number(n) => match (n.as_u64(), n.as_i64()) {
            (Some(n), _) => Json::Unsigned(n),
            (_, Some(n)) => Json::Signed(n),
            _ => Json::Real(n.to_string()),
        },
        serde_json::Value::String(s) => Json::Text(s.clone()),
        serde_json::Value::Array(items) => Json::List(items.iter().map(convert).collect()),
        serde_json::Value::Object(fields) => {
            Json::Object(fields.iter().map(|(k, v)| (k.clone(), convert(v))).collect())
        }
    }
}

fn json(text: &str) -> Json {
    convert(&serde_json::from_str(text).unwrap())
}

fn failure<T>(r: Result<T, CoreError>) -> String {
    match r {
        Ok(_) => panic!("expected a failure"),
        Err(e) => e.message(),
    }
}

fn refusal<T>(r: Result<T, String>) -> String {
    match r {
        Ok(_) => panic!("expected a refusal"),
        Err(m) => m,
    }
}

fn file(id: &str, name: &str) -> FileNode {
    FileNode {
        id: id.to_owned(),
        name: name.to_owned(),
        node_type: Some("file".to_owned()),
        my_rights: Rights { may_read: true, ..Default::default() },
        ..Default::default()
    }
}

fn folder(id: &str, name: &str) -> FileNode {
    FileNode {
        id: id.to_owned(),
        name: name.to_owned(),
        node_type: Some("directory".to_owned()),
        my_rights: Rights { may_read: true, ..Default::default() },
        ..Default::default()
    }
}

fn hex_of(text: &str) -> String {
    sha2::Sha256::digest(text.as_bytes()).iter().map(|b| format!("{b:02x}")).collect()
}

#[test]
fn cached_contents_are_named_by_space_node_and_version() {
    let mut n = file("node", "a.txt");
    n.blob_id = Some("blob".to_owned());
    n.etag = Some("tag".to_owned());
    assert_eq!(validator(&n), "blob");
    assert_eq!(content_key(7, &n), hex_of("7\0node\0blob"));
    n.blob_id = Some("https://files.example.org/a".to_owned());
    assert_eq!(validator(&n), "tag");
    assert_eq!(content_key(-7, &n), hex_of("-7\0node\0tag"));
    n.etag = None;
    assert_eq!(validator(&n), "");
    let remote = RemoteAttachment {
        account: "acc".to_owned(),
        email: "mail".to_owned(),
        blob: "part".to_owned(),
    };
    assert_eq!(remote_key(&remote), hex_of("acc\0part"));
    assert_eq!(write_hex(&vec![0, 15, 160, 255]), "000fa0ff");
    assert!(safe_key(&content_key(1, &n)));
    assert!(!safe_key("../escape"));
    assert!(!safe_key(&"g".repeat(64)));
    assert!(!safe_key(&"a".repeat(63)));
}

#[test]
fn contents_are_read_with_permission_from_the_cache_first() {
    let mut n = file("node", "a.txt");
    n.blob_id = Some("blob".to_owned());
    assert_eq!(content(&n, Some(5), Some(5), false).ok(), Some(ContentSource::Cached));
    assert_eq!(content(&n, Some(5), Some(5), true).ok(), Some(ContentSource::Cached));
    assert_eq!(content(&n, Some(5), Some(4), false).ok(), Some(ContentSource::Remote));
    assert_eq!(content(&n, Some(-1), Some(u64::MAX), false).ok(), Some(ContentSource::Remote));
    assert_eq!(content(&n, None, Some(4), false).ok(), Some(ContentSource::Remote));
    assert_eq!(
        failure(content(&n, None, None, true)),
        "This file is not available offline. Connect and choose Keep offline first."
    );
    n.blob_id = None;
    assert_eq!(content(&n, Some(5), Some(5), false).ok(), Some(ContentSource::Remote));
    assert_eq!(failure(content(&folder("d", "d"), None, None, false)), "Select a file.");
    n.my_rights.may_read = false;
    assert_eq!(
        failure(content(&n, None, None, false)),
        "You do not have permission to read this file."
    );
}

#[test]
fn cache_eviction_takes_the_longest_unused_and_no_more() {
    assert_eq!(download_budget(), 2147483648 - 536870912);
    assert_eq!(trim(100, &vec![10, 20, 30], 100).ok(), Some(0));
    assert_eq!(trim(100, &vec![10, 20, 30], 75).ok(), Some(2));
    assert_eq!(trim(100, &vec![10, 20, 30], 40).ok(), Some(3));
    assert_eq!(
        failure(trim(100, &vec![10, 20, 30], 39)),
        "Offline files fill the 2 GiB account cache. Release an offline copy before downloading another file."
    );
    assert_eq!(trim(CACHE_BUDGET, &vec![], CACHE_BUDGET).ok(), Some(0));
}

#[test]
fn unreferenced_versions_leave_the_cache() {
    let known = content_key(1, &file("a", "a"));
    let unknown = content_key(1, &file("b", "b"));
    let recorded = vec![known.clone()];
    assert!(is_leftover(&unknown, &recorded, true));
    assert!(!is_leftover(&known, &recorded, true));
    assert!(!is_leftover(&unknown, &recorded, false));
    assert!(!is_leftover("notes.txt", &recorded, true));
}

#[test]
fn remote_attachments_leave_oldest_first() {
    let entry = |modified: Option<i128>, path: &str, size: u64| CachedFile {
        modified,
        path: path.to_owned(),
        size,
    };
    let small = vec![entry(Some(1), "a", 10), entry(None, "b", 10)];
    assert!(evict_remote(small).is_empty());
    let large = vec![
        entry(Some(30), "new", 1_000_000_000),
        entry(Some(10), "old", 600_000_000),
        entry(None, "unknown", 100_000_000),
        entry(Some(20), "middle", 500_000_000),
    ];
    assert_eq!(evict_remote(large), ["unknown", "old"]);
    let huge = vec![entry(Some(1), "x", u64::MAX), entry(Some(2), "y", u64::MAX)];
    assert_eq!(evict_remote(huge), ["x"]);
}

#[test]
fn interrupted_operations_become_uncertain() {
    assert_eq!(
        OperationState::Running.recover(),
        (
            OperationState::Uncertain,
            Some("Interrupted during a server request. Refresh and reconcile before retrying.")
        )
    );
    assert_eq!(
        OperationState::Preparing.recover(),
        (
            OperationState::Failed,
            Some("Interrupted while staging an upload. Select the source again.")
        )
    );
    for s in [
        OperationState::Queued,
        OperationState::Completed,
        OperationState::Uncertain,
        OperationState::Failed,
        OperationState::Cancelled,
    ] {
        assert_eq!(s.recover(), (s, None));
        assert_eq!(OperationState::from_name(s.as_str()), Some(s));
    }
    assert_eq!(OperationState::from_name("done"), None);
}

#[test]
fn operations_say_what_they_are_about() {
    let payload = json(
        r#"{"a":"arg","node":{"name":"report.txt"},"history":[{"name":"Team"},{"id":1},{"name":"Q1"}]}"#,
    );
    assert_eq!(describe(&payload), "/Team / Q1 · report.txt");
    assert_eq!(describe(&json(r#"{"a":"New folder"}"#)), "/ · New folder");
    assert_eq!(describe(&json(r#"{"a":"x","stagedName":"up.bin"}"#)), "/ · up.bin");
    assert_eq!(describe(&json("{}")), "/ · ");
    let o = operation(
        3,
        "upload".to_owned(),
        "queued".to_owned(),
        String::new(),
        -1,
        &json(r#"{"stagedName":"up.bin"}"#),
    );
    assert_eq!((o.id, o.bytes, o.description.as_str()), (3, 0, "/ · up.bin"));
    assert_eq!(activity_entry(3, "upload", "failed", "No."), "#3 · upload · failed\nNo.");
}

#[test]
fn earlier_settings_and_removed_accounts_are_told_apart() {
    assert_eq!(legacy_settings("files:7", &vec![1, 7]), Some(7));
    assert_eq!(legacy_settings("files:8", &vec![1, 7]), None);
    assert_eq!(legacy_settings("files:x", &vec![1, 7]), None);
    assert_eq!(legacy_settings("mail:7", &vec![1, 7]), None);
    assert_eq!(orphaned(&vec![1, 2, 3, 4], &vec![2, 4]), [1, 3]);
    assert!(is_stale_staging("1", "9", &vec![(1, 8), (2, 9)]));
    assert!(!is_stale_staging("1", "9", &vec![(1, 9)]));
    assert!(!is_stale_staging("one", "9", &vec![]));
    assert!(connection_changed(Some("{}"), "{\"webdav\":true}"));
    assert!(!connection_changed(Some("{}"), "{}"));
    assert!(!connection_changed(None, "{}"));
    assert!(cancelled_with_connection(OperationState::Queued));
    assert!(cancelled_with_connection(OperationState::Preparing));
    assert!(!cancelled_with_connection(OperationState::Uncertain));
}

#[test]
fn synchronization_reads_only_what_changed() {
    assert_eq!(plan(None), SyncPlan::Scan);
    let nothing = json(r#"{"created":[],"updated":[],"destroyed":[]}"#);
    assert_eq!(plan(Some(&nothing)), SyncPlan::Skip);
    let some = json(
        r#"{"created":["a"],"updated":["b"],"destroyed":["c"],"hasMoreChanges":false,"newState":"s2"}"#,
    );
    assert_eq!(plan(Some(&some)), SyncPlan::Delta);
    let more = json(r#"{"created":["a"],"updated":[],"destroyed":[],"hasMoreChanges":true}"#);
    assert_eq!(plan(Some(&more)), SyncPlan::Scan);
    assert_eq!(plan(Some(&json(r#"{"created":["a"]}"#))), SyncPlan::Scan);
    let mut delta = begin_delta(&some).unwrap();
    assert_eq!(delta.state, "s2");
    assert_eq!(delta.changed, ["a", "b"]);
    assert_eq!(delta.destroyed, ["c"]);
    assert!(begin_delta(&more).is_none());
    let reply = |state: &str, list: Vec<FileNode>| GetReply { state: Some(state.to_owned()), list };
    assert!(delta.accepts(&reply("s2", vec![file("a", "a")])));
    assert!(!delta.accepts(&reply("s3", vec![file("a", "a")])));
    assert!(!delta.accepts(&reply("s2", vec![])));
    assert!(!delta.accepts(&reply("s2", vec![folder("a", "a")])));
    delta.take(file("a", "a"), Rights { may_read: true, may_write: true, ..Default::default() });
    assert!(delta.nodes[0].my_rights.may_write);
    assert!(check_destroyed(&some).is_ok());
    assert_eq!(failure(check_destroyed(&json("{}"))), "Invalid file changes.");
    assert!(can_remove(&vec![file("a", "a")]));
    assert!(!can_remove(&vec![file("a", "a"), folder("b", "b")]));
}

#[test]
fn interrupted_scans_are_noticed() {
    let page = |state: &str, query: &str, next: Option<usize>| FilePage {
        nodes: vec![],
        state: state.to_owned(),
        query_state: query.to_owned(),
        next_position: next,
    };
    let (mut scan, first) = Scan::begin();
    assert!(matches!(first, StoreStep::Discard));
    let (steps, taken) = scan.page(page("s", "q", Some(100)));
    assert!(taken.is_ok());
    assert!(matches!(&steps[..], [StoreStep::Stage(_)]));
    assert!(!scan.complete);
    assert_eq!(scan.position, 100);
    // A page that does not get on is staged before the scan ends.
    let (steps, taken) = scan.page(page("s", "q", Some(100)));
    assert!(matches!(&steps[..], [StoreStep::Stage(_)]));
    assert_eq!(failure(taken), "Invalid file pagination.");
    for (state, query) in [("t", "q"), ("s", "r")] {
        let (steps, taken) = scan.page(page(state, query, None));
        assert!(steps.is_empty());
        assert_eq!(
            failure(taken),
            "Storage changed during synchronization; the last complete cache was preserved."
        );
    }
    assert!(!scan.complete);
    let (steps, taken) = scan.page(page("s", "q", None));
    assert!(taken.is_ok());
    assert!(matches!(
        &steps[..],
        [StoreStep::Stage(_), StoreStep::Publish(Some(state))] if state == "s"
    ));
    assert!(scan.complete);
    assert_eq!(scan.position, 100);
}

/// A store that takes the steps of a scan in memory.
#[derive(Default)]
struct Recorded {
    tree: Vec<FileNode>,
    state: Option<String>,
    staged: Vec<FileNode>,
}

fn put(list: &mut Vec<FileNode>, n: FileNode) {
    match list.iter().position(|known| known.id == n.id) {
        Some(at) => list[at] = n,
        None => list.push(n),
    }
}

impl Recorded {
    fn run(&mut self, steps: Vec<StoreStep>) {
        for step in steps {
            match step {
                StoreStep::Discard => self.staged.clear(),
                StoreStep::Stage(list) => {
                    for n in list {
                        put(&mut self.staged, n);
                    }
                }
                StoreStep::Listed(_, _) => {}
                StoreStep::Publish(state) => {
                    self.tree = std::mem::take(&mut self.staged);
                    self.state = state;
                }
                StoreStep::Remove(id) => self.tree.retain(|n| n.id != id),
                StoreStep::Record(n) => put(&mut self.tree, n),
                StoreStep::Reach(state) => self.state = Some(state),
            }
        }
    }
}

#[test]
fn interrupted_scan_keeps_committed_tree_and_cursor_together() {
    let page = |state: &str, next: Option<usize>, n: FileNode| FilePage {
        nodes: vec![n],
        state: state.to_owned(),
        query_state: "q".to_owned(),
        next_position: next,
    };
    let mut store = Recorded::default();
    let (mut scan, first) = Scan::begin();
    store.run(vec![first]);
    store.run(scan.page(page("s1", None, file("a", "Original"))).0);
    let (mut scan, first) = Scan::begin();
    store.run(vec![first]);
    store.run(scan.page(page("s2", Some(1), file("b", "Incomplete"))).0);
    assert_eq!(store.tree[0].id, "a");
    assert_eq!(store.state.as_deref(), Some("s1"));
    // A restart discards incomplete staging before accepting new pages.
    let (mut scan, first) = Scan::begin();
    store.run(vec![first]);
    store.run(scan.page(page("s2", None, file("c", "Complete"))).0);
    assert_eq!(store.tree.len(), 1);
    assert_eq!(store.tree[0].id, "c");
    assert_eq!(store.state.as_deref(), Some("s2"));
}

#[test]
fn applied_changes_touch_only_what_changed() {
    let mut store = Recorded::default();
    store.run(vec![
        StoreStep::Stage(vec![file("a", "a"), file("b", "b"), file("c", "c")]),
        StoreStep::Publish(Some("s1".to_owned())),
    ]);
    let changes = json(
        r#"{"created":[],"updated":["b"],"destroyed":["c"],"newState":"s2","hasMoreChanges":false}"#,
    );
    let mut delta = begin_delta(&changes).unwrap();
    delta.take(file("b", "renamed"), Rights::default());
    store.run(delta.steps());
    let shown: Vec<(&str, &str)> =
        store.tree.iter().map(|n| (n.id.as_str(), n.name.as_str())).collect();
    assert_eq!(shown, [("a", "a"), ("b", "renamed")]);
    assert_eq!(store.state.as_deref(), Some("s2"));
}

#[test]
fn folders_are_walked_once_and_not_too_deep() {
    let (mut walk, first) = Walk::begin("root");
    assert!(matches!(first, StoreStep::Discard));
    let token = || Some("t".to_owned());
    let at = walk.next().ok().unwrap().unwrap();
    assert_eq!((at.url.as_str(), at.parent.as_deref(), at.depth), ("root", None, 0));
    let taken = walk.found(&at, vec![folder("d", "d"), file("f", "f")], token());
    assert!(matches!(
        &taken[..],
        [StoreStep::Stage(list), StoreStep::Listed(key, Some(token))]
            if list.iter().all(|n| n.parent_id.is_none()) && key.is_empty() && token == "t"
    ));
    let at = walk.next().ok().unwrap().unwrap();
    assert_eq!((at.url.as_str(), at.parent.as_deref(), at.depth), ("d", Some("d"), 1));
    let taken = walk.found(&at, vec![file("g", "g"), folder("root", "root")], None);
    assert!(matches!(
        &taken[..],
        [StoreStep::Stage(list), StoreStep::Listed(key, None)]
            if list.iter().all(|n| n.parent_id.as_deref() == Some("d")) && key == "d"
    ));
    assert_eq!(failure(walk.next()), "Invalid WebDAV folder hierarchy.");
    assert!(walk.next().ok().unwrap().is_none());
    assert!(matches!(walk.finish(), StoreStep::Publish(None)));
    let (mut deep, _) = Walk::begin("0");
    for depth in 0..=64 {
        let at = deep.next().ok().unwrap().unwrap();
        assert_eq!(at.depth, depth);
        deep.found(&at, vec![folder(&format!("{}", depth + 1), "d")], None);
    }
    assert_eq!(failure(deep.next()), "Invalid WebDAV folder hierarchy.");
}

#[test]
fn revoked_spaces_and_unchanged_folders_are_found() {
    let recorded = vec![
        RecordedSpace { id: 1, remote: "mine".to_owned() },
        RecordedSpace { id: 2, remote: "gone".to_owned() },
    ];
    assert_eq!(revoked(&recorded, &vec!["mine".to_owned(), "new".to_owned()]), [2]);
    assert_eq!(reuse_listing(Some((false, "t2".to_owned()))), Some("t2".to_owned()));
    assert_eq!(reuse_listing(Some((true, "t2".to_owned()))), None);
    assert_eq!(reuse_listing(None), None);
}

#[test]
fn sizes_are_worded_as_rounded_tenths() {
    for n in [
        0u64,
        1,
        1023,
        1024,
        1025,
        1075,
        1126,
        1177,
        1536,
        1588,
        2048,
        52428,
        1048575,
        1048576,
        1572864,
        1625292,
        536870912,
        u64::MAX,
        u64::MAX - 1024,
        9007199254740993,
        12345678901234567,
    ] {
        let expected = match n {
            0..=1023 => format!("{n} B"),
            1024..=1048575 => format!("{:.1} KB", n as f64 / 1024.0),
            _ => format!("{:.1} MB", n as f64 / (1024.0 * 1024.0)),
        };
        assert_eq!(size(n), expected);
    }
}

#[test]
fn rows_are_described() {
    assert_eq!(safe_name("report.txt"), "report.txt");
    assert_eq!(safe_name("../report"), "download");
    assert_eq!(safe_name(""), "download");
    assert_eq!(indexed_status(3), "Indexed 3 cached text attachments. Text, JSON and XML up to 1 MiB are supported; other formats remain searchable by metadata.");
    let attachment = Entry::Attachment(AttachmentFile {
        remote: None,
        id: 1,
        account_id: 1,
        thread_id: None,
        filename: "a.pdf".to_owned(),
        media_type: "application/pdf".to_owned(),
        size: 2048,
        sender: "Ann".to_owned(),
        subject: "Plans".to_owned(),
        date: 0,
        cached: false,
    });
    let text = details(&attachment, &None);
    assert!(text.starts_with("a.pdf\napplication/pdf · 2.0 KB"));
    let text = quota_text(&vec![QuotaLine {
        name: Some("Storage".to_owned()),
        used: "1".to_owned(),
        limit: "2".to_owned(),
        unit: Some("octets".to_owned()),
    }]);
    assert!(text.contains("Storage") && text.contains('1') && text.contains('2'));
}

#[test]
fn transfers_report_every_byte() {
    let mut p = Progress { done: 0, total: 0, phase: 0 };
    assert!(begin(Some(&mut p), 2, 10));
    p.advance(4);
    p.advance(6);
    let s = p.snapshot();
    assert_eq!((s.done, s.total, s.phase), (10, 10, 2));
    assert_eq!(bytes(Some(&p)), 10);
    assert_eq!(bytes(None), 0);
    assert!(!begin(None, 1, 1));
    p.reset();
    assert_eq!(bytes(Some(&p)), 0);
}

#[test]
fn uploads_send_exactly_their_length() {
    assert!(check_upload(true, 10, 10).is_ok());
    assert!(check_upload(true, 11, 10).is_err());
    assert!(check_upload(false, 1, 10).is_err());
    let mut u = Upload::begin(6);
    assert!(!u.done());
    assert!(u.chunk(4).is_ok());
    assert!(u.chunk(2).is_ok());
    assert!(u.done());
    let mut short = Upload::begin(6);
    assert!(short.chunk(0).is_err());
}

#[test]
fn downloads_are_bounded() {
    assert!(Download::begin(Some(MAX_TRANSFER as u64 + 1)).is_err());
    let mut d = Download::begin(Some(10)).ok().unwrap();
    assert!(d.chunk(10).is_ok());
    assert_eq!(d.total, 10);
    let mut d = Download::begin(None).ok().unwrap();
    assert!(d.chunk(MAX_TRANSFER).is_ok());
    assert!(d.chunk(1).is_err());
    assert!(check_copied(MAX_TRANSFER as u64).is_ok());
    assert!(check_copied(MAX_TRANSFER as u64 + 1).is_err());
}

#[test]
fn push_events_are_read_line_by_line() {
    let mut reader = PushReader::new();
    let mut events = Vec::new();
    for b in "event: state\ndata: {\"changed\":1}\r\n: note\ndata:x\n".bytes() {
        if let Some(e) = reader.byte(b).ok().unwrap() {
            events.push(e);
        }
    }
    assert_eq!(events.first().map(String::as_str), Some("{\"changed\":1}"));
    assert_eq!(events.len(), 2);
    assert_eq!(read_push_line("event: x"), None);
    let mut long = PushReader::new();
    let mut refused = false;
    for _ in 0..70000 {
        if long.byte(b'a').is_err() {
            refused = true;
            break;
        }
    }
    assert!(refused);
    let mut bad = PushReader::new();
    let mut event = None;
    for b in b"data: \xff\n" {
        event = event.or(bad.byte(*b).ok().unwrap());
    }
    assert_eq!(event.as_deref(), Some("\u{fffd}"));
    assert!(!is_file_change(&json(r#"{"@type":"StateChange","changed":{"a":{"Email":"s"}}}"#)));
    assert!(is_file_change(&json(r#"{"@type":"StateChange","changed":{"a":{"FileNode":"s"}}}"#)));
    assert!(!is_file_change(&json(r#"{"@type":"Other","changed":{"a":{"FileNode":"s"}}}"#)));
}

#[test]
fn recipients_resolve_to_one_principal() {
    assert!(needs_lookup("ann@example.org"));
    assert!(!needs_lookup("principal-1"));
    assert_eq!(failure(principal_args(&json("{}"))), "Invalid principal lookup.");
    let args = principal_args(&json(r#"{"ids":["p1"],"state":"s"}"#)).ok().unwrap();
    assert!(args.get("ids").is_some() && args.get("state").is_none());
    let one = json(r#"{"list":[{"id":"p1","email":"ann@example.org"}]}"#);
    assert_eq!(resolve_principal(&one, "ann@example.org").ok().as_deref(), Some("p1"));
    let none = json(r#"{"list":[]}"#);
    assert!(resolve_principal(&none, "ann@example.org").is_err());
}

#[test]
fn text_is_indexed_where_it_is_text() {
    assert!(supported("text/plain"));
    assert!(!supported("image/png"));
    assert!(indexable("words", false));
    assert!(!indexable("words", true));
    assert!(!indexable("a\0b", false));
    assert_eq!(index_text("Ünïcode".as_bytes()), Some("Ünïcode".to_owned()));
    assert_eq!(index_text(b"\xef\xbb\xbfmarked"), Some("marked".to_owned()));
    assert_eq!(index_text(b"\xff\xfeh\x00i\x00"), Some("hi".to_owned()));
    assert_eq!(index_text(b"\xfe\xff\x00h\x00i"), Some("hi".to_owned()));
    assert_eq!(index_text(b"\xc3\x28"), None);
    assert_eq!(find_charset(b"\xef\xbb\xbfmarked"), (Charset::Utf8, 3));
    assert_eq!(find_charset(b"\xff\xfeh\x00"), (Charset::Utf16Le, 2));
    assert_eq!(find_charset(b"\xfe\xff\x00h"), (Charset::Utf16Be, 2));
    assert_eq!(find_charset(b"\xef\xbb"), (Charset::Utf8, 0));
    assert_eq!(find_charset(b""), (Charset::Utf8, 0));
    let source = |blob: &str| TextSource {
        message: 1,
        mime: "text/plain".to_owned(),
        blob: Some(blob.to_owned()),
        part: None,
        section: None,
        path: None,
    };
    assert!(may_store(Some(&source("a")), &source("a")));
    assert!(!may_store(Some(&source("b")), &source("a")));
    assert!(!may_store(None, &source("a")));
}

#[test]
fn states_are_written_and_read_back() {
    for s in [
        OperationState::Preparing,
        OperationState::Queued,
        OperationState::Running,
        OperationState::Completed,
        OperationState::Uncertain,
        OperationState::Failed,
        OperationState::Cancelled,
    ] {
        assert_eq!(OperationState::from_name(s.as_str()), Some(s));
    }
    assert_eq!(OperationState::from_name("done"), None);
    for s in [
        ActionState::Pending,
        ActionState::Inflight,
        ActionState::Done,
        ActionState::Failed,
        ActionState::Cancelled,
    ] {
        assert_eq!(ActionState::from_name(s.as_str()), Some(s));
    }
    assert_eq!(ActionState::from_name("queued"), None);
}

#[test]
fn actions_are_known_by_name() {
    assert_eq!(Action::parse("retry-operation"), Some(Action::RetryOperation));
    assert_eq!(Action::parse("delete"), Some(Action::Delete));
    assert_eq!(Action::parse("destroy"), None);
    assert!(Action::Delete.is_mutation());
    assert!(!Action::Preview.is_mutation());
    assert!(Action::Copy.can_collide());
    assert!(!Action::Upload.can_collide());
    assert!(Action::Transfers.is_transfer_action());
}

#[test]
fn only_operations_that_did_not_reach_the_server_are_sent_again() {
    assert_eq!(settle(Action::RetryOperation, "queued"), Ok(Settlement::Resume));
    for state in ["uncertain", "running", "failed", "completed", "preparing", "cancelled"] {
        assert_eq!(
            settle(Action::RetryOperation, state),
            Err("Only operations that have not contacted the server may be resumed. Inspect uncertain changes and mark them reviewed.".to_owned())
        );
    }
    assert_eq!(
        settle(Action::ResolveOperation, "uncertain"),
        Ok(Settlement::Finish(OperationState::Completed))
    );
    assert_eq!(
        settle(Action::CancelOperation, "queued"),
        Ok(Settlement::Finish(OperationState::Cancelled))
    );
    assert_eq!(
        settle(Action::CancelOperation, "running"),
        Err("Cancel the active operation first.".to_owned())
    );
    assert_eq!(ended(true), OperationState::Completed);
    assert_eq!(ended(false), OperationState::Uncertain);
}

#[test]
fn resumed_operations_meet_the_state_they_were_recorded_in() {
    let payload = json(r#"{"state":"s1","stagedName":"up.bin"}"#);
    assert!(check_resumed(&payload, "s1").is_ok());
    assert_eq!(
        refusal(check_resumed(&payload, "s2")),
        "Storage changed since this operation was queued. Cancel it and repeat the action from a refreshed view."
    );
    assert!(check_resumed(&json("{}"), "s2").is_ok());
    assert_eq!(
        staged_path(Action::Upload, "/data/file_transfers/1/2", &payload),
        Ok(Some("/data/file_transfers/1/2/up.bin".to_owned()))
    );
    let escape = json(r#"{"stagedName":"../up.bin"}"#);
    assert!(staged_path(Action::Upload, "/data", &escape).is_err());
    assert_eq!(
        refusal(staged_path(Action::Replace, "/data", &json("{}"))),
        "The queued upload has no complete staging data. Cancel it and select the source again."
    );
    assert_eq!(staged_path(Action::Delete, "/data", &json("{}")), Ok(None));
    let mut w = workspace();
    w.attachments = false;
    assert!(w.falls_back("Could not reach file storage: refused"));
    assert!(w.falls_back("operation timed out"));
    assert!(!w.falls_back("Forbidden"));
    w.attachments = true;
    assert!(!w.falls_back("operation timed out"));
    assert_eq!(unknown_action(false), "Unknown file action.");
    assert_eq!(
        unknown_action(true),
        "The selected account was removed. Select another account."
    );
    assert_eq!(
        FilesService::queued_status(4),
        "Queued operation #4. Reconnect and review it in Transfers."
    );
}

fn login(id: i64, by_password: bool, username: &str) -> AccountLogin {
    AccountLogin {
        id,
        by_password,
        email: "ann@example.org".to_owned(),
        username: username.to_owned(),
        jmap_url: "https://mail.example.org".to_owned(),
    }
}

#[test]
fn storage_is_connected_with_a_password() {
    let accounts = vec![login(1, true, ""), login(2, false, "ann"), login(3, true, "ann")];
    let own = ConnectionSettings::default();
    let l = connect_files(&accounts, 1, &own).ok().unwrap();
    assert_eq!(
        (l.user.as_str(), l.endpoint.as_str(), l.webdav),
        ("ann@example.org", "https://mail.example.org", false)
    );
    let set = ConnectionSettings { endpoint: "https://dav.example.org".to_owned(), webdav: true };
    let l = connect_files(&accounts, 3, &set).ok().unwrap();
    assert_eq!(
        (l.user.as_str(), l.endpoint.as_str(), l.webdav),
        ("ann", "https://dav.example.org", true)
    );
    assert_eq!(failure(connect_files(&accounts, 9, &own)), "Account was removed.");
    assert_eq!(
        failure(connect_files(&accounts, 2, &own)),
        "Connect storage using a Stalwart password or application-password account."
    );
    assert_eq!(
        failure(connect_attachment_search(&accounts, 2)),
        "Server attachment search requires a JMAP password or application-password account."
    );
    assert_eq!(connect_attachment_search(&accounts, 3).ok().unwrap().user, "ann");
}

fn workspace() -> FilesService {
    let mut w = FilesService::new();
    w.accounts = vec![(10, "ten".to_owned()), (20, "twenty".to_owned())];
    w
}

fn act(w: &mut FilesService, action: Action, a: &str, b: &str) -> Result<Command, String> {
    perform(w, false, action, a, b, 0, false, Some(BrowseOptions::default()))
}

#[test]
fn sidebar_selects_accounts_by_identity() {
    let mut w = workspace();
    assert_eq!(w.account_id(), None);
    assert!(matches!(act(&mut w, Action::AccountId, "20", "attachments"), Ok(Command::Settings)));
    assert_eq!(w.account_id(), Some(20));
    assert!(w.attachments);
    assert!(!w.init(vec![(20, "twenty".to_owned())]));
    assert_eq!((w.account, w.account_id()), (1, Some(20)));
    assert!(w.init(vec![(10, "ten".to_owned())]));
    w.init_spaces(vec![], true);
    assert_eq!(w.account_id(), None);
    assert!(w.metadata_only(Action::AccountId, "attachments"));
    assert!(!w.metadata_only(Action::Upload, "attachments"));
}

#[test]
fn folders_are_entered_and_left() {
    let mut w = workspace();
    w.account = 1;
    let mut d = folder("d", "Docs");
    d.my_rights.may_add_children = true;
    w.entries = vec![Entry::Remote(d)];
    assert!(matches!(act(&mut w, Action::Enter, "", ""), Ok(Command::Refresh)));
    assert_eq!(w.parent().as_deref(), Some("d"));
    assert!(matches!(act(&mut w, Action::Up, "", ""), Ok(Command::Refresh)));
    assert_eq!(w.parent(), None);
    w.entries = vec![];
    assert_eq!(refusal(act(&mut w, Action::Enter, "", "")), "Select a file first.");
}

#[test]
fn contents_come_from_where_the_row_stands() {
    let mut w = workspace();
    w.account = 2;
    w.cached_space = Some(5);
    w.entries = vec![Entry::Remote(file("f", "f.txt"))];
    assert!(matches!(
        act(&mut w, Action::KeepOffline, "", ""),
        Ok(Command::Keep(Source::Storage(20, 5)))
    ));
    assert!(matches!(
        act(&mut w, Action::Preview, "", ""),
        Ok(Command::Preview(Source::Storage(20, 5)))
    ));
}

#[test]
fn operations_of_an_account_are_found_by_number() {
    let mut w = workspace();
    assert_eq!(refusal(w.transfer(Action::Transfers, "")), "Select an account.");
    w.account = 1;
    assert!(matches!(w.transfer(Action::Transfers, ""), Ok(Transfer::All(10))));
    assert!(matches!(w.transfer(Action::RetryOperation, "7"), Ok(Transfer::One(10, 7))));
    assert_eq!(refusal(w.transfer(Action::CancelOperation, "x")), "Invalid operation.");
    let payload = w.job_payload("a", "b", Json::Null, Json::List(vec![]), &Some("s".to_owned()));
    assert_eq!(payload.text_at("state"), Some("s"));
    assert_eq!(payload.text_at("collision"), Some("reject"));
    let pending = w.resume(&json(r#"{"collision":"newest","caseInsensitive":true}"#));
    assert_eq!(pending.collision.as_str(), "newest");
    assert!(pending.case_insensitive);
    assert_eq!(pending.account_id(), Some(10));
    w.active_operation = Some(3);
    let (id, state, message) = w.take_interrupted().unwrap();
    assert_eq!((id, state), (3, OperationState::Uncertain));
    assert_eq!(
        message,
        "Cancelled while contacting storage. Inspect the destination before retrying."
    );
    assert!(w.take_interrupted().is_none());
}

#[test]
fn storage_transfers_expand_their_templates() {
    let transport = Transport::new("https://files.example.org", "user", "secret").ok().unwrap();
    let session = json(
        r#"{"capabilities":{"urn:ietf:params:jmap:core":{"maxSizeUpload":100},"urn:ietf:params:jmap:filenode":{}},
        "primaryAccounts":{"urn:ietf:params:jmap:filenode":"mine"},
        "accounts":{"mine":{"name":"Mine","isReadOnly":false,"accountCapabilities":{"urn:ietf:params:jmap:filenode":{}}}},
        "apiUrl":"https://files.example.org/jmap","uploadUrl":"https://files.example.org/upload/{accountId}",
        "downloadUrl":"https://files.example.org/download/{accountId}/{blobId}/{name}?type={type}"}"#,
    );
    let client = FileClient::connect(transport, session, None).ok().unwrap();
    assert_eq!(client.max_upload(), 100);
    assert_eq!(
        client.upload_url("a.txt").ok().as_deref(),
        Some("https://files.example.org/upload/mine")
    );
    let mut n = file("f", "a b.txt");
    n.blob_id = Some("b/1".to_owned());
    assert_eq!(
        client.download_url(&n).ok().as_deref(),
        Some("https://files.example.org/download/mine/b%2F1/a%20b.txt?type=application%2Foctet-stream")
    );
}

#[test]
fn folder_refresh_prunes_revoked_descendants_but_preserves_promoted_children() {
    let placed = |id: &str, parent: Option<&str>| Placed {
        id: id.to_owned(),
        parent: parent.map(str::to_owned),
    };
    let mut tree = vec![
        placed("folder", None),
        placed("private", Some("folder")),
        placed("promoted", Some("folder")),
        placed("child", Some("promoted")),
    ];
    // The refresh records the promoted node at the top level before anything is pruned.
    tree[2] = placed("promoted", None);
    let gone = removed_nodes(&tree, None, &vec!["promoted".to_owned()]);
    assert_eq!(gone, [true, true, false, false]);
    // Parents may be recorded behind their children.
    let deep = vec![
        placed("c", Some("b")),
        placed("b", Some("a")),
        placed("a", Some("top")),
        placed("top", None),
        placed("x", Some("top")),
    ];
    assert_eq!(
        removed_nodes(&deep, Some("top"), &vec!["x".to_owned()]),
        [true, true, true, false, false]
    );
    assert!(removed_nodes(&vec![], None, &vec![]).is_empty());
}

#[test]
fn changes_are_recorded_and_settled_in_order() {
    let (mut course, first) = Course::begin(Action::Rename);
    assert_eq!(first, Act::Record);
    assert_eq!(course.follow(Event::Recorded(7), false), Act::Mark(7, OperationState::Running));
    assert_eq!(course.active(), None);
    assert_eq!(course.follow(Event::Done, false), Act::Send);
    assert_eq!(course.active(), Some(7));
    assert_eq!(course.follow(Event::Failed, false), Act::Mark(7, OperationState::Uncertain));
    assert_eq!(course.active(), Some(7));
    assert_eq!(course.follow(Event::Done, false), Act::Refuse);
    assert_eq!(course.active(), None);

    let (mut course, _) = Course::begin(Action::Upload);
    assert_eq!(course.follow(Event::Recorded(8), true), Act::Mark(8, OperationState::Preparing));
    assert_eq!(course.follow(Event::Done, true), Act::CopyAside(8));
    assert_eq!(course.follow(Event::Done, true), Act::Queue(8));
    assert_eq!(course.follow(Event::Done, true), Act::Wait(8));
    assert_eq!(course.stage, Stage::Over(None));

    let (mut course, _) = Course::begin(Action::Replace);
    course.follow(Event::Recorded(9), false);
    course.follow(Event::Done, false);
    assert_eq!(course.follow(Event::Failed, false), Act::Mark(9, OperationState::Failed));
    assert_eq!(course.follow(Event::Done, false), Act::Refuse);

    let (mut course, first) = Course::resume(3);
    assert_eq!(first, Act::Mark(3, OperationState::Running));
    assert_eq!(course.follow(Event::Done, false), Act::Send);
    assert_eq!(course.follow(Event::Done, false), Act::Mark(3, OperationState::Completed));
    // What could not be settled stays open.
    assert_eq!(course.follow(Event::Failed, false), Act::Refuse);
    assert_eq!(course.active(), Some(3));

    let (mut course, first) = Course::begin(Action::Preview);
    assert_eq!(first, Act::Send);
    assert_eq!(course.follow(Event::Done, false), Act::Finish(None));
    let (mut course, _) = Course::begin(Action::Delete);
    assert_eq!(course.follow(Event::Failed, false), Act::Refuse);
}

#[test]
fn recorded_spaces_are_selected_once_that_is_recorded() {
    let mut w = workspace();
    w.account = 1;
    w.offline = true;
    w.query = "report".to_owned();
    w.cached_spaces = vec![(5, "Mine".to_owned(), "mine".to_owned())];
    assert_eq!(act(&mut w, Action::Space, "x", "").err().unwrap(), "Invalid storage space.");
    assert_eq!(
        act(&mut w, Action::Space, "1", "").err().unwrap(),
        "Storage space is unavailable offline."
    );
    let command = act(&mut w, Action::Space, "0", "");
    assert!(matches!(
        command,
        Ok(Command::RecordSpace(10, remote, 5)) if remote == "mine"
    ));
    assert_eq!((w.cached_space, w.query.as_str()), (None, "report"));
    w.select_cached_space(5);
    assert_eq!((w.cached_space, w.query.as_str()), (Some(5), ""));
}

#[test]
fn push_streams_say_what_they_are() {
    assert!(check_push_stream(Some("text/event-stream; charset=utf-8")).is_ok());
    for held in [None, Some("text/html"), Some("Text/event-stream")] {
        assert_eq!(failure(check_push_stream(held)), "Invalid file push response.");
    }
}
