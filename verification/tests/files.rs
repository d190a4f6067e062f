//! Storage servers: what is asked of them, and what is made of their answers.

use flectar_mail_core::error::CoreError;
use flectar_mail_core::files::dav::{
    canonical_url, check_multistatus, node, root_url, status, successful_properties, DavClient,
};
use flectar_mail_core::files::davwrite::{check_newest, unused_name, Relocation};
use flectar_mail_core::files::folder::read_changes;
use flectar_mail_core::files::jmap::{
    filename_pattern, method_result, BrowseOptions, FileClient, CAPABILITY,
};
use flectar_mail_core::files::json::Json;
use flectar_mail_core::files::listing::{climb, read_query, Climb, GetReply, Known, Listing};
use flectar_mail_core::files::transport::{
    check_status, expand, resolve_session, send_failure, validated_url, Discovery, DiscoveryStep,
    Host, Link, Transport,
};
use flectar_mail_core::files::xml::{parse, Property};
use flectar_mail_core::files::{
    attachment_match_query, attachment_search, validate_name, CollisionPolicy, FileNode, Rights,
};

fn convert(value: &serde_json::Value) -> Json {
    match value {
        serde_json::Value::Null => Json::Null,
        serde_json::Value::Bool(b) => Json::Bool(*b),
        serde_json::Value::Number(n) => match (n.as_u64(), n.as_i64()) {
            (Some(n), _) => Json::Unsigned(n),
            (_, Some(n)) => Json::Signed(n),
            _ => Json::Real(n.to_string()),
        },
        serde_json::Value::String(s) => Json::Text(s.clone()),
        serde_json::Value::Array(items) => Json::List(items.iter().map(convert).collect()),
        serde_json::Value::Object(fields) => {
            Json::Object(fields.iter().map(|(k, v)| (k.clone(), convert(v))).collect())
        }
    }
}

fn json(text: &str) -> Json {
    convert(&serde_json::from_str(text).unwrap())
}

fn said(e: CoreError) -> String {
    e.message()
}

fn dav() -> DavClient {
    DavClient::connect("https://files.example.org/dav/file/me/", "user", "secret").ok().unwrap().0
}

fn file(id: &str, name: &str) -> FileNode {
    FileNode {
        id: id.to_owned(),
        name: name.to_owned(),
        node_type: Some("file".to_owned()),
        ..Default::default()
    }
}

fn session() -> Json {
    json(
        r#"{"capabilities":{"urn:ietf:params:jmap:core":{},"urn:ietf:params:jmap:filenode":{}},
        "primaryAccounts":{"urn:ietf:params:jmap:filenode":"mine"},
        "accounts":{"mine":{"name":"Mine","isReadOnly":false,"accountCapabilities":{"urn:ietf:params:jmap:filenode":{"fileNodeQuerySortOptions":["nodeType","name"],"mayCreateTopLevelFileNode":true}}},
        "shared":{"name":"Team","isReadOnly":true,"accountCapabilities":{"urn:ietf:params:jmap:filenode":{}}}},
        "apiUrl":"https://files.example.org/jmap","uploadUrl":"https://files.example.org/upload/{accountId}",
        "downloadUrl":"https://files.example.org/download/{accountId}/{blobId}/{name}?type={type}"}"#,
    )
}

fn client() -> FileClient {
    let transport = Transport::new("https://files.example.org", "user", "secret").ok().unwrap();
    FileClient::connect(transport, session(), Some("mail-only-id")).ok().unwrap()
}

#[test]
fn namespace_and_failed_propstats_do_not_grant_rights() {
    let tree = parse("<d:response xmlns:d='DAV:' xmlns:x='urn:evil'><d:propstat><d:prop><d:displayname>A &amp; B</d:displayname><x:current-user-privilege-set><d:all/></x:current-user-privilege-set></d:prop><d:status>HTTP/1.1 200 OK</d:status></d:propstat><d:propstat><d:prop><d:current-user-privilege-set><d:all/></d:current-user-privilege-set></d:prop><d:status>HTTP/1.1 403 Forbidden</d:status></d:propstat></d:response>").unwrap();
    let file = node(
        "https://example.org/dav/file/me/a",
        &successful_properties(&tree).unwrap(),
    );
    assert_eq!(file.name, "A & B");
    assert!(!file.my_rights.may_share);
    assert!(!file.my_rights.may_read);
}

#[test]
fn prop_patch_checks_individual_statuses() {
    assert!(check_multistatus(&parse("<multistatus xmlns='DAV:'><response><propstat><prop/><status>HTTP/1.1 424 Failed Dependency</status></propstat></response></multistatus>").unwrap()).is_err());
}

#[test]
fn rejects_doctype_and_incomplete_xml() {
    assert!(parse("<!DOCTYPE a><a/>").is_err());
    assert!(parse("<a>").is_err());
}

#[test]
fn rejects_success_status_with_method_or_object_errors() {
    for value in [
        json(r#"{"methodResponses":[["error",{"type":"stateMismatch"},"files"]]}"#),
        json(r#"{"methodResponses":[["FileNode/set",{"accountId":"a","notUpdated":{"x":{"type":"forbidden"}}},"files"]]}"#),
        json(r#"{"methodResponses":[["FileNode/set",{"accountId":"other"},"files"]]}"#),
    ] {
        assert!(method_result(&value, "FileNode/set", "a").is_err());
    }
    let fine = json(r#"{"methodResponses":[["FileNode/set",{"accountId":"a","newState":"s2"},"files"]]}"#);
    let result = method_result(&fine, "FileNode/set", "a").unwrap();
    assert_eq!(result.text_at("newState"), Some("s2"));
}

#[test]
fn opaque_template_values_are_encoded() {
    let url = expand(
        "https://example.org/{accountId}/{blobId}/{name}?type={type}",
        &[
            ("accountId", "a/b"),
            ("blobId", "#?"),
            ("name", "a b.pdf"),
            ("type", "text/plain"),
        ],
    )
    .unwrap();
    assert_eq!(
        url,
        "https://example.org/a%2Fb/%23%3F/a%20b.pdf?type=text%2Fplain"
    );
}

#[test]
fn stalwart_directory_has_nullable_file_properties() {
    let folder = FileNode {
        id: "folder".to_owned(),
        name: "Documents".to_owned(),
        node_type: Some("directory".to_owned()),
        my_rights: Rights { may_read: true, may_add_children: true, ..Default::default() },
        ..Default::default()
    };
    assert!(folder.is_directory());
    assert!(!folder.executable);
    assert!(folder.my_rights.add());
}

#[test]
fn endpoints_are_secure_or_local() {
    for url in [
        "https://files.example.org/dav/",
        "http://localhost:8080/",
        "http://127.0.0.1/",
        "http://[::1]/dav",
    ] {
        assert!(validated_url(url).is_ok(), "{url}");
    }
    for url in [
        "http://files.example.org/",
        "https://user:pw@files.example.org/",
        "https://files.example.org/#top",
        "ftp://files.example.org/",
        "not a url",
        "mailto:a@b.c",
    ] {
        assert!(validated_url(url).is_err(), "{url}");
    }
    assert!(Transport::new("http://files.example.org/", "u", "s").is_err());
}

#[test]
fn requests_stay_at_their_origin() {
    let transport = Transport::new("https://files.example.org/", "user", "secret").ok().unwrap();
    let request = transport.request("GET", "https://files.example.org/a").ok().unwrap();
    assert_eq!(
        (request.method.as_str(), request.url.as_str(), request.user.as_str(), request.secret.as_str()),
        ("GET", "https://files.example.org/a", "user", "secret")
    );
    assert!(transport.request("GET", "https://other.example.org/a").is_err());
    assert!(transport.request("GET", "https://files.example.org:8443/a").is_err());
    assert!(transport.request("NOT A METHOD", "https://files.example.org/a").is_err());
}

#[test]
fn discovery_goes_on_within_the_origin_only() {
    let transport = Transport::new("https://files.example.org", "user", "secret").ok().unwrap();
    let mut discovery =
        Discovery::begin("https://files.example.org/.well-known/jmap").ok().unwrap();
    assert_eq!(discovery.url, "https://files.example.org/.well-known/jmap");
    let step = discovery.answered(&transport, 307, Some("/jmap/session")).ok().unwrap();
    assert!(matches!(step, DiscoveryStep::Ask));
    assert_eq!(discovery.url, "https://files.example.org/jmap/session");
    let step = discovery.answered(&transport, 200, None).ok().unwrap();
    assert!(matches!(step, DiscoveryStep::Read));

    let mut other = Discovery::begin("https://files.example.org").ok().unwrap();
    assert!(other
        .answered(&transport, 307, Some("https://other.example/jmap/session"))
        .is_err());
}

#[test]
fn session_templates_resolve_against_where_the_session_was_found() {
    let session = resolve_session(
        "https://files.example.org/proxy/session",
        json(
            r#"{"apiUrl":"api","uploadUrl":"upload/{accountId}",
            "downloadUrl":"download/{accountId}/{blobId}/{name}?type={type}",
            "eventSourceUrl":"events?types={types}&closeafter={closeafter}&ping={ping}"}"#,
        ),
    )
    .ok()
    .unwrap();
    assert_eq!(session.text_at("apiUrl"), Some("https://files.example.org/proxy/api"));
    assert_eq!(
        session.text_at("uploadUrl"),
        Some("https://files.example.org/proxy/upload/{accountId}")
    );
    assert_eq!(
        session.text_at("downloadUrl"),
        Some("https://files.example.org/proxy/download/{accountId}/{blobId}/{name}?type={type}")
    );
    assert_eq!(
        session.text_at("eventSourceUrl"),
        Some("https://files.example.org/proxy/events?types={types}&closeafter={closeafter}&ping={ping}")
    );
}

#[test]
fn statuses_tell_what_went_wrong() {
    assert!(check_status(200).is_ok());
    assert!(check_status(207).is_ok());
    let mut messages = Vec::new();
    for status in [401, 403, 404, 409, 412, 413, 423, 429, 500, 507] {
        messages.push(check_status(status).unwrap_err().message());
    }
    assert!(messages.iter().all(|m| !m.is_empty()));
    assert_ne!(messages[0], messages[8]);
    assert_ne!(send_failure(true).message(), send_failure(false).message());
}

#[test]
fn dav_refuses_what_lies_outside_its_root() {
    let c = dav();
    for href in [
        "https://evil.example/file",
        "../other/file",
        "/dav/file/other/file",
        "%2e%2e/other/",
    ] {
        assert!(c.href(&c.root, href).is_err(), "{href}");
    }
    assert!(c.child_url(&c.root, "../file", false).is_err());
    assert!(c.href(&c.root, "sub%2Ffolder").is_err());
    assert_eq!(
        c.href(&c.root, "a%20&%20b.txt").ok().unwrap(),
        "https://files.example.org/dav/file/me/a%20&%20b.txt"
    );
    assert_eq!(
        c.child_url(&c.root, "copy #1.txt", false).ok().unwrap(),
        "https://files.example.org/dav/file/me/copy%20%231.txt"
    );
    assert_eq!(
        c.child_url(&c.root, "Sub folder", true).ok().unwrap(),
        "https://files.example.org/dav/file/me/Sub%20folder/"
    );
}

#[test]
fn dav_roots_are_written_one_way() {
    assert_eq!(
        root_url("https://files.example.org/dav").ok().unwrap(),
        "https://files.example.org/dav/"
    );
    assert!(root_url("https://files.example.org/dav?x=1").is_err());
}

#[test]
fn dav_locks_go_with_writes() {
    let mut c = dav();
    c.connected("1, 2, access-control");
    assert!(c.supports_locks && c.supports_acl);
    let n = FileNode {
        etag: Some("\"v1\"".to_owned()),
        ..file(&format!("{}file", c.root), "file")
    };
    let ask = c.lock_with_options(&n, false, false, 3600).ok().unwrap();
    assert_eq!(ask.request.method, "LOCK");
    assert!(c.locked(&n.id, Some("<opaquelocktoken:abc>")).is_ok());
    assert!(c.owns_lock(&n.id));
    let patch = c.patch_property(&n, "urn:example", "description", Some("A & B")).ok().unwrap();
    let header = |r: &flectar_mail_core::files::davwrite::DavRequest, name: &str| {
        r.headers.list.iter().find(|(k, _)| k.eq_ignore_ascii_case(name)).map(|(_, v)| v.clone())
    };
    assert!(header(&patch, "If").unwrap().contains("(<opaquelocktoken:abc>)"));
    assert!(patch.body.as_deref().unwrap().contains("A &amp; B"));
    let unlock = c.unlock(&n).ok().unwrap();
    assert_eq!(header(&unlock, "Lock-Token").as_deref(), Some("<opaquelocktoken:abc>"));
    c.unlocked(&n.id);
    assert!(!c.owns_lock(&n.id));
}

#[test]
fn dav_copies_ask_not_to_overwrite() {
    let c = dav();
    let n = FileNode {
        etag: Some("\"v1\"".to_owned()),
        ..file(&format!("{}a%20&%20b.txt", c.root), "a & b.txt")
    };
    let copy = c.relocate(&n, &c.root, "copy #1.txt", true).ok().unwrap();
    assert_eq!(copy.request.method, "COPY");
    let headers = copy.headers.list;
    let of = |name: &str| {
        headers.iter().find(|(k, _)| k.eq_ignore_ascii_case(name)).map(|(_, v)| v.as_str())
    };
    assert_eq!(of("Overwrite"), Some("F"));
    assert_eq!(of("If-Match"), Some("\"v1\""));
    assert!(of("Destination").unwrap().ends_with("copy%20%231.txt"));
}

#[test]
fn dav_replacements_need_the_etag_and_the_lock() {
    let mut c = dav();
    c.connected("1, 2");
    let listing = r#"<d:multistatus xmlns:d="DAV:"><d:response><d:href>/dav/file/me/</d:href><d:propstat><d:prop><d:resourcetype><d:collection/></d:resourcetype></d:prop><d:status>HTTP/1.1 200 OK</d:status></d:propstat></d:response><d:response><d:href>/dav/file/me/destination.txt</d:href><d:propstat><d:prop><d:resourcetype/><d:getetag>"target-v1"</d:getetag><d:displayname>destination.txt</d:displayname></d:prop><d:status>HTTP/1.1 200 OK</d:status></d:propstat></d:response></d:multistatus>"#;
    let source = FileNode {
        etag: Some("\"source-v1\"".to_owned()),
        ..file("https://files.example.org/dav/file/me/source.txt", "source.txt")
    };
    assert!(c.locked(&source.id, Some("<opaquelocktoken:source>")).is_ok());
    assert!(c
        .locked(
            "https://files.example.org/dav/file/me/destination.txt",
            Some("<opaquelocktoken:owned>")
        )
        .is_ok());
    let root = c.root.clone();
    let first = c
        .relocate_with_policy(&source, &root, "destination.txt", true, CollisionPolicy::Replace, None)
        .ok()
        .unwrap();
    assert!(matches!(first, Relocation::List));
    let found = c.read_listing(&root, &parse(listing).unwrap()).ok().unwrap();
    assert_eq!(found.nodes.len(), 1);
    assert_eq!(found.nodes[0].name, "destination.txt");
    let request = match c
        .relocate_with_policy(
            &source,
            &root,
            "destination.txt",
            true,
            CollisionPolicy::Replace,
            Some(&found),
        )
        .ok()
        .unwrap()
    {
        Relocation::Send(request) => request,
        Relocation::List => panic!("the listing was given"),
    };
    let headers = request.headers.list;
    let ifs: Vec<&str> =
        headers.iter().filter(|(k, _)| k == "If").map(|(_, v)| v.as_str()).collect();
    assert_eq!(ifs.len(), 1);
    assert!(ifs[0].contains("(<opaquelocktoken:source>)"));
    assert!(ifs[0].contains("([\"target-v1\"] <opaquelocktoken:owned>)"), "{}", ifs[0]);
    let of = |name: &str| {
        headers.iter().find(|(k, _)| k.eq_ignore_ascii_case(name)).map(|(_, v)| v.as_str())
    };
    assert_eq!(of("Overwrite"), Some("T"));
    assert_eq!(of("If-Match"), Some("\"source-v1\""));
}

#[test]
fn dav_listings_are_read_folders_first() {
    let c = dav();
    let listing = r#"<d:multistatus xmlns:d="DAV:"><d:response><d:href>/dav/file/me/</d:href><d:propstat><d:prop><d:resourcetype><d:collection/></d:resourcetype><d:quota-available-bytes>10</d:quota-available-bytes><d:quota-used-bytes>5</d:quota-used-bytes><d:sync-token>t1</d:sync-token></d:prop><d:status>HTTP/1.1 200 OK</d:status></d:propstat></d:response><d:response><d:href>/dav/file/me/b.txt</d:href><d:propstat><d:prop><d:resourcetype/><d:getcontentlength>12</d:getcontentlength></d:prop><d:status>HTTP/1.1 200 OK</d:status></d:propstat></d:response><d:response><d:href>/dav/file/me/Zoo/</d:href><d:propstat><d:prop><d:resourcetype><d:collection/></d:resourcetype></d:prop><d:status>HTTP/1.1 200 OK</d:status></d:propstat></d:response></d:multistatus>"#;
    let found = c.read_listing(&c.root, &parse(listing).unwrap()).ok().unwrap();
    let names: Vec<&str> = found.nodes.iter().map(|n| n.name.as_str()).collect();
    assert_eq!(names, ["Zoo", "b.txt"]);
    assert_eq!((found.quota_used, found.quota_available), (Some(5), Some(10)));
    assert_eq!(found.sync_token.as_deref(), Some("t1"));
    assert_eq!(found.nodes[1].size, Some(12));

    let report = r#"<d:multistatus xmlns:d="DAV:"><d:sync-token>t2</d:sync-token></d:multistatus>"#;
    assert_eq!(read_changes(&parse(report).unwrap()).ok(), Some((false, "t2".to_owned())));
}

#[test]
fn http_statuses_are_read_out_of_their_line() {
    assert_eq!(status("HTTP/1.1 424 Failed Dependency"), 424);
    assert_eq!(status("HTTP/1.1"), 0);
    assert_eq!(status("HTTP/1.1 abc"), 0);
}

#[test]
fn unused_names_are_numbered() {
    let list = vec![file("1", "a.txt"), file("2", "a (1).txt")];
    assert_eq!(unused_name(&list, "a.txt").as_deref(), Some("a (2).txt"));
    assert_eq!(unused_name(&list, "b.txt").as_deref(), Some("b (1).txt"));
}

#[test]
fn only_newer_files_replace() {
    assert!(check_newest(Some((2, 0)), Some((1, 0))).is_ok());
    assert!(check_newest(Some((1, 0)), Some((1, 0))).is_err());
    assert!(check_newest(None, Some((1, 0))).is_err());
}

#[test]
fn xml_is_read_and_written_back() {
    let tree = parse("<a xmlns='urn:x'><b>1 &lt; 2</b><![CDATA[<raw>]]>&#65;</a>").unwrap();
    assert_eq!(tree.namespace, "urn:x");
    assert_eq!(tree.children[0].text, "1 < 2");
    assert!(tree.text.contains("<raw>"));
    assert!(tree.text.ends_with('A'));
    let again = parse(&tree.xml()).unwrap();
    assert_eq!(again.children[0].text, "1 < 2");
    assert!(parse("<a>&unknown;</a>").is_err());
    let deep = "<a>".repeat(65) + &"</a>".repeat(65);
    assert!(parse(&deep).is_ok());
    let deeper = "<a>".repeat(66) + &"</a>".repeat(66);
    assert!(parse(&deeper).is_err());
    let inner = Property {
        namespace: "DAV:".to_owned(),
        name: "displayname".to_owned(),
        text: " Report ".to_owned(),
        children: Vec::new(),
    };
    let outer = Property {
        namespace: "DAV:".to_owned(),
        name: "prop".to_owned(),
        text: String::new(),
        children: vec![inner],
    };
    assert_eq!(outer.value("displayname").as_deref(), Some("Report"));
    assert!(outer.contains("displayname"));
    assert!(outer.describe().contains("displayname: Report\n"));
}

#[test]
fn jmap_sessions_give_their_storage_accounts() {
    let mut c = client();
    assert_eq!(c.account_id, "mine");
    assert_eq!(c.accounts.len(), 2);
    assert!(c.modern());
    assert!(!c.read_only());
    assert!(c.can_create_root());
    let query = c.list_query(None, "", 0, None, &BrowseOptions::default());
    assert_eq!(query.get("filter").unwrap().bool_at("isTopLevel"), Some(true));
    c.state = Some("s1".to_owned());
    let change = c.create_folder(None, "Folder").ok().unwrap();
    let sent = match c.set(change, &Vec::new()).ok().unwrap() {
        flectar_mail_core::files::changes::Change::Send(args) => args,
        flectar_mail_core::files::changes::Change::Need(id) => panic!("needs {id}"),
    };
    assert_eq!(sent.text_at("ifInState"), Some("s1"));
    c.changed(&json(r#"{"accountId":"mine","created":{"new":{"id":"folder"}},"newState":"s2"}"#));
    assert_eq!(c.state.as_deref(), Some("s2"));
    assert!(c.select_account("shared").is_ok());
    assert!(c.read_only());
    let refused = c.create_folder(None, "No").ok();
    assert!(refused.is_none() || c.set(refused.unwrap(), &Vec::new()).is_err());
    assert!(c.select_account("unknown").is_err());
}

#[test]
fn jmap_sessions_without_storage_are_refused() {
    let transport = Transport::new("https://files.example.org", "user", "secret").ok().unwrap();
    let bare = json(r#"{"capabilities":{},"accounts":{},"apiUrl":"https://files.example.org/jmap"}"#);
    assert!(FileClient::connect(transport, bare, None).is_err());
    assert_eq!(CAPABILITY, "urn:ietf:params:jmap:filenode");
}

#[test]
fn jmap_listings_keep_the_order_of_the_query() {
    let mut c = client();
    let query =
        read_query(&json(r#"{"ids":["b","a"],"total":2,"queryState":"q1"}"#)).unwrap();
    let mut listing = Listing::begin(0, query).ok().unwrap();
    let ids = listing.next_ids(&c).unwrap();
    assert_eq!(ids, ["b", "a"]);
    let reply = GetReply {
        state: Some("s1".to_owned()),
        list: vec![file("a", "Zulu"), file("b", "Alpha")],
    };
    assert!(listing.got(&ids, reply).is_ok());
    assert!(listing.next_ids(&c).is_none());
    let page = listing.finish(&mut c);
    let names: Vec<&str> = page.nodes.iter().map(|n| n.name.as_str()).collect();
    assert_eq!(names, ["Alpha", "Zulu"]);
    assert_eq!(page.next_position, None);
    assert_eq!((page.state.as_str(), page.query_state.as_str()), ("s1", "q1"));
}

#[test]
fn jmap_listings_refuse_a_changing_state() {
    let c = client();
    let ids: Vec<String> = (0..2).map(|i| format!("n{i}")).collect();
    let text = format!(r#"{{"ids":["{}","{}"],"queryState":"q"}}"#, ids[0], ids[1]);
    let mut listing = Listing::begin(0, read_query(&json(&text)).unwrap()).ok().unwrap();
    let asked = listing.next_ids(&c).unwrap();
    let foreign = GetReply { state: Some("s".to_owned()), list: vec![file("other", "x")] };
    assert!(listing.got(&asked, foreign).is_err());
}

#[test]
fn rights_are_inherited_from_ancestors() {
    let readable = Rights { may_read: true, ..Default::default() };
    let writable = Rights { may_write: true, ..Default::default() };
    let known = vec![
        Known { id: "a".to_owned(), rights: readable, parent: Some("root".to_owned()) },
        Known { id: "root".to_owned(), rights: writable, parent: None },
    ];
    match climb(&known, None, Rights::default(), Some("a")) {
        Climb::Rights(r) => assert!(r.may_read && r.may_write && !r.may_share),
        _ => panic!("all ancestors are known"),
    }
    match climb(&known[..1].iter().map(|k| Known {
        id: k.id.clone(), rights: k.rights, parent: k.parent.clone(),
    }).collect(), None, Rights::default(), Some("a")) {
        Climb::Need(id) => assert_eq!(id, "root"),
        _ => panic!("an ancestor is missing"),
    }
    let circle = vec![Known { id: "a".to_owned(), rights: readable, parent: Some("a".to_owned()) }];
    assert!(matches!(climb(&circle, None, Rights::default(), Some("a")), Climb::Invalid));
}

#[test]
fn browsing_filters_and_sorts_locally() {
    let mut list = vec![
        FileNode { size: Some(30), ..file("1", "c") },
        FileNode { size: Some(10), ..file("2", "a") },
        FileNode { size: Some(20), ..file("3", "b") },
    ];
    let options = BrowseOptions { min_size: Some(15), ..Default::default() };
    assert!(options.filtered());
    assert!(!BrowseOptions::default().filtered());
    options.apply_local(&mut list);
    let names: Vec<&str> = list.iter().map(|n| n.name.as_str()).collect();
    assert_eq!(names.len(), 2);
    assert!(!names.contains(&"a"));
    assert_eq!(filename_pattern("a*b"), "*a[*]b*");
}

#[test]
fn names_say_why_they_are_refused() {
    assert!(said(validate_name("a/b").unwrap_err()).len() > 0);
    assert!(validate_name(&"x".repeat(255)).is_ok());
    assert!(validate_name(&"x".repeat(256)).is_err());
}

#[test]
fn attachment_searches_are_quoted() {
    assert_eq!(attachment_match_query("resume maria"), "\"resume\"* AND \"maria\"*");
    let quoted = attachment_match_query("\" OR secret*");
    assert!(quoted.starts_with('"'));
    assert!(attachment_search(&"x".repeat(100_000)).is_err());
}

#[test]
fn collision_policies_are_known_by_name() {
    for policy in [
        CollisionPolicy::Reject,
        CollisionPolicy::Rename,
        CollisionPolicy::Replace,
        CollisionPolicy::Newest,
    ] {
        assert_eq!(CollisionPolicy::from_name(policy.as_str()), Some(policy));
    }
    assert_eq!(CollisionPolicy::from_name("other"), None);
}

fn element(namespace: &str, name: &str, text: &str, children: Vec<Property>) -> Property {
    Property {
        namespace: namespace.to_owned(),
        name: name.to_owned(),
        text: text.to_owned(),
        children,
    }
}

fn same_element(a: &Property, b: &Property) -> bool {
    a.namespace == b.namespace
        && a.name == b.name
        && a.text == b.text
        && a.children.len() == b.children.len()
        && a.children.iter().zip(&b.children).all(|(a, b)| same_element(a, b))
}

#[test]
fn written_properties_are_read_back() {
    let tree = element(
        "DAV:",
        "prop",
        "a < b & \"c\" > 'd'\r\n e",
        vec![
            element("", "plain-name_1.x", "", vec![element("urn:x", "r\u{e9}sum\u{e9}", "\t", vec![])]),
            element("DAV:", "getetag", "\"1\"", vec![]),
        ],
    );
    let again = parse(&tree.xml()).ok().unwrap();
    assert!(same_element(&tree, &again));
    let mut deep = element("DAV:", "leaf", "x", vec![]);
    for _ in 0..64 {
        deep = element("DAV:", "level", "", vec![deep]);
    }
    assert!(same_element(&deep, &parse(&deep.xml()).ok().unwrap()));
    let deeper = element("DAV:", "level", "", vec![deep]);
    assert!(parse(&deeper.xml()).is_err());
}

#[test]
fn methods_are_tokens() {
    let transport = Transport::new("https://files.example.org/", "user", "secret").ok().unwrap();
    for method in ["PROPFIND", "get", "X!#$%&'*+-.^_`|~9"] {
        assert!(transport.request(method, "https://files.example.org/a").is_ok(), "{method}");
    }
    for method in ["", "A B", "A/B", "A:B", "\u{e9}"] {
        let refused = transport.request(method, "https://files.example.org/a").err().unwrap();
        assert_eq!(refused.message(), "Invalid HTTP method.");
    }
}

#[test]
fn paths_are_decoded_once() {
    let c = dav();
    // A percent sign without two digits behind it stands for itself, and what it writes twice is
    // decoded once.
    assert_eq!(
        c.href(&c.root, "%41%2e%zz%2541").ok().unwrap(),
        "https://files.example.org/dav/file/me/A.%25zz%2541"
    );
    let refused = c.href(&c.root, "%ff").err().unwrap();
    assert_eq!(refused.message(), "Invalid UTF-8 WebDAV path.");
}

#[test]
fn resources_are_shared_to_read_or_to_write() {
    assert_eq!(DavClient::shared_privileges(false), ["read"]);
    assert_eq!(DavClient::shared_privileges(true), ["read", "write"]);
}

fn bare_link(text: &str, path: &str) -> Link {
    Link {
        text: text.to_owned(),
        scheme: "foo".to_owned(),
        host: Some(Host::Domain("host".to_owned())),
        port: None,
        username: String::new(),
        password: None,
        path: path.to_owned(),
        query: None,
        fragment: None,
    }
}

#[test]
fn urls_keep_an_empty_path() {
    assert_eq!(canonical_url(&bare_link("foo://host", "")).ok().unwrap().text, "foo://host");
    assert_eq!(canonical_url(&bare_link("foo://host/", "/")).ok().unwrap().text, "foo://host/");
    let opaque = canonical_url(&bare_link("foo:bar", "bar")).err().unwrap();
    assert_eq!(opaque.message(), "Invalid WebDAV path.");
    let c = dav();
    assert_eq!(
        c.child_url(&c.root, "a b", true).ok().unwrap(),
        "https://files.example.org/dav/file/me/a%20b/"
    );
    assert_eq!(
        c.child_url(&c.root, "50%", false).ok().unwrap(),
        "https://files.example.org/dav/file/me/50%25"
    );
}

#[test]
fn mutation_headers_are_checked_and_replaced() {
    let c = dav();
    let n = FileNode { etag: Some("\"v1\"".to_owned()), ..file(&format!("{}f", c.root), "f") };
    let told = |extra: Vec<(&str, String)>| {
        c.mutate("PUT", &n, extra, None, true).err().unwrap().message()
    };
    assert_eq!(told(vec![("No Token", "x".to_owned())]), "Invalid mutation header.");
    assert_eq!(told(vec![("", "x".to_owned())]), "Invalid mutation header.");
    let long = "x".repeat(65536);
    assert_eq!(told(vec![(long.as_str(), "x".to_owned())]), "Invalid mutation header.");
    assert!(c.mutate("PUT", &n, vec![(&long[1..], "x".to_owned())], None, true).is_ok());
    assert_eq!(
        told(vec![("A", "x\ny".to_owned()), ("No Token", "x".to_owned())]),
        "Invalid mutation header value."
    );
    let extra = vec![("if-match", "\"v2\"".to_owned()), ("X", "1".to_owned()), ("x", "2".to_owned())];
    let sent = c.mutate("PUT", &n, extra, None, true).ok().unwrap().headers.list;
    let mut values: Vec<&str> = sent.iter().map(|(_, v)| v.as_str()).collect();
    values.sort();
    assert_eq!(values, ["\"v2\"", "2"]);
}

#[test]
fn browsing_shows_one_order() {
    let node = |id: &str, name: &str, size: Option<u64>, folder: bool| FileNode {
        size,
        node_type: Some(if folder { "directory" } else { "file" }.to_owned()),
        ..file(id, name)
    };
    let list = || {
        vec![
            node("1", "B", None, true),
            node("2", "a", Some(5), false),
            node("3", "A", Some(5), false),
            node("4", "b", Some(1), true),
        ]
    };
    for (sort, expected) in [
        ("name", ["2", "3", "1", "4"]),
        ("size", ["1", "4", "2", "3"]),
        ("nodeType", ["1", "4", "2", "3"]),
    ] {
        let shown = |mut list: Vec<FileNode>, descending: bool| {
            let options = BrowseOptions { sort: sort.to_owned(), descending, ..Default::default() };
            options.apply_local(&mut list);
            list.into_iter().map(|n| n.id).collect::<Vec<_>>()
        };
        let mut other = list();
        other.reverse();
        other.swap(0, 2);
        assert_eq!(shown(list(), false), expected);
        assert_eq!(shown(other, false), expected);
        let mut turned = shown(list(), true);
        turned.reverse();
        assert_eq!(turned, expected);
    }
}
