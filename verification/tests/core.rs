//! Paths, names and labels.

use flectar_mail_core::config::Paths;
use flectar_mail_core::error::other;
use flectar_mail_core::files::transport::ordered_records;
use flectar_mail_core::files::validate_name;
use flectar_mail_core::repo::labels::keyword_for;

#[test]
fn platform_paths_separate_durable_and_reconstructable_state() {
    let root = std::path::Path::new("/private/app");
    let under = |part: &str| root.join(part).to_str().unwrap().to_owned();
    let paths = Paths::new(under("data"), under("cache"));

    assert_eq!(paths.db_file(), under("data/flectar-mail.db"));
    assert_eq!(paths.calendar_db_file(), under("data/flectar-calendar.db"));
    assert_eq!(paths.warm_start_file(), under("cache/warm-start-mailbox-v2.json"));
    assert_eq!(paths.mail_dir(7), under("data/mail/7"));
    assert_eq!(paths.draft_attachments_dir(), under("data/draft_attachments"));
    assert_eq!(paths.attachments_dir(7), under("cache/attachments/7"));
    assert_eq!(paths.temp_dir(), under("cache/tmp"));
}

#[test]
fn keyword_for_strips_forbidden_atom_chars() {
    assert_eq!(keyword_for("Follow up"), "Follow_up");
    // "{" is an atom-special and is stripped; "}" is a legal atom char.
    assert_eq!(keyword_for("(a) {b} \"c\""), "a___b}__c");
    assert_eq!(keyword_for("   "), "Label");
    assert_eq!(keyword_for("Déjà"), "Déjà"); // non-ASCII survives
}

#[test]
fn rejects_path_names() {
    for name in ["", ".", "..", "../secret", "a/b", "a\\b", "a\n"] {
        assert!(validate_name(name).is_err());
    }
    assert!(validate_name("Résumé & budget.pdf").is_ok());
}

#[test]
fn jmap_get_rejects_unrequested_and_duplicate_records() {
    let ids = vec!["b".to_owned(), "a".to_owned(), "deleted".to_owned()];
    let ordered = |records: Vec<String>| ordered_records(&ids, records, String::as_str);
    assert_eq!(ordered(vec!["a".into(), "b".into()]).unwrap(), ["b", "a"]);
    assert!(ordered(vec!["unexpected".into()]).is_err());
    assert!(ordered(vec!["a".into(), "a".into()]).is_err());
}

#[test]
fn client_messages_are_escaped() {
    let error = other("a \"b\" \\ \u{8}\u{c}\n\r\t\u{1}\u{1f}\u{7f} \u{e9}");
    assert_eq!(
        error.to_client_json(),
        "{\"code\":\"other\",\"message\":\"a \\\"b\\\" \\\\ \\b\\f\\n\\r\\t\\u0001\\u001f\u{7f} \u{e9}\"}"
    );
}

#[test]
fn sandboxes_have_their_own_directories() {
    let paths = Paths::sandbox_dirs(Some("/private/app".to_owned())).ok().unwrap();
    assert_eq!(paths.data_dir, "/private/app/Library/Application Support/Flectar");
    assert_eq!(paths.cache_dir, "/private/app/Library/Caches/Flectar");
    assert_eq!(
        Paths::sandbox_dirs(None).err().unwrap().message(),
        "iOS did not supply the application sandbox."
    );
    assert_eq!(
        Paths::hosted_dirs().err().unwrap().message(),
        "mobile application storage must be supplied by the platform host"
    );
}
