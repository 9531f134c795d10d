use kompanion::kompanion_core::change_request::{
    basename, compute_sha1, generate_change_request, CatalogEntry, FileFacts, FileStat, Progress,
};
use kompanion::kompanion_core::indexer::MetadataMap;
use kompanion::koreader_companion_core::change_request::generate_change_request as koreader_change;
use kompanion::sh_integration_core::change_request::generate_change_request as script_change;
use kompanion::kompanion_core::change_request::change_request_json;
use kompanion::kompanion_core::json::Json;
use kompanion::koreader_companion_core::change_request::extended_change_request_json;

/// The `insert` object of a change request.
fn insert_of(json: &Json) -> &Json {
    json.member("commands").unwrap().item(0).unwrap().member("insert").unwrap()
}

/// The text of the string member `key`.
fn text_of<'a>(json: &'a Json, key: &str) -> Option<&'a str> {
    json.member(key).and_then(|v| v.text())
}

fn no_file() -> FileFacts {
    FileFacts { stat: None, contents: None }
}

/// The book variant, the KOReader variant and the script variant of one request.
fn all_three(
    path: &str,
    uuid: &str,
    name: Option<&str>,
    author: Option<&str>,
    icon: Option<&str>,
    is_new: bool,
) -> Vec<CatalogEntry> {
    let f = no_file();
    vec![
        generate_change_request(path, uuid, name, author, icon, is_new, "text/x-shellscript", "PDOC", None, &f).insert,
        koreader_change(path, uuid, name, author, icon, is_new, "text/x-shellscript", None, &f).insert,
        script_change(path, uuid, name, author, icon, is_new, &f).insert,
    ]
}

#[test]
fn change_request_test_basic_change_request() {
    let f = no_file();
    let book = generate_change_request(
        "/mnt/us/scripts/test.sh",
        "test-uuid-123",
        Some("My Script"),
        Some("Marek"),
        Some("/mnt/us/scripts/test.sh.sdr/icon.png"),
        true,
        "text/x-shellscript",
        "PDOC",
        None,
        &f,
    );
    let koreader = koreader_change(
        "/mnt/us/scripts/test.sh",
        "test-uuid-123",
        Some("My Script"),
        Some("Marek"),
        Some("/mnt/us/scripts/test.sh.sdr/icon.png"),
        true,
        "text/x-shellscript",
        None,
        &f,
    );
    let script = script_change(
        "/mnt/us/scripts/test.sh",
        "test-uuid-123",
        Some("My Script"),
        Some("HackerDude"),
        Some("/mnt/us/scripts/test.sh.sdr/icon.png"),
        true,
        &f,
    );
    for (insert, author) in [(&book.insert, "Marek"), (&koreader.insert, "Marek"), (&script.insert, "HackerDude")] {
        assert_eq!(insert.uuid, "test-uuid-123");
        assert_eq!(insert.mime_type, "text/x-shellscript");
        assert_eq!(insert.cde_type, "PDOC");
        assert!(matches!(insert.progress, Progress::NewBadge));
        assert_eq!(insert.title, "My Script");
        assert_eq!(insert.author, author);
        assert_eq!(insert.thumbnail.as_deref(), Some("/mnt/us/scripts/test.sh.sdr/icon.png"));
        assert!(insert.visible_in_home);
        assert!(!insert.archived);
    }
}

#[test]
fn change_request_test_custom_mime_type() {
    let f = no_file();
    let book = generate_change_request(
        "/mnt/us/books/book.epub",
        "uuid-epub",
        Some("My Book"),
        Some("Author"),
        None,
        true,
        "application/epub+zip",
        "EBOK",
        None,
        &f,
    );
    assert_eq!(book.insert.mime_type, "application/epub+zip");
    assert_eq!(book.insert.cde_type, "EBOK");
    let koreader = koreader_change(
        "/mnt/us/books/book.epub",
        "uuid-epub",
        Some("My Book"),
        Some("Author"),
        None,
        true,
        "application/epub+zip",
        None,
        &f,
    );
    assert_eq!(koreader.insert.mime_type, "application/epub+zip");
}

#[test]
fn change_request_test_extra_fields() {
    let f = no_file();
    let mut extra = MetadataMap::new();
    extra.insert("language".to_string(), "en".to_string());
    extra.insert("publisher".to_string(), "Example Press".to_string());
    extra.insert("publicationDate".to_string(), "2015-07-01".to_string());
    let book = generate_change_request(
        "/mnt/us/books/book.epub",
        "uuid-extra",
        Some("Book"),
        Some("Author"),
        None,
        false,
        "application/epub+zip",
        "EBOK",
        Some(&extra),
        &f,
    );
    assert_eq!(book.insert.language.as_deref(), Some("en"));
    assert_eq!(book.insert.publisher.as_deref(), Some("Example Press"));
    assert_eq!(book.insert.publication_date.as_deref(), Some("2015-07-01"));

    let json_extra = vec![
        ("description".to_string(), Json::Str("A test book".to_string())),
        ("language".to_string(), Json::Str("en".to_string())),
    ];
    let koreader = koreader_change(
        "/mnt/us/books/book.epub",
        "uuid-extra",
        Some("Book"),
        Some("Author"),
        None,
        false,
        "application/epub+zip",
        Some(json_extra),
        &f,
    );
    let json = extended_change_request_json(koreader);
    let insert = insert_of(&json);
    assert_eq!(text_of(insert, "description"), Some("A test book"));
    assert_eq!(text_of(insert, "language"), Some("en"));
    assert_eq!(text_of(insert, "mimeType"), Some("application/epub+zip"));
    assert_eq!(text_of(insert, "cdeType"), Some("PDOC"));
}

#[test]
fn extra_fields_override_the_entry_fields() {
    let extra = vec![
        ("cdeType".to_string(), Json::Str("EBOK".to_string())),
        ("cdeType".to_string(), Json::Str("PSNL".to_string())),
    ];
    let r = koreader_change("/mnt/us/b.epub", "u", None, None, None, true, "application/epub+zip", Some(extra), &no_file());
    let json = extended_change_request_json(r);
    let insert = insert_of(&json);
    assert_eq!(text_of(insert, "cdeType"), Some("PSNL"));
    assert_eq!(text_of(insert, "uuid"), Some("u"));
}

#[test]
fn change_request_json_layout() {
    let f = FileFacts { stat: Some(FileStat { len: 42, modified_secs: Some(1700000000) }), contents: None };
    let new_book = generate_change_request(
        "/mnt/us/books/a.epub",
        "uuid-a",
        Some("A"),
        Some("Someone"),
        Some("/mnt/us/books/a.sdr/cover.jpg"),
        true,
        "application/epub+zip",
        "EBOK",
        None,
        &f,
    );
    let json = change_request_json(&new_book);
    assert_eq!(text_of(&json, "type"), Some("ChangeRequest"));
    let insert = insert_of(&json);
    assert_eq!(text_of(insert, "uuid"), Some("uuid-a"));
    assert_eq!(text_of(insert, "location"), Some("/mnt/us/books/a.epub"));
    assert_eq!(text_of(insert, "type"), Some("Entry:Item"));
    assert_eq!(text_of(insert, "thumbnail"), Some("/mnt/us/books/a.sdr/cover.jpg"));
    assert!(matches!(insert.member("diskUsage"), Some(Json::Number(n)) if n == "42"));
    assert!(matches!(insert.member("contentSize"), Some(Json::Number(n)) if n == "42"));
    assert!(matches!(insert.member("modificationTime"), Some(Json::Number(n)) if n == "1700000000"));
    let tag = insert.member("displayTags").unwrap().item(0).unwrap();
    assert_eq!(tag.text(), Some("NEW"));
    assert!(insert.member("percentFinished").is_none());
    let objects = insert.member("displayObjects").unwrap();
    assert_eq!(text_of(objects.item(0).unwrap(), "ref"), Some("titles"));
    assert_eq!(text_of(objects.item(1).unwrap(), "ref"), Some("credits"));
    let credit = insert.member("credits").unwrap().item(0).unwrap();
    assert_eq!(text_of(credit, "kind"), Some("Author"));
    assert_eq!(text_of(credit.member("name").unwrap(), "display"), Some("Someone"));
    assert_eq!(text_of(insert.member("titles").unwrap().item(0).unwrap(), "display"), Some("A"));

    let again = generate_change_request(
        "/mnt/us/books/a.epub", "uuid-a", Some("A"), None, None, false, "application/epub+zip", "EBOK", None, &no_file(),
    );
    let insert = change_request_json(&again);
    let insert = insert_of(&insert);
    assert!(matches!(insert.member("percentFinished"), Some(Json::Number(n)) if n == "0.0"));
    assert!(insert.member("displayTags").is_none());
    assert!(insert.member("diskUsage").is_none());

    let script = script_change("/mnt/us/scripts/t.sh", "uuid-s", None, None, None, false, &no_file());
    let insert = change_request_json(&script);
    let insert = insert_of(&insert);
    assert!(matches!(insert.member("percentFinished"), Some(Json::Number(n)) if n == "0"));
}

#[test]
fn test_extra_fields_skipped_when_empty() {
    let f = no_file();
    let mut extra = MetadataMap::new();
    extra.insert("language".to_string(), "".to_string());
    extra.insert("description".to_string(), "not a ccat field".to_string());
    let book = generate_change_request(
        "/mnt/us/books/book.epub",
        "uuid-extra",
        None,
        None,
        None,
        false,
        "application/epub+zip",
        "EBOK",
        Some(&extra),
        &f,
    );
    assert!(book.insert.language.is_none());
    assert!(book.insert.publisher.is_none());
    assert!(book.insert.publication_date.is_none());
}

#[test]
fn change_request_test_null_name_uses_basename() {
    for insert in all_three("/mnt/us/scripts/test.sh", "uuid-1", None, Some("Author"), None, false) {
        assert_eq!(insert.title, "test.sh");
    }
}

#[test]
fn change_request_test_null_author_defaults_to_unknown() {
    for insert in all_three("/mnt/us/scripts/test.sh", "uuid-2", Some("Name"), None, None, false) {
        assert_eq!(insert.author, "Unknown");
    }
}

#[test]
fn change_request_test_null_icon_omits_thumbnail() {
    for insert in all_three("/mnt/us/scripts/test.sh", "uuid-3", Some("Name"), Some("Author"), None, false) {
        assert!(insert.thumbnail.is_none());
    }
}

#[test]
fn change_request_test_new_flag_adds_display_tags() {
    for insert in all_three("/mnt/us/scripts/test.sh", "uuid-4", Some("Name"), Some("Author"), None, true) {
        assert!(matches!(insert.progress, Progress::NewBadge));
    }
}

#[test]
fn change_request_test_update_adds_percent_finished() {
    let entries = all_three("/mnt/us/scripts/test.sh", "uuid-5", Some("Name"), Some("Author"), None, false);
    // The book variant writes the reset progress as `0.0`, the others as `0`.
    assert!(matches!(entries[0].progress, Progress::StartedAtZero { decimal: true }));
    assert!(matches!(entries[1].progress, Progress::StartedAtZero { decimal: false }));
    assert!(matches!(entries[2].progress, Progress::StartedAtZero { decimal: false }));
}

#[test]
fn file_facts_fill_sizes_time_and_content_key() {
    let f = FileFacts {
        stat: Some(FileStat { len: 3, modified_secs: Some(1_700_000_000) }),
        contents: Some(b"abc".to_vec()),
    };
    let r = generate_change_request("/x/y.txt", "u", Some("N"), None, None, false, "text/plain", "PDOC", None, &f);
    assert_eq!(r.insert.content_size, Some(3));
    assert_eq!(r.insert.disk_usage, Some(3));
    assert_eq!(r.insert.modification_time, Some(1_700_000_000));
    assert_eq!(r.insert.cde_key, "a9993e364706816aba3e25717850c26c9cd0d89d");
    assert_eq!(r.insert.location, "/x/y.txt");
}

#[test]
fn content_key_is_sha1_hex_or_empty() {
    assert_eq!(compute_sha1(&Some(Vec::new())), "da39a3ee5e6b4b0d3255bfef95601890afd80709");
    assert_eq!(compute_sha1(&None), "");
}

#[test]
fn basename_of_paths() {
    assert_eq!(basename("/mnt/us/scripts/test.sh"), "test.sh");
    assert_eq!(basename("plain"), "plain");
    assert_eq!(basename("/"), "Unknown");
    assert_eq!(basename("/a/b/.."), "Unknown");
}

#[test]
fn metadata_map_read_after_write() {
    let mut m = MetadataMap::new();
    assert!(m.is_empty());
    m.insert("k".to_string(), "1".to_string());
    m.insert("k".to_string(), "2".to_string());
    assert_eq!(m.get("k").map(|s| s.as_str()), Some("2"));
    assert!(m.get("other").is_none());
    assert!(!m.is_empty());
}
