use kompanion::kompanion_launcher::build_utils::{
    collect_specs, extract_ends_with_extensions, extract_string_after, generate_install_sql,
    generate_uninstall_sql, module_names, IndexerSpec, SpecFault,
};
use kompanion::kompanion_launcher::callbacks::{
    build_launch_command, kill_command_line, parse_go_value, stub_reply, su_command_line,
    LauncherState, LoopStep,
};
use kompanion::koreader_companion_launcher::{plan_go, run_result_write, stop_write, GoPlan};
use kompanion::koreader_companion_sys::lipc::LIPCcode;

const SERVICE_NAME: &str = "com.notmarek.kompanion.launcher";

fn two_specs() -> Vec<IndexerSpec> {
    vec![
        IndexerSpec { extension: "epub".into(), mime_type: "application/epub+zip".into() },
        IndexerSpec { extension: "cbz".into(), mime_type: "application/vnd.comicbook+zip".into() },
    ]
}

#[test]
fn install_sql_contains_all_generated_rows() {
    let specs = two_specs();
    let sql = generate_install_sql(&specs);

    assert!(sql.starts_with("BEGIN;\n"));
    assert!(sql.contains("DELETE FROM mimetypes WHERE ext IN ('epub', 'cbz');"));
    assert!(sql.contains("DELETE FROM extenstions WHERE ext IN ('epub', 'cbz');"));
    assert!(sql.contains(
        "INSERT INTO mimetypes (ext, mimetype) VALUES ('cbz', 'MT:application/vnd.comicbook+zip');"
    ));
    assert!(sql.contains(
        "INSERT INTO extenstions (ext, mimetype) VALUES ('epub', 'MT:application/epub+zip');"
    ));
    assert!(sql.contains("@EXTRACTOR_LIB@"));
    assert!(sql.contains(
        "INSERT INTO associations (interface, handlerId, contentId, defaultAssoc) VALUES ('application', 'com.notmarek.kompanion.launcher', 'MT:application/vnd.comicbook+zip', 'true');"
    ));
    assert!(sql.contains(
        "INSERT INTO associations (interface, handlerId, contentId, defaultAssoc) VALUES ('extractor', 'com.notmarek.kompanion.extractor', 'GL:*.cbz', 'true');"
    ));
    assert!(sql.trim_end().ends_with("COMMIT;"));
}

#[test]
fn uninstall_sql_covers_all_generated_extensions() {
    let specs = two_specs();
    let sql = generate_uninstall_sql(&specs);

    assert!(sql.contains("DELETE FROM mimetypes WHERE ext IN ('epub', 'cbz');"));
    assert!(sql.contains("DELETE FROM extenstions WHERE ext IN ('epub', 'cbz');"));
    assert!(sql.trim_end().ends_with("COMMIT;"));
}

#[test]
fn install_and_uninstall_open_alike() {
    let specs = two_specs();
    let install = generate_install_sql(&specs);
    let uninstall = generate_uninstall_sql(&specs);
    let head = "BEGIN;\nDELETE FROM mimetypes WHERE ext IN ('epub', 'cbz');\nDELETE FROM extenstions WHERE ext IN ('epub', 'cbz');\n\n";
    assert!(install.starts_with(head));
    assert!(uninstall.starts_with(head));
    let empty = generate_uninstall_sql(&[]);
    assert!(empty.starts_with("BEGIN;\nDELETE FROM mimetypes WHERE ext IN ();"));
}

const EPUB_BODY: &str = r#"use kompanion_core::indexer::{FileIndexer, IndexMetadata};

pub struct EpubIndexer;

impl FileIndexer for EpubIndexer {
    fn can_handle(&self, filename: &str) -> bool {
        filename.ends_with(".epub")
    }

    fn mime_type(&self) -> &str {
        "application/epub+zip"
    }
}
"#;

const CBZ_BODY: &str = r#"pub struct CbzIndexer;

impl FileIndexer for CbzIndexer {
    fn can_handle(&self, filename: &str) -> bool {
        filename.ends_with(".cbz")
    }

    fn mime_type(&self) -> &str {
        "application/vnd.comicbook+zip"
    }
}
"#;

#[test]
fn specs_are_read_from_indexer_sources() {
    let names = module_names("pub mod epub;\npub mod cbz;\nuse std::sync::OnceLock;\n");
    assert_eq!(names, vec!["epub".to_string(), "cbz".to_string()]);
    let modules = vec![
        ("epub".to_string(), EPUB_BODY.to_string()),
        ("cbz".to_string(), CBZ_BODY.to_string()),
    ];
    let specs = collect_specs(&modules).unwrap();
    assert_eq!(specs.len(), 2);
    assert_eq!(specs[0].extension, "epub");
    assert_eq!(specs[0].mime_type, "application/epub+zip");
    assert_eq!(specs[1].extension, "cbz");
    assert_eq!(specs[1].mime_type, "application/vnd.comicbook+zip");
}

#[test]
fn test_modules_of_sources_are_ignored() {
    let src = format!(
        "{EPUB_BODY}\n#[cfg(test)]\nmod tests {{\n    #[test]\n    fn x() {{\n        let _ = \"book.pdf\".ends_with(\".pdf\");\n    }}\n}}\n"
    );
    let specs = collect_specs(&vec![("epub".to_string(), src)]).unwrap();
    assert_eq!(specs.len(), 1);
    assert_eq!(specs[0].extension, "epub");
    assert!(module_names("pub mod a;\n#[cfg(test)]\npub mod b;\n") == vec!["a".to_string()]);
}

#[test]
fn faulty_indexer_sources_are_reported() {
    let e = collect_specs(&vec![("x".to_string(), "fn can_handle() { ends_with(\".x\") }".to_string())])
        .unwrap_err();
    assert_eq!(e.fault, SpecFault::NoMimeType);
    assert_eq!(e.module, "x");
    let e = collect_specs(&vec![
        ("epub".to_string(), EPUB_BODY.to_string()),
        ("y".to_string(), "fn mime_type() { \"a/b\" }".to_string()),
    ])
    .unwrap_err();
    assert_eq!(e.fault, SpecFault::NoExtensions);
    assert_eq!(e.module, "y");
    let e = collect_specs(&vec![]).unwrap_err();
    assert_eq!(e.fault, SpecFault::NoModules);
}

#[test]
fn source_scanning_helpers() {
    let src: Vec<char> = "x ends_with(\".a\") ends_with(\".b\") ends_with(\".a\") ends_with(\"c\") ends_with(\".\")"
        .chars()
        .collect();
    assert_eq!(extract_ends_with_extensions(&src), vec!["a".to_string(), "b".to_string()]);
    let src: Vec<char> = "fn mime_type(&self) -> &str { \"text/x\" }".chars().collect();
    let marker: Vec<char> = "fn mime_type".chars().collect();
    assert_eq!(extract_string_after(&src, &marker).as_deref(), Some("text/x"));
    let missing: Vec<char> = "nothing".chars().collect();
    assert_eq!(extract_string_after(&missing, &marker), None);
}

#[test]
fn test_stub_reply() {
    let (result, write) = stub_reply("load", "abc123:some_value");
    assert_eq!(result, LIPCcode::Success);
    assert_eq!(write.service, "com.lab126.appmgrd");
    assert_eq!(write.property, "loadresult");
    assert!(write.value.starts_with("abc123:"));
}

#[test]
fn test_stub_reply_no_colon() {
    let (result, write) = stub_reply("go", "simple_value");
    assert_eq!(result, LIPCcode::Success);
    assert_eq!(write.value, "simple_value:0:");
}

#[test]
fn test_parse_go_value_basic() {
    let value = format!("N:app://{}/./mnt/us/scripts/test.sh", SERVICE_NAME);
    let result = parse_go_value(&value);
    assert!(result.is_some());
    assert_eq!(result.unwrap(), "./mnt/us/scripts/test.sh");
}

#[test]
fn test_parse_go_value_with_query() {
    let value = format!("N:app://{}/./mnt/us/scripts/test.sh?param=1", SERVICE_NAME);
    let result = parse_go_value(&value);
    assert!(result.is_some());
    assert_eq!(result.unwrap(), "./mnt/us/scripts/test.sh");
}

#[test]
fn go_values_for_other_services_are_refused() {
    assert_eq!(parse_go_value("no colon"), None);
    assert_eq!(parse_go_value("N:app://other.service/x"), None);
}

#[test]
fn test_build_launch_command_simple() {
    let cmd = build_launch_command("/mnt/us/documents/book.epub");
    assert_eq!(cmd, "/mnt/us/koreader/koreader.sh --asap \"/mnt/us/documents/book.epub\"");
}

#[test]
fn test_build_launch_command_spaces_in_filename() {
    let cmd = build_launch_command("/mnt/us/documents/Wie du die Affen in deinem Kopf zähmst.epub");
    assert!(cmd.contains("\""), "path must be double-quoted to survive spaces in su -c '...'");
    assert!(cmd.contains("Wie du die Affen in deinem Kopf zähmst.epub"), "full filename must be preserved");
    assert!(!cmd.contains("'"), "no single quotes in command — spawn_app wraps in single quotes");
}

#[test]
fn test_build_launch_command_umlaut() {
    let cmd = build_launch_command("/mnt/us/documents/Bücher/käfer.epub");
    assert_eq!(cmd, "/mnt/us/koreader/koreader.sh --asap \"/mnt/us/documents/Bücher/käfer.epub\"");
}

#[test]
fn test_build_launch_command_arabic_epub() {
    let path = "/mnt/us/documents/الرمز المفقود، طبعة خاصة مصورة [Arabic] -- دان براون -- 2009 -- https___t_me_mystery_books_ar -- isbn13 9780385533829 -- 4c09d7143957f731b60438ded778b988 -- The Webs' Archive.epub";
    let cmd = build_launch_command(path);
    assert!(cmd.contains("\""), "path must be double-quoted");
    assert!(cmd.contains("الرمز المفقود"), "Arabic title preserved");
    assert!(cmd.contains("[Arabic]"), "bracketed tag preserved");
    assert!(cmd.contains("دان براون"), "Arabic author preserved");
    assert!(cmd.contains("isbn13 9780385533829"), "ISBN preserved");
    assert!(cmd.contains("4c09d7143957f731b60438ded778b988"), "hash preserved");
    assert!(cmd.contains("The Webs' Archive.epub"), "source tag with apostrophe preserved");
}

#[test]
fn test_build_launch_command_arabic_mobi() {
    let path = "/mnt/us/documents/براون، دان - جحيم [Arabic] -- دان براون -- Penguin Random House LLC, New York, 2013 -- https___t_me_mystery_books_ar -- isbn13 9780385537858 -- 079c203c83fa25d6261722e930cdc824 -- The Webs' Archive.mobi";
    let cmd = build_launch_command(path);
    assert!(cmd.contains("براون، دان"), "Arabic author with Arabic comma preserved");
    assert!(cmd.contains("Penguin Random House LLC, New York, 2013"), "publisher with commas and year preserved");
    assert!(cmd.contains("The Webs' Archive.mobi"), ".mobi extension and source tag preserved");
}

#[test]
fn test_build_launch_command_apostrophe_in_path() {
    let path = "/mnt/us/documents/The Webs' Archive.epub";
    let cmd = build_launch_command(path);
    assert!(cmd.contains("\""), "path must be double-quoted");
    assert!(cmd.contains("The Webs' Archive.epub"), "apostrophe passed through at build level");
}

#[test]
fn command_lines_for_su() {
    assert_eq!(su_command_line("ls"), "/var/local/mkk/su -c 'ls'");
    assert_eq!(kill_command_line(4242), "/var/local/mkk/su -c \"kill -9 4242\"");
    assert_eq!(kill_command_line(7), "/var/local/mkk/su -c \"kill -9 7\"");
}

#[test]
fn launcher_state_machine() {
    let mut s = LauncherState::default();
    assert_eq!(s.app_pid, -1);
    assert!(!s.should_exit);
    assert_eq!(s.next_step(), LoopStep::Idle);
    s.on_spawned(77);
    assert_eq!(s.next_step(), LoopStep::WaitFor(77));
    s.on_child_exited();
    assert_eq!(s.app_pid, -1);
    assert_eq!(s.next_step(), LoopStep::Idle);
    s.on_spawned(12);
    assert_eq!(s.on_unload(), Some(12));
    assert_eq!(s.next_step(), LoopStep::Exit);
    let mut idle = LauncherState::default();
    assert_eq!(idle.on_unload(), None);
    assert_eq!(idle.next_step(), LoopStep::Exit);
}

#[test]
fn koreader_launcher_bus_writes_and_go() {
    let w = run_result_write();
    assert_eq!((w.service.as_str(), w.property.as_str(), w.value.as_str()), ("com.lab126.appmgrd", "runresult", "0:github.koreader.companion.launcher"));
    let w = stop_write();
    assert_eq!(w.property, "stop");
    assert_eq!(w.value, "github.koreader.companion.launcher");
    assert!(matches!(plan_go("nothing here"), GoPlan::ReplyOnly));
    let value = format!("N:app://{}/%2Fmnt%2Fus%2Fdocuments%2Fmy+book.epub?x=1", SERVICE_NAME);
    match plan_go(&value) {
        GoPlan::Launch { path, command } => {
            assert_eq!(path, "/mnt/us/documents/my book.epub");
            assert_eq!(command, "/mnt/us/koreader/koreader.sh --asap \"/mnt/us/documents/my book.epub\"");
        }
        GoPlan::ReplyOnly => panic!("the value names a file"),
    }
}

#[test]
fn lipc_codes_round_trip() {
    for v in [0, 1, 5, 18, 0x100, 0x101, 0x102] {
        assert_eq!(LIPCcode::from_code(v).unwrap().code(), v);
    }
    assert_eq!(LIPCcode::from_code(19), None);
    assert_eq!(LIPCcode::from_code(-1), None);
    assert_eq!(LIPCcode::Success.code(), 0);
    assert_eq!(LIPCcode::PropErrorInternal.code(), 0x102);
}

#[test]
fn uninstall_sql_only_deletes() {
    let specs = vec![
        IndexerSpec { extension: "epub".into(), mime_type: "application/epub+zip".into() },
        IndexerSpec { extension: "cbz".into(), mime_type: "application/vnd.comicbook+zip".into() },
    ];
    let sql = generate_uninstall_sql(&specs);
    assert!(sql.starts_with(
        "BEGIN;\nDELETE FROM mimetypes WHERE ext IN ('epub', 'cbz');\nDELETE FROM extenstions WHERE ext IN ('epub', 'cbz');\n"
    ));
    assert!(sql.ends_with("COMMIT;\n"));
    assert!(!sql.contains("INSERT"));
    assert!(sql.contains("DELETE FROM handlerIds WHERE handlerId = 'com.notmarek.kompanion.launcher';"));
    assert!(sql.contains("DELETE FROM handlerIds WHERE handlerId = 'com.notmarek.kompanion.extractor';"));
}
