use kompanion::kompanion_core::change_request::{FileFacts, Progress};
use kompanion::sh_integration_core::base64::{base64_decode_manual, decode_data_uri, get_icon_extension};
use kompanion::sh_integration_core::command::{escape_quotes, generate_command};
use kompanion::sh_integration_core::header::parse_header;
use kompanion::sh_integration_core::url::{hex_decode, strip, url_decode};
use kompanion::sh_integration_core::ScriptHeader;
use kompanion::sh_integration_extractor::index::{index_change, plan_index};
use kompanion::sh_integration_extractor::remove::{plan_removal, removal_paths};
use kompanion::sh_integration_extractor::{script_event_steps, ScriptStep};

#[test]
fn test_base64_decode_basic() {
    let input = "aGVsbG8=";
    let result = base64_decode_manual(input).unwrap();
    assert_eq!(result, b"hello");
}

#[test]
fn test_base64_decode_hello_world() {
    let input = "aGVsbG8gd29ybGQ=";
    let result = base64_decode_manual(input).unwrap();
    assert_eq!(result, b"hello world");
}

#[test]
fn test_get_icon_extension_png() {
    let ext = get_icon_extension("data:image/png;base64,iVBOR...");
    assert_eq!(ext, Some("png".to_string()));
}

#[test]
fn test_get_icon_extension_jpeg() {
    let ext = get_icon_extension("data:image/jpeg;base64,/9j/...");
    assert_eq!(ext, Some("jpeg".to_string()));
}

#[test]
fn test_get_icon_extension_non_data_uri() {
    let ext = get_icon_extension("/path/to/icon.png");
    assert_eq!(ext, None);
}

#[test]
fn command_test_escape_quotes() {
    assert_eq!(escape_quotes("hello\"world"), "hello\\\"world");
    assert_eq!(escape_quotes("no_quotes"), "no_quotes");
}

#[test]
fn index_test_escape_quotes() {
    assert_eq!(escape_quotes("hello\"world"), "hello\\\"world");
    assert_eq!(escape_quotes("no_quotes"), "no_quotes");
}

#[test]
fn test_url_decode_simple() {
    assert_eq!(url_decode("hello%20world"), "hello world");
}

#[test]
fn test_url_decode_plain() {
    assert_eq!(url_decode("simple/path.sh"), "simple/path.sh");
}

#[test]
fn test_url_decode_special_chars() {
    assert_eq!(url_decode("%2Fmnt%2Fus%2Fdocuments%2Ftest.sh"), "/mnt/us/documents/test.sh");
}

#[test]
fn test_hex_decode_all() {
    for (i, expected) in (0u8..16).enumerate() {
        let hex_char = if i < 10 { b'0' + i as u8 } else { b'A' + (i - 10) as u8 };
        assert_eq!(hex_decode(hex_char), expected);
    }
    for (i, expected) in (0u8..16).enumerate() {
        let hex_char = if i < 10 { b'0' + i as u8 } else { b'a' + (i - 10) as u8 };
        assert_eq!(hex_decode(hex_char), expected);
    }
}

#[test]
fn test_strip() {
    assert_eq!(strip("  hello  "), "hello");
    assert_eq!(strip("\t\nfoo\r\n"), "foo");
    assert_eq!(strip("no_whitespace"), "no_whitespace");
}

#[test]
fn url_decode_edge_cases() {
    // A `%` needs two more bytes after it to be decoded.
    assert_eq!(url_decode("100%"), "100%");
    assert_eq!(url_decode("a%4"), "a%4");
    assert_eq!(url_decode("%41b"), "Ab");
    // Bytes that are not UTF-8 give an empty string.
    assert_eq!(url_decode("%FF"), "");
    assert_eq!(hex_decode(b'g'), 0);
}

#[test]
fn base64_skips_noise_and_stops_at_padding() {
    assert_eq!(base64_decode_manual("aGVs\nbG8=").unwrap(), b"hello");
    assert_eq!(base64_decode_manual("aGVsbG8=IGlnbm9yZWQ=").unwrap(), b"hello");
    assert_eq!(base64_decode_manual("").unwrap(), b"");
}

#[test]
fn data_uri_icons_decode_or_fail() {
    assert_eq!(decode_data_uri("data:image/png;base64,aGVsbG8=").unwrap(), b"hello");
    assert_eq!(decode_data_uri("/path/icon.png"), Err("Not a data URI".to_string()));
    assert_eq!(
        decode_data_uri("data:image/png;base64"),
        Err("Missing comma in data URI".to_string())
    );
}

const BASIC: &str = "#!/bin/sh\n# Name: My Script\n# Author: Marek\n# Icon: /mnt/us/icon.png\n# DontUseFBInk\necho hi\n";
const HOOKS: &str = "#!/bin/sh\n# Name: Hooked\n# UseHooks\n\non_run() { :; }\n";

#[test]
fn header_fields_are_read_from_the_first_lines() {
    let h = parse_header(BASIC);
    assert_eq!(h.name.as_deref(), Some("My Script"));
    assert_eq!(h.author.as_deref(), Some("Marek"));
    assert_eq!(h.icon.as_deref(), Some("/mnt/us/icon.png"));
    assert!(!h.use_hooks);
    assert!(!h.use_fbink);
    let h = parse_header(HOOKS);
    assert!(h.use_hooks);
    assert!(h.use_fbink);
    assert_eq!(h.author, None);
}

#[test]
fn header_ignores_lines_after_the_sixth() {
    let h = parse_header("1\n2\n3\n4\n5\n6\n# Name: Late\n");
    assert_eq!(h.name, None);
    let h = parse_header("# Name:    \n# Author:  Someone  \r\n");
    assert_eq!(h.name, None);
    assert_eq!(h.author.as_deref(), Some("Someone"));
}

fn header(use_hooks: bool, use_fbink: bool, icon: Option<&str>) -> ScriptHeader {
    ScriptHeader {
        name: Some("N".to_string()),
        author: None,
        icon: icon.map(|s| s.to_string()),
        use_hooks,
        use_fbink,
    }
}

#[test]
fn commands_for_each_header_kind() {
    let p = "/mnt/us/scripts/a \"b\".sh";
    assert_eq!(generate_command(p, &header(false, false, None)), "sh -l \"/mnt/us/scripts/a \\\"b\\\".sh\"");
    assert_eq!(
        generate_command("/s.sh", &header(true, false, None)),
        "sh -l -c \"source \\\"/s.sh\\\"; on_run;\""
    );
    assert_eq!(
        generate_command("/s.sh", &header(false, true, None)),
        "/mnt/us/libkh/bin/fbink -k; sh -l \"/s.sh\" 2>&1 | /mnt/us/libkh/bin/fbink -y 5 -r"
    );
}

#[test]
fn indexing_plans_sidecar_icon_and_hooks() {
    let h = header(true, true, Some("data:image/png;base64,aGVsbG8="));
    let plan = plan_index("/mnt/us/scripts", "a\"b.sh", &h, false);
    assert_eq!(plan.full_path, "/mnt/us/scripts/a\"b.sh");
    assert_eq!(plan.sdr_path.as_deref(), Some("/mnt/us/scripts/a\"b.sh.sdr"));
    assert_eq!(plan.icon_file.as_deref(), Some("/mnt/us/scripts/a\"b.sh.sdr/icon.png"));
    assert_eq!(
        plan.install_command.as_deref(),
        Some("source \"/mnt/us/scripts/a\\\"b.sh\"; on_install;")
    );
    assert_eq!(plan.script_copy.as_deref(), Some("/mnt/us/scripts/a\"b.sh.sdr/script.sh"));

    let facts = FileFacts { stat: None, contents: None };
    let written = index_change(&plan, &h, "u", true, true, &facts);
    assert_eq!(written.insert.thumbnail.as_deref(), Some("/mnt/us/scripts/a\"b.sh.sdr/icon.png"));
    let failed = index_change(&plan, &h, "u", false, true, &facts);
    assert_eq!(failed.insert.thumbnail.as_deref(), Some("data:image/png;base64,aGVsbG8="));
    assert_eq!(failed.insert.cde_type, "PDOC");
    assert!(matches!(failed.insert.progress, Progress::NewBadge));
}

#[test]
fn indexing_without_usable_icon_or_hooks_makes_no_sidecar() {
    let h = header(false, true, Some("/nowhere/icon.png"));
    let plan = plan_index("/d", "s.sh", &h, false);
    assert!(plan.sdr_path.is_none());
    assert!(plan.icon_file.is_none());
    assert!(plan.install_command.is_none());
    let plan = plan_index("/d", "s.sh", &h, true);
    assert_eq!(plan.sdr_path.as_deref(), Some("/d/s.sh.sdr"));
    assert!(plan.icon_file.is_none());
}

#[test]
fn removal_runs_the_kept_hook() {
    let paths = removal_paths("/d", "s.sh");
    assert_eq!(paths.sdr_path, "/d/s.sh.sdr");
    assert_eq!(paths.script_path, "/d/s.sh.sdr/script.sh");
    let plan = plan_removal(&paths, Some("u-1"), Some(HOOKS));
    assert_eq!(plan.drop_uuid.as_deref(), Some("u-1"));
    assert_eq!(plan.remove_command.as_deref(), Some("source \"/d/s.sh.sdr/script.sh\"; on_remove;"));
    let plan = plan_removal(&paths, None, Some(BASIC));
    assert!(plan.drop_uuid.is_none());
    assert!(plan.remove_command.is_none());
    let plan = plan_removal(&paths, Some("u-2"), None);
    assert_eq!(plan.drop_uuid.as_deref(), Some("u-2"));
    assert!(plan.remove_command.is_none());
}

#[test]
fn script_events_map_to_steps() {
    assert_eq!(script_event_steps(0), Some(vec![ScriptStep::Index(true)]));
    assert_eq!(script_event_steps(1), Some(vec![ScriptStep::Remove]));
    assert_eq!(script_event_steps(2), Some(vec![ScriptStep::Remove, ScriptStep::Index(false)]));
    assert_eq!(script_event_steps(4), Some(vec![]));
    assert_eq!(script_event_steps(7), None);
}

#[test]
fn url_decode_reads_every_byte_escaped() {
    assert_eq!(url_decode("%C3%A4%2F%41"), "ä/A");
    assert_eq!(url_decode("%c3%a4"), "ä");
}

#[test]
fn base64_reads_standard_encodings_back() {
    assert_eq!(base64_decode_manual("AAEC/w==").unwrap(), vec![0u8, 1, 2, 255]);
    assert_eq!(base64_decode_manual("+/+/").unwrap(), vec![0xfb, 0xff, 0xbf]);
    assert_eq!(base64_decode_manual("YQ==").unwrap(), b"a");
}

#[test]
fn header_stops_after_six_lines() {
    let h = parse_header("1\n2\n3\n4\n5\n6\n# Name: X\n# DontUseFBInk\n");
    assert_eq!(h.name, None);
    assert!(h.use_fbink);
}

#[test]
fn base64_decode_skips_line_breaks_and_spaces() {
    let result = base64_decode_manual("aGVs\nbG8g d29y\r\nbGQ=").unwrap();
    assert_eq!(result, b"hello world");
    let wrapped = base64_decode_manual("\taGVs bG8=\n").unwrap();
    assert_eq!(wrapped, b"hello");
}

#[test]
fn url_decode_takes_hex_digits_in_either_case() {
    assert_eq!(url_decode("a%2fb%2Fc"), "a/b/c");
    assert_eq!(url_decode("%e2%82%AC"), "\u{20ac}");
    assert_eq!(url_decode("%41%62"), "Ab");
}

#[test]
fn header_reads_only_six_lines() {
    let content = "1\n2\n3\n4\n5\n6\n# Name: X\n# DontUseFBInk\n";
    let h = parse_header(content);
    assert_eq!(h.name, None);
    assert!(h.use_fbink);
    let script = "#!/bin/sh\r\n# Name: Tool\r\n# Author: Me\n\n# UseHooks\n# Icon: i.png\n# DontUseFBInk\n";
    let first_six: Vec<&str> = script.lines().take(6).collect();
    assert_eq!(parse_header(script), parse_header(&first_six.join("\n")));
    let h = parse_header(script);
    assert_eq!(h.name.as_deref(), Some("Tool"));
    assert_eq!(h.author.as_deref(), Some("Me"));
    assert!(h.use_hooks);
    assert!(h.use_fbink);
}
