use kompanion::kompanion_core::json::Json;
use kompanion::kompanion_sys::ccat::{
    after_attempt, delete_request, reply_accepted, response_ok, session_token, stamp_content_source,
    thumbnail_update_request, RetryAction,
};

fn text(s: &str) -> Json {
    Json::Str(s.to_string())
}

fn object(members: Vec<(&str, Json)>) -> Json {
    Json::Object(members.into_iter().map(|(k, v)| (k.to_string(), v)).collect())
}

/// A change request inserting the entry `uuid`.
fn insert_change(uuid: &str) -> Json {
    object(vec![
        ("type", text("ChangeRequest")),
        ("commands", Json::Array(vec![object(vec![("insert", object(vec![("uuid", text(uuid))]))])])),
    ])
}

#[test]
fn test_response_ok() {
    assert!(response_ok(200, "{\"ok\":true,\"type\":\"ChangeResponse\"}"));
    assert!(!response_ok(200, "{\"ok\":false,\"error\":\"boom\"}"));
    assert!(!response_ok(503, "Service Unavailable"));
    assert!(!response_ok(200, ""));
}

#[test]
fn response_ok_needs_a_boolean_true() {
    assert!(response_ok(204, "{\"ok\": true}"));
    assert!(!response_ok(199, "{\"ok\":true}"));
    assert!(!response_ok(300, "{\"ok\":true}"));
    assert!(!response_ok(200, "{\"ok\":\"true\"}"));
    assert!(!response_ok(200, "[true]"));
}

#[test]
fn retries_back_off_when_busy_and_give_up_after_four() {
    let ok: Result<(u16, String), String> = Ok((200, "{\"ok\":true}".to_string()));
    let busy: Result<(u16, String), String> = Ok((503, "busy".to_string()));
    let refused: Result<(u16, String), String> = Ok((200, "{\"ok\":false}".to_string()));
    let broken: Result<(u16, String), String> = Err("connection refused".to_string());
    assert_eq!(after_attempt(0, &ok), RetryAction::Succeeded);
    assert_eq!(after_attempt(3, &ok), RetryAction::Succeeded);
    assert_eq!(after_attempt(0, &busy), RetryAction::Retry(1000));
    assert_eq!(after_attempt(1, &busy), RetryAction::Retry(2000));
    assert_eq!(after_attempt(2, &busy), RetryAction::Retry(4000));
    assert_eq!(after_attempt(3, &busy), RetryAction::GiveUp(1_000_000));
    assert_eq!(after_attempt(0, &refused), RetryAction::Retry(1_000_000));
    assert_eq!(after_attempt(2, &broken), RetryAction::Retry(1_000_000));
    assert_eq!(after_attempt(3, &broken), RetryAction::GiveUp(1_000_000));
}

#[test]
fn session_token_is_trimmed() {
    assert_eq!(session_token("  abc\n").as_deref(), Some("abc"));
    assert_eq!(session_token(" \n"), None);
}

#[test]
fn reply_accepted_needs_2xx_and_ok_true() {
    assert!(reply_accepted(200, Some(true)));
    assert!(reply_accepted(299, Some(true)));
    assert!(!reply_accepted(300, Some(true)));
    assert!(!reply_accepted(503, Some(true)));
    assert!(!reply_accepted(200, Some(false)));
    assert!(!reply_accepted(200, None));
}

#[test]
fn test_post_change_rejects_non_object() {
    let change = Json::Array(vec![
        Json::Number("1".to_string()),
        Json::Number("2".to_string()),
        Json::Number("3".to_string()),
    ]);
    assert!(stamp_content_source(change).is_none());
    assert!(stamp_content_source(text("x")).is_none());
}

#[test]
fn test_post_change_adds_content_source() {
    let body = stamp_content_source(insert_change("u")).unwrap();
    assert_eq!(body.member("contentSource").and_then(|v| v.text()), Some("OnDevice"));
    let uuid = body.member("commands").unwrap().item(0).unwrap().member("insert").unwrap().member("uuid");
    assert_eq!(uuid.and_then(|v| v.text()), Some("u"));
    assert_eq!(body.member("type").and_then(|v| v.text()), Some("ChangeRequest"));
}

#[test]
fn content_source_already_present_is_kept() {
    let change = object(vec![("type", text("ChangeRequest")), ("contentSource", text("Cloud"))]);
    let body = stamp_content_source(change).unwrap();
    assert_eq!(body.member("contentSource").and_then(|v| v.text()), Some("Cloud"));
    match body {
        Json::Object(members) => assert_eq!(members.len(), 2),
        _ => panic!("not an object"),
    }
}

#[test]
fn test_delete_body_shape() {
    let body = delete_request("u1");
    assert_eq!(body.member("type").and_then(|v| v.text()), Some("ChangeRequest"));
    let command = body.member("commands").unwrap().item(0).unwrap();
    assert_eq!(command.member("delete").unwrap().member("uuid").and_then(|v| v.text()), Some("u1"));
    assert_eq!(
        command.member("updateDeletedArchivedItem").unwrap().member("deletedUuid").and_then(|v| v.text()),
        Some("u1")
    );
    assert_eq!(body.member("caller").and_then(|v| v.text()), Some("scannerDelete"));
}

#[test]
fn thumbnail_update_body_shape() {
    let body = thumbnail_update_request("u2", "/mnt/us/t.jpg");
    assert_eq!(body.member("type").and_then(|v| v.text()), Some("ChangeRequest"));
    let entry = body.member("commands").unwrap().item(0).unwrap().member("update").unwrap().member("entry").unwrap();
    assert_eq!(entry.member("uuid").and_then(|v| v.text()), Some("u2"));
    assert_eq!(entry.member("thumbnail").and_then(|v| v.text()), Some("/mnt/us/t.jpg"));
    assert!(body.member("caller").is_none());
}
