//! When a catalog `/change` reply counts as success, and what is done
//! after each attempt to post a change.
use vstd::prelude::*;
use crate::text::{chars_equal, chars_of, non_empty, non_empty_text, opt_seq};
use crate::kompanion_core::change_request::str_member;
use crate::kompanion_core::json::{
    json_model, json_str, lemma_member_models_index, lemma_member_models_len, lemma_members_map_key, member_models, members_map,
    one_item, push_member, single, Json, JsonModel,
};

verus! {

/// The member `key` of the JSON object that `body` parses to, when the text
/// is JSON, is an object, and that member is a boolean.
pub uninterp spec fn json_bool_member(body: Seq<char>, key: Seq<char>) -> Option<bool>;

/// `serde_json::from_str::<Value>`, then `Value::get(key)` and
/// `Value::as_bool` on the result: the boolean member `key` of the parsed
/// object, `None` when the text does not parse, is not an object, or has
/// no such boolean member. The three calls together are named; nothing
/// more is claimed of the parse.
#[verifier::external_body]
fn parse_bool_member(body: &str, key: &str) -> (r: Option<bool>)
    ensures
        r == json_bool_member(body@, key@),
{
    let parsed: Option<serde_json::Value> = serde_json::from_str(body).ok();
    match parsed {
        Some(v) => v.get(key).and_then(|o| o.as_bool()),
        None => None,
    }
}

/// The reply counts as success: a 2xx status and a body whose JSON `ok`
/// member is `true`.
pub open spec fn reply_ok(status: u16, body: Seq<char>) -> bool {
    200 <= status < 300 && json_bool_member(body, "ok"@) == Some(true)
}

/// Whether a reply with this status and this boolean `ok` member (`None`
/// when the body has none) accepts the change: a 2xx status and `ok` true.
pub fn reply_accepted(status: u16, ok_member: Option<bool>) -> (r: bool)
    ensures
        r == (200 <= status < 300 && ok_member == Some(true)),
{
    200 <= status && status < 300 && match ok_member {
        Some(b) => b,
        None => false,
    }
}

/// Whether the catalog accepted the change: a 2xx status and `{"ok":true}`.
pub fn response_ok(status: u16, body: &str) -> (r: bool)
    ensures
        r == reply_ok(status, body@),
{
    let ok_member = parse_bool_member(body, "ok");
    proof {
        reveal_strlit("ok");
    }
    reply_accepted(status, ok_member)
}

/// The number of attempts to post a change.
pub const MAX_ATTEMPTS: u32 = 4;

/// The pause, in microseconds, after a failed attempt that gets no
/// busy back-off.
pub const RETRY_SLEEP_MICROS: u64 = 1_000_000;

/// The back-off, in microseconds, after the catalog answered "busy" (503)
/// to attempt `attempt` (0, 1 or 2).
pub open spec fn busy_backoff(attempt: u32) -> u64 {
    if attempt == 0 {
        1000
    } else if attempt == 1 {
        2000
    } else {
        4000
    }
}

/// What follows an attempt to post a change.
#[derive(Debug, Clone, Copy, PartialEq, Eq, Structural)]
pub enum RetryAction {
    /// The change was accepted: the post answers 0.
    Succeeded,
    /// Sleep this many microseconds, then try again.
    Retry(u64),
    /// Sleep this many microseconds, then give up: the post answers 1.
    GiveUp(u64),
}

/// The action after attempt `attempt` got `reply` (a delivered status and
/// body, or a transport error).
pub open spec fn retry_action_of(attempt: u32, reply: Result<(u16, Seq<char>), ()>) -> RetryAction {
    match reply {
        Ok((status, body)) => if reply_ok(status, body) {
            RetryAction::Succeeded
        } else if status == 503 && attempt < 3 {
            RetryAction::Retry(busy_backoff(attempt))
        } else if attempt + 1 < MAX_ATTEMPTS {
            RetryAction::Retry(RETRY_SLEEP_MICROS)
        } else {
            RetryAction::GiveUp(RETRY_SLEEP_MICROS)
        },
        Err(_) => if attempt + 1 < MAX_ATTEMPTS {
            RetryAction::Retry(RETRY_SLEEP_MICROS)
        } else {
            RetryAction::GiveUp(RETRY_SLEEP_MICROS)
        },
    }
}

/// A reply as plain values.
pub open spec fn reply_view(reply: Result<(u16, String), String>) -> Result<(u16, Seq<char>), ()> {
    match reply {
        Ok((status, body)) => Ok((status, body@)),
        Err(_) => Err(()),
    }
}

/// What to do after attempt `attempt` (counted from 0) got `reply`: stop on
/// success; after a "busy" answer to one of the first three attempts back
/// off 1, 2 or 4 ms; otherwise pause a second, and give up after the
/// fourth attempt.
pub fn after_attempt(attempt: u32, reply: &Result<(u16, String), String>) -> (r: RetryAction)
    requires
        attempt < MAX_ATTEMPTS,
    ensures
        r == retry_action_of(attempt, reply_view(*reply)),
{
    let last = attempt + 1 >= MAX_ATTEMPTS;
    match reply {
        Ok((status, body)) => {
            if response_ok(*status, body.as_str()) {
                RetryAction::Succeeded
            } else if *status == 503 && attempt < 3 {
                let us: u64 = if attempt == 0 {
                    1000
                } else if attempt == 1 {
                    2000
                } else {
                    4000
                };
                RetryAction::Retry(us)
            } else if !last {
                RetryAction::Retry(RETRY_SLEEP_MICROS)
            } else {
                RetryAction::GiveUp(RETRY_SLEEP_MICROS)
            }
        },
        Err(_) => {
            if !last {
                RetryAction::Retry(RETRY_SLEEP_MICROS)
            } else {
                RetryAction::GiveUp(RETRY_SLEEP_MICROS)
            }
        },
    }
}

/// The retries are bounded: an attempt before the last never gives up,
/// and the last one never retries.
pub proof fn lemma_retries_bounded(attempt: u32, reply: Result<(u16, Seq<char>), ()>)
    requires
        attempt < MAX_ATTEMPTS,
    ensures
        attempt + 1 < MAX_ATTEMPTS ==> !(retry_action_of(attempt, reply) is GiveUp),
        attempt + 1 == MAX_ATTEMPTS ==> !(retry_action_of(attempt, reply) is Retry),
{
}

/// An accepted reply always ends the posting, whatever the attempt.
pub proof fn lemma_accepted_reply_succeeds(attempt: u32, status: u16, body: Seq<char>)
    requires
        reply_ok(status, body),
    ensures
        retry_action_of(attempt, Ok((status, body))) == RetryAction::Succeeded,
{
}

/// Busy back-offs start at 1 ms and double with each attempt, and a
/// busy answer to one of the first three attempts is retried after its
/// back-off; any other failure before the last attempt is retried after a
/// second, and the last attempt gives up after a second.
pub proof fn lemma_back_off(attempt: u32, body: Seq<char>)
    requires
        attempt < MAX_ATTEMPTS,
    ensures
        busy_backoff(0) == 1000,
        attempt < 2 ==> busy_backoff((attempt + 1) as u32) == 2 * busy_backoff(attempt),
        attempt < 3 ==> retry_action_of(attempt, Ok((503u16, body)))
            == RetryAction::Retry(busy_backoff(attempt)),
        attempt < 3 ==> retry_action_of(attempt, Err(())) == RetryAction::Retry(1_000_000),
        attempt == 3 ==> retry_action_of(attempt, Err(())) == RetryAction::GiveUp(1_000_000),
{
}

/// A reply that accepts the change.
pub open spec fn accepts(reply: Result<(u16, Seq<char>), ()>) -> bool {
    reply matches Ok((status, body)) && reply_ok(status, body)
}

/// Posting from attempt `attempt` on, when the attempts get the replies
/// `replies` in turn: the answer (0 accepted, 1 not) and the number of
/// posts made.
pub open spec fn posting(attempt: u32, replies: Seq<Result<(u16, Seq<char>), ()>>) -> (int, nat)
    decreases MAX_ATTEMPTS - attempt,
{
    if attempt >= MAX_ATTEMPTS || replies.len() == 0 {
        (1, 0)
    } else {
        match retry_action_of(attempt, replies[0]) {
            RetryAction::Succeeded => (0, 1),
            RetryAction::Retry(_) => {
                let rest = posting((attempt + 1) as u32, replies.drop_first());
                (rest.0, rest.1 + 1)
            },
            RetryAction::GiveUp(_) => (1, 1),
        }
    }
}

/// Posting a change: a change that is not an object is answered 1 with
/// nothing posted; otherwise its stamped body is posted as `posting` says.
pub open spec fn post_change_outcome(change: JsonModel, replies: Seq<Result<(u16, Seq<char>), ()>>) -> (
    int,
    nat,
) {
    match stamped(change) {
        Some(_) => posting(0, replies),
        None => (1, 0),
    }
}

/// From attempt `attempt` on, at most the remaining attempts are made, and
/// the answer is 0 exactly when one of the replies they get accepts.
pub proof fn lemma_posting_from(attempt: u32, replies: Seq<Result<(u16, Seq<char>), ()>>)
    requires
        attempt < MAX_ATTEMPTS,
        replies.len() >= MAX_ATTEMPTS - attempt,
    ensures
        1 <= posting(attempt, replies).1 <= MAX_ATTEMPTS - attempt,
        posting(attempt, replies).0 == 0 || posting(attempt, replies).0 == 1,
        posting(attempt, replies).0 == 0 <==> exists|i: int|
            0 <= i < MAX_ATTEMPTS - attempt && #[trigger] accepts(replies[i]),
    decreases MAX_ATTEMPTS - attempt,
{
    let rest = replies.drop_first();
    match retry_action_of(attempt, replies[0]) {
        RetryAction::Succeeded => {
            assert(accepts(replies[0]));
        },
        RetryAction::Retry(_) => {
            assert(!accepts(replies[0]));
            lemma_posting_from((attempt + 1) as u32, rest);
            if exists|i: int| 0 <= i < MAX_ATTEMPTS - attempt && #[trigger] accepts(replies[i]) {
                let i = choose|i: int| 0 <= i < MAX_ATTEMPTS - attempt && #[trigger] accepts(replies[i]);
                assert(i != 0);
                assert(rest[i - 1] == replies[i]);
                assert(accepts(rest[i - 1]));
            }
            if exists|i: int| 0 <= i < MAX_ATTEMPTS - (attempt + 1) && #[trigger] accepts(rest[i]) {
                let i = choose|i: int| 0 <= i < MAX_ATTEMPTS - (attempt + 1) && #[trigger] accepts(rest[i]);
                assert(replies[i + 1] == rest[i]);
                assert(accepts(replies[i + 1]));
            }
        },
        RetryAction::GiveUp(_) => {
            assert(!accepts(replies[0]));
            assert(attempt + 1 == MAX_ATTEMPTS);
        },
    }
}

/// Posting a change as a whole: a change that is not an object is answered
/// 1 and nothing is posted; otherwise at most `MAX_ATTEMPTS` posts are made
/// and the answer is 0 exactly when one of the first `MAX_ATTEMPTS` replies
/// has a 2xx status and `"ok": true`, else 1. The posted body keeps every
/// member of the change and has `contentSource`, set to `"OnDevice"` when
/// the change had none.
pub proof fn lemma_post_change(change: JsonModel, replies: Seq<Result<(u16, Seq<char>), ()>>)
    requires
        replies.len() >= MAX_ATTEMPTS,
    ensures
        !(change is Object) ==> post_change_outcome(change, replies) == (1int, 0nat),
        change is Object ==> {
            &&& post_change_outcome(change, replies).1 <= MAX_ATTEMPTS
            &&& (post_change_outcome(change, replies).0 == 0 <==> exists|i: int|
                0 <= i < MAX_ATTEMPTS && #[trigger] accepts(replies[i]))
            &&& (post_change_outcome(change, replies).0 != 0 ==> post_change_outcome(change, replies).0 == 1)
        },
        change matches JsonModel::Object(fs) ==> stamped(change) matches Some(JsonModel::Object(gs)) && (
        if members_map(fs).contains_key("contentSource"@) {
            members_map(gs) == members_map(fs)
        } else {
            members_map(gs) == members_map(fs).insert("contentSource"@, JsonModel::Str("OnDevice"@))
        }),
{
    if let JsonModel::Object(fs) = change {
        lemma_posting_from(0, replies);
        let x = ("contentSource"@, JsonModel::Str("OnDevice"@));
        assert(fs.push(x).drop_last() =~= fs);
    }
}

/// The session token kept in the token file: its contents trimmed, or
/// `None` when that leaves nothing.
pub fn session_token(contents: &str) -> (r: Option<String>)
    ensures
        opt_seq(r) == non_empty_text(contents@),
{
    non_empty(contents)
}

/// The body posted for a change: the change with `contentSource:
/// "OnDevice"` added when it has no such member (an existing one is kept);
/// `None` when the change is not a JSON object, which is answered 1 with
/// nothing posted.
pub open spec fn stamped(change: JsonModel) -> Option<JsonModel> {
    match change {
        JsonModel::Object(fs) => if members_map(fs).contains_key("contentSource"@) {
            Some(change)
        } else {
            Some(JsonModel::Object(fs.push(("contentSource"@, JsonModel::Str("OnDevice"@)))))
        },
        _ => None,
    }
}

/// Stamps the change's source before it is posted.
pub fn stamp_content_source(change: Json) -> (r: Option<Json>)
    ensures
        match r {
            Some(j) => stamped(json_model(change)) == Some(json_model(j)),
            None => stamped(json_model(change)) is None,
        },
{
    let ghost c = json_model(change);
    match change {
        Json::Object(fs) => {
            let ghost ms = member_models(fs@);
            let key = chars_of("contentSource");
            let mut found = false;
            let mut i: usize = 0;
            while i < fs.len()
                invariant
                    i <= fs@.len(),
                    key@ == "contentSource"@,
                    ms == member_models(fs@),
                    found <==> exists|k: int| 0 <= k < i && #[trigger] ms[k].0 == "contentSource"@,
                decreases fs@.len() - i,
            {
                proof {
                    lemma_member_models_index(fs@, i as int);
                }
                let same = chars_equal(chars_of(fs[i].0.as_str()).as_slice(), key.as_slice());
                assert(ms[i as int].0 == fs@[i as int].0@);
                if same {
                    found = true;
                }
                assert(found <==> exists|k: int| 0 <= k < i + 1 && #[trigger] ms[k].0 == "contentSource"@) by {
                    if exists|k: int| 0 <= k < i + 1 && #[trigger] ms[k].0 == "contentSource"@ {
                        let k = choose|k: int| 0 <= k < i + 1 && #[trigger] ms[k].0 == "contentSource"@;
                        if k < i {
                            assert(exists|k2: int| 0 <= k2 < i && #[trigger] ms[k2].0 == "contentSource"@);
                        }
                    }
                }
                i = i + 1;
            }
            proof {
                lemma_members_map_key(ms, "contentSource"@);
                lemma_member_models_len(fs@);
                assert(c == JsonModel::Object(ms));
            }
            if found {
                Some(Json::Object(fs))
            } else {
                let mut fs = fs;
                push_member(&mut fs, "contentSource", json_str("OnDevice"));
                Some(Json::Object(fs))
            }
        },
        _ => None,
    }
}

/// `{"type": "ChangeRequest", "commands": [<command>]}` with the members
/// that follow `commands`.
pub open spec fn command_request_model(command: JsonModel, rest: Seq<(Seq<char>, JsonModel)>) -> JsonModel {
    JsonModel::Object(
        seq![str_member("type"@, "ChangeRequest"@), ("commands"@, JsonModel::Array(seq![command]))] + rest,
    )
}

/// The request that deletes an entry and records it as deleted, as the
/// scanner sends it.
pub open spec fn delete_model(uuid: Seq<char>) -> JsonModel {
    command_request_model(
        JsonModel::Object(
            seq![
                ("delete"@, JsonModel::Object(seq![str_member("uuid"@, uuid)])),
                ("updateDeletedArchivedItem"@, JsonModel::Object(seq![str_member("deletedUuid"@, uuid)])),
            ],
        ),
        seq![str_member("caller"@, "scannerDelete"@)],
    )
}

/// The request that sets an entry's thumbnail.
pub open spec fn thumbnail_update_model(uuid: Seq<char>, thumbnail: Seq<char>) -> JsonModel {
    command_request_model(
        JsonModel::Object(
            seq![
                (
                    "update"@,
                    JsonModel::Object(
                        seq![
                            (
                                "entry"@,
                                JsonModel::Object(
                                    seq![str_member("uuid"@, uuid), str_member("thumbnail"@, thumbnail)],
                                ),
                            ),
                        ],
                    ),
                ),
            ],
        ),
        seq![],
    )
}

/// The body that deletes the catalog entry `uuid`.
pub fn delete_request(uuid: &str) -> (r: Json)
    ensures
        json_model(r) == delete_model(uuid@),
{
    let mut command: Vec<(String, Json)> = Vec::new();
    push_member(&mut command, "delete", single("uuid", json_str(uuid)));
    push_member(&mut command, "updateDeletedArchivedItem", single("deletedUuid", json_str(uuid)));
    let ghost cm = member_models(command@);
    assert(cm =~= seq![
        ("delete"@, JsonModel::Object(seq![str_member("uuid"@, uuid@)])),
        ("updateDeletedArchivedItem"@, JsonModel::Object(seq![str_member("deletedUuid"@, uuid@)])),
    ]);
    let mut top: Vec<(String, Json)> = Vec::new();
    push_member(&mut top, "type", json_str("ChangeRequest"));
    push_member(&mut top, "commands", one_item(Json::Object(command)));
    push_member(&mut top, "caller", json_str("scannerDelete"));
    assert(member_models(top@) =~= seq![
        str_member("type"@, "ChangeRequest"@),
        ("commands"@, JsonModel::Array(seq![JsonModel::Object(cm)])),
    ] + seq![str_member("caller"@, "scannerDelete"@)]);
    Json::Object(top)
}

/// The body that sets the thumbnail of the catalog entry `uuid`.
pub fn thumbnail_update_request(uuid: &str, thumbnail: &str) -> (r: Json)
    ensures
        json_model(r) == thumbnail_update_model(uuid@, thumbnail@),
{
    let mut entry: Vec<(String, Json)> = Vec::new();
    push_member(&mut entry, "uuid", json_str(uuid));
    push_member(&mut entry, "thumbnail", json_str(thumbnail));
    let ghost em = member_models(entry@);
    assert(em =~= seq![str_member("uuid"@, uuid@), str_member("thumbnail"@, thumbnail@)]);
    let update = single("update", single("entry", Json::Object(entry)));
    let mut top: Vec<(String, Json)> = Vec::new();
    push_member(&mut top, "type", json_str("ChangeRequest"));
    push_member(&mut top, "commands", one_item(update));
    assert(member_models(top@) =~= seq![
        str_member("type"@, "ChangeRequest"@),
        ("commands"@, JsonModel::Array(seq![json_model(update)])),
    ] + seq![]);
    Json::Object(top)
}

} // verus!
