//! The catalog (CCat) `ChangeRequest` that inserts a book into the library.
use vstd::prelude::*;
use vstd::string::*;
use sha1::Digest;
use crate::kompanion_core::indexer::MetadataMap;
use crate::kompanion_core::json::{
    json_model, json_models, json_str, lemma_members_map_push, member_models, members_map, one_item, push_item,
    push_member, single, Json, JsonModel,
};
use crate::path::{file_name, file_name_of};
use crate::text::{chars_of, decimal, decimal_of_u64, opt_seq, string_from_chars};

verus! {

/// What the file system reports about a file's metadata.
pub struct FileStat {
    /// The file length in bytes.
    pub len: u64,
    /// Seconds since the Unix epoch of the last modification, if known.
    pub modified_secs: Option<u64>,
}

/// What could be learnt about the book file: its metadata and its contents
/// (each `None` when it could not be read).
pub struct FileFacts {
    pub stat: Option<FileStat>,
    pub contents: Option<Vec<u8>>,
}

/// How the entry shows reading progress: a `NEW` badge for a new entry, or
/// progress reset to zero for a re-inserted one (written `0.0` when
/// `decimal`, else `0`).
pub enum Progress {
    NewBadge,
    StartedAtZero { decimal: bool },
}

/// The fields of the `insert` command of a `ChangeRequest`.
pub struct CatalogEntry {
    pub uuid: String,
    pub location: String,
    pub modification_time: Option<u64>,
    pub disk_usage: Option<u64>,
    pub content_size: Option<u64>,
    pub mime_type: String,
    pub cde_key: String,
    pub cde_type: String,
    pub progress: Progress,
    pub visible_in_home: bool,
    pub archived: bool,
    /// The display name of the (single) author credit.
    pub author: String,
    /// The display title.
    pub title: String,
    pub thumbnail: Option<String>,
    /// The single language the entry lists, if any.
    pub language: Option<String>,
    pub publisher: Option<String>,
    pub publication_date: Option<String>,
}

/// A `ChangeRequest` with one `insert` command.
pub struct ChangeRequest {
    pub insert: CatalogEntry,
}

/// What SHA-1 computes for `data` (the 20-byte digest).
pub uninterp spec fn sha1_digest(data: Seq<u8>) -> Seq<u8>;

/// `sha1::Sha1::digest`: the SHA-1 digest of `data`.
#[verifier::external_body]
fn sha1(data: &[u8]) -> (r: Vec<u8>)
    ensures
        r@ == sha1_digest(data@),
        r@.len() == 20,
{
    sha1::Sha1::digest(data).to_vec()
}

/// The lower-case hex digit for a value below 16.
pub open spec fn hex_digit(n: int) -> char {
    if n < 10 {
        (48 + n) as char
    } else {
        (87 + n) as char
    }
}

/// The lower-case hex text of `data`, two digits per byte.
pub open spec fn hex_lower(data: Seq<u8>) -> Seq<char>
    decreases data.len(),
{
    if data.len() == 0 {
        Seq::empty()
    } else {
        hex_lower(data.drop_last()) + seq![
            hex_digit(data.last() as int / 16),
            hex_digit(data.last() as int % 16),
        ]
    }
}

/// `hex::encode`: the lower-case hex text of `data`.
#[verifier::external_body]
fn hex_encode(data: &[u8]) -> (r: String)
    ensures
        r@ == hex_lower(data@),
{
    hex::encode(data)
}

/// The content key of a book: the hex SHA-1 of its contents, or empty when
/// the file could not be read.
pub open spec fn cde_key_of(contents: Option<Vec<u8>>) -> Seq<char> {
    match contents {
        Some(b) => hex_lower(sha1_digest(b@)),
        None => Seq::empty(),
    }
}

/// The content key of a book.
pub fn compute_sha1(contents: &Option<Vec<u8>>) -> (r: String)
    ensures
        r@ == cde_key_of(*contents),
{
    match contents {
        Some(b) => {
            let d = sha1(b.as_slice());
            hex_encode(d.as_slice())
        },
        None => String::new(),
    }
}

/// The file name of `file_path`, or `Unknown` when it has none.
pub open spec fn basename_of(file_path: Seq<char>) -> Seq<char> {
    match file_name(file_path) {
        Some(n) => n,
        None => "Unknown"@,
    }
}

/// The file name of `file_path`, or `Unknown` when it has none.
pub fn basename(file_path: &str) -> (r: String)
    ensures
        r@ == basename_of(file_path@),
{
    match file_name_of(chars_of(file_path).as_slice()) {
        Some(n) => string_from_chars(n.as_slice()),
        None => String::from_str("Unknown"),
    }
}

/// The view of an optional string slice.
pub open spec fn opt_str(o: Option<&str>) -> Option<Seq<char>> {
    match o {
        Some(s) => Some(s@),
        None => None,
    }
}

/// The common fields of an entry for the book at `file_path`.
pub open spec fn entry_base(
    e: CatalogEntry,
    file_path: Seq<char>,
    uuid: Seq<char>,
    name: Option<Seq<char>>,
    author: Option<Seq<char>>,
    icon: Option<Seq<char>>,
    is_new: bool,
    decimal: bool,
    mime_type: Seq<char>,
    cde_type: Seq<char>,
    file: FileFacts,
) -> bool {
    &&& e.uuid@ == uuid
    &&& e.location@ == file_path
    &&& e.modification_time == match file.stat {
        Some(st) => st.modified_secs,
        None => None,
    }
    &&& e.disk_usage == match file.stat {
        Some(st) => Some(st.len),
        None => None,
    }
    &&& e.content_size == e.disk_usage
    &&& e.mime_type@ == mime_type
    &&& e.cde_key@ == cde_key_of(file.contents)
    &&& e.cde_type@ == cde_type
    &&& e.progress == if is_new {
        Progress::NewBadge
    } else {
        Progress::StartedAtZero { decimal }
    }
    &&& e.visible_in_home
    &&& !e.archived
    &&& e.author@ == match author {
        Some(a) => a,
        None => "Unknown"@,
    }
    &&& e.title@ == match name {
        Some(n) => n,
        None => basename_of(file_path),
    }
    &&& opt_seq(e.thumbnail) == icon
}

/// Copies an optional string slice.
fn opt_string(o: Option<&str>) -> (r: Option<String>)
    ensures
        opt_seq(r) == opt_str(o),
{
    match o {
        Some(s) => Some(String::from_str(s)),
        None => None,
    }
}

/// The entry fields every variant of the change request shares.
pub fn build_entry(
    file_path: &str,
    uuid: &str,
    name: Option<&str>,
    author: Option<&str>,
    icon: Option<&str>,
    is_new: bool,
    decimal: bool,
    mime_type: &str,
    cde_type: &str,
    file: &FileFacts,
) -> (r: CatalogEntry)
    ensures
        entry_base(
            r,
            file_path@,
            uuid@,
            opt_str(name),
            opt_str(author),
            opt_str(icon),
            is_new,
            decimal,
            mime_type@,
            cde_type@,
            *file,
        ),
        r.language is None,
        r.publisher is None,
        r.publication_date is None,
{
    let (modification_time, size) = match &file.stat {
        Some(st) => (st.modified_secs, Some(st.len)),
        None => (None, None),
    };
    CatalogEntry {
        uuid: String::from_str(uuid),
        location: String::from_str(file_path),
        modification_time,
        disk_usage: size,
        content_size: size,
        mime_type: String::from_str(mime_type),
        cde_key: compute_sha1(&file.contents),
        cde_type: String::from_str(cde_type),
        progress: if is_new {
            Progress::NewBadge
        } else {
            Progress::StartedAtZero { decimal }
        },
        visible_in_home: true,
        archived: false,
        author: match author {
            Some(a) => String::from_str(a),
            None => String::from_str("Unknown"),
        },
        title: match name {
            Some(n) => String::from_str(n),
            None => basename(file_path),
        },
        thumbnail: opt_string(icon),
        language: None,
        publisher: None,
        publication_date: None,
    }
}

/// The value of `key` in `extra` when it is present and not empty.
pub open spec fn filled_extra(extra: Option<&MetadataMap>, key: Seq<char>) -> Option<Seq<char>> {
    match extra {
        Some(m) => if m@.contains_key(key) && m@[key].len() > 0 {
            Some(m@[key])
        } else {
            None
        },
        None => None,
    }
}

/// The value of `key` when present and not empty.
fn filled_value(extra: Option<&MetadataMap>, key: &str) -> (r: Option<String>)
    ensures
        opt_seq(r) == filled_extra(extra, key@),
{
    match extra {
        Some(m) => match m.get(key) {
            Some(v) => if v.as_str().is_empty() {
                None
            } else {
                Some(v.clone())
            },
            None => None,
        },
        None => None,
    }
}

/// A `ChangeRequest` inserting the book at `file_path` into the catalog.
/// The title defaults to the file name and the author to `Unknown`; a new
/// entry gets the `NEW` badge, a re-inserted one progress `0.0`. Of `extra`,
/// only non-empty `language`, `publisher` and `publicationDate` are used.
pub fn generate_change_request(
    file_path: &str,
    uuid: &str,
    name: Option<&str>,
    author: Option<&str>,
    icon: Option<&str>,
    is_new: bool,
    mime_type: &str,
    cde_type: &str,
    extra: Option<&MetadataMap>,
    file: &FileFacts,
) -> (r: ChangeRequest)
    ensures
        entry_base(
            r.insert,
            file_path@,
            uuid@,
            opt_str(name),
            opt_str(author),
            opt_str(icon),
            is_new,
            true,
            mime_type@,
            cde_type@,
            *file,
        ),
        opt_seq(r.insert.language) == filled_extra(extra, "language"@),
        opt_seq(r.insert.publisher) == filled_extra(extra, "publisher"@),
        opt_seq(r.insert.publication_date) == filled_extra(extra, "publicationDate"@),
{
    let mut entry = build_entry(
        file_path,
        uuid,
        name,
        author,
        icon,
        is_new,
        true,
        mime_type,
        cde_type,
        file,
    );
    entry.language = filled_value(extra, "language");
    entry.publisher = filled_value(extra, "publisher");
    entry.publication_date = filled_value(extra, "publicationDate");
    ChangeRequest { insert: entry }
}

/// A string member.
pub open spec fn str_member(key: Seq<char>, value: Seq<char>) -> (Seq<char>, JsonModel) {
    (key, JsonModel::Str(value))
}

/// `[{"ref": "titles"}, {"ref": "credits"}]`.
pub open spec fn display_objects_model() -> JsonModel {
    JsonModel::Array(
        seq![
            JsonModel::Object(seq![str_member("ref"@, "titles"@)]),
            JsonModel::Object(seq![str_member("ref"@, "credits"@)]),
        ],
    )
}

/// `[{"kind": "Author", "name": {"display": <author>}}]`.
pub open spec fn credits_model(author: Seq<char>) -> JsonModel {
    JsonModel::Array(
        seq![
            JsonModel::Object(
                seq![
                    str_member("kind"@, "Author"@),
                    ("name"@, JsonModel::Object(seq![str_member("display"@, author)])),
                ],
            ),
        ],
    )
}

/// `[{"display": <title>}]`.
pub open spec fn titles_model(title: Seq<char>) -> JsonModel {
    JsonModel::Array(seq![JsonModel::Object(seq![str_member("display"@, title)])])
}

/// The members of the `insert` object of an entry, in the order they are
/// written: identity and location, file facts when known, types and key,
/// the `NEW` badge or the progress reset (`0.0` or `0`), visibility,
/// display objects, author credit and title, then the optional thumbnail,
/// language, publisher and publication date.
pub open spec fn entry_members(e: CatalogEntry) -> Seq<(Seq<char>, JsonModel)> {
    let m = seq![
        str_member("uuid"@, e.uuid@),
        str_member("location"@, e.location@),
        str_member("type"@, "Entry:Item"@),
    ];
    let m = match e.modification_time {
        Some(t) => m.push(("modificationTime"@, JsonModel::Number(decimal(t as nat)))),
        None => m,
    };
    let m = match e.disk_usage {
        Some(n) => m.push(("diskUsage"@, JsonModel::Number(decimal(n as nat)))),
        None => m,
    };
    let m = match e.content_size {
        Some(n) => m.push(("contentSize"@, JsonModel::Number(decimal(n as nat)))),
        None => m,
    };
    let m = m.push(str_member("mimeType"@, e.mime_type@)).push(str_member("cdeKey"@, e.cde_key@)).push(
        str_member("cdeType"@, e.cde_type@),
    );
    let m = match e.progress {
        Progress::NewBadge => m.push(("displayTags"@, JsonModel::Array(seq![JsonModel::Str("NEW"@)]))),
        Progress::StartedAtZero { decimal } => m.push(
            ("percentFinished"@, JsonModel::Number(if decimal { "0.0"@ } else { "0"@ })),
        ),
    };
    let m = m.push(("isVisibleInHome"@, JsonModel::Bool(e.visible_in_home))).push(
        ("isArchived"@, JsonModel::Bool(e.archived)),
    ).push(("displayObjects"@, display_objects_model())).push(("credits"@, credits_model(e.author@))).push(
        ("titles"@, titles_model(e.title@)),
    );
    let m = match e.thumbnail {
        Some(t) => m.push(str_member("thumbnail"@, t@)),
        None => m,
    };
    let m = match e.language {
        Some(l) => m.push(("languages"@, JsonModel::Array(seq![JsonModel::Str(l@)]))),
        None => m,
    };
    let m = match e.publisher {
        Some(p) => m.push(str_member("publisher"@, p@)),
        None => m,
    };
    match e.publication_date {
        Some(d) => m.push(str_member("publicationDate"@, d@)),
        None => m,
    }
}

/// The fields of the `insert` object of an entry, by key.
pub open spec fn entry_fields(e: CatalogEntry) -> Map<Seq<char>, JsonModel> {
    members_map(entry_members(e))
}

/// `m` with `key` set to `v` when there is one.
pub open spec fn with_field(m: Map<Seq<char>, JsonModel>, key: Seq<char>, v: Option<JsonModel>) -> Map<
    Seq<char>,
    JsonModel,
> {
    match v {
        Some(x) => m.insert(key, x),
        None => m,
    }
}

/// Members pushed when present set their key when present.
proof fn lemma_push_present(s: Seq<(Seq<char>, JsonModel)>, key: Seq<char>, v: Option<JsonModel>)
    ensures
        members_map(
            match v {
                Some(x) => s.push((key, x)),
                None => s,
            },
        ) == with_field(members_map(s), key, v),
{
    if let Some(x) = v {
        lemma_members_map_push(s, (key, x));
    }
}

/// The optional string value as a JSON string.
pub open spec fn opt_str_json(o: Option<String>) -> Option<JsonModel> {
    match o {
        Some(s) => Some(JsonModel::Str(s@)),
        None => None,
    }
}

/// The optional count as a JSON number written in decimal.
pub open spec fn opt_count_json(o: Option<u64>) -> Option<JsonModel> {
    match o {
        Some(n) => Some(JsonModel::Number(decimal(n as nat))),
        None => None,
    }
}

/// The keys an entry's `insert` object can have.
pub open spec fn entry_field_key(k: Seq<char>) -> bool {
    ||| k == "uuid"@
    ||| k == "location"@
    ||| k == "type"@
    ||| k == "modificationTime"@
    ||| k == "diskUsage"@
    ||| k == "contentSize"@
    ||| k == "mimeType"@
    ||| k == "cdeKey"@
    ||| k == "cdeType"@
    ||| k == "displayTags"@
    ||| k == "percentFinished"@
    ||| k == "isVisibleInHome"@
    ||| k == "isArchived"@
    ||| k == "displayObjects"@
    ||| k == "credits"@
    ||| k == "titles"@
    ||| k == "thumbnail"@
    ||| k == "languages"@
    ||| k == "publisher"@
    ||| k == "publicationDate"@
}

/// The `insert` object of an entry field by field: its uuid, location,
/// `Entry:Item` type, MIME type, content key and content type as strings;
/// the file's modification time, disk usage and content size as decimal
/// numbers when known; a `NEW` display tag for a new entry, or progress
/// `0.0` / `0` for a re-inserted one (never both); visibility and archive
/// flags; the display objects `titles` and `credits`; the author as the
/// single credit's display name and the title as the single title; the
/// thumbnail, the language (as a one-element `languages` list), the
/// publisher and the publication date when the entry has them. No other
/// key is written.
#[verifier::spinoff_prover]
#[verifier::rlimit(100)]
pub proof fn lemma_entry_fields(e: CatalogEntry)
    ensures
        entry_fields(e).contains_key("uuid"@) && entry_fields(e)["uuid"@] == JsonModel::Str(e.uuid@),
        entry_fields(e).contains_key("location"@) && entry_fields(e)["location"@] == JsonModel::Str(e.location@),
        entry_fields(e).contains_key("type"@) && entry_fields(e)["type"@] == JsonModel::Str("Entry:Item"@),
        entry_fields(e).contains_key("mimeType"@) && entry_fields(e)["mimeType"@] == JsonModel::Str(e.mime_type@),
        entry_fields(e).contains_key("cdeKey"@) && entry_fields(e)["cdeKey"@] == JsonModel::Str(e.cde_key@),
        entry_fields(e).contains_key("cdeType"@) && entry_fields(e)["cdeType"@] == JsonModel::Str(e.cde_type@),
        entry_fields(e).get("modificationTime"@) == opt_count_json(e.modification_time),
        entry_fields(e).get("diskUsage"@) == opt_count_json(e.disk_usage),
        entry_fields(e).get("contentSize"@) == opt_count_json(e.content_size),
        e.progress is NewBadge ==> entry_fields(e).get("displayTags"@) == Some(
            JsonModel::Array(seq![JsonModel::Str("NEW"@)]),
        ) && !entry_fields(e).contains_key("percentFinished"@),
        e.progress matches Progress::StartedAtZero { decimal } ==> entry_fields(e).get("percentFinished"@)
            == Some(JsonModel::Number(if decimal { "0.0"@ } else { "0"@ })) && !entry_fields(e).contains_key(
            "displayTags"@,
        ),
        entry_fields(e).get("isVisibleInHome"@) == Some(JsonModel::Bool(e.visible_in_home)),
        entry_fields(e).get("isArchived"@) == Some(JsonModel::Bool(e.archived)),
        entry_fields(e).get("displayObjects"@) == Some(
            JsonModel::Array(
                seq![
                    JsonModel::Object(seq![("ref"@, JsonModel::Str("titles"@))]),
                    JsonModel::Object(seq![("ref"@, JsonModel::Str("credits"@))]),
                ],
            ),
        ),
        entry_fields(e).get("credits"@) == Some(
            JsonModel::Array(
                seq![
                    JsonModel::Object(
                        seq![
                            ("kind"@, JsonModel::Str("Author"@)),
                            ("name"@, JsonModel::Object(seq![("display"@, JsonModel::Str(e.author@))])),
                        ],
                    ),
                ],
            ),
        ),
        entry_fields(e).get("titles"@) == Some(
            JsonModel::Array(seq![JsonModel::Object(seq![("display"@, JsonModel::Str(e.title@))])]),
        ),
        entry_fields(e).get("thumbnail"@) == opt_str_json(e.thumbnail),
        entry_fields(e).get("languages"@) == match e.language {
            Some(l) => Some(JsonModel::Array(seq![JsonModel::Str(l@)])),
            None => None::<JsonModel>,
        },
        entry_fields(e).get("publisher"@) == opt_str_json(e.publisher),
        entry_fields(e).get("publicationDate"@) == opt_str_json(e.publication_date),
        forall|k: Seq<char>| #[trigger] entry_fields(e).contains_key(k) ==> entry_field_key(k),
{
    let m1 = seq![
        str_member("uuid"@, e.uuid@),
        str_member("location"@, e.location@),
        str_member("type"@, "Entry:Item"@),
    ];
    lemma_members_map_push(Seq::empty(), m1[0]);
    lemma_members_map_push(seq![m1[0]], m1[1]);
    lemma_members_map_push(seq![m1[0], m1[1]], m1[2]);
    assert(seq![m1[0]] =~= Seq::<(Seq<char>, JsonModel)>::empty().push(m1[0]));
    assert(seq![m1[0], m1[1]] =~= seq![m1[0]].push(m1[1]));
    assert(m1 =~= seq![m1[0], m1[1]].push(m1[2]));
    let f1 = Map::<Seq<char>, JsonModel>::empty().insert("uuid"@, JsonModel::Str(e.uuid@)).insert(
        "location"@,
        JsonModel::Str(e.location@),
    ).insert("type"@, JsonModel::Str("Entry:Item"@));
    assert(members_map(Seq::<(Seq<char>, JsonModel)>::empty()) == Map::<Seq<char>, JsonModel>::empty());
    assert(members_map(m1) == f1);
    let m2 = match e.modification_time {
        Some(t) => m1.push(("modificationTime"@, JsonModel::Number(decimal(t as nat)))),
        None => m1,
    };
    lemma_push_present(m1, "modificationTime"@, opt_count_json(e.modification_time));
    let m3 = match e.disk_usage {
        Some(n) => m2.push(("diskUsage"@, JsonModel::Number(decimal(n as nat)))),
        None => m2,
    };
    lemma_push_present(m2, "diskUsage"@, opt_count_json(e.disk_usage));
    let m4 = match e.content_size {
        Some(n) => m3.push(("contentSize"@, JsonModel::Number(decimal(n as nat)))),
        None => m3,
    };
    lemma_push_present(m3, "contentSize"@, opt_count_json(e.content_size));
    let m5a = m4.push(str_member("mimeType"@, e.mime_type@));
    let m5b = m5a.push(str_member("cdeKey"@, e.cde_key@));
    let m5 = m5b.push(str_member("cdeType"@, e.cde_type@));
    lemma_members_map_push(m4, str_member("mimeType"@, e.mime_type@));
    lemma_members_map_push(m5a, str_member("cdeKey"@, e.cde_key@));
    lemma_members_map_push(m5b, str_member("cdeType"@, e.cde_type@));
    let pm: (Seq<char>, JsonModel) = match e.progress {
        Progress::NewBadge => ("displayTags"@, JsonModel::Array(seq![JsonModel::Str("NEW"@)])),
        Progress::StartedAtZero { decimal } => (
            "percentFinished"@,
            JsonModel::Number(if decimal { "0.0"@ } else { "0"@ }),
        ),
    };
    let m6 = m5.push(pm);
    lemma_members_map_push(m5, pm);
    let m7a = m6.push(("isVisibleInHome"@, JsonModel::Bool(e.visible_in_home)));
    let m7b = m7a.push(("isArchived"@, JsonModel::Bool(e.archived)));
    let m7c = m7b.push(("displayObjects"@, display_objects_model()));
    let m7d = m7c.push(("credits"@, credits_model(e.author@)));
    let m7 = m7d.push(("titles"@, titles_model(e.title@)));
    lemma_members_map_push(m6, ("isVisibleInHome"@, JsonModel::Bool(e.visible_in_home)));
    lemma_members_map_push(m7a, ("isArchived"@, JsonModel::Bool(e.archived)));
    lemma_members_map_push(m7b, ("displayObjects"@, display_objects_model()));
    lemma_members_map_push(m7c, ("credits"@, credits_model(e.author@)));
    lemma_members_map_push(m7d, ("titles"@, titles_model(e.title@)));
    let m8 = match e.thumbnail {
        Some(t) => m7.push(str_member("thumbnail"@, t@)),
        None => m7,
    };
    lemma_push_present(m7, "thumbnail"@, opt_str_json(e.thumbnail));
    let lang = match e.language {
        Some(l) => Some(JsonModel::Array(seq![JsonModel::Str(l@)])),
        None => None::<JsonModel>,
    };
    let m9 = match e.language {
        Some(l) => m8.push(("languages"@, JsonModel::Array(seq![JsonModel::Str(l@)]))),
        None => m8,
    };
    lemma_push_present(m8, "languages"@, lang);
    let m10 = match e.publisher {
        Some(p) => m9.push(str_member("publisher"@, p@)),
        None => m9,
    };
    lemma_push_present(m9, "publisher"@, opt_str_json(e.publisher));
    let m11 = match e.publication_date {
        Some(d) => m10.push(str_member("publicationDate"@, d@)),
        None => m10,
    };
    lemma_push_present(m10, "publicationDate"@, opt_str_json(e.publication_date));
    assert(entry_members(e) == m11);
    reveal_strlit("uuid");
    reveal_strlit("location");
    reveal_strlit("type");
    reveal_strlit("modificationTime");
    reveal_strlit("diskUsage");
    reveal_strlit("contentSize");
    reveal_strlit("mimeType");
    reveal_strlit("cdeKey");
    reveal_strlit("cdeType");
    reveal_strlit("displayTags");
    reveal_strlit("percentFinished");
    reveal_strlit("isVisibleInHome");
    reveal_strlit("isArchived");
    reveal_strlit("displayObjects");
    reveal_strlit("credits");
    reveal_strlit("titles");
    reveal_strlit("thumbnail");
    reveal_strlit("languages");
    reveal_strlit("publisher");
    reveal_strlit("publicationDate");
    // Keys of different lengths differ; those of one length differ in a character.
    assert("uuid"@.len() == 4);
    assert("location"@.len() == 8);
    assert("type"@.len() == 4);
    assert("modificationTime"@.len() == 16);
    assert("diskUsage"@.len() == 9);
    assert("contentSize"@.len() == 11);
    assert("mimeType"@.len() == 8);
    assert("cdeKey"@.len() == 6);
    assert("cdeType"@.len() == 7);
    assert("displayTags"@.len() == 11);
    assert("percentFinished"@.len() == 15);
    assert("isVisibleInHome"@.len() == 15);
    assert("isArchived"@.len() == 10);
    assert("displayObjects"@.len() == 14);
    assert("credits"@.len() == 7);
    assert("titles"@.len() == 6);
    assert("thumbnail"@.len() == 9);
    assert("languages"@.len() == 9);
    assert("publisher"@.len() == 9);
    assert("publicationDate"@.len() == 15);
    assert("uuid"@[0] != "type"@[0]);
    assert("location"@[0] != "mimeType"@[0]);
    assert("diskUsage"@[0] != "thumbnail"@[0]);
    assert("diskUsage"@[0] != "languages"@[0]);
    assert("diskUsage"@[0] != "publisher"@[0]);
    assert("contentSize"@[0] != "displayTags"@[0]);
    assert("cdeKey"@[0] != "titles"@[0]);
    assert("cdeType"@[1] != "credits"@[1]);
    assert("percentFinished"@[0] != "isVisibleInHome"@[0]);
    assert("percentFinished"@[1] != "publicationDate"@[1]);
    assert("isVisibleInHome"@[0] != "publicationDate"@[0]);
    assert("thumbnail"@[0] != "languages"@[0]);
    assert("thumbnail"@[0] != "publisher"@[0]);
    assert("languages"@[0] != "publisher"@[0]);
}

/// `{"type": "ChangeRequest", "commands": [{"insert": <insert>}]}`.
pub open spec fn request_model(insert: Seq<(Seq<char>, JsonModel)>) -> JsonModel {
    JsonModel::Object(
        seq![
            str_member("type"@, "ChangeRequest"@),
            (
                "commands"@,
                JsonModel::Array(seq![JsonModel::Object(seq![("insert"@, JsonModel::Object(insert))])]),
            ),
        ],
    )
}

/// Appends a number member written in decimal, when there is a value.
fn push_count(fs: &mut Vec<(String, Json)>, key: &str, value: Option<u64>)
    ensures
        member_models(final(fs)@) == match value {
            Some(n) => member_models(old(fs)@).push((key@, JsonModel::Number(decimal(n as nat)))),
            None => member_models(old(fs)@),
        },
{
    if let Some(n) = value {
        push_member(fs, key, Json::Number(decimal_of_u64(n)));
    }
}

/// Appends a string member, when there is a value.
fn push_text(fs: &mut Vec<(String, Json)>, key: &str, value: &Option<String>)
    ensures
        member_models(final(fs)@) == match value {
            Some(v) => member_models(old(fs)@).push(str_member(key@, v@)),
            None => member_models(old(fs)@),
        },
{
    if let Some(v) = value {
        push_member(fs, key, json_str(v.as_str()));
    }
}

/// The members of the `insert` object of an entry.
pub fn entry_json_members(e: &CatalogEntry) -> (r: Vec<(String, Json)>)
    ensures
        member_models(r@) == entry_members(*e),
{
    let mut fs: Vec<(String, Json)> = Vec::new();
    push_member(&mut fs, "uuid", json_str(e.uuid.as_str()));
    push_member(&mut fs, "location", json_str(e.location.as_str()));
    push_member(&mut fs, "type", json_str("Entry:Item"));
    assert(member_models(fs@) =~= seq![
        str_member("uuid"@, e.uuid@),
        str_member("location"@, e.location@),
        str_member("type"@, "Entry:Item"@),
    ]);
    push_count(&mut fs, "modificationTime", e.modification_time);
    push_count(&mut fs, "diskUsage", e.disk_usage);
    push_count(&mut fs, "contentSize", e.content_size);
    push_member(&mut fs, "mimeType", json_str(e.mime_type.as_str()));
    push_member(&mut fs, "cdeKey", json_str(e.cde_key.as_str()));
    push_member(&mut fs, "cdeType", json_str(e.cde_type.as_str()));
    match e.progress {
        Progress::NewBadge => push_member(&mut fs, "displayTags", one_item(json_str("NEW"))),
        Progress::StartedAtZero { decimal } => {
            let zero = if decimal {
                String::from_str("0.0")
            } else {
                String::from_str("0")
            };
            push_member(&mut fs, "percentFinished", Json::Number(zero));
        },
    }
    push_member(&mut fs, "isVisibleInHome", Json::Bool(e.visible_in_home));
    push_member(&mut fs, "isArchived", Json::Bool(e.archived));
    let mut objs: Vec<Json> = Vec::new();
    push_item(&mut objs, single("ref", json_str("titles")));
    push_item(&mut objs, single("ref", json_str("credits")));
    assert(json_models(objs@) =~= seq![
        JsonModel::Object(seq![str_member("ref"@, "titles"@)]),
        JsonModel::Object(seq![str_member("ref"@, "credits"@)]),
    ]);
    push_member(&mut fs, "displayObjects", Json::Array(objs));
    let mut credit: Vec<(String, Json)> = Vec::new();
    push_member(&mut credit, "kind", json_str("Author"));
    push_member(&mut credit, "name", single("display", json_str(e.author.as_str())));
    assert(member_models(credit@) =~= seq![
        str_member("kind"@, "Author"@),
        ("name"@, JsonModel::Object(seq![str_member("display"@, e.author@)])),
    ]);
    let credits = one_item(Json::Object(credit));
    push_member(&mut fs, "credits", credits);
    push_member(&mut fs, "titles", one_item(single("display", json_str(e.title.as_str()))));
    push_text(&mut fs, "thumbnail", &e.thumbnail);
    if let Some(l) = &e.language {
        push_member(&mut fs, "languages", one_item(json_str(l.as_str())));
    }
    push_text(&mut fs, "publisher", &e.publisher);
    push_text(&mut fs, "publicationDate", &e.publication_date);
    fs
}

/// The change request as the JSON the catalog takes.
pub fn request_json(insert: Vec<(String, Json)>) -> (r: Json)
    ensures
        json_model(r) == request_model(member_models(insert@)),
{
    let ghost im = member_models(insert@);
    let mut top: Vec<(String, Json)> = Vec::new();
    push_member(&mut top, "type", json_str("ChangeRequest"));
    push_member(&mut top, "commands", one_item(single("insert", Json::Object(insert))));
    assert(member_models(top@) =~= seq![
        str_member("type"@, "ChangeRequest"@),
        ("commands"@, JsonModel::Array(seq![JsonModel::Object(seq![("insert"@, JsonModel::Object(im))])])),
    ]);
    Json::Object(top)
}

/// The JSON of a change request.
pub fn change_request_json(r: &ChangeRequest) -> (j: Json)
    ensures
        json_model(j) == request_model(entry_members(r.insert)),
{
    request_json(entry_json_members(&r.insert))
}

} // verus!
