//! What the extractor does with a scanner event: which indexer takes the
//! file, what is cleaned up, and the catalog entry that is posted.
use vstd::prelude::*;
use vstd::string::*;
use crate::kompanion_core::change_request::{
    entry_base, filled_extra, generate_change_request, opt_str, ChangeRequest, FileFacts,
};
use crate::kompanion_core::indexer::{FileIndexer, IndexMetadata};
use crate::kompanion_extractor::indexer::{first_handling, sdr_path, Indexer};
use crate::koreader_companion_sys::scanner::{event_of, ScannerEventType};
use crate::sh_integration_core::url::string_from_utf8;
use crate::text::{concat, opt_seq};

verus! {

/// The bytes of `b` before its first zero byte (all of them when there is
/// none).
pub open spec fn before_nul(b: Seq<u8>) -> Seq<u8>
    decreases b.len(),
{
    if b.len() == 0 || b[0] == 0 {
        Seq::empty()
    } else {
        seq![b[0]] + before_nul(b.drop_first())
    }
}

/// The identifier's bytes end at the first zero byte: for bytes `b`
/// without a zero, followed by a zero and anything at all, they are `b`; a
/// buffer without a zero is read whole.
pub proof fn lemma_before_nul(b: Seq<u8>, rest: Seq<u8>)
    requires
        !b.contains(0u8),
    ensures
        before_nul(b + seq![0u8] + rest) == b,
        before_nul(b) == b,
    decreases b.len(),
{
    if b.len() > 0 {
        assert(b[0] != 0u8) by {
            if b[0] == 0u8 {
                assert(b.contains(0u8));
            }
        }
        let t = b.drop_first();
        assert(!t.contains(0u8)) by {
            if t.contains(0u8) {
                let k = choose|k: int| 0 <= k < t.len() && t[k] == 0u8;
                assert(b[k + 1] == 0u8);
            }
        }
        lemma_before_nul(t, rest);
        assert((b + seq![0u8] + rest).drop_first() =~= t + seq![0u8] + rest);
        assert(seq![b[0]] + t =~= b);
    } else {
        assert(b + seq![0u8] + rest =~= seq![0u8] + rest);
    }
}

/// The identifier the scanner wrote into a buffer: the text before the
/// first zero byte, or empty when that is not UTF-8.
pub open spec fn uuid_text(b: Seq<u8>) -> Seq<char> {
    if vstd::utf8::valid_utf8(before_nul(b)) {
        vstd::utf8::decode_utf8(before_nul(b))
    } else {
        Seq::empty()
    }
}

/// The identifier in a zero-terminated buffer.
pub fn uuid_from_buffer(buf: &[u8]) -> (r: String)
    ensures
        r@ == uuid_text(buf@),
{
    let mut bytes: Vec<u8> = Vec::new();
    let mut i: usize = 0;
    assert(buf@.subrange(0, buf@.len() as int) =~= buf@);
    assert(bytes@ + before_nul(buf@) =~= before_nul(buf@));
    while i < buf.len() && buf[i] != 0
        invariant
            i <= buf@.len(),
            before_nul(buf@) == bytes@ + before_nul(buf@.subrange(i as int, buf@.len() as int)),
        decreases buf@.len() - i,
    {
        let ghost rest = buf@.subrange(i as int, buf@.len() as int);
        assert(rest.drop_first() =~= buf@.subrange(i + 1, buf@.len() as int));
        assert(rest[0] == buf@[i as int]);
        bytes.push(buf[i]);
        assert(bytes@ + before_nul(rest.drop_first()) =~= bytes@.drop_last() + (seq![rest[0]]
            + before_nul(rest.drop_first())));
        i = i + 1;
    }
    proof {
        let rest = buf@.subrange(i as int, buf@.len() as int);
        if i < buf@.len() {
            assert(rest[0] == buf@[i as int]);
        }
        assert(before_nul(rest) == Seq::<u8>::empty());
        assert(bytes@ + Seq::<u8>::empty() =~= bytes@);
    }
    let ghost b = bytes@;
    match string_from_utf8(bytes) {
        Some(s) => {
            proof {
                vstd::utf8::encode_utf8_decode_utf8(s@);
            }
            s
        },
        None => String::new(),
    }
}

/// `<path>/<filename>`.
pub fn full_path_of(path: &str, filename: &str) -> (r: String)
    ensures
        r@ == path@ + "/"@ + filename@,
{
    let mut out = concat(path, "/");
    out.append(filename);
    out
}

/// What is cleared before a book is indexed again or after it is removed.
pub struct Cleanup {
    /// The catalog entry to delete, when the event named one.
    pub drop_uuid: Option<String>,
    /// Whether the indexer's remove hook runs.
    pub run_remove_hook: bool,
    /// The sidecar directory to delete.
    pub sdr_path: String,
}

/// What the extractor does for one scanner event.
pub enum EventPlan {
    /// Answer the scanner with this code at once.
    Answer(i32),
    /// Index the book with the indexer at this registry position: a new
    /// identifier, the metadata and sidecar, the install hook, then the
    /// catalog insert; answered with 0, or 1 when extraction fails.
    Index {
        indexer: usize,
        full_path: String,
        is_new: bool,
        cleanup: Option<Cleanup>,
        run_install_hook: bool,
    },
    /// Remove the book; answered with 0.
    Remove { indexer: usize, full_path: String, clear: Cleanup },
}

/// The cleanup for a book: its entry when `uuid` is not empty, the remove
/// hook when the indexer has hooks, and its sidecar.
pub open spec fn cleanup_ok(c: Cleanup, full_path: Seq<char>, uuid: Seq<char>, hooks: bool) -> bool {
    &&& (if uuid.len() == 0 {
        c.drop_uuid is None
    } else {
        c.drop_uuid matches Some(u) && u@ == uuid
    })
    &&& c.run_remove_hook == hooks
    &&& c.sdr_path@ == full_path + ".sdr"@
}

/// The plan for the event with number `code` about `path`/`filename`:
/// an unknown number is answered 1, a file no indexer takes 0, thumbnail
/// events 0; an add indexes, a delete removes, an update removes and
/// indexes again.
pub open spec fn event_plan_ok(
    r: EventPlan,
    registry: Seq<Indexer>,
    code: i32,
    path: Seq<char>,
    filename: Seq<char>,
    uuid: Seq<char>,
) -> bool {
    let full = path + "/"@ + filename;
    match event_of(code) {
        None => r == EventPlan::Answer(1),
        Some(t) => match first_handling(registry, filename, 0) {
            None => r == EventPlan::Answer(0),
            Some(k) => {
                let hooks = false;
                match t {
                    ScannerEventType::Add => r matches EventPlan::Index {
                        indexer,
                        full_path,
                        is_new,
                        cleanup,
                        run_install_hook,
                    } && indexer == k && full_path@ == full && is_new && cleanup is None
                        && run_install_hook == hooks,
                    ScannerEventType::Delete => r matches EventPlan::Remove {
                        indexer,
                        full_path,
                        clear,
                    } && indexer == k && full_path@ == full && cleanup_ok(
                        clear,
                        full,
                        uuid,
                        hooks,
                    ),
                    ScannerEventType::Update => r matches EventPlan::Index {
                        indexer,
                        full_path,
                        is_new,
                        cleanup,
                        run_install_hook,
                    } && indexer == k && full_path@ == full && !is_new && run_install_hook
                        == hooks && (cleanup matches Some(c) && cleanup_ok(c, full, uuid, hooks)),
                    _ => r == EventPlan::Answer(0),
                }
            },
        },
    }
}

/// The position of the first indexer that takes `filename`.
fn indexer_position(registry: &Vec<Indexer>, filename: &str) -> (r: Option<usize>)
    ensures
        match first_handling(registry@, filename@, 0) {
            Some(k) => r matches Some(i) && i == k,
            None => r is None,
        },
        r matches Some(i) ==> i < registry@.len(),
{
    let mut i: usize = 0;
    while i < registry.len()
        invariant
            i <= registry@.len(),
            first_handling(registry@, filename@, 0) == first_handling(registry@, filename@, i as int),
        decreases registry@.len() - i,
    {
        if registry[i].can_handle(filename) {
            return Some(i);
        }
        i = i + 1;
    }
    None
}

/// The cleanup of a book's entry, hook and sidecar.
fn cleanup_for(full_path: &str, uuid: &str, hooks: bool) -> (r: Cleanup)
    ensures
        cleanup_ok(r, full_path@, uuid@, hooks),
{
    let drop_uuid = if uuid.is_empty() {
        None
    } else {
        Some(String::from_str(uuid))
    };
    Cleanup { drop_uuid, run_remove_hook: hooks, sdr_path: sdr_path(full_path) }
}

/// What the extractor does for the scanner event with number `code` about
/// the file `filename` in `path` (with catalog identifier `uuid`, empty
/// when the scanner gave none).
pub fn plan_scanner_event(
    registry: &Vec<Indexer>,
    code: i32,
    path: &str,
    filename: &str,
    uuid: &str,
) -> (r: EventPlan)
    ensures
        event_plan_ok(r, registry@, code, path@, filename@, uuid@),
{
    let t = match ScannerEventType::from_i32(code) {
        Some(t) => t,
        None => return EventPlan::Answer(1),
    };
    let k = match indexer_position(registry, filename) {
        Some(k) => k,
        None => return EventPlan::Answer(0),
    };
    let hooks = registry[k].supports_hooks();
    let full_path = full_path_of(path, filename);
    match t {
        ScannerEventType::Add => EventPlan::Index {
            indexer: k,
            full_path,
            is_new: true,
            cleanup: None,
            run_install_hook: hooks,
        },
        ScannerEventType::Delete => {
            let clear = cleanup_for(full_path.as_str(), uuid, hooks);
            EventPlan::Remove { indexer: k, full_path, clear }
        },
        ScannerEventType::Update => {
            let cleanup = cleanup_for(full_path.as_str(), uuid, hooks);
            EventPlan::Index {
                indexer: k,
                full_path,
                is_new: false,
                cleanup: Some(cleanup),
                run_install_hook: hooks,
            }
        },
        _ => EventPlan::Answer(0),
    }
}

/// The view of an optional string as an optional string slice.
fn as_opt_str(o: &Option<String>) -> (r: Option<&str>)
    ensures
        opt_str(r) == opt_seq(*o),
{
    match o {
        Some(s) => Some(s.as_str()),
        None => None,
    }
}

/// The catalog insert for a book the indexer at hand has read: title and
/// author from its metadata, its MIME and content type, the sidecar icon,
/// and the extra fields when there are any.
pub fn indexed_change(
    indexer: &Indexer,
    full_path: &str,
    uuid: &str,
    metadata: &IndexMetadata,
    icon: Option<&str>,
    is_new: bool,
    file: &FileFacts,
) -> (r: ChangeRequest)
    ensures
        entry_base(
            r.insert,
            full_path@,
            uuid@,
            opt_seq(metadata.name),
            opt_seq(metadata.author),
            opt_str(icon),
            is_new,
            true,
            indexer.mime(),
            indexer.content_type(),
            *file,
        ),
        opt_seq(r.insert.language) == filled_extra(Some(&metadata.extra), "language"@),
        opt_seq(r.insert.publisher) == filled_extra(Some(&metadata.extra), "publisher"@),
        opt_seq(r.insert.publication_date) == filled_extra(
            Some(&metadata.extra),
            "publicationDate"@,
        ),
{
    let extra = if metadata.extra.is_empty() {
        None
    } else {
        Some(&metadata.extra)
    };
    generate_change_request(
        full_path,
        uuid,
        as_opt_str(&metadata.name),
        as_opt_str(&metadata.author),
        icon,
        is_new,
        indexer.mime_type(),
        indexer.cde_type(),
        extra,
        file,
    )
}

/// What indexing ends in once the book has been read: the scanner's
/// answer 1 when reading its metadata or preparing its sidecar failed,
/// else the catalog insert to post (after which the answer is 0).
pub fn index_outcome(
    indexer: &Indexer,
    full_path: &str,
    uuid: &str,
    extracted: &Result<(IndexMetadata, Option<String>), String>,
    is_new: bool,
    file: &FileFacts,
) -> (r: Result<ChangeRequest, i32>)
    ensures
        match extracted {
            Err(_) => r matches Err(a) && a == 1,
            Ok((m, icon)) => r matches Ok(c) && entry_base(
                c.insert,
                full_path@,
                uuid@,
                opt_seq(m.name),
                opt_seq(m.author),
                opt_seq(*icon),
                is_new,
                true,
                indexer.mime(),
                indexer.content_type(),
                *file,
            ) && opt_seq(c.insert.language) == filled_extra(Some(&m.extra), "language"@)
                && opt_seq(c.insert.publisher) == filled_extra(Some(&m.extra), "publisher"@)
                && opt_seq(c.insert.publication_date) == filled_extra(
                Some(&m.extra),
                "publicationDate"@,
            ),
        },
{
    match extracted {
        Err(_) => Err(1),
        Ok((m, icon)) => {
            let i: Option<&str> = match icon {
                Some(s) => Some(s.as_str()),
                None => None,
            };
            Ok(indexed_change(indexer, full_path, uuid, m, i, is_new, file))
        },
    }
}

} // verus!
