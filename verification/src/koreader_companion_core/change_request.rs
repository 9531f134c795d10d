//! The catalog `ChangeRequest` of the KOReader companion, which may carry
//! arbitrary extra JSON fields.
use vstd::prelude::*;
use crate::kompanion_core::change_request::{
    build_entry, entry_base, entry_json_members, entry_members, opt_str, request_json, request_model,
    CatalogEntry, FileFacts,
};
use crate::kompanion_core::json::{json_model, lemma_member_models_append, lemma_members_map_append, member_models, members_map, Json, JsonModel};

verus! {

/// A `ChangeRequest` whose `insert` command also carries extra JSON fields,
/// which are written after (and so override) the entry's own fields.
pub struct ChangeRequest {
    pub insert: CatalogEntry,
    pub extra: Option<Vec<(String, Json)>>,
}

/// A `ChangeRequest` inserting the document at `file_path` as a personal
/// document (`PDOC`) of the given MIME type, with `extra` merged into the
/// entry. The title defaults to the file name and the author to `Unknown`;
/// a new entry gets the `NEW` badge, a re-inserted one progress `0`.
pub fn generate_change_request(
    file_path: &str,
    uuid: &str,
    name_string: Option<&str>,
    author_string: Option<&str>,
    icon_string: Option<&str>,
    is_new: bool,
    mime_type: &str,
    extra: Option<Vec<(String, Json)>>,
    file: &FileFacts,
) -> (r: ChangeRequest)
    ensures
        entry_base(
            r.insert,
            file_path@,
            uuid@,
            opt_str(name_string),
            opt_str(author_string),
            opt_str(icon_string),
            is_new,
            false,
            mime_type@,
            "PDOC"@,
            *file,
        ),
        r.insert.language is None,
        r.insert.publisher is None,
        r.insert.publication_date is None,
        r.extra == extra,
        insert_fields(r) == members_map(entry_members(r.insert)).union_prefer_right(
            members_map(extra_members(extra)),
        ),
{
    let entry = build_entry(
        file_path,
        uuid,
        name_string,
        author_string,
        icon_string,
        is_new,
        false,
        mime_type,
        "PDOC",
        file,
    );
    let r = ChangeRequest { insert: entry, extra };
    proof {
        lemma_members_map_append(entry_members(r.insert), extra_members(r.extra));
    }
    r
}

/// The members the extra fields add, in order.
pub open spec fn extra_members(extra: Option<Vec<(String, Json)>>) -> Seq<(Seq<char>, JsonModel)> {
    match extra {
        Some(x) => member_models(x@),
        None => Seq::empty(),
    }
}

/// The members of the request's `insert` object, in the order written: the
/// entry's own, then the extra fields.
pub open spec fn insert_members(r: ChangeRequest) -> Seq<(Seq<char>, JsonModel)> {
    entry_members(r.insert) + extra_members(r.extra)
}

/// The fields of the request's `insert` object by key: an extra field
/// overrides the entry's own field of the same key.
pub open spec fn insert_fields(r: ChangeRequest) -> Map<Seq<char>, JsonModel> {
    members_map(insert_members(r))
}

/// The JSON of the request: the entry's members, then the extra fields,
/// which override entry members of the same key.
pub fn extended_change_request_json(r: ChangeRequest) -> (j: Json)
    ensures
        json_model(j) == request_model(insert_members(r)),
        insert_fields(r) == members_map(entry_members(r.insert)).union_prefer_right(
            members_map(extra_members(r.extra)),
        ),
{
    proof {
        lemma_members_map_append(entry_members(r.insert), extra_members(r.extra));
    }
    let ghost e = entry_members(r.insert);
    let ghost x = extra_members(r.extra);
    let mut members = entry_json_members(&r.insert);
    match r.extra {
        Some(extra) => {
            let ghost m0 = members@;
            let ghost x0 = extra@;
            let mut extra = extra;
            members.append(&mut extra);
            proof {
                lemma_member_models_append(m0, x0);
            }
        },
        None => {
            assert(e + x =~= e);
        },
    }
    request_json(members)
}

} // verus!
