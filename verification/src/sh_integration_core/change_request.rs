//! The catalog `ChangeRequest` for a shell script.
use vstd::prelude::*;
use crate::kompanion_core::change_request::{build_entry, entry_base, opt_str, ChangeRequest, FileFacts};

verus! {

/// A `ChangeRequest` inserting the script at `file_path` as a personal
/// document (`PDOC`, `text/x-shellscript`). The title defaults to the file
/// name and the author to `Unknown`; a new entry gets the `NEW` badge, a
/// re-inserted one progress `0`.
pub fn generate_change_request(
    file_path: &str,
    uuid: &str,
    name_string: Option<&str>,
    author_string: Option<&str>,
    icon_string: Option<&str>,
    is_new: bool,
    file: &FileFacts,
) -> (r: ChangeRequest)
    ensures
        entry_base(
            r.insert,
            file_path@,
            uuid@,
            opt_str(name_string),
            opt_str(author_string),
            opt_str(icon_string),
            is_new,
            false,
            "text/x-shellscript"@,
            "PDOC"@,
            *file,
        ),
        r.insert.language is None,
        r.insert.publisher is None,
        r.insert.publication_date is None,
{
    let entry = build_entry(
        file_path,
        uuid,
        name_string,
        author_string,
        icon_string,
        is_new,
        false,
        "text/x-shellscript",
        "PDOC",
        file,
    );
    ChangeRequest { insert: entry }
}

} // verus!
