//! What indexing a script involves: its sidecar, its embedded icon, its
//! install hook, and the catalog entry.
use vstd::prelude::*;
use vstd::string::*;
use crate::kompanion_core::change_request::{entry_base, opt_str, ChangeRequest, FileFacts};
use crate::kompanion_extractor::extractor::full_path_of;
use crate::kompanion_extractor::indexer::sdr_path;
use crate::sh_integration_core::base64::{get_icon_extension, icon_extension_of};
use crate::sh_integration_core::change_request::generate_change_request;
use crate::sh_integration_core::command::{escape_quotes, escaped};
use crate::sh_integration_core::{HeaderModel, ScriptHeader};
use crate::text::{chars_of, concat, is_prefix, opt_seq, starts_with};

verus! {

/// The work of indexing one script, before its entry is posted.
pub struct IndexPlan {
    /// `<path>/<filename>`.
    pub full_path: String,
    /// The sidecar directory to create, when the icon is usable or the
    /// script has hooks.
    pub sdr_path: Option<String>,
    /// Where an embedded icon is written, when the icon is a data URI of a
    /// known image type.
    pub icon_file: Option<String>,
    /// The command that runs the script's install hook.
    pub install_command: Option<String>,
    /// Where the script is copied for its remove hook.
    pub script_copy: Option<String>,
}

/// The icon is a data URI (`data:image...`).
pub open spec fn is_data_image(icon: Seq<char>) -> bool {
    is_prefix("data:image"@, icon)
}

/// The icon can be used: a data URI, or a file that exists.
pub open spec fn icon_usable(icon: Option<Seq<char>>, icon_exists: bool) -> bool {
    match icon {
        Some(i) => is_data_image(i) || icon_exists,
        None => false,
    }
}

/// The plan for the script `path`/`filename` with header `h`, where
/// `icon_exists` tells whether the icon names an existing file.
pub open spec fn index_plan_ok(
    r: IndexPlan,
    path: Seq<char>,
    filename: Seq<char>,
    h: HeaderModel,
    icon_exists: bool,
) -> bool {
    let full = path + "/"@ + filename;
    let sdr = full + ".sdr"@;
    let usable = icon_usable(h.icon, icon_exists);
    &&& r.full_path@ == full
    &&& opt_seq(r.sdr_path) == if usable || h.use_hooks {
        Some(sdr)
    } else {
        None
    }
    &&& opt_seq(r.icon_file) == match h.icon {
        Some(i) => if usable && is_data_image(i) {
            match icon_extension_of(i) {
                Some(ext) => Some(sdr + "/icon."@ + ext),
                None => None,
            }
        } else {
            None
        },
        None => None,
    }
    &&& opt_seq(r.install_command) == if h.use_hooks {
        Some("source \""@ + escaped(full) + "\"; on_install;"@)
    } else {
        None
    }
    &&& opt_seq(r.script_copy) == if h.use_hooks {
        Some(sdr + "/script.sh"@)
    } else {
        None
    }
}

/// What indexing the script `filename` in `path` involves, given its
/// header and whether its icon names an existing file.
pub fn plan_index(path: &str, filename: &str, header: &ScriptHeader, icon_exists: bool) -> (r:
    IndexPlan)
    ensures
        index_plan_ok(r, path@, filename@, header@, icon_exists),
{
    let full_path = full_path_of(path, filename);
    let sdr = sdr_path(full_path.as_str());
    let prefix = chars_of("data:image");
    let (usable, data_image) = match &header.icon {
        Some(i) => {
            let d = starts_with(chars_of(i.as_str()).as_slice(), prefix.as_slice());
            (d || icon_exists, d)
        },
        None => (false, false),
    };
    let icon_file = if usable && data_image {
        match &header.icon {
            Some(i) => match get_icon_extension(i.as_str()) {
                Some(ext) => {
                    let mut f = concat(sdr.as_str(), "/icon.");
                    f.append(ext.as_str());
                    Some(f)
                },
                None => None,
            },
            None => None,
        }
    } else {
        None
    };
    let (install_command, script_copy) = if header.use_hooks {
        let mut c = String::from_str("source \"");
        let e = escape_quotes(full_path.as_str());
        c.append(e.as_str());
        c.append("\"; on_install;");
        (Some(c), Some(concat(sdr.as_str(), "/script.sh")))
    } else {
        (None, None)
    };
    let sdr_path = if usable || header.use_hooks {
        Some(sdr)
    } else {
        None
    };
    IndexPlan { full_path, sdr_path, icon_file, install_command, script_copy }
}

/// The icon the entry shows: the written sidecar icon when the embedded
/// icon was saved, else the header's icon as it stands.
pub open spec fn shown_icon(plan: IndexPlan, h: HeaderModel, icon_written: bool) -> Option<
    Seq<char>,
> {
    if icon_written && plan.icon_file is Some {
        opt_seq(plan.icon_file)
    } else {
        h.icon
    }
}

/// The catalog insert for an indexed script; `icon_written` tells whether
/// the embedded icon was saved to the planned file.
pub fn index_change(
    plan: &IndexPlan,
    header: &ScriptHeader,
    uuid: &str,
    icon_written: bool,
    is_new: bool,
    file: &FileFacts,
) -> (r: ChangeRequest)
    ensures
        entry_base(
            r.insert,
            plan.full_path@,
            uuid@,
            header@.name,
            header@.author,
            shown_icon(*plan, header@, icon_written),
            is_new,
            false,
            "text/x-shellscript"@,
            "PDOC"@,
            *file,
        ),
        r.insert.language is None,
        r.insert.publisher is None,
        r.insert.publication_date is None,
{
    let icon: Option<&str> = if icon_written && plan.icon_file.is_some() {
        match &plan.icon_file {
            Some(f) => Some(f.as_str()),
            None => None,
        }
    } else {
        match &header.icon {
            Some(i) => Some(i.as_str()),
            None => None,
        }
    };
    let name: Option<&str> = match &header.name {
        Some(n) => Some(n.as_str()),
        None => None,
    };
    let author: Option<&str> = match &header.author {
        Some(a) => Some(a.as_str()),
        None => None,
    };
    generate_change_request(plan.full_path.as_str(), uuid, name, author, icon, is_new, file)
}

} // verus!
