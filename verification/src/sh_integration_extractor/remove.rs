//! What removing a script involves: its catalog entry, its remove hook and
//! its sidecar.
use vstd::prelude::*;
use vstd::string::*;
use crate::kompanion_extractor::extractor::full_path_of;
use crate::kompanion_extractor::indexer::sdr_path;
use crate::sh_integration_core::command::{escape_quotes, escaped};
use crate::sh_integration_core::header::{header_of, parse_header};
use crate::text::{concat, opt_seq};

verus! {

/// The sidecar of the script `path`/`filename` and the copy of the script
/// kept in it.
pub struct RemovalPaths {
    pub sdr_path: String,
    pub script_path: String,
}

/// Where the sidecar and the kept copy of a script are.
pub fn removal_paths(path: &str, filename: &str) -> (r: RemovalPaths)
    ensures
        r.sdr_path@ == path@ + "/"@ + filename@ + ".sdr"@,
        r.script_path@ == path@ + "/"@ + filename@ + ".sdr"@ + "/script.sh"@,
{
    let full = full_path_of(path, filename);
    let sdr = sdr_path(full.as_str());
    let script = concat(sdr.as_str(), "/script.sh");
    RemovalPaths { sdr_path: sdr, script_path: script }
}

/// What is done besides deleting the sidecar.
pub struct RemovalPlan {
    /// The catalog entry to delete.
    pub drop_uuid: Option<String>,
    /// The command that runs the kept script's remove hook.
    pub remove_command: Option<String>,
}

/// The removal for a script whose entry is `uuid` (if known) and whose
/// kept copy read as `kept` (if it could be read): the entry is deleted
/// either way, and the remove hook runs when the kept copy asks for hooks.
pub fn plan_removal(paths: &RemovalPaths, uuid: Option<&str>, kept: Option<&str>) -> (r:
    RemovalPlan)
    ensures
        opt_seq(r.drop_uuid) == match uuid {
            Some(u) => Some(u@),
            None => None::<Seq<char>>,
        },
        opt_seq(r.remove_command) == match kept {
            Some(c) => if header_of(c@).use_hooks {
                Some("source \""@ + escaped(paths.script_path@) + "\"; on_remove;"@)
            } else {
                None
            },
            None => None,
        },
{
    let drop_uuid = match uuid {
        Some(u) => Some(String::from_str(u)),
        None => None,
    };
    let remove_command = match kept {
        Some(content) => {
            let header = parse_header(content);
            if header.use_hooks {
                let mut c = String::from_str("source \"");
                let e = escape_quotes(paths.script_path.as_str());
                c.append(e.as_str());
                c.append("\"; on_remove;");
                Some(c)
            } else {
                None
            }
        },
        None => None,
    };
    RemovalPlan { drop_uuid, remove_command }
}

} // verus!
