//! Verified core of the Kindle companion tools: script headers and launch
//! commands, catalog change requests, e-book indexers and the install SQL.
use vstd::prelude::*;

pub mod text;
pub mod path;
pub mod sh_integration_core;
pub mod sh_integration_extractor;
pub mod kompanion_core;
pub mod kompanion_extractor;
pub mod koreader_companion_core;
pub mod kompanion_launcher;
pub mod koreader_companion_sys;
pub mod koreader_companion_launcher;
pub mod kompanion_sys;

verus! {

} // verus!
