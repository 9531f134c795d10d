//! Shell-script integration: script headers, launch commands, icons and
//! catalog entries for `.sh` files in the library.
use vstd::prelude::*;

pub mod base64;
pub mod change_request;
pub mod command;
pub mod header;
pub mod url;

verus! {

/// The metadata a script declares in its leading comment lines.
#[derive(Debug, Clone, PartialEq)]
pub struct ScriptHeader {
    pub name: Option<String>,
    pub author: Option<String>,
    pub icon: Option<String>,
    pub use_hooks: bool,
    pub use_fbink: bool,
}

/// A script header as plain values.
pub ghost struct HeaderModel {
    pub name: Option<Seq<char>>,
    pub author: Option<Seq<char>>,
    pub icon: Option<Seq<char>>,
    pub use_hooks: bool,
    pub use_fbink: bool,
}

/// The view of an optional string.
pub open spec fn opt_view(o: Option<String>) -> Option<Seq<char>> {
    match o {
        Some(s) => Some(s@),
        None => None,
    }
}

impl View for ScriptHeader {
    type V = HeaderModel;

    open spec fn view(&self) -> HeaderModel {
        HeaderModel {
            name: opt_view(self.name),
            author: opt_view(self.author),
            icon: opt_view(self.icon),
            use_hooks: self.use_hooks,
            use_fbink: self.use_fbink,
        }
    }
}

/// What the scanner reports about a file.
#[derive(Debug, Clone, Copy, PartialEq, Eq)]
pub enum ScannerEventType {
    Add,
    Delete,
    Update,
    AddThumb,
    UpdateThumb,
}

} // verus!
