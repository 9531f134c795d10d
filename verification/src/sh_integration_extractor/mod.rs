//! The shell-script extractor plug-in: what indexing and removing a script
//! involves, and which of the two a scanner event asks for.
use vstd::prelude::*;
use crate::koreader_companion_sys::scanner::{event_of, ScannerEventType};

pub mod index;
pub mod remove;

verus! {

/// One piece of work a scanner event asks of the script extractor.
#[derive(Debug, Clone, Copy, PartialEq, Eq, Structural)]
pub enum ScriptStep {
    /// Index the script (`true` for a new entry).
    Index(bool),
    /// Remove the script's entry and sidecar.
    Remove,
}

/// The steps for the event with number `code`, in order; `None` for a
/// number that is no event (answered 1; everything else is answered 0).
pub open spec fn steps_of(code: i32) -> Option<Seq<ScriptStep>> {
    match event_of(code) {
        None => None,
        Some(ScannerEventType::Add) => Some(seq![ScriptStep::Index(true)]),
        Some(ScannerEventType::Delete) => Some(seq![ScriptStep::Remove]),
        Some(ScannerEventType::Update) => Some(seq![ScriptStep::Remove, ScriptStep::Index(false)]),
        Some(_) => Some(Seq::empty()),
    }
}

/// The steps the script extractor takes for the scanner event `code`.
pub fn script_event_steps(code: i32) -> (r: Option<Vec<ScriptStep>>)
    ensures
        match steps_of(code) {
            Some(s) => r matches Some(v) && v@ == s,
            None => r is None,
        },
{
    match ScannerEventType::from_i32(code) {
        None => None,
        Some(ScannerEventType::Add) => {
            let v = vec![ScriptStep::Index(true)];
            assert(v@ =~= seq![ScriptStep::Index(true)]);
            Some(v)
        },
        Some(ScannerEventType::Delete) => {
            let v = vec![ScriptStep::Remove];
            assert(v@ =~= seq![ScriptStep::Remove]);
            Some(v)
        },
        Some(ScannerEventType::Update) => {
            let v = vec![ScriptStep::Remove, ScriptStep::Index(false)];
            assert(v@ =~= seq![ScriptStep::Remove, ScriptStep::Index(false)]);
            Some(v)
        },
        Some(_) => {
            let v: Vec<ScriptStep> = Vec::new();
            assert(v@ =~= Seq::<ScriptStep>::empty());
            Some(v)
        },
    }
}

} // verus!
