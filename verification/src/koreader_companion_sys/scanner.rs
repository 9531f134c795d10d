//! The kinds of event the content scanner sends to an extractor.
use vstd::prelude::*;

verus! {

/// What happened to a file, as the scanner reports it.
#[derive(Debug, Clone, Copy, PartialEq, Eq, Structural)]
pub enum ScannerEventType {
    Add,
    Delete,
    Update,
    AddThumb,
    UpdateThumb,
}

/// The number the scanner uses for each kind of event.
pub open spec fn event_code(t: ScannerEventType) -> i32 {
    match t {
        ScannerEventType::Add => 0,
        ScannerEventType::Delete => 1,
        ScannerEventType::Update => 2,
        ScannerEventType::AddThumb => 3,
        ScannerEventType::UpdateThumb => 4,
    }
}

/// The kind of event the number `v` stands for, if any.
pub open spec fn event_of(v: i32) -> Option<ScannerEventType> {
    if v == 0 {
        Some(ScannerEventType::Add)
    } else if v == 1 {
        Some(ScannerEventType::Delete)
    } else if v == 2 {
        Some(ScannerEventType::Update)
    } else if v == 3 {
        Some(ScannerEventType::AddThumb)
    } else if v == 4 {
        Some(ScannerEventType::UpdateThumb)
    } else {
        None
    }
}

impl ScannerEventType {
    /// The kind of event the scanner's number stands for; `None` for any
    /// number outside 0 to 4.
    pub fn from_i32(v: i32) -> (r: Option<Self>)
        ensures
            r == event_of(v),
            r is Some <==> 0 <= v <= 4,
    {
        match v {
            0 => Some(Self::Add),
            1 => Some(Self::Delete),
            2 => Some(Self::Update),
            3 => Some(Self::AddThumb),
            4 => Some(Self::UpdateThumb),
            _ => None,
        }
    }
}

/// Every kind of event reads back from its number, and a number that
/// reads as a kind is that kind's number.
pub proof fn lemma_event_code_round_trip(t: ScannerEventType, v: i32)
    ensures
        event_of(event_code(t)) == Some(t),
        event_of(v) == Some(t) ==> event_code(t) == v,
{
}

} // verus!
