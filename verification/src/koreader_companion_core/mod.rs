//! The catalog entry of the KOReader companion.
use vstd::prelude::*;

pub mod change_request;

verus! {

} // verus!
