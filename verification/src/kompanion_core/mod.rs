//! What every indexer produces and the catalog entry built from it.
use vstd::prelude::*;

pub mod change_request;
pub mod indexer;
pub mod json;

verus! {

} // verus!
