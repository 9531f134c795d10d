//! The catalog extractor plug-in: indexers for EPUB, CBZ and FB2 books and
//! the handling of scanner events.
use vstd::prelude::*;

pub mod extractor;
pub mod indexer;

verus! {

} // verus!
