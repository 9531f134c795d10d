//! The launcher: install SQL for the application registry and the replies
//! to the application manager.
use vstd::prelude::*;

pub mod build_utils;
pub mod callbacks;

verus! {

} // verus!
