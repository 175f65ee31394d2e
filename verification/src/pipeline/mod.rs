//! What a backup is: create the archive, read it into the catalogue, apply the
//! retention policy.

use vstd::prelude::*;

pub mod backup;
pub mod catalogue;
pub mod local;
pub mod naming;

verus! {

} // verus!
