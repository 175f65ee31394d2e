//! A scripted history to develop against: a month of snapshots of a made-up home
//! directory, in which files appear, change and disappear on known days.

use vstd::prelude::*;

pub mod history;
pub mod listing;
pub mod png;

verus! {

} // verus!
