//! The interface every client talks to, as decisions on plain values.
//!
//! Two conventions run through it. Long work returns a job id at once, and
//! progress arrives as signals carrying that id. Errors cross the bus under
//! names of their own, never as prose alone.

use vstd::prelude::*;

pub mod config;
pub mod error;
pub mod health;
pub mod introspect;
pub mod on_disk;
pub mod preview;
pub mod requests;
pub mod settings;
pub mod shared;
pub mod signals;
pub mod state;

pub use error::DaemonError;
pub use health::{HealthInputs, HealthState};
pub use preview::PreviewCache;
pub use state::{PauseState, RestorePolicy};

verus! {

} // verus!
