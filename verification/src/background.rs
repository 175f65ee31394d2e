//! Whether the daemon runs in the background.
//!
//! Switched on, it starts at login: its unit is enabled. Switched off, the unit
//! is disabled, and a daemon that something else started leaves once nothing
//! needs it.

use vstd::prelude::*;

use crate::text;

verus! {

/// The daemon's unit, by file name.
pub const UNIT: &'static str = "backtrackd.service";

/// How often a daemon that is not meant to run in the background looks whether
/// it is still needed, in seconds.
pub const IDLE_CHECK: u64 = 60;

/// How many looks in a row have to find it idle.
pub const IDLE_CHECKS: u32 = 2;

/// Whether a daemon that is not wanted in the background should leave now.
///
/// It stays while a window is open, while any job is running or queued, and
/// until it has been idle for two looks in a row.
pub fn should_leave(
    run_in_background: bool,
    window_open: bool,
    busy: bool,
    idle_checks: u32,
) -> (leave: bool)
    ensures
        leave == (!run_in_background && !window_open && !busy && idle_checks >= 2),
{
    !run_in_background && !window_open && !busy && idle_checks >= IDLE_CHECKS
}

/// A count of looks in a row that found the daemon idle.
#[derive(Debug, Clone, Copy, PartialEq, Eq, Structural)]
pub struct IdleWatch {
    idle_checks: u32,
}

impl IdleWatch {
    /// How many looks in a row have found it idle.
    pub closed spec fn idle_checks(self) -> nat {
        self.idle_checks as nat
    }

    /// No look yet.
    pub fn new() -> (watch: IdleWatch)
        ensures
            watch.idle_checks() == 0,
    {
        IdleWatch { idle_checks: 0 }
    }

    /// Take in one look, and say whether to leave.
    pub fn look(&mut self, run_in_background: bool, window_open: bool, busy: bool) -> (leave: bool)
        requires
            old(self).idle_checks() < 2,
        ensures
            ({
                let needed = run_in_background || window_open || busy;
                let checks = if needed {
                    0
                } else {
                    old(self).idle_checks() + 1
                };
                &&& final(self).idle_checks() == checks
                &&& leave == (!needed && checks >= 2)
            }),
            !leave ==> final(self).idle_checks() < 2,
    {
        self.idle_checks = if run_in_background || window_open || busy {
            0
        } else {
            self.idle_checks + 1
        };
        should_leave(run_in_background, window_open, busy, self.idle_checks)
    }
}

/// What to do about starting at login.
#[derive(Debug, Clone, Copy, PartialEq, Eq, Structural)]
pub enum UnitChange {
    /// It is as it should be.
    Nothing,
    /// Somebody decided about the unit by hand, and the decision is theirs.
    LeaveAlone,
    /// Enable the unit.
    Enable,
    /// Disable the unit.
    Disable,
}

/// What to do about starting at login, from the state the unit is in. `None`
/// stands for a unit that is not managed here.
pub fn reconcile(state: Option<&str>, wanted: bool) -> (change: UnitChange)
    ensures
        change == match state {
            None => UnitChange::Nothing,
            Some(state) => if (state@ == "enabled"@) == wanted {
                UnitChange::Nothing
            } else if !wanted {
                UnitChange::Disable
            } else if state@ == "disabled"@ {
                UnitChange::Enable
            } else {
                UnitChange::LeaveAlone
            },
        },
{
    match state {
        None => UnitChange::Nothing,
        Some(state) => {
            let enabled = text::same(state, "enabled");
            if enabled == wanted {
                return UnitChange::Nothing;
            }
            if !wanted {
                return UnitChange::Disable;
            }
            if text::same(state, "disabled") {
                UnitChange::Enable
            } else {
                UnitChange::LeaveAlone
            }
        },
    }
}

} // verus!
