//! The one overall health state.
//!
//! The rules are as much about silence as about alarm. An unreachable
//! destination with the local safety net running is the product working as
//! designed. A pause the user asked for is never a warning. And risk is earned
//! by a day without protection of any kind, not by one failed run.
//!
//! The state is computed from facts and never accumulated, so a missed event
//! cannot leave the daemon describing a world that has moved on.

use vstd::prelude::*;

use crate::time::{seconds, Span, Timestamp};

verus! {

/// How long without any successful protection before the user is warned, in
/// seconds.
pub const AT_RISK_AFTER: u64 = 86_400;

/// The overall state.
#[derive(Debug, Clone, Copy, PartialEq, Eq, Structural)]
pub enum HealthState {
    /// Nothing needs saying.
    Healthy,
    /// The destination is away; the offline safety net is carrying it.
    ProtectedLocally,
    /// The user paused backups; the pause expires by itself.
    Paused,
    /// No successful protection, network or local, for over a day.
    AtRisk,
    /// Backups cannot run without the user doing something.
    Broken,
    /// Backups run, but something needs attention eventually.
    Degraded,
}

impl HealthState {
    /// The wire form.
    pub open spec fn name(self) -> Seq<char> {
        match self {
            HealthState::Healthy => "HEALTHY"@,
            HealthState::ProtectedLocally => "PROTECTED_LOCALLY"@,
            HealthState::Paused => "PAUSED"@,
            HealthState::AtRisk => "AT_RISK"@,
            HealthState::Broken => "BROKEN"@,
            HealthState::Degraded => "DEGRADED"@,
        }
    }

    /// The wire form.
    pub fn as_str(self) -> (name: &'static str)
        ensures
            name@ == self.name(),
    {
        match self {
            HealthState::Healthy => "HEALTHY",
            HealthState::ProtectedLocally => "PROTECTED_LOCALLY",
            HealthState::Paused => "PAUSED",
            HealthState::AtRisk => "AT_RISK",
            HealthState::Broken => "BROKEN",
            HealthState::Degraded => "DEGRADED",
        }
    }

    /// Every state.
    pub fn all() -> (states: Vec<HealthState>)
        ensures
            forall|state: HealthState| #[trigger] states@.contains(state),
            states@.no_duplicates(),
    {
        let states = vec![
            HealthState::Healthy,
            HealthState::ProtectedLocally,
            HealthState::Paused,
            HealthState::AtRisk,
            HealthState::Broken,
            HealthState::Degraded,
        ];
        proof {
            assert forall|state: HealthState| #[trigger] states@.contains(state) by {
                assert(states@[0] == HealthState::Healthy);
                assert(states@[1] == HealthState::ProtectedLocally);
                assert(states@[2] == HealthState::Paused);
                assert(states@[3] == HealthState::AtRisk);
                assert(states@[4] == HealthState::Broken);
                assert(states@[5] == HealthState::Degraded);
            }
        }
        states
    }
}

/// No two states share a wire name.
pub proof fn state_names_are_distinct(a: HealthState, b: HealthState)
    requires
        a.name() == b.name(),
    ensures
        a == b,
{
    reveal_strlit("HEALTHY");
    reveal_strlit("PROTECTED_LOCALLY");
    reveal_strlit("PAUSED");
    reveal_strlit("AT_RISK");
    reveal_strlit("BROKEN");
    reveal_strlit("DEGRADED");
    let (x, y) = (a.name(), b.name());
    assert(x.len() == y.len() && x[0] == y[0]);
}

/// Everything the state is derived from.
#[derive(Debug, Clone, Copy, PartialEq, Eq)]
pub struct HealthInputs {
    /// A condition that stops backups until the user acts.
    pub blocking_failure: bool,
    /// A pause the user asked for, and when it lifts.
    pub paused_until: Option<Timestamp>,
    /// Whether the destination answered last time somebody looked.
    pub destination_reachable: bool,
    /// Whether the local safety net is protecting changes meanwhile.
    pub offline_protection_active: bool,
    /// The last backup that succeeded anywhere.
    pub last_success: Option<Timestamp>,
    /// The gap between scheduled backups; `None` for a manual schedule, where
    /// age alone never raises an alarm.
    pub frequency: Option<Span>,
    /// Something wants eventual attention.
    pub needs_attention: bool,
}

impl Default for HealthInputs {
    fn default() -> (inputs: HealthInputs)
        ensures
            !inputs.blocking_failure,
            inputs.paused_until is None,
            !inputs.destination_reachable,
            !inputs.offline_protection_active,
            inputs.last_success is None,
            inputs.frequency is None,
            !inputs.needs_attention,
    {
        HealthInputs {
            blocking_failure: false,
            paused_until: None,
            destination_reachable: false,
            offline_protection_active: false,
            last_success: None,
            frequency: None,
            needs_attention: false,
        }
    }
}

impl HealthInputs {
    /// Whether a pause is in force.
    pub open spec fn paused(self, now: int) -> bool {
        self.paused_until is Some && self.paused_until->0@ > now
    }

    /// Whether nothing has succeeded for over a day. A manual schedule cannot be
    /// late, and a machine that has never backed up is not late yet.
    pub open spec fn stale(self, now: int) -> bool {
        &&& self.frequency is Some
        &&& self.last_success is Some
        &&& now - self.last_success->0@ > seconds(86_400)
    }

    /// The state the facts amount to. What demands the user's action outranks
    /// what merely describes the weather.
    pub open spec fn state(self, now: int) -> HealthState {
        if self.blocking_failure {
            HealthState::Broken
        } else if self.paused(now) {
            HealthState::Paused
        } else if self.stale(now) {
            HealthState::AtRisk
        } else if !self.destination_reachable && self.offline_protection_active {
            HealthState::ProtectedLocally
        } else if self.needs_attention {
            HealthState::Degraded
        } else {
            HealthState::Healthy
        }
    }
}

/// Compute the overall state.
pub fn evaluate(inputs: &HealthInputs, now: Timestamp) -> (state: HealthState)
    ensures
        state == inputs.state(now@),
        state == HealthState::AtRisk <==> {
            &&& !inputs.blocking_failure
            &&& inputs.paused_until matches Some(until) ==> until@ <= now@
            &&& inputs.frequency is Some
            &&& inputs.last_success matches Some(last)
            &&& now@ - last@ > 86_400_000_000_000
        },
        state == HealthState::Paused <==> !inputs.blocking_failure && (
        inputs.paused_until matches Some(until) && now@ < until@),
        state == HealthState::Broken <==> inputs.blocking_failure,
{
    if inputs.blocking_failure {
        return HealthState::Broken;
    }
    match inputs.paused_until {
        Some(until) => {
            if now.is_before(until) {
                return HealthState::Paused;
            }
        },
        None => {},
    }
    let stale = is_stale(inputs, now);
    if !inputs.destination_reachable && inputs.offline_protection_active && !stale {
        return HealthState::ProtectedLocally;
    }
    if stale {
        return HealthState::AtRisk;
    }
    if inputs.needs_attention {
        return HealthState::Degraded;
    }
    HealthState::Healthy
}

/// Whether protection has gone stale.
fn is_stale(inputs: &HealthInputs, now: Timestamp) -> (stale: bool)
    ensures
        stale == inputs.stale(now@),
{
    if inputs.frequency.is_none() {
        return false;
    }
    match inputs.last_success {
        Some(last) => match now.since(last) {
            Some(age) => Span::from_secs(AT_RISK_AFTER).is_shorter_than(age),
            None => false,
        },
        None => false,
    }
}

/// Being away from the destination is no warning while the safety net holds: the
/// state is then never one of risk or failure.
pub proof fn offline_with_the_safety_net_is_no_warning(inputs: HealthInputs, now: int)
    requires
        !inputs.destination_reachable,
        inputs.offline_protection_active,
        !inputs.blocking_failure,
        !inputs.stale(now),
    ensures
        inputs.state(now) == HealthState::ProtectedLocally || inputs.state(now)
            == HealthState::Paused,
{
}

/// A pause the user asked for is never reported as risk, however old the last
/// backup.
pub proof fn a_pause_is_never_a_risk(inputs: HealthInputs, now: int)
    requires
        inputs.paused(now),
    ensures
        inputs.state(now) != HealthState::AtRisk,
{
}

/// Risk is earned by more than a day without protection.
pub proof fn risk_takes_a_day(inputs: HealthInputs, now: int)
    requires
        inputs.state(now) == HealthState::AtRisk,
    ensures
        inputs.last_success is Some,
        now - inputs.last_success->0@ > seconds(86_400),
        inputs.frequency is Some,
        !inputs.paused(now),
{
}

/// A failure that needs the user outranks everything else.
pub proof fn a_blocking_failure_outranks_everything(inputs: HealthInputs, now: int)
    ensures
        inputs.blocking_failure <==> inputs.state(now) == HealthState::Broken,
{
}

/// Whether more than a day has gone by since anything succeeded, on a schedule.
pub open spec fn a_day_without_success(inputs: HealthInputs, now: int) -> bool {
    &&& inputs.frequency is Some
    &&& inputs.last_success matches Some(last)
    &&& now - last@ > 86_400_000_000_000
}

/// What each state says: broken where the user has to act; else paused while a
/// pause lasts; else at risk after more than a day without success on a schedule;
/// else protected locally where the destination is away and the safety net holds;
/// else degraded where something wants attention; and healthy where nothing does.
pub proof fn each_state_says_what_is_wrong(inputs: HealthInputs, now: int)
    ensures
        inputs.state(now) == HealthState::Broken <==> inputs.blocking_failure,
        inputs.state(now) == HealthState::Paused <==> !inputs.blocking_failure && (
        inputs.paused_until matches Some(until) && now < until@),
        inputs.state(now) == HealthState::AtRisk <==> !inputs.blocking_failure && (
        inputs.paused_until matches Some(until) ==> until@ <= now) && a_day_without_success(
            inputs,
            now,
        ),
        inputs.state(now) == HealthState::ProtectedLocally <==> !inputs.blocking_failure && (
        inputs.paused_until matches Some(until) ==> until@ <= now) && !a_day_without_success(
            inputs,
            now,
        ) && !inputs.destination_reachable && inputs.offline_protection_active,
        inputs.state(now) == HealthState::Degraded <==> !inputs.blocking_failure && (
        inputs.paused_until matches Some(until) ==> until@ <= now) && !a_day_without_success(
            inputs,
            now,
        ) && (inputs.destination_reachable || !inputs.offline_protection_active)
            && inputs.needs_attention,
        inputs.state(now) == HealthState::Healthy <==> !inputs.blocking_failure && (
        inputs.paused_until matches Some(until) ==> until@ <= now) && !a_day_without_success(
            inputs,
            now,
        ) && (inputs.destination_reachable || !inputs.offline_protection_active)
            && !inputs.needs_attention,
{
}

/// A success ends a risk, and time alone brings it back: what is at risk stays so
/// while nothing succeeds and no pause begins.
pub proof fn a_risk_lasts_until_a_success(
    before: HealthInputs,
    after: HealthInputs,
    now: int,
    later: int,
)
    requires
        before.state(now) == HealthState::AtRisk,
        now <= later,
        !after.blocking_failure,
        after.frequency is Some,
        after.paused_until is None,
    ensures
        after.last_success == before.last_success ==> after.state(later) == HealthState::AtRisk,
        after.last_success matches Some(last) ==> later - last@ <= 86_400_000_000_000
            ==> after.state(later) != HealthState::AtRisk,
        after.last_success is None ==> after.state(later) != HealthState::AtRisk,
{
}

/// Each state of health has its name on the wire.
pub proof fn each_state_has_its_name(state: HealthState)
    ensures
        state is Healthy ==> state.name() == "HEALTHY"@,
        state is ProtectedLocally ==> state.name() == "PROTECTED_LOCALLY"@,
        state is Paused ==> state.name() == "PAUSED"@,
        state is AtRisk ==> state.name() == "AT_RISK"@,
        state is Broken ==> state.name() == "BROKEN"@,
        state is Degraded ==> state.name() == "DEGRADED"@,
{
}

} // verus!
