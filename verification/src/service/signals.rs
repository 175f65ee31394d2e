//! What clients hear: progress, how jobs ended, and the state of health.
//!
//! Jobs are the usual reason that health moves, but not the only one: the
//! destination coming or going changes the answer with no job involved. Health
//! is announced only when it differs from what was announced last.

use vstd::prelude::*;

use crate::jobs::{JobId, JobKind, JobState, JobUpdate, Outcome};
use crate::service::health::HealthState;
use crate::service::shared::Shared;
use crate::time::Timestamp;

verus! {

/// A signal on the bus.
#[derive(Debug, PartialEq, Eq)]
pub enum Signal {
    /// Progress of a running backup.
    BackupProgress { job: JobId, phase: String, current: u64, total: u64 },
    /// Progress of a running restore, in bytes.
    RestoreProgress { job: JobId, bytes: u64, total: u64 },
    /// Progress of cataloguing an archive, in percent.
    IndexingProgress { archive: String, pct: u32 },
    /// The overall health state changed.
    StatusChanged { state: HealthState },
    /// A job ended, however it ended: `completed`, `cancelled` or `failed`.
    JobFinished { job: JobId, kind: JobKind, outcome: &'static str },
}

/// What to do, in order, when a job has something to say.
#[derive(Debug, PartialEq, Eq)]
pub enum Action {
    /// Send a signal.
    Emit(Signal),
    /// A backup reached the real destination: date the local snapshots, and sweep
    /// those whose time is up.
    AfterCatchUp,
    /// The repository is free again: let the scheduler reconsider.
    WakeScheduler,
    /// See whether health is another now.
    Announce,
}

/// How far something has come, in percent: never over a hundred, and none where
/// there is nothing to measure by.
pub open spec fn percent(current: u64, total: u64) -> int {
    if total == 0 {
        0
    } else if current >= total {
        100
    } else {
        current * 100 / total as int
    }
}

/// How far something has come, in percent.
pub fn percentage(current: u64, total: u64) -> (pct: u32)
    ensures
        pct == percent(current, total),
        pct <= 100,
        pct == 100 <==> total > 0 && current >= total,
{
    proof {
        percent_is_rounded_down(current, total);
    }

    if total == 0 {
        return 0;
    }
    let done: u64 = if current < total {
        current
    } else {
        total
    };
    let scaled: u128 = done as u128 * 100;
    proof {
        assert(scaled / total as u128 <= 100) by (nonlinear_arith)
            requires
                scaled == done as u128 * 100,
                done <= total,
                total > 0,
        ;
        if done == total {
            assert(scaled / total as u128 == 100) by (nonlinear_arith)
                requires
                    scaled == done as u128 * 100,
                    done == total,
                    total > 0,
            ;
        }
    }
    (scaled / total as u128) as u32
}

/// Whether a job of this kind that says how far it has come makes clients hear
/// `actions`.
pub open spec fn is_progress(
    id: JobId,
    kind: JobKind,
    current: u64,
    total: Option<u64>,
    phase: String,
    actions: Seq<Action>,
) -> bool {
    let total = match total {
        Some(total) => total,
        None => 0,
    };
    match kind {
        JobKind::Backup | JobKind::Offline => actions == seq![
            Action::Emit(Signal::BackupProgress { job: id, phase, current, total }),
        ],
        JobKind::Restore | JobKind::RestoreEverything => actions == seq![
            Action::Emit(Signal::RestoreProgress { job: id, bytes: current, total }),
        ],
        JobKind::Index => actions == seq![
            Action::Emit(
                Signal::IndexingProgress { archive: phase, pct: percent(current, total) as u32 },
            ),
        ],
        JobKind::Prune | JobKind::Compact | JobKind::Check => actions.len() == 0,
    }
}

/// Whether an action says that a job has ended in this state.
pub open spec fn is_finish(action: Action, id: JobId, kind: JobKind, state: JobState) -> bool {
    &&& action matches Action::Emit(Signal::JobFinished { job, kind: of, outcome })
    &&& job == id
    &&& of == kind
    &&& outcome@ == state.name()
}

/// What follows a job's end in this state: after a backup that reached the real
/// destination, the local snapshots are dated; then the scheduler and health.
pub open spec fn after_end(kind: JobKind, state: JobState) -> Seq<Action> {
    if kind == JobKind::Backup && state == JobState::Done(Outcome::Completed) {
        seq![Action::AfterCatchUp, Action::WakeScheduler, Action::Announce]
    } else {
        seq![Action::WakeScheduler, Action::Announce]
    }
}

/// Whether a job's new state makes clients hear `actions`.
pub open spec fn is_change(id: JobId, kind: JobKind, state: JobState, actions: Seq<Action>) -> bool {
    if state.terminal() {
        &&& actions.len() > 0
        &&& is_finish(actions[0], id, kind, state)
        &&& actions.skip(1) == after_end(kind, state)
    } else {
        actions == seq![Action::Announce]
    }
}

/// The part of the daemon that tells clients.
#[derive(Debug)]
pub struct FanOut {
    announced: HealthState,
}

impl FanOut {
    /// The state of health that was announced last.
    pub closed spec fn announced(self) -> HealthState {
        self.announced
    }

    /// Announce the state of health that the daemon begins with.
    pub fn start(shared: &Shared, now: Timestamp) -> (started: (FanOut, Signal))
        ensures
            started.0.announced() == shared.health_facts(now@).state(now@),
            started.1 == (Signal::StatusChanged { state: started.0.announced() }),
    {
        let state = shared.health(now);
        (FanOut { announced: state }, Signal::StatusChanged { state })
    }

    /// Announce health if it is another than was announced last: a signal per event
    /// would make "the state changed" meaningless.
    pub fn announce(&mut self, shared: &Shared, now: Timestamp) -> (signal: Option<Signal>)
        ensures
            final(self).announced() == shared.health_facts(now@).state(now@),
            signal == if final(self).announced() == old(self).announced() {
                None
            } else {
                Some(Signal::StatusChanged { state: final(self).announced() })
            },
    {
        let current = shared.health(now);
        if current == self.announced {
            return None;
        }
        self.announced = current;
        Some(Signal::StatusChanged { state: current })
    }

    /// Take in what a job has to say.
    ///
    /// `blocking` is whether a failure is one that stops backups until the user
    /// acts, and `degraded` what a local backup said of the spool.
    pub fn hear(
        &self,
        shared: &mut Shared,
        update: JobUpdate,
        blocking: bool,
        degraded: Option<bool>,
        now: Timestamp,
    ) -> (actions: Vec<Action>)
        requires
            old(shared).wf(),
        ensures
            final(shared).wf(),
            match update {
                JobUpdate::Progress { id, kind, current, total, phase } => {
                    &&& is_progress(id, kind, current, total, phase, actions@)
                    &&& *final(shared) == *old(shared)
                },
                JobUpdate::State { id, kind, state } => {
                    &&& is_change(id, kind, state, actions@)
                    &&& *final(shared) == if state.terminal() {
                        old(shared).after_job(kind, state, blocking, degraded, now)
                    } else {
                        *old(shared)
                    }
                },
            },
    {
        let mut actions: Vec<Action> = Vec::new();
        match update {
            JobUpdate::Progress { id, kind, current, total, phase } => {
                let total: u64 = match total {
                    Some(total) => total,
                    None => 0,
                };
                match kind {
                    JobKind::Backup | JobKind::Offline => {
                        actions.push(
                            Action::Emit(
                                Signal::BackupProgress { job: id, phase, current, total },
                            ),
                        );
                    },
                    JobKind::Restore | JobKind::RestoreEverything => {
                        actions.push(
                            Action::Emit(
                                Signal::RestoreProgress { job: id, bytes: current, total },
                            ),
                        );
                    },
                    JobKind::Index => {
                        let pct: u32 = percentage(current, total);
                        actions.push(
                            Action::Emit(Signal::IndexingProgress { archive: phase, pct }),
                        );
                    },
                    JobKind::Prune | JobKind::Compact | JobKind::Check => {},
                }
            },
            JobUpdate::State { id, kind, state } => {
                match state.outcome_token() {
                    Some(outcome) => {
                        actions.push(Action::Emit(Signal::JobFinished { job: id, kind, outcome }));
                    },
                    None => {},
                }
                if state.is_terminal() {
                    shared.update_health(kind, &state, blocking, degraded, now);
                    let caught_up = match &state {
                        JobState::Done(Outcome::Completed) => kind == JobKind::Backup,
                        _ => false,
                    };
                    if caught_up {
                        actions.push(Action::AfterCatchUp);
                    }
                    actions.push(Action::WakeScheduler);
                }
                actions.push(Action::Announce);
                assert(state.terminal() ==> actions@.skip(1) =~= after_end(kind, state));
            },
        }
        actions
    }
}

/// Every job that ends is reported once, whatever became of it.
pub proof fn every_ended_job_is_reported_once(
    id: JobId,
    kind: JobKind,
    state: JobState,
    actions: Seq<Action>,
)
    requires
        state.terminal(),
        is_change(id, kind, state, actions),
    ensures
        is_finish(actions[0], id, kind, state),
        forall|i: int|
            1 <= i < actions.len() ==> !((#[trigger] actions[i]) matches Action::Emit(_)),
{
    assert forall|i: int| 1 <= i < actions.len() implies !((
    #[trigger] actions[i]) matches Action::Emit(_)) by {
        let rest = actions.skip(1);
        assert(rest == after_end(kind, state));
        assert(rest.len() == actions.len() - 1);
        assert(rest[i - 1] == actions[i]);
        assert(i - 1 == 0 || i - 1 == 1 || i - 1 == 2);
    }
}

/// Only a backup to the real destination dates the local snapshots: another local
/// snapshot succeeding is no reason to throw away the only copy of something.
pub proof fn only_a_real_backup_dates_the_local_snapshots(
    id: JobId,
    kind: JobKind,
    state: JobState,
    actions: Seq<Action>,
    i: int,
)
    requires
        is_change(id, kind, state, actions),
        0 <= i < actions.len(),
        actions[i] == Action::AfterCatchUp,
    ensures
        kind == JobKind::Backup,
        state == JobState::Done(Outcome::Completed),
{
    if state.terminal() && i > 0 {
        let rest = actions.skip(1);
        assert(rest == after_end(kind, state));
        assert(rest.len() == actions.len() - 1);
        assert(rest[i - 1] == actions[i]);
        assert(i - 1 == 0 || i - 1 == 1 || i - 1 == 2);
    }
}

/// A percentage is a hundred only for what is done, is rounded down otherwise, and
/// is nothing where there is nothing to measure by.
pub proof fn percent_is_rounded_down(current: u64, total: u64)
    ensures
        0 <= percent(current, total) <= 100,
        total == 0 ==> percent(current, total) == 0,
        percent(current, total) == 100 <==> total > 0 && current >= total,
        current < total ==> percent(current, total) * total <= current * 100 < (percent(
            current,
            total,
        ) + 1) * total,
{
    if current < total {
        let (c, t) = (current as int, total as int);
        let p = c * 100 / t;
        assert(p * t <= c * 100 < (p + 1) * t && 0 <= p < 100) by (nonlinear_arith)
            requires
                0 <= c < t,
                p == c * 100 / t,
        ;
    }
}

/// Going on never makes the percentage smaller.
pub proof fn percent_never_falls(current: u64, later: u64, total: u64)
    requires
        current <= later,
    ensures
        percent(current, total) <= percent(later, total),
{
    percent_is_rounded_down(current, total);
    percent_is_rounded_down(later, total);
    if later < total {
        let (p, q, t) = (percent(current, total), percent(later, total), total as int);
        assert(p <= q) by (nonlinear_arith)
            requires
                p * t <= current * 100,
                later * 100 < (q + 1) * t,
                current <= later,
                t > 0,
        ;
    }
}

/// What clients hear of a job's progress is its own: under its id, with its own
/// counts and phase, and as what it is. A missing total counts as none, and jobs
/// that only keep house say nothing.
pub proof fn progress_is_told_as_what_it_is(
    id: JobId,
    kind: JobKind,
    current: u64,
    total: Option<u64>,
    phase: String,
    actions: Seq<Action>,
)
    requires
        is_progress(id, kind, current, total, phase, actions),
    ensures
        actions.len() == if kind == JobKind::Prune || kind == JobKind::Compact || kind
            == JobKind::Check {
            0nat
        } else {
            1nat
        },
        kind == JobKind::Backup || kind == JobKind::Offline ==> actions[0] == Action::Emit(
            Signal::BackupProgress {
                job: id,
                phase,
                current,
                total: if total is Some {
                    total->0
                } else {
                    0
                },
            },
        ),
        kind == JobKind::Restore || kind == JobKind::RestoreEverything ==> actions[0]
            == Action::Emit(
            Signal::RestoreProgress {
                job: id,
                bytes: current,
                total: if total is Some {
                    total->0
                } else {
                    0
                },
            },
        ),
        kind == JobKind::Index ==> {
            &&& actions[0] matches Action::Emit(Signal::IndexingProgress { archive, pct })
            &&& archive == phase
            &&& pct <= 100
            &&& pct == 100 <==> (total matches Some(all) && 0 < all <= current)
        },
{
    percent_is_rounded_down(
        current,
        match total {
            Some(total) => total,
            None => 0,
        },
    );
}

/// Whatever becomes of a job, health is looked at last. The scheduler is woken
/// exactly when the job is over, and the local snapshots are dated exactly when a
/// backup completed.
pub proof fn every_end_is_followed_up(
    id: JobId,
    kind: JobKind,
    state: JobState,
    actions: Seq<Action>,
)
    requires
        is_change(id, kind, state, actions),
    ensures
        actions.len() > 0,
        actions.last() == Action::Announce,
        state is Done || state is Failed <==> actions.contains(Action::WakeScheduler),
        actions.contains(Action::AfterCatchUp) <==> kind == JobKind::Backup && state
            == JobState::Done(Outcome::Completed),
        state is Done || state is Failed ==> {
            &&& actions[0] matches Action::Emit(Signal::JobFinished { job, kind: of, outcome })
            &&& job == id
            &&& of == kind
            &&& state == JobState::Done(Outcome::Completed) ==> outcome@ == "completed"@
            &&& state == JobState::Done(Outcome::Cancelled) ==> outcome@ == "cancelled"@
            &&& state is Failed ==> outcome@ == "failed"@
        },
        !(state is Done || state is Failed) ==> actions.len() == 1,
{
    if state.terminal() {
        let rest = actions.skip(1);
        assert(rest.len() == actions.len() - 1);
        assert forall|i: int| 1 <= i < actions.len() implies actions[i] == rest[i - 1] by {}
        assert(actions.last() == rest.last());
        if kind == JobKind::Backup && state == JobState::Done(Outcome::Completed) {
            assert(rest.len() == 3);
            assert(actions[1] == Action::AfterCatchUp);
            assert(actions[2] == Action::WakeScheduler);
        } else {
            assert(rest.len() == 2);
            assert(actions[1] == Action::WakeScheduler && actions[2] == Action::Announce);
        }
    } else {
        assert(actions[0] == Action::Announce);
    }
}

} // verus!
