//! Jobs: states, admission, throttling, and the table that runs them.

use backtrackd::engine::{EngineError, JobEvent, JobSummary, LogLevel};
use backtrackd::jobs::{
    Effect, Ending, JobError, JobId, JobKind, JobRegistry, JobRun, JobState, JobUpdate, Outcome,
    ProgressThrottle, RepoAccess, RepoGuard, RunInput,
};
use backtrackd::time::{Span, Timestamp};

fn at_millis(millis: u64) -> Timestamp {
    Timestamp::from_secs(1_000_000).plus(Span::from_millis(millis))
}

fn every_state() -> Vec<JobState> {
    vec![
        JobState::Queued,
        JobState::Running,
        JobState::Paused,
        JobState::Cancelling,
        JobState::Done(Outcome::Completed),
        JobState::Done(Outcome::Cancelled),
        JobState::Failed(EngineError::RepoCorrupt),
    ]
}

// ── The guard ──

#[test]
fn an_idle_repository_admits_anything() {
    let guard = RepoGuard::new();
    assert!(guard.is_idle());
    assert!(guard.admits(RepoAccess::Exclusive));
    assert!(guard.admits(RepoAccess::Shared));
    assert_eq!(RepoGuard::default(), guard);
}

#[test]
fn a_backup_excludes_everything() {
    let guard = RepoGuard::from_running(&vec![JobKind::Backup.access()]);
    assert!(!guard.admits(RepoAccess::Exclusive), "one backup-class job at a time");
    assert!(!guard.admits(RepoAccess::Shared), "restores must not run alongside a backup");
}

#[test]
fn restores_run_alongside_indexing() {
    let guard = RepoGuard::from_running(&vec![JobKind::Index.access()]);
    assert!(guard.admits(JobKind::Restore.access()));

    let both = RepoGuard::from_running(&vec![JobKind::Index.access(), JobKind::Restore.access()]);
    assert!(both.admits(JobKind::Restore.access()), "readers keep admitting readers");
    assert!(
        !both.admits(JobKind::Backup.access()),
        "but a backup waits for the readers to drain"
    );
}

#[test]
fn maintenance_jobs_exclude_each_other() {
    for holder in [JobKind::Prune, JobKind::Compact, JobKind::Check] {
        let guard = RepoGuard::from_running(&vec![holder.access()]);
        assert!(!guard.admits(JobKind::Backup.access()), "{holder:?} must exclude a backup");
        assert!(!guard.admits(JobKind::Restore.access()), "{holder:?} must exclude a restore");
    }
}

#[test]
fn readers_release_independently() {
    let mut guard = RepoGuard::new();
    guard.acquire(RepoAccess::Shared);
    guard.acquire(RepoAccess::Shared);
    assert!(!guard.is_idle());
    assert!(!guard.admits(RepoAccess::Exclusive));

    let guard = RepoGuard::from_running(&vec![RepoAccess::Shared]);
    assert!(!guard.admits(RepoAccess::Exclusive));

    let guard = RepoGuard::from_running(&vec![]);
    assert!(guard.admits(RepoAccess::Exclusive));
}

// ── States and kinds ──

#[test]
fn terminal_states_admit_nothing() {
    for terminal in [
        JobState::Done(Outcome::Completed),
        JobState::Done(Outcome::Cancelled),
        JobState::Failed(EngineError::RepoCorrupt),
    ] {
        assert!(terminal.is_terminal());
        for next in every_state() {
            assert!(
                !terminal.can_transition_to(&next),
                "{terminal:?} must not transition to {next:?}"
            );
        }
    }
}

#[test]
fn the_happy_path_is_legal() {
    assert!(JobState::Queued.can_transition_to(&JobState::Running));
    assert!(JobState::Running.can_transition_to(&JobState::Done(Outcome::Completed)));
}

#[test]
fn cancelling_resolves_to_done_but_never_to_failed() {
    let c = JobState::Cancelling;
    assert!(c.can_transition_to(&JobState::Done(Outcome::Cancelled)));
    assert!(c.can_transition_to(&JobState::Done(Outcome::Completed)));
    assert!(!c.can_transition_to(&JobState::Failed(EngineError::RepoCorrupt)));
    assert!(!c.can_transition_to(&JobState::Running));
    assert!(!c.can_transition_to(&JobState::Paused));
}

#[test]
fn a_queued_job_cannot_be_paused_or_completed() {
    let q = JobState::Queued;
    assert!(!q.can_transition_to(&JobState::Paused));
    assert!(!q.can_transition_to(&JobState::Done(Outcome::Completed)));
    assert!(!q.can_transition_to(&JobState::Cancelling));
    assert!(q.can_transition_to(&JobState::Done(Outcome::Cancelled)));
}

#[test]
fn a_running_job_cannot_go_back_to_queued() {
    assert!(!JobState::Running.can_transition_to(&JobState::Queued));
}

#[test]
fn a_paused_job_re_enters_the_queue_rather_than_running_directly() {
    let p = JobState::Paused;
    assert!(p.can_transition_to(&JobState::Queued));
    assert!(
        !p.can_transition_to(&JobState::Running),
        "resuming must re-acquire the repo guard, not bypass it"
    );
}

#[test]
fn only_disaster_recovery_is_pausable() {
    for kind in JobKind::all() {
        assert_eq!(kind.is_pausable(), kind == JobKind::RestoreEverything, "{kind:?} pausability");
    }
}

#[test]
fn repo_access_matches_borg_locking() {
    for kind in
        [JobKind::Backup, JobKind::Offline, JobKind::Prune, JobKind::Compact, JobKind::Check]
    {
        assert_eq!(kind.access(), RepoAccess::Exclusive, "{kind:?}");
    }
    for kind in [JobKind::Restore, JobKind::RestoreEverything, JobKind::Index] {
        assert_eq!(kind.access(), RepoAccess::Shared, "{kind:?}");
    }
}

#[test]
fn cancelling_still_holds_the_repository() {
    assert!(JobState::Running.holds_repo());
    assert!(
        JobState::Cancelling.holds_repo(),
        "borg is still winding down and still holds its lock"
    );
    assert!(!JobState::Queued.holds_repo());
    assert!(!JobState::Paused.holds_repo());
    assert!(!JobState::Done(Outcome::Completed).holds_repo());
}

#[test]
fn state_and_kind_names_are_unique() {
    let states: Vec<_> = every_state().iter().map(|s| s.as_str()).collect();
    let mut sorted = states.clone();
    sorted.sort_unstable();
    sorted.dedup();
    assert_eq!(sorted.len(), states.len(), "state names collide: {states:?}");

    let kinds: Vec<_> = JobKind::all().iter().map(|k| k.as_str()).collect();
    let mut sorted = kinds.clone();
    sorted.sort_unstable();
    sorted.dedup();
    assert_eq!(sorted.len(), kinds.len(), "kind names collide: {kinds:?}");
    assert_eq!(kinds.len(), 8);
}

#[test]
fn a_job_that_ended_has_a_word_for_it() {
    assert_eq!(JobState::Done(Outcome::Completed).outcome_token(), Some("completed"));
    assert_eq!(JobState::Done(Outcome::Cancelled).outcome_token(), Some("cancelled"));
    assert_eq!(JobState::Failed(EngineError::AuthFailed).outcome_token(), Some("failed"));
    assert_eq!(JobState::Running.outcome_token(), None);
}

#[test]
fn job_errors_say_what_is_wrong() {
    assert_eq!(JobError::NotFound(99).message(), "no job with id 99");
    assert_eq!(
        JobError::NotPausable { kind: "backup" }.message(),
        "a backup job cannot be paused"
    );
    assert_eq!(JobError::AlreadyFinished { id: 7 }.message(), "job 7 has already finished");
    assert_eq!(JobError::NotPaused { id: 10 }.message(), "job 10 is not paused");
    assert_eq!(
        JobError::IllegalTransition { id: 3, from: "queued", to: "paused" }.message(),
        "job 3 cannot go from queued to paused"
    );
}

// ── The throttle ──

#[test]
fn the_first_event_always_goes_out() {
    let mut t = ProgressThrottle::default();
    assert!(t.should_emit(at_millis(0), "archiving"));
}

#[test]
fn events_inside_the_window_are_dropped() {
    let mut t = ProgressThrottle::default();
    assert!(t.should_emit(at_millis(0), "archiving"));
    assert!(!t.should_emit(at_millis(1), "archiving"));
    assert!(!t.should_emit(at_millis(249), "archiving"));
}

#[test]
fn the_cap_is_four_per_second() {
    let mut t = ProgressThrottle::default();
    let emitted = (0..1000).filter(|ms| t.should_emit(at_millis(*ms), "archiving")).count();
    assert_eq!(emitted, 4, "expected 4 Hz, got {emitted} in one second");
}

#[test]
fn a_phase_change_is_never_withheld() {
    let mut t = ProgressThrottle::default();
    assert!(t.should_emit(at_millis(0), "archiving"));
    assert!(t.should_emit(at_millis(5), "checking"));
    assert!(!t.should_emit(at_millis(6), "checking"));
}

#[test]
fn release_lets_the_final_event_through() {
    let mut t = ProgressThrottle::default();
    assert!(t.should_emit(at_millis(0), "archiving"));
    assert!(!t.should_emit(at_millis(10), "archiving"));
    t.release();
    assert!(
        t.should_emit(at_millis(11), "archiving"),
        "the last tick must reach the UI or the bar freezes short of the end"
    );
}

#[test]
fn the_window_is_measured_from_the_last_emission_not_the_last_event() {
    let mut t = ProgressThrottle::default();
    assert!(t.should_emit(at_millis(0), "archiving"));
    for ms in 1..250 {
        t.should_emit(at_millis(ms), "archiving");
    }
    assert!(t.should_emit(at_millis(250), "archiving"));
}

#[test]
fn a_throttle_can_have_another_interval() {
    let mut t = ProgressThrottle::new(Span::from_secs(2));
    assert!(t.should_emit(at_millis(0), "archiving"));
    assert!(!t.should_emit(at_millis(1_999), "archiving"));
    assert!(t.should_emit(at_millis(2_000), "archiving"));
    // A clock that went back is not a reason to speak.
    assert!(!t.should_emit(at_millis(500), "archiving"));
}

// ── The table ──

/// What a scripted engine does when a job is started.
#[derive(Clone)]
enum Script {
    /// Run until it is stopped.
    Pending,
    /// Report these events.
    Events(Vec<&'static str>),
    /// Refuse to start.
    Refuse,
}

fn progress(current: u64) -> JobEvent {
    JobEvent::Progress { current, total: Some(200), phase: "archiving".to_string() }
}

fn event(name: &str) -> JobEvent {
    match name {
        "finished" => JobEvent::Finished(Ok(JobSummary { archive_id: Some("mock-1".to_string()) })),
        "full" => JobEvent::Finished(Err(EngineError::DestinationFull)),
        "cancelled" => JobEvent::Finished(Err(EngineError::Cancelled)),
        "item" => JobEvent::ItemDone { path: "home/a".to_string() },
        "log" => JobEvent::Log { level: LogLevel::Info, msg: "hello".to_string() },
        _ => progress(1),
    }
}

/// A table with a scripted engine under it. What is to be done is done at once.
struct World {
    registry: JobRegistry,
    scripts: Vec<Script>,
    running: Vec<(JobId, u64)>,
    heard: Vec<JobUpdate>,
}

impl World {
    fn new() -> World {
        World { registry: JobRegistry::new(), scripts: vec![], running: vec![], heard: vec![] }
    }

    fn submit(&mut self, kind: JobKind, script: Script) -> JobId {
        self.scripts.push(script);
        let (id, effects) = self.registry.submit(kind);
        self.carry_out(effects);
        id
    }

    fn carry_out(&mut self, effects: Vec<Effect>) {
        for effect in effects {
            match effect {
                Effect::Publish(update) => self.heard.push(update),
                Effect::Start { id, kind, run } => self.start(id, kind, run),
                Effect::Stop { id, run } => {
                    self.running.retain(|r| *r != (id, run));
                    let kind = self.registry.snapshot(id).unwrap().kind;
                    let mut job = JobRun::new(id, kind);
                    let step = job.step(RunInput::Stopped);
                    let effects = self.registry.settle(id, run, step.ending.unwrap());
                    self.carry_out(effects);
                }
            }
        }
    }

    fn start(&mut self, id: JobId, kind: JobKind, run: u64) {
        let mut job = JobRun::new(id, kind);
        let script = self.scripts[id as usize - 1].clone();
        let events = match script {
            Script::Pending => {
                self.running.push((id, run));
                return;
            }
            Script::Refuse => {
                let step = job.step(RunInput::NotStarted(EngineError::LockedByOther));
                let effects = self.registry.settle(id, run, step.ending.unwrap());
                self.carry_out(effects);
                return;
            }
            Script::Events(events) => events,
        };
        let mut ending = None;
        for (i, name) in events.iter().enumerate() {
            let step = job.step(RunInput::Event(event(name), at_millis(i as u64)));
            self.heard.extend(step.updates);
            if step.ending.is_some() {
                ending = step.ending;
                break;
            }
        }
        let ending = match ending {
            Some(ending) => ending,
            None => job.step(RunInput::StreamEnded).ending.unwrap(),
        };
        let effects = self.registry.settle(id, run, ending);
        self.carry_out(effects);
    }

    fn state(&self, id: JobId) -> JobState {
        self.registry.snapshot(id).unwrap().state
    }

    fn cancel(&mut self, id: JobId) {
        let effects = self.registry.cancel(id).expect("cancellable");
        self.carry_out(effects);
    }

    fn states_of(&self, id: JobId) -> Vec<JobState> {
        self.heard
            .iter()
            .filter_map(|u| match u {
                JobUpdate::State { id: of, state, .. } if *of == id => Some(state.clone()),
                _ => None,
            })
            .collect()
    }
}

#[test]
fn a_completed_backup_ends_in_done_completed() {
    let mut world = World::new();
    let id = world.submit(JobKind::Backup, Script::Events(vec!["progress", "finished"]));
    assert_eq!(world.state(id), JobState::Done(Outcome::Completed));
}

#[test]
fn cancelling_a_running_backup_lands_in_done_cancelled() {
    let mut world = World::new();
    let id = world.submit(JobKind::Backup, Script::Pending);
    assert_eq!(world.state(id), JobState::Running);
    world.cancel(id);
    assert_eq!(
        world.state(id),
        JobState::Done(Outcome::Cancelled),
        "a cancelled job is done, not failed"
    );
    assert_eq!(
        world.states_of(id),
        vec![
            JobState::Queued,
            JobState::Running,
            JobState::Cancelling,
            JobState::Done(Outcome::Cancelled),
        ]
    );
}

#[test]
fn cancelling_a_queued_job_never_starts_it() {
    let mut world = World::new();
    let blocker = world.submit(JobKind::Backup, Script::Pending);
    let queued = world.submit(JobKind::Restore, Script::Pending);
    assert_eq!(
        world.state(queued),
        JobState::Queued,
        "a restore must not start alongside a backup"
    );

    world.cancel(queued);
    assert_eq!(world.state(queued), JobState::Done(Outcome::Cancelled));

    world.cancel(blocker);
    assert!(world.state(blocker).is_terminal());
    assert_eq!(
        world.states_of(queued),
        vec![JobState::Queued, JobState::Done(Outcome::Cancelled)]
    );
}

#[test]
fn a_queued_job_starts_when_the_repository_frees_up() {
    let mut world = World::new();
    let backup = world.submit(JobKind::Backup, Script::Pending);
    let restore = world.submit(JobKind::Restore, Script::Pending);
    assert_eq!(world.state(restore), JobState::Queued);

    world.cancel(backup);
    assert_eq!(world.state(restore), JobState::Running);
    world.cancel(restore);
}

#[test]
fn a_restore_runs_alongside_indexing() {
    let mut world = World::new();
    let index = world.submit(JobKind::Index, Script::Pending);
    assert_eq!(world.state(index), JobState::Running);
    let restore = world.submit(JobKind::Restore, Script::Pending);
    assert_eq!(world.state(restore), JobState::Running);

    let backup = world.submit(JobKind::Backup, Script::Pending);
    assert_eq!(world.state(backup), JobState::Queued);

    world.cancel(index);
    assert_eq!(world.state(backup), JobState::Queued);
    world.cancel(restore);
    assert_eq!(world.state(backup), JobState::Running);
    world.cancel(backup);
}

#[test]
fn a_failing_engine_lands_in_failed() {
    let mut world = World::new();
    let id = world.submit(JobKind::Backup, Script::Events(vec!["full"]));
    assert_eq!(world.state(id), JobState::Failed(EngineError::DestinationFull));

    let refused = world.submit(JobKind::Backup, Script::Refuse);
    assert_eq!(world.state(refused), JobState::Failed(EngineError::LockedByOther));
}

#[test]
fn a_stream_that_ends_without_finishing_is_not_reported_as_success() {
    let mut world = World::new();
    let id = world.submit(JobKind::Backup, Script::Events(vec!["item", "log"]));
    let state = world.state(id);
    assert!(matches!(state, JobState::Failed(_)), "expected a failure, got {state:?}");
    assert_eq!(
        state,
        JobState::Failed(EngineError::BorgFailed {
            code: -1,
            stderr: "engine stream ended without a terminal event".to_string(),
        })
    );
}

#[test]
fn an_engine_that_reports_a_stop_was_stopped() {
    let mut world = World::new();
    let id = world.submit(JobKind::Backup, Script::Events(vec!["cancelled"]));
    assert_eq!(world.state(id), JobState::Done(Outcome::Cancelled));
}

#[test]
fn only_disaster_recovery_accepts_a_pause() {
    let mut world = World::new();
    let backup = world.submit(JobKind::Backup, Script::Pending);
    assert_eq!(
        world.registry.pause(backup),
        Err(JobError::NotPausable { kind: "backup" }),
        "pausing a backup must be refused, not faked with SIGSTOP"
    );
    world.cancel(backup);
}

#[test]
fn pausing_disaster_recovery_frees_the_repository_and_resume_requeues() {
    let mut world = World::new();
    let dr = world.submit(JobKind::RestoreEverything, Script::Pending);
    assert_eq!(world.state(dr), JobState::Running);

    let effects = world.registry.pause(dr).expect("DR is pausable");
    world.carry_out(effects);
    assert_eq!(world.state(dr), JobState::Paused);

    let backup = world.submit(JobKind::Backup, Script::Pending);
    assert_eq!(world.state(backup), JobState::Running);
    world.cancel(backup);

    let effects = world.registry.resume(dr).expect("resumable");
    world.carry_out(effects);
    assert_eq!(world.state(dr), JobState::Running);
    world.cancel(dr);
    assert_eq!(world.state(dr), JobState::Done(Outcome::Cancelled));
}

#[test]
fn what_an_earlier_run_reports_does_not_end_the_next() {
    let mut registry = JobRegistry::new();
    let (dr, effects) = registry.submit(JobKind::RestoreEverything);
    let first = effects
        .iter()
        .find_map(|e| match e {
            Effect::Start { run, .. } => Some(*run),
            _ => None,
        })
        .unwrap();
    registry.pause(dr).unwrap();
    registry.resume(dr).unwrap();
    assert!(registry.settle(dr, first, Ending::Failed(EngineError::RepoCorrupt)).is_empty());
    assert_eq!(registry.snapshot(dr).unwrap().state, JobState::Running);
}

#[test]
fn resuming_a_job_that_is_not_paused_is_refused() {
    let mut world = World::new();
    let id = world.submit(JobKind::RestoreEverything, Script::Pending);
    assert_eq!(world.registry.resume(id), Err(JobError::NotPaused { id }));
    world.cancel(id);
}

#[test]
fn a_finished_job_cannot_be_cancelled_again() {
    let mut world = World::new();
    let id = world.submit(JobKind::Backup, Script::Events(vec!["finished"]));
    assert_eq!(world.registry.cancel(id), Err(JobError::AlreadyFinished { id }));
}

#[test]
fn unknown_ids_are_rejected_everywhere() {
    let mut registry = JobRegistry::new();
    assert_eq!(registry.snapshot(99).unwrap_err(), JobError::NotFound(99));
    assert_eq!(registry.cancel(99), Err(JobError::NotFound(99)));
    assert_eq!(registry.pause(99), Err(JobError::NotFound(99)));
    assert_eq!(registry.resume(99), Err(JobError::NotFound(99)));
    assert!(registry.settle(99, 1, Ending::Completed).is_empty());
}

#[test]
fn ids_are_monotonic_and_never_reused() {
    let mut world = World::new();
    let a = world.submit(JobKind::Backup, Script::Events(vec!["finished"]));
    let b = world.submit(JobKind::Backup, Script::Events(vec!["finished"]));
    assert!(b > a, "ids must not go backwards");
    assert_eq!(world.registry.list().len(), 2, "finished jobs stay queryable");
}

#[test]
fn subscribers_see_the_state_changes() {
    let mut world = World::new();
    let id = world.submit(JobKind::Backup, Script::Events(vec!["finished"]));
    assert_eq!(
        world.states_of(id),
        vec![JobState::Queued, JobState::Running, JobState::Done(Outcome::Completed)],
        "job {id} update sequence"
    );
}

#[test]
fn progress_reaches_subscribers_rate_limited() {
    let mut run = JobRun::new(1, JobKind::Backup);
    let mut heard = Vec::new();
    for i in 0..200 {
        let step = run.step(RunInput::Event(progress(i), at_millis(i)));
        assert!(step.ending.is_none());
        heard.extend(step.updates);
    }
    let last = run.step(RunInput::Event(
        JobEvent::Finished(Ok(JobSummary::default())),
        at_millis(200),
    ));
    assert_eq!(last.ending, Some(Ending::Completed));
    heard.extend(last.updates);

    let progress = heard.len();
    assert!(progress >= 1, "at least one progress update must reach the UI");
    assert!(
        progress < 200,
        "200 events in well under a second must be throttled, got {progress}"
    );
    // The last one goes out, or the bar freezes short of the end.
    assert_eq!(
        heard.last(),
        Some(&JobUpdate::Progress {
            id: 1,
            kind: JobKind::Backup,
            current: 199,
            total: Some(200),
            phase: "archiving".to_string(),
        })
    );
}

#[test]
fn a_second_request_to_stop_a_job_is_refused() {
    let mut registry = JobRegistry::new();
    let (id, _) = registry.submit(JobKind::Backup);
    registry.cancel(id).unwrap();
    assert_eq!(
        registry.cancel(id),
        Err(JobError::IllegalTransition { id, from: "cancelling", to: "cancelling" })
    );
    // And a failure while it is being torn down is the cancellation.
    registry.settle(id, 1, Ending::Failed(EngineError::RepoCorrupt));
    assert_eq!(registry.snapshot(id).unwrap().state, JobState::Done(Outcome::Cancelled));
}

#[test]
fn a_reader_may_pass_a_waiting_writer() {
    let mut registry = JobRegistry::new();
    let (index, _) = registry.submit(JobKind::Index);
    let (backup, _) = registry.submit(JobKind::Backup);
    let (restore, effects) = registry.submit(JobKind::Restore);
    assert_eq!(registry.snapshot(index).unwrap().state, JobState::Running);
    assert_eq!(registry.snapshot(backup).unwrap().state, JobState::Queued);
    assert_eq!(registry.snapshot(restore).unwrap().state, JobState::Running);
    assert!(effects.iter().any(|e| matches!(e, Effect::Start { id, .. } if *id == restore)));
}

#[test]
fn admitting_again_changes_nothing() {
    let mut registry = JobRegistry::new();
    let (first, _) = registry.submit(JobKind::Backup);
    let (second, _) = registry.submit(JobKind::Prune);
    let mut effects = Vec::new();
    registry.pump(&mut effects);
    assert!(effects.is_empty(), "{effects:?}");
    assert_eq!(registry.snapshot(first).unwrap().state, JobState::Running);
    assert_eq!(registry.snapshot(second).unwrap().state, JobState::Queued);
}
