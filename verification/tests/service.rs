//! What the daemon knows, what clients ask for, and what they hear.

use backtrackd::engine::EngineError;
use backtrackd::jobs::{Effect, JobKind, JobState, JobUpdate, Outcome};
use backtrackd::offline::{LocalRow, Mode};
use backtrackd::preflight::{Facts, Skip};
use backtrackd::reachability::Reach;
use backtrackd::restore::{
    already_carried_out, carry_out, direct, no_longer_prepared, prepare, preview,
    restore_failure, undo, Class, Counts, DirectOrder, Executed, FileFacts, PlanEntry,
    PrepareOrder, PrepareReport, RestoreError, RestorePlan, Restores, PHASE_COMPARING,
    PHASE_FETCHING, PHASE_RESTORING,
};
use backtrackd::service::config::{
    create_spec, effective_excludes, prune_policy, Compression, Config, Layout, Retention,
};
use backtrackd::service::error::DaemonError;
use backtrackd::service::health::HealthState;
use backtrackd::service::on_disk::OnDisk;
use backtrackd::service::requests::{
    adopt_repository, after_dating, begin_adopting, check_query, decision_for, execute_restore,
    get_restore_preview, kind_name, not_created, not_kept, not_stashed, search_files, spool_next,
    undo_restore, Decision, Hit, Kind, RepoNext, RepoStep, SEARCH_LIMIT, SpoolNext, SpoolReport, SpoolStep,
};
use backtrackd::service::shared::{
    OfflineGate, Plan, Protection, RuntimeState, Seen, Shared, Transition,
};
use backtrackd::service::signals::{percentage, Action, FanOut, Signal};
use backtrackd::service::state::RestorePolicy;
use backtrackd::time::{Span, Timestamp};

const NOW: i64 = 1_786_085_752;

fn now() -> Timestamp {
    Timestamp::from_secs(NOW)
}

fn later(secs: u64) -> Timestamp {
    now().plus(Span::from_secs(secs))
}

fn config() -> Config {
    Config {
        repository: Some("/mnt/repo".to_string()),
        include_paths: vec!["/home/k/src".to_string()],
        exclude: vec!["*.tmp".to_string()],
        interval: Some(Span::from_secs(3_600)),
        on_battery: false,
        on_metered: false,
        offline_enabled: true,
        offline_limit_gb: 5,
        retention: Retention { keep_hourly: 24, keep_daily: 7, keep_weekly: 4, keep_monthly: 6 },
        compression: Compression::Zstd,
    }
}

/// A configured daemon, connected and with its catalogue open.
fn configured() -> Shared {
    let mut shared = Shared::new(config(), Layout::in_dir("/data"));
    shared.has_engine = true;
    shared.has_catalogue = true;
    shared
}

fn facts() -> Facts {
    Facts {
        destination_reachable: Some(true),
        free_local_bytes: Some(50 * 1024 * 1024 * 1024),
        ..Facts::default()
    }
}

/// What the schedule does with these facts: the job, if one was queued.
fn scheduled(shared: &mut Shared, facts: &Facts) -> Option<u64> {
    match shared.start_scheduled_backup(facts).0 {
        Plan::Backup => Some(shared.submit_backup("h", &vec![], now()).unwrap().job),
        _ => None,
    }
}

#[test]
fn a_pause_survives_a_restart() {
    let mut first = configured();
    first.pause(NOW as u64 + 3_600, now()).unwrap();

    let mut second = configured();
    assert_eq!(second.schedule_input(now(), false, None).paused_until, None, "not yet loaded");
    second.adopt_state(first.persisted, now());
    assert_eq!(
        second.schedule_input(now(), false, None).paused_until,
        Some(later(3_600)),
        "the pause must come back with the daemon"
    );
}

#[test]
fn a_pause_that_expired_while_the_daemon_was_down_stays_expired() {
    let mut shared = configured();
    let state = RuntimeState {
        paused_until: Some(NOW as u64 - 60),
        ..RuntimeState::new()
    };
    shared.adopt_state(state, now());
    assert_eq!(shared.schedule_input(now(), false, None).paused_until, None);
}

#[test]
fn a_pause_needs_a_time_in_the_future() {
    let mut shared = configured();
    for until in [0, NOW as u64] {
        let error = shared.pause(until, now()).unwrap_err();
        assert_eq!(
            error,
            DaemonError::InvalidArgument("pause needs a time in the future".to_string())
        );
    }
    shared.pause(NOW as u64 + 1, now()).unwrap();
    assert!(shared.pause.is_paused(now()));
    shared.resume();
    assert!(!shared.pause.is_paused(now()));
    assert_eq!(shared.persisted.paused_until, None);
}

#[test]
fn a_scheduled_backup_advances_the_attempt_clock_and_persists_it() {
    let mut shared = configured();
    assert_eq!(shared.schedule_input(now(), false, None).last_attempt, None);
    let job = scheduled(&mut shared, &facts());
    assert!(job.is_some());
    assert_eq!(shared.schedule_input(now(), false, None).last_attempt, Some(now()));
    assert_eq!(shared.persisted.last_attempt, Some(NOW as u64));
}

#[test]
fn a_scheduled_backup_is_skipped_on_battery_without_burning_the_attempt() {
    let mut shared = configured();
    let on_battery = Facts { on_battery: Some(true), metered: Some(false), ..facts() };
    assert_eq!(
        scheduled(&mut shared, &on_battery),
        None,
        "a backup on battery is skipped, not attempted"
    );
    assert_eq!(
        shared.schedule_input(now(), false, None).last_attempt,
        None,
        "a skip must not advance the attempt clock"
    );
}

#[test]
fn plugging_in_lets_the_next_tick_through() {
    let mut shared = configured();
    let (plan, line) =
        shared.start_scheduled_backup(&Facts { on_battery: Some(true), ..facts() });
    assert_eq!(plan, Plan::Wait);
    assert_eq!(
        line.as_deref(),
        Some(
            "scheduled backup skipped: running on battery, and backups on battery are \
             switched off"
        )
    );
    // Said once.
    let (_, line) = shared.start_scheduled_backup(&Facts { on_battery: Some(true), ..facts() });
    assert_eq!(line, None);

    let (plan, line) =
        shared.start_scheduled_backup(&Facts { on_battery: Some(false), ..facts() });
    assert_eq!(plan, Plan::Backup);
    assert_eq!(
        line.as_deref(),
        Some("the condition that was holding backups up has cleared")
    );
}

#[test]
fn a_probe_that_cannot_tell_does_not_stop_a_backup() {
    let mut shared = configured();
    let unknown = Facts { destination_reachable: None, ..facts() };
    assert!(
        scheduled(&mut shared, &unknown).is_some(),
        "a destination nobody could ask about must not block the backup"
    );
}

#[test]
fn the_daemon_asks_the_probe_rather_than_deciding_for_itself() {
    let mut shared = configured();
    let seen = |reach| Seen {
        on_battery: Some(true),
        metered: None,
        reach,
        network_mounted: false,
        free_local_bytes: Some(7),
    };
    let facts = shared.preflight_facts(&seen(Reach::No), now());
    assert_eq!(facts.destination_reachable, Some(false));
    let facts = shared.preflight_facts(&seen(Reach::Unknown), now());
    assert_eq!(
        facts,
        Facts {
            paused: false,
            on_battery: Some(true),
            allow_on_battery: false,
            metered: None,
            allow_on_metered: false,
            destination_is_remote: false,
            destination_reachable: None,
            free_local_bytes: Some(7),
        }
    );
    shared.config.repository = Some("k@nas:backups".to_string());
    shared.pause(NOW as u64 + 5, now()).unwrap();
    let facts = shared.preflight_facts(&seen(Reach::Yes), now());
    assert!(facts.paused && facts.destination_is_remote);
}

#[test]
fn losing_the_destination_is_reported_and_announced() {
    let mut shared = configured();
    assert!(shared.destination_reachable);
    let (mut fan_out, first) = FanOut::start(&shared, now());
    assert_eq!(first, Signal::StatusChanged { state: HealthState::Healthy });

    assert_eq!(shared.destination_changed(false), Transition::WakeScheduler);
    assert!(!shared.destination_reachable);
    assert_eq!(
        fan_out.announce(&shared, now()),
        Some(Signal::StatusChanged { state: HealthState::ProtectedLocally }),
        "the signal fan-out has to hear about it, or the banner goes stale"
    );
    assert_eq!(fan_out.announce(&shared, now()), None);
    assert_eq!(shared.destination_changed(true), Transition::CatchUp);
}

#[test]
fn an_absent_destination_is_recorded_and_skipped() {
    let mut shared = configured();
    let away = Facts { destination_reachable: Some(false), ..facts() };
    let (plan, _) = shared.start_scheduled_backup(&away);
    assert_eq!(plan, Plan::Protect);
    assert!(
        !shared.destination_reachable,
        "the status line has to know the drive is not there"
    );
    assert_eq!(shared.last_skip, Some(Skip::Unreachable));
}

#[test]
fn a_manual_backup_ignores_every_preflight_gate() {
    let mut shared = configured();
    shared.start_scheduled_backup(&Facts {
        on_battery: Some(true),
        metered: Some(true),
        ..facts()
    });
    let queued = shared.submit_backup("h", &vec![], now()).expect("runs regardless");
    assert_eq!(queued.job, 1);
}

#[test]
fn back_up_now_overrides_a_pause_without_lifting_it() {
    let mut shared = configured();
    shared.pause(NOW as u64 + 3_600, now()).unwrap();
    shared.submit_backup("h", &vec![], now()).expect("runs despite the pause");
    assert!(
        shared.schedule_input(now(), false, None).paused_until.is_some(),
        "the pause is bypassed for this run, not cancelled"
    );
}

#[test]
fn the_schedule_reports_a_running_job_as_busy() {
    let mut shared = configured();
    assert!(!shared.schedule_input(now(), false, None).busy);
    let queued = shared.submit_backup("thinkpad", &vec![], now()).expect("submits");
    assert!(
        shared.schedule_input(now(), false, None).busy,
        "a second backup must not be queued behind the first"
    );
    assert_eq!(queued.spec.archive_name, "bt-thinkpad-20260807T065552Z");
    assert_eq!(queued.prune.keep_daily, 7);
    assert_eq!(shared.last_archive.as_deref(), Some("bt-thinkpad-20260807T065552Z"));
    assert_eq!(shared.active_job(), queued.job);
    assert!(queued.effects.iter().any(|e| matches!(e, Effect::Start { .. })));
}

#[test]
fn an_unconfigured_machine_reports_no_schedule() {
    let mut bare = config();
    bare.repository = None;
    let mut shared = Shared::new(bare, Layout::in_dir("/data"));
    let input = shared.schedule_input(now(), false, None);
    assert!(!input.configured);
    assert_eq!(
        input.interval,
        Some(Span::from_secs(3_600)),
        "the frequency is still hourly; it is the destination that is missing"
    );
    let error = shared.submit_backup("h", &vec![], now()).unwrap_err();
    assert_eq!(error.name(), "org.backtrack.Error.NotConfigured");
    shared.has_engine = true;
    let error = shared.submit_backup("h", &vec![], now()).unwrap_err();
    assert_eq!(error.description(), "the catalogue is not open");
}

#[test]
fn percentages_are_clamped_and_safe_at_zero() {
    assert_eq!(percentage(0, 0), 0, "no denominator must not divide by zero");
    assert_eq!(percentage(5, 0), 0);
    assert_eq!(percentage(1, 4), 25);
    assert_eq!(percentage(4, 4), 100);
    assert_eq!(percentage(9, 4), 100, "over-count must not exceed 100");
    assert_eq!(percentage(u64::MAX - 1, u64::MAX), 99);
}

#[test]
fn the_prune_policy_comes_from_the_configured_retention() {
    let mut config = config();
    config.retention.keep_daily = 14;
    let policy = prune_policy(&config);
    assert_eq!(policy.keep_hourly, 24);
    assert_eq!(policy.keep_daily, 14);
    assert_eq!(policy.keep_monthly, 6);
}

#[test]
fn the_create_spec_carries_the_configured_sources_and_exclusions() {
    let mut config = config();
    config.include_paths = vec!["/home/k/Documents".to_string()];
    let spec = create_spec(&config, &Layout::in_dir("/data"), "a".to_string(), now());
    assert_eq!(spec.sources, config.include_paths);
    for exclusion in &config.exclude {
        assert!(
            spec.excludes.contains(exclusion),
            "the user's exclusion {exclusion} reached the engine"
        );
    }
    assert!(spec.paths.is_empty(), "an ordinary backup lets borg walk the sources");
    assert!(spec.one_file_system, "crossing filesystems would drag in mounted media");
}

#[test]
fn the_volatile_parts_of_the_data_directory_are_never_backed_up() {
    let excludes = effective_excludes(&config(), &Layout::in_dir("/data"));
    assert_eq!(
        excludes,
        vec![
            "*.tmp",
            "pp:/data/spool",
            "pp:/data/snapshots",
            "pp:/data/cache",
            "pp:/data/staging",
            "pp:/data/replaced",
            "pp:/data/log",
            "/data/index.db*",
        ]
    );
}

#[test]
fn the_users_settings_are_still_backed_up() {
    let layout = Layout::in_dir("/data");
    let excludes = effective_excludes(&config(), &layout);
    for keep in [&layout.config_path, &layout.state_path] {
        assert!(!excludes.iter().any(|e| e.contains(keep.as_str())), "{keep} should be kept");
    }
}

#[test]
fn a_source_inside_the_data_directory_is_still_backed_up() {
    let excludes = effective_excludes(&config(), &Layout::in_dir("/data"));
    assert!(!excludes.contains(&"pp:/data".to_string()));
    assert!(!excludes.contains(&"/data*".to_string()));
}

#[test]
fn compression_choices_reach_the_engine() {
    let mut config = config();
    config.compression = Compression::Lz4;
    let spec = create_spec(&config, &Layout::in_dir("/data"), "a".to_string(), now());
    assert_eq!(spec.compression, Compression::Lz4);
}

#[test]
fn index_kinds_have_wire_names() {
    assert_eq!(kind_name(Kind::File), "file");
    assert_eq!(kind_name(Kind::Dir), "dir");
    assert_eq!(kind_name(Kind::Symlink), "symlink");
    assert_eq!(kind_name(Kind::Other), "other");
}

#[test]
fn local_protection_runs_in_the_mode_that_was_found() {
    let mut shared = configured();
    assert_eq!(shared.offline_gate(), Ok(OfflineGate::Detect));
    shared.remember_mode(Mode::Spool);
    assert_eq!(shared.offline_gate(), Ok(OfflineGate::Ready(Mode::Spool)));

    let queued = shared.start_offline_protection(&Mode::Spool, now());
    assert_eq!(
        queued.protection,
        Protection::Spool { compression: Compression::Zstd, cap_bytes: 5 * 1024 * 1024 * 1024 }
    );
    assert_eq!(queued.walk.never, vec!["/data/spool", "/data/snapshots"]);
    assert!(!queued.walk.include_dirs);
    assert_eq!(shared.persisted.last_attempt, Some(NOW as u64));
    assert_eq!(
        shared.jobs.snapshot(queued.job).unwrap().kind,
        JobKind::Offline
    );

    shared.has_catalogue = false;
    assert!(shared.offline_gate().is_err());
    shared.config.include_paths = vec![];
    assert_eq!(shared.offline_gate(), Ok(OfflineGate::Nothing));
    shared.config.offline_enabled = false;
    assert_eq!(shared.offline_gate(), Ok(OfflineGate::Nothing));
}

#[test]
fn a_safety_net_that_does_not_work_is_something_to_tell() {
    let mut shared = configured();
    shared.destination_changed(false);
    assert_eq!(shared.health(now()), HealthState::ProtectedLocally);
    assert!(shared.protection_started(true));
    assert!(!shared.offline_protection_active());
    assert_eq!(shared.health(now()), HealthState::Healthy);
    assert!(!shared.protection_started(false));
    assert!(shared.offline_protection_active());
}

#[test]
fn status_reports_what_is_held_on_this_computer() {
    let mut shared = configured();
    let row = |seq, expirable_at| LocalRow {
        seq,
        name: format!("bt-local-{seq}"),
        is_fs_snapshot: false,
        expirable_at,
    };
    let held = vec![row(1, Some(5)), row(2, None)];
    let before = shared.local_protection(&held, 4_096);
    assert_eq!(before.mode, "spool");
    assert_eq!((before.bytes, before.snapshots, before.expirable), (4_096, 2, 1));

    shared.seed_last_backup(&vec![5, NOW - 60, 17]);
    shared.persisted.last_attempt = Some(NOW as u64 - 600);
    let status = shared.get_status(shared.config.interval, before, now());
    assert_eq!(status.state, "HEALTHY");
    assert_eq!(status.last_backup, NOW as u64 - 60);
    assert_eq!(status.next_backup, NOW as u64 + 3_000);
    assert_eq!(status.spool_bytes, 4_096);
    assert_eq!(status.active_job, 0);
    assert!(status.configured);

    shared.config.offline_enabled = false;
    shared.has_catalogue = false;
    let off = shared.local_protection(&held, 4_096);
    assert_eq!((off.mode.as_str(), off.bytes, off.snapshots), ("off", 0, 0));

    // A pause is shown, and nothing is due while it lasts.
    shared.pause(NOW as u64 + 50, now()).unwrap();
    let local = shared.local_protection(&vec![], 0);
    let status = shared.get_status(shared.config.interval, local, now());
    assert_eq!((status.next_backup, status.paused_until), (0, NOW as u64 + 50));
    assert_eq!(status.state, "PAUSED");
}

#[test]
fn seeding_keeps_what_is_known_when_the_catalogue_is_empty() {
    let mut shared = configured();
    shared.seed_last_backup(&vec![]);
    assert_eq!(shared.last_backup, None);
    shared.seed_last_backup(&vec![0, -7]);
    assert_eq!(shared.last_backup, None);
}

#[test]
fn a_destination_that_is_away_is_not_reconciled_against() {
    let mut shared = configured();
    assert!(shared.reconcile_catalogue(Reach::No).is_none());
    let (job, _) = shared.reconcile_catalogue(Reach::Unknown).unwrap();
    assert_eq!(shared.jobs.snapshot(job).unwrap().kind, JobKind::Index);
    shared.has_engine = false;
    assert!(shared.reconcile_catalogue(Reach::Yes).is_none());
}

#[test]
fn compaction_has_a_daily_clock_of_its_own() {
    let mut shared = configured();
    assert!(shared.maybe_compact(now()).is_none());
    assert_eq!(shared.persisted.last_compact, Some(NOW as u64), "the clock is started");
    assert!(shared.maybe_compact(later(86_399)).is_none());
    let (job, _) = shared.maybe_compact(later(86_400)).unwrap();
    assert_eq!(shared.jobs.snapshot(job).unwrap().kind, JobKind::Compact);
    assert_eq!(shared.persisted.last_compact, Some(NOW as u64 + 86_400));
}

#[test]
fn new_sources_are_a_new_question() {
    let mut shared = configured();
    shared.remember_mode(Mode::Spool);
    let changed = shared.set_config(config());
    assert!(!changed.repository && !changed.sources);
    assert_eq!(shared.offline_mode, Some(Mode::Spool));

    let mut edited = config();
    edited.include_paths = vec!["/elsewhere".to_string()];
    edited.repository = None;
    let changed = shared.set_config(edited);
    assert!(changed.repository && changed.sources);
    assert_eq!(shared.offline_mode, None);
}

fn ended(job: u64, kind: JobKind, state: JobState) -> JobUpdate {
    JobUpdate::State { id: job, kind, state }
}

#[test]
fn a_client_drives_a_backup_and_hears_progress_then_healthy() {
    let mut shared = configured();
    shared.blocking_failure = true;
    assert_eq!(shared.health(now()).as_str(), "BROKEN");
    let (mut fan_out, joined) = FanOut::start(&shared, now());
    assert_eq!(joined, Signal::StatusChanged { state: HealthState::Broken });

    let actions = fan_out.hear(
        &mut shared,
        JobUpdate::Progress {
            id: 1,
            kind: JobKind::Backup,
            current: 3,
            total: None,
            phase: "archiving".to_string(),
        },
        false,
        None,
        now(),
    );
    assert_eq!(
        actions,
        vec![Action::Emit(Signal::BackupProgress {
            job: 1,
            phase: "archiving".to_string(),
            current: 3,
            total: 0,
        })]
    );

    let done = ended(1, JobKind::Backup, JobState::Done(Outcome::Completed));
    let actions = fan_out.hear(&mut shared, done, false, None, now());
    assert_eq!(
        actions,
        vec![
            Action::Emit(Signal::JobFinished {
                job: 1,
                kind: JobKind::Backup,
                outcome: "completed",
            }),
            Action::AfterCatchUp,
            Action::WakeScheduler,
            Action::Announce,
        ]
    );
    assert_eq!(
        fan_out.announce(&shared, now()),
        Some(Signal::StatusChanged { state: HealthState::Healthy }),
        "a successful backup must clear the banner"
    );
    assert_eq!(shared.last_backup, Some(now()));
}

#[test]
fn a_local_backup_counts_but_dates_nothing() {
    let mut shared = configured();
    let (fan_out, _) = FanOut::start(&shared, now());
    let done = ended(1, JobKind::Offline, JobState::Done(Outcome::Completed));
    let actions = fan_out.hear(&mut shared, done, false, Some(true), now());
    assert!(!actions.contains(&Action::AfterCatchUp));
    assert_eq!(shared.last_backup, Some(now()));
    assert!(shared.offline_degraded);
    assert_eq!(shared.health(now()), HealthState::Degraded);
}

#[test]
fn only_a_success_lowers_the_flag() {
    let mut shared = configured();
    let (fan_out, _) = FanOut::start(&shared, now());
    let failed = |error| ended(1, JobKind::Backup, JobState::Failed(error));
    fan_out.hear(&mut shared, failed(EngineError::PassphraseWrong), true, None, now());
    assert!(shared.blocking_failure);
    fan_out.hear(&mut shared, failed(EngineError::LockedByOther), false, None, now());
    assert!(shared.blocking_failure, "another failure does not dismiss the banner");
    let pruned = ended(1, JobKind::Prune, JobState::Done(Outcome::Completed));
    fan_out.hear(&mut shared, pruned, false, None, now());
    assert!(shared.blocking_failure, "nor does housekeeping");
    let backup = ended(1, JobKind::Backup, JobState::Done(Outcome::Completed));
    fan_out.hear(&mut shared, backup, false, None, now());
    assert!(!shared.blocking_failure);
}

#[test]
fn each_kind_of_job_has_its_own_progress() {
    let mut shared = configured();
    let (fan_out, _) = FanOut::start(&shared, now());
    let mut hear = |kind| {
        let update = JobUpdate::Progress {
            id: 4,
            kind,
            current: 1,
            total: Some(4),
            phase: "a1".to_string(),
        };
        fan_out.hear(&mut shared, update, false, None, now())
    };
    assert_eq!(
        hear(JobKind::Restore),
        vec![Action::Emit(Signal::RestoreProgress { job: 4, bytes: 1, total: 4 })]
    );
    assert_eq!(
        hear(JobKind::Index),
        vec![Action::Emit(Signal::IndexingProgress { archive: "a1".to_string(), pct: 25 })]
    );
    assert!(hear(JobKind::Prune).is_empty());
    let running = ended(4, JobKind::Index, JobState::Running);
    assert_eq!(fan_out.hear(&mut shared, running, false, None, now()), vec![Action::Announce]);
}

// ── Restores ──

fn plan(staging: &str) -> RestorePlan {
    let facts = |size| Some(FileFacts { size, mtime: 9 });
    let entry = |path: &str, class, backup, disk| PlanEntry {
        path: path.to_string(),
        class,
        backup,
        disk,
        backup_kind: "file".to_string(),
        disk_kind: "folder".to_string(),
    };
    RestorePlan {
        archive: "a1".to_string(),
        dest: "/".to_string(),
        staging: staging.to_string(),
        counts: Counts {
            identical: 1,
            conflicts: 1,
            disk_newer: 1,
            only_in_backup: 1,
            only_on_disk: 0,
            type_changed: 1,
        },
        entries: vec![
            entry("same", Class::Identical, facts(1), facts(1)),
            entry("edited", Class::Conflict { disk_newer: true }, facts(2), facts(3)),
            entry("new", Class::OnlyInBackup, facts(4), None),
            entry("turned", Class::TypeChanged, facts(5), None),
        ],
        refused: vec![("../x".to_string(), "outside".to_string())],
        notes: vec!["a link was kept".to_string()],
    }
}

#[test]
fn a_client_works_out_a_restore_looks_at_it_carries_it_out_and_undoes_it() {
    let mut restores: Restores<&str> = Restores::new();
    assert!(get_restore_preview(&restores, 7).is_err());

    // Worked out.
    assert_eq!(prepare(PrepareReport::StagingMade(Ok(()))), PrepareOrder::Extract);
    assert_eq!(prepare(PrepareReport::Opened(Ok(()))), PrepareOrder::Fetch);
    assert_eq!(
        prepare(PrepareReport::Fetched { result: Ok(()), cancelled: false }),
        PrepareOrder::Compare
    );
    let PrepareOrder::Keep(worked_out) = prepare(PrepareReport::Compared(Ok(plan("/s/7"))))
    else {
        panic!("a plan is kept");
    };
    restores.keep(7, worked_out);

    // Looked at.
    let shown = get_restore_preview(&restores, 7).unwrap();
    assert_eq!(shown.entries.len(), 2, "only what needs an answer crosses");
    assert_eq!(shown.entries[0].path, "edited");
    assert_eq!(shown.entries[0].class, "conflict");
    assert!(shown.entries[0].disk_newer);
    assert_eq!((shown.entries[0].backup_size, shown.entries[0].disk_size), (2, 3));
    assert_eq!(shown.entries[1].class, "type-changed");
    assert_eq!((shown.entries[1].disk_size, shown.entries[1].disk_mtime), (0, 0));
    assert_eq!(shown.refused, vec![("../x".to_string(), "outside".to_string())]);
    assert_eq!(shown.notes, vec!["a link was kept".to_string()]);
    assert_eq!(shown.entries[1].backup_kind, "file");
    assert_eq!(shown.entries[1].disk_kind, "folder");
    assert_eq!((shown.identical, shown.type_changed), (1, 1));
    assert_eq!(preview(&plan("/s/7")), shown);

    // Answered and carried out.
    let answers = vec![
        ("edited".to_string(), "keep-both".to_string()),
        ("edited".to_string(), "skip".to_string()),
    ];
    let decisions = execute_restore(&restores, 7, "replace", answers).unwrap();
    assert_eq!(decisions.for_path("edited"), Decision::Skip, "the later answer counts");
    assert_eq!(decisions.for_path("other"), Decision::Replace);
    let worked_out = plan("/s/7");
    assert_eq!(decisions.for_entry(&worked_out.entries[1]), Decision::Skip);
    assert_eq!(decisions.for_entry(&worked_out.entries[2]), Decision::Replace);
    assert_eq!(
        decisions.for_entry(&worked_out.entries[3]),
        Decision::Skip,
        "a change of type is never covered by the blanket answer"
    );
    let named = vec![("turned".to_string(), "replace".to_string())];
    let named = execute_restore(&restores, 7, "skip", named).unwrap();
    assert_eq!(named.for_entry(&worked_out.entries[3]), Decision::Replace);
    let (log, result) =
        carry_out(Executed::Ran { restored: 1, failures: vec![], log: "moves" });
    assert!(result.is_ok());
    assert!(undo_restore(&restores, 7).is_err(), "nothing recorded yet");
    restores.record(7, log.unwrap());
    assert_eq!(restores.clear_staging(7), Some("/s/7".to_string()));

    // Undone: the log outlives the staging directory.
    assert_eq!(undo_restore(&restores, 7), Ok(()));
    assert_eq!(restores.log(7), Some(&"moves"));
    assert!(undo(Some(0)).is_ok());

    assert!(restores.holds(7));
    assert_eq!(restores.discard(7), Some("/s/7".to_string()));
    assert!(!restores.holds(7));
    assert_eq!(restores.discard(7), None);
    restores.record(7, "late");
    assert_eq!(restores.log(7), None);
}

#[test]
fn a_restore_that_goes_wrong_says_how() {
    let local = |words: &str| EngineError::Local(words.to_string());
    assert_eq!(
        prepare(PrepareReport::StagingMade(Err("read-only".to_string()))),
        PrepareOrder::Abandon(local("read-only"))
    );
    assert_eq!(
        prepare(PrepareReport::Opened(Err(EngineError::RepoCorrupt))),
        PrepareOrder::Abandon(EngineError::RepoCorrupt)
    );
    assert_eq!(
        prepare(PrepareReport::Fetched { result: Ok(()), cancelled: true }),
        PrepareOrder::Abandon(EngineError::Cancelled)
    );
    assert_eq!(
        prepare(PrepareReport::Compared(Err("gone".to_string()))),
        PrepareOrder::Abandon(local("gone"))
    );
    assert_eq!(restore_failure(RestoreError::NotEnoughSpace), EngineError::LocalDiskFull);
    assert_eq!(restore_failure(RestoreError::Other("x".to_string())), local("x"));

    let failures = vec![("f".to_string(), "not permitted".to_string())];
    let (log, result) = carry_out(Executed::Ran { restored: 0, failures, log: 1 });
    assert_eq!(log, Some(1));
    assert_eq!(result, Err(local("nothing could be restored: not permitted")));
    let failures = vec![("f".to_string(), "not permitted".to_string())];
    let (_, result) = carry_out(Executed::Ran { restored: 5, failures, log: 1 });
    assert!(result.is_ok(), "some failures do not make a failed restore");
    let (log, result) =
        carry_out::<u8>(Executed::NotStarted(RestoreError::NotEnoughSpace));
    assert_eq!((log, result), (None, Err(EngineError::LocalDiskFull)));

    assert_eq!(undo(None), Err(local("there is nothing recorded to undo")));
    assert_eq!(undo(Some(12)), Err(local("12 of the restored files could not be put back")));
    assert_eq!(
        no_longer_prepared(),
        local("that restore is no longer prepared; work it out again")
    );
    assert_eq!(already_carried_out(), local("that restore has already been carried out"));
}

#[test]
fn a_restore_that_asks_nobody_carries_its_plan_out_at_once() {
    let order: DirectOrder<u8> = direct(PrepareReport::Compared(Ok(plan("/s/1"))));
    assert_eq!(order, DirectOrder::Execute(plan("/s/1")));
    let order: DirectOrder<u8> = direct(PrepareReport::Opened(Ok(())));
    assert_eq!(order, DirectOrder::Prepare(PrepareOrder::Fetch));
    let order: DirectOrder<u8> = direct(PrepareReport::Opened(Err(EngineError::AuthFailed)));
    assert_eq!(
        order,
        DirectOrder::Finish { log: None, result: Err(EngineError::AuthFailed) }
    );
    assert_eq!(
        (PHASE_FETCHING, PHASE_COMPARING, PHASE_RESTORING),
        ("fetching", "comparing", "restoring")
    );
}

#[test]
fn a_restore_request_is_checked_before_there_is_a_job() {
    let mut shared = configured();
    let one = vec!["home/a".to_string()];
    let (pending, decision) = shared.restore_files("a1", &one, "/", "keep-both").unwrap();
    assert_eq!(pending.paths, one);
    assert!(!pending.into_dest);
    assert_eq!(decision, Decision::KeepBoth);

    let error = shared.restore_files("a1", &vec![], "/", "keep-both").unwrap_err();
    assert_eq!(error.description(), "restore needs at least one path");
    let error = shared.restore_files("a1", &vec![], "/", "clobber").unwrap_err();
    assert!(error.description().starts_with("unknown restore policy \"clobber\""));

    assert!(shared.restore_into("a1", &one, "/new").unwrap().into_dest);
    let two = vec!["a".to_string(), "b".to_string()];
    assert_eq!(
        shared.restore_into("a1", &two, "/new").unwrap_err().description(),
        "RestoreInto takes exactly one path; got 2"
    );

    let (job, staging, _) = shared.submit_restore();
    assert_eq!(staging, format!("/data/staging/{job}"));

    assert!(shared.submit(JobKind::Prune).is_ok());
    assert!(shared.restore_everything("ask").is_ok());
    assert_eq!(
        shared.restore_everything("clobber").unwrap_err().name(),
        "org.backtrack.Error.InvalidArgument"
    );
    shared.has_engine = false;
    assert!(shared.submit(JobKind::Prune).is_err());
    assert!(shared.restore_everything("ask").is_err());
    assert!(shared.restore_files("a1", &one, "/", "ask").is_err());
}

#[test]
fn answers_that_are_no_decisions_are_refused() {
    let mut restores: Restores<u8> = Restores::new();
    assert_eq!(
        execute_restore(&restores, 3, "replace", vec![]),
        Err(DaemonError::NoSuchJob("no restore is prepared under job 3".to_string()))
    );
    restores.keep(3, plan("/s/3"));
    assert_eq!(
        execute_restore(&restores, 3, "maybe", vec![]),
        Err(DaemonError::InvalidArgument(
            "unknown decision \"maybe\"; expected one of replace, keep-both, skip".to_string()
        ))
    );
    let answers = vec![
        ("a".to_string(), "skip".to_string()),
        ("b\"c".to_string(), "eh".to_string()),
    ];
    assert_eq!(
        execute_restore(&restores, 3, "skip", answers),
        Err(DaemonError::InvalidArgument(
            "unknown decision \"eh\" for \"b\\\"c\"".to_string()
        ))
    );
    assert_eq!(
        undo_restore(&restores, 3).unwrap_err().description(),
        "job 3 has nothing recorded to undo"
    );
}

#[test]
fn with_nobody_to_ask_conflicts_are_left_alone() {
    assert_eq!(decision_for(RestorePolicy::Ask), Decision::Skip);
    assert_eq!(decision_for(RestorePolicy::SkipIdentical), Decision::Skip);
    assert_eq!(decision_for(RestorePolicy::Replace), Decision::Replace);
    assert_eq!(decision_for(RestorePolicy::KeepBoth), Decision::KeepBoth);
}

// ── Repositories ──

#[test]
fn settings_are_written_only_once_the_repository_has_answered() {
    let steps = |existing| {
        let mut steps = vec![begin_adopting(existing)];
        loop {
            match adopt_repository(existing, *steps.last().unwrap(), true) {
                RepoNext::Do(step) => steps.push(step),
                RepoNext::Done => return steps,
                RepoNext::Fail => panic!("nothing failed"),
            }
        }
    };
    assert_eq!(
        steps(false),
        vec![RepoStep::StoreSecret, RepoStep::Connect, RepoStep::Initialise, RepoStep::Save]
    );
    assert_eq!(
        steps(true),
        vec![
            RepoStep::Try,
            RepoStep::ReadInfo,
            RepoStep::StoreSecret,
            RepoStep::Connect,
            RepoStep::Save,
            RepoStep::AdoptCatalogue,
        ]
    );
    let mut shared = Shared::new(config(), Layout::in_dir("/data"));
    shared.use_repository("/mnt/other");
    assert_eq!(shared.config.repository.as_deref(), Some("/mnt/other"));
    assert!(shared.has_engine);
}

#[test]
fn a_wrong_passphrase_ends_an_import_before_anything_is_written() {
    assert_eq!(begin_adopting(true), RepoStep::Try);
    assert_eq!(
        adopt_repository(true, RepoStep::Try, true),
        RepoNext::Do(RepoStep::ReadInfo)
    );
    assert_eq!(adopt_repository(true, RepoStep::ReadInfo, false), RepoNext::Fail);
    assert_eq!(
        adopt_repository(true, RepoStep::ReadInfo, true),
        RepoNext::Do(RepoStep::StoreSecret)
    );
}

#[test]
fn the_spool_is_made_on_first_use() {
    let mut shared = configured();
    assert_eq!(shared.spool_engine(true), SpoolNext::Ready);
    assert_eq!(shared.spool_engine(false), SpoolNext::Do(SpoolStep::MakeDir));
    shared.config.repository = None;
    assert_eq!(
        shared.spool_engine(false),
        SpoolNext::Fail(DaemonError::NotConfigured("no destination is configured".to_string()))
    );
    let failed = || SpoolReport::Failed("no space".to_string());
    assert_eq!(
        spool_next(SpoolStep::MakeDir, failed()),
        SpoolNext::Fail(DaemonError::LocalDiskFull(
            "cannot create the spool: no space".to_string()
        ))
    );
    assert_eq!(
        spool_next(SpoolStep::Look, SpoolReport::Missing),
        SpoolNext::Do(SpoolStep::Initialise)
    );
    assert_eq!(spool_next(SpoolStep::Look, SpoolReport::Done), SpoolNext::Ready);
    assert_eq!(spool_next(SpoolStep::Initialise, failed()), SpoolNext::EngineFailed);
    assert_eq!(spool_next(SpoolStep::Initialise, SpoolReport::Done), SpoolNext::Ready);
}

#[test]
fn dating_the_local_snapshots_comes_before_sweeping_them() {
    assert_eq!(after_dating(Ok(0)), (None, true));
    let (line, sweep) = after_dating(Ok(2));
    assert!(sweep);
    assert_eq!(
        line.as_deref(),
        Some("the destination has caught up; local snapshots will expire in 30 days")
    );
    let (line, sweep) = after_dating(Err("locked".to_string()));
    assert!(!sweep);
    assert_eq!(line.as_deref(), Some("could not date the local snapshots: locked"));
    assert_eq!(
        not_created("/new", "denied").description(),
        "/new could not be created: denied"
    );
    assert_eq!(
        not_kept("that").description(),
        "the stash is not keeping that"
    );
    assert_eq!(
        not_stashed("a\"b").description(),
        "the stash is not keeping \"a\\\"b\""
    );
}

// ── Search ──

fn hit(name: &str) -> Hit {
    Hit {
        path: format!("home/{name}"),
        name: name.to_string(),
        kind: Kind::File,
        first_seq: 1,
        last_seq: 2,
        first_ts: 3,
        last_ts: 4,
        version_count: -1,
        size: 17,
    }
}

#[test]
fn search_puts_what_is_gone_from_the_computer_first() {
    let hits = vec![hit("keeper-note.txt"), hit("lost-note.txt"), hit("far-note.txt")];
    let answers = vec![OnDisk::Present, OnDisk::Absent, OnDisk::Unknown];
    let shown = search_files(&hits, &answers);
    let names: Vec<&str> = shown.iter().map(|h| h.name.as_str()).collect();
    assert_eq!(names, vec!["lost-note.txt", "keeper-note.txt", "far-note.txt"]);
    assert!(shown[0].gone_from_disk, "deleted from the computer");
    assert!(!shown[1].gone_from_disk, "still on the computer");
    assert!(!shown[2].gone_from_disk, "nobody looked");
    assert_eq!(shown[0].versions, 0);
    assert_eq!(shown[0].size, 17);
    assert_eq!(shown[0].kind, "file");
}

#[test]
fn search_refuses_a_one_character_query_and_caps_what_it_returns() {
    let many = SEARCH_LIMIT + 50;
    let hits: Vec<Hit> = (0..many).map(|i| hit(&format!("plentiful-{i}.txt"))).collect();
    let answers = vec![OnDisk::Present; many];
    let shown = search_files(&hits, &answers);
    assert_eq!(shown.len(), SEARCH_LIMIT, "capped, not merely large");
    let mut gone = vec![OnDisk::Absent; many];
    gone[0] = OnDisk::Present;
    let shown = search_files(&hits, &gone);
    assert_eq!(shown.len(), SEARCH_LIMIT);
    assert_eq!(shown[0].name, "plentiful-1.txt");

    assert!(check_query("p").is_err(), "a one-character query is refused");
    assert!(check_query("  p  ").is_err(), "trimmed before it is measured");
    assert_eq!(check_query(" pl ").unwrap(), "pl");
}
