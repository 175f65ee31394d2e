//! The overall state, and the errors that cross the bus.

use backtrackd::engine::EngineError;
use backtrackd::jobs::JobError;
use backtrackd::service::error::DaemonError;
use backtrackd::service::health::{evaluate, HealthInputs, HealthState};
use backtrackd::service::introspect::{methods, signals, INTERFACE};
use backtrackd::time::{Span, Timestamp};

fn now() -> Timestamp {
    Timestamp::from_secs(1_000_000)
}

fn ago(seconds: u64) -> Option<Timestamp> {
    Some(now().minus(Span::from_secs(seconds)))
}

/// A machine that is working normally.
fn healthy() -> HealthInputs {
    HealthInputs {
        blocking_failure: false,
        paused_until: None,
        destination_reachable: true,
        offline_protection_active: false,
        last_success: ago(600),
        frequency: Some(Span::from_secs(3_600)),
        needs_attention: false,
    }
}

#[test]
fn a_working_machine_is_healthy_and_says_nothing() {
    assert_eq!(evaluate(&healthy(), now()), HealthState::Healthy);
}

#[test]
fn offline_with_the_safety_net_is_not_a_warning() {
    let inputs = HealthInputs {
        destination_reachable: false,
        offline_protection_active: true,
        last_success: ago(3_600),
        ..healthy()
    };
    assert_eq!(evaluate(&inputs, now()), HealthState::ProtectedLocally);
}

#[test]
fn offline_without_a_safety_net_goes_stale_normally() {
    let inputs = HealthInputs {
        destination_reachable: false,
        offline_protection_active: false,
        last_success: ago(48 * 3_600),
        ..healthy()
    };
    assert_eq!(evaluate(&inputs, now()), HealthState::AtRisk);
}

#[test]
fn the_safety_net_stops_excusing_things_after_a_day() {
    let inputs = HealthInputs {
        destination_reachable: false,
        offline_protection_active: true,
        last_success: ago(72 * 3_600),
        ..healthy()
    };
    assert_eq!(evaluate(&inputs, now()), HealthState::AtRisk);
}

#[test]
fn a_user_pause_is_never_a_warning() {
    let inputs = HealthInputs {
        paused_until: Some(now().plus(Span::from_secs(3_600))),
        last_success: ago(72 * 3_600),
        ..healthy()
    };
    assert_eq!(evaluate(&inputs, now()), HealthState::Paused);
}

#[test]
fn an_expired_pause_stops_applying() {
    let inputs =
        HealthInputs { paused_until: Some(now().minus(Span::from_secs(1))), ..healthy() };
    assert_eq!(
        evaluate(&inputs, now()),
        HealthState::Healthy,
        "a self-expiring pause must expire by itself"
    );
}

#[test]
fn a_blocking_failure_outranks_everything() {
    let inputs = HealthInputs {
        blocking_failure: true,
        paused_until: Some(now().plus(Span::from_secs(3_600))),
        destination_reachable: false,
        offline_protection_active: true,
        ..healthy()
    };
    assert_eq!(evaluate(&inputs, now()), HealthState::Broken);
}

#[test]
fn at_risk_is_earned_by_a_day_not_by_one_missed_run() {
    let recent = HealthInputs { last_success: ago(23 * 3_600), ..healthy() };
    assert_eq!(evaluate(&recent, now()), HealthState::Healthy);

    let old = HealthInputs { last_success: ago(25 * 3_600), ..healthy() };
    assert_eq!(evaluate(&old, now()), HealthState::AtRisk);

    let exactly = HealthInputs { last_success: ago(24 * 3_600), ..healthy() };
    assert_eq!(evaluate(&exactly, now()), HealthState::Healthy, "over a day, not a day");
}

#[test]
fn degraded_is_reported_only_when_nothing_worse_applies() {
    let inputs = HealthInputs { needs_attention: true, ..healthy() };
    assert_eq!(evaluate(&inputs, now()), HealthState::Degraded);

    let worse =
        HealthInputs { needs_attention: true, last_success: ago(48 * 3_600), ..healthy() };
    assert_eq!(evaluate(&worse, now()), HealthState::AtRisk);
}

#[test]
fn a_manual_schedule_is_never_late() {
    let inputs = HealthInputs {
        frequency: None,
        last_success: Some(Timestamp::from_secs(1_000_000 - 90 * 24 * 3_600)),
        ..healthy()
    };
    assert_eq!(
        evaluate(&inputs, now()),
        HealthState::Healthy,
        "manual-only backups cannot be overdue"
    );
}

#[test]
fn a_machine_that_has_never_backed_up_is_not_yet_at_risk() {
    let inputs = HealthInputs { last_success: None, ..healthy() };
    assert_eq!(
        evaluate(&inputs, now()),
        HealthState::Healthy,
        "a banner during the very first backup would be a lie"
    );
}

#[test]
fn wire_names_are_unique_and_match_the_document() {
    let names: Vec<_> = HealthState::all().iter().map(|s| s.as_str()).collect();
    let mut unique = names.clone();
    unique.sort_unstable();
    unique.dedup();
    assert_eq!(unique.len(), names.len(), "state names collide: {names:?}");
    assert!(names.contains(&"HEALTHY"));
    assert!(names.contains(&"PROTECTED_LOCALLY"));
    assert_eq!(HealthInputs::default().last_success, None);
}

/// One representative of every engine error.
fn every_engine_error() -> Vec<EngineError> {
    vec![
        EngineError::RepoUnreachable,
        EngineError::PassphraseMissing,
        EngineError::PassphraseWrong,
        EngineError::AuthFailed,
        EngineError::DestinationFull,
        EngineError::LocalDiskFull,
        EngineError::RepoCorrupt,
        EngineError::LockedByOther,
        EngineError::BorgMissing { needed: ">=1.2".into(), found: None },
        EngineError::BorgFailed { code: 2, stderr: "boom".into() },
        EngineError::Cancelled,
    ]
}

#[test]
fn every_engine_error_gets_a_distinct_bus_name() {
    let mut names = Vec::new();
    for e in every_engine_error() {
        let name = DaemonError::from_engine(&e, "why".to_string()).name();
        assert!(name.starts_with("org.backtrack.Error."), "{e:?} produced {name}");
        names.push(name);
    }
    let mut unique = names.clone();
    unique.sort();
    unique.dedup();
    assert_eq!(
        unique.len(),
        names.len(),
        "engine errors must not collapse onto one bus name: {names:?}"
    );
    assert_eq!(
        DaemonError::from_engine(&EngineError::Local("x".into()), "x".into()).name(),
        "org.backtrack.Error.RestoreFailed"
    );
}

#[test]
fn the_documented_names_are_exactly_these() {
    let name =
        DaemonError::from_engine(&EngineError::PassphraseMissing, "none stored".into()).name();
    assert_eq!(name, "org.backtrack.Error.PassphraseMissing");
}

#[test]
fn job_errors_map_onto_their_own_names() {
    let cases = [
        (JobError::NotFound(1), "org.backtrack.Error.NoSuchJob"),
        (JobError::NotPausable { kind: "backup" }, "org.backtrack.Error.NotPausable"),
        (JobError::AlreadyFinished { id: 1 }, "org.backtrack.Error.JobFinished"),
        (JobError::NotPaused { id: 1 }, "org.backtrack.Error.JobNotPaused"),
    ];
    for (error, expected) in cases {
        assert_eq!(DaemonError::from_job(&error).name(), expected);
        assert_eq!(DaemonError::from_job(&error).description(), error.message());
    }
}

#[test]
fn the_message_survives_the_crossing() {
    let e = DaemonError::from_engine(
        &EngineError::DestinationFull,
        "the backup destination is full".to_string(),
    );
    assert!(e.message().contains("full"), "expected the cause in: {}", e.message());
    assert_eq!(
        e.message(),
        "org.backtrack.Error.DestinationFull: the backup destination is full"
    );
    assert_eq!(e.clone(), e);
}

#[test]
fn every_method_from_the_architecture_document_is_present() {
    let documented = [
        "BackupNow",
        "Pause",
        "Resume",
        "GetStatus",
        "RestoreFiles",
        "PreviewFile",
        "CompareFile",
        "SearchFiles",
        "RestoreEverything",
        "Prune",
        "Verify",
        "Compact",
        "CancelJob",
        "PauseJob",
        "SetConfig",
        "GetConfig",
        "SetupRepo",
        "ImportRepo",
    ];
    let names: Vec<&str> = methods().iter().map(|(n, _, _)| *n).collect();
    for method in documented {
        assert!(names.contains(&method), "{method} is not exported. Have: {names:?}");
    }
    let mut sorted = names.clone();
    sorted.sort_unstable();
    assert_eq!(names, sorted);
    assert_eq!(names.len(), 30);
}

#[test]
fn every_signal_from_the_architecture_document_is_present() {
    let documented = ["BackupProgress", "RestoreProgress", "IndexingProgress", "StatusChanged"];
    let names: Vec<&str> = signals().iter().map(|(n, _)| *n).collect();
    for signal in documented {
        assert!(names.contains(&signal), "{signal} is not exported. Have: {names:?}");
    }
}

#[test]
fn the_interface_is_named_as_documented() {
    assert_eq!(INTERFACE, "org.backtrack.Daemon1");
}

#[test]
fn long_running_methods_return_a_job_id() {
    let table = methods();
    for method in [
        "BackupNow",
        "RestoreFiles",
        "RestoreEverything",
        "CompareFile",
        "Prune",
        "Verify",
        "Compact",
    ] {
        let (_, _, out) = table
            .iter()
            .find(|(n, _, _)| *n == method)
            .unwrap_or_else(|| panic!("{method} is in the snapshot"));
        assert_eq!(*out, "t", "{method} must return a job id");
    }
}
