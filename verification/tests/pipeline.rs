//! Backups, from the archive to the catalogue.

use backtrackd::calendar::iso8601_basic;
use backtrackd::engine::{EngineError, JobEvent, JobSummary};
use backtrackd::offline::LocalArchive;
use backtrackd::pipeline::backup::{
    drive, indexing, joined, BackupOrder, BackupReport, BackupRun, DriveInput, DriveStep,
    PHASE_ARCHIVING, PHASE_CATALOGUING, PHASE_PRUNING,
};
use backtrackd::pipeline::catalogue::{
    archive_row, left_after_newest, newest, BatchedItems, CatchUp, CatchUpInput, CatchUpOrder,
    Held, Ingest, IngestInput, IngestOrder, Pending, INGEST_BATCH,
};
use backtrackd::pipeline::local::{
    add_up, evicted, expired, expiry_rows, place_sources, relocate, rows_of, snapshot_sources,
    ArchiveRow, OfflineHandle, OfflineOrder, OfflinePlan, OfflineReport, OfflineRun,
    SnapshotOrder, SnapshotPlan, SnapshotReport, SnapshotRun,
};
use backtrackd::pipeline::naming::{
    archive_name, hostname, iso8601_basic_at, next_archive_name, next_free_name, next_local_name,
    sanitise_hostname,
};
use backtrackd::service::config::{Compression, CreateSpec};
use backtrackd::service::shared::WalkSpec;
use backtrackd::time::{Span, Timestamp};

fn at(secs: i64) -> Timestamp {
    Timestamp::from_secs(secs)
}

fn wrote(name: &str) -> Result<JobSummary, EngineError> {
    Ok(JobSummary { archive_id: Some(name.to_string()) })
}

fn finish(order: BackupOrder) -> Result<JobSummary, EngineError> {
    match order {
        BackupOrder::Finish(result) => result,
        other => panic!("not over: {other:?}"),
    }
}

#[test]
fn a_backup_creates_an_archive_and_catalogues_it() {
    let (run, order) = BackupRun::start(false);
    assert_eq!(order, BackupOrder::Archive);
    let (run, order) =
        run.step(BackupReport::Archived { result: wrote("a"), cancelled: false });
    assert_eq!(order, BackupOrder::Catalogue);
    let (_, order) = run.step(BackupReport::Catalogued { result: Ok(2), cancelled: false });
    assert_eq!(finish(order), wrote("a"));
    // The archive is dated when the backup was taken.
    assert_eq!(
        archive_row("bt-host-20260807T065552Z", at(1_000)),
        ("bt-host-20260807T065552Z".to_string(), 1_000)
    );
}

#[test]
fn the_phases_are_reported_in_order_under_one_job() {
    let step = drive(
        PHASE_ARCHIVING,
        DriveInput::Event(JobEvent::Progress {
            current: 1,
            total: Some(2),
            phase: "borg's own name for it".to_string(),
        }),
    );
    assert_eq!(
        step,
        DriveStep::Forward(JobEvent::Progress {
            current: 1,
            total: Some(2),
            phase: PHASE_ARCHIVING.to_string(),
        })
    );
    assert_eq!(
        drive(PHASE_ARCHIVING, DriveInput::Event(JobEvent::Finished(wrote("a")))),
        DriveStep::Over(wrote("a"))
    );
    // Enough items to cross a batch boundary, so cataloguing reports progress.
    let (mut run, mut order) = Ingest::<u32>::of_new_archive();
    let mut phases = Vec::new();
    let mut items = (0..INGEST_BATCH as u32 + 1).collect::<Vec<u32>>().into_iter();
    let mut batches = Vec::new();
    loop {
        let input = match order {
            IngestOrder::Record => IngestInput::Recorded(Ok(1)),
            IngestOrder::Open(_) => IngestInput::Opened(Ok(())),
            IngestOrder::Read => match items.next() {
                Some(item) => IngestInput::Item(Ok(item)),
                None => IngestInput::Ended { cancelled: false },
            },
            IngestOrder::Send(batch) => {
                batches.push(batch);
                IngestInput::Sent { accepted: true, cancelled: false }
            }
            IngestOrder::Report(event) => {
                if let JobEvent::Progress { phase, current, .. } = event {
                    assert_eq!(current, INGEST_BATCH as u64);
                    phases.push(phase);
                }
                IngestInput::Reported { cancelled: false }
            }
            IngestOrder::Close(last) => {
                batches.push(last.expect("a whole listing"));
                IngestInput::Written { writer: Ok(Ok(INGEST_BATCH + 1)), cancelled: false }
            }
            IngestOrder::Finish(result) => {
                assert_eq!(result, Ok(INGEST_BATCH + 1));
                break;
            }
        };
        (run, order) = run.step(input);
    }
    assert_eq!(phases, vec![PHASE_CATALOGUING]);
    let all: Vec<u32> = batches.concat();
    assert_eq!(all, (0..INGEST_BATCH as u32 + 1).collect::<Vec<u32>>());
}

#[test]
fn pruning_removes_the_archive_from_the_repository_and_the_catalogue_together() {
    let (run, _) = BackupRun::start(true);
    let (run, _) = run.step(BackupReport::Archived { result: wrote("a"), cancelled: false });
    let (run, order) = run.step(BackupReport::Catalogued { result: Ok(1), cancelled: false });
    assert_eq!(order, BackupOrder::Prune);
    let (run, order) = run.step(BackupReport::Pruned { result: Ok(()), blocking: false });
    assert_eq!(order, BackupOrder::Reconcile, "the catalogue follows the repository");
    let (_, order) = run.step(BackupReport::Reconciled { result: Ok(2) });
    assert_eq!(finish(order), wrote("a"));
    assert_eq!(PHASE_PRUNING, "pruning");
}

fn pruned(error: EngineError, blocking: bool) -> Result<JobSummary, EngineError> {
    let (run, _) = BackupRun::start(true);
    let (run, _) = run.step(BackupReport::Archived { result: wrote("a"), cancelled: false });
    let (run, _) = run.step(BackupReport::Catalogued { result: Ok(1), cancelled: false });
    let (_, order) = run.step(BackupReport::Pruned { result: Err(error), blocking });
    finish(order)
}

#[test]
fn a_prune_that_fails_does_not_make_the_backup_a_failure() {
    assert_eq!(pruned(EngineError::LockedByOther, false), wrote("a"));
}

#[test]
fn a_prune_failure_the_user_must_act_on_still_fails_the_job() {
    assert_eq!(
        pruned(EngineError::DestinationFull, true).unwrap_err(),
        EngineError::DestinationFull
    );
}

#[test]
fn a_failed_create_never_reaches_the_catalogue() {
    let (run, _) = BackupRun::start(false);
    let (_, order) = run.step(BackupReport::Archived {
        result: Err(EngineError::DestinationFull),
        cancelled: false,
    });
    assert_eq!(finish(order).unwrap_err(), EngineError::DestinationFull);
}

#[test]
fn a_backup_that_cannot_be_catalogued_is_still_a_successful_backup() {
    let (run, _) = BackupRun::start(false);
    let (run, _) = run.step(BackupReport::Archived { result: wrote("a"), cancelled: false });
    let (_, order) = run.step(BackupReport::Catalogued {
        result: Err(EngineError::LockedByOther),
        cancelled: false,
    });
    assert_eq!(finish(order), wrote("a"), "an uncatalogued backup is still a backup");
}

#[test]
fn a_backup_cancelled_on_the_way_is_cancelled() {
    let (run, _) = BackupRun::start(false);
    let (_, order) = run.step(BackupReport::Archived { result: wrote("a"), cancelled: true });
    assert_eq!(finish(order), Err(EngineError::Cancelled));
}

#[test]
fn a_phase_without_an_outcome_is_a_failure() {
    assert_eq!(
        drive("archiving", DriveInput::StreamEnded),
        DriveStep::Over(Err(EngineError::BorgFailed {
            code: -1,
            stderr: "borg ended the archiving phase without an outcome".to_string(),
        }))
    );
    assert_eq!(
        drive("archiving", DriveInput::Unheard),
        DriveStep::Over(Err(EngineError::Cancelled))
    );
}

fn pending(count: i64) -> Vec<Pending> {
    (1..=count).rev().map(|seq| Pending { seq, name: format!("a{seq:02}") }).collect()
}

fn held() -> Vec<Held> {
    vec![Held { name: "a01".to_string(), ts: 1_000 }]
}

/// Catch up, reading each archive with this result; what was read, in order, and
/// how it ended.
fn catch_up(
    outstanding: Vec<Pending>,
    read: impl Fn(i64) -> Result<usize, EngineError>,
    stop_after: usize,
) -> (Vec<i64>, Result<JobSummary, EngineError>) {
    let (mut run, mut order) = CatchUp::start();
    let mut seen = Vec::new();
    let mut outstanding = Some(outstanding);
    loop {
        let input = match order {
            CatchUpOrder::List => CatchUpInput::Listed(Ok(held())),
            CatchUpOrder::Sync(told) => {
                assert_eq!(told, held(), "the catalogue is told what the repository said");
                CatchUpInput::Synced(Ok(()))
            }
            CatchUpOrder::Ask => CatchUpInput::Outstanding {
                pending: Ok(outstanding.take().unwrap()),
                cancelled: false,
            },
            CatchUpOrder::Ingest { seq, .. } => {
                seen.push(seq);
                CatchUpInput::Ingested { result: read(seq), cancelled: seen.len() >= stop_after }
            }
            CatchUpOrder::Finish { result, .. } => return (seen, result),
        };
        (run, order) = run.step(input);
    }
}

#[test]
fn reconciliation_catalogues_archives_the_index_never_heard_of() {
    let (seen, result) = catch_up(pending(3), |_| Ok(1), usize::MAX);
    assert_eq!(seen, vec![3, 2, 1], "newest first");
    result.expect("cataloguing succeeds");
}

#[test]
fn reconciliation_leaves_a_catalogued_repository_alone() {
    let (seen, result) = catch_up(vec![], |_| Ok(1), usize::MAX);
    assert!(seen.is_empty());
    result.expect("nothing to do is a success");
}

#[test]
fn a_listing_cut_short_catalogues_nothing_and_leaves_the_archive_pending() {
    let broken =
        || EngineError::BorgFailed { code: 2, stderr: "connection lost".to_string() };
    let (run, order) = Ingest::<&str>::of_known_archive();
    assert!(matches!(order, IngestOrder::Open(_)));
    let (run, _) = run.step(IngestInput::Opened(Ok(())));
    let (run, _) = run.step(IngestInput::Item(Ok("home/a.txt")));
    let (run, order) = run.step(IngestInput::Item(Err(broken())));
    assert!(
        matches!(order, IngestOrder::Close(Err(_))),
        "the writer hears that the listing is not whole: {order:?}"
    );
    let (_, order) =
        run.step(IngestInput::Written { writer: Ok(Ok(0)), cancelled: false });
    assert!(matches!(order, IngestOrder::Finish(Err(error)) if error == broken()));

    // One unreadable archive does not stop the others.
    let (seen, result) = catch_up(
        pending(3),
        |seq| if seq == 2 { Err(broken()) } else { Ok(1) },
        usize::MAX,
    );
    assert_eq!(seen, vec![3, 2, 1]);
    result.expect("the run itself completes");
}

#[test]
fn cataloguing_can_be_stopped_and_picks_up_where_it_left_off() {
    let (seen, result) = catch_up(pending(4), |_| Ok(1), 2);
    assert_eq!(seen, vec![4, 3]);
    assert_eq!(result, Err(EngineError::Cancelled));
    let (seen, result) = catch_up(pending(2), |_| Ok(1), usize::MAX);
    assert_eq!(seen, vec![2, 1]);
    result.expect("the second run finishes the job");
}

#[test]
fn adopting_a_repository_makes_the_newest_snapshot_browsable_first() {
    let outstanding = pending(30);
    assert_eq!(newest(&outstanding), Some((30, "a30".to_string())));
    assert_eq!(
        left_after_newest(&outstanding, Some(Ok(1))),
        Ok(29),
        "the rest are left for the background"
    );
    assert_eq!(left_after_newest(&vec![], None), Ok(0));
    assert_eq!(
        left_after_newest(&outstanding, Some(Err(EngineError::RepoCorrupt))),
        Err(EngineError::RepoCorrupt)
    );
}

#[test]
fn batches_are_handed_out_item_by_item() {
    let mut items = BatchedItems::new();
    assert_eq!(items.next(), None);
    items.refill(vec![1, 2]);
    assert_eq!(items.next(), Some(1));
    assert_eq!(items.next(), Some(2));
    assert_eq!(items.next(), None);
}

#[test]
fn a_snapshots_contents_are_recorded_where_the_files_really_live() {
    let from = "home/k/.local/share/backtrack/snapshots/bt-local-1";
    let to = "home";
    assert_eq!(
        relocate(&format!("{from}/k/Documents/report.odt"), from, to).as_deref(),
        Some("home/k/Documents/report.odt")
    );
    assert_eq!(relocate(from, from, to).as_deref(), Some("home/"));
    assert_eq!(relocate("etc/passwd", from, to), None);
    // A name that merely begins the same is not inside.
    assert_eq!(relocate(&format!("{from}0/x"), from, to), None);
}

#[test]
fn relocating_into_the_filesystem_root_does_not_invent_a_leading_slash() {
    assert_eq!(
        relocate("snapshots/one/home/k/f", "snapshots/one", "").as_deref(),
        Some("home/k/f")
    );
}

#[test]
fn sources_are_found_inside_a_snapshot_of_their_subvolume() {
    let sources = vec!["/home/k/docs".to_string(), "/data/x".to_string(), "/home".to_string()];
    let inside = snapshot_sources(&sources, "/home", "/snap/bt-local-1");
    assert_eq!(inside, vec!["/snap/bt-local-1/k/docs", "/snap/bt-local-1/"]);
    let root = snapshot_sources(&vec!["/srv".to_string()], "/", "/snap/x");
    assert_eq!(root, vec!["/snap/x/srv"]);
    let near = snapshot_sources(&vec!["/homes/k".to_string()], "/home", "/snap/x");
    assert!(near.is_empty(), "a name that merely begins the same is not inside");
    assert_eq!(
        place_sources(&vec![None, Some("a/b".to_string())], "/snap/x"),
        vec!["/snap/x/a/b"]
    );
}

#[test]
fn archive_names_are_sortable_prefixed_and_colon_free() {
    let name = archive_name("thinkpad", at(1_786_085_752));
    assert_eq!(name, "bt-thinkpad-20260807T065552Z");
    assert!(!name.contains(':'));

    let earlier = archive_name("h", at(1_000));
    let later = archive_name("h", at(2_000));
    assert!(earlier < later, "{earlier} must sort before {later}");
}

#[test]
fn two_backups_in_one_second_do_not_collide() {
    let now = at(1_786_085_752);
    let name_at = |t: Timestamp| archive_name("thinkpad", t);

    let (first, when) = next_free_name(now, &vec![], name_at);
    assert_eq!(when, now, "an uncontested name is used as it is");

    let (second, when) = next_free_name(now, &vec![first.clone()], name_at);
    assert_ne!(second, first);
    assert_eq!(when, now.plus(Span::from_secs(1)));
    assert!(first < second, "and the later one still sorts later: {first} then {second}");
    assert_eq!(
        next_archive_name("thinkpad", now, &vec![first.clone()]),
        (second, now.plus(Span::from_secs(1)))
    );
}

#[test]
fn a_run_of_collisions_still_finds_a_name() {
    let now = at(1_000);
    let name_at = |t: Timestamp| archive_name("h", t);
    let taken: Vec<String> =
        (0..4).map(|i| name_at(now.plus(Span::from_secs(i)))).collect();
    let (name, when) = next_free_name(now, &taken, name_at);
    assert_eq!(when, now.plus(Span::from_secs(4)));
    assert!(!taken.contains(&name));
    assert_eq!(
        next_local_name(at(0), &vec!["bt-local-19700101T000000Z".to_string()]),
        ("bt-local-19700101T000001Z".to_string(), at(1))
    );
}

#[test]
fn hostnames_are_kept_to_characters_that_mean_nothing_to_borg() {
    assert_eq!(sanitise_hostname("keith-laptop"), "keith-laptop");
    assert_eq!(sanitise_hostname("home.lan"), "home-lan");
    assert_eq!(sanitise_hostname("a b:c"), "a-b-c");
    assert_eq!(sanitise_hostname(""), "unknown");
    assert_eq!(sanitise_hostname("..."), "unknown");
}

#[test]
fn the_calendar_matches_known_dates() {
    assert_eq!(iso8601_basic(0), "19700101T000000Z");
    assert_eq!(iso8601_basic(1_709_164_800), "20240229T000000Z");
    assert_eq!(iso8601_basic(951_782_400), "20000229T000000Z");
    assert_eq!(iso8601_basic(1_786_085_752), "20260807T065552Z");
    assert_eq!(iso8601_basic_at(at(1_786_085_752)), "20260807T065552Z");
}

#[test]
fn this_machine_has_a_usable_hostname() {
    assert_eq!(hostname(Some("thinkpad\n")), "thinkpad");
    assert_eq!(hostname(Some(" \u{a0}\n")), "unknown");
    assert_eq!(hostname(None), "unknown");
    let name = hostname(Some("keith-laptop\n"));
    assert!(!name.is_empty());
    assert_eq!(sanitise_hostname(&name), sanitise_hostname(&name.clone()));
}

fn local(seq: i64) -> LocalArchive {
    LocalArchive { seq, name: format!("bt-local-{seq}") }
}

fn walk(include_dirs: bool) -> WalkSpec {
    WalkSpec {
        sources: vec!["/home/k/Documents".to_string()],
        excludes: vec!["*.tmp".to_string()],
        one_file_system: true,
        never: vec!["/data/spool".to_string()],
        include_dirs,
    }
}

fn offline(cap_bytes: u64) -> OfflinePlan {
    OfflinePlan {
        walk: walk(false),
        compression: Compression::Lz4,
        cap_bytes,
        created_at: at(1_000),
    }
}

#[test]
fn an_offline_hour_with_no_edits_takes_no_local_snapshot() {
    let (run, order) = OfflineRun::start(offline(0));
    assert_eq!(order, OfflineOrder::Walk(walk(false)));
    let (run, order) =
        run.step(OfflineReport::Walked(Ok((Some(7), vec!["/home/k/a".to_string()]))));
    assert_eq!(
        order,
        OfflineOrder::Compare { since: 7, live: vec!["/home/k/a".to_string()] }
    );
    let (run, order) = run.step(OfflineReport::Compared(Ok(vec![])));
    assert_eq!(order, OfflineOrder::Finish(Ok(JobSummary::default())));
    assert_eq!(OfflineHandle::of(&run).outcome().files, 0);
}

#[test]
fn losing_the_destination_protects_the_changed_files_on_this_computer() {
    let (run, _) = OfflineRun::start(offline(10_000));
    let changed = vec!["/home/k/a".to_string()];
    let (run, order) = run.step(OfflineReport::Walked(Ok((None, changed.clone()))));
    assert_eq!(order, OfflineOrder::Measure, "with no backup yet, everything changed");
    let (run, order) = run.step(OfflineReport::Measured {
        sizes: vec![100],
        held: 50,
        existing: Ok(vec![local(1)]),
    });
    let name = "bt-local-19700101T001640Z".to_string();
    assert_eq!(
        order,
        OfflineOrder::Archive(CreateSpec {
            archive_name: name.clone(),
            created_at: at(1_000),
            sources: walk(false).sources,
            excludes: walk(false).excludes,
            paths: changed,
            compression: Compression::Lz4,
            one_file_system: true,
        })
    );
    let (run, order) =
        run.step(OfflineReport::Archived { result: wrote(&name), cancelled: false });
    assert!(matches!(order, OfflineOrder::Catalogue { .. }));
    let (run, order) = run.step(OfflineReport::Catalogued { result: Ok(1), cancelled: false });
    assert!(matches!(order, OfflineOrder::Finish(Ok(_))));
    let outcome = OfflineHandle::of(&run).outcome();
    assert_eq!((outcome.files, outcome.evicted, outcome.degraded), (1, 0, false));
}

#[test]
fn the_storage_cap_drops_the_oldest_local_snapshots_first() {
    let (run, _) = OfflineRun::start(offline(1_000));
    let (run, _) = run.step(OfflineReport::Walked(Ok((None, vec!["/a".to_string()]))));
    let (run, order) = run.step(OfflineReport::Measured {
        sizes: vec![400],
        held: 900,
        existing: Ok(vec![local(1), local(2), local(3)]),
    });
    let OfflineOrder::Evict { archives, .. } = order else {
        panic!("expected an eviction");
    };
    assert_eq!(rows_of(&archives), vec![1]);
    let (run, order) = run.step(OfflineReport::Evicted(Ok(())));
    assert!(matches!(order, OfflineOrder::Archive(_)));
    assert_eq!(OfflineHandle::of(&run).outcome().evicted, 1);
}

#[test]
fn what_dropping_snapshots_says_is_heard() {
    assert_eq!(evicted(&JobEvent::Finished(Ok(JobSummary::default()))), None);
    assert_eq!(
        evicted(&JobEvent::Finished(Err(EngineError::RepoCorrupt))),
        Some(EngineError::RepoCorrupt)
    );
    assert_eq!(add_up(&vec![1, 2, 3]), 6);
}

#[test]
fn a_filesystem_snapshot_is_taken_indexed_and_browsable() {
    let (run, order) = SnapshotRun::start(snapshot());
    assert_eq!(order, SnapshotOrder::Name);
    let (run, order) = run.step(SnapshotReport::Named(Ok(vec![])));
    let name = "bt-local-19700101T001640Z";
    let SnapshotOrder::Take { progress, root } = order else {
        panic!("expected a snapshot");
    };
    assert_eq!(
        progress,
        JobEvent::Progress { current: 0, total: None, phase: "archiving".to_string() }
    );
    assert_eq!(root, format!("/data/snapshots/{name}"));

    // What is in the snapshot is walked, in full.
    let (run, order) = run.step(SnapshotReport::Taken(Ok(())));
    assert_eq!(
        order,
        SnapshotOrder::Walk {
            walk: WalkSpec {
                sources: vec![format!("/data/snapshots/{name}/k/Documents")],
                one_file_system: false,
                include_dirs: true,
                ..walk(true)
            },
            root: format!("/data/snapshots/{name}"),
            subvolume: "/home".to_string(),
        }
    );

    // Each file is recorded where it really lives.
    let from = format!("data/snapshots/{name}");
    let found = vec![format!("{from}/k/Documents/a"), "elsewhere/b".to_string()];
    let (run, order) = run.step(SnapshotReport::Walked(Ok((found, from, "home".to_string()))));
    assert_eq!(
        order,
        SnapshotOrder::Record {
            name: name.to_string(),
            ts: 1_000,
            renamed: vec![Some("home/k/Documents/a".to_string()), None],
        }
    );
    let (run, order) = run.step(SnapshotReport::Recorded(Ok(())));
    assert_eq!(order, SnapshotOrder::List);
    let held = vec![
        ArchiveRow { seq: 1, name: "bt-local-old".to_string(), ts: 0 },
        ArchiveRow { seq: 2, name: name.to_string(), ts: 1_000 },
    ];
    let (run, order) = run.step(SnapshotReport::Listed(Ok(held), at(86_400)));
    assert_eq!(order, SnapshotOrder::Expire(vec![(1, "bt-local-old".to_string())]));

    // Housekeeping that fails does not make the backup a failure.
    let (run, order) = run.step(SnapshotReport::Expired(Err(EngineError::RepoCorrupt)));
    assert_eq!(order, SnapshotOrder::Finish(Ok(JobSummary::default())));
    assert_eq!(run.plan, snapshot());
}

fn snapshot() -> SnapshotPlan {
    SnapshotPlan {
        subvolume: "/home".to_string(),
        snapshots_dir: "/data/snapshots".to_string(),
        walk: walk(false),
        created_at: at(1_000),
    }
}

#[test]
fn a_snapshot_that_is_refused_ends_the_job() {
    let (run, _) = SnapshotRun::start(snapshot());
    let (run, order) = run.step(SnapshotReport::Named(Ok(vec![])));
    assert!(matches!(order, SnapshotOrder::Take { .. }), "{order:?}");
    let (_, order) = run.step(SnapshotReport::Taken(Err("not permitted".to_string())));
    assert_eq!(
        order,
        SnapshotOrder::Finish(Err(EngineError::BorgFailed {
            code: -1,
            stderr: "taking a filesystem snapshot: not permitted".to_string(),
        }))
    );
}

#[test]
fn snapshots_past_their_day_are_expired() {
    let row = |seq, ts| ArchiveRow { seq, name: format!("bt-local-{seq}"), ts };
    let held = vec![row(1, 0), row(2, 50_000), row(3, -5)];
    let rows = expired(&held, at(86_400));
    assert_eq!(rows, vec![(1, "bt-local-1".to_string()), (3, "bt-local-3".to_string())]);
    assert_eq!(expiry_rows(&rows), Some(vec![1, 3]));
    assert_eq!(expiry_rows(&vec![]), None);
}

#[test]
fn a_failure_of_the_catalogue_says_so() {
    assert_eq!(
        indexing("locked"),
        EngineError::BorgFailed { code: -1, stderr: "catalogue: locked".to_string() }
    );
    assert_eq!(
        joined("panicked"),
        EngineError::BorgFailed {
            code: -1,
            stderr: "catalogue task did not finish: panicked".to_string(),
        }
    );
}

#[test]
fn a_listing_that_never_opens_is_told_as_incomplete() {
    let (run, _) = Ingest::<u32>::of_new_archive();
    let (run, order) = run.step(IngestInput::Recorded(Ok(4)));
    assert!(matches!(order, IngestOrder::Open(Some(4))), "{order:?}");
    let (run, order) = run.step(IngestInput::Opened(Err(EngineError::RepoCorrupt)));
    assert!(matches!(order, IngestOrder::Close(Err(_))), "{order:?}");
    let (_, order) = run.step(IngestInput::Written { writer: Ok(Ok(0)), cancelled: false });
    assert!(matches!(order, IngestOrder::Finish(Err(EngineError::RepoCorrupt))), "{order:?}");
}
