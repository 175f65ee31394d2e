//! Protecting changes while the destination is away.

use backtrackd::offline::{
    detect, directory_bytes, expired, local_archive_name, plan_cap, snapshot_candidate, sweep,
    LocalArchive, LocalRow, Mode, TreeEntry,
};
use backtrackd::snapshot::{
    containing_subvolume, expires_at, probe, ProbeInput, ProbeOrder, Rung, Subvolume,
    BTRFS_MAGIC, SNAPSHOT_RETENTION, SUBVOLUME_ROOT_INO,
};
use backtrackd::time::{Span, Timestamp};

const GB: u64 = 1024 * 1024 * 1024;

fn archives(n: usize) -> Vec<LocalArchive> {
    (1..=n).map(|i| LocalArchive { seq: i as i64, name: format!("bt-local-{i}") }).collect()
}

fn at(secs: i64) -> Timestamp {
    Timestamp::from_secs(secs)
}

#[test]
fn a_spool_well_inside_its_cap_evicts_nothing() {
    let plan = plan_cap(10 * GB, 2 * GB, 100 * 1024 * 1024, &archives(4));
    assert!(plan.evict.is_empty());
    assert!(plan.proceed);
    assert!(!plan.degraded);
}

#[test]
fn the_oldest_local_snapshots_go_first() {
    let plan = plan_cap(10 * GB, 9 * GB, 2 * GB, &archives(10));
    assert!(plan.proceed);
    assert!(!plan.evict.is_empty());
    assert_eq!(plan.evict.first().map(|a| a.seq), Some(1), "eviction starts at the oldest");
    let seqs: Vec<i64> = plan.evict.iter().map(|a| a.seq).collect();
    let mut sorted = seqs.clone();
    sorted.sort_unstable();
    assert_eq!(seqs, sorted, "and works forwards in age order");
    assert_eq!(seqs, vec![1, 2], "nine tenths of a gigabyte each");
}

#[test]
fn a_single_delta_larger_than_the_cap_is_taken_once_anyway() {
    let plan = plan_cap(GB, 0, 5 * GB, &vec![]);
    assert!(plan.proceed, "something protected beats nothing protected");
    assert!(plan.degraded, "and the user is told");
}

#[test]
fn once_that_oversized_archive_is_held_the_spool_stops_growing() {
    let plan = plan_cap(GB, 5 * GB, 5 * GB, &archives(1));
    assert_eq!(plan.evict.len(), 1, "it drops what it can");
    assert!(!plan.proceed, "and then holds rather than growing forever");
    assert!(plan.degraded);
}

#[test]
fn a_cap_of_zero_means_no_limit() {
    let plan = plan_cap(0, 500 * GB, 500 * GB, &archives(3));
    assert!(plan.proceed);
    assert!(plan.evict.is_empty());
    assert!(!plan.degraded);
}

#[test]
fn an_empty_spool_taking_a_normal_delta_just_proceeds() {
    let plan = plan_cap(10 * GB, 0, 50 * 1024 * 1024, &vec![]);
    assert!(plan.proceed);
    assert!(plan.evict.is_empty());
    assert!(!plan.degraded);
}

#[test]
fn eviction_never_asks_for_more_archives_than_exist() {
    let existing = archives(3);
    let plan = plan_cap(GB, 100 * GB, GB, &existing);
    assert!(plan.evict.len() <= existing.len());
}

#[test]
fn local_snapshots_are_named_so_they_sort_chronologically() {
    let earlier = local_archive_name(at(1_000));
    let later = local_archive_name(at(2_000));
    assert!(earlier < later, "{earlier} must sort before {later}");
    assert!(earlier.starts_with("bt-local-"));
    assert!(
        !earlier.contains(':'),
        "a colon is the one character borg reads specially in repo::archive"
    );
    assert_eq!(earlier, "bt-local-19700101T001640Z");
}

#[test]
fn hourly_snapshots_are_kept_for_a_day() {
    assert_eq!(
        expires_at(at(1_000), None),
        at(1_000).plus(Span::from_secs(SNAPSHOT_RETENTION))
    );
    assert_eq!(SNAPSHOT_RETENTION, 86_400);
}

#[test]
fn an_expiry_the_destination_set_wins_when_it_comes_first() {
    let created = at(1_000);
    let soon = created.plus(Span::from_secs(3_600));
    assert_eq!(expires_at(created, Some(soon)), soon);
}

#[test]
fn a_later_expiry_does_not_extend_the_daily_retention() {
    let created = at(1_000);
    let far = created.plus(Span::from_secs(30 * 24 * 3_600));
    assert_eq!(
        expires_at(created, Some(far)),
        created.plus(Span::from_secs(SNAPSHOT_RETENTION))
    );
}

fn rung(path: &str, magic: u64, inode: u64, device: u64) -> Rung {
    Rung {
        path: path.to_string(),
        name: path.rsplit('/').next().filter(|n| !n.is_empty()).map(|n| n.to_string()),
        device: Some(device),
        magic: Some(magic),
        inode: Some(inode),
    }
}

#[test]
fn a_non_btrfs_path_has_no_containing_subvolume() {
    let ext4 = 0xef53;
    let rungs = vec![rung("/tmp/x", ext4, 12, 1), rung("/tmp", ext4, 2, 1), rung("/", ext4, 2, 1)];
    assert_eq!(containing_subvolume(&rungs), None);
}

#[test]
fn a_path_is_found_inside_its_subvolume() {
    let rungs = vec![
        rung("/home/k/docs", BTRFS_MAGIC, 300, 7),
        rung("/home/k", BTRFS_MAGIC, 299, 7),
        rung("/home", BTRFS_MAGIC, SUBVOLUME_ROOT_INO, 7),
        rung("/", BTRFS_MAGIC, SUBVOLUME_ROOT_INO, 6),
    ];
    assert_eq!(
        containing_subvolume(&rungs),
        Some(Subvolume { root: "/home".to_string(), prefix: "k/docs".to_string() })
    );
}

#[test]
fn the_subvolume_search_stops_at_a_filesystem_boundary() {
    // A mount inside a subvolume: the climb must not leave it.
    let rungs = vec![
        rung("/proc/self", BTRFS_MAGIC, 300, 9),
        rung("/proc", BTRFS_MAGIC, 299, 9),
        rung("/", BTRFS_MAGIC, SUBVOLUME_ROOT_INO, 7),
    ];
    assert_eq!(containing_subvolume(&rungs), None);
    let procfs = 0x9fa0;
    let rungs = vec![
        rung("/proc/self", procfs, 300, 9),
        rung("/proc", procfs, 1, 9),
        rung("/", BTRFS_MAGIC, SUBVOLUME_ROOT_INO, 7),
    ];
    assert_eq!(containing_subvolume(&rungs), None);
}

#[test]
fn a_rehearsal_ends_with_an_answer_and_nothing_left_behind() {
    assert_eq!(probe(ProbeInput::Looked { leftover: true }), ProbeOrder::Clear);
    assert_eq!(probe(ProbeInput::Cleared), ProbeOrder::Create);
    assert_eq!(probe(ProbeInput::Created { ok: false }), ProbeOrder::Finish { usable: false });
    assert_eq!(probe(ProbeInput::Created { ok: true }), ProbeOrder::Remove);
    assert_eq!(probe(ProbeInput::Removed { ok: true }), ProbeOrder::Finish { usable: true });
    assert_eq!(probe(ProbeInput::Removed { ok: false }), ProbeOrder::Sweep);
    assert_eq!(probe(ProbeInput::Swept), ProbeOrder::Finish { usable: false });
}

#[test]
fn snapshots_are_used_only_where_they_would_hold_every_source() {
    let sub = |root: &str| Subvolume { root: root.to_string(), prefix: "k".to_string() };
    assert_eq!(snapshot_candidate(&vec![]), None);
    assert_eq!(snapshot_candidate(&vec![Some(sub("/home")), None]), None);
    assert_eq!(snapshot_candidate(&vec![Some(sub("/home")), Some(sub("/data"))]), None);
    let found = snapshot_candidate(&vec![Some(sub("/home")), Some(sub("/home"))]);
    assert_eq!(found, Some(sub("/home")));
    assert_eq!(detect(found, true), Mode::FsSnapshot(sub("/home")));
    assert_eq!(detect(Some(sub("/home")), false), Mode::Spool);
    assert_eq!(detect(None, true), Mode::Spool);
    assert_eq!(Mode::Spool.as_str(), "spool");
    assert_eq!(Mode::FsSnapshot(sub("/home")).as_str(), "fs-snapshot");
}

fn row(seq: i64, fs: bool, expirable_at: Option<i64>) -> LocalRow {
    LocalRow { seq, name: format!("bt-local-{seq}"), is_fs_snapshot: fs, expirable_at }
}

#[test]
fn local_snapshots_are_removed_once_their_time_is_up() {
    let now = at(100_000_000);
    let month = 2_592_000;
    let old = 100_000_000 - month - 1;
    assert!(expired(&row(1, false, Some(old)), now));
    assert!(expired(&row(1, false, Some(old + 1)), now), "thirty days to the second");
    assert!(!expired(&row(1, false, Some(old + 2)), now));

    let held = vec![
        row(1, false, Some(old)),
        row(2, true, Some(old)),
        row(3, false, Some(old + 100)),
        row(4, true, None),
    ];
    let (snapshots, spooled) = sweep(&held, now);
    assert_eq!(snapshots, vec![(2, "bt-local-2".to_string())]);
    assert_eq!(spooled, vec![(1, "bt-local-1".to_string())]);
}

#[test]
fn an_unmarked_local_snapshot_is_never_swept_away() {
    let now = at(i64::MAX / 2);
    let (snapshots, spooled) = sweep(&vec![row(1, false, None), row(2, true, None)], now);
    assert!(snapshots.is_empty());
    assert!(spooled.is_empty());
}

/// Add up a made-up tree: each folder and what is in it.
fn bytes_of(dir: &str, tree: &[(&str, &[(&str, bool, u64)])]) -> u64 {
    let mut sum = directory_bytes(dir.to_string());
    while let Some(folder) = sum.next() {
        let listing = tree.iter().find(|(path, _)| *path == folder).map(|(_, entries)| {
            entries
                .iter()
                .map(|(path, is_dir, size)| TreeEntry {
                    path: path.to_string(),
                    meta: Some((*is_dir, *size)),
                })
                .collect()
        });
        sum.tell(listing);
    }
    sum.total()
}

#[test]
fn directory_bytes_adds_up_a_tree() {
    let tree: &[(&str, &[(&str, bool, u64)])] = &[
        ("/t", &[("/t/a", true, 4096), ("/t/top", false, 100)]),
        ("/t/a", &[("/t/a/b", true, 4096), ("/t/a/mid", false, 200)]),
        ("/t/a/b", &[("/t/a/b/deep", false, 300)]),
    ];
    assert_eq!(bytes_of("/t", tree), 600);
    let huge: &[(&str, &[(&str, bool, u64)])] =
        &[("/t", &[("/t/x", false, u64::MAX), ("/t/y", false, 7)])];
    assert_eq!(bytes_of("/t", huge), u64::MAX);
}

#[test]
fn a_spool_that_does_not_exist_yet_occupies_nothing() {
    assert_eq!(bytes_of("/not-there", &[]), 0);
    let mut sum = directory_bytes("/t".to_string());
    assert_eq!(sum.next().as_deref(), Some("/t"));
    sum.tell(Some(vec![TreeEntry { path: "/t/unreadable".to_string(), meta: None }]));
    assert_eq!((sum.next(), sum.total()), (None, 0));
}
