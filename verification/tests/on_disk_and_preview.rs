//! What is on this computer, and the cache of extracted files.

use std::collections::hash_map::DefaultHasher;
use std::hash::{Hash, Hasher};

use backtrackd::engine::EngineError;
use backtrackd::service::error::DaemonError;
use backtrackd::service::on_disk::{
    folders, look_up, resolve, to_local_path, where_to_look, OnDisk,
};
use backtrackd::service::preview::{
    cache_extraction, entries_of, preview_file, CacheEntry, Found, Meta, Next, Prepared,
    PreviewCache, Report, Step, CAPACITY_BYTES,
};
use backtrackd::time::{Span, Timestamp};

/// A made-up filesystem: folders and the names in them.
fn listings(asked: &Vec<String>, disk: &[(&str, &[&str])]) -> Vec<Option<Vec<String>>> {
    asked
        .iter()
        .map(|folder| {
            disk.iter()
                .find(|(f, _)| f == folder)
                .map(|(_, names)| names.iter().map(|n| n.to_string()).collect())
        })
        .collect()
}

fn answers(members: &[&str], disk: &[(&str, &[&str])]) -> Vec<OnDisk> {
    let members: Vec<String> = members.iter().map(|m| m.to_string()).collect();
    let asked = folders(&members);
    let found = listings(&asked, disk);
    resolve(&members, &asked, &found)
}

#[test]
fn a_folder_that_can_be_read_answers_for_every_name_in_it() {
    assert_eq!(
        answers(
            &["home/pictures/here.png", "home/pictures/gone.png", "home/no-such-folder/any.png"],
            &[("/home/pictures", &["here.png"])],
        ),
        vec![OnDisk::Present, OnDisk::Absent, OnDisk::Unknown],
    );
}

#[test]
fn the_answers_come_back_in_the_order_they_were_asked() {
    assert_eq!(
        answers(&["d/a", "d/b", "d/c", "d/d"], &[("/d", &["a", "c"])]),
        vec![OnDisk::Present, OnDisk::Absent, OnDisk::Present, OnDisk::Absent],
    );
}

#[test]
fn asking_about_a_whole_folder_reads_it_once() {
    let mut members: Vec<String> = (0..50).map(|i| format!("d/file-{i}")).collect();
    members.push("d/kept".to_string());
    let asked = folders(&members);
    assert_eq!(asked, vec!["/d".to_string()], "one folder, one read");
    let answers = resolve(&members, &asked, &listings(&asked, &[("/d", &["kept"])]));
    assert_eq!(answers.len(), 51);
    assert!(answers[..50].iter().all(|a| *a == OnDisk::Absent));
    assert_eq!(answers[50], OnDisk::Present);
}

#[test]
fn a_member_path_is_an_absolute_path_with_its_slash_taken_off() {
    assert_eq!(
        to_local_path("home/keith/Documents/report.odt"),
        "/home/keith/Documents/report.odt"
    );
    assert_eq!(to_local_path("/home/keith/report.odt"), "/home/keith/report.odt");
    assert_eq!(
        where_to_look("home/keith/report.odt"),
        Some(("/home/keith".to_string(), "report.odt".to_string()))
    );
    assert_eq!(
        where_to_look("report.odt"),
        Some(("/".to_string(), "report.odt".to_string()))
    );
    assert_eq!(where_to_look(""), None, "the root is nothing to guess at");
    assert_eq!(where_to_look("home/.."), None, "nor is what has no name");
    assert_eq!(answers(&["/"], &[]), vec![OnDisk::Unknown]);
}

#[test]
fn the_wire_encoding_is_fixed() {
    assert_eq!(OnDisk::Unknown.as_byte(), 0);
    assert_eq!(OnDisk::Absent.as_byte(), 1);
    assert_eq!(OnDisk::Present.as_byte(), 2);
}

#[test]
fn a_client_can_ask_which_catalogued_paths_are_still_on_this_computer() {
    let bytes: Vec<u8> = answers(
        &["src/docs/a.txt", "src/docs/b.txt", "somewhere/else/entirely/report.odt"],
        &[("/src/docs", &["a.txt"])],
    )
    .into_iter()
    .map(|a| a.as_byte())
    .collect();
    assert_eq!(bytes, vec![2, 1, 0], "present, absent, unknown, in the order asked");
    assert_eq!(look_up(&None, "a"), OnDisk::Unknown);
    assert_eq!(look_up(&Some(vec![]), "a"), OnDisk::Absent);
}

fn cache(capacity: u64) -> PreviewCache {
    PreviewCache::with_capacity("/data/cache".to_string(), capacity)
}

fn now() -> Timestamp {
    Timestamp::from_secs(1_000_000)
}

fn entry(cache: &PreviewCache, path: &str, size: u64, age_secs: u64) -> CacheEntry {
    CacheEntry {
        path: cache.entry_path("a1", path),
        size,
        used: now().minus(Span::from_secs(age_secs)),
    }
}

/// Evict with a disk that removes whatever it is told to, except these.
fn evict(cache: &PreviewCache, entries: Vec<CacheEntry>, stuck: &[String]) -> Vec<String> {
    let mut eviction = cache.evict_to_fit(Some(entries));
    let mut gone = Vec::new();
    while let Some(path) = eviction.next() {
        let removed = !stuck.contains(&path);
        if removed {
            gone.push(path);
        }
        eviction.tell(removed);
    }
    gone
}

#[test]
fn the_same_file_maps_to_the_same_entry() {
    let cache = cache(CAPACITY_BYTES);
    assert_eq!(
        cache.entry_path("archive-1", "home/k/a.txt"),
        cache.entry_path("archive-1", "home/k/a.txt")
    );
    let path = cache.entry_path("archive-1", "home/k/a.txt");
    assert!(path.starts_with("/data/cache/"));
    let name = path.rsplit('/').next().unwrap();
    assert_eq!(name.len(), 16);
    assert!(name.chars().all(|c| c.is_ascii_hexdigit()));
    assert_eq!(cache.staging_path("archive-1", "home/k/a.txt"), format!("{path}.partial"));

    let mut hasher = DefaultHasher::new();
    "archive-1".hash(&mut hasher);
    0u8.hash(&mut hasher);
    "home/k/a.txt".hash(&mut hasher);
    assert_eq!(path, format!("/data/cache/{:016x}", hasher.finish()));
    assert_eq!(cache.entry_under(0xbeef), "/data/cache/000000000000beef");
}

#[test]
fn different_archives_do_not_share_an_entry() {
    let cache = cache(CAPACITY_BYTES);
    assert_ne!(
        cache.entry_path("archive-1", "home/k/a.txt"),
        cache.entry_path("archive-2", "home/k/a.txt"),
        "the same path in two archives is two different files"
    );
}

#[test]
fn the_separator_is_part_of_the_key() {
    let cache = cache(CAPACITY_BYTES);
    assert_ne!(
        cache.entry_path("a", "b/c"),
        cache.entry_path("a/b", "c"),
        "concatenating without a separator would collide these"
    );
    assert_ne!(cache.entry_path("ab", "c"), cache.entry_path("a", "bc"));
}

#[test]
fn a_cache_within_its_ceiling_is_left_alone() {
    let cache = cache(1000);
    let entries = vec![entry(&cache, "one", 100, 0), entry(&cache, "two", 100, 0)];
    assert!(evict(&cache, entries, &[]).is_empty());
}

#[test]
fn eviction_removes_the_least_recently_used_first() {
    let cache = cache(250);
    let entries = vec![
        entry(&cache, "newest", 100, 1_000),
        entry(&cache, "oldest", 100, 3_000),
        entry(&cache, "middle", 100, 2_000),
    ];
    assert_eq!(cache.size_bytes(Some(&entries)), 300);
    assert_eq!(
        evict(&cache, entries, &[]),
        vec![cache.entry_path("a1", "oldest")],
        "oldest must go first"
    );
}

#[test]
fn eviction_keeps_going_until_it_fits() {
    let cache = cache(150);
    let entries: Vec<CacheEntry> =
        (0..5).map(|i| entry(&cache, &format!("f{i}"), 100, 5_000 - i * 100)).collect();
    let gone = evict(&cache, entries, &[]);
    assert_eq!(gone.len(), 4, "one of five fits");
    assert!(
        !gone.contains(&cache.entry_path("a1", "f4")),
        "the most recent survivor is the one that was used last"
    );
}

#[test]
fn what_cannot_be_removed_does_not_stop_the_rest() {
    let cache = cache(150);
    let entries: Vec<CacheEntry> =
        (0..3).map(|i| entry(&cache, &format!("f{i}"), 100, 5_000 - i * 100)).collect();
    let stuck = cache.entry_path("a1", "f0");
    let gone = evict(&cache, entries, &[stuck]);
    assert_eq!(gone, vec![cache.entry_path("a1", "f1"), cache.entry_path("a1", "f2")]);
}

#[test]
fn touching_an_entry_saves_it_from_the_next_eviction() {
    let cache = cache(150);
    // The old one has just been read.
    let entries = vec![entry(&cache, "old", 100, 0), entry(&cache, "new", 100, 1_000)];
    assert_eq!(evict(&cache, entries, &[]), vec![cache.entry_path("a1", "new")]);
}

#[test]
fn a_missing_cache_directory_does_not_panic() {
    let cache = cache(100);
    assert_eq!(cache.evict_to_fit(None).next(), None);
    assert_eq!(cache.size_bytes(None), 0);
}

#[test]
fn the_default_ceiling_is_one_gigabyte() {
    assert_eq!(CAPACITY_BYTES, 1_073_741_824);
    let cache = PreviewCache::new("/c".to_string());
    let big = vec![CacheEntry {
        path: "/c/x".to_string(),
        size: CAPACITY_BYTES + 1,
        used: now(),
    }];
    assert_eq!(cache.evict_to_fit(Some(big)).next(), Some("/c/x".to_string()));
}

#[test]
fn only_files_count_towards_the_cache() {
    let meta = |is_file, modified| Some(Meta { is_file, size: 9, modified });
    let found = vec![
        Found { path: "a".to_string(), meta: meta(true, Some(now())) },
        Found { path: "dir".to_string(), meta: meta(false, Some(now())) },
        Found { path: "unreadable".to_string(), meta: None },
        Found { path: "undated".to_string(), meta: meta(true, None) },
    ];
    let entries = entries_of(&found);
    assert_eq!(entries.len(), 2);
    assert_eq!(entries[0].path, "a");
    assert_eq!(entries[1].used, Timestamp::from_secs(0), "an undated file goes first");
}

fn preview(step: Step, report: Report) -> Next {
    preview_file(step, report, true, "a1", "home/x")
}

#[test]
fn a_preview_is_extracted_whole_or_not_at_all() {
    let full = || Report::Failed("no space".to_string());
    assert_eq!(preview(Step::Look, Report::Done), Next::Do(Step::Touch));
    assert_eq!(preview(Step::Look, Report::Missing), Next::Do(Step::EnsureDir));
    assert_eq!(preview(Step::EnsureDir, Report::Done), Next::Do(Step::Extract));
    assert_eq!(preview(Step::Extract, Report::Done), Next::Do(Step::Create));
    assert_eq!(preview(Step::Create, Report::Done), Next::Do(Step::Write));
    assert_eq!(preview(Step::Write, Report::Done), Next::Do(Step::Rename));
    assert_eq!(preview(Step::Rename, Report::Done), Next::Do(Step::Evict));
    assert_eq!(preview(Step::Evict, Report::Done), Next::Do(Step::Touch));
    assert_eq!(preview(Step::Touch, full()), Next::Do(Step::Open));
    assert_eq!(preview(Step::Open, Report::Done), Next::Serve);

    let no_space = DaemonError::LocalDiskFull("no space".to_string());
    assert_eq!(preview(Step::Write, full()), Next::Discard(no_space.clone()));
    assert_eq!(preview(Step::Rename, full()), Next::Fail(no_space.clone()));
    assert_eq!(preview(Step::EnsureDir, full()), Next::Fail(no_space));
    assert_eq!(
        preview(
            Step::Extract,
            Report::EngineFailed(EngineError::RepoCorrupt, "damaged".to_string())
        ),
        Next::Fail(DaemonError::RepoCorrupt("damaged".to_string()))
    );
    assert_eq!(
        preview(Step::Open, Report::Failed("gone".to_string())),
        Next::Fail(DaemonError::NotFound(
            "home/x in a1 could not be opened: gone".to_string()
        ))
    );
    assert_eq!(
        preview_file(Step::Look, Report::Missing, false, "a1", "x"),
        Next::Fail(DaemonError::NotConfigured(
            "no backup destination is configured yet; run the setup wizard".to_string()
        ))
    );
}

#[test]
fn a_comparison_has_its_copy_in_the_cache() {
    assert_eq!(cache_extraction(Step::Look, Report::Done), Prepared::Ready);
    assert_eq!(
        cache_extraction(Step::EnsureDir, Report::Failed("x".to_string())),
        Prepared::Do(Step::Extract)
    );
    assert_eq!(cache_extraction(Step::Write, Report::Done), Prepared::Do(Step::Rename));
    assert_eq!(cache_extraction(Step::Evict, Report::Done), Prepared::Ready);
    assert_eq!(
        cache_extraction(Step::Rename, Report::Failed("busy".to_string())),
        Prepared::Fail(EngineError::BorgFailed { code: -1, stderr: "busy".to_string() })
    );
    assert_eq!(
        cache_extraction(
            Step::Extract,
            Report::EngineFailed(EngineError::RepoUnreachable, "away".to_string())
        ),
        Prepared::Fail(EngineError::RepoUnreachable)
    );
}
