//! The scripted history, and the pictures in it.

use backtrackd::demo::history::{
    content, data_dir, deletions, edited_at, edits, entries_by_dir, files_of_day, history,
    member_path, moved_dirs, schedule, snapshot_name, utc_stamp, Files, FIRST_GAP_DAY,
    LAST_GAP_DAY,
};
use backtrackd::demo::listing::{
    calibrate, daemon_is_running, lines_of, list_archives, no_epoch, old_client_deleted,
    refusal, Listed, PROBE,
};
use backtrackd::demo::png::{adler32, encode, zlib_stored, Crc32};

#[test]
fn the_schedule_ends_today_and_reaches_back_about_a_month() {
    let now = 1_781_092_800;
    let when = schedule(now, 30);
    assert_eq!(when.len(), 30);
    assert!(when.windows(2).all(|w| w[0] < w[1]), "oldest first, strictly");

    let day = |ts: i64| ts.div_euclid(86_400) - now.div_euclid(86_400);
    assert_eq!(day(when[29]), 0, "the newest is today");
    assert_eq!(day(when[28]), 0);
    assert_eq!(day(when[27]), 0, "three of them are");
    assert_eq!(day(when[26]), -1, "then yesterday");
    assert!(
        (-32..=-25).contains(&day(when[0])),
        "and back about a month, {} days",
        day(when[0])
    );
    assert!(when[29] < now, "nothing is dated in the future");
    assert_eq!(schedule(now, 2), vec![now - 7_200, now - 3_600]);
}

#[test]
fn the_schedule_fills_every_band_the_sidebar_has() {
    for weekday_offset in 0..7 {
        let now = 1_781_092_800 + weekday_offset * 86_400;
        let when = schedule(now, 30);
        let days_ago: Vec<i64> =
            when.iter().map(|ts| now.div_euclid(86_400) - ts.div_euclid(86_400)).collect();
        assert!(days_ago.contains(&0), "today");
        assert!(days_ago.contains(&1), "yesterday");
        assert!(days_ago.iter().any(|d| (2..=7).contains(d)), "the week");
        assert!(days_ago.iter().any(|d| *d > 14), "and something old");
    }
}

#[test]
fn the_machine_was_off_for_a_couple_of_days() {
    let now = 1_781_092_800;
    let when = schedule(now, 30);
    let days_ago: Vec<i64> =
        when.iter().map(|ts| now.div_euclid(86_400) - ts.div_euclid(86_400)).collect();
    for gap in [FIRST_GAP_DAY, LAST_GAP_DAY] {
        assert!(
            !days_ago.contains(&gap),
            "{gap} days ago should have no backup, got {days_ago:?}"
        );
    }
    assert!(days_ago.contains(&(FIRST_GAP_DAY - 1)));
    assert!(days_ago.contains(&(LAST_GAP_DAY + 1)));
}

fn files(rows: &[(&str, &str)]) -> Files {
    rows.iter().map(|(k, v)| (k.to_string(), v.to_string())).collect()
}

#[test]
fn a_day_dates_what_it_changed_and_leaves_the_rest_alone() {
    let day_one = files(&[
        ("Documents/notes.txt", "notes"),
        ("Documents/report.odt", "draft"),
        ("old/contract.pdf", "signed"),
    ]);
    let nothing = files(&[]);
    assert_eq!(edits(&nothing, &day_one), day_one, "everything is new on the first day");
    assert_eq!(moved_dirs(&nothing, &day_one), vec!["", "Documents", "old"]);

    let day_two = files(&[
        ("Documents/notes.txt", "notes"),
        ("Documents/report.odt", "reviewed"),
    ]);
    assert_eq!(edits(&day_one, &day_two), files(&[("Documents/report.odt", "reviewed")]));
    assert_eq!(deletions(&day_one, &day_two), vec!["old/contract.pdf"]);
    assert_eq!(
        moved_dirs(&day_one, &day_two),
        vec![""],
        "a directory whose entries are unchanged keeps its time"
    );
    assert_eq!(edited_at(1_600_000_000), 1_599_997_600);
}

#[test]
fn a_directorys_entries_are_the_names_directly_inside_it() {
    let dirs = entries_by_dir(&files(&[("a/b/c.txt", "x"), ("a/d.txt", "y")]));
    let names = |dir: &str| dirs.iter().find(|d| d.dir == dir).expect("listed").names.clone();
    assert_eq!(names(""), vec!["a"]);
    assert_eq!(names("a"), vec!["b", "d.txt"]);
    assert_eq!(names("a/b"), vec!["c.txt"]);
    let listed: Vec<&str> = dirs.iter().map(|d| d.dir.as_str()).collect();
    assert_eq!(listed, vec!["", "a", "a/b"]);
    // In alphabetical order, and once each, whatever the order of the files.
    let mixed = entries_by_dir(&files(&[("z/b", "x"), ("a", "y"), ("z/a", "y"), ("z/b", "z")]));
    let told: Vec<(&str, Vec<&str>)> = mixed
        .iter()
        .map(|d| (d.dir.as_str(), d.names.iter().map(|n| n.as_str()).collect()))
        .collect();
    assert_eq!(told, vec![("", vec!["a", "z"]), ("z", vec!["a", "b"])]);
    assert_eq!(entries_by_dir(&files(&[])).len(), 1, "the root is always there");
}

#[test]
fn a_timestamp_is_rendered_the_way_borg_wants_it() {
    assert_eq!(utc_stamp(0), "1970-01-01T00:00:00");
    assert_eq!(utc_stamp(1_600_000_000), "2020-09-13T12:26:40");
    assert_eq!(utc_stamp(1_709_208_000), "2024-02-29T12:00:00");
    assert_eq!(utc_stamp(-1), "1969-12-31T23:59:59");
}

#[test]
fn history_spans_30_days_with_known_appearances_and_deletions() {
    let h = history();
    assert_eq!(h.len(), 30);
    assert!(content(&h[3], "Documents/invoice-may.pdf").is_none());
    assert!(content(&h[4], "Documents/invoice-may.pdf").is_some());
    assert!(content(&h[14], "old-client-folder/contract.pdf").is_some());
    assert!(content(&h[15], "old-client-folder/contract.pdf").is_none());
    let mut reports: Vec<String> = h
        .iter()
        .map(|d| content(d, "Documents/report.odt").unwrap().clone())
        .collect();
    reports.dedup();
    assert_eq!(reports.len(), 3);
    for day in &h {
        assert!(day.windows(2).all(|w| w[0].0 < w[1].0), "in the order of the paths");
    }
    assert_eq!(files_of_day(10), h[9]);
    assert_eq!(snapshot_name(3), "snapshot-03");
    assert_eq!(snapshot_name(30), "snapshot-30");
}

#[test]
fn the_data_directory_follows_the_desktop() {
    assert_eq!(data_dir(true, Some("/x"), Some("/home/k")), "/x/backtrack-dev");
    assert_eq!(
        data_dir(false, Some(""), Some("/home/k")),
        "/home/k/.local/share/backtrack"
    );
    assert_eq!(data_dir(false, None, None), "./backtrack");
    assert_eq!(member_path("/home/k/x"), "home/k/x");
}

#[test]
fn a_listing_of_archives_is_read_line_by_line() {
    let archives =
        list_archives("abc\t1600000000\tsnapshot-01\ndef\t -5 \ta\tb\r\n\n  \nghi\t+7\tlast")
            .unwrap();
    let listed = |name: &str, id: &str, ts| Listed {
        name: name.to_string(),
        id: id.to_string(),
        ts,
    };
    assert_eq!(
        archives,
        vec![
            listed("snapshot-01", "abc", 1_600_000_000),
            listed("a\tb", "def", -5),
            listed("last", "ghi", 7),
        ]
    );
    assert_eq!(list_archives("abc").unwrap_err(), "archive without time");
    assert_eq!(list_archives("abc\t5").unwrap_err(), "archive without name");
    assert_eq!(
        list_archives("abc\tsoon\tname").unwrap_err(),
        "archive time is not an epoch: \"abc\\tsoon\\tname\""
    );
    assert_eq!(no_epoch("x"), "archive time is not an epoch: x");
    assert_eq!(lines_of("a\r\nb\n"), vec!["a", "b"]);
}

#[test]
fn the_clock_is_measured_against_a_known_moment() {
    let listed = |name: &str, ts| Listed { name: name.to_string(), id: String::new(), ts };
    let reported = vec![listed("other", i64::MIN), listed("bt-calibration", PROBE + 3_600)];
    assert_eq!(calibrate(&reported), Ok(3_600));
    assert_eq!(
        calibrate(&vec![]).unwrap_err(),
        "the calibration archive did not come back from borg list"
    );
}

#[test]
fn a_running_daemon_is_not_pulled_from_under() {
    assert!(daemon_is_running("(true,)\n"));
    assert!(!daemon_is_running("(false,)\n"));
    assert!(!daemon_is_running(""));
    assert!(refusal("org.backtrack.Daemon1.Dev").contains("org.backtrack.Daemon1.Dev"));
    let entry = |name: &str, gone| (name.to_string(), gone);
    assert!(old_client_deleted(&vec![entry("a", false), entry("old-client-folder", true)]));
    assert!(!old_client_deleted(&vec![entry("a", true), entry("old-client-folder", false)]));
}

#[test]
fn the_crc_matches_the_published_check_value() {
    let mut crc = Crc32::new();
    crc.write(b"123456789");
    assert_eq!(crc.finish(), 0xcbf4_3926);
}

#[test]
fn the_adler_checksum_matches_the_published_check_value() {
    assert_eq!(adler32(b"123456789"), 0x091e_01de);
}

#[test]
fn an_encoded_image_is_a_well_formed_png() {
    let bytes = encode(3, 2, |x, y| [x as u8, y as u8, 0]);

    assert_eq!(&bytes[..8], &[0x89, b'P', b'N', b'G', 0x0d, 0x0a, 0x1a, 0x0a]);

    let mut kinds = Vec::new();
    let mut at = 8;
    while at < bytes.len() {
        let len = u32::from_be_bytes(bytes[at..at + 4].try_into().unwrap()) as usize;
        let kind = &bytes[at + 4..at + 8];
        let payload = &bytes[at + 8..at + 8 + len];
        let stored = u32::from_be_bytes(bytes[at + 8 + len..at + 12 + len].try_into().unwrap());
        let mut crc = Crc32::new();
        crc.write(kind);
        crc.write(payload);
        assert_eq!(crc.finish(), stored, "chunk CRC");
        kinds.push(String::from_utf8_lossy(kind).to_string());
        at += 12 + len;
    }
    assert_eq!(kinds, ["IHDR", "IDAT", "IEND"]);
    assert_eq!(at, bytes.len(), "the chunks account for the whole file");
}

#[test]
fn a_stored_stream_carries_the_bytes_it_was_given() {
    let data: Vec<u8> = (0..70_000u32).map(|i| (i % 251) as u8).collect();
    let stream = zlib_stored(&data);

    assert_eq!(&stream[..2], &[0x78, 0x01]);
    assert_eq!(
        u32::from_be_bytes(stream[stream.len() - 4..].try_into().unwrap()),
        adler32(&data),
    );

    let mut out = Vec::new();
    let mut at = 2;
    loop {
        let final_block = stream[at] & 1 == 1;
        let len = u16::from_le_bytes(stream[at + 1..at + 3].try_into().unwrap()) as usize;
        let nlen = u16::from_le_bytes(stream[at + 3..at + 5].try_into().unwrap());
        assert_eq!(nlen, !(len as u16), "NLEN is LEN's complement");
        out.extend_from_slice(&stream[at + 5..at + 5 + len]);
        at += 5 + len;
        if final_block {
            break;
        }
    }
    assert_eq!(out, data);
    assert_eq!(at, stream.len() - 4, "the blocks end where the checksum starts");
    assert_eq!(zlib_stored(&[])[2..7], [1, 0, 0, 0xff, 0xff], "one empty block");
}

#[test]
fn different_paintings_differ() {
    let one = encode(8, 8, |x, _| [x as u8, 0, 0]);
    let two = encode(8, 8, |_, y| [0, y as u8, 0]);
    assert_ne!(one, two);
    assert_eq!(one.len(), two.len());
}
