//! The gates before a scheduled backup.

use backtrackd::preflight::{
    destination_is_remote, evaluate, free_bytes, local_disk_needs_attention, metered_from_nm,
    path_is_network_mounted, Facts, Skip, SystemProbe, UnknownProbe, Verdict, Watched,
};

/// A machine that should back up: on mains, unmetered, disk reachable and roomy.
fn ready() -> Facts {
    Facts {
        paused: false,
        on_battery: Some(false),
        allow_on_battery: false,
        metered: Some(false),
        allow_on_metered: false,
        destination_is_remote: false,
        destination_reachable: Some(true),
        free_local_bytes: Some(50 * 1024 * 1024 * 1024),
    }
}

#[test]
fn a_ready_machine_backs_up() {
    assert_eq!(evaluate(&ready()), Verdict::Go);
}

#[test]
fn a_pause_stops_a_scheduled_run() {
    let facts = Facts { paused: true, ..ready() };
    assert_eq!(evaluate(&facts), Verdict::Skip(Skip::Paused));
}

#[test]
fn battery_stops_a_run_unless_the_user_allowed_it() {
    let on_battery = Facts { on_battery: Some(true), ..ready() };
    assert_eq!(evaluate(&on_battery), Verdict::Skip(Skip::OnBattery));

    let allowed = Facts { allow_on_battery: true, ..on_battery };
    assert_eq!(evaluate(&allowed), Verdict::Go);
}

#[test]
fn an_absent_upower_does_not_stop_backups() {
    let facts = Facts { on_battery: None, allow_on_battery: false, ..ready() };
    assert_eq!(evaluate(&facts), Verdict::Go);
}

#[test]
fn metering_only_matters_for_a_destination_across_the_network() {
    let local = Facts { metered: Some(true), destination_is_remote: false, ..ready() };
    assert_eq!(evaluate(&local), Verdict::Go);

    let remote = Facts { destination_is_remote: true, ..local };
    assert_eq!(evaluate(&remote), Verdict::Skip(Skip::Metered));

    let allowed = Facts { allow_on_metered: true, ..remote };
    assert_eq!(evaluate(&allowed), Verdict::Go);
}

#[test]
fn an_absent_network_manager_does_not_stop_backups() {
    let facts = Facts { metered: None, destination_is_remote: true, ..ready() };
    assert_eq!(evaluate(&facts), Verdict::Go);
}

#[test]
fn an_unreachable_destination_is_skipped_not_failed() {
    let facts = Facts { destination_reachable: Some(false), ..ready() };
    assert_eq!(evaluate(&facts), Verdict::Skip(Skip::Unreachable));
}

#[test]
fn a_destination_that_cannot_be_probed_is_left_to_the_run_itself() {
    let facts = Facts { destination_reachable: None, ..ready() };
    assert_eq!(evaluate(&facts), Verdict::Go);
}

#[test]
fn a_nearly_full_local_disk_defers_the_backup() {
    let facts = Facts { free_local_bytes: Some(10 * 1024 * 1024), ..ready() };
    assert_eq!(
        evaluate(&facts),
        Verdict::Skip(Skip::LocalDiskLow { free: 10 * 1024 * 1024 })
    );
}

#[test]
fn a_merely_low_disk_warns_without_stopping_anything() {
    let facts = Facts { free_local_bytes: Some(512 * 1024 * 1024), ..ready() };
    assert_eq!(evaluate(&facts), Verdict::Go);
    assert!(local_disk_needs_attention(&facts));
    assert!(!local_disk_needs_attention(&ready()));
}

#[test]
fn a_filesystem_that_will_not_answer_does_not_stop_backups() {
    let facts = Facts { free_local_bytes: None, ..ready() };
    assert_eq!(evaluate(&facts), Verdict::Go);
    assert!(!local_disk_needs_attention(&facts));
}

#[test]
fn the_pause_gate_outranks_the_others() {
    let facts = Facts {
        paused: true,
        on_battery: Some(true),
        destination_reachable: Some(false),
        ..ready()
    };
    assert_eq!(evaluate(&facts), Verdict::Skip(Skip::Paused));
}

#[test]
fn network_manager_guesses_are_acted_on_but_unknown_is_not() {
    assert_eq!(metered_from_nm(1), Some(true), "YES");
    assert_eq!(metered_from_nm(2), Some(false), "NO");
    assert_eq!(metered_from_nm(3), Some(true), "GUESS_YES");
    assert_eq!(metered_from_nm(4), Some(false), "GUESS_NO");
    assert_eq!(metered_from_nm(0), None, "UNKNOWN stays unknown");
    assert_eq!(metered_from_nm(99), None, "a newer value is not guessed at");
}

#[test]
fn borg_remote_syntax_is_recognised() {
    assert!(destination_is_remote("ssh://nas.local/./backups", false));
    assert!(destination_is_remote("keith@nas.local:backups", false));
}

#[test]
fn a_local_path_is_not_remote() {
    assert!(!destination_is_remote("/mnt/usb/backups", false));
    // A path containing a colon is still a path.
    assert!(!destination_is_remote("/mnt/odd:name/backups", false));
    // Unless it is a share that is mounted there.
    assert!(destination_is_remote("/mnt/nas/backups", true));
}

#[test]
fn free_space_is_reported_for_a_real_directory() {
    assert_eq!(free_bytes(&vec![Some((1_000, 4_096))]), Some(4_096_000));
    assert_eq!(free_bytes(&vec![Some((u64::MAX, 4_096))]), Some(u64::MAX));
}

#[test]
fn free_space_falls_back_to_the_nearest_existing_ancestor() {
    assert_eq!(free_bytes(&vec![None, None, Some((3, 10)), Some((9, 9))]), Some(30));
    assert_eq!(free_bytes(&vec![None, None]), None);
}

#[test]
fn a_share_is_recognised_by_the_nearest_existing_ancestor() {
    assert!(path_is_network_mounted(&vec![None, Some(0x6969), Some(0xef53)]));
    assert!(path_is_network_mounted(&vec![Some(0xff53_4d42)]));
    assert!(!path_is_network_mounted(&vec![Some(0xef53), Some(0x6969)]));
    assert!(!path_is_network_mounted(&vec![]));
}

#[test]
fn the_unknown_probe_answers_nothing() {
    let probe = UnknownProbe;
    assert_eq!(probe.on_battery(), None);
    assert_eq!(probe.metered(), None);
    assert_eq!(evaluate(&Facts::default()), Verdict::Go);
}

#[test]
fn a_skip_has_a_token_and_a_sentence() {
    let skips = [
        (Skip::Paused, "paused", "backups are paused"),
        (
            Skip::OnBattery,
            "on-battery",
            "running on battery, and backups on battery are switched off",
        ),
        (
            Skip::Metered,
            "metered-connection",
            "the connection is metered, and backups over metered connections are switched off",
        ),
        (
            Skip::Unreachable,
            "destination-unreachable",
            "the backup destination is not reachable",
        ),
        (
            Skip::LocalDiskLow { free: 10 * 1024 * 1024 },
            "local-disk-low",
            "only 10 MB free on this computer",
        ),
    ];
    for (skip, token, sentence) in skips {
        assert_eq!(skip.as_str(), token);
        assert_eq!(skip.explain(), sentence);
    }
}

#[test]
fn a_charger_cannot_bring_a_network_drive_back() {
    assert!(!Watched::UPower.wakes_reachability());
    assert!(Watched::NetworkManager.wakes_reachability());
    assert_eq!(Watched::UPower.bus_name(), "org.freedesktop.UPower");
    assert_eq!(Watched::NetworkManager.object_path(), "/org/freedesktop/NetworkManager");
}
