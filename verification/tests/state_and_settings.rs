//! Pauses, policies, times on the wire, and settings.

use backtrackd::service::error::DaemonError;
use backtrackd::service::settings::{
    accepted, config_get, config_put, config_set, config_text, literal, no_toml_value,
};
use backtrackd::service::state::{
    from_epoch, next_due, to_epoch, unknown_policy, PauseState, RestorePolicy,
};
use backtrackd::time::{Span, Timestamp};

fn now() -> Timestamp {
    Timestamp::from_secs(1_000_000)
}

const HOUR: u64 = 3_600;

#[test]
fn restore_policies_round_trip_through_their_wire_names() {
    for policy in [
        RestorePolicy::Ask,
        RestorePolicy::KeepBoth,
        RestorePolicy::Replace,
        RestorePolicy::SkipIdentical,
    ] {
        assert_eq!(RestorePolicy::parse(policy.as_str()).unwrap(), policy);
    }
}

#[test]
fn an_unknown_policy_is_refused_by_name() {
    let err = RestorePolicy::parse("overwrite-everything").unwrap_err();
    assert!(matches!(err, DaemonError::InvalidArgument(_)), "got {err:?}");
    assert_eq!(
        err.description(),
        "unknown restore policy \"overwrite-everything\"; expected one of \
         ask, keep-both, replace, skip-identical"
    );
    assert_eq!(err, unknown_policy("\"overwrite-everything\""));
}

#[test]
fn the_default_policy_asks() {
    assert_eq!(RestorePolicy::default(), RestorePolicy::Ask);
}

#[test]
fn state_a_pause_expires_by_itself() {
    let mut pause = PauseState::default();
    assert!(!pause.is_paused(now()));

    pause.pause_until(now().plus(Span::from_secs(3_600)));
    assert!(pause.is_paused(now()));
    assert!(
        !pause.is_paused(now().plus(Span::from_secs(3_601))),
        "the pause must lift on its own"
    );
}

#[test]
fn resuming_clears_the_pause() {
    let mut pause = PauseState::default();
    pause.pause_until(now().plus(Span::from_secs(3_600)));
    pause.resume();
    assert!(!pause.is_paused(now()));
    assert_eq!(pause.until(now()), None);
}

#[test]
fn epoch_conversion_round_trips_and_treats_zero_as_absent() {
    assert_eq!(to_epoch(None), 0);
    assert_eq!(from_epoch(0), None);
    let t = now();
    assert_eq!(from_epoch(to_epoch(Some(t))), Some(t));
    assert_eq!(to_epoch(Some(Timestamp::from_secs(-5))), 0);
}

#[test]
fn the_next_backup_is_one_interval_after_the_last() {
    let last = now().minus(Span::from_secs(600));
    assert_eq!(
        next_due(Some(Span::from_secs(HOUR)), Some(last), now()),
        Some(last.plus(Span::from_secs(3_600)))
    );
}

#[test]
fn a_missed_schedule_is_due_now_not_in_the_past() {
    let last = now().minus(Span::from_secs(7 * 24 * 3_600));
    assert_eq!(
        next_due(Some(Span::from_secs(HOUR)), Some(last), now()),
        Some(now()),
        "a laptop that slept for a week is due immediately"
    );
}

#[test]
fn a_manual_schedule_has_no_next_backup() {
    assert_eq!(next_due(None, Some(now()), now()), None);
}

/// The settings of a machine that nobody has touched, as far as they matter here.
fn settings() -> toml::Value {
    let text = "[backup]\n\
                exclude = [\"*.tmp\"]\n\
                frequency = \"hourly\"\n\
                include = []\n\
                on_battery = false\n\
                [storage.retention]\n\
                keep_daily = 7\n\
                keep_hourly = 24\n";
    toml::from_str(text).unwrap()
}

#[test]
fn config_get_reads_nested_keys() {
    let config = settings();
    assert_eq!(config_get(&config, "backup.frequency").unwrap(), "\"hourly\"");
    assert_eq!(config_get(&config, "storage.retention.keep_daily").unwrap(), "7");
    assert_eq!(config_get(&config, "backup.on_battery").unwrap(), "false");
    assert_eq!(config_get(&config, "backup.exclude").unwrap(), "[\"*.tmp\"]");
}

#[test]
fn config_get_rejects_an_unknown_key() {
    let err = config_get(&settings(), "backup.frequancy").unwrap_err();
    assert!(matches!(err, DaemonError::UnknownConfigKey(_)), "got {err:?}");
    assert_eq!(err.description(), "backup.frequancy");
    assert!(config_get(&settings(), "backup.frequency.hour").is_err());
}

#[test]
fn config_set_applies_a_scalar() {
    let updated = config_set(settings(), "backup.frequency", "\"daily\"").unwrap();
    assert_eq!(updated["backup"]["frequency"].as_str(), Some("daily"));
    assert_eq!(config_get(&updated, "backup.frequency").unwrap(), "\"daily\"");
}

#[test]
fn a_value_is_put_under_a_key_that_exists() {
    let seven = toml::Value::Integer(7);
    let updated = config_put(settings(), "storage.retention.keep_hourly", seven).unwrap();
    assert_eq!(updated["storage"]["retention"]["keep_hourly"].as_integer(), Some(7));
    assert_eq!(updated["storage"]["retention"]["keep_daily"].as_integer(), Some(7));
    let err = config_put(settings(), "storage.retention.keep", toml::Value::Integer(1));
    assert_eq!(
        err.unwrap_err(),
        DaemonError::UnknownConfigKey("storage.retention.keep".to_string())
    );
}

#[test]
fn config_set_applies_a_list() {
    let updated = config_set(
        settings(),
        "backup.include",
        "[\"/home/k/Documents\", \"/home/k/Pictures\"]",
    )
    .unwrap();
    let list = updated["backup"]["include"].as_array().unwrap();
    assert_eq!(list.len(), 2);
    assert!(list[0].as_str().unwrap().ends_with("Documents"));
}

#[test]
fn config_set_rejects_a_value_of_the_wrong_type() {
    // The document is well formed; the schema is what refuses it.
    let updated = config_set(settings(), "backup.on_battery", "\"yes\"").unwrap();
    assert!(config_text(&updated).unwrap().contains("on_battery = \"yes\""));
    let err = accepted(Err("invalid type: string".to_string())).unwrap_err();
    assert!(matches!(err, DaemonError::InvalidConfig(_)), "got {err:?}");
}

#[test]
fn config_set_rejects_what_is_no_toml() {
    let err = config_set(settings(), "backup.frequency", "daily").unwrap_err();
    assert!(matches!(err, DaemonError::InvalidArgument(_)), "got {err:?}");
    assert!(err.description().starts_with("\"daily\" is not a TOML value: "), "{err:?}");
    assert_eq!(
        no_toml_value("\"x\"", "why").description(),
        "\"x\" is not a TOML value: why"
    );
}

#[test]
fn config_set_rejects_an_unknown_key_rather_than_inventing_it() {
    let err = config_set(settings(), "backup.frequancy", "\"daily\"").unwrap_err();
    assert!(matches!(err, DaemonError::UnknownConfigKey(_)), "got {err:?}");

    let err = config_set(settings(), "nonexistent.key", "1").unwrap_err();
    assert!(matches!(err, DaemonError::UnknownConfigKey(_)), "got {err:?}");

    let err =
        accepted(Ok(vec!["backup.a".to_string(), "backup.b".to_string()])).unwrap_err();
    assert_eq!(err, DaemonError::UnknownConfigKey("backup.a, backup.b".to_string()));
    assert_eq!(accepted(Ok(vec![])), Ok(()));
}

#[test]
fn config_set_leaves_everything_else_alone() {
    let before = settings();
    let after = config_set(settings(), "backup.frequency", "\"daily\"").unwrap();
    assert_eq!(after["storage"], before["storage"]);
    assert_eq!(after["backup"]["exclude"], before["backup"]["exclude"]);
    assert_ne!(after, before);
}

#[test]
fn config_set_rejects_an_unknown_enum_variant() {
    // Well-formed TOML, so the edit is made; the schema refuses the result.
    let updated = config_set(settings(), "backup.frequency", "\"fortnightly\"").unwrap();
    assert_eq!(config_get(&updated, "backup.frequency").unwrap(), "\"fortnightly\"");
    let err = accepted(Err("unknown variant `fortnightly`".to_string())).unwrap_err();
    assert!(matches!(err, DaemonError::InvalidConfig(_)), "got {err:?}");
}

#[test]
fn the_document_round_trips_through_get_and_parse() {
    let mut config = settings();
    let storage = config["storage"].as_table_mut().unwrap();
    storage.insert("repository".to_string(), toml::Value::String("/mnt/backups".to_string()));
    let text = config_text(&config).unwrap();
    let parsed: toml::Value = toml::from_str(&text).unwrap();
    assert_eq!(parsed, config);
    assert!(config_text(&toml::Value::Integer(1)).is_err(), "a document is a table");
}

#[test]
fn a_literal_is_what_stands_to_the_right() {
    assert_eq!(literal("v = 7\n"), "7");
    assert_eq!(literal("v = \"a b\" \n"), "\"a b\"");
    assert_eq!(literal("v = v = 1"), "1");
    assert_eq!(literal("[v]\na = 1\n"), "[v]\na = 1");
}
