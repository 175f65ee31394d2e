//! Whether the destination is there.

use backtrackd::engine::EngineError;
use backtrackd::reachability::{
    next_look, split_host_port, ssh_endpoint, Look, Observed, Reach, ReachabilityTracker,
    RealProbe, Waited, MIN_TRANSITION_GAP,
};
use backtrackd::time::{Span, Timestamp};

fn now() -> Timestamp {
    Timestamp::from_secs(1_000_000)
}

fn later(secs: u64) -> Timestamp {
    now().plus(Span::from_secs(secs))
}

#[test]
fn an_agreeing_observation_changes_nothing() {
    let mut t = ReachabilityTracker::new(true);
    assert_eq!(t.observe(Reach::Yes, now()), Observed::Unchanged);
    assert!(t.reachable());
}

#[test]
fn the_first_disagreement_is_acted_on_immediately() {
    let mut t = ReachabilityTracker::new(true);
    assert_eq!(t.observe(Reach::No, now()), Observed::Changed { reachable: false });
    assert!(!t.reachable());
}

#[test]
fn uncertainty_never_reports_the_destination_as_gone() {
    let mut t = ReachabilityTracker::new(true);
    for _ in 0..10 {
        assert_eq!(t.observe(Reach::Unknown, now()), Observed::Unchanged);
    }
    assert!(t.reachable(), "an unknown is not a no");
}

#[test]
fn a_flapping_link_does_not_thrash_the_state() {
    let mut t = ReachabilityTracker::new(true);
    assert_eq!(t.observe(Reach::No, now()), Observed::Changed { reachable: false });

    let mut changes = 0;
    for step in 1..12 {
        let clock = later(step * 5);
        let reach = if step % 2 == 0 { Reach::Yes } else { Reach::No };
        match t.observe(reach, clock) {
            Observed::Changed { .. } => changes += 1,
            Observed::Held { until } => {
                assert_eq!(until, later(MIN_TRANSITION_GAP));
            }
            Observed::Unchanged => {}
        }
    }
    assert_eq!(changes, 0, "no transition may be reported inside the hysteresis window");
}

#[test]
fn the_state_still_converges_on_the_truth_after_the_window() {
    let mut t = ReachabilityTracker::new(true);
    t.observe(Reach::No, now());
    assert!(matches!(t.observe(Reach::Yes, later(10)), Observed::Held { .. }));
    assert_eq!(
        t.observe(Reach::Yes, later(MIN_TRANSITION_GAP)),
        Observed::Changed { reachable: true },
        "once the window passes, the current truth is adopted"
    );
    assert!(t.reachable());
}

#[test]
fn a_held_observation_that_went_away_is_not_applied_later() {
    let mut t = ReachabilityTracker::new(true);
    t.observe(Reach::No, now());
    assert!(matches!(t.observe(Reach::Yes, later(10)), Observed::Held { .. }));
    assert_eq!(
        t.observe(Reach::No, later(MIN_TRANSITION_GAP + 1)),
        Observed::Unchanged,
        "the state already says unreachable; there is nothing to change"
    );
    assert!(!t.reachable());
}

#[test]
fn transitions_are_at_least_a_minute_apart() {
    let mut t = ReachabilityTracker::new(true);
    let mut last_change: Option<Timestamp> = None;
    for step in 0..600u64 {
        let clock = later(step);
        let reach = if step % 2 == 0 { Reach::No } else { Reach::Yes };
        if let Observed::Changed { .. } = t.observe(reach, clock) {
            if let Some(previous) = last_change {
                let gap = clock.since(previous).unwrap();
                assert!(
                    gap >= Span::from_secs(MIN_TRANSITION_GAP),
                    "two changes {gap:?} apart, which is inside the window"
                );
            }
            last_change = Some(clock);
        }
    }
    assert!(last_change.is_some());
}

#[test]
fn borg_remote_destinations_are_recognised_with_their_ports() {
    assert_eq!(ssh_endpoint("ssh://nas.local/./backups"), Some(("nas.local".into(), 22)));
    assert_eq!(
        ssh_endpoint("ssh://keith@nas.local:2222/./backups"),
        Some(("nas.local".into(), 2222))
    );
    assert_eq!(ssh_endpoint("keith@nas.local:backups"), Some(("nas.local".into(), 22)));
    assert_eq!(
        ssh_endpoint("ssh://[2001:db8::1]:2222/./backups"),
        Some(("2001:db8::1".into(), 2222)),
        "an IPv6 literal loses its brackets before it reaches connect()"
    );
}

#[test]
fn a_local_path_is_not_a_remote_destination() {
    assert_eq!(ssh_endpoint("/mnt/usb/backups"), None);
    assert_eq!(
        ssh_endpoint("/mnt/odd:name/backups"),
        None,
        "a colon in a path is still a path"
    );
    assert_eq!(ssh_endpoint(""), None);
}

#[test]
fn a_host_may_come_with_a_port() {
    assert_eq!(split_host_port("nas.local"), ("nas.local".to_string(), 22));
    assert_eq!(split_host_port("nas.local:2022"), ("nas.local".to_string(), 2022));
}

#[test]
fn a_local_destination_is_probed_by_looking_at_it() {
    assert_eq!(RealProbe.plan("/mnt/usb/repo"), Look::Access);
    assert_eq!(
        RealProbe.accessed(Waited::Came(Some(false))),
        Reach::No,
        "an unplugged drive presents as an absent path"
    );
    assert_eq!(RealProbe.accessed(Waited::Came(Some(true))), Reach::Yes);
    assert_eq!(RealProbe.accessed(Waited::TimedOut), Reach::Unknown);
}

#[test]
fn a_remote_destination_is_connected_to() {
    assert_eq!(
        RealProbe.plan("ssh://keith@nas.local:2222/./backups"),
        Look::Connect { host: "nas.local".to_string(), port: 2222 }
    );
    assert_eq!(RealProbe.connected(Waited::Came(false), true), Some(Reach::No));
    assert_eq!(RealProbe.connected(Waited::Came(true), false), Some(Reach::Yes));
    assert_eq!(RealProbe.connected(Waited::Came(true), true), None);
    assert_eq!(RealProbe.confirmed(Waited::Came(Ok(()))), Reach::Yes);
    assert_eq!(
        RealProbe.confirmed(Waited::Came(Err(EngineError::RepoUnreachable))),
        Reach::No
    );
}

#[test]
fn an_unconfigured_destination_is_unknown_rather_than_absent() {
    assert_eq!(RealProbe.plan(""), Look::Nowhere);
    assert_eq!(Reach::Unknown.definite(), None);
    assert_eq!(Reach::Yes.definite(), Some(true));
    assert_eq!(Reach::No.definite(), Some(false));
    assert_eq!(Reach::from(true), Reach::Yes);
    assert_eq!(Reach::from(false), Reach::No);
}

#[test]
fn a_held_look_is_repeated_when_it_can_be_acted_on() {
    let held = Observed::Held { until: later(25) };
    assert_eq!(next_look(held, now()), Span::from_secs(25));
    assert_eq!(next_look(held, later(25)), Span::from_secs(1));
    assert_eq!(next_look(Observed::Unchanged, now()), Span::from_secs(60));
}
