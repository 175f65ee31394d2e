//! When a scheduled backup runs.

use backtrackd::schedule::{
    compact_due, decide, interval_for, jitter, Decision, ScheduleInput, Scheduler,
    CATCH_UP_WINDOW, MAX_SLEEP, MIN_SLEEP,
};
use backtrackd::time::{Span, Timestamp};

const HOUR: u64 = 3_600;

fn now() -> Timestamp {
    Timestamp::from_secs(1_000_000)
}

fn ago(seconds: u64) -> Option<Timestamp> {
    Some(now().minus(Span::from_secs(seconds)))
}

/// A configured machine on the hourly default, backed up ten minutes ago.
fn hourly() -> ScheduleInput {
    ScheduleInput {
        interval: Some(Span::from_secs(HOUR)),
        last_attempt: ago(600),
        paused_until: None,
        configured: true,
        busy: false,
    }
}

fn decide_now(input: &ScheduleInput) -> Decision {
    decide(input, now(), Span::from_secs(7))
}

#[test]
fn nothing_is_due_before_the_interval_has_passed() {
    let Decision::Idle(d) = decide_now(&hourly()) else {
        panic!("a backup ten minutes old is not due");
    };
    assert!(d <= Span::from_secs(MAX_SLEEP), "slept {d:?}, longer than the maximum");
}

#[test]
fn a_backup_is_due_once_the_interval_elapses() {
    let input = ScheduleInput { last_attempt: ago(3_601), ..hourly() };
    assert_eq!(decide_now(&input), Decision::Run);
}

#[test]
fn the_normal_cadence_does_not_take_the_catch_up_path() {
    let input = ScheduleInput { last_attempt: ago(3_601), ..hourly() };
    assert_eq!(decide_now(&input), Decision::Run);
    let input = ScheduleInput { last_attempt: ago(7_000), ..hourly() };
    assert_eq!(decide_now(&input), Decision::Run);
}

#[test]
fn waking_after_a_long_sleep_catches_up_within_the_window() {
    let input = ScheduleInput { last_attempt: ago(8 * 3_600), ..hourly() };
    let Decision::CatchUp(delay) = decide_now(&input) else {
        panic!("a run missed by hours must be a catch-up, not an instant fire");
    };
    assert!(
        delay <= Span::from_secs(CATCH_UP_WINDOW),
        "catch-up must happen inside the two-minute window, got {delay:?}"
    );
}

#[test]
fn catch_up_never_exceeds_the_window_however_large_the_jitter() {
    let input = ScheduleInput { last_attempt: ago(8 * 3_600), ..hourly() };
    let decision = decide(&input, now(), Span::from_secs(9_999));
    assert_eq!(decision, Decision::CatchUp(Span::from_secs(CATCH_UP_WINDOW)));
}

#[test]
fn a_pause_is_honoured_and_the_loop_sleeps_until_it_lifts() {
    let input = ScheduleInput {
        last_attempt: ago(8 * 3_600),
        paused_until: Some(now().plus(Span::from_secs(30))),
        ..hourly()
    };
    assert_eq!(
        decide_now(&input),
        Decision::Idle(Span::from_secs(30)),
        "an overdue backup must still respect a pause"
    );
}

#[test]
fn schedule_a_pause_expires_by_itself() {
    let input = ScheduleInput {
        last_attempt: ago(8 * 3_600),
        paused_until: Some(now().minus(Span::from_secs(1))),
        ..hourly()
    };
    assert!(
        matches!(decide_now(&input), Decision::CatchUp(_)),
        "an expired pause must stop applying without anyone lifting it"
    );
}

#[test]
fn a_long_pause_does_not_cost_a_wake_up_per_minute() {
    let input = ScheduleInput {
        paused_until: Some(now().plus(Span::from_secs(4 * 3_600))),
        ..hourly()
    };
    assert_eq!(decide_now(&input), Decision::Idle(Span::from_secs(MAX_SLEEP)));
}

#[test]
fn a_manual_schedule_never_fires() {
    let input =
        ScheduleInput { interval: None, last_attempt: ago(10 * 24 * 3_600), ..hourly() };
    assert_eq!(decide_now(&input), Decision::Idle(Span::from_secs(MAX_SLEEP)));
    let input = ScheduleInput {
        interval: None,
        last_attempt: Some(Timestamp::from_secs(1_000_000 - 90 * 24 * 3_600)),
        ..hourly()
    };
    assert_eq!(decide_now(&input), Decision::Idle(Span::from_secs(MAX_SLEEP)));
}

#[test]
fn an_unconfigured_machine_never_fires() {
    let input = ScheduleInput { configured: false, last_attempt: None, ..hourly() };
    assert_eq!(decide_now(&input), Decision::Idle(Span::from_secs(MAX_SLEEP)));
}

#[test]
fn a_configured_machine_that_has_never_run_backs_up_immediately() {
    let input = ScheduleInput { last_attempt: None, ..hourly() };
    assert_eq!(decide_now(&input), Decision::Run);
}

#[test]
fn a_busy_daemon_does_not_queue_a_second_backup() {
    let input = ScheduleInput { last_attempt: ago(8 * 3_600), busy: true, ..hourly() };
    assert_eq!(decide_now(&input), Decision::Idle(Span::from_secs(MAX_SLEEP)));
}

#[test]
fn the_loop_never_sleeps_for_zero() {
    let input = ScheduleInput {
        last_attempt: Some(
            now().minus(Span::from_secs(HOUR)).plus(Span::from_millis(1)),
        ),
        ..hourly()
    };
    assert_eq!(decide_now(&input), Decision::Idle(Span::from_secs(MIN_SLEEP)));
}

#[test]
fn a_full_cadence_advances_one_interval_at_a_time() {
    let mut clock = now();
    let mut input = ScheduleInput { last_attempt: Some(clock), ..hourly() };
    let mut runs = 0;
    for _ in 0..(24 * 60) {
        clock = clock.plus(Span::from_secs(60));
        match decide(&input, clock, Span::zero()) {
            Decision::Run => {
                runs += 1;
                input.last_attempt = Some(clock);
            }
            Decision::Idle(_) => {}
            Decision::CatchUp(_) => panic!("an uninterrupted cadence never catches up"),
        }
    }
    assert_eq!(runs, 24, "one backup per hour over a day");
}

#[test]
fn jitter_stays_inside_the_window() {
    for i in 0..100 {
        let delay = jitter(Timestamp::new(1_786_085_752 + i, 987_654_321));
        assert!(delay < Span::from_secs(CATCH_UP_WINDOW));
    }
}

#[test]
fn the_development_override_is_ignored_outside_development() {
    let hour = Some(Span::from_secs(HOUR));
    assert_eq!(interval_for(hour, false, Some("5")), hour);
    assert_eq!(interval_for(hour, false, None), hour);
    assert_eq!(interval_for(hour, true, Some("5")), Some(Span::from_secs(5)));
    assert_eq!(interval_for(hour, true, Some("0")), hour);
    assert_eq!(interval_for(hour, true, Some("soon")), hour);
    assert_eq!(interval_for(hour, true, None), hour);
}

#[test]
fn a_manual_frequency_has_no_interval_even_in_development() {
    assert_eq!(interval_for(None, true, Some("5")), None);
    assert_eq!(interval_for(None, false, None), None);
}

#[test]
fn a_catch_up_is_put_off_once_and_then_runs() {
    let input = ScheduleInput { last_attempt: ago(8 * 3_600), ..hourly() };
    let mut scheduler = Scheduler::new();
    let first = scheduler.tick(&input, now(), Span::from_secs(40));
    assert!(!first.run);
    assert_eq!(first.sleep, Span::from_secs(40));
    // Woken early: the rest of the delay is served.
    let early = scheduler.tick(&input, now().plus(Span::from_secs(10)), Span::from_secs(99));
    assert!(!early.run);
    assert_eq!(early.sleep, Span::from_secs(30));
    let due = scheduler.tick(&input, now().plus(Span::from_secs(40)), Span::from_secs(99));
    assert!(due.run);
    assert_eq!(due.sleep, Span::from_secs(5));
}

#[test]
fn an_ordinary_tick_runs_or_waits() {
    let mut scheduler = Scheduler::new();
    let idle = scheduler.tick(&hourly(), now(), Span::from_secs(7));
    assert!(!idle.run);
    assert_eq!(idle.sleep, Span::from_secs(60));
    let due = ScheduleInput { last_attempt: ago(3_601), ..hourly() };
    assert!(scheduler.tick(&due, now(), Span::from_secs(7)).run);
    assert_eq!(ScheduleInput::default().interval, None);
}

#[test]
fn the_repository_is_compacted_once_a_day_and_not_while_busy() {
    assert!(!compact_due(None, now(), false));
    assert!(!compact_due(ago(86_399), now(), false));
    assert!(compact_due(ago(86_400), now(), false));
    assert!(!compact_due(ago(86_400), now(), true));
}

#[test]
fn a_run_late_by_exactly_one_period_is_not_a_catch_up() {
    let input = ScheduleInput { last_attempt: ago(7_200), ..hourly() };
    assert_eq!(decide_now(&input), Decision::Run);
    let input = ScheduleInput { last_attempt: ago(7_201), ..hourly() };
    assert_eq!(decide_now(&input), Decision::CatchUp(Span::from_secs(7)));
}

#[test]
fn a_clock_set_back_does_not_lengthen_a_catch_up() {
    let input = ScheduleInput { last_attempt: ago(8 * 3_600), ..hourly() };
    let mut scheduler = Scheduler::new();
    let later = now().plus(Span::from_secs(3_600));
    assert_eq!(scheduler.tick(&input, later, Span::from_secs(40)).sleep, Span::from_secs(40));
    let back = scheduler.tick(&input, now(), Span::from_secs(40));
    assert!(!back.run);
    assert_eq!(back.sleep, Span::from_secs(CATCH_UP_WINDOW));
    assert!(scheduler.tick(&input, now().plus(Span::from_secs(120)), Span::from_secs(40)).run);
}

#[test]
fn an_overdue_run_is_put_off_once_up_to_the_end_of_the_clock() {
    let input = ScheduleInput { last_attempt: ago(8 * 3_600), ..hourly() };
    let last = Timestamp::from_secs(i64::MAX);
    let mut scheduler = Scheduler::new();
    assert_eq!(scheduler.tick(&input, last, Span::from_secs(40)).sleep, Span::from_secs(40));
    let early = scheduler.tick(&input, last, Span::from_secs(99));
    assert!(!early.run);
    assert_eq!(early.sleep, Span::from_secs(40));
}
