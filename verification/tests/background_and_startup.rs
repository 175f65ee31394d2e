//! Running in the background, starting up, and the first notification.

use backtrackd::background::{reconcile, should_leave, IdleWatch, UnitChange};
use backtrackd::daemon::{claim_name, startup, NameReply, Next, Outcome, Report, Step};
use backtrackd::jobs::JobKind;
use backtrackd::notify::{first_backup, FirstBackup, Notifications};

#[test]
fn running_in_background_never_leaves() {
    assert!(!should_leave(true, false, false, 100));
}

#[test]
fn an_open_window_or_a_running_job_keeps_it() {
    assert!(!should_leave(false, true, false, 100));
    assert!(
        !should_leave(false, false, true, 100),
        "leaving mid-backup would abandon the backup"
    );
}

#[test]
fn it_leaves_only_after_being_idle_for_a_while() {
    assert!(!should_leave(false, false, false, 0));
    assert!(!should_leave(false, false, false, 1));
    assert!(should_leave(false, false, false, 2));
}

#[test]
fn a_look_that_finds_it_needed_starts_the_count_again() {
    let mut watch = IdleWatch::new();
    assert!(!watch.look(false, false, false));
    assert!(!watch.look(false, true, false));
    assert!(!watch.look(false, false, false));
    assert!(watch.look(false, false, false));
}

#[test]
fn starting_at_login_is_changed_only_where_it_differs() {
    assert_eq!(reconcile(None, true), UnitChange::Nothing);
    assert_eq!(reconcile(Some("enabled"), true), UnitChange::Nothing);
    assert_eq!(reconcile(Some("disabled"), false), UnitChange::Nothing);
    assert_eq!(reconcile(Some("disabled"), true), UnitChange::Enable);
    assert_eq!(reconcile(Some("enabled"), false), UnitChange::Disable);
    assert_eq!(reconcile(Some("masked"), true), UnitChange::LeaveAlone);
    assert_eq!(reconcile(Some("masked"), false), UnitChange::Nothing);
}

#[test]
fn losing_the_name_race_is_a_successful_outcome() {
    assert_eq!(Outcome::AlreadyRunning.exit_code(), 0);
    assert_eq!(Outcome::ShutDown.exit_code(), 0);
}

#[test]
fn the_name_is_won_or_lost() {
    assert_eq!(claim_name(NameReply::PrimaryOwner), Some(true));
    assert_eq!(claim_name(NameReply::AlreadyOwner), Some(true));
    assert_eq!(claim_name(NameReply::Exists), Some(false));
    assert_eq!(claim_name(NameReply::InQueue), Some(false));
    assert_eq!(claim_name(NameReply::Taken), Some(false));
    assert_eq!(claim_name(NameReply::Failed), None);
}

fn start_with(reply: NameReply) -> (Vec<Step>, Next) {
    let mut steps = vec![Step::LoadConfig];
    loop {
        let step = *steps.last().unwrap();
        let report =
            if step == Step::ClaimName { Report::Name(reply) } else { Report::Done };
        match startup(step, report) {
            Next::Do(next) => steps.push(next),
            end => return (steps, end),
        }
    }
}

#[test]
fn nothing_acts_on_the_repository_before_the_name_is_won() {
    let (steps, end) = start_with(NameReply::PrimaryOwner);
    let place = |step| steps.iter().position(|s| *s == step).unwrap();
    assert!(place(Step::ClaimName) < place(Step::StartScheduler));
    assert!(place(Step::ClaimName) < place(Step::Reconcile));
    assert!(place(Step::Serve) < place(Step::ClaimName));
    assert!(place(Step::RestoreState) < place(Step::ClaimName));
    assert_eq!(end, Next::Stop(Outcome::ShutDown));

    let (steps, end) = start_with(NameReply::Exists);
    assert_eq!(steps.last(), Some(&Step::ClaimName));
    assert_eq!(end, Next::Stop(Outcome::AlreadyRunning));

    let (_, end) = start_with(NameReply::Failed);
    assert_eq!(end, Next::Fail);
}

#[test]
fn an_unreachable_destination_does_not_stop_the_daemon() {
    assert_eq!(startup(Step::ConnectEngine, Report::Failed), Next::Do(Step::SeedLastBackup));
    assert_eq!(startup(Step::Reconcile, Report::Failed), Next::Do(Step::AwaitShutdown));
    assert_eq!(startup(Step::OpenIndex, Report::Failed), Next::Fail);
}

#[test]
fn the_first_backup_is_announced_unless_notifications_are_off() {
    assert!(first_backup(Notifications::AttentionOnly, "completed").is_some());
    assert!(first_backup(Notifications::All, "completed").is_some());
    assert_eq!(first_backup(Notifications::Never, "completed"), None);
}

#[test]
fn a_failure_is_announced_and_a_cancellation_is_not() {
    let (summary, _) = first_backup(Notifications::AttentionOnly, "failed").unwrap();
    assert!(summary.contains("did not finish"), "{summary}");
    assert_eq!(first_backup(Notifications::All, "cancelled"), None);
}

#[test]
fn the_end_of_the_first_backup_is_told_of_once() {
    let all = Notifications::All;
    let mut first = FirstBackup::new(false);
    assert_eq!(first.ended(JobKind::Prune, all, "completed"), None);
    assert_eq!(first.ended(JobKind::Backup, all, "cancelled"), None);
    let (summary, _) = first.ended(JobKind::Backup, all, "failed").unwrap();
    assert!(summary.contains("did not finish"), "{summary}");
    assert_eq!(first.ended(JobKind::Backup, all, "failed"), None);
    assert_eq!(first.ended(JobKind::Backup, all, "completed"), None);

    let mut later = FirstBackup::new(true);
    assert_eq!(later.ended(JobKind::Backup, all, "completed"), None);
}
