//! Daemon startup, single-instance enforcement, and shutdown.
//!
//! The order is deliberate. Owning the bus name is the single-instance lock and
//! the announcement that the daemon is ready, so everything that shapes an
//! answer is in place before it is claimed, and nothing that acts on the
//! repository begins before it is won.

use vstd::prelude::*;

verus! {

/// Why the daemon stopped. Both are a successful exit: losing the race for the
/// name is a normal outcome.
#[derive(Debug, Clone, Copy, PartialEq, Eq, Structural)]
pub enum Outcome {
    /// Ran and shut down cleanly on a signal.
    ShutDown,
    /// Another instance already owned the bus name.
    AlreadyRunning,
}

impl Outcome {
    /// The process exit code for this outcome.
    pub fn exit_code(self) -> (code: u8)
        ensures
            code == 0,
    {
        match self {
            Outcome::ShutDown | Outcome::AlreadyRunning => 0,
        }
    }
}

/// What the bus says to a request for the name without queuing for it.
#[derive(Debug, Clone, Copy, PartialEq, Eq, Structural)]
pub enum NameReply {
    PrimaryOwner,
    AlreadyOwner,
    InQueue,
    Exists,
    /// A refusal that came as an error.
    Taken,
    /// The request itself failed.
    Failed,
}

/// Whether the daemon owns the name now, or `None` when the request failed.
pub fn claim_name(reply: NameReply) -> (owned: Option<bool>)
    ensures
        owned == match reply {
            NameReply::PrimaryOwner | NameReply::AlreadyOwner => Some(true),
            NameReply::InQueue | NameReply::Exists | NameReply::Taken => Some(false),
            NameReply::Failed => None,
        },
{
    match reply {
        NameReply::PrimaryOwner | NameReply::AlreadyOwner => Some(true),
        NameReply::InQueue | NameReply::Exists | NameReply::Taken => Some(false),
        NameReply::Failed => None,
    }
}

/// The steps of starting up, in order.
#[derive(Debug, Clone, Copy, PartialEq, Eq, Structural)]
pub enum Step {
    LoadConfig,
    OpenIndex,
    OpenSecrets,
    /// Build the engine for the configured repository.
    ConnectEngine,
    /// Recover the time of the last backup from the catalogue.
    SeedLastBackup,
    /// Recover the pause and the attempt clock.
    RestoreState,
    /// Export the service object.
    Serve,
    /// Start turning job updates into signals.
    StartSignals,
    ClaimName,
    /// Start the scheduler, the machine probe and the destination watcher.
    StartScheduler,
    /// Catalogue what the repository holds and the catalogue does not.
    Reconcile,
    AwaitShutdown,
}

/// How a step went.
#[derive(Debug, Clone, Copy, PartialEq, Eq, Structural)]
pub enum Report {
    Done,
    Failed,
    /// What the bus said about the name.
    Name(NameReply),
}

/// What follows.
#[derive(Debug, Clone, Copy, PartialEq, Eq, Structural)]
pub enum Next {
    /// Go on with this step.
    Do(Step),
    /// Stop; the daemon has run its course.
    Stop(Outcome),
    /// Stop; the daemon could not start.
    Fail,
}

/// Whether a step acts on the repository.
pub open spec fn acts(step: Step) -> bool {
    step == Step::StartScheduler || step == Step::Reconcile
}

/// Whether a step shapes what the daemon answers.
pub open spec fn shapes_answers(step: Step) -> bool {
    ||| step == Step::LoadConfig
    ||| step == Step::OpenIndex
    ||| step == Step::OpenSecrets
    ||| step == Step::ConnectEngine
    ||| step == Step::SeedLastBackup
    ||| step == Step::RestoreState
    ||| step == Step::Serve
    ||| step == Step::StartSignals
}

/// The step after another one, if it goes well.
pub open spec fn following(step: Step) -> Next {
    match step {
        Step::LoadConfig => Next::Do(Step::OpenIndex),
        Step::OpenIndex => Next::Do(Step::OpenSecrets),
        Step::OpenSecrets => Next::Do(Step::ConnectEngine),
        Step::ConnectEngine => Next::Do(Step::SeedLastBackup),
        Step::SeedLastBackup => Next::Do(Step::RestoreState),
        Step::RestoreState => Next::Do(Step::Serve),
        Step::Serve => Next::Do(Step::StartSignals),
        Step::StartSignals => Next::Do(Step::ClaimName),
        Step::ClaimName => Next::Do(Step::StartScheduler),
        Step::StartScheduler => Next::Do(Step::Reconcile),
        Step::Reconcile => Next::Do(Step::AwaitShutdown),
        Step::AwaitShutdown => Next::Stop(Outcome::ShutDown),
    }
}

/// Whether a failure of the step stops the daemon. A destination that cannot be
/// reached does not: reporting that is what the health model is for, and it
/// takes a live daemon to hear it from.
pub open spec fn is_fatal(step: Step) -> bool {
    ||| step == Step::LoadConfig
    ||| step == Step::OpenIndex
    ||| step == Step::OpenSecrets
    ||| step == Step::Serve
    ||| step == Step::StartSignals
    ||| step == Step::ClaimName
    ||| step == Step::AwaitShutdown
}

/// What follows a step.
pub open spec fn next_of(step: Step, report: Report) -> Next {
    match report {
        Report::Name(reply) if step == Step::ClaimName => match reply {
            NameReply::PrimaryOwner | NameReply::AlreadyOwner => following(step),
            NameReply::InQueue | NameReply::Exists | NameReply::Taken => Next::Stop(
                Outcome::AlreadyRunning,
            ),
            NameReply::Failed => Next::Fail,
        },
        Report::Done if step != Step::ClaimName => following(step),
        _ => if is_fatal(step) {
            Next::Fail
        } else {
            following(step)
        },
    }
}

/// What follows a step of starting up.
pub fn startup(step: Step, report: Report) -> (next: Next)
    ensures
        next == next_of(step, report),
{
    match report {
        Report::Name(reply) => {
            if step == Step::ClaimName {
                return match claim_name(reply) {
                    Some(true) => Next::Do(Step::StartScheduler),
                    Some(false) => Next::Stop(Outcome::AlreadyRunning),
                    None => Next::Fail,
                };
            }
        },
        Report::Done => {
            if step != Step::ClaimName {
                return after(step);
            }
        },
        Report::Failed => {},
    }
    match step {
        Step::LoadConfig
        | Step::OpenIndex
        | Step::OpenSecrets
        | Step::Serve
        | Step::StartSignals
        | Step::ClaimName
        | Step::AwaitShutdown => Next::Fail,
        _ => after(step),
    }
}

/// The step after another one, if it goes well.
fn after(step: Step) -> (next: Next)
    ensures
        next == following(step),
{
    match step {
        Step::LoadConfig => Next::Do(Step::OpenIndex),
        Step::OpenIndex => Next::Do(Step::OpenSecrets),
        Step::OpenSecrets => Next::Do(Step::ConnectEngine),
        Step::ConnectEngine => Next::Do(Step::SeedLastBackup),
        Step::SeedLastBackup => Next::Do(Step::RestoreState),
        Step::RestoreState => Next::Do(Step::Serve),
        Step::Serve => Next::Do(Step::StartSignals),
        Step::StartSignals => Next::Do(Step::ClaimName),
        Step::ClaimName => Next::Do(Step::StartScheduler),
        Step::StartScheduler => Next::Do(Step::Reconcile),
        Step::Reconcile => Next::Do(Step::AwaitShutdown),
        Step::AwaitShutdown => Next::Stop(Outcome::ShutDown),
    }
}

/// Nothing acts on the repository before the name is won: the first step that
/// does comes right after the bus gave the daemon the name.
pub proof fn nothing_acts_before_the_name_is_won(step: Step, report: Report, next: Step)
    requires
        next_of(step, report) == Next::Do(next),
        acts(next),
        !acts(step),
    ensures
        step == Step::ClaimName,
        report == Report::Name(NameReply::PrimaryOwner) || report == Report::Name(
            NameReply::AlreadyOwner,
        ),
{
}

/// Nothing that shapes an answer happens once the name has been claimed.
pub proof fn answers_are_ready_before_the_name_is_claimed(step: Step, report: Report, next: Step)
    requires
        next_of(step, report) == Next::Do(next),
        shapes_answers(next),
    ensures
        shapes_answers(step),
{
}

/// Losing the race for the name is no failure.
pub proof fn losing_the_race_is_a_clean_exit(reply: NameReply)
    requires
        reply == NameReply::Exists || reply == NameReply::InQueue || reply == NameReply::Taken,
    ensures
        next_of(Step::ClaimName, Report::Name(reply)) == Next::Stop(Outcome::AlreadyRunning),
{
}

/// How many steps come before one.
pub open spec fn place(step: Step) -> int {
    match step {
        Step::LoadConfig => 0,
        Step::OpenIndex => 1,
        Step::OpenSecrets => 2,
        Step::ConnectEngine => 3,
        Step::SeedLastBackup => 4,
        Step::RestoreState => 5,
        Step::Serve => 6,
        Step::StartSignals => 7,
        Step::ClaimName => 8,
        Step::StartScheduler => 9,
        Step::Reconcile => 10,
        Step::AwaitShutdown => 11,
    }
}

/// Each step comes right after the one before it, whatever was reported: none is
/// left out and none is done twice. The daemon has run its course only after the
/// last step, or when another one has the name.
pub proof fn steps_come_one_after_another(step: Step, report: Report)
    ensures
        next_of(step, report) matches Next::Do(next) ==> place(next) == place(step) + 1,
        next_of(step, report) == Next::Stop(Outcome::ShutDown) ==> step == Step::AwaitShutdown
            && report == Report::Done,
        next_of(step, report) == Next::Stop(Outcome::AlreadyRunning) <==> step == Step::ClaimName
            && (report == Report::Name(NameReply::InQueue) || report == Report::Name(
            NameReply::Exists,
        ) || report == Report::Name(NameReply::Taken)),
{
}

/// Of the steps that can fail, only those without which there would be nothing to
/// answer with stop the daemon: an engine, a last backup, a pause or a clock that
/// cannot be had, a scheduler or a catalogue that cannot be brought up to date, do
/// not.
pub proof fn what_can_be_done_without_stops_nothing(step: Step)
    ensures
        next_of(step, Report::Failed) == Next::Fail <==> step == Step::LoadConfig || step
            == Step::OpenIndex || step == Step::OpenSecrets || step == Step::Serve || step
            == Step::StartSignals || step == Step::ClaimName || step == Step::AwaitShutdown,
        next_of(step, Report::Failed) != Next::Fail ==> next_of(step, Report::Failed) == next_of(
            step,
            Report::Done,
        ),
        step != Step::ClaimName ==> next_of(step, Report::Done) != Next::Fail,
        next_of(Step::ClaimName, Report::Done) == Next::Fail,
        next_of(Step::AwaitShutdown, Report::Done) == Next::Stop(Outcome::ShutDown),
{
}

} // verus!
