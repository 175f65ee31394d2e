//! The job model: what long-running work the daemon does, what state it is in,
//! and what is allowed to happen next.
//!
//! Every operation that can outlive a method call becomes a job with a
//! [`JobId`], so the caller gets an identity back at once and follows progress
//! through signals. The state machine lives here, admission control in
//! [`guard`], rate limiting in [`throttle`], one run of a job in [`run`], and
//! the table that ties them together in [`registry`].

use vstd::prelude::*;

use crate::engine::EngineError;
use crate::text;

pub mod guard;
pub mod registry;
pub mod run;
pub mod throttle;

pub use guard::{RepoAccess, RepoGuard};
pub use registry::{Effect, Ending, Job, JobRegistry, JobSnapshot, JobUpdate};
pub use run::{JobRun, RunInput, RunStep};
pub use throttle::ProgressThrottle;

verus! {

/// A job's identity. Monotonic per daemon run and never reused, so a client
/// holding an old id is told so rather than shown somebody else's job.
pub type JobId = u64;

/// What a job is doing.
#[derive(Debug, Clone, Copy, PartialEq, Eq, Structural, Hash)]
pub enum JobKind {
    Backup,
    /// Protecting changes on this computer because the destination is away.
    Offline,
    Restore,
    RestoreEverything,
    Index,
    Prune,
    Compact,
    Check,
}

impl JobKind {
    /// The kinds that rewrite the repository; the others only read it.
    pub open spec fn writes(self) -> bool {
        ||| self == JobKind::Backup
        ||| self == JobKind::Offline
        ||| self == JobKind::Prune
        ||| self == JobKind::Compact
        ||| self == JobKind::Check
    }

    /// How the kind uses the repository.
    pub open spec fn mode(self) -> RepoAccess {
        if self.writes() {
            RepoAccess::Exclusive
        } else {
            RepoAccess::Shared
        }
    }

    /// The identifier of the kind in logs and payloads.
    pub open spec fn name(self) -> Seq<char> {
        match self {
            JobKind::Backup => "backup"@,
            JobKind::Offline => "offline"@,
            JobKind::Restore => "restore"@,
            JobKind::RestoreEverything => "restore-everything"@,
            JobKind::Index => "index"@,
            JobKind::Prune => "prune"@,
            JobKind::Compact => "compact"@,
            JobKind::Check => "check"@,
        }
    }

    /// Every kind.
    pub fn all() -> (kinds: Vec<JobKind>)
        ensures
            forall|kind: JobKind| #[trigger] kinds@.contains(kind),
            kinds@.no_duplicates(),
    {
        let kinds = vec![
            JobKind::Backup,
            JobKind::Offline,
            JobKind::Restore,
            JobKind::RestoreEverything,
            JobKind::Index,
            JobKind::Prune,
            JobKind::Compact,
            JobKind::Check,
        ];
        assert(kinds@[0] == JobKind::Backup && kinds@[1] == JobKind::Offline && kinds@[2]
            == JobKind::Restore && kinds@[3] == JobKind::RestoreEverything && kinds@[4]
            == JobKind::Index && kinds@[5] == JobKind::Prune && kinds@[6] == JobKind::Compact
            && kinds@[7] == JobKind::Check);
        kinds
    }

    /// How this kind uses the repository, which decides what may run beside it.
    pub fn access(self) -> (access: RepoAccess)
        ensures
            access == self.mode(),
            access == RepoAccess::Shared <==> self == JobKind::Restore || self
                == JobKind::RestoreEverything || self == JobKind::Index,
    {
        match self {
            JobKind::Backup
            | JobKind::Offline
            | JobKind::Prune
            | JobKind::Compact
            | JobKind::Check => RepoAccess::Exclusive,
            JobKind::Restore | JobKind::RestoreEverything | JobKind::Index => RepoAccess::Shared,
        }
    }

    /// Whether a job of this kind can be paused.
    ///
    /// Only guided disaster recovery can, because it is a sequence of extracts
    /// with a recorded position: pausing it stops between two of them and loses
    /// nothing. Stopping the backup process itself would leave its lock and its
    /// sockets held by something that is never going to run again.
    pub fn is_pausable(self) -> (pausable: bool)
        ensures
            pausable == (self == JobKind::RestoreEverything),
    {
        matches!(self, JobKind::RestoreEverything)
    }

    /// A stable identifier for logs and payloads.
    pub fn as_str(self) -> (name: &'static str)
        ensures
            name@ == self.name(),
    {
        match self {
            JobKind::Backup => "backup",
            JobKind::Offline => "offline",
            JobKind::Restore => "restore",
            JobKind::RestoreEverything => "restore-everything",
            JobKind::Index => "index",
            JobKind::Prune => "prune",
            JobKind::Compact => "compact",
            JobKind::Check => "check",
        }
    }
}

/// How a job that reached [`JobState::Done`] ended.
#[derive(Debug, Clone, Copy, PartialEq, Eq, Structural)]
pub enum Outcome {
    /// Ran to completion.
    Completed,
    /// Stopped because someone asked it to. Nothing went wrong.
    Cancelled,
}

impl Outcome {
    /// The word for the outcome.
    pub open spec fn name(self) -> Seq<char> {
        match self {
            Outcome::Completed => "completed"@,
            Outcome::Cancelled => "cancelled"@,
        }
    }

    /// The word for the outcome.
    pub fn as_str(self) -> (name: &'static str)
        ensures
            name@ == self.name(),
    {
        match self {
            Outcome::Completed => "completed",
            Outcome::Cancelled => "cancelled",
        }
    }
}

/// Where a job is in its life.
#[derive(Debug, PartialEq, Eq)]
pub enum JobState {
    /// Submitted, waiting for the repository guard to admit it.
    Queued,
    /// Executing.
    Running,
    /// Stopped between units of work, resumable.
    Paused,
    /// A cancel has been requested and the engine is being torn down. Always
    /// resolves to `Done`, never to `Failed`.
    Cancelling,
    /// Finished, one way or the other.
    Done(Outcome),
    /// Finished badly.
    Failed(EngineError),
}

impl Clone for JobState {
    fn clone(&self) -> (state: JobState)
        ensures
            state == *self,
    {
        match self {
            JobState::Queued => JobState::Queued,
            JobState::Running => JobState::Running,
            JobState::Paused => JobState::Paused,
            JobState::Cancelling => JobState::Cancelling,
            JobState::Done(outcome) => JobState::Done(*outcome),
            JobState::Failed(error) => JobState::Failed(error.clone()),
        }
    }
}

impl JobState {
    /// Whether the job is over.
    pub open spec fn terminal(self) -> bool {
        self is Done || self is Failed
    }

    /// Whether the job occupies the repository.
    pub open spec fn holds(self) -> bool {
        self is Running || self is Cancelling
    }

    /// Which states may follow this one. A terminal state has no successor. A
    /// job that never started ends only by being cancelled or by failing. A
    /// paused job holds nothing, so it goes back to the queue rather than
    /// straight to work. What is being cancelled ends as done: usually as
    /// cancelled, but a job that completed in the meantime really did complete.
    pub open spec fn may_become(self, next: JobState) -> bool {
        match self {
            JobState::Queued => next is Running || next is Failed || next == JobState::Done(
                Outcome::Cancelled,
            ),
            JobState::Running => next is Paused || next is Cancelling || next.terminal(),
            JobState::Paused => next is Queued || next is Cancelling || next == JobState::Done(
                Outcome::Cancelled,
            ),
            JobState::Cancelling => next is Done,
            JobState::Done(_) | JobState::Failed(_) => false,
        }
    }

    /// The word for the state in logs, errors and payloads.
    pub open spec fn name(self) -> Seq<char> {
        match self {
            JobState::Queued => "queued"@,
            JobState::Running => "running"@,
            JobState::Paused => "paused"@,
            JobState::Cancelling => "cancelling"@,
            JobState::Done(outcome) => outcome.name(),
            JobState::Failed(_) => "failed"@,
        }
    }

    /// Whether this state admits no further transitions.
    pub fn is_terminal(&self) -> (terminal: bool)
        ensures
            terminal == self.terminal(),
            terminal <==> self is Done || self is Failed,
    {
        match self {
            JobState::Done(_) | JobState::Failed(_) => true,
            _ => false,
        }
    }

    /// How the job ended, in one word, or `None` while it is still going.
    pub fn outcome_token(&self) -> (token: Option<&'static str>)
        ensures
            token is Some <==> self.terminal(),
            token matches Some(word) ==> word@ == self.name(),
    {
        match self {
            JobState::Done(outcome) => Some(outcome.as_str()),
            JobState::Failed(_) => Some("failed"),
            _ => None,
        }
    }

    /// Whether the job occupies the repository right now. One that is being
    /// cancelled still does: its lock is not free before it has wound down.
    pub fn holds_repo(&self) -> (held: bool)
        ensures
            held == self.holds(),
            held <==> self is Running || self is Cancelling,
    {
        match self {
            JobState::Running | JobState::Cancelling => true,
            _ => false,
        }
    }

    /// Whether `next` is a legal successor of this state.
    pub fn can_transition_to(&self, next: &JobState) -> (legal: bool)
        ensures
            legal == self.may_become(*next),
    {
        match self {
            // Admission, or ended before it ever ran.
            JobState::Queued => match next {
                JobState::Running | JobState::Failed(_) => true,
                JobState::Done(outcome) => *outcome == Outcome::Cancelled,
                _ => false,
            },
            // The ordinary working life of a job.
            JobState::Running => match next {
                JobState::Paused | JobState::Cancelling => true,
                JobState::Done(_) | JobState::Failed(_) => true,
                _ => false,
            },
            JobState::Paused => match next {
                JobState::Queued | JobState::Cancelling => true,
                JobState::Done(outcome) => *outcome == Outcome::Cancelled,
                _ => false,
            },
            JobState::Cancelling => match next {
                JobState::Done(_) => true,
                _ => false,
            },
            JobState::Done(_) | JobState::Failed(_) => false,
        }
    }

    /// A short name for logs, errors and payloads.
    pub fn as_str(&self) -> (name: &'static str)
        ensures
            name@ == self.name(),
    {
        match self {
            JobState::Queued => "queued",
            JobState::Running => "running",
            JobState::Paused => "paused",
            JobState::Cancelling => "cancelling",
            JobState::Done(outcome) => outcome.as_str(),
            JobState::Failed(_) => "failed",
        }
    }
}

/// Why a job request could not be honoured.
#[derive(Debug, Clone, Copy, PartialEq, Eq)]
pub enum JobError {
    /// There is no such job.
    NotFound(JobId),
    /// Jobs of this kind cannot be paused.
    NotPausable { kind: &'static str },
    /// The job is over.
    AlreadyFinished { id: JobId },
    /// The job is not paused.
    NotPaused { id: JobId },
    /// The job's state has no such successor.
    IllegalTransition { id: JobId, from: &'static str, to: &'static str },
}

impl JobError {
    /// What the error says.
    pub open spec fn text(self) -> Seq<char> {
        match self {
            JobError::NotFound(id) => "no job with id "@ + text::decimal(id as nat),
            JobError::NotPausable { kind } => "a "@ + kind@ + " job cannot be paused"@,
            JobError::AlreadyFinished { id } => "job "@ + text::decimal(id as nat)
                + " has already finished"@,
            JobError::NotPaused { id } => "job "@ + text::decimal(id as nat) + " is not paused"@,
            JobError::IllegalTransition { id, from, to } => "job "@ + text::decimal(id as nat)
                + " cannot go from "@ + from@ + " to "@ + to@,
        }
    }

    /// The error as a sentence.
    pub fn message(&self) -> (message: String)
        ensures
            message@ == self.text(),
    {
        match self {
            JobError::NotFound(id) => text::joined(
                "no job with id ",
                text::decimal_text(*id).as_str(),
            ),
            JobError::NotPausable { kind } => {
                let mut s = text::joined("a ", kind);
                s.append(" job cannot be paused");
                s
            },
            JobError::AlreadyFinished { id } => {
                let mut s = text::joined("job ", text::decimal_text(*id).as_str());
                s.append(" has already finished");
                s
            },
            JobError::NotPaused { id } => {
                let mut s = text::joined("job ", text::decimal_text(*id).as_str());
                s.append(" is not paused");
                s
            },
            JobError::IllegalTransition { id, from, to } => {
                let mut s = text::joined("job ", text::decimal_text(*id).as_str());
                s.append(" cannot go from ");
                s.append(from);
                s.append(" to ");
                s.append(to);
                s
            },
        }
    }
}

/// No two kinds of job share a name.
pub proof fn kind_names_are_distinct(a: JobKind, b: JobKind)
    requires
        a.name() == b.name(),
    ensures
        a == b,
{
    reveal_strlit("backup");
    reveal_strlit("offline");
    reveal_strlit("restore");
    reveal_strlit("restore-everything");
    reveal_strlit("index");
    reveal_strlit("prune");
    reveal_strlit("compact");
    reveal_strlit("check");
    let (x, y) = (a.name(), b.name());
    assert(x.len() == y.len() && x[0] == y[0] && x[1] == y[1]);
}

/// A job that is over stays as it is; one that is being cancelled can only be
/// done afterwards; and nothing starts without having waited in the queue.
pub proof fn the_life_of_a_job(state: JobState, next: JobState)
    requires
        state.may_become(next),
    ensures
        !state.terminal(),
        state is Cancelling ==> next is Done,
        next is Running ==> state is Queued,
        next is Paused ==> state is Running,
        next is Failed ==> state is Queued || state is Running,
{
}

/// Only jobs that bring files back or list what there is share the repository;
/// every other kind needs it to itself.
pub proof fn only_readers_share(kind: JobKind)
    ensures
        kind.mode() == RepoAccess::Shared <==> kind == JobKind::Restore || kind
            == JobKind::RestoreEverything || kind == JobKind::Index,
        kind.mode() == RepoAccess::Exclusive <==> kind == JobKind::Backup || kind
            == JobKind::Offline || kind == JobKind::Prune || kind == JobKind::Compact || kind
            == JobKind::Check,
{
}

/// A job that is not over can always end as cancelled, and nothing is over but
/// what has no way on.
pub proof fn what_is_not_over_can_be_cancelled(state: JobState)
    ensures
        state is Done || state is Failed <==> forall|next: JobState| !state.may_become(next),
        !(state is Done || state is Failed) ==> state.may_become(
            JobState::Done(Outcome::Cancelled),
        ),
{
    if !(state is Done || state is Failed) {
        assert(state.may_become(JobState::Done(Outcome::Cancelled)));
    }
}

/// What a job needs in order to go on: it completes only from work or while it is
/// being cancelled, it fails only from the queue or from work, it is paused only
/// from work, waits again only after a pause, and is torn down only from work or
/// from a pause. All of these it can do.
pub proof fn what_leads_to_each_state(state: JobState, next: JobState)
    ensures
        next == JobState::Done(Outcome::Completed) ==> (state.may_become(next) <==> state is Running
            || state is Cancelling),
        next is Failed ==> (state.may_become(next) <==> state is Running || state is Queued),
        next is Running ==> (state.may_become(next) <==> state is Queued),
        next is Paused ==> (state.may_become(next) <==> state is Running),
        next is Queued ==> (state.may_become(next) <==> state is Paused),
        next is Cancelling ==> (state.may_become(next) <==> state is Running || state is Paused),
{
}

/// A job takes up the repository by starting to run, and one that is torn down
/// holds it to the end: only what is working or being torn down holds it.
pub proof fn what_holds_the_repository(state: JobState)
    ensures
        state.holds() <==> state is Running || state is Cancelling,
        state.holds() ==> !state.terminal(),
        state.terminal() <==> state is Done || state is Failed,
{
}

/// No two states share a word, but for failures of different kinds.
pub proof fn state_names_are_distinct(a: JobState, b: JobState)
    requires
        a.name() == b.name(),
    ensures
        a == b || (a is Failed && b is Failed),
{
    reveal_strlit("queued");
    reveal_strlit("running");
    reveal_strlit("paused");
    reveal_strlit("cancelling");
    reveal_strlit("completed");
    reveal_strlit("cancelled");
    reveal_strlit("failed");
    let (x, y) = (a.name(), b.name());
    assert(x.len() == y.len() && x[0] == y[0] && x[1] == y[1]);
}

/// Each kind of job has its name on the wire.
pub proof fn each_kind_has_its_name(kind: JobKind)
    ensures
        kind == JobKind::Backup <==> kind.name() == "backup"@,
        kind == JobKind::Offline <==> kind.name() == "offline"@,
        kind == JobKind::Restore <==> kind.name() == "restore"@,
        kind == JobKind::RestoreEverything <==> kind.name() == "restore-everything"@,
        kind == JobKind::Index <==> kind.name() == "index"@,
        kind == JobKind::Prune <==> kind.name() == "prune"@,
        kind == JobKind::Compact <==> kind.name() == "compact"@,
        kind == JobKind::Check <==> kind.name() == "check"@,
{
    kind_names_are_distinct(kind, kind);
    if kind.name() == "backup"@ {
        kind_names_are_distinct(kind, JobKind::Backup);
    }
    if kind.name() == "offline"@ {
        kind_names_are_distinct(kind, JobKind::Offline);
    }
    if kind.name() == "restore"@ {
        kind_names_are_distinct(kind, JobKind::Restore);
    }
    if kind.name() == "restore-everything"@ {
        kind_names_are_distinct(kind, JobKind::RestoreEverything);
    }
    if kind.name() == "index"@ {
        kind_names_are_distinct(kind, JobKind::Index);
    }
    if kind.name() == "prune"@ {
        kind_names_are_distinct(kind, JobKind::Prune);
    }
    if kind.name() == "compact"@ {
        kind_names_are_distinct(kind, JobKind::Compact);
    }
    if kind.name() == "check"@ {
        kind_names_are_distinct(kind, JobKind::Check);
    }
}

/// Each state has its word, and a job that is done is told of by how it ended.
pub proof fn each_state_has_its_word(state: JobState)
    ensures
        state is Queued ==> state.name() == "queued"@,
        state is Running ==> state.name() == "running"@,
        state is Paused ==> state.name() == "paused"@,
        state is Cancelling ==> state.name() == "cancelling"@,
        state == JobState::Done(Outcome::Completed) ==> state.name() == "completed"@,
        state == JobState::Done(Outcome::Cancelled) ==> state.name() == "cancelled"@,
        state is Failed ==> state.name() == "failed"@,
{
}

/// A refusal says which job, or which kind of job, it is about.
pub proof fn a_refusal_says_what_it_is_about(error: JobError)
    ensures
        error matches JobError::NotFound(id) ==> error.text() == "no job with id "@ + text::decimal(
            id as nat,
        ),
        error matches JobError::NotPausable { kind } ==> error.text() == "a "@ + kind@
            + " job cannot be paused"@,
        error matches JobError::AlreadyFinished { id } ==> error.text() == "job "@ + text::decimal(
            id as nat,
        ) + " has already finished"@,
        error matches JobError::NotPaused { id } ==> error.text() == "job "@ + text::decimal(
            id as nat,
        ) + " is not paused"@,
        error matches JobError::IllegalTransition { id, from, to } ==> error.text() == "job "@
            + text::decimal(id as nat) + " cannot go from "@ + from@ + " to "@ + to@,
{
}

} // verus!
