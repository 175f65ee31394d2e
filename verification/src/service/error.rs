//! The errors that cross the bus.
//!
//! Every failure a client can act on has a bus name of its own, under
//! `org.backtrack.Error`. The name is the contract: matching on message text
//! would break the moment anything is translated.

use vstd::prelude::*;

use crate::engine::EngineError;
use crate::jobs::JobError;
use crate::text;

verus! {

/// Errors as clients see them.
#[derive(Debug, PartialEq, Eq)]
pub enum DaemonError {
    /// No passphrase is stored for this repository.
    PassphraseMissing(String),
    /// The stored passphrase no longer opens the repository.
    PassphraseWrong(String),
    /// The destination refused the credentials.
    AuthFailed(String),
    /// The destination cannot be reached right now.
    RepoUnreachable(String),
    /// The destination is out of space.
    DestinationFull(String),
    /// This computer is out of space.
    LocalDiskFull(String),
    /// The repository is damaged and needs repair.
    RepoCorrupt(String),
    /// Another process holds the repository lock.
    LockedByOther(String),
    /// The backup program is absent or too old.
    BorgMissing(String),
    /// The backup program failed in a way that has no name of its own.
    BorgFailed(String),
    /// The operation was cancelled.
    Cancelled(String),
    /// No job with that id.
    NoSuchJob(String),
    /// The job cannot be paused.
    NotPausable(String),
    /// The job has already ended.
    JobFinished(String),
    /// The job is not paused, so it cannot be resumed.
    JobNotPaused(String),
    /// The settings, or an attempted edit of them, are not valid.
    InvalidConfig(String),
    /// A setting that does not exist.
    UnknownConfigKey(String),
    /// The operation needs a repository and none is configured yet.
    NotConfigured(String),
    /// The catalogue could not be read or written.
    IndexUnavailable(String),
    /// The requested archive or path is not in the catalogue.
    NotFound(String),
    /// The request itself is malformed.
    InvalidArgument(String),
    /// A restore could not be carried out on this machine; the repository had
    /// no part in it.
    RestoreFailed(String),
}

/// The result of anything the interface does.
pub type Result<T> = core::result::Result<T, DaemonError>;

impl Clone for DaemonError {
    fn clone(&self) -> (error: DaemonError)
        ensures
            error == *self,
    {
        match self {
            DaemonError::PassphraseMissing(m) => DaemonError::PassphraseMissing(m.clone()),
            DaemonError::PassphraseWrong(m) => DaemonError::PassphraseWrong(m.clone()),
            DaemonError::AuthFailed(m) => DaemonError::AuthFailed(m.clone()),
            DaemonError::RepoUnreachable(m) => DaemonError::RepoUnreachable(m.clone()),
            DaemonError::DestinationFull(m) => DaemonError::DestinationFull(m.clone()),
            DaemonError::LocalDiskFull(m) => DaemonError::LocalDiskFull(m.clone()),
            DaemonError::RepoCorrupt(m) => DaemonError::RepoCorrupt(m.clone()),
            DaemonError::LockedByOther(m) => DaemonError::LockedByOther(m.clone()),
            DaemonError::BorgMissing(m) => DaemonError::BorgMissing(m.clone()),
            DaemonError::BorgFailed(m) => DaemonError::BorgFailed(m.clone()),
            DaemonError::Cancelled(m) => DaemonError::Cancelled(m.clone()),
            DaemonError::NoSuchJob(m) => DaemonError::NoSuchJob(m.clone()),
            DaemonError::NotPausable(m) => DaemonError::NotPausable(m.clone()),
            DaemonError::JobFinished(m) => DaemonError::JobFinished(m.clone()),
            DaemonError::JobNotPaused(m) => DaemonError::JobNotPaused(m.clone()),
            DaemonError::InvalidConfig(m) => DaemonError::InvalidConfig(m.clone()),
            DaemonError::UnknownConfigKey(m) => DaemonError::UnknownConfigKey(m.clone()),
            DaemonError::NotConfigured(m) => DaemonError::NotConfigured(m.clone()),
            DaemonError::IndexUnavailable(m) => DaemonError::IndexUnavailable(m.clone()),
            DaemonError::NotFound(m) => DaemonError::NotFound(m.clone()),
            DaemonError::InvalidArgument(m) => DaemonError::InvalidArgument(m.clone()),
            DaemonError::RestoreFailed(m) => DaemonError::RestoreFailed(m.clone()),
        }
    }
}

impl DaemonError {
    /// The last part of the bus name.
    pub open spec fn variant(self) -> Seq<char> {
        match self {
            DaemonError::PassphraseMissing(_) => "PassphraseMissing"@,
            DaemonError::PassphraseWrong(_) => "PassphraseWrong"@,
            DaemonError::AuthFailed(_) => "AuthFailed"@,
            DaemonError::RepoUnreachable(_) => "RepoUnreachable"@,
            DaemonError::DestinationFull(_) => "DestinationFull"@,
            DaemonError::LocalDiskFull(_) => "LocalDiskFull"@,
            DaemonError::RepoCorrupt(_) => "RepoCorrupt"@,
            DaemonError::LockedByOther(_) => "LockedByOther"@,
            DaemonError::BorgMissing(_) => "BorgMissing"@,
            DaemonError::BorgFailed(_) => "BorgFailed"@,
            DaemonError::Cancelled(_) => "Cancelled"@,
            DaemonError::NoSuchJob(_) => "NoSuchJob"@,
            DaemonError::NotPausable(_) => "NotPausable"@,
            DaemonError::JobFinished(_) => "JobFinished"@,
            DaemonError::JobNotPaused(_) => "JobNotPaused"@,
            DaemonError::InvalidConfig(_) => "InvalidConfig"@,
            DaemonError::UnknownConfigKey(_) => "UnknownConfigKey"@,
            DaemonError::NotConfigured(_) => "NotConfigured"@,
            DaemonError::IndexUnavailable(_) => "IndexUnavailable"@,
            DaemonError::NotFound(_) => "NotFound"@,
            DaemonError::InvalidArgument(_) => "InvalidArgument"@,
            DaemonError::RestoreFailed(_) => "RestoreFailed"@,
        }
    }

    /// The bus name.
    pub open spec fn bus_name(self) -> Seq<char> {
        "org.backtrack.Error."@ + self.variant()
    }

    /// The words that go with the name.
    pub open spec fn words(self) -> Seq<char> {
        match self {
            DaemonError::PassphraseMissing(m) => m@,
            DaemonError::PassphraseWrong(m) => m@,
            DaemonError::AuthFailed(m) => m@,
            DaemonError::RepoUnreachable(m) => m@,
            DaemonError::DestinationFull(m) => m@,
            DaemonError::LocalDiskFull(m) => m@,
            DaemonError::RepoCorrupt(m) => m@,
            DaemonError::LockedByOther(m) => m@,
            DaemonError::BorgMissing(m) => m@,
            DaemonError::BorgFailed(m) => m@,
            DaemonError::Cancelled(m) => m@,
            DaemonError::NoSuchJob(m) => m@,
            DaemonError::NotPausable(m) => m@,
            DaemonError::JobFinished(m) => m@,
            DaemonError::JobNotPaused(m) => m@,
            DaemonError::InvalidConfig(m) => m@,
            DaemonError::UnknownConfigKey(m) => m@,
            DaemonError::NotConfigured(m) => m@,
            DaemonError::IndexUnavailable(m) => m@,
            DaemonError::NotFound(m) => m@,
            DaemonError::InvalidArgument(m) => m@,
            DaemonError::RestoreFailed(m) => m@,
        }
    }

    /// The bus name of the error.
    pub fn name(&self) -> (name: String)
        ensures
            name@ == self.bus_name(),
    {
        let variant = match self {
            DaemonError::PassphraseMissing(_) => "PassphraseMissing",
            DaemonError::PassphraseWrong(_) => "PassphraseWrong",
            DaemonError::AuthFailed(_) => "AuthFailed",
            DaemonError::RepoUnreachable(_) => "RepoUnreachable",
            DaemonError::DestinationFull(_) => "DestinationFull",
            DaemonError::LocalDiskFull(_) => "LocalDiskFull",
            DaemonError::RepoCorrupt(_) => "RepoCorrupt",
            DaemonError::LockedByOther(_) => "LockedByOther",
            DaemonError::BorgMissing(_) => "BorgMissing",
            DaemonError::BorgFailed(_) => "BorgFailed",
            DaemonError::Cancelled(_) => "Cancelled",
            DaemonError::NoSuchJob(_) => "NoSuchJob",
            DaemonError::NotPausable(_) => "NotPausable",
            DaemonError::JobFinished(_) => "JobFinished",
            DaemonError::JobNotPaused(_) => "JobNotPaused",
            DaemonError::InvalidConfig(_) => "InvalidConfig",
            DaemonError::UnknownConfigKey(_) => "UnknownConfigKey",
            DaemonError::NotConfigured(_) => "NotConfigured",
            DaemonError::IndexUnavailable(_) => "IndexUnavailable",
            DaemonError::NotFound(_) => "NotFound",
            DaemonError::InvalidArgument(_) => "InvalidArgument",
            DaemonError::RestoreFailed(_) => "RestoreFailed",
        };
        text::joined("org.backtrack.Error.", variant)
    }

    /// The words that go with the name.
    pub fn description(&self) -> (words: &str)
        ensures
            words@ == self.words(),
    {
        let m = match self {
            DaemonError::PassphraseMissing(m) => m,
            DaemonError::PassphraseWrong(m) => m,
            DaemonError::AuthFailed(m) => m,
            DaemonError::RepoUnreachable(m) => m,
            DaemonError::DestinationFull(m) => m,
            DaemonError::LocalDiskFull(m) => m,
            DaemonError::RepoCorrupt(m) => m,
            DaemonError::LockedByOther(m) => m,
            DaemonError::BorgMissing(m) => m,
            DaemonError::BorgFailed(m) => m,
            DaemonError::Cancelled(m) => m,
            DaemonError::NoSuchJob(m) => m,
            DaemonError::NotPausable(m) => m,
            DaemonError::JobFinished(m) => m,
            DaemonError::JobNotPaused(m) => m,
            DaemonError::InvalidConfig(m) => m,
            DaemonError::UnknownConfigKey(m) => m,
            DaemonError::NotConfigured(m) => m,
            DaemonError::IndexUnavailable(m) => m,
            DaemonError::NotFound(m) => m,
            DaemonError::InvalidArgument(m) => m,
            DaemonError::RestoreFailed(m) => m,
        };
        m.as_str()
    }

    /// The error as one line: its name and its words.
    pub fn message(&self) -> (line: String)
        ensures
            line@ == self.bus_name() + ": "@ + self.words(),
    {
        let mut line = self.name();
        line.append(": ");
        line.append(self.description());
        line
    }

    /// A failure of the engine, with what the engine says of it.
    pub fn from_engine(error: &EngineError, message: String) -> (crossed: DaemonError)
        ensures
            crossed.words() == message@,
            crossed.variant() == engine_variant(*error),
            crossed is PassphraseMissing <==> *error is PassphraseMissing,
            crossed is PassphraseWrong <==> *error is PassphraseWrong,
            crossed is AuthFailed <==> *error is AuthFailed,
            crossed is RepoUnreachable <==> *error is RepoUnreachable,
            crossed is DestinationFull <==> *error is DestinationFull,
            crossed is LocalDiskFull <==> *error is LocalDiskFull,
            crossed is RepoCorrupt <==> *error is RepoCorrupt,
            crossed is LockedByOther <==> *error is LockedByOther,
            crossed is BorgMissing <==> *error is BorgMissing,
            crossed is BorgFailed <==> *error is BorgFailed,
            crossed is Cancelled <==> *error is Cancelled,
            crossed is RestoreFailed <==> *error is Local,
    {
        match error {
            EngineError::PassphraseMissing => DaemonError::PassphraseMissing(message),
            EngineError::PassphraseWrong => DaemonError::PassphraseWrong(message),
            EngineError::AuthFailed => DaemonError::AuthFailed(message),
            EngineError::RepoUnreachable => DaemonError::RepoUnreachable(message),
            EngineError::DestinationFull => DaemonError::DestinationFull(message),
            EngineError::LocalDiskFull => DaemonError::LocalDiskFull(message),
            EngineError::RepoCorrupt => DaemonError::RepoCorrupt(message),
            EngineError::LockedByOther => DaemonError::LockedByOther(message),
            EngineError::BorgMissing { .. } => DaemonError::BorgMissing(message),
            EngineError::BorgFailed { .. } => DaemonError::BorgFailed(message),
            EngineError::Cancelled => DaemonError::Cancelled(message),
            EngineError::Local(_) => DaemonError::RestoreFailed(message),
        }
    }

    /// A job request that could not be honoured.
    pub fn from_job(error: &JobError) -> (crossed: DaemonError)
        ensures
            crossed.words() == error.text(),
            crossed.variant() == match *error {
                JobError::NotFound(_) => "NoSuchJob"@,
                JobError::NotPausable { .. } => "NotPausable"@,
                JobError::AlreadyFinished { .. } => "JobFinished"@,
                JobError::NotPaused { .. } => "JobNotPaused"@,
                JobError::IllegalTransition { .. } => "JobFinished"@,
            },
            crossed is NoSuchJob <==> *error is NotFound,
            crossed is NotPausable <==> *error is NotPausable,
            crossed is JobFinished <==> *error is AlreadyFinished || *error is IllegalTransition,
            crossed is JobNotPaused <==> *error is NotPaused,
    {
        let message = error.message();
        match error {
            JobError::NotFound(_) => DaemonError::NoSuchJob(message),
            JobError::NotPausable { .. } => DaemonError::NotPausable(message),
            JobError::AlreadyFinished { .. } => DaemonError::JobFinished(message),
            JobError::NotPaused { .. } => DaemonError::JobNotPaused(message),
            JobError::IllegalTransition { .. } => DaemonError::JobFinished(message),
        }
    }
}

/// What a failure of the engine is called on the bus.
pub open spec fn engine_variant(error: EngineError) -> Seq<char> {
    match error {
        EngineError::PassphraseMissing => "PassphraseMissing"@,
        EngineError::PassphraseWrong => "PassphraseWrong"@,
        EngineError::AuthFailed => "AuthFailed"@,
        EngineError::RepoUnreachable => "RepoUnreachable"@,
        EngineError::DestinationFull => "DestinationFull"@,
        EngineError::LocalDiskFull => "LocalDiskFull"@,
        EngineError::RepoCorrupt => "RepoCorrupt"@,
        EngineError::LockedByOther => "LockedByOther"@,
        EngineError::BorgMissing { .. } => "BorgMissing"@,
        EngineError::BorgFailed { .. } => "BorgFailed"@,
        EngineError::Cancelled => "Cancelled"@,
        EngineError::Local(_) => "RestoreFailed"@,
    }
}

/// Whether two failures of the engine are of one sort.
pub open spec fn same_sort(a: EngineError, b: EngineError) -> bool {
    match a {
        EngineError::PassphraseMissing => b is PassphraseMissing,
        EngineError::PassphraseWrong => b is PassphraseWrong,
        EngineError::AuthFailed => b is AuthFailed,
        EngineError::RepoUnreachable => b is RepoUnreachable,
        EngineError::DestinationFull => b is DestinationFull,
        EngineError::LocalDiskFull => b is LocalDiskFull,
        EngineError::RepoCorrupt => b is RepoCorrupt,
        EngineError::LockedByOther => b is LockedByOther,
        EngineError::BorgMissing { .. } => b is BorgMissing,
        EngineError::BorgFailed { .. } => b is BorgFailed,
        EngineError::Cancelled => b is Cancelled,
        EngineError::Local(_) => b is Local,
    }
}

/// Failures of different sorts never share a bus name.
pub proof fn engine_errors_keep_their_names_apart(a: EngineError, b: EngineError)
    requires
        "org.backtrack.Error."@ + engine_variant(a) == "org.backtrack.Error."@ + engine_variant(b),
    ensures
        same_sort(a, b),
{
    let prefix = "org.backtrack.Error."@;
    let (x, y) = (engine_variant(a), engine_variant(b));
    assert((prefix + x).skip(prefix.len() as int) =~= x);
    assert((prefix + y).skip(prefix.len() as int) =~= y);
    reveal_strlit("PassphraseMissing");
    reveal_strlit("PassphraseWrong");
    reveal_strlit("AuthFailed");
    reveal_strlit("RepoUnreachable");
    reveal_strlit("DestinationFull");
    reveal_strlit("LocalDiskFull");
    reveal_strlit("RepoCorrupt");
    reveal_strlit("LockedByOther");
    reveal_strlit("BorgMissing");
    reveal_strlit("BorgFailed");
    reveal_strlit("Cancelled");
    reveal_strlit("RestoreFailed");
    assert(x.len() == y.len() && x[0] == y[0] && x[1] == y[1] && x[4] == y[4]);
}

/// Each error crosses the bus under its own name, with its own words.
pub proof fn each_error_crosses_under_its_own_name(error: DaemonError)
    ensures
        error matches DaemonError::PassphraseMissing(words) ==> error.bus_name() == "org.backtrack.Error."@ + "PassphraseMissing"@
            && error.words() == words@,
        error matches DaemonError::PassphraseWrong(words) ==> error.bus_name() == "org.backtrack.Error."@ + "PassphraseWrong"@
            && error.words() == words@,
        error matches DaemonError::AuthFailed(words) ==> error.bus_name() == "org.backtrack.Error."@ + "AuthFailed"@
            && error.words() == words@,
        error matches DaemonError::RepoUnreachable(words) ==> error.bus_name() == "org.backtrack.Error."@ + "RepoUnreachable"@
            && error.words() == words@,
        error matches DaemonError::DestinationFull(words) ==> error.bus_name() == "org.backtrack.Error."@ + "DestinationFull"@
            && error.words() == words@,
        error matches DaemonError::LocalDiskFull(words) ==> error.bus_name() == "org.backtrack.Error."@ + "LocalDiskFull"@
            && error.words() == words@,
        error matches DaemonError::RepoCorrupt(words) ==> error.bus_name() == "org.backtrack.Error."@ + "RepoCorrupt"@
            && error.words() == words@,
        error matches DaemonError::LockedByOther(words) ==> error.bus_name() == "org.backtrack.Error."@ + "LockedByOther"@
            && error.words() == words@,
        error matches DaemonError::BorgMissing(words) ==> error.bus_name() == "org.backtrack.Error."@ + "BorgMissing"@
            && error.words() == words@,
        error matches DaemonError::BorgFailed(words) ==> error.bus_name() == "org.backtrack.Error."@ + "BorgFailed"@
            && error.words() == words@,
        error matches DaemonError::Cancelled(words) ==> error.bus_name() == "org.backtrack.Error."@ + "Cancelled"@
            && error.words() == words@,
        error matches DaemonError::NoSuchJob(words) ==> error.bus_name() == "org.backtrack.Error."@ + "NoSuchJob"@
            && error.words() == words@,
        error matches DaemonError::NotPausable(words) ==> error.bus_name() == "org.backtrack.Error."@ + "NotPausable"@
            && error.words() == words@,
        error matches DaemonError::JobFinished(words) ==> error.bus_name() == "org.backtrack.Error."@ + "JobFinished"@
            && error.words() == words@,
        error matches DaemonError::JobNotPaused(words) ==> error.bus_name() == "org.backtrack.Error."@ + "JobNotPaused"@
            && error.words() == words@,
        error matches DaemonError::InvalidConfig(words) ==> error.bus_name() == "org.backtrack.Error."@ + "InvalidConfig"@
            && error.words() == words@,
        error matches DaemonError::UnknownConfigKey(words) ==> error.bus_name() == "org.backtrack.Error."@ + "UnknownConfigKey"@
            && error.words() == words@,
        error matches DaemonError::NotConfigured(words) ==> error.bus_name() == "org.backtrack.Error."@ + "NotConfigured"@
            && error.words() == words@,
        error matches DaemonError::IndexUnavailable(words) ==> error.bus_name() == "org.backtrack.Error."@ + "IndexUnavailable"@
            && error.words() == words@,
        error matches DaemonError::NotFound(words) ==> error.bus_name() == "org.backtrack.Error."@ + "NotFound"@
            && error.words() == words@,
        error matches DaemonError::InvalidArgument(words) ==> error.bus_name() == "org.backtrack.Error."@ + "InvalidArgument"@
            && error.words() == words@,
        error matches DaemonError::RestoreFailed(words) ==> error.bus_name() == "org.backtrack.Error."@ + "RestoreFailed"@
            && error.words() == words@,
{
}

} // verus!
