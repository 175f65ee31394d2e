//! What the backup engine says: how a piece of work is going, and how it ended.

use vstd::prelude::*;

verus! {

/// Why the engine could not do what it was asked to.
#[derive(Debug, PartialEq, Eq)]
pub enum EngineError {
    /// The destination cannot be reached.
    RepoUnreachable,
    /// No passphrase is stored for the repository.
    PassphraseMissing,
    /// The stored passphrase does not open the repository.
    PassphraseWrong,
    /// The destination refused the credentials.
    AuthFailed,
    /// The destination is out of space.
    DestinationFull,
    /// This computer is out of space.
    LocalDiskFull,
    /// The repository is damaged.
    RepoCorrupt,
    /// Another process holds the repository lock.
    LockedByOther,
    /// The backup program is absent or too old.
    BorgMissing { needed: String, found: Option<String> },
    /// The backup program failed in a way that has no name of its own.
    BorgFailed { code: i32, stderr: String },
    /// The work was stopped on request.
    Cancelled,
    /// Something on this computer went wrong; the repository had no part in it.
    Local(String),
}

impl Clone for EngineError {
    fn clone(&self) -> (error: EngineError)
        ensures
            error == *self,
    {
        match self {
            EngineError::RepoUnreachable => EngineError::RepoUnreachable,
            EngineError::PassphraseMissing => EngineError::PassphraseMissing,
            EngineError::PassphraseWrong => EngineError::PassphraseWrong,
            EngineError::AuthFailed => EngineError::AuthFailed,
            EngineError::DestinationFull => EngineError::DestinationFull,
            EngineError::LocalDiskFull => EngineError::LocalDiskFull,
            EngineError::RepoCorrupt => EngineError::RepoCorrupt,
            EngineError::LockedByOther => EngineError::LockedByOther,
            EngineError::BorgMissing { needed, found } => EngineError::BorgMissing {
                needed: needed.clone(),
                found: match found {
                    Some(text) => Some(text.clone()),
                    None => None,
                },
            },
            EngineError::BorgFailed { code, stderr } => EngineError::BorgFailed {
                code: *code,
                stderr: stderr.clone(),
            },
            EngineError::Cancelled => EngineError::Cancelled,
            EngineError::Local(text) => EngineError::Local(text.clone()),
        }
    }
}

impl EngineError {
    /// A failure without a code of its own, told in words.
    pub fn unclassified(text: String) -> (error: EngineError)
        ensures
            unclassified_as(error, text@),
            error matches EngineError::BorgFailed { code, stderr } && code == -1 && stderr == text,
    {
        EngineError::BorgFailed { code: -1, stderr: text }
    }
}

/// Whether `error` is an uncategorised failure told in the words `text`.
pub open spec fn unclassified_as(error: EngineError, text: Seq<char>) -> bool {
    error matches EngineError::BorgFailed { code, stderr } && code == -1 && stderr@ == text
}

/// What a finished piece of engine work produced.
#[derive(Debug, PartialEq, Eq)]
pub struct JobSummary {
    /// The archive that was written, if one was.
    pub archive_id: Option<String>,
}

impl Clone for JobSummary {
    fn clone(&self) -> (summary: JobSummary)
        ensures
            summary == *self,
    {
        JobSummary {
            archive_id: match &self.archive_id {
                Some(id) => Some(id.clone()),
                None => None,
            },
        }
    }
}

impl Default for JobSummary {
    fn default() -> (summary: JobSummary)
        ensures
            summary.archive_id is None,
    {
        JobSummary { archive_id: None }
    }
}

/// How serious a line of the engine's log is.
#[derive(Debug, Clone, Copy, PartialEq, Eq, Structural)]
pub enum LogLevel {
    Error,
    Warning,
    Info,
    Debug,
}

/// What a running piece of engine work reports.
#[derive(Debug, PartialEq, Eq)]
pub enum JobEvent {
    /// How far it has come.
    Progress { current: u64, total: Option<u64>, phase: String },
    /// A line for the log.
    Log { level: LogLevel, msg: String },
    /// One file is done.
    ItemDone { path: String },
    /// How it ended. Always the last event.
    Finished(Result<JobSummary, EngineError>),
}

} // verus!
