//! One backup, from the archive to the retention policy.
//!
//! Three engine operations, but one piece of work for anybody using the
//! product: one progress bar, one cancel button, one answer. A [`BackupRun`]
//! says what to do next and is told how it went.

use vstd::prelude::*;

use crate::engine::{EngineError, JobEvent, JobSummary};
#[allow(unused_imports)]
use crate::engine::unclassified_as;
use crate::text;

verus! {

/// Phase names carried on progress events: the words the user reads.
pub const PHASE_ARCHIVING: &'static str = "archiving";

pub const PHASE_CATALOGUING: &'static str = "cataloguing";

pub const PHASE_PRUNING: &'static str = "pruning";

/// Phase name for dropping local snapshots to stay inside the cap.
pub const PHASE_EVICTING: &'static str = "making room";

/// Where a backup is.
#[derive(Debug, PartialEq, Eq)]
pub enum BackupStage {
    /// The archive is being written.
    Archiving,
    /// The archive is being read into the catalogue.
    Cataloguing(JobSummary),
    /// The retention policy is being applied.
    Pruning(JobSummary),
    /// The catalogue is being brought in line with what pruning left.
    Reconciling(JobSummary),
    /// There is nothing left to do.
    Over,
}

/// How the latest step went.
#[allow(inconsistent_fields)]
#[derive(Debug, PartialEq, Eq)]
pub enum BackupReport {
    /// The archive was written, or was not; and whether the job has been
    /// cancelled by now.
    Archived { result: Result<JobSummary, EngineError>, cancelled: bool },
    /// The archive was read into the catalogue, or was not.
    Catalogued { result: Result<usize, EngineError>, cancelled: bool },
    /// The retention policy was applied, or was not; and whether a failure is
    /// one the user has to act on.
    Pruned { result: Result<(), EngineError>, blocking: bool },
    /// The catalogue was brought in line, or was not.
    Reconciled { result: Result<usize, EngineError> },
}

/// What to do next.
#[derive(Debug, PartialEq, Eq)]
pub enum BackupOrder {
    /// Write the archive.
    Archive,
    /// Read the archive into the catalogue.
    Catalogue,
    /// Apply the retention policy.
    Prune,
    /// Bring the catalogue in line with the repository.
    Reconcile,
    /// The backup is over, with this result.
    Finish(Result<JobSummary, EngineError>),
}

/// A backup in progress.
#[derive(Debug, PartialEq, Eq)]
pub struct BackupRun {
    /// Whether there is a retention policy to apply.
    pub prunes: bool,
    pub stage: BackupStage,
}

impl BackupRun {
    /// Whether a report is about what the run is doing.
    pub open spec fn awaits(self, report: BackupReport) -> bool {
        match report {
            BackupReport::Archived { .. } => self.stage is Archiving,
            BackupReport::Catalogued { .. } => self.stage is Cataloguing,
            BackupReport::Pruned { .. } => self.stage is Pruning,
            BackupReport::Reconciled { .. } => self.stage is Reconciling,
        }
    }

    /// What the run becomes, and what it orders, on a report.
    ///
    /// A failure to write the archive is the backup's failure. A failure to
    /// read it into the catalogue is not, unless the job was cancelled: the
    /// files are safe, and the catalogue catches up later. Pruning is
    /// housekeeping; only a failure the user has to act on fails the backup.
    pub open spec fn next(self, report: BackupReport) -> (BackupStage, BackupOrder) {
        match report {
            BackupReport::Archived { result: Err(error), .. } => (
                BackupStage::Over,
                BackupOrder::Finish(Err(error)),
            ),
            BackupReport::Archived { result: Ok(summary), cancelled } => if cancelled {
                (BackupStage::Over, BackupOrder::Finish(Err(EngineError::Cancelled)))
            } else {
                (BackupStage::Cataloguing(summary), BackupOrder::Catalogue)
            },
            BackupReport::Catalogued { result, cancelled } => if cancelled {
                (
                    BackupStage::Over,
                    BackupOrder::Finish(
                        Err(
                            match result {
                                Err(error) => error,
                                Ok(_) => EngineError::Cancelled,
                            },
                        ),
                    ),
                )
            } else if self.prunes {
                (BackupStage::Pruning(self.stage->Cataloguing_0), BackupOrder::Prune)
            } else {
                (BackupStage::Over, BackupOrder::Finish(Ok(self.stage->Cataloguing_0)))
            },
            BackupReport::Pruned { result: Ok(_), .. } => (
                BackupStage::Reconciling(self.stage->Pruning_0),
                BackupOrder::Reconcile,
            ),
            BackupReport::Pruned { result: Err(error), blocking } => (
                BackupStage::Over,
                BackupOrder::Finish(
                    if blocking {
                        Err(error)
                    } else {
                        Ok(self.stage->Pruning_0)
                    },
                ),
            ),
            BackupReport::Reconciled { .. } => (
                BackupStage::Over,
                BackupOrder::Finish(Ok(self.stage->Reconciling_0)),
            ),
        }
    }

    /// A backup that has not begun, and its first order.
    pub fn start(prunes: bool) -> (started: (BackupRun, BackupOrder))
        ensures
            started.0 == fresh(prunes),
            started.1 == BackupOrder::Archive,
    {
        (BackupRun { prunes, stage: BackupStage::Archiving }, BackupOrder::Archive)
    }

    /// Take in how the latest step went.
    pub fn step(self, report: BackupReport) -> (next: (BackupRun, BackupOrder))
        requires
            self.awaits(report),
        ensures
            next.0.prunes == self.prunes,
            (next.0.stage, next.1) == self.next(report),
            next.1 is Catalogue <==> (report matches BackupReport::Archived {
                result: Ok(_),
                cancelled: false,
            }),
            next.1 is Prune <==> self.prunes && (report matches BackupReport::Catalogued {
                cancelled: false,
                ..
            }),
            next.1 is Reconcile <==> (report matches BackupReport::Pruned { result: Ok(_), .. }),
            next.1 is Archive <==> false,
    {
        let prunes = self.prunes;
        let (stage, order) = match report {
            BackupReport::Archived { result: Err(error), .. } => (
                BackupStage::Over,
                BackupOrder::Finish(Err(error)),
            ),
            BackupReport::Archived { result: Ok(summary), cancelled } => {
                if cancelled {
                    (BackupStage::Over, BackupOrder::Finish(Err(EngineError::Cancelled)))
                } else {
                    (BackupStage::Cataloguing(summary), BackupOrder::Catalogue)
                }
            },
            BackupReport::Catalogued { result, cancelled } => {
                if cancelled {
                    let error = match result {
                        Err(error) => error,
                        Ok(_) => EngineError::Cancelled,
                    };
                    (BackupStage::Over, BackupOrder::Finish(Err(error)))
                } else {
                    let summary = self.summary();
                    if prunes {
                        (BackupStage::Pruning(summary), BackupOrder::Prune)
                    } else {
                        (BackupStage::Over, BackupOrder::Finish(Ok(summary)))
                    }
                }
            },
            BackupReport::Pruned { result: Ok(_), .. } => (
                BackupStage::Reconciling(self.summary()),
                BackupOrder::Reconcile,
            ),
            BackupReport::Pruned { result: Err(error), blocking } => {
                if blocking {
                    (BackupStage::Over, BackupOrder::Finish(Err(error)))
                } else {
                    (BackupStage::Over, BackupOrder::Finish(Ok(self.summary())))
                }
            },
            BackupReport::Reconciled { .. } => (
                BackupStage::Over,
                BackupOrder::Finish(Ok(self.summary())),
            ),
        };
        (BackupRun { prunes, stage }, order)
    }

    /// What writing the archive produced.
    fn summary(self) -> (summary: JobSummary)
        requires
            !(self.stage is Archiving || self.stage is Over),
        ensures
            self.stage is Cataloguing ==> summary == self.stage->Cataloguing_0,
            self.stage is Pruning ==> summary == self.stage->Pruning_0,
            self.stage is Reconciling ==> summary == self.stage->Reconciling_0,
    {
        match self.stage {
            BackupStage::Cataloguing(summary) => summary,
            BackupStage::Pruning(summary) => summary,
            BackupStage::Reconciling(summary) => summary,
            _ => JobSummary { archive_id: None },
        }
    }

    /// The result the run comes to on a sequence of reports, once it has one.
    pub open spec fn verdict(self, reports: Seq<BackupReport>) -> Option<
        Result<JobSummary, EngineError>,
    >
        decreases reports.len(),
    {
        if reports.len() == 0 || !self.awaits(reports[0]) {
            None
        } else {
            let (stage, order) = self.next(reports[0]);
            match order {
                BackupOrder::Finish(result) => Some(result),
                _ => BackupRun { prunes: self.prunes, stage }.verdict(reports.drop_first()),
            }
        }
    }
}

/// A backup that has not begun.
pub open spec fn fresh(prunes: bool) -> BackupRun {
    BackupRun { prunes, stage: BackupStage::Archiving }
}

/// What the archive of a run in progress produced.
pub open spec fn archived(stage: BackupStage) -> Option<JobSummary> {
    match stage {
        BackupStage::Cataloguing(summary) => Some(summary),
        BackupStage::Pruning(summary) => Some(summary),
        BackupStage::Reconciling(summary) => Some(summary),
        _ => None,
    }
}

/// From a stage after the archive, success is success with that archive.
proof fn lemma_verdict_is_the_archive(run: BackupRun, reports: Seq<BackupReport>)
    requires
        archived(run.stage) is Some,
    ensures
        run.verdict(reports) matches Some(Ok(summary)) ==> archived(run.stage) == Some(summary),
    decreases reports.len(),
{
    if reports.len() > 0 && run.awaits(reports[0]) {
        let (stage, order) = run.next(reports[0]);
        if !(order is Finish) {
            lemma_verdict_is_the_archive(
                BackupRun { prunes: run.prunes, stage },
                reports.drop_first(),
            );
        }
    }
}

/// No backup succeeds without an archive: whatever is reported on the way, a
/// successful backup is one whose archive was written, and its result is that
/// archive's.
pub proof fn no_success_without_an_archive(
    prunes: bool,
    reports: Seq<BackupReport>,
    summary: JobSummary,
)
    requires
        fresh(prunes).verdict(reports) == Some(
            Ok::<JobSummary, EngineError>(summary),
        ),
    ensures
        reports.len() > 0,
        reports[0] == (BackupReport::Archived { result: Ok(summary), cancelled: false }),
{
    let (stage, order) = fresh(prunes).next(reports[0]);
    if !(order is Finish) {
        lemma_verdict_is_the_archive(BackupRun { prunes, stage }, reports.drop_first());
    }
}

/// A backup from its start on: what was reported, the run before and after each
/// report, and what was ordered at the start and after each.
pub open spec fn is_backup(
    prunes: bool,
    reports: Seq<BackupReport>,
    runs: Seq<BackupRun>,
    orders: Seq<BackupOrder>,
) -> bool {
    &&& runs.len() == reports.len() + 1
    &&& orders.len() == reports.len() + 1
    &&& runs[0] == (BackupRun { prunes, stage: BackupStage::Archiving })
    &&& orders[0] == BackupOrder::Archive
    &&& forall|i: int|
        0 <= i < reports.len() ==> {
            &&& runs[i].awaits(#[trigger] reports[i])
            &&& runs[i + 1].prunes == runs[i].prunes
            &&& (runs[i + 1].stage, orders[i + 1]) == runs[i].next(reports[i])
        }
}

/// A cancelled backup never succeeds and never prunes: the report that says so is
/// the last there is, and what follows it is the end of the job, as a failure.
pub proof fn a_cancelled_backup_stops(
    prunes: bool,
    reports: Seq<BackupReport>,
    runs: Seq<BackupRun>,
    orders: Seq<BackupOrder>,
    at: int,
)
    requires
        is_backup(prunes, reports, runs, orders),
        0 <= at < reports.len(),
        (reports[at] matches BackupReport::Archived { cancelled, .. } && cancelled) || (
        reports[at] matches BackupReport::Catalogued { cancelled, .. } && cancelled),
    ensures
        reports.len() == at + 1,
        orders[at + 1] matches BackupOrder::Finish(Err(error)) && match reports[at] {
            BackupReport::Archived { result: Err(cause), .. } => error == cause,
            BackupReport::Catalogued { result: Err(cause), .. } => error == cause,
            _ => error == EngineError::Cancelled,
        },
{
    assert(runs[at].awaits(reports[at]));
    if at + 1 < reports.len() {
        assert(runs[at + 1].awaits(reports[at + 1]));
    }
}

/// The course of a backup. The archive is catalogued once it is written, the
/// retention policy is applied after that if there is one, and the catalogue is
/// brought in line once something was pruned: each step is ordered exactly when the
/// one before it went as it has to, and nothing is ordered twice or out of turn.
pub proof fn a_backup_takes_its_steps_in_order(
    prunes: bool,
    reports: Seq<BackupReport>,
    runs: Seq<BackupRun>,
    orders: Seq<BackupOrder>,
)
    requires
        is_backup(prunes, reports, runs, orders),
    ensures
        reports.len() <= 4,
        forall|i: int| 0 < i < orders.len() - 1 ==> !((#[trigger] orders[i]) is Finish),
        reports.len() > 0 ==> (reports[0] matches BackupReport::Archived { result, cancelled } && (
        orders[1] is Catalogue <==> result is Ok && !cancelled) && (orders[1] is Catalogue
            || orders[1] is Finish)),
        reports.len() > 1 ==> (reports[1] matches BackupReport::Catalogued { cancelled, .. } && (
        orders[2] is Prune <==> prunes && !cancelled) && (orders[2] is Prune
            || orders[2] is Finish)),
        reports.len() > 2 ==> (reports[2] matches BackupReport::Pruned { result, .. } && (
        orders[3] is Reconcile <==> result is Ok) && (orders[3] is Reconcile
            || orders[3] is Finish)),
        reports.len() > 3 ==> reports[3] is Reconciled && orders[4] is Finish,
{
    if reports.len() > 0 {
        assert(runs[0].awaits(reports[0]));
    }
    if reports.len() > 1 {
        assert(runs[1].awaits(reports[1]));
    }
    if reports.len() > 2 {
        assert(runs[2].awaits(reports[2]));
    }
    if reports.len() > 3 {
        assert(runs[3].awaits(reports[3]));
    }
    if reports.len() > 4 {
        assert(runs[4].awaits(reports[4]));
    }
}

/// How a backup ends. It succeeds with the archive it wrote, exactly where that was
/// written, nobody cancelled, and no pruning failed in a way the user has to act on;
/// and where it fails, it is with the failure that was reported last, or as cancelled.
pub proof fn a_backup_ends_as_it_went(
    prunes: bool,
    reports: Seq<BackupReport>,
    runs: Seq<BackupRun>,
    orders: Seq<BackupOrder>,
)
    requires
        is_backup(prunes, reports, runs, orders),
        reports.len() > 0,
        orders.last() is Finish,
    ensures
        ({
            let spoiled = match reports.last() {
                BackupReport::Archived { result, cancelled } => result is Err || cancelled,
                BackupReport::Catalogued { cancelled, .. } => cancelled,
                BackupReport::Pruned { result, blocking } => result is Err && blocking,
                BackupReport::Reconciled { .. } => false,
            };
            match orders.last()->Finish_0 {
                Ok(summary) => {
                    &&& !spoiled
                    &&& reports[0] == (BackupReport::Archived {
                        result: Ok(summary),
                        cancelled: false,
                    })
                    &&& reports.len() >= if prunes {
                        3int
                    } else {
                        2
                    }
                },
                Err(error) => {
                    &&& spoiled
                    &&& match reports.last() {
                        BackupReport::Archived { result: Err(cause), .. } => error == cause,
                        BackupReport::Catalogued { result: Err(cause), .. } => error == cause,
                        BackupReport::Pruned { result: Err(cause), .. } => error == cause,
                        _ => error == EngineError::Cancelled,
                    }
                },
            }
        }),
{
    a_backup_takes_its_steps_in_order(prunes, reports, runs, orders);
    assert(runs[0].awaits(reports[0]));
    if reports.len() > 1 {
        assert(runs[1].awaits(reports[1]));
    }
    if reports.len() > 2 {
        assert(runs[2].awaits(reports[2]));
    }
    if reports.len() > 3 {
        assert(runs[3].awaits(reports[3]));
    }
}

/// Whatever an engine job says while a phase lasts, the phase is over exactly when
/// the job said how it ended, when nobody listens any more, or when it fell silent;
/// and it went well only where the job said so. Numbers pass through unchanged.
pub proof fn a_phase_ends_well_only_where_the_engine_said_so(
    phase: Seq<char>,
    input: DriveInput,
    step: DriveStep,
)
    requires
        driven(phase, input, step),
    ensures
        step matches DriveStep::Over(Ok(summary)) ==> input == DriveInput::Event(
            JobEvent::Finished(Ok(summary)),
        ),
        input matches DriveInput::Event(JobEvent::Finished(result)) ==> step == DriveStep::Over(
            result,
        ),
        step is Forward <==> (input is Event && !(input->Event_0 is Finished)),
        input is Unheard ==> step == DriveStep::Over(Err(EngineError::Cancelled)),
        input is StreamEnded ==> (step matches DriveStep::Over(Err(error)) && !(error
            is Cancelled)),
        input matches DriveInput::Event(JobEvent::Progress { current, total, .. }) ==> (
        step matches DriveStep::Forward(JobEvent::Progress { current: c, total: t, phase: p }) && c
            == current && t == total && p@ == phase),
        input matches DriveInput::Event(event) ==> event is Log || event is ItemDone ==> step
            == DriveStep::Forward(event),
{
}

/// What is reported of a backup whose archive is written and that nobody
/// cancels.
pub open spec fn undisturbed(
    summary: JobSummary,
    catalogued: Result<usize, EngineError>,
    pruned: Result<(), EngineError>,
    blocking: bool,
    reconciled: Result<usize, EngineError>,
) -> Seq<BackupReport> {
    seq![
        BackupReport::Archived { result: Ok(summary), cancelled: false },
        BackupReport::Catalogued { result: catalogued, cancelled: false },
        BackupReport::Pruned { result: pruned, blocking },
        BackupReport::Reconciled { result: reconciled },
    ]
}

/// Housekeeping never undoes a backup: once the archive is written and nobody
/// cancels, the backup succeeds, however cataloguing and reconciling go, unless
/// pruning fails in a way the user has to act on.
pub proof fn housekeeping_does_not_fail_a_backup(
    summary: JobSummary,
    catalogued: Result<usize, EngineError>,
    pruned: Result<(), EngineError>,
    blocking: bool,
    reconciled: Result<usize, EngineError>,
)
    requires
        pruned is Err ==> !blocking,
    ensures
        fresh(true).verdict(undisturbed(summary, catalogued, pruned, blocking, reconciled)) == Some(
            Ok::<JobSummary, EngineError>(summary),
        ),
{
    let all = undisturbed(summary, catalogued, pruned, blocking, reconciled);
    reveal_with_fuel(BackupRun::verdict, 5);
    assert(all.drop_first()[0] == all[1]);
    assert(all.drop_first().drop_first()[0] == all[2]);
    assert(all.drop_first().drop_first().drop_first()[0] == all[3]);
}

/// What can come of listening to one phase of a longer job.
#[derive(Debug, PartialEq, Eq)]
pub enum DriveInput {
    /// The engine reported something.
    Event(JobEvent),
    /// What was passed on last found nobody listening.
    Unheard,
    /// The engine's stream ended.
    StreamEnded,
}

/// What to do about it.
#[derive(Debug, PartialEq, Eq)]
pub enum DriveStep {
    /// Pass this on.
    Forward(JobEvent),
    /// The phase is over, with this result.
    Over(Result<JobSummary, EngineError>),
}

/// What a phase whose stream ends too soon is reported as.
pub open spec fn no_outcome(phase: Seq<char>) -> Seq<char> {
    "borg ended the "@ + phase + " phase without an outcome"@
}

/// What is done about an event in a phase.
pub open spec fn driven(phase: Seq<char>, input: DriveInput, step: DriveStep) -> bool {
    match input {
        DriveInput::Event(JobEvent::Finished(result)) => step == DriveStep::Over(result),
        DriveInput::Event(JobEvent::Progress { current, total, .. }) => {
            &&& step matches DriveStep::Forward(
                JobEvent::Progress { current: c, total: t, phase: p },
            )
            &&& c == current
            &&& t == total
            &&& p@ == phase
        },
        DriveInput::Event(other) => step == DriveStep::Forward(other),
        DriveInput::Unheard => step == DriveStep::Over(Err(EngineError::Cancelled)),
        DriveInput::StreamEnded => {
            &&& step matches DriveStep::Over(Err(error))
            &&& unclassified_as(error, no_outcome(phase))
        },
    }
}

/// Pass one engine job's events on under `phase`.
///
/// The engine's own terminal event ends the phase and is not passed on: it
/// would tell the registry that the whole job was over. A stream that ends
/// without saying how it went has proved nothing, and counts as a failure.
pub fn drive(phase: &str, input: DriveInput) -> (step: DriveStep)
    ensures
        driven(phase@, input, step),
{
    match input {
        DriveInput::Event(JobEvent::Finished(result)) => DriveStep::Over(result),
        DriveInput::Event(JobEvent::Progress { current, total, .. }) => DriveStep::Forward(
            JobEvent::Progress { current, total, phase: phase.to_owned() },
        ),
        DriveInput::Event(other) => DriveStep::Forward(other),
        DriveInput::Unheard => DriveStep::Over(Err(EngineError::Cancelled)),
        DriveInput::StreamEnded => {
            let mut told = text::joined("borg ended the ", phase);
            told.append(" phase without an outcome");
            DriveStep::Over(Err(EngineError::unclassified(told)))
        },
    }
}

/// A failure of the catalogue, in the engine's vocabulary: not a problem of the
/// repository, so it comes without a name of its own.
pub fn indexing(cause: &str) -> (error: EngineError)
    ensures
        unclassified_as(error, "catalogue: "@ + cause@),
{
    EngineError::unclassified(text::joined("catalogue: ", cause))
}

/// A blocking task that panicked or was cancelled.
pub fn joined(cause: &str) -> (error: EngineError)
    ensures
        unclassified_as(error, "catalogue task did not finish: "@ + cause@),
{
    EngineError::unclassified(text::joined("catalogue task did not finish: ", cause))
}

} // verus!
