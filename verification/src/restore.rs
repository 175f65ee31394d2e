//! Restores, as the daemon runs them.
//!
//! A restore is two jobs. Preparing extracts the wanted paths into a staging
//! directory and compares them with what is on disk; it touches nothing.
//! Executing applies the answers the user gave to what preparing found. Between
//! the two the user sees a summary of a restore that has already been worked
//! out, and cancelling costs nothing because nothing has happened.

use std::collections::BTreeMap;

use vstd::prelude::*;

use crate::engine::{EngineError, JobSummary};
use crate::jobs::JobId;
use crate::text;

verus! {

/// Phases of a restore, as the user reads them.
pub const PHASE_FETCHING: &'static str = "fetching";

pub const PHASE_COMPARING: &'static str = "comparing";

pub const PHASE_RESTORING: &'static str = "restoring";

/// What comparing found of a path.
#[derive(Debug, Clone, Copy, PartialEq, Eq, Structural)]
pub enum Class {
    /// The same in the backup and on disk.
    Identical,
    /// Different in the backup and on disk.
    Conflict { disk_newer: bool },
    /// Only in the backup.
    OnlyInBackup,
    /// Only on disk.
    OnlyOnDisk,
    /// A file here and a directory there.
    TypeChanged,
}

impl Class {
    /// Whether the user has to say what becomes of the path.
    pub open spec fn needs_decision(self) -> bool {
        self is Conflict || self == Class::TypeChanged
    }
}

/// What is known of one side of a path.
#[derive(Debug, Clone, Copy, PartialEq, Eq, Structural)]
pub struct FileFacts {
    pub size: u64,
    pub mtime: i64,
}

/// A path of a worked-out restore.
#[derive(Debug, PartialEq, Eq)]
pub struct PlanEntry {
    pub path: String,
    pub class: Class,
    pub backup: Option<FileFacts>,
    pub disk: Option<FileFacts>,
    /// What each side is, as the comparison words it.
    pub backup_kind: String,
    pub disk_kind: String,
}

/// How many paths are of each class.
#[derive(Debug, Clone, Copy, PartialEq, Eq, Structural)]
pub struct Counts {
    pub identical: usize,
    pub conflicts: usize,
    pub disk_newer: usize,
    pub only_in_backup: usize,
    pub only_on_disk: usize,
    pub type_changed: usize,
}

/// A restore that has been worked out.
#[derive(Debug, PartialEq, Eq)]
pub struct RestorePlan {
    pub archive: String,
    pub dest: String,
    /// Where the extracted copy is.
    pub staging: String,
    pub counts: Counts,
    pub entries: Vec<PlanEntry>,
    /// Paths that cannot be restored, and why.
    pub refused: Vec<(String, String)>,
    /// What else the comparison has to say to the user.
    pub notes: Vec<String>,
}

/// A restore that has been worked out, and possibly carried out.
#[derive(Debug)]
pub struct Prepared<L> {
    pub plan: RestorePlan,
    /// What carrying it out did, which is what undoing walks backwards.
    pub log: Option<L>,
}

/// Every restore the daemon is holding, by the job that prepared it.
#[derive(Debug)]
pub struct Restores<L> {
    held: BTreeMap<JobId, Prepared<L>>,
}

impl<L> View for Restores<L> {
    type V = Map<JobId, Prepared<L>>;

    closed spec fn view(&self) -> Map<JobId, Prepared<L>> {
        self.held@
    }
}

impl<L> Restores<L> {
    /// None yet.
    pub fn new() -> (restores: Restores<L>)
        ensures
            restores@ == Map::<JobId, Prepared<L>>::empty(),
    {
        Restores { held: BTreeMap::new() }
    }

    /// File a finished plan under the job that computed it.
    pub fn keep(&mut self, job: JobId, plan: RestorePlan)
        ensures
            final(self)@ == old(self)@.insert(job, (Prepared { plan, log: None })),
    {
        broadcast use vstd::std_specs::btree::group_btree_axioms;

        self.held.insert(job, Prepared { plan, log: None });
    }

    /// The plan for a job, if it is still being held.
    pub fn plan(&self, job: JobId) -> (plan: Option<&RestorePlan>)
        ensures
            plan is Some <==> self@.dom().contains(job),
            plan matches Some(p) ==> *p == self@[job].plan,
    {
        broadcast use vstd::std_specs::btree::group_btree_axioms;

        match self.held.get(&job) {
            Some(prepared) => Some(&prepared.plan),
            None => None,
        }
    }

    /// Record what carrying a restore out did, so that it can be undone. A restore
    /// that is not held any more has nothing recorded.
    pub fn record(&mut self, job: JobId, log: L)
        ensures
            final(self)@ == if old(self)@.dom().contains(job) {
                old(self)@.insert(job, (Prepared { plan: old(self)@[job].plan, log: Some(log) }))
            } else {
                old(self)@
            },
    {
        broadcast use vstd::std_specs::btree::group_btree_axioms;

        let ghost before = self.held@;
        match self.held.remove(&job) {
            Some(prepared) => {
                self.held.insert(job, Prepared { plan: prepared.plan, log: Some(log) });
                assert(self.held@ =~= before.insert(
                    job,
                    Prepared { plan: before[job].plan, log: Some(log) },
                ));
            },
            None => {
                assert(self.held@ =~= before);
            },
        }
    }

    /// What carrying out the restore of a job did, if it has been.
    pub fn log(&self, job: JobId) -> (log: Option<&L>)
        ensures
            log is Some <==> self@.dom().contains(job) && self@[job].log is Some,
            log matches Some(l) ==> Some(*l) == self@[job].log,
    {
        broadcast use vstd::std_specs::btree::group_btree_axioms;

        match self.held.get(&job) {
            Some(prepared) => match &prepared.log {
                Some(log) => Some(log),
                None => None,
            },
            None => None,
        }
    }

    /// The extracted copy to remove once a restore has been carried out. The plan
    /// and the log stay: undoing still needs them.
    pub fn clear_staging(&self, job: JobId) -> (staging: Option<String>)
        ensures
            staging is Some <==> self@.dom().contains(job),
            staging matches Some(dir) ==> dir@ == self@[job].plan.staging@,
    {
        match self.plan(job) {
            Some(plan) => Some(plan.staging.clone()),
            None => None,
        }
    }

    /// Forget a restore, and name the extracted copy to remove.
    pub fn discard(&mut self, job: JobId) -> (staging: Option<String>)
        ensures
            final(self)@ == old(self)@.remove(job),
            staging is Some <==> old(self)@.dom().contains(job),
            staging matches Some(dir) ==> dir@ == old(self)@[job].plan.staging@,
    {
        broadcast use vstd::std_specs::btree::group_btree_axioms;

        match self.held.remove(&job) {
            Some(prepared) => Some(prepared.plan.staging),
            None => None,
        }
    }

    /// Whether anything is being held for a job.
    pub fn holds(&self, job: JobId) -> (held: bool)
        ensures
            held == self@.dom().contains(job),
    {
        self.plan(job).is_some()
    }
}

/// A path that needs an answer, as the client reads it.
#[derive(Debug, PartialEq, Eq)]
pub struct RestoreEntry {
    pub path: String,
    pub class: String,
    pub disk_newer: bool,
    pub backup_size: u64,
    pub backup_mtime: i64,
    pub disk_size: u64,
    pub disk_mtime: i64,
    pub backup_kind: String,
    pub disk_kind: String,
}

/// The summary of a worked-out restore, as the client reads it.
#[derive(Debug, PartialEq, Eq)]
pub struct RestorePreview {
    pub archive: String,
    pub dest: String,
    pub identical: u32,
    pub conflicts: u32,
    pub disk_newer: u32,
    pub only_in_backup: u32,
    pub only_on_disk: u32,
    pub type_changed: u32,
    pub entries: Vec<RestoreEntry>,
    pub refused: Vec<(String, String)>,
    pub notes: Vec<String>,
}

/// The size of one side of a path; nothing where there is no such side.
pub open spec fn size_of_side(facts: Option<FileFacts>) -> u64 {
    match facts {
        Some(f) => f.size,
        None => 0,
    }
}

/// When one side of a path was changed; nothing where there is no such side.
pub open spec fn mtime_of_side(facts: Option<FileFacts>) -> i64 {
    match facts {
        Some(f) => f.mtime,
        None => 0,
    }
}

/// Whether `shown` is how the client reads an entry of a plan.
pub open spec fn shows(shown: RestoreEntry, entry: PlanEntry) -> bool {
    &&& shown.path@ == entry.path@
    &&& shown.class@ == if entry.class == Class::TypeChanged {
        "type-changed"@
    } else {
        "conflict"@
    }
    &&& shown.disk_newer == (entry.class == Class::Conflict { disk_newer: true })
    &&& shown.backup_size == size_of_side(entry.backup)
    &&& shown.backup_mtime == mtime_of_side(entry.backup)
    &&& shown.disk_size == size_of_side(entry.disk)
    &&& shown.disk_mtime == mtime_of_side(entry.disk)
    &&& shown.backup_kind@ == entry.backup_kind@
    &&& shown.disk_kind@ == entry.disk_kind@
}

/// Whether `shown` are the entries that need an answer, in their order.
pub open spec fn shows_all(shown: Seq<RestoreEntry>, entries: Seq<PlanEntry>) -> bool
    decreases entries.len(),
{
    if entries.len() == 0 {
        shown.len() == 0
    } else if entries.last().class.needs_decision() {
        &&& shown.len() > 0
        &&& shows(shown.last(), entries.last())
        &&& shows_all(shown.drop_last(), entries.drop_last())
    } else {
        shows_all(shown, entries.drop_last())
    }
}

/// What the client is shown is what was found: of the paths whose two sides conflict
/// or are not of one type, each once and in their order, the size and the time of the
/// copy in the backup and of the one on disk, each under its own name. A side that is
/// not there has neither.
pub proof fn each_conflict_is_shown_as_it_was_found(
    shown: Seq<RestoreEntry>,
    entries: Seq<PlanEntry>,
)
    requires
        shows_all(shown, entries),
    ensures
        ({
            let needed = entries.filter(
                |e: PlanEntry| e.class is Conflict || e.class is TypeChanged,
            );
            &&& shown.len() == needed.len()
            &&& forall|k: int|
                0 <= k < needed.len() ==> {
                    &&& (#[trigger] shown[k]).path@ == needed[k].path@
                    &&& shown[k].class@ == if needed[k].class is TypeChanged {
                        "type-changed"@
                    } else {
                        "conflict"@
                    }
                    &&& shown[k].disk_newer <==> (needed[k].class matches Class::Conflict {
                        disk_newer,
                    } && disk_newer)
                    &&& needed[k].backup matches Some(f) ==> shown[k].backup_size == f.size
                        && shown[k].backup_mtime == f.mtime
                    &&& needed[k].backup is None ==> shown[k].backup_size == 0
                        && shown[k].backup_mtime == 0
                    &&& needed[k].disk matches Some(f) ==> shown[k].disk_size == f.size
                        && shown[k].disk_mtime == f.mtime
                    &&& needed[k].disk is None ==> shown[k].disk_size == 0
                        && shown[k].disk_mtime == 0
                    &&& shown[k].backup_kind@ == needed[k].backup_kind@
                    &&& shown[k].disk_kind@ == needed[k].disk_kind@
                }
        }),
    decreases entries.len(),
{
    reveal(Seq::filter);
    if entries.len() > 0 {
        let needs = |e: PlanEntry| e.class is Conflict || e.class is TypeChanged;
        let front = entries.drop_last();
        if entries.last().class.needs_decision() {
            each_conflict_is_shown_as_it_was_found(shown.drop_last(), front);
            let (before, needed) = (front.filter(needs), entries.filter(needs));
            assert(needed =~= before.push(entries.last()));
            assert forall|k: int| 0 <= k < before.len() implies #[trigger] shown[k]
                == shown.drop_last()[k] && needed[k] == before[k] by {}
        } else {
            each_conflict_is_shown_as_it_was_found(shown, front);
            assert(entries.filter(needs) =~= front.filter(needs));
        }
    }
}

/// What is on disk has no say in how the copy in the backup is shown, and the other
/// way round: of two restores that found the same in the backup, the same is shown
/// of it.
pub proof fn each_side_is_shown_for_itself(
    first: Seq<RestoreEntry>,
    one: PlanEntry,
    second: Seq<RestoreEntry>,
    other: PlanEntry,
)
    requires
        shows_all(first, seq![one]),
        shows_all(second, seq![other]),
        first.len() == 1,
        second.len() == 1,
    ensures
        one.backup == other.backup ==> first[0].backup_size == second[0].backup_size
            && first[0].backup_mtime == second[0].backup_mtime,
        one.disk == other.disk ==> first[0].disk_size == second[0].disk_size && first[0].disk_mtime
            == second[0].disk_mtime,
        (one.backup matches Some(a) && other.backup matches Some(b) && a.mtime != b.mtime)
            ==> first[0].backup_mtime != second[0].backup_mtime,
        (one.disk matches Some(a) && other.disk matches Some(b) && a.mtime != b.mtime)
            ==> first[0].disk_mtime != second[0].disk_mtime,
{
    reveal_with_fuel(shows_all, 2);
    assert(seq![one].last() == one);
    assert(seq![other].last() == other);
}

/// The size and the time of one side of a path.
fn side(facts: &Option<FileFacts>) -> (told: (u64, i64))
    ensures
        told.0 == size_of_side(*facts),
        told.1 == mtime_of_side(*facts),
{
    match facts {
        Some(f) => (f.size, f.mtime),
        None => (0, 0),
    }
}

/// Turn a plan into the summary the client reads. Only the paths that need an
/// answer cross the bus: a folder restore may touch tens of thousands of files.
pub fn preview(plan: &RestorePlan) -> (summary: RestorePreview)
    ensures
        summary.archive@ == plan.archive@,
        summary.dest@ == plan.dest@,
        summary.identical == plan.counts.identical as u32,
        summary.conflicts == plan.counts.conflicts as u32,
        summary.disk_newer == plan.counts.disk_newer as u32,
        summary.only_in_backup == plan.counts.only_in_backup as u32,
        summary.only_on_disk == plan.counts.only_on_disk as u32,
        summary.type_changed == plan.counts.type_changed as u32,
        shows_all(summary.entries@, plan.entries@),
        ({
            let needed = plan.entries@.filter(
                |e: PlanEntry| e.class is Conflict || e.class is TypeChanged,
            );
            &&& summary.entries@.len() == needed.len()
            &&& forall|k: int|
                0 <= k < needed.len() ==> {
                    &&& (#[trigger] summary.entries@[k]).path@ == needed[k].path@
                    &&& summary.entries@[k].class@ == if needed[k].class is TypeChanged {
                        "type-changed"@
                    } else {
                        "conflict"@
                    }
                    &&& summary.entries@[k].disk_newer <==> (needed[k].class matches Class::Conflict {
                        disk_newer,
                    } && disk_newer)
                    &&& needed[k].backup matches Some(f) ==> summary.entries@[k].backup_size == f.size
                        && summary.entries@[k].backup_mtime == f.mtime
                    &&& needed[k].backup is None ==> summary.entries@[k].backup_size == 0
                        && summary.entries@[k].backup_mtime == 0
                    &&& needed[k].disk matches Some(f) ==> summary.entries@[k].disk_size == f.size
                        && summary.entries@[k].disk_mtime == f.mtime
                    &&& needed[k].disk is None ==> summary.entries@[k].disk_size == 0
                        && summary.entries@[k].disk_mtime == 0
                    &&& summary.entries@[k].backup_kind@ == needed[k].backup_kind@
                    &&& summary.entries@[k].disk_kind@ == needed[k].disk_kind@
                }
        }),
        summary.refused@ == plan.refused@,
        summary.notes@ == plan.notes@,
{
    let mut entries: Vec<RestoreEntry> = Vec::new();
    let mut i: usize = 0;
    while i < plan.entries.len()
        invariant
            i <= plan.entries@.len(),
            shows_all(entries@, plan.entries@.take(i as int)),
        decreases plan.entries@.len() - i,
    {
        let ghost before = entries@;
        let ghost next = plan.entries@.take(i + 1);
        proof {
            assert(next.drop_last() =~= plan.entries@.take(i as int));
            assert(next.last() == plan.entries@[i as int]);
        }
        let entry = &plan.entries[i];
        let (needed, class, disk_newer) = match entry.class {
            Class::TypeChanged => (true, "type-changed", false),
            Class::Conflict { disk_newer } => (true, "conflict", disk_newer),
            _ => (false, "", false),
        };
        if needed {
            let (backup_size, backup_mtime) = side(&entry.backup);
            let (disk_size, disk_mtime) = side(&entry.disk);
            entries.push(
                RestoreEntry {
                    path: entry.path.clone(),
                    class: class.to_owned(),
                    disk_newer,
                    backup_size,
                    backup_mtime,
                    disk_size,
                    disk_mtime,
                    backup_kind: entry.backup_kind.clone(),
                    disk_kind: entry.disk_kind.clone(),
                },
            );
            assert(entries@.drop_last() =~= before);
        }
        i += 1;
    }
    assert(plan.entries@.take(i as int) =~= plan.entries@);
    let mut refused: Vec<(String, String)> = Vec::new();
    let mut k: usize = 0;
    while k < plan.refused.len()
        invariant
            k <= plan.refused@.len(),
            refused@ == plan.refused@.take(k as int),
        decreases plan.refused@.len() - k,
    {
        refused.push((plan.refused[k].0.clone(), plan.refused[k].1.clone()));
        k += 1;
        assert(refused@ =~= plan.refused@.take(k as int));
    }
    assert(plan.refused@.take(k as int) =~= plan.refused@);
    proof {
        each_conflict_is_shown_as_it_was_found(entries@, plan.entries@);
    }
    RestorePreview {
        archive: plan.archive.clone(),
        dest: plan.dest.clone(),
        identical: plan.counts.identical as u32,
        conflicts: plan.counts.conflicts as u32,
        disk_newer: plan.counts.disk_newer as u32,
        only_in_backup: plan.counts.only_in_backup as u32,
        only_on_disk: plan.counts.only_on_disk as u32,
        type_changed: plan.counts.type_changed as u32,
        entries,
        refused,
        notes: text::copies(&plan.notes),
    }
}

/// How a step of preparing a restore went.
#[derive(Debug, PartialEq, Eq)]
pub enum PrepareReport {
    /// Whether the staging directory could be made.
    StagingMade(Result<(), String>),
    /// Whether the extraction could be started.
    Opened(Result<(), EngineError>),
    /// How the extraction went, and whether the job has been cancelled.
    Fetched { result: Result<(), EngineError>, cancelled: bool },
    /// What the comparison found, or why it could not be made.
    Compared(Result<RestorePlan, String>),
}

/// What follows in preparing a restore.
#[derive(Debug, PartialEq, Eq)]
pub enum PrepareOrder {
    /// Start the extraction into the staging directory.
    Extract,
    /// Pass its events on, as the fetching phase.
    Fetch,
    /// Compare what was extracted with what is on disk, as the comparing phase,
    /// within what was asked for.
    Compare,
    /// File the plan; the restore is worked out.
    Keep(RestorePlan),
    /// Remove the staging directory and end the job: nothing was promised, and
    /// nothing is left behind.
    Abandon(EngineError),
}

/// Whether an error is one of this computer's own, told in these words.
pub open spec fn is_local(error: EngineError, words: Seq<char>) -> bool {
    error matches EngineError::Local(said) && said@ == words
}

/// Whether `order` is what follows a step of preparing a restore.
pub open spec fn prepares(report: PrepareReport, order: PrepareOrder) -> bool {
    match report {
        PrepareReport::StagingMade(Ok(())) => order is Extract,
        PrepareReport::StagingMade(Err(words)) => order matches PrepareOrder::Abandon(error)
            && is_local(error, words@),
        PrepareReport::Opened(Ok(())) => order is Fetch,
        PrepareReport::Opened(Err(cause)) => order == PrepareOrder::Abandon(cause),
        PrepareReport::Fetched { result: Err(cause), .. } => order == PrepareOrder::Abandon(cause),
        PrepareReport::Fetched { result: Ok(()), cancelled } => if cancelled {
            order == PrepareOrder::Abandon(EngineError::Cancelled)
        } else {
            order is Compare
        },
        PrepareReport::Compared(Ok(plan)) => order == PrepareOrder::Keep(plan),
        PrepareReport::Compared(Err(words)) => order matches PrepareOrder::Abandon(error)
            && is_local(error, words@),
    }
}

/// What follows a step of preparing a restore. The first step is to make the
/// staging directory.
pub fn prepare(report: PrepareReport) -> (order: PrepareOrder)
    ensures
        prepares(report, order),
        order is Extract <==> (report matches PrepareReport::StagingMade(Ok(_))),
        order is Fetch <==> (report matches PrepareReport::Opened(Ok(_))),
        order is Compare <==> (report matches PrepareReport::Fetched {
            result: Ok(_),
            cancelled: false,
        }),
        forall|plan: RestorePlan|
            order == PrepareOrder::Keep(plan) <==> report == PrepareReport::Compared(Ok(plan)),
        report matches PrepareReport::Fetched { result: Ok(_), cancelled: true } ==> order
            == PrepareOrder::Abandon(EngineError::Cancelled),
{
    match report {
        PrepareReport::StagingMade(made) => match made {
            Ok(()) => PrepareOrder::Extract,
            Err(words) => PrepareOrder::Abandon(EngineError::Local(words)),
        },
        PrepareReport::Opened(opened) => match opened {
            Ok(()) => PrepareOrder::Fetch,
            Err(cause) => PrepareOrder::Abandon(cause),
        },
        PrepareReport::Fetched { result, cancelled } => match result {
            Ok(()) => {
                if cancelled {
                    PrepareOrder::Abandon(EngineError::Cancelled)
                } else {
                    PrepareOrder::Compare
                }
            },
            Err(cause) => PrepareOrder::Abandon(cause),
        },
        PrepareReport::Compared(compared) => match compared {
            Ok(plan) => PrepareOrder::Keep(plan),
            Err(words) => PrepareOrder::Abandon(EngineError::Local(words)),
        },
    }
}

/// A restore is kept for the user to look at only as the comparison worked it out, and
/// the comparison is made only of a whole extraction that nobody cancelled. Whatever
/// goes wrong before that abandons the restore, for the reason that was given.
pub proof fn a_restore_is_worked_out_of_a_whole_extraction(
    report: PrepareReport,
    order: PrepareOrder,
)
    requires
        prepares(report, order),
    ensures
        order matches PrepareOrder::Keep(plan) ==> report == PrepareReport::Compared(Ok(plan)),
        order is Compare ==> (report matches PrepareReport::Fetched { result, cancelled } && result
            is Ok && !cancelled),
        order is Fetch ==> (report matches PrepareReport::Opened(opened) && opened is Ok),
        order is Extract ==> (report matches PrepareReport::StagingMade(made) && made is Ok),
        order is Abandon <==> match report {
            PrepareReport::StagingMade(made) => made is Err,
            PrepareReport::Opened(opened) => opened is Err,
            PrepareReport::Fetched { result, cancelled } => result is Err || cancelled,
            PrepareReport::Compared(compared) => compared is Err,
        },
        order matches PrepareOrder::Abandon(error) ==> match report {
            PrepareReport::Opened(Err(cause)) => error == cause,
            PrepareReport::Fetched { result: Err(cause), .. } => error == cause,
            PrepareReport::Fetched { result: Ok(_), .. } => error == EngineError::Cancelled,
            PrepareReport::StagingMade(Err(words)) => error matches EngineError::Local(said) && said@
                == words@,
            PrepareReport::Compared(Err(words)) => error matches EngineError::Local(said) && said@
                == words@,
            _ => false,
        },
{
}

/// A restore that asks nobody is carried out exactly where it was worked out, and as
/// it was; one that could not be worked out ends as a failure, with nothing to undo.
pub proof fn a_direct_restore_carries_out_what_was_worked_out<L>(
    report: PrepareReport,
    order: DirectOrder<L>,
)
    requires
        prepares_directly(report, order),
    ensures
        order matches DirectOrder::Execute(plan) ==> report == PrepareReport::Compared(Ok(plan)),
        report matches PrepareReport::Compared(Ok(plan)) ==> order == DirectOrder::<L>::Execute(
            plan,
        ),
        order matches DirectOrder::Finish { log, result } ==> log is None && result is Err,
        order is Finish <==> match report {
            PrepareReport::StagingMade(made) => made is Err,
            PrepareReport::Opened(opened) => opened is Err,
            PrepareReport::Fetched { result, cancelled } => result is Err || cancelled,
            PrepareReport::Compared(compared) => compared is Err,
        },
{
}

/// Why a restore could not start.
#[derive(Debug, PartialEq, Eq)]
pub enum RestoreError {
    /// There is not enough space for it.
    NotEnoughSpace,
    /// Something else, in words.
    Other(String),
}

/// A restore that could not start, in the engine's vocabulary where that has a
/// word for it.
pub fn restore_failure(error: RestoreError) -> (mapped: EngineError)
    ensures
        match error {
            RestoreError::NotEnoughSpace => mapped == EngineError::LocalDiskFull,
            RestoreError::Other(words) => is_local(mapped, words@),
        },
{
    match error {
        RestoreError::NotEnoughSpace => EngineError::LocalDiskFull,
        RestoreError::Other(words) => EngineError::Local(words),
    }
}

/// What carrying out a restore came to.
#[derive(Debug, PartialEq, Eq)]
pub enum Executed<L> {
    /// It could not start.
    NotStarted(RestoreError),
    /// It ran: how many files were restored, which could not be and why, and the
    /// log of what was moved.
    Ran { restored: u64, failures: Vec<(String, String)>, log: L },
}

/// Whether a restore that ran restored nothing of what it was asked to: a failed
/// restore, however politely each failure was collected.
pub open spec fn achieved_nothing(restored: u64, failures: Seq<(String, String)>) -> bool {
    restored == 0 && failures.len() > 0
}

/// How the job of carrying out a restore ends. What ran is recorded first, so that
/// it can be undone.
pub fn carry_out<L>(outcome: Executed<L>) -> (ended: (Option<L>, Result<JobSummary, EngineError>))
    ensures
        match outcome {
            Executed::NotStarted(cause) => {
                &&& ended.0 is None
                &&& ended.1 matches Err(error)
                &&& match cause {
                    RestoreError::NotEnoughSpace => error == EngineError::LocalDiskFull,
                    RestoreError::Other(words) => is_local(error, words@),
                }
            },
            Executed::Ran { restored, failures, log } => {
                &&& ended.0 == Some(log)
                &&& if achieved_nothing(restored, failures@) {
                    ended.1 matches Err(error) && is_local(
                        error,
                        "nothing could be restored: "@ + failures@[0].1@,
                    )
                } else {
                    ended.1 matches Ok(summary) && summary.archive_id is None
                }
            },
        },
        ended.0 is Some <==> outcome is Ran,
        ended.1 is Ok <==> (outcome matches Executed::Ran { restored, failures, .. } && (restored > 0
            || failures@.len() == 0)),
{
    match outcome {
        Executed::NotStarted(cause) => (None, Err(restore_failure(cause))),
        Executed::Ran { restored, failures, log } => {
            if restored == 0 && failures.len() > 0 {
                let words = text::joined("nothing could be restored: ", failures[0].1.as_str());
                (Some(log), Err(EngineError::Local(words)))
            } else {
                (Some(log), Ok(JobSummary::default()))
            }
        },
    }
}

/// The error for a restore that is not held any more.
pub fn no_longer_prepared() -> (error: EngineError)
    ensures
        is_local(error, "that restore is no longer prepared; work it out again"@),
{
    EngineError::Local("that restore is no longer prepared; work it out again".to_owned())
}

/// The error for a second attempt to carry out one request.
pub fn already_carried_out() -> (error: EngineError)
    ensures
        is_local(error, "that restore has already been carried out"@),
{
    EngineError::Local("that restore has already been carried out".to_owned())
}

/// How the job of undoing a restore ends: `failures` is how many files could not be
/// put back, `None` where nothing was recorded to undo.
pub fn undo(failures: Option<u64>) -> (result: Result<JobSummary, EngineError>)
    ensures
        match failures {
            None => result matches Err(error) && is_local(
                error,
                "there is nothing recorded to undo"@,
            ),
            Some(count) => if count == 0 {
                result matches Ok(summary) && summary.archive_id is None
            } else {
                result matches Err(error) && is_local(
                    error,
                    text::decimal(count as nat) + " of the restored files could not be put back"@,
                )
            },
        },
{
    match failures {
        None => Err(EngineError::Local("there is nothing recorded to undo".to_owned())),
        Some(count) => {
            if count == 0 {
                Ok(JobSummary::default())
            } else {
                Err(
                    EngineError::Local(
                        text::joined(
                            text::decimal_text(count).as_str(),
                            " of the restored files could not be put back",
                        ),
                    ),
                )
            }
        },
    }
}

/// What follows in a restore that asks nobody.
#[derive(Debug, PartialEq, Eq)]
pub enum DirectOrder<L> {
    /// Go on preparing.
    Prepare(PrepareOrder),
    /// File the plan, report the restoring phase, and carry the plan out.
    Execute(RestorePlan),
    /// Record the log if there is one, remove the staging directory, and end.
    Finish { log: Option<L>, result: Result<JobSummary, EngineError> },
}

/// Whether `order` is what follows a step of preparing a restore that asks nobody:
/// as in any preparing, but a plan is carried out at once, and a failure ends the
/// job.
pub open spec fn prepares_directly<L>(report: PrepareReport, order: DirectOrder<L>) -> bool {
    match order {
        DirectOrder::Prepare(inner) => prepares(report, inner) && !(inner is Keep) && !(
        inner is Abandon),
        DirectOrder::Execute(plan) => prepares(report, PrepareOrder::Keep(plan)),
        DirectOrder::Finish { log, result } => {
            &&& log is None
            &&& result matches Err(error)
            &&& prepares(report, PrepareOrder::Abandon(error))
        },
    }
}

/// What follows a step of preparing a restore that asks nobody: the same pipeline,
/// with a blanket answer for every conflict.
pub fn direct<L>(report: PrepareReport) -> (order: DirectOrder<L>)
    ensures
        prepares_directly(report, order),
{
    match prepare(report) {
        PrepareOrder::Keep(plan) => DirectOrder::Execute(plan),
        PrepareOrder::Abandon(error) => DirectOrder::Finish { log: None, result: Err(error) },
        order => DirectOrder::Prepare(order),
    }
}

/// Clearing the staging directory loses nothing that undoing needs, and recording
/// makes a restore one that can be undone.
pub proof fn a_recorded_restore_can_be_undone<L>(
    held: Map<JobId, Prepared<L>>,
    job: JobId,
    plan: RestorePlan,
    log: L,
)
    ensures
        ({
            let kept = held.insert(job, (Prepared { plan, log: None::<L> }));
            let recorded = kept.insert(job, (Prepared { plan: kept[job].plan, log: Some(log) }));
            &&& kept[job].log is None
            &&& recorded[job].log == Some(log)
            &&& recorded[job].plan == plan
            &&& !recorded.remove(job).dom().contains(job)
        }),
{
}

} // verus!
