//! Protecting what changed on this computer, while the destination is away.
//!
//! Two ways to do it. An [`OfflineRun`] archives the files that changed since
//! the last catalogued backup into a small local repository. A [`SnapshotRun`]
//! takes a snapshot of the filesystem and records everything in it. Both say
//! what to do next and are told how it went.

use vstd::prelude::*;

use crate::engine::{EngineError, JobEvent, JobSummary};
#[allow(unused_imports)]
use crate::engine::unclassified_as;
use crate::offline;
use crate::offline::{CapPlan, LocalArchive};
#[allow(unused_imports)]
use crate::offline::{fits, left_after, local_prefix, told};
use crate::paths;
use crate::pipeline::naming;
#[allow(unused_imports)]
use crate::pipeline::naming::{clock_has_room, first_free};
use crate::service::config::{Compression, CreateSpec};
use crate::service::shared::WalkSpec;
use crate::snapshot;
use crate::text;
#[allow(unused_imports)]
use crate::text::{told_of, views};
use crate::time::Timestamp;
#[allow(unused_imports)]
use crate::time::{end_of_time, seconds, seconds_since_epoch};

verus! {

/// What a local backup did.
#[derive(Debug, Clone, Copy, PartialEq, Eq, Structural)]
pub struct OfflineOutcome {
    /// Files archived. Zero means nothing had changed.
    pub files: usize,
    /// Local snapshots dropped to stay inside the cap.
    pub evicted: usize,
    /// The spool is under strain and the user should be told.
    pub degraded: bool,
}

impl Default for OfflineOutcome {
    fn default() -> (outcome: OfflineOutcome)
        ensures
            outcome == nothing_done(),
    {
        OfflineOutcome { files: 0, evicted: 0, degraded: false }
    }
}

/// The outcome of a local backup that did nothing.
pub open spec fn nothing_done() -> OfflineOutcome {
    OfflineOutcome { files: 0, evicted: 0, degraded: false }
}

/// Where a local backup is.
#[derive(Debug, PartialEq, Eq)]
pub enum OfflineStage {
    /// The sources are being walked.
    Walking,
    /// The catalogue is being asked what changed.
    Comparing,
    /// The changed files and the spool are being measured.
    Measuring(Vec<String>),
    /// Local snapshots are being dropped to make room.
    Evicting { changed: Vec<String>, taken: Vec<String>, gone: usize, proceed: bool, degraded: bool },
    /// The changed files are being archived, this many of them.
    Archiving { name: String, at: Timestamp, files: usize },
    /// The archive is being read into the catalogue.
    Cataloguing { files: usize },
    Over,
}

/// How the latest step went.
#[allow(inconsistent_fields)]
#[derive(Debug, PartialEq, Eq)]
pub enum OfflineReport {
    /// The newest catalogued backup, if there is one, and every path there is.
    Walked(Result<(Option<i64>, Vec<String>), EngineError>),
    /// The paths that changed since that backup.
    Compared(Result<Vec<String>, EngineError>),
    /// The sizes of the changed files, what the spool occupies, and the local
    /// snapshots there are, oldest first.
    Measured { sizes: Vec<u64>, held: u64, existing: Result<Vec<LocalArchive>, EngineError> },
    /// The snapshots were dropped, or were not.
    Evicted(Result<(), EngineError>),
    /// The archive was written, or was not; and whether the job has been
    /// cancelled.
    Archived { result: Result<JobSummary, EngineError>, cancelled: bool },
    /// The archive was read into the catalogue, or was not.
    Catalogued { result: Result<usize, EngineError>, cancelled: bool },
}

/// What to do next.
#[derive(Debug, PartialEq, Eq)]
pub enum OfflineOrder {
    /// Walk the sources.
    Walk(WalkSpec),
    /// Ask the catalogue which of these paths changed since that backup.
    Compare { since: i64, live: Vec<String> },
    /// Measure the files and the spool.
    Measure,
    /// Report progress, and drop these snapshots.
    Evict { progress: JobEvent, archives: Vec<LocalArchive> },
    /// Archive the files that changed.
    Archive(CreateSpec),
    /// Read the archive into the catalogue, as holding only what changed.
    Catalogue { name: String, created_at: Timestamp },
    /// The backup is over, with this result.
    Finish(Result<JobSummary, EngineError>),
}

/// What a local backup is asked to do.
#[derive(Debug, PartialEq, Eq)]
pub struct OfflinePlan {
    /// Where changes are looked for.
    pub walk: WalkSpec,
    pub compression: Compression,
    /// The spool's size limit in bytes; zero for no limit.
    pub cap_bytes: u64,
    /// When the backup was asked for.
    pub created_at: Timestamp,
}

/// What a local backup carries through all its stages.
#[derive(Debug, PartialEq, Eq)]
pub struct OfflineBase {
    pub plan: OfflinePlan,
    /// What has been done so far.
    pub outcome: OfflineOutcome,
}

/// A local backup in progress.
#[derive(Debug, PartialEq, Eq)]
pub struct OfflineRun {
    pub base: OfflineBase,
    pub stage: OfflineStage,
}

/// The sum of some sizes.
pub open spec fn total(sizes: Seq<u64>) -> int
    decreases sizes.len(),
{
    if sizes.len() == 0 {
        0
    } else {
        total(sizes.drop_last()) + sizes.last()
    }
}

/// The names of some archives.
pub open spec fn names_of(archives: Seq<LocalArchive>, names: Seq<String>) -> bool {
    &&& names.len() == archives.len()
    &&& forall|i: int| 0 <= i < names.len() ==> (#[trigger] names[i])@ == archives[i].name@
}

/// A plan for the cap, as [`offline::plan_cap`] makes it.
pub open spec fn is_cap_plan(
    cap: u64,
    held: u64,
    incoming: int,
    existing: Seq<LocalArchive>,
    gone: int,
    proceed: bool,
    degraded: bool,
) -> bool {
    if cap == 0 {
        gone == 0 && proceed && !degraded
    } else {
        let n = existing.len();
        &&& 0 <= gone <= n
        &&& forall|k: int|
            0 <= k < gone ==> !fits(cap, #[trigger] left_after(held, n, k), incoming as u64)
        &&& if fits(cap, left_after(held, n, gone), incoming as u64) {
            proceed && !degraded
        } else {
            gone == n && degraded && proceed == (n == 0)
        }
    }
}

/// A job that ends well without an archive of its own.
pub open spec fn ends_well(result: Result<JobSummary, EngineError>) -> bool {
    result matches Ok(summary) && summary.archive_id is None
}

/// A local backup at the start of a stage, and its order.
pub type OfflineNext = (OfflineRun, OfflineOrder);

/// It is over, with nothing more done than before.
pub open spec fn stops(
    next: OfflineNext,
    result: Result<JobSummary, EngineError>,
    base: OfflineBase,
) -> bool {
    next.1 == OfflineOrder::Finish(result) && next.0.stage is Over && next.0.base == base
}

/// It is over, and went well, with nothing more done than before.
pub open spec fn stops_well(next: OfflineNext, base: OfflineBase) -> bool {
    &&& next.1 matches OfflineOrder::Finish(result)
    &&& ends_well(result)
    &&& next.0.stage is Over
    &&& next.0.base == base
}

/// What happens once it is known what changed: nothing, if nothing did.
pub open spec fn knows_changes(next: OfflineNext, changed: Seq<String>, base: OfflineBase) -> bool {
    if changed.len() == 0 {
        stops_well(next, base)
    } else {
        &&& next.1 is Measure
        &&& next.0.stage matches OfflineStage::Measuring(files)
        &&& files@ == changed
        &&& next.0.base == base
    }
}

/// The decision about the cap, put on record.
pub open spec fn decided(base: OfflineBase, gone: int, degraded: bool) -> OfflineBase {
    OfflineBase {
        plan: base.plan,
        outcome: OfflineOutcome { files: base.outcome.files, evicted: gone as usize, degraded },
    }
}

/// What happens once there is room: what was decided is put on record, and the
/// changed files are archived under the first free name and as the plan says,
/// unless the spool has to hold.
pub open spec fn has_room(
    next: OfflineNext,
    changed: Seq<String>,
    taken: Seq<String>,
    gone: int,
    proceed: bool,
    degraded: bool,
    base: OfflineBase,
) -> bool {
    if !proceed {
        stops_well(next, decided(base, gone, degraded))
    } else {
        &&& next.0.base == decided(base, gone, degraded)
        &&& next.1 matches OfflineOrder::Archive(spec)
        &&& first_free(
            local_prefix(),
            base.plan.created_at@,
            taken,
            spec.archive_name@,
            spec.created_at@,
        )
        &&& spec.paths@.len() == changed.len()
        &&& forall|i: int|
            0 <= i < spec.paths@.len() ==> (#[trigger] spec.paths@[i])@ == paths::after(
                seq!['/'],
                changed[i]@,
            )
        &&& spec.sources@ == base.plan.walk.sources@
        &&& spec.excludes@ == base.plan.walk.excludes@
        &&& spec.compression == base.plan.compression
        &&& spec.one_file_system == base.plan.walk.one_file_system
        &&& next.0.stage matches OfflineStage::Archiving { name, at, files }
        &&& name@ == spec.archive_name@
        &&& at == spec.created_at
        &&& files == changed.len()
    }
}

/// What happens once the cap has been looked at: what is too much goes first,
/// oldest first, and if nothing is, there is room.
pub open spec fn measured(
    next: OfflineNext,
    changed: Seq<String>,
    existing: Seq<LocalArchive>,
    gone: int,
    proceed: bool,
    degraded: bool,
    base: OfflineBase,
) -> bool {
    if gone > 0 {
        &&& next.1 matches OfflineOrder::Evict { progress, archives }
        &&& archives@ == existing.take(gone)
        &&& progress matches JobEvent::Progress { current, total, phase }
        &&& current == 0
        &&& total == Some(gone as u64)
        &&& phase@ == "making room"@
        &&& next.0.stage matches OfflineStage::Evicting {
            changed: files,
            taken,
            gone: g,
            proceed: p,
            degraded: d,
        }
        &&& files@ == changed
        &&& names_of(existing, taken@)
        &&& g == gone
        &&& p == proceed
        &&& d == degraded
        &&& next.0.base == base
    } else {
        exists|taken: Seq<String>|
            {
                &&& #[trigger] names_of(existing, taken)
                &&& has_room(next, changed, taken, gone, proceed, degraded, base)
            }
    }
}

/// What happens once the files and the spool have been measured.
pub open spec fn sized(
    next: OfflineNext,
    changed: Seq<String>,
    incoming: int,
    held: u64,
    existing: Seq<LocalArchive>,
    base: OfflineBase,
) -> bool {
    exists|gone: int, proceed: bool, degraded: bool|
        {
            &&& #[trigger] is_cap_plan(
                base.plan.cap_bytes,
                held,
                incoming,
                existing,
                gone,
                proceed,
                degraded,
            )
            &&& measured(next, changed, existing, gone, proceed, degraded, base)
        }
}

impl OfflineRun {
    /// Whether a report is about what is being done, and can be taken in.
    pub open spec fn awaits(self, report: OfflineReport) -> bool {
        match report {
            OfflineReport::Walked(_) => self.stage is Walking,
            OfflineReport::Compared(_) => self.stage is Comparing,
            OfflineReport::Measured { sizes, existing, .. } => {
                &&& self.stage is Measuring
                &&& total(sizes@) <= u64::MAX
                &&& existing matches Ok(archives) ==> clock_has_room(
                    self.base.plan.created_at@,
                    archives@.len(),
                )
            },
            OfflineReport::Evicted(_) => {
                &&& self.stage matches OfflineStage::Evicting { taken, .. }
                &&& clock_has_room(self.base.plan.created_at@, taken@.len())
            },
            OfflineReport::Archived { .. } => self.stage is Archiving,
            OfflineReport::Catalogued { .. } => self.stage is Cataloguing,
        }
    }

    /// What follows on a report.
    pub open spec fn follows(self, report: OfflineReport, next: OfflineNext) -> bool {
        match report {
            OfflineReport::Walked(Err(error)) | OfflineReport::Compared(Err(error)) => stops(
                next,
                Err(error),
                self.base,
            ),
            OfflineReport::Walked(Ok((since, live))) => match since {
                Some(seq) => {
                    &&& next.1 == (OfflineOrder::Compare { since: seq, live })
                    &&& next.0.stage is Comparing
                    &&& next.0.base == self.base
                },
                // Nothing has ever been catalogued: everything is at risk.
                None => knows_changes(next, live@, self.base),
            },
            OfflineReport::Compared(Ok(changed)) => knows_changes(next, changed@, self.base),
            OfflineReport::Measured { existing: Err(error), .. } => stops(
                next,
                Err(error),
                self.base,
            ),
            OfflineReport::Measured { sizes, held, existing: Ok(existing) } => {
                &&& self.stage matches OfflineStage::Measuring(changed)
                &&& sized(next, changed@, total(sizes@), held, existing@, self.base)
            },
            OfflineReport::Evicted(Err(error)) => stops(next, Err(error), self.base),
            OfflineReport::Evicted(Ok(_)) => {
                &&& self.stage matches OfflineStage::Evicting {
                    changed,
                    taken,
                    gone,
                    proceed,
                    degraded,
                }
                &&& has_room(
                    next,
                    changed@,
                    taken@,
                    gone as int,
                    proceed,
                    degraded,
                    self.base,
                )
            },
            OfflineReport::Archived { result: Err(error), .. } => stops(
                next,
                Err(error),
                self.base,
            ),
            OfflineReport::Archived { result: Ok(_), cancelled } => if cancelled {
                stops(next, Err(EngineError::Cancelled), self.base)
            } else {
                &&& self.stage matches OfflineStage::Archiving { name, at, files }
                &&& next.1 == (OfflineOrder::Catalogue { name, created_at: at })
                &&& next.0.stage == (OfflineStage::Cataloguing { files })
                &&& next.0.base == self.base
            },
            OfflineReport::Catalogued { result, cancelled } => if result is Err && cancelled {
                stops(next, Err(result->Err_0), self.base)
            } else {
                // The files are protected, which is what matters.
                &&& self.stage matches OfflineStage::Cataloguing { files }
                &&& stops_well(
                    next,
                    OfflineBase {
                        plan: self.base.plan,
                        outcome: OfflineOutcome {
                            files,
                            evicted: self.base.outcome.evicted,
                            degraded: self.base.outcome.degraded,
                        },
                    },
                )
            },
        }
    }

    /// A local backup that has not begun, and its first order.
    pub fn start(plan: OfflinePlan) -> (started: OfflineNext)
        ensures
            started.0.base == (OfflineBase { plan, outcome: nothing_done() }),
            started.0.stage is Walking,
            started.1 matches OfflineOrder::Walk(walk) && walk.same(plan.walk),
    {
        let outcome = OfflineOutcome { files: 0, evicted: 0, degraded: false };
        let walk = plan.walk.copy();
        (
            OfflineRun {
                base: OfflineBase { plan, outcome },
                stage: OfflineStage::Walking,
            },
            OfflineOrder::Walk(walk),
        )
    }

    /// Take in how the latest step went.
    pub fn step(self, report: OfflineReport) -> (next: OfflineNext)
        requires
            self.awaits(report),
        ensures
            self.follows(report, next),
            next.0.base.plan == self.base.plan,
            next.0.stage is Over <==> next.1 is Finish,
            report matches OfflineReport::Archived { cancelled, .. } ==> cancelled ==> (
            next.1 matches OfflineOrder::Finish(Err(_))),
            next.1 is Catalogue <==> (report matches OfflineReport::Archived {
                result: Ok(_),
                cancelled: false,
            }),
    {
        let OfflineRun { base, stage } = self;
        match report {
            OfflineReport::Walked(Err(error)) | OfflineReport::Compared(Err(error)) => stop(
                base,
                Err(error),
            ),
            OfflineReport::Walked(Ok((since, live))) => match since {
                Some(seq) => (
                    OfflineRun { base, stage: OfflineStage::Comparing },
                    OfflineOrder::Compare { since: seq, live },
                ),
                None => with_changes(base, live),
            },
            OfflineReport::Compared(Ok(changed)) => with_changes(base, changed),
            OfflineReport::Measured { existing: Err(error), .. } => stop(base, Err(error)),
            OfflineReport::Measured { sizes, held, existing: Ok(existing) } => match stage {
                OfflineStage::Measuring(changed) => with_sizes(
                    base,
                    changed,
                    &sizes,
                    held,
                    &existing,
                ),
                _ => stop(base, Err(EngineError::Cancelled)),
            },
            OfflineReport::Evicted(Err(error)) => stop(base, Err(error)),
            OfflineReport::Evicted(Ok(_)) => match stage {
                OfflineStage::Evicting { changed, taken, gone, proceed, degraded } => with_room(
                    base,
                    &changed,
                    &taken,
                    gone,
                    proceed,
                    degraded,
                ),
                _ => stop(base, Err(EngineError::Cancelled)),
            },
            OfflineReport::Archived { result: Err(error), .. } => stop(base, Err(error)),
            OfflineReport::Archived { result: Ok(_), cancelled } => match stage {
                OfflineStage::Archiving { name, at, files } if !cancelled => (
                    OfflineRun { base, stage: OfflineStage::Cataloguing { files } },
                    OfflineOrder::Catalogue { name, created_at: at },
                ),
                _ => stop(base, Err(EngineError::Cancelled)),
            },
            OfflineReport::Catalogued { result, cancelled } => {
                match result {
                    Err(error) => {
                        if cancelled {
                            return stop(base, Err(error));
                        }
                    },
                    Ok(_) => {},
                }
                let files: usize = match stage {
                    OfflineStage::Cataloguing { files } => files,
                    _ => 0,
                };
                let outcome = OfflineOutcome {
                    files,
                    evicted: base.outcome.evicted,
                    degraded: base.outcome.degraded,
                };
                stop(
                    OfflineBase { plan: base.plan, outcome },
                    Ok(JobSummary { archive_id: None }),
                )
            },
        }
    }
}

/// End with a result.
fn stop(base: OfflineBase, result: Result<JobSummary, EngineError>) -> (next: OfflineNext)
    ensures
        stops(next, result, base),
{
    (OfflineRun { base, stage: OfflineStage::Over }, OfflineOrder::Finish(result))
}

/// Go on with what changed.
fn with_changes(base: OfflineBase, changed: Vec<String>) -> (next: OfflineNext)
    ensures
        knows_changes(next, changed@, base),
{
    if changed.len() == 0 {
        // The common case: an hour away in which nothing was edited.
        return stop(base, Ok(JobSummary { archive_id: None }));
    }
    (OfflineRun { base, stage: OfflineStage::Measuring(changed) }, OfflineOrder::Measure)
}

/// Go on once there is room.
fn with_room(
    base: OfflineBase,
    changed: &Vec<String>,
    taken: &Vec<String>,
    gone: usize,
    proceed: bool,
    degraded: bool,
) -> (next: OfflineNext)
    requires
        clock_has_room(base.plan.created_at@, taken@.len()),
    ensures
        has_room(next, changed@, taken@, gone as int, proceed, degraded, base),
{
    let OfflineBase { plan, outcome } = base;
    let recorded = OfflineBase {
        plan,
        outcome: OfflineOutcome { files: outcome.files, evicted: gone, degraded },
    };
    if !proceed {
        return stop(recorded, Ok(JobSummary { archive_id: None }));
    }
    let (name, at) = naming::next_local_name(recorded.plan.created_at, taken);
    let mut paths: Vec<String> = Vec::new();
    let mut i: usize = 0;
    while i < changed.len()
        invariant
            i <= changed@.len(),
            paths@.len() == i,
            forall|k: int|
                0 <= k < i ==> (#[trigger] paths@[k])@ == paths::after(seq!['/'], changed@[k]@),
        decreases changed@.len() - i,
    {
        paths.push(paths::from_root(changed[i].as_str()));
        i += 1;
    }
    let files: usize = paths.len();
    let spec = CreateSpec {
        archive_name: name.clone(),
        created_at: at,
        sources: text::copies(&recorded.plan.walk.sources),
        excludes: text::copies(&recorded.plan.walk.excludes),
        paths,
        compression: recorded.plan.compression,
        one_file_system: recorded.plan.walk.one_file_system,
    };
    (
        OfflineRun {
            base: recorded,
            stage: OfflineStage::Archiving { name, at, files },
        },
        OfflineOrder::Archive(spec),
    )
}

/// Go on with the measurements.
fn with_sizes(
    base: OfflineBase,
    changed: Vec<String>,
    sizes: &Vec<u64>,
    held: u64,
    existing: &Vec<LocalArchive>,
) -> (next: OfflineNext)
    requires
        total(sizes@) <= u64::MAX,
        clock_has_room(base.plan.created_at@, existing@.len()),
    ensures
        sized(next, changed@, total(sizes@), held, existing@, base),
{
    let incoming: u64 = add_up(sizes);
    let CapPlan { evict, proceed, degraded } = offline::plan_cap(
        base.plan.cap_bytes,
        held,
        incoming,
        existing,
    );
    let gone: usize = evict.len();
    assert(is_cap_plan(
        base.plan.cap_bytes,
        held,
        total(sizes@),
        existing@,
        gone as int,
        proceed,
        degraded,
    ));
    let taken = list_names(existing);
    if gone == 0 {
        assert(names_of(existing@, taken@));
        return with_room(base, &changed, &taken, 0, proceed, degraded);
    }
    let progress = JobEvent::Progress {
        current: 0,
        total: Some(gone as u64),
        phase: "making room".to_owned(),
    };
    (
        OfflineRun {
            base,
            stage: OfflineStage::Evicting { changed, taken, gone, proceed, degraded },
        },
        OfflineOrder::Evict { progress, archives: evict },
    )
}

/// Sums only grow.
proof fn lemma_total_grows(sizes: Seq<u64>, k: int)
    requires
        0 <= k <= sizes.len(),
    ensures
        0 <= total(sizes.take(k)) <= total(sizes),
    decreases sizes.len(),
{
    if k == sizes.len() {
        assert(sizes.take(k) =~= sizes);
        if k > 0 {
            lemma_total_grows(sizes.drop_last(), 0);
            assert(sizes.drop_last().take(0) =~= Seq::<u64>::empty());
        }
    } else {
        lemma_total_grows(sizes.drop_last(), k);
        assert(sizes.drop_last().take(k) =~= sizes.take(k));
    }
}

/// What the submitter of a local backup reads once it has finished: whether the
/// safety net holds anything, and whether it is under strain.
#[derive(Debug, Clone, Copy, PartialEq, Eq)]
pub struct OfflineHandle {
    outcome: OfflineOutcome,
}

impl View for OfflineHandle {
    type V = OfflineOutcome;

    closed spec fn view(&self) -> OfflineOutcome {
        self.outcome
    }
}

impl OfflineHandle {
    /// What a local backup has done so far.
    pub fn of(run: &OfflineRun) -> (handle: OfflineHandle)
        ensures
            handle@ == run.base.outcome,
    {
        OfflineHandle { outcome: run.base.outcome }
    }

    /// What the local backup did.
    pub fn outcome(&self) -> (outcome: OfflineOutcome)
        ensures
            outcome == self@,
    {
        self.outcome
    }
}

/// The sum of some sizes.
pub fn add_up(sizes: &Vec<u64>) -> (sum: u64)
    requires
        total(sizes@) <= u64::MAX,
    ensures
        sum == total(sizes@),
{
    let mut sum: u64 = 0;
    let mut i: usize = 0;
    assert(sizes@.take(0) =~= Seq::<u64>::empty());
    while i < sizes.len()
        invariant
            i <= sizes@.len(),
            sum == total(sizes@.take(i as int)),
            total(sizes@) <= u64::MAX,
        decreases sizes@.len() - i,
    {
        assert(sizes@.take(i + 1).drop_last() =~= sizes@.take(i as int));
        proof {
            lemma_total_grows(sizes@, i + 1);
        }
        sum = sum + sizes[i];
        i += 1;
    }
    assert(sizes@.take(i as int) =~= sizes@);
    sum
}

/// The names of some archives.
fn list_names(archives: &Vec<LocalArchive>) -> (names: Vec<String>)
    ensures
        names_of(archives@, names@),
{
    let mut names: Vec<String> = Vec::new();
    let mut i: usize = 0;
    while i < archives.len()
        invariant
            i <= archives@.len(),
            names@.len() == i,
            forall|k: int| 0 <= k < i ==> (#[trigger] names@[k])@ == archives@[k].name@,
        decreases archives@.len() - i,
    {
        names.push(archives[i].name.clone());
        i += 1;
    }
    names
}

/// A spool that is not reported as under strain stays inside its cap, as far as
/// shares can tell.
pub proof fn an_unstrained_spool_fits(
    cap: u64,
    held: u64,
    incoming: u64,
    existing: Seq<LocalArchive>,
    gone: int,
    proceed: bool,
    degraded: bool,
)
    requires
        is_cap_plan(cap, held, incoming as int, existing, gone, proceed, degraded),
        !degraded,
        0 < cap < u64::MAX,
    ensures
        proceed,
        left_after(held, existing.len(), gone) + incoming <= cap,
{
}

/// A spool under strain takes something only when it is empty: what is too big
/// is taken once, and then the spool holds.
pub proof fn a_strained_spool_takes_something_once(
    cap: u64,
    held: u64,
    incoming: u64,
    existing: Seq<LocalArchive>,
    gone: int,
    proceed: bool,
    degraded: bool,
)
    requires
        is_cap_plan(cap, held, incoming as int, existing, gone, proceed, degraded),
        degraded,
    ensures
        proceed <==> existing.len() == 0,
{
}

/// What deleting some archives is told by.
pub fn evicted(event: &JobEvent) -> (failure: Option<EngineError>)
    ensures
        failure == match *event {
            JobEvent::Finished(Err(error)) => Some(error),
            _ => None,
        },
{
    match event {
        JobEvent::Finished(Err(error)) => Some(error.clone()),
        _ => None,
    }
}

/// The catalogue rows of some archives.
pub fn rows_of(archives: &Vec<LocalArchive>) -> (seqs: Vec<i64>)
    ensures
        seqs@.len() == archives@.len(),
        forall|i: int| 0 <= i < seqs@.len() ==> #[trigger] seqs@[i] == archives@[i].seq,
{
    let mut seqs: Vec<i64> = Vec::new();
    let mut i: usize = 0;
    while i < archives.len()
        invariant
            i <= archives@.len(),
            seqs@.len() == i,
            forall|k: int| 0 <= k < i ==> #[trigger] seqs@[k] == archives@[k].seq,
        decreases archives@.len() - i,
    {
        seqs.push(archives[i].seq);
        i += 1;
    }
    seqs
}

/// Whether an archive-relative path is `from` or inside it.
pub open spec fn is_inside(path: Seq<char>, from: Seq<char>) -> bool {
    &&& text::begins(path, from)
    &&& (from.len() == 0 || from.last() == '/' || path.len() == from.len()
        || path[from.len() as int] == '/')
}

/// A path inside `from`, moved to the same place inside `to`.
pub open spec fn moved(path: Seq<char>, from: Seq<char>, to: Seq<char>) -> Seq<char> {
    let rest = text::trim_start(path.skip(from.len() as int), '/');
    if to.len() == 0 {
        rest
    } else {
        to + seq!['/'] + rest
    }
}

/// Rewrite an archive-relative path from inside a snapshot to where the file
/// really lives. `None` when the path is not inside the snapshot at all.
pub fn relocate(path: &str, from: &str, to: &str) -> (relocated: Option<String>)
    ensures
        relocated is Some <==> is_inside(path@, from@),
        relocated matches Some(moved_path) ==> moved_path@ == moved(path@, from@, to@),
{
    let chars = text::to_chars(path);
    let at: usize = match text::strip_prefix(&chars, from) {
        Some(at) => at,
        None => {
            return None;
        },
    };
    if at > 0 && at < chars.len() && chars[at] != '/' && from.get_char(at - 1) != '/' {
        return None;
    }
    let start: usize = text::skip(&chars, at, '/');
    let rest = text::from_chars(&chars, start, chars.len());
    assert(rest@ =~= chars@.skip(start as int));
    if to.is_empty() {
        return Some(rest);
    }
    let mut result = to.to_owned();
    result.push('/');
    result.append(rest.as_str());
    assert(result@ =~= to@ + seq!['/'] + rest@);
    Some(result)
}

/// Two files of a snapshot that lie in different places are recorded in
/// different places.
pub proof fn relocation_keeps_files_apart(
    a: Seq<char>,
    b: Seq<char>,
    from: Seq<char>,
    to: Seq<char>,
)
    requires
        text::trim_start(a, '/') != text::trim_start(b, '/'),
    ensures
        moved(from + a, from, to) != moved(from + b, from, to),
{
    assert((from + a).skip(from.len() as int) =~= a);
    assert((from + b).skip(from.len() as int) =~= b);
    let (x, y) = (text::trim_start(a, '/'), text::trim_start(b, '/'));
    if to.len() > 0 {
        let n = to.len() + 1;
        assert((to + seq!['/'] + x).skip(n as int) =~= x);
        assert((to + seq!['/'] + y).skip(n as int) =~= y);
    }
}

/// A row of the catalogue.
#[derive(Debug, PartialEq, Eq)]
pub struct ArchiveRow {
    pub seq: i64,
    pub name: String,
    /// When it was taken, in seconds since the epoch.
    pub ts: i64,
}

/// When a catalogued archive was taken. A row dated before the epoch counts as
/// taken at it.
pub open spec fn taken_at(row: ArchiveRow) -> int {
    if row.ts < 0 {
        0
    } else {
        seconds(row.ts as int)
    }
}

/// Whether a snapshot is past its day.
pub open spec fn past_its_day(row: ArchiveRow, now: int) -> bool {
    snapshot::expiry(taken_at(row), None) <= now
}

/// Whether the clock goes on for another day after a row was dated.
pub open spec fn datable(row: ArchiveRow) -> bool {
    taken_at(row) + seconds(86_400) < end_of_time()
}

/// The rows past their day, in the order in which they are held.
pub open spec fn expired_rows(held: Seq<ArchiveRow>, now: int) -> Seq<(i64, Seq<char>)>
    decreases held.len(),
{
    if held.len() == 0 {
        Seq::empty()
    } else {
        let rest = expired_rows(held.drop_last(), now);
        if past_its_day(held.last(), now) {
            rest.push((held.last().seq, held.last().name@))
        } else {
            rest
        }
    }
}

/// The local snapshots that have outlived their day.
pub fn expired(held: &Vec<ArchiveRow>, now: Timestamp) -> (rows: Vec<(i64, String)>)
    requires
        forall|i: int| 0 <= i < held@.len() ==> datable(#[trigger] held@[i]),
    ensures
        told(rows@) == expired_rows(held@, now@),
{
    let mut rows: Vec<(i64, String)> = Vec::new();
    let mut i: usize = 0;
    assert(told(rows@) =~= expired_rows(held@.take(0), now@));
    while i < held.len()
        invariant
            i <= held@.len(),
            forall|k: int| 0 <= k < held@.len() ==> datable(#[trigger] held@[k]),
            told(rows@) == expired_rows(held@.take(i as int), now@),
        decreases held@.len() - i,
    {
        assert(datable(held@[i as int]));
        assert(held@.take(i + 1).drop_last() =~= held@.take(i as int));
        let ts: i64 = if held[i].ts < 0 {
            0
        } else {
            held[i].ts
        };
        let created = Timestamp::from_secs(ts);
        if !now.is_before(snapshot::expires_at(created, None)) {
            let ghost before = rows@;
            rows.push((held[i].seq, held[i].name.clone()));
            assert(told(rows@) =~= told(before).push((held@[i as int].seq, held@[i as int].name@)));
        }
        i += 1;
    }
    assert(held@.take(i as int) =~= held@);
    rows
}

/// What clearing expired snapshots comes to: nothing when there are none, and
/// otherwise their directories and then their catalogue rows.
pub fn expiry_rows(expired: &Vec<(i64, String)>) -> (seqs: Option<Vec<i64>>)
    ensures
        seqs is None <==> expired@.len() == 0,
        seqs matches Some(rows) ==> rows@ == expired@.map_values(|row: (i64, String)| row.0),
{
    if expired.len() == 0 {
        return None;
    }
    let mut seqs: Vec<i64> = Vec::new();
    let mut i: usize = 0;
    while i < expired.len()
        invariant
            i <= expired@.len(),
            seqs@.len() == i,
            forall|k: int| 0 <= k < i ==> #[trigger] seqs@[k] == expired@[k].0,
        decreases expired@.len() - i,
    {
        seqs.push(expired[i].0);
        i += 1;
    }
    assert(seqs@ =~= expired@.map_values(|row: (i64, String)| row.0));
    Some(seqs)
}

/// Where taking a snapshot of the filesystem is.
#[derive(Debug, PartialEq, Eq)]
pub enum SnapshotStage {
    /// The catalogue is being asked which names are taken.
    Naming,
    /// The snapshot is being taken.
    Taking { name: String, at: Timestamp, root: String },
    /// It is being walked.
    Walking { name: String, at: Timestamp, root: String },
    /// What is in it is being recorded.
    Recording,
    /// The catalogue is being asked what is held.
    Listing,
    /// What is past its day is being removed.
    Expiring,
    Over,
}

/// How the latest step went.
#[derive(Debug, PartialEq, Eq)]
pub enum SnapshotReport {
    /// The names that are taken.
    Named(Result<Vec<String>, EngineError>),
    /// The snapshot was taken, or was not.
    Taken(Result<(), String>),
    /// The paths found in the snapshot, and the two places that came with the order,
    /// the snapshot's root and the subvolume, all as the catalogue writes them.
    Walked(Result<(Vec<String>, String, String), EngineError>),
    /// They were recorded, or were not.
    Recorded(Result<(), EngineError>),
    /// The snapshots there are, and the time.
    Listed(Result<Vec<ArchiveRow>, EngineError>, Timestamp),
    /// What was past its day has been removed, or has not.
    Expired(Result<(), EngineError>),
}

/// What to do next.
#[derive(Debug, PartialEq, Eq)]
pub enum SnapshotOrder {
    /// Ask the catalogue which names are taken.
    Name,
    /// Report progress, and take a snapshot into this directory.
    Take { progress: JobEvent, root: String },
    /// Walk the snapshot, in full, and say how the catalogue writes the snapshot's
    /// root and the subvolume that it is of.
    Walk { walk: WalkSpec, root: String, subvolume: String },
    /// Record the archive, and each path under its new name, or not at all.
    Record { name: String, ts: i64, renamed: Vec<Option<String>> },
    /// Ask the catalogue what is held.
    List,
    /// Remove these.
    Expire(Vec<(i64, String)>),
    /// It is over, with this result.
    Finish(Result<JobSummary, EngineError>),
}

/// What a snapshot of the filesystem is asked to do.
#[derive(Debug, PartialEq, Eq)]
pub struct SnapshotPlan {
    /// The subvolume to take a snapshot of.
    pub subvolume: String,
    /// Where snapshots go.
    pub snapshots_dir: String,
    /// What is backed up, where it really lives.
    pub walk: WalkSpec,
    pub created_at: Timestamp,
}

/// A snapshot of the filesystem being taken.
#[derive(Debug, PartialEq, Eq)]
pub struct SnapshotRun {
    pub plan: SnapshotPlan,
    pub stage: SnapshotStage,
}

/// What `Path::strip_prefix` of the standard library makes of two paths: the
/// rest of the path inside the base, or nothing when the path is not in it.
pub uninterp spec fn path_inside(path: Seq<char>, base: Seq<char>) -> Option<Seq<char>>;

/// `Path::strip_prefix` of the standard library: the part of `path` below
/// `base`, component by component, or `None` when `base` is not a prefix of it;
/// the same for the same paths. Of plainly spelled paths it is the text after the
/// base and its separator.
#[verifier::external_body]
fn strip_path(path: &str, base: &str) -> (rest: Option<String>)
    ensures
        told_of(rest) == path_inside(path@, base@),
        spelled_plainly(path@, base@) ==> told_of(rest) == paths::below(path@, base@),
{
    match std::path::Path::new(path).strip_prefix(base) {
        Ok(rest) => Some(rest.to_string_lossy().into_owned()),
        Err(_) => None,
    }
}

/// Whether a path and a base are spelled so that one can be cut from the other
/// letter by letter.
pub open spec fn spelled_plainly(path: Seq<char>, base: Seq<char>) -> bool {
    paths::is_plain(path) && (paths::is_plain(base) || base == seq!['/'])
}

/// Where each source is below the subvolume.
pub open spec fn all_inside(sources: Seq<String>, subvolume: Seq<char>) -> Seq<Option<Seq<char>>> {
    sources.map_values(|s: String| path_inside(s@, subvolume))
}

/// What is below a root, at the places found, in order; what was not found is
/// left out.
pub open spec fn placed(found: Seq<Option<Seq<char>>>, root: Seq<char>) -> Seq<Seq<char>>
    decreases found.len(),
{
    if found.len() == 0 {
        Seq::empty()
    } else {
        let rest = placed(found.drop_last(), root);
        match found.last() {
            Some(relative) => rest.push(paths::after(root, relative)),
            None => rest,
        }
    }
}

/// Sources at the places found for them, below a root.
pub fn place_sources(found: &Vec<Option<String>>, root: &str) -> (inside: Vec<String>)
    ensures
        views(inside@) == placed(found@.map_values(|f: Option<String>| told_of(f)), root@),
{
    let ghost all = found@.map_values(|f: Option<String>| told_of(f));
    let mut inside: Vec<String> = Vec::new();
    let mut i: usize = 0;
    assert(views(inside@) =~= placed(all.take(0), root@));
    while i < found.len()
        invariant
            i <= found@.len(),
            all == found@.map_values(|f: Option<String>| told_of(f)),
            views(inside@) == placed(all.take(i as int), root@),
        decreases found@.len() - i,
    {
        assert(all.take(i + 1).drop_last() =~= all.take(i as int));
        assert(all.take(i + 1).last() == told_of(found@[i as int]));
        match &found[i] {
            Some(relative) => {
                let ghost before = inside@;
                inside.push(paths::join(root, relative.as_str()));
                assert(views(inside@) =~= views(before).push(paths::after(root@, relative@)));
            },
            None => {},
        }
        i += 1;
    }
    assert(all.take(i as int) =~= all);
    inside
}

/// The sources as they are found inside a snapshot: those inside the subvolume,
/// in order, at the same place below the snapshot's root.
pub fn snapshot_sources(sources: &Vec<String>, subvolume: &str, root: &str) -> (inside: Vec<String>)
    ensures
        views(inside@) == placed(all_inside(sources@, subvolume@), root@),
        forall|i: int|
            0 <= i < sources@.len() && spelled_plainly(#[trigger] sources@[i]@, subvolume@)
                ==> all_inside(sources@, subvolume@)[i] == paths::below(
                sources@[i]@,
                subvolume@,
            ),
{
    let mut found: Vec<Option<String>> = Vec::new();
    let mut i: usize = 0;
    while i < sources.len()
        invariant
            i <= sources@.len(),
            found@.len() == i,
            forall|k: int|
                0 <= k < i ==> told_of(#[trigger] found@[k]) == path_inside(
                    sources@[k]@,
                    subvolume@,
                ),
            forall|k: int|
                0 <= k < i && spelled_plainly(#[trigger] sources@[k]@, subvolume@) ==> path_inside(
                    sources@[k]@,
                    subvolume@,
                ) == paths::below(sources@[k]@, subvolume@),
        decreases sources@.len() - i,
    {
        found.push(strip_path(sources[i].as_str(), subvolume));
        i += 1;
    }
    assert(found@.map_values(|f: Option<String>| told_of(f)) =~= all_inside(sources@, subvolume@));
    place_sources(&found, root)
}

/// The paths found in a snapshot, each where the file really lives, and nothing
/// for those that are not in the snapshot.
pub open spec fn all_relocated(
    paths: Seq<String>,
    from: Seq<char>,
    to: Seq<char>,
    renamed: Seq<Option<String>>,
) -> bool {
    &&& renamed.len() == paths.len()
    &&& forall|i: int|
        0 <= i < renamed.len() ==> match #[trigger] renamed[i] {
            Some(path) => is_inside(paths[i]@, from) && path@ == moved(paths[i]@, from, to),
            None => !is_inside(paths[i]@, from),
        }
}

/// Every path found in a snapshot, where the file really lives.
fn relocate_all(paths: &Vec<String>, from: &str, to: &str) -> (renamed: Vec<Option<String>>)
    ensures
        all_relocated(paths@, from@, to@, renamed@),
{
    let mut renamed: Vec<Option<String>> = Vec::new();
    let mut i: usize = 0;
    while i < paths.len()
        invariant
            i <= paths@.len(),
            renamed@.len() == i,
            forall|k: int|
                0 <= k < i ==> match #[trigger] renamed@[k] {
                    Some(path) => is_inside(paths@[k]@, from@) && path@ == moved(
                        paths@[k]@,
                        from@,
                        to@,
                    ),
                    None => !is_inside(paths@[k]@, from@),
                },
        decreases paths@.len() - i,
    {
        renamed.push(relocate(paths[i].as_str(), from, to));
        i += 1;
    }
    renamed
}

/// A snapshot at the start of a stage, and its order.
pub type SnapshotNext = (SnapshotRun, SnapshotOrder);

impl SnapshotPlan {
    /// Whether a walk is of the snapshot at `root`: of the sources inside the
    /// subvolume, at their places below the root, with the directories, and across
    /// whatever filesystems are in there. What is left out of a backup stays out.
    pub open spec fn is_walk(self, walk: WalkSpec, root: Seq<char>) -> bool {
        &&& views(walk.sources@) == placed(
            all_inside(self.walk.sources@, self.subvolume@),
            root,
        )
        &&& walk.excludes@ == self.walk.excludes@
        &&& !walk.one_file_system
        &&& walk.never@ == self.walk.never@
        &&& walk.include_dirs
    }
}

impl SnapshotRun {
    /// Whether a report is about what is being done, and can be taken in.
    pub open spec fn awaits(self, report: SnapshotReport) -> bool {
        match report {
            SnapshotReport::Named(names) => {
                &&& self.stage is Naming
                &&& names matches Ok(taken) ==> clock_has_room(self.plan.created_at@, taken@.len())
            },
            SnapshotReport::Taken(_) => self.stage is Taking,
            SnapshotReport::Walked(_) => self.stage is Walking,
            SnapshotReport::Recorded(_) => self.stage is Recording,
            SnapshotReport::Listed(rows, _) => {
                &&& self.stage is Listing
                &&& rows matches Ok(held) ==> forall|i: int|
                    0 <= i < held@.len() ==> datable(#[trigger] held@[i])
            },
            SnapshotReport::Expired(_) => self.stage is Expiring,
        }
    }

    /// It is over, with this failure.
    pub open spec fn fails(next: SnapshotNext, error: EngineError) -> bool {
        next.1 == SnapshotOrder::Finish(Err(error)) && next.0.stage is Over
    }

    /// What follows on a report.
    pub open spec fn follows(self, report: SnapshotReport, next: SnapshotNext) -> bool {
        match report {
            SnapshotReport::Named(Err(error)) => SnapshotRun::fails(next, error),
            SnapshotReport::Named(Ok(taken)) => {
                &&& next.0.stage matches SnapshotStage::Taking { name, at, root }
                &&& first_free(local_prefix(), self.plan.created_at@, taken@, name@, at@)
                &&& root@ == paths::after(self.plan.snapshots_dir@, name@)
                &&& next.1 matches SnapshotOrder::Take { progress, root: dir }
                &&& dir@ == root@
                &&& progress matches JobEvent::Progress { current, total, phase }
                &&& current == 0
                &&& total is None
                &&& phase@ == "archiving"@
            },
            SnapshotReport::Taken(Err(cause)) => {
                &&& next.1 matches SnapshotOrder::Finish(Err(error))
                &&& unclassified_as(error, "taking a filesystem snapshot: "@ + cause@)
                &&& next.0.stage is Over
            },
            // The snapshot is walked, not the live tree: it is what will be
            // there when somebody comes to restore from it.
            SnapshotReport::Taken(Ok(_)) => {
                &&& self.stage matches SnapshotStage::Taking { name, at, root }
                &&& next.1 matches SnapshotOrder::Walk { walk, root: inside, subvolume }
                &&& self.plan.is_walk(walk, root@)
                &&& inside@ == root@
                &&& subvolume@ == self.plan.subvolume@
                &&& next.0.stage == (SnapshotStage::Walking { name, at, root })
            },
            SnapshotReport::Walked(Err(error)) => SnapshotRun::fails(next, error),
            SnapshotReport::Walked(Ok((found, from, to))) => {
                &&& self.stage matches SnapshotStage::Walking { name, at, .. }
                &&& next.1 matches SnapshotOrder::Record { name: recorded, ts, renamed }
                &&& recorded == name
                &&& ts == seconds_since_epoch(at@)
                &&& all_relocated(found@, from@, to@, renamed@)
                &&& next.0.stage is Recording
            },
            SnapshotReport::Recorded(Err(error)) => SnapshotRun::fails(next, error),
            SnapshotReport::Recorded(Ok(_)) => next.1 is List && next.0.stage is Listing,
            SnapshotReport::Listed(Err(error), _) => SnapshotRun::fails(next, error),
            SnapshotReport::Listed(Ok(held), now) => {
                &&& next.1 matches SnapshotOrder::Expire(rows)
                &&& told(rows@) == expired_rows(held@, now@)
                &&& next.0.stage is Expiring
            },
            // Housekeeping: the user is protected either way.
            SnapshotReport::Expired(_) => {
                &&& next.1 matches SnapshotOrder::Finish(result)
                &&& ends_well(result)
                &&& next.0.stage is Over
            },
        }
    }

    /// A snapshot that has not begun, and its first order.
    pub fn start(plan: SnapshotPlan) -> (started: SnapshotNext)
        ensures
            started.0.plan == plan,
            started.0.stage is Naming,
            started.1 is Name,
    {
        (SnapshotRun { plan, stage: SnapshotStage::Naming }, SnapshotOrder::Name)
    }

    /// The same snapshot in another stage.
    fn at(self, stage: SnapshotStage) -> (run: SnapshotRun)
        ensures
            run.plan == self.plan,
            run.stage == stage,
    {
        SnapshotRun { plan: self.plan, stage }
    }

    /// End with a failure.
    fn fail(self, error: EngineError) -> (next: SnapshotNext)
        ensures
            next.0.plan == self.plan,
            SnapshotRun::fails(next, error),
    {
        (self.at(SnapshotStage::Over), SnapshotOrder::Finish(Err(error)))
    }

    /// Take in how the latest step went.
    pub fn step(self, report: SnapshotReport) -> (next: SnapshotNext)
        requires
            self.awaits(report),
        ensures
            next.0.plan == self.plan,
            self.follows(report, next),
    {
        match report {
            SnapshotReport::Named(Err(error)) => self.fail(error),
            SnapshotReport::Named(Ok(taken)) => {
                let (name, at) = naming::next_local_name(self.plan.created_at, &taken);
                let root = paths::join(self.plan.snapshots_dir.as_str(), name.as_str());
                let progress = JobEvent::Progress {
                    current: 0,
                    total: None,
                    phase: "archiving".to_owned(),
                };
                let dir = root.clone();
                (
                    self.at(SnapshotStage::Taking { name, at, root }),
                    SnapshotOrder::Take { progress, root: dir },
                )
            },
            SnapshotReport::Taken(Err(cause)) => {
                let error = EngineError::unclassified(
                    text::joined("taking a filesystem snapshot: ", cause.as_str()),
                );
                self.fail(error)
            },
            SnapshotReport::Taken(Ok(_)) => {
                let SnapshotRun { plan, stage } = self;
                let (name, at, root) = match stage {
                    SnapshotStage::Taking { name, at, root } => (name, at, root),
                    _ => (String::new(), plan.created_at, String::new()),
                };
                let walk = WalkSpec {
                    sources: snapshot_sources(
                        &plan.walk.sources,
                        plan.subvolume.as_str(),
                        root.as_str(),
                    ),
                    excludes: text::copies(&plan.walk.excludes),
                    one_file_system: false,
                    never: text::copies(&plan.walk.never),
                    include_dirs: true,
                };
                let order = SnapshotOrder::Walk {
                    walk,
                    root: root.clone(),
                    subvolume: plan.subvolume.clone(),
                };
                (SnapshotRun { plan, stage: SnapshotStage::Walking { name, at, root } }, order)
            },
            SnapshotReport::Walked(Err(error)) => self.fail(error),
            SnapshotReport::Walked(Ok((found, from, to))) => {
                let SnapshotRun { plan, stage } = self;
                let (name, at) = match stage {
                    SnapshotStage::Walking { name, at, .. } => (name, at),
                    _ => (String::new(), plan.created_at),
                };
                let renamed = relocate_all(&found, from.as_str(), to.as_str());
                let ts: i64 = at.epoch_secs() as i64;
                (
                    SnapshotRun { plan, stage: SnapshotStage::Recording },
                    SnapshotOrder::Record { name, ts, renamed },
                )
            },
            SnapshotReport::Recorded(Err(error)) => self.fail(error),
            SnapshotReport::Recorded(Ok(_)) => (
                self.at(SnapshotStage::Listing),
                SnapshotOrder::List,
            ),
            SnapshotReport::Listed(Err(error), _) => self.fail(error),
            SnapshotReport::Listed(Ok(held), now) => {
                let rows = expired(&held, now);
                (self.at(SnapshotStage::Expiring), SnapshotOrder::Expire(rows))
            },
            SnapshotReport::Expired(_) => (
                self.at(SnapshotStage::Over),
                SnapshotOrder::Finish(Ok(JobSummary { archive_id: None })),
            ),
        }
    }
}

/// A local backup that fails says so with the error it met, and one that was
/// cancelled while it archived never goes on to catalogue and never ends well.
pub proof fn a_local_backup_fails_with_its_own_error(
    run: OfflineRun,
    report: OfflineReport,
    next: OfflineNext,
    error: EngineError,
)
    requires
        run.follows(report, next),
        ({
            ||| report == OfflineReport::Walked(Err(error))
            ||| report == OfflineReport::Compared(Err(error))
            ||| report matches OfflineReport::Measured { existing, .. } && existing == Err::<
                Vec<LocalArchive>,
                EngineError,
            >(error)
            ||| report matches OfflineReport::Evicted(Err(e)) && e == error
            ||| report matches OfflineReport::Archived { result, cancelled } && (result == Err::<
                JobSummary,
                EngineError,
            >(error) || (result is Ok && cancelled && error == EngineError::Cancelled))
            ||| report matches OfflineReport::Catalogued { result, cancelled } && cancelled
                && result == Err::<usize, EngineError>(error)
        }),
    ensures
        next.1 == OfflineOrder::Finish(Err(error)),
        next.0.stage is Over,
        next.0.base == run.base,
{
}

/// A local backup ends well only where nothing had changed, where the spool had to
/// hold, or once the archive has been written and read, or could not be read; and
/// then with no archive of its own. It says that it archived as many files as it
/// did, and nothing where it archived none.
pub proof fn a_local_backup_ends_well_only_when_it_is_done(
    run: OfflineRun,
    report: OfflineReport,
    next: OfflineNext,
)
    requires
        run.awaits(report),
        run.follows(report, next),
        next.1 matches OfflineOrder::Finish(Ok(_)),
    ensures
        next.1 matches OfflineOrder::Finish(Ok(summary)) && summary.archive_id is None,
        next.0.stage is Over,
        ({
            ||| report matches OfflineReport::Walked(Ok((None, live))) && live@.len() == 0
            ||| report matches OfflineReport::Compared(Ok(changed)) && changed@.len() == 0
            ||| report is Measured
            ||| run.stage matches OfflineStage::Evicting { proceed, .. } && !proceed
            ||| report matches OfflineReport::Catalogued { result, cancelled } && (result is Ok
                || !cancelled)
        }),
        report matches OfflineReport::Measured { sizes, held, existing: Ok(existing) } ==> {
            &&& next.0.base.outcome.degraded
            &&& next.0.base.outcome.evicted == 0
        },
        report is Evicted ==> {
            &&& run.stage matches OfflineStage::Evicting { gone, degraded, .. }
            &&& next.0.base.outcome.evicted == gone
            &&& next.0.base.outcome.degraded == degraded
        },
        report is Catalogued ==> {
            &&& run.stage matches OfflineStage::Cataloguing { files }
            &&& next.0.base.outcome.files == files
            &&& next.0.base.outcome.evicted == run.base.outcome.evicted
            &&& next.0.base.outcome.degraded == run.base.outcome.degraded
        },
        !(report is Catalogued) ==> next.0.base.outcome.files == run.base.outcome.files,
{
}

/// The steps of a local backup come in their order: what changed is looked for
/// before anything is measured, room is made only once it was measured, files are
/// archived only where there is room, and only what was archived is catalogued,
/// under the name and at the time it was archived.
pub proof fn a_local_backup_takes_its_steps_in_order(
    run: OfflineRun,
    report: OfflineReport,
    next: OfflineNext,
)
    requires
        run.awaits(report),
        run.follows(report, next),
    ensures
        next.1 matches OfflineOrder::Compare { since, live } ==> report == OfflineReport::Walked(
            Ok((Some(since), live)),
        ) && next.0.stage is Comparing,
        next.1 is Measure ==> {
            &&& next.0.stage matches OfflineStage::Measuring(files)
            &&& files@.len() > 0
            &&& (report matches OfflineReport::Walked(Ok((None, live))) && live@ == files@) || (
            report matches OfflineReport::Compared(Ok(changed)) && changed@ == files@)
        },
        next.1 is Evict ==> report is Measured && next.0.stage is Evicting,
        next.1 is Archive ==> (report is Measured || (report matches OfflineReport::Evicted(Ok(_))))
            && next.0.stage is Archiving,
        next.1 matches OfflineOrder::Catalogue { name, created_at } ==> {
            &&& report matches OfflineReport::Archived { result: Ok(_), cancelled: false }
            &&& run.stage matches OfflineStage::Archiving { name: archived, at, files }
            &&& archived == name
            &&& at == created_at
            &&& next.0.stage == (OfflineStage::Cataloguing { files })
        },
        !(next.1 is Walk),
        next.0.base.plan == run.base.plan,
{
}

/// Everything that changed is archived, from the root of the filesystem, in one
/// archive that is made as the plan says; and nothing else is.
pub proof fn every_changed_file_is_archived(
    run: OfflineRun,
    report: OfflineReport,
    next: OfflineNext,
    changed: Seq<String>,
    spec: CreateSpec,
)
    requires
        run.awaits(report),
        run.follows(report, next),
        next.1 == OfflineOrder::Archive(spec),
        (run.stage matches OfflineStage::Measuring(files) && files@ == changed) || (
        run.stage matches OfflineStage::Evicting { changed: files, .. } && files@ == changed),
    ensures
        spec.paths@.len() == changed.len(),
        forall|i: int|
            0 <= i < changed.len() ==> (#[trigger] spec.paths@[i])@ == if changed[i]@.len() > 0
                && changed[i]@[0] == '/' {
                changed[i]@
            } else {
                seq!['/'] + changed[i]@
            },
        spec.sources@ == run.base.plan.walk.sources@,
        spec.excludes@ == run.base.plan.walk.excludes@,
        spec.compression == run.base.plan.compression,
        spec.one_file_system == run.base.plan.walk.one_file_system,
        next.0.stage matches OfflineStage::Archiving { name, at, files } && name@
            == spec.archive_name@ && at == spec.created_at && files == changed.len(),
        spec.created_at@ >= run.base.plan.created_at@,
{
}

/// What goes to make room are the oldest, as they are held, no more of them than it
/// takes, and what is decided then is what is done once they are gone.
pub proof fn the_oldest_go_first(
    run: OfflineRun,
    sizes: Vec<u64>,
    held: u64,
    existing: Vec<LocalArchive>,
    next: OfflineNext,
)
    requires
        ({
            let report = OfflineReport::Measured { sizes, held, existing: Ok(existing) };
            run.awaits(report) && run.follows(report, next)
        }),
    ensures
        run.base.plan.cap_bytes == 0 ==> next.1 is Archive,
        held + total(sizes@) <= run.base.plan.cap_bytes ==> next.1 is Archive,
        next.1 matches OfflineOrder::Evict { progress, archives } ==> {
            &&& 0 < archives@.len() <= existing@.len()
            &&& archives@ == existing@.take(archives@.len() as int)
            &&& left_after(held, existing@.len(), archives@.len() - 1) + total(sizes@)
                > run.base.plan.cap_bytes
            &&& next.0.stage matches OfflineStage::Evicting {
                changed,
                taken,
                gone,
                proceed,
                degraded,
            }
            &&& run.stage matches OfflineStage::Measuring(files)
            &&& files@ == changed@
            &&& gone == archives@.len()
            &&& taken@.len() == existing@.len()
            &&& forall|i: int|
                0 <= i < taken@.len() ==> (#[trigger] taken@[i])@ == existing@[i].name@
            &&& proceed == !degraded
            &&& degraded ==> gone == existing@.len()
        },
{
    lemma_total_grows(sizes@, 0);
    assert(sizes@.take(0) =~= Seq::<u64>::empty());
    assert(left_after(held, existing@.len(), 0) == held) by (nonlinear_arith);
    let changed = run.stage->Measuring_0;
    let (gone, proceed, degraded) = choose|gone: int, proceed: bool, degraded: bool|
        {
            &&& #[trigger] is_cap_plan(
                run.base.plan.cap_bytes,
                held,
                total(sizes@),
                existing@,
                gone,
                proceed,
                degraded,
            )
            &&& measured(next, changed@, existing@, gone, proceed, degraded, run.base)
        };
    if gone > 0 {
        assert(!fits(
            run.base.plan.cap_bytes,
            left_after(held, existing@.len(), 0),
            total(sizes@) as u64,
        ));
        assert(!fits(
            run.base.plan.cap_bytes,
            left_after(held, existing@.len(), gone - 1),
            total(sizes@) as u64,
        ));
    }
}

/// Sizes are added up one by one.
pub proof fn every_size_is_added(sizes: Seq<u64>, size: u64)
    ensures
        total(Seq::empty()) == 0,
        total(sizes.push(size)) == total(sizes) + size,
{
    assert(sizes.push(size).drop_last() =~= sizes);
}

/// A file of a snapshot is recorded at the same place below where the subvolume
/// really is, and nothing that only begins like the snapshot's root is recorded at
/// all.
pub proof fn a_relocated_file_keeps_its_place(from: Seq<char>, rest: Seq<char>, to: Seq<char>)
    requires
        rest.len() > 0,
    ensures
        is_inside(from + seq!['/'] + rest, from),
        is_inside(from, from),
        rest[0] != '/' ==> moved(from + seq!['/'] + rest, from, to) == if to.len() == 0 {
            rest
        } else {
            to + seq!['/'] + rest
        },
        from.len() > 0 && from.last() != '/' && rest[0] != '/' ==> !is_inside(from + rest, from),
        is_inside(rest, from) ==> rest.len() >= from.len() && rest.take(from.len() as int) == from,
        from.len() <= rest.len() && rest.take(from.len() as int) != from ==> !is_inside(rest, from),
{
    let path = from + seq!['/'] + rest;
    assert(path.take(from.len() as int) =~= from);
    assert(from.take(from.len() as int) =~= from);
    assert((from + rest).take(from.len() as int) =~= from);
    let left = path.skip(from.len() as int);
    assert(left =~= seq!['/'] + rest);
    reveal_with_fuel(text::trim_start, 2);
    assert(left.drop_first() =~= rest);
}

/// What has outlived its day is what was taken a day ago or longer, by its own
/// number and name, in the order in which it is held.
pub proof fn what_has_outlived_its_day_goes(held: Seq<ArchiveRow>, now: int)
    ensures
        expired_rows(held, now) == held.filter(
            |row: ArchiveRow|
                now - (if row.ts < 0 {
                    0
                } else {
                    row.ts * 1_000_000_000
                }) >= 86_400_000_000_000,
        ).map_values(|row: ArchiveRow| (row.seq, row.name@)),
    decreases held.len(),
{
    reveal(Seq::filter);
    let past = |row: ArchiveRow|
        now - (if row.ts < 0 {
            0
        } else {
            row.ts * 1_000_000_000
        }) >= 86_400_000_000_000;
    let named = |row: ArchiveRow| (row.seq, row.name@);
    if held.len() > 0 {
        what_has_outlived_its_day_goes(held.drop_last(), now);
        let rest = held.drop_last().filter(past);
        if past(held.last()) {
            assert(held.filter(past) =~= rest.push(held.last()));
            assert(held.filter(past).map_values(named) =~= rest.map_values(named).push(
                named(held.last()),
            ));
        } else {
            assert(held.filter(past) =~= rest);
        }
    } else {
        assert(held.filter(past).map_values(named) =~= Seq::empty());
    }
}

/// What is found below a subvolume is placed below a root, each once and in order,
/// and what is not found is left out.
pub proof fn what_is_found_is_placed(found: Seq<Option<Seq<char>>>, root: Seq<char>)
    ensures
        placed(found, root) == found.filter(|f: Option<Seq<char>>| f is Some).map_values(
            |f: Option<Seq<char>>| paths::after(root, f->0),
        ),
    decreases found.len(),
{
    reveal(Seq::filter);
    let there = |f: Option<Seq<char>>| f is Some;
    let at = |f: Option<Seq<char>>| paths::after(root, f->0);
    if found.len() > 0 {
        what_is_found_is_placed(found.drop_last(), root);
        let rest = found.drop_last().filter(there);
        if there(found.last()) {
            assert(found.filter(there) =~= rest.push(found.last()));
            assert(found.filter(there).map_values(at) =~= rest.map_values(at).push(
                at(found.last()),
            ));
        } else {
            assert(found.filter(there) =~= rest);
        }
    } else {
        assert(found.filter(there).map_values(at) =~= Seq::empty());
    }
}

/// Taking a snapshot fails with the error it met at any step but the last, whose
/// failure changes nothing; and it ends well only after that last step.
pub proof fn a_snapshot_ends_as_it_went(
    run: SnapshotRun,
    report: SnapshotReport,
    next: SnapshotNext,
)
    requires
        run.awaits(report),
        run.follows(report, next),
    ensures
        next.1 is Finish <==> next.0.stage is Over,
        (next.1 matches SnapshotOrder::Finish(Ok(_))) <==> report is Expired,
        next.1 matches SnapshotOrder::Finish(Ok(summary)) ==> summary.archive_id is None,
        report matches SnapshotReport::Named(Err(error)) ==> next.1 == SnapshotOrder::Finish(
            Err(error),
        ),
        report matches SnapshotReport::Walked(Err(error)) ==> next.1 == SnapshotOrder::Finish(
            Err(error),
        ),
        report matches SnapshotReport::Recorded(Err(error)) ==> next.1 == SnapshotOrder::Finish(
            Err(error),
        ),
        report matches SnapshotReport::Listed(Err(error), _) ==> next.1 == SnapshotOrder::Finish(
            Err(error),
        ),
        report matches SnapshotReport::Taken(Err(_)) ==> (next.1 matches SnapshotOrder::Finish(
            Err(_),
        )),
{
}

/// The steps of a snapshot come in their order, and what is recorded is the
/// snapshot that was taken, under its name and from when it was taken: it is walked
/// where it was put, not in the live tree, with the directories and with what is
/// left out of every backup.
pub proof fn a_snapshot_is_walked_where_it_was_taken(
    run: SnapshotRun,
    report: SnapshotReport,
    next: SnapshotNext,
)
    requires
        run.awaits(report),
        run.follows(report, next),
    ensures
        next.1 is Take ==> (report matches SnapshotReport::Named(Ok(_))) && next.0.stage is Taking,
        next.1 matches SnapshotOrder::Take { root, .. } ==> (
        next.0.stage matches SnapshotStage::Taking { root: dir, .. } && dir@ == root@),
        next.1 matches SnapshotOrder::Walk { walk, root, subvolume } ==> {
            &&& report matches SnapshotReport::Taken(Ok(_))
            &&& run.stage matches SnapshotStage::Taking { name, at, root: dir }
            &&& root@ == dir@
            &&& subvolume@ == run.plan.subvolume@
            &&& walk.excludes@ == run.plan.walk.excludes@
            &&& walk.never@ == run.plan.walk.never@
            &&& walk.include_dirs
            &&& !walk.one_file_system
            &&& next.0.stage == (SnapshotStage::Walking { name, at, root: dir })
        },
        next.1 matches SnapshotOrder::Record { name, ts, renamed } ==> {
            &&& report matches SnapshotReport::Walked(Ok((found, from, to)))
            &&& run.stage matches SnapshotStage::Walking { name: taken, at, .. }
            &&& taken == name
            &&& at@ >= 0 ==> ts == at@ / 1_000_000_000
            &&& at@ < 0 ==> ts == 0
            &&& renamed@.len() == found@.len()
            &&& next.0.stage is Recording
        },
        next.1 is List ==> (report matches SnapshotReport::Recorded(Ok(_))) && next.0.stage
            is Listing,
        next.1 is Expire ==> (report matches SnapshotReport::Listed(Ok(_), _)) && next.0.stage
            is Expiring,
        !(next.1 is Name),
{
}

/// Every file that was found in a snapshot is recorded where it really lives, in order,
/// and what was found outside it is not recorded.
pub proof fn every_file_of_a_snapshot_is_recorded(
    run: SnapshotRun,
    found: Vec<String>,
    from: String,
    to: String,
    next: SnapshotNext,
    i: int,
)
    requires
        run.awaits(SnapshotReport::Walked(Ok((found, from, to)))),
        run.follows(SnapshotReport::Walked(Ok((found, from, to))), next),
        0 <= i < found@.len(),
    ensures
        next.1 matches SnapshotOrder::Record { renamed, .. } && renamed@.len() == found@.len() && (
        renamed@[i] is Some <==> is_inside(found@[i]@, from@)) && (renamed@[i] matches Some(path)
            ==> path@ == moved(found@[i]@, from@, to@)),
{
    let renamed = next.1->Record_renamed;
    assert(match renamed@[i] {
        Some(path) => is_inside(found@[i]@, from@) && path@ == moved(found@[i]@, from@, to@),
        None => !is_inside(found@[i]@, from@),
    });
}

/// A snapshot is walked at the places of the sources below the subvolume, each below
/// the snapshot's own root, and in their order.
pub proof fn a_snapshot_is_walked_at_its_sources(
    run: SnapshotRun,
    taken: Result<(), String>,
    next: SnapshotNext,
)
    requires
        run.awaits(SnapshotReport::Taken(taken)),
        taken is Ok,
        run.follows(SnapshotReport::Taken(taken), next),
    ensures
        next.1 matches SnapshotOrder::Walk { walk, root, .. } && views(walk.sources@)
            == run.plan.walk.sources@.map_values(
            |s: String| path_inside(s@, run.plan.subvolume@),
        ).filter(|f: Option<Seq<char>>| f is Some).map_values(
            |f: Option<Seq<char>>| paths::after(root@, f->0),
        ),
{
    let root = run.stage->Taking_root;
    what_is_found_is_placed(
        all_inside(run.plan.walk.sources@, run.plan.subvolume@),
        root@,
    );
}

} // verus!
