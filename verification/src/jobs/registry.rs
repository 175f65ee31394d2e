//! The table of jobs: submission, queuing, cancellation, and what ends a run.
//!
//! Submitting a job returns its [`JobId`] at once. Whether the job starts at
//! once is the [`RepoGuard`]'s decision. The table itself runs nothing: each
//! operation answers with the [`Effect`]s to carry out, in order, and is told
//! when a run has ended.

use vstd::prelude::*;

use crate::engine::EngineError;
use crate::jobs::guard::{may_start_beside, RepoAccess, RepoGuard};
use crate::jobs::{JobError, JobId, JobKind, JobState, Outcome};

verus! {

/// What subscribers hear.
#[derive(Debug, PartialEq, Eq)]
pub enum JobUpdate {
    /// The job moved to a new state.
    State { id: JobId, kind: JobKind, state: JobState },
    /// Progress within the current state, already rate-limited.
    Progress { id: JobId, kind: JobKind, current: u64, total: Option<u64>, phase: String },
}

/// How one run of a job ended.
#[derive(Debug, PartialEq, Eq)]
pub enum Ending {
    /// The engine said it finished.
    Completed,
    /// It was stopped on request.
    Cancelled,
    /// It failed.
    Failed(EngineError),
}

/// What has to happen outside the table.
#[derive(Debug, PartialEq, Eq)]
pub enum Effect {
    /// Tell subscribers.
    Publish(JobUpdate),
    /// Start the job's engine work, as the run with this number.
    Start { id: JobId, kind: JobKind, run: u64 },
    /// Stop the run with this number.
    Stop { id: JobId, run: u64 },
}

/// A job as seen from outside.
#[derive(Debug, PartialEq, Eq)]
pub struct JobSnapshot {
    pub id: JobId,
    pub kind: JobKind,
    pub state: JobState,
}

/// A row of the table.
#[derive(Debug, PartialEq, Eq)]
pub struct Job {
    pub kind: JobKind,
    pub state: JobState,
    /// The number of the job's latest run. A new one for each start, so what a
    /// previous run reports cannot end the next.
    pub run: u64,
}

impl Job {
    /// The same job in another state.
    pub open spec fn moved(self, state: JobState) -> Job {
        Job { kind: self.kind, state, run: self.run }
    }

    /// The same job, started once more.
    pub open spec fn started(self) -> Job {
        Job { kind: self.kind, state: JobState::Running, run: next_run(self.run) }
    }
}

/// The number of the run after run `run`.
pub open spec fn next_run(run: u64) -> u64 {
    if run == u64::MAX {
        0
    } else {
        (run + 1) as u64
    }
}

/// The daemon's one table of jobs.
#[derive(Debug)]
pub struct JobRegistry {
    /// Job `id` is in row `id - 1`; jobs are never taken out.
    jobs: Vec<Job>,
    queue: Vec<JobId>,
}

/// The row of a job.
pub open spec fn row(id: JobId) -> int {
    id - 1
}

/// Whether there is a job with this id.
pub open spec fn known(jobs: Seq<Job>, id: JobId) -> bool {
    1 <= id <= jobs.len()
}

/// Whether a job wanting `access` may start: a reader beside readers, and a
/// writer beside nothing.
pub open spec fn admissible(jobs: Seq<Job>, access: RepoAccess) -> bool {
    forall|i: int|
        0 <= i < jobs.len() && (#[trigger] jobs[i]).state.holds() ==> access == RepoAccess::Shared
            && jobs[i].kind.mode() == RepoAccess::Shared
}

/// How the jobs that hold the repository use it, in the order of their rows.
pub open spec fn holders(jobs: Seq<Job>) -> Seq<RepoAccess>
    decreases jobs.len(),
{
    if jobs.len() == 0 {
        Seq::empty()
    } else if jobs.last().state.holds() {
        holders(jobs.drop_last()).push(jobs.last().kind.mode())
    } else {
        holders(jobs.drop_last())
    }
}

/// The holders are the modes of the jobs that hold, and so what may start beside
/// them is what the table admits.
proof fn lemma_holders(jobs: Seq<Job>)
    ensures
        forall|mode: RepoAccess|
            holders(jobs).contains(mode) <==> exists|i: int|
                0 <= i < jobs.len() && (#[trigger] jobs[i]).state.holds() && jobs[i].kind.mode()
                    == mode,
        forall|access: RepoAccess|
            may_start_beside(holders(jobs), access) == admissible(jobs, access),
    decreases jobs.len(),
{
    let all = holders(jobs);
    if jobs.len() > 0 {
        let front = jobs.drop_last();
        lemma_holders(front);
        assert forall|mode: RepoAccess| all.contains(mode) <==> exists|i: int|
            0 <= i < jobs.len() && (#[trigger] jobs[i]).state.holds() && jobs[i].kind.mode()
                == mode by {
            if all.contains(mode) {
                let k = choose|k: int| 0 <= k < all.len() && all[k] == mode;
                if jobs.last().state.holds() && k == all.len() - 1 {
                    assert(jobs[jobs.len() - 1].kind.mode() == mode);
                } else {
                    assert(holders(front)[k] == mode);
                    assert(holders(front).contains(mode));
                    let i = choose|i: int|
                        0 <= i < front.len() && (#[trigger] front[i]).state.holds()
                            && front[i].kind.mode() == mode;
                    assert(jobs[i] == front[i]);
                }
            }
            if exists|i: int|
                0 <= i < jobs.len() && (#[trigger] jobs[i]).state.holds() && jobs[i].kind.mode()
                    == mode {
                let i = choose|i: int|
                    0 <= i < jobs.len() && (#[trigger] jobs[i]).state.holds()
                        && jobs[i].kind.mode() == mode;
                if i < front.len() {
                    assert(front[i] == jobs[i]);
                    assert(holders(front).contains(mode));
                    let k = choose|k: int|
                        0 <= k < holders(front).len() && holders(front)[k] == mode;
                    assert(all[k] == mode);
                } else {
                    assert(all[all.len() - 1] == mode);
                }
            }
        }
    }
    assert forall|access: RepoAccess| may_start_beside(all, access) == admissible(jobs, access) by {
        if may_start_beside(all, access) {
            assert forall|i: int| 0 <= i < jobs.len() && (#[trigger] jobs[i]).state.holds() implies
                access == RepoAccess::Shared && jobs[i].kind.mode() == RepoAccess::Shared by {
                assert(all.contains(jobs[i].kind.mode()));
            }
        }
        if admissible(jobs, access) && all.len() > 0 {
            assert(all.contains(all[0]));
        }
    }
}

/// Where the table lets a writer hold the repository only alone, so do the holders.
proof fn lemma_holders_exclude(jobs: Seq<Job>)
    requires
        exclusion(jobs),
    ensures
        !holders(jobs).contains(RepoAccess::Exclusive) || holders(jobs).len() == 1,
    decreases jobs.len(),
{
    if jobs.len() > 0 {
        let front = jobs.drop_last();
        assert(exclusion(front)) by {
            assert forall|a: int, b: int|
                0 <= a < front.len() && 0 <= b < front.len() && a != b && (
                #[trigger] front[a]).state.holds() && (
                #[trigger] front[b]).state.holds() implies front[a].kind.mode()
                == RepoAccess::Shared by {
                assert(jobs[a] == front[a] && jobs[b] == front[b]);
            }
        }
        lemma_holders_exclude(front);
        lemma_holders(front);
        let n = jobs.len() - 1;
        if jobs[n].state.holds() && holders(front).len() > 0 {
            let mode = holders(front)[0];
            assert(holders(front).contains(mode));
            let i = choose|i: int|
                0 <= i < front.len() && (#[trigger] front[i]).state.holds()
                    && front[i].kind.mode() == mode;
            assert(jobs[i] == front[i]);
            assert(jobs[n].kind.mode() == RepoAccess::Shared);
            assert forall|k: int| 0 <= k < holders(jobs).len() implies holders(jobs)[k]
                != RepoAccess::Exclusive by {
                if k < holders(front).len() {
                    let other = holders(front)[k];
                    assert(holders(front).contains(other));
                    let r = choose|r: int|
                        0 <= r < front.len() && (#[trigger] front[r]).state.holds()
                            && front[r].kind.mode() == other;
                    assert(jobs[r] == front[r]);
                }
            }
        }
    }
}

/// The first place in the queue, from `from` on, whose job may start.
pub open spec fn first_admissible(jobs: Seq<Job>, queue: Seq<JobId>, from: int) -> int
    decreases queue.len() - from,
{
    if from >= queue.len() {
        queue.len() as int
    } else if admissible(jobs, jobs[row(queue[from])].kind.mode()) {
        from
    } else {
        first_admissible(jobs, queue, from + 1)
    }
}

/// A state change, as subscribers hear of it.
pub open spec fn announced(id: JobId, job: Job) -> Effect {
    Effect::Publish(JobUpdate::State { id, kind: job.kind, state: job.state })
}

/// Starting whatever may start: the first job in the queue that may, then the
/// first of those left, until none may. A reader may pass a waiting writer.
pub open spec fn admitted(jobs: Seq<Job>, queue: Seq<JobId>) -> (
    Seq<Job>,
    Seq<JobId>,
    Seq<Effect>,
)
    decreases queue.len(),
{
    let at = first_admissible(jobs, queue, 0);
    if !(0 <= at < queue.len()) {
        (jobs, queue, Seq::empty())
    } else {
        let id = queue[at];
        let job = jobs[row(id)].started();
        let (j, q, effects) = admitted(jobs.update(row(id), job), queue.remove(at));
        (
            j,
            q,
            seq![announced(id, job), Effect::Start { id, kind: job.kind, run: job.run }] + effects,
        )
    }
}

/// A queue without one of its jobs.
pub open spec fn without(queue: Seq<JobId>, id: JobId) -> Seq<JobId>
    decreases queue.len(),
{
    if queue.len() == 0 {
        queue
    } else if queue.last() == id {
        without(queue.drop_last(), id)
    } else {
        without(queue.drop_last(), id).push(queue.last())
    }
}

/// What the queue is: every queued job, once each.
pub open spec fn queue_is_right(jobs: Seq<Job>, queue: Seq<JobId>) -> bool {
    &&& queue.no_duplicates()
    &&& forall|k: int|
        0 <= k < queue.len() ==> known(jobs, #[trigger] queue[k]) && jobs[row(
            queue[k],
        )].state is Queued
    &&& forall|i: int|
        0 <= i < jobs.len() && (#[trigger] jobs[i]).state is Queued ==> queue.contains(
            (i + 1) as u64,
        )
}

/// A writer never holds the repository together with anybody else.
pub open spec fn exclusion(jobs: Seq<Job>) -> bool {
    forall|i: int, j: int|
        0 <= i < jobs.len() && 0 <= j < jobs.len() && i != j && (#[trigger] jobs[i]).state.holds()
            && (#[trigger] jobs[j]).state.holds() ==> jobs[i].kind.mode() == RepoAccess::Shared
}

/// Nothing that may start is left waiting.
pub open spec fn nothing_waits_needlessly(jobs: Seq<Job>, queue: Seq<JobId>) -> bool {
    forall|k: int|
        0 <= k < queue.len() ==> !admissible(jobs, jobs[row(#[trigger] queue[k])].kind.mode())
}

/// What every operation leaves of the jobs there were: none is lost or changes
/// its kind, one that was over stays as it was, and one that was being
/// cancelled is so still or is done.
pub open spec fn history_kept(before: Seq<Job>, after: Seq<Job>) -> bool {
    &&& before.len() <= after.len()
    &&& forall|i: int|
        0 <= i < before.len() ==> {
            &&& (#[trigger] after[i]).kind == before[i].kind
            &&& before[i].state.terminal() ==> after[i] == before[i]
            &&& before[i].state is Cancelling ==> after[i].state is Cancelling
                || after[i].state is Done
        }
}

/// The table fits together, whatever may still be waiting.
pub open spec fn consistent(jobs: Seq<Job>, queue: Seq<JobId>) -> bool {
    &&& jobs.len() <= u64::MAX
    &&& queue_is_right(jobs, queue)
    &&& exclusion(jobs)
}

/// The first place whose job may start, if there is one, and otherwise proof
/// that none may.
proof fn lemma_first_admissible(jobs: Seq<Job>, queue: Seq<JobId>, from: int)
    requires
        0 <= from <= queue.len(),
    ensures
        ({
            let at = first_admissible(jobs, queue, from);
            &&& from <= at <= queue.len()
            &&& at < queue.len() ==> admissible(jobs, jobs[row(queue[at])].kind.mode())
            &&& forall|k: int|
                from <= k < at ==> !admissible(jobs, jobs[row(#[trigger] queue[k])].kind.mode())
        }),
    decreases queue.len() - from,
{
    if from < queue.len() && !admissible(jobs, jobs[row(queue[from])].kind.mode()) {
        lemma_first_admissible(jobs, queue, from + 1);
    }
}

/// Starting an admissible job keeps the table consistent.
proof fn lemma_start_one(jobs: Seq<Job>, queue: Seq<JobId>, at: int)
    requires
        consistent(jobs, queue),
        0 <= at < queue.len(),
        admissible(jobs, jobs[row(queue[at])].kind.mode()),
    ensures
        consistent(
            jobs.update(row(queue[at]), jobs[row(queue[at])].started()),
            queue.remove(at),
        ),
        history_kept(jobs, jobs.update(row(queue[at]), jobs[row(queue[at])].started())),
{
    let id = queue[at];
    let j = jobs.update(row(id), jobs[row(id)].started());
    let q = queue.remove(at);
    assert forall|i: int| 0 <= i < j.len() && (#[trigger] j[i]).state is Queued implies q.contains(
        (i + 1) as u64,
    ) by {
        assert(jobs[i].state is Queued);
        let k = choose|k: int| 0 <= k < queue.len() && queue[k] == (i + 1) as u64;
        if k < at {
            assert(q[k] == (i + 1) as u64);
        } else {
            assert(k != at);
            assert(q[k - 1] == (i + 1) as u64);
        }
    }
    assert forall|k: int| 0 <= k < q.len() implies known(j, #[trigger] q[k]) && j[row(
        q[k],
    )].state is Queued by {
        let b = if k < at {
            k
        } else {
            k + 1
        };
        assert(q[k] == queue[b]);
        assert(queue[b] != queue[at]);
    }
    assert(q.no_duplicates()) by {
        assert forall|a: int, b: int| 0 <= a < q.len() && 0 <= b < q.len() && a != b implies q[a]
            != q[b] by {
            let (x, y) = (
                if a < at {
                    a
                } else {
                    a + 1
                },
                if b < at {
                    b
                } else {
                    b + 1
                },
            );
            assert(q[a] == queue[x] && q[b] == queue[y]);
        }
    }
}

/// Admission keeps the table consistent and leaves nothing waiting that may
/// start.
proof fn lemma_admitted(jobs: Seq<Job>, queue: Seq<JobId>)
    requires
        consistent(jobs, queue),
    ensures
        ({
            let (j, q, _) = admitted(jobs, queue);
            &&& consistent(j, q)
            &&& nothing_waits_needlessly(j, q)
            &&& history_kept(jobs, j)
            &&& j.len() == jobs.len()
        }),
    decreases queue.len(),
{
    lemma_first_admissible(jobs, queue, 0);
    let at = first_admissible(jobs, queue, 0);
    if at < queue.len() {
        lemma_start_one(jobs, queue, at);
        let j = jobs.update(row(queue[at]), jobs[row(queue[at])].started());
        lemma_admitted(j, queue.remove(at));
        let (k, _, _) = admitted(j, queue.remove(at));
        assert forall|i: int| 0 <= i < jobs.len() implies {
            &&& (#[trigger] k[i]).kind == jobs[i].kind
            &&& jobs[i].state.terminal() ==> k[i] == jobs[i]
            &&& jobs[i].state is Cancelling ==> k[i].state is Cancelling || k[i].state is Done
        } by {
            assert(j[i].kind == jobs[i].kind);
        }
    }
}

/// Where nothing that may start is waiting, admission changes nothing.
proof fn lemma_idle(jobs: Seq<Job>, queue: Seq<JobId>)
    requires
        nothing_waits_needlessly(jobs, queue),
    ensures
        admitted(jobs, queue) == (jobs, queue, Seq::<Effect>::empty()),
{
    lemma_first_admissible(jobs, queue, 0);
}

/// What is left of a queue when one job is taken out.
proof fn lemma_without(queue: Seq<JobId>, id: JobId)
    requires
        queue.no_duplicates(),
    ensures
        ({
            let q = without(queue, id);
            &&& q.no_duplicates()
            &&& !q.contains(id)
            &&& forall|x: JobId| x != id && queue.contains(x) ==> #[trigger] q.contains(x)
            &&& forall|x: JobId| #[trigger] q.contains(x) ==> queue.contains(x)
        }),
    decreases queue.len(),
{
    if queue.len() > 0 {
        let front = queue.drop_last();
        assert(front.no_duplicates());
        lemma_without(front, id);
        let r = without(front, id);
        let q = without(queue, id);
        assert forall|x: JobId| #[trigger] q.contains(x) implies queue.contains(x) by {
            let k = choose|k: int| 0 <= k < q.len() && q[k] == x;
            if k < r.len() {
                assert(r[k] == x);
                assert(r.contains(x));
                let m = choose|m: int| 0 <= m < front.len() && front[m] == x;
                assert(queue[m] == x);
            } else {
                assert(queue[queue.len() - 1] == x);
            }
        }
        assert forall|x: JobId| x != id && queue.contains(x) implies #[trigger] q.contains(x) by {
            let m = choose|m: int| 0 <= m < queue.len() && queue[m] == x;
            if m < front.len() {
                assert(front[m] == x);
                assert(r.contains(x));
                let k = choose|k: int| 0 <= k < r.len() && r[k] == x;
                assert(q[k] == x);
            } else {
                assert(q[q.len() - 1] == x);
            }
        }
        if queue.last() != id {
            assert forall|a: int, b: int|
                0 <= a < q.len() && 0 <= b < q.len() && a != b implies q[a] != q[b] by {
                if a == q.len() - 1 && q[b] == q[a] {
                    assert(r[b] == queue.last());
                    assert(r.contains(queue.last()));
                    assert(front.contains(queue.last()));
                    assert(false);
                }
                if b == q.len() - 1 && q[b] == q[a] {
                    assert(r[a] == queue.last());
                    assert(r.contains(queue.last()));
                    assert(front.contains(queue.last()));
                    assert(false);
                }
            }
            if q.contains(id) {
                let k = choose|k: int| 0 <= k < q.len() && q[k] == id;
                assert(r[k] == id);
                assert(r.contains(id));
            }
        }
    }
}

/// Moving a job that is not queued, to a state that is not queued and holds the
/// repository only if it did before, keeps the table consistent.
proof fn lemma_move(jobs: Seq<Job>, queue: Seq<JobId>, id: JobId, state: JobState)
    requires
        consistent(jobs, queue),
        known(jobs, id),
        !(jobs[row(id)].state is Queued),
        !(state is Queued),
        state.holds() ==> jobs[row(id)].state.holds(),
    ensures
        consistent(jobs.update(row(id), jobs[row(id)].moved(state)), queue),
{
    let j = jobs.update(row(id), jobs[row(id)].moved(state));
    assert forall|i: int|
        0 <= i < j.len() && (#[trigger] j[i]).state is Queued implies queue.contains(
        (i + 1) as u64,
    ) by {
        assert(jobs[i].state is Queued);
    }
    assert forall|k: int| 0 <= k < queue.len() implies known(j, #[trigger] queue[k]) && j[row(
        queue[k],
    )].state is Queued by {
        assert(jobs[row(queue[k])].state is Queued);
    }
    assert(exclusion(j)) by {
        assert forall|a: int, b: int|
            0 <= a < j.len() && 0 <= b < j.len() && a != b && (#[trigger] j[a]).state.holds()
                && (#[trigger] j[b]).state.holds() implies j[a].kind.mode()
            == RepoAccess::Shared by {
            assert(jobs[a].state.holds() && jobs[b].state.holds());
        }
    }
}

/// A new row in the table, waiting at the end of the queue.
proof fn lemma_enqueue_new(jobs: Seq<Job>, queue: Seq<JobId>, kind: JobKind)
    requires
        consistent(jobs, queue),
        jobs.len() < u64::MAX,
    ensures
        consistent(
            jobs.push(Job { kind, state: JobState::Queued, run: 0 }),
            queue.push((jobs.len() + 1) as u64),
        ),
{
    let id = (jobs.len() + 1) as u64;
    let j = jobs.push(Job { kind, state: JobState::Queued, run: 0 });
    let q = queue.push(id);
    assert forall|i: int| 0 <= i < j.len() && (#[trigger] j[i]).state is Queued implies q.contains(
        (i + 1) as u64,
    ) by {
        if i < jobs.len() {
            assert(jobs[i].state is Queued);
            let k = choose|k: int| 0 <= k < queue.len() && queue[k] == (i + 1) as u64;
            assert(q[k] == (i + 1) as u64);
        } else {
            assert(q[queue.len() as int] == id);
        }
    }
    assert forall|k: int| 0 <= k < q.len() implies known(j, #[trigger] q[k]) && j[row(
        q[k],
    )].state is Queued by {
        if k < queue.len() {
            assert(known(jobs, queue[k]));
        }
    }
    assert(exclusion(j)) by {
        assert forall|a: int, b: int|
            0 <= a < j.len() && 0 <= b < j.len() && a != b && (#[trigger] j[a]).state.holds()
                && (#[trigger] j[b]).state.holds() implies j[a].kind.mode()
            == RepoAccess::Shared by {
            assert(jobs[a].state.holds() && jobs[b].state.holds());
        }
    }
}

/// A paused job, waiting at the end of the queue again.
proof fn lemma_enqueue_again(jobs: Seq<Job>, queue: Seq<JobId>, id: JobId)
    requires
        consistent(jobs, queue),
        known(jobs, id),
        jobs[row(id)].state is Paused,
    ensures
        consistent(jobs.update(row(id), jobs[row(id)].moved(JobState::Queued)), queue.push(id)),
{
    let j = jobs.update(row(id), jobs[row(id)].moved(JobState::Queued));
    let q = queue.push(id);
    assert forall|i: int| 0 <= i < j.len() && (#[trigger] j[i]).state is Queued implies q.contains(
        (i + 1) as u64,
    ) by {
        if i != row(id) {
            assert(jobs[i].state is Queued);
            let k = choose|k: int| 0 <= k < queue.len() && queue[k] == (i + 1) as u64;
            assert(q[k] == (i + 1) as u64);
        } else {
            assert(q[queue.len() as int] == id);
        }
    }
    assert forall|k: int| 0 <= k < q.len() implies known(j, #[trigger] q[k]) && j[row(
        q[k],
    )].state is Queued by {
        if k < queue.len() {
            assert(jobs[row(queue[k])].state is Queued);
        }
    }
    assert(q.no_duplicates()) by {
        assert forall|k: int| 0 <= k < queue.len() implies queue[k] != id by {
            assert(jobs[row(queue[k])].state is Queued);
        }
    }
    assert(exclusion(j)) by {
        assert forall|a: int, b: int|
            0 <= a < j.len() && 0 <= b < j.len() && a != b && (#[trigger] j[a]).state.holds()
                && (#[trigger] j[b]).state.holds() implies j[a].kind.mode()
            == RepoAccess::Shared by {
            assert(jobs[a].state.holds() && jobs[b].state.holds());
        }
    }
}

/// A queued job that is cancelled leaves the queue.
proof fn lemma_leave_queue(jobs: Seq<Job>, queue: Seq<JobId>, id: JobId)
    requires
        consistent(jobs, queue),
        known(jobs, id),
        jobs[row(id)].state is Queued || jobs[row(id)].state is Paused,
    ensures
        consistent(
            jobs.update(row(id), jobs[row(id)].moved(JobState::Done(Outcome::Cancelled))),
            without(queue, id),
        ),
{
    let j = jobs.update(row(id), jobs[row(id)].moved(JobState::Done(Outcome::Cancelled)));
    let q = without(queue, id);
    lemma_without(queue, id);
    assert forall|i: int| 0 <= i < j.len() && (#[trigger] j[i]).state is Queued implies q.contains(
        (i + 1) as u64,
    ) by {
        assert(jobs[i].state is Queued);
        assert((i + 1) as u64 != id);
    }
    assert forall|k: int| 0 <= k < q.len() implies known(j, #[trigger] q[k]) && j[row(
        q[k],
    )].state is Queued by {
        assert(q.contains(q[k]));
        let m = choose|m: int| 0 <= m < queue.len() && queue[m] == q[k];
        assert(jobs[row(queue[m])].state is Queued);
    }
    assert(exclusion(j)) by {
        assert forall|a: int, b: int|
            0 <= a < j.len() && 0 <= b < j.len() && a != b && (#[trigger] j[a]).state.holds()
                && (#[trigger] j[b]).state.holds() implies j[a].kind.mode()
            == RepoAccess::Shared by {
            assert(jobs[a].state.holds() && jobs[b].state.holds());
        }
    }
}

/// How a run that ends leaves its job. A failure while the job is being
/// cancelled counts as the cancellation: the wreckage of an intentional stop is
/// not a failure of the job.
pub open spec fn end_state(state: JobState, ending: Ending) -> JobState {
    match ending {
        Ending::Completed => JobState::Done(Outcome::Completed),
        Ending::Cancelled => JobState::Done(Outcome::Cancelled),
        Ending::Failed(error) => if state is Cancelling {
            JobState::Done(Outcome::Cancelled)
        } else {
            JobState::Failed(error)
        },
    }
}

/// Whether the table becomes this one when a job of a kind is queued.
pub open spec fn adds(
    jobs: Seq<Job>,
    queue: Seq<JobId>,
    kind: JobKind,
    after: Seq<Job>,
    waiting: Seq<JobId>,
) -> bool {
    &&& jobs.len() < u64::MAX
    &&& after == jobs.push(Job { kind, state: JobState::Queued, run: 0 })
    &&& waiting == queue.push((jobs.len() + 1) as u64)
}

/// Whether the table becomes this one when a job is moved to a state: a waiting one
/// is cancelled, a paused one is cancelled or queued again, and one that holds the
/// repository is stopped or ends.
pub open spec fn moves(
    jobs: Seq<Job>,
    queue: Seq<JobId>,
    id: JobId,
    state: JobState,
    after: Seq<Job>,
    waiting: Seq<JobId>,
) -> bool {
    &&& known(jobs, id)
    &&& after == jobs.update(row(id), jobs[row(id)].moved(state))
    &&& match jobs[row(id)].state {
        JobState::Queued => state == JobState::Done(Outcome::Cancelled) && waiting == without(
            queue,
            id,
        ),
        JobState::Paused => if state is Queued {
            waiting == queue.push(id)
        } else {
            state == JobState::Done(Outcome::Cancelled) && waiting == without(queue, id)
        },
        JobState::Running => !(state is Queued) && !(state is Running) && waiting == queue,
        JobState::Cancelling => state.terminal() && waiting == queue,
        JobState::Done(_) | JobState::Failed(_) => false,
    }
}

/// What a request does to the table before anybody is admitted: a job is queued or
/// moved, or the request is refused and nothing changes.
pub open spec fn requested(
    jobs: Seq<Job>,
    queue: Seq<JobId>,
    after: Seq<Job>,
    waiting: Seq<JobId>,
) -> bool {
    ||| after == jobs && waiting == queue
    ||| exists|kind: JobKind| adds(jobs, queue, kind, after, waiting)
    ||| exists|id: JobId, state: JobState| moves(jobs, queue, id, state, after, waiting)
}

impl JobRegistry {
    /// Every job the table has seen; job `id` is in row `id - 1`.
    pub closed spec fn jobs(self) -> Seq<Job> {
        self.jobs@
    }

    /// The ids of the jobs that wait, in the order in which they came.
    pub closed spec fn queue(self) -> Seq<JobId> {
        self.queue@
    }

    /// What holds of the table between any two operations: the queue holds
    /// exactly the queued jobs, a writer runs alone, and nothing that may start
    /// is left waiting.
    pub open spec fn wf(self) -> bool {
        &&& consistent(self.jobs(), self.queue())
        &&& nothing_waits_needlessly(self.jobs(), self.queue())
    }

    /// Whether those that hold the repository all read or are a single writer, and
    /// the guard over them would admit nobody of those that wait.
    pub open spec fn is_safe(self) -> bool {
        let running = holders(self.jobs());
        &&& !running.contains(RepoAccess::Exclusive) || running.len() == 1
        &&& forall|k: int|
            0 <= k < self.queue().len() ==> !may_start_beside(
                running,
                self.jobs()[row(#[trigger] self.queue()[k])].kind.mode(),
            )
    }

    /// Whether the table is what `before` becomes when the row of `id` is
    /// `moved` and the queue is `queue`, and all that may start then has been
    /// started, with `first` and the starts as what is to be done.
    pub open spec fn settled_from(
        self,
        jobs: Seq<Job>,
        queue: Seq<JobId>,
        first: Seq<Effect>,
        effects: Seq<Effect>,
    ) -> bool {
        let (j, q, starts) = admitted(jobs, queue);
        &&& self.jobs() == j
        &&& self.queue() == q
        &&& effects == first + starts
    }

    /// Whether the table becomes `after` when a job of this kind is queued under
    /// `id` and all that may start then has been started, with `effects` as what is
    /// to be done.
    pub open spec fn takes_in(
        self,
        kind: JobKind,
        after: JobRegistry,
        id: JobId,
        effects: Seq<Effect>,
    ) -> bool {
        let job = Job { kind, state: JobState::Queued, run: 0 };
        &&& id == self.jobs().len() + 1
        &&& after.settled_from(
            self.jobs().push(job),
            self.queue().push(id),
            seq![announced(id, job)],
            effects,
        )
    }

    /// Whether one operation can make of this table the table `after`: a request,
    /// and the admission of all that may start then.
    pub open spec fn operated(self, after: JobRegistry) -> bool {
        exists|jobs: Seq<Job>, waiting: Seq<JobId>|
            {
                &&& #[trigger] requested(self.jobs(), self.queue(), jobs, waiting)
                &&& (after.jobs(), after.queue()) == (
                    admitted(jobs, waiting).0,
                    admitted(jobs, waiting).1,
                )
            }
    }

    /// An empty table.
    pub fn new() -> (registry: JobRegistry)
        ensures
            registry.wf(),
            registry.jobs() == Seq::<Job>::empty(),
            registry.queue() == Seq::<JobId>::empty(),
    {
        JobRegistry { jobs: Vec::new(), queue: Vec::new() }
    }

    /// The row of a job.
    fn place(&self, id: JobId) -> (i: usize)
        requires
            known(self.jobs(), id),
        ensures
            i == row(id),
            i < self.jobs().len(),
    {
        let rows: usize = self.jobs.len();
        assert(id <= rows);
        (id - 1) as usize
    }

    /// The guard for what is running now.
    fn guard(&self) -> (guard: RepoGuard)
        ensures
            forall|access: RepoAccess| guard.allows(access) == admissible(self.jobs(), access),
    {
        let mut running: Vec<RepoAccess> = Vec::new();
        let mut i: usize = 0;
        while i < self.jobs.len()
            invariant
                i <= self.jobs@.len(),
                running@ == holders(self.jobs@.take(i as int)),
            decreases self.jobs@.len() - i,
        {
            assert(self.jobs@.take(i + 1).drop_last() =~= self.jobs@.take(i as int));
            if self.jobs[i].state.holds_repo() {
                running.push(self.jobs[i].kind.access());
            }
            i += 1;
        }
        assert(self.jobs@.take(i as int) =~= self.jobs@);
        proof {
            lemma_holders(self.jobs());
        }
        RepoGuard::from_running(&running)
    }

    /// The first place in the queue whose job may start now.
    fn next_admissible(&self) -> (at: Option<usize>)
        requires
            consistent(self.jobs(), self.queue()),
        ensures
            ({
                let first = first_admissible(self.jobs(), self.queue(), 0);
                match at {
                    Some(k) => k == first && k < self.queue().len(),
                    None => first == self.queue().len(),
                }
            }),
    {
        let guard = self.guard();
        let mut i: usize = 0;
        while i < self.queue.len()
            invariant
                i <= self.queue@.len(),
                consistent(self.jobs(), self.queue()),
                forall|access: RepoAccess| guard.allows(access) == admissible(self.jobs(), access),
                first_admissible(self.jobs(), self.queue(), 0) == first_admissible(
                    self.jobs(),
                    self.queue(),
                    i as int,
                ),
            decreases self.queue@.len() - i,
        {
            let id: u64 = self.queue[i];
            assert(known(self.jobs(), self.queue@[i as int]));
            if guard.admits(self.jobs[self.place(id)].kind.access()) {
                return Some(i);
            }
            i += 1;
        }
        None
    }

    /// Admit whatever the repository guard now allows.
    ///
    /// The queue is scanned, not just peeked at: a reader may pass a waiting
    /// writer. Somebody who asks for a restore while a backup is queued behind
    /// a long index run should not wait for both. Only queued jobs are started;
    /// afterwards those that hold the repository all read or are a single writer,
    /// and nobody is left waiting whom the guard over them would admit.
    pub fn pump(&mut self, effects: &mut Vec<Effect>)
        requires
            consistent(old(self).jobs(), old(self).queue()),
        ensures
            final(self).settled_from(
                old(self).jobs(),
                old(self).queue(),
                old(effects)@,
                final(effects)@,
            ),
            final(self).wf(),
            history_kept(old(self).jobs(), final(self).jobs()),
            final(self).jobs().len() == old(self).jobs().len(),
            forall|i: int|
                0 <= i < old(self).jobs().len() ==> #[trigger] final(self).jobs()[i] == old(
                    self,
                ).jobs()[i] || (old(self).jobs()[i].state is Queued && final(self).jobs()[i]
                    == old(self).jobs()[i].started()),
            final(self).is_safe(),
    {
        proof {
            admission_starts_queued_jobs_and_all_it_may(self.jobs@, self.queue@);
        }
        let ghost goal = admitted(self.jobs@, self.queue@);
        let ghost first = effects@;
        proof {
            lemma_admitted(self.jobs@, self.queue@);
            assert(first + goal.2 =~= effects@ + admitted(self.jobs@, self.queue@).2);
        }
        loop
            invariant
                consistent(self.jobs@, self.queue@),
                goal.0 == admitted(self.jobs@, self.queue@).0,
                goal.1 == admitted(self.jobs@, self.queue@).1,
                first + goal.2 == effects@ + admitted(self.jobs@, self.queue@).2,
            ensures
                self.jobs@ == goal.0,
                self.queue@ == goal.1,
                effects@ == first + goal.2,
            decreases self.queue@.len(),
        {
            match self.next_admissible() {
                None => {
                    assert(effects@ + Seq::<Effect>::empty() =~= effects@);
                    break;
                },
                Some(at) => {
                    let ghost (j, q, e) = (self.jobs@, self.queue@, effects@);
                    proof {
                        lemma_first_admissible(j, q, 0);
                        lemma_start_one(j, q, at as int);
                        assert(known(j, q[at as int]));
                    }
                    let id: u64 = self.queue.remove(at);
                    let i: usize = self.place(id);
                    let kind = self.jobs[i].kind;
                    let run: u64 = self.jobs[i].run.wrapping_add(1);
                    let job = Job { kind, state: JobState::Running, run };
                    assert(job == j[row(id)].started());
                    self.jobs.set(i, job);
                    effects.push(
                        Effect::Publish(JobUpdate::State { id, kind, state: JobState::Running }),
                    );
                    effects.push(Effect::Start { id, kind, run });
                    proof {
                        let rest = admitted(self.jobs@, self.queue@).2;
                        assert(effects@ + rest =~= e + (seq![
                            announced(id, job),
                            Effect::Start { id, kind, run },
                        ] + rest));
                    }
                },
            }
        }
    }

    /// Whether there is a job with this id.
    fn knows(&self, id: JobId) -> (yes: bool)
        ensures
            yes == known(self.jobs(), id),
    {
        1 <= id && id <= self.jobs.len() as u64
    }

    /// Queue a job and try to start it.
    pub fn submit(&mut self, kind: JobKind) -> (submitted: (JobId, Vec<Effect>))
        requires
            old(self).wf(),
            old(self).jobs().len() < u64::MAX,
        ensures
            final(self).wf(),
            old(self).operated(*final(self)),
            history_kept(old(self).jobs(), final(self).jobs()),
            final(self).jobs().len() == submitted.0,
            old(self).takes_in(kind, *final(self), submitted.0, submitted.1@),
    {
        let ghost (j, q) = (self.jobs@, self.queue@);
        let id: u64 = self.jobs.len() as u64 + 1;
        proof {
            lemma_enqueue_new(j, q, kind);
        }
        self.jobs.push(Job { kind, state: JobState::Queued, run: 0 });
        self.queue.push(id);
        let mut effects: Vec<Effect> = Vec::new();
        effects.push(Effect::Publish(JobUpdate::State { id, kind, state: JobState::Queued }));
        proof {
            let job = Job { kind, state: JobState::Queued, run: 0 };
            assert(effects@ =~= seq![announced(id, job)]);
        }
        let ghost middle = self.jobs@;
        assert(adds(j, q, kind, middle, self.queue@));
        assert(requested(j, q, middle, self.queue@));
        self.pump(&mut effects);
        proof {
            assert forall|i: int| 0 <= i < j.len() implies {
                &&& (#[trigger] self.jobs@[i]).kind == j[i].kind
                &&& j[i].state.terminal() ==> self.jobs@[i] == j[i]
                &&& j[i].state is Cancelling ==> self.jobs@[i].state is Cancelling
                    || self.jobs@[i].state is Done
            } by {
                assert(middle[i] == j[i]);
            }
        }
        (id, effects)
    }

    /// A job's current state.
    pub fn snapshot(&self, id: JobId) -> (found: Result<JobSnapshot, JobError>)
        ensures
            !known(self.jobs(), id) ==> found == Err::<JobSnapshot, JobError>(
                JobError::NotFound(id),
            ),
            known(self.jobs(), id) ==> found == Ok::<JobSnapshot, JobError>(
                JobSnapshot {
                    id,
                    kind: self.jobs()[row(id)].kind,
                    state: self.jobs()[row(id)].state,
                },
            ),
    {
        if !self.knows(id) {
            return Err(JobError::NotFound(id));
        }
        let job = &self.jobs[self.place(id)];
        Ok(JobSnapshot { id, kind: job.kind, state: job.state.clone() })
    }

    /// Every job the table has seen, oldest first.
    pub fn list(&self) -> (all: Vec<JobSnapshot>)
        requires
            self.wf(),
        ensures
            all@.len() == self.jobs().len(),
            forall|i: int|
                0 <= i < all@.len() ==> #[trigger] all@[i] == (JobSnapshot {
                    id: (i + 1) as u64,
                    kind: self.jobs()[i].kind,
                    state: self.jobs()[i].state,
                }),
    {
        let mut all: Vec<JobSnapshot> = Vec::new();
        let mut i: usize = 0;
        while i < self.jobs.len()
            invariant
                i <= self.jobs@.len(),
                self.jobs@.len() <= u64::MAX,
                all@.len() == i,
                forall|k: int|
                    0 <= k < i ==> #[trigger] all@[k] == (JobSnapshot {
                        id: (k + 1) as u64,
                        kind: self.jobs@[k].kind,
                        state: self.jobs@[k].state,
                    }),
            decreases self.jobs@.len() - i,
        {
            let job = &self.jobs[i];
            all.push(
                JobSnapshot { id: i as u64 + 1, kind: job.kind, state: job.state.clone() },
            );
            i += 1;
        }
        all
    }

    /// Put a job's row into another state.
    fn put(&mut self, id: JobId, state: JobState)
        requires
            known(old(self).jobs(), id),
        ensures
            final(self).jobs() == old(self).jobs().update(
                row(id),
                old(self).jobs()[row(id)].moved(state),
            ),
            final(self).queue() == old(self).queue(),
    {
        let i: usize = self.place(id);
        let job = Job { kind: self.jobs[i].kind, state, run: self.jobs[i].run };
        self.jobs.set(i, job);
    }

    /// Take a job out of the queue.
    fn remove_from_queue(&mut self, id: JobId)
        ensures
            final(self).queue() == without(old(self).queue(), id),
            final(self).jobs() == old(self).jobs(),
    {
        let mut left: Vec<JobId> = Vec::new();
        let mut i: usize = 0;
        while i < self.queue.len()
            invariant
                i <= self.queue@.len(),
                left@ == without(self.queue@.take(i as int), id),
            decreases self.queue@.len() - i,
        {
            assert(self.queue@.take(i + 1).drop_last() =~= self.queue@.take(i as int));
            if self.queue[i] != id {
                left.push(self.queue[i]);
            }
            i += 1;
        }
        assert(self.queue@.take(i as int) =~= self.queue@);
        self.queue = left;
    }

    /// Stop a job. One that waits is cancelled outright; a running one enters
    /// `Cancelling` while the engine is torn down.
    pub fn cancel(&mut self, id: JobId) -> (result: Result<Vec<Effect>, JobError>)
        requires
            old(self).wf(),
        ensures
            final(self).wf(),
            old(self).operated(*final(self)),
            history_kept(old(self).jobs(), final(self).jobs()),
            final(self).jobs().len() == old(self).jobs().len(),
            result is Err ==> final(self).jobs() == old(self).jobs() && final(self).queue()
                == old(self).queue(),
            !known(old(self).jobs(), id) ==> result == Err::<Vec<Effect>, JobError>(
                JobError::NotFound(id),
            ),
            known(old(self).jobs(), id) ==> {
                let job = old(self).jobs()[row(id)];
                match job.state {
                    JobState::Done(_) | JobState::Failed(_) => result == Err::<
                        Vec<Effect>,
                        JobError,
                    >(JobError::AlreadyFinished { id }),
                    JobState::Queued | JobState::Paused => {
                        let ended = job.moved(JobState::Done(Outcome::Cancelled));
                        &&& result matches Ok(effects)
                        &&& final(self).settled_from(
                            old(self).jobs().update(row(id), ended),
                            without(old(self).queue(), id),
                            seq![announced(id, ended)],
                            effects@,
                        )
                    },
                    JobState::Running => {
                        let ending = job.moved(JobState::Cancelling);
                        &&& result matches Ok(effects)
                        &&& effects@ == seq![
                            announced(id, ending),
                            Effect::Stop { id, run: job.run },
                        ]
                        &&& final(self).jobs() == old(self).jobs().update(row(id), ending)
                        &&& final(self).queue() == old(self).queue()
                    },
                    JobState::Cancelling => {
                        &&& result matches Err(JobError::IllegalTransition { id: which, from, to })
                        &&& which == id
                        &&& from@ == JobState::Cancelling.name()
                        &&& to@ == JobState::Cancelling.name()
                    },
                }
            },
    {
        proof {
            lemma_idle(self.jobs@, self.queue@);
            assert(requested(self.jobs@, self.queue@, self.jobs@, self.queue@));
        }
        if !self.knows(id) {
            return Err(JobError::NotFound(id));
        }
        let i: usize = self.place(id);
        let kind = self.jobs[i].kind;
        let run: u64 = self.jobs[i].run;
        let ghost (j, q) = (self.jobs@, self.queue@);
        match &self.jobs[i].state {
            JobState::Done(_) | JobState::Failed(_) => Err(JobError::AlreadyFinished { id }),
            // Nothing to tear down.
            JobState::Queued | JobState::Paused => {
                proof {
                    lemma_leave_queue(j, q, id);
                }
                self.put(id, JobState::Done(Outcome::Cancelled));
                self.remove_from_queue(id);
                let mut effects: Vec<Effect> = Vec::new();
                effects.push(
                    Effect::Publish(
                        JobUpdate::State { id, kind, state: JobState::Done(Outcome::Cancelled) },
                    ),
                );
                assert(effects@ =~= seq![
                    announced(id, j[row(id)].moved(JobState::Done(Outcome::Cancelled))),
                ]);
                let ghost middle = self.jobs@;
                assert(moves(
                    j,
                    q,
                    id,
                    JobState::Done(Outcome::Cancelled),
                    middle,
                    self.queue@,
                ));
                assert(requested(j, q, middle, self.queue@));
                self.pump(&mut effects);
                proof {
                    lemma_history(j, middle, self.jobs@);
                }
                Ok(effects)
            },
            JobState::Running => {
                proof {
                    lemma_move(j, q, id, JobState::Cancelling);
                    lemma_still_waiting(j, q, id, JobState::Cancelling);
                }
                self.put(id, JobState::Cancelling);
                proof {
                    lemma_idle(self.jobs@, self.queue@);
                    assert(moves(j, q, id, JobState::Cancelling, self.jobs@, self.queue@));
                    assert(requested(j, q, self.jobs@, self.queue@));
                }
                let mut effects: Vec<Effect> = Vec::new();
                effects.push(
                    Effect::Publish(JobUpdate::State { id, kind, state: JobState::Cancelling }),
                );
                effects.push(Effect::Stop { id, run });
                assert(effects@ =~= seq![
                    announced(id, j[row(id)].moved(JobState::Cancelling)),
                    Effect::Stop { id, run },
                ]);
                Ok(effects)
            },
            JobState::Cancelling => Err(
                JobError::IllegalTransition {
                    id,
                    from: JobState::Cancelling.as_str(),
                    to: JobState::Cancelling.as_str(),
                },
            ),
        }
    }

    /// Pause a job between units of work. Only guided disaster recovery
    /// qualifies.
    ///
    /// Stopping the current unit of work is the checkpoint: the job stays
    /// paused, holding nothing, until it is resumed or cancelled.
    pub fn pause(&mut self, id: JobId) -> (result: Result<Vec<Effect>, JobError>)
        requires
            old(self).wf(),
        ensures
            final(self).wf(),
            old(self).operated(*final(self)),
            history_kept(old(self).jobs(), final(self).jobs()),
            final(self).jobs().len() == old(self).jobs().len(),
            result is Err ==> final(self).jobs() == old(self).jobs() && final(self).queue()
                == old(self).queue(),
            !known(old(self).jobs(), id) ==> result == Err::<Vec<Effect>, JobError>(
                JobError::NotFound(id),
            ),
            known(old(self).jobs(), id) ==> {
                let job = old(self).jobs()[row(id)];
                if job.kind != JobKind::RestoreEverything {
                    result matches Err(JobError::NotPausable { kind }) && kind@ == job.kind.name()
                } else if job.state.terminal() {
                    result == Err::<Vec<Effect>, JobError>(JobError::AlreadyFinished { id })
                } else if job.state is Running {
                    let paused = job.moved(JobState::Paused);
                    &&& result matches Ok(effects)
                    &&& final(self).settled_from(
                        old(self).jobs().update(row(id), paused),
                        old(self).queue(),
                        seq![announced(id, paused), Effect::Stop { id, run: job.run }],
                        effects@,
                    )
                } else {
                    &&& result matches Err(JobError::IllegalTransition { id: which, from, to })
                    &&& which == id
                    &&& from@ == job.state.name()
                    &&& to@ == JobState::Paused.name()
                }
            },
    {
        proof {
            lemma_idle(self.jobs@, self.queue@);
            assert(requested(self.jobs@, self.queue@, self.jobs@, self.queue@));
        }
        if !self.knows(id) {
            return Err(JobError::NotFound(id));
        }
        let i: usize = self.place(id);
        let kind = self.jobs[i].kind;
        let run: u64 = self.jobs[i].run;
        let ghost (j, q) = (self.jobs@, self.queue@);
        if !kind.is_pausable() {
            return Err(JobError::NotPausable { kind: kind.as_str() });
        }
        if self.jobs[i].state.is_terminal() {
            return Err(JobError::AlreadyFinished { id });
        }
        if !self.jobs[i].state.can_transition_to(&JobState::Paused) {
            return Err(
                JobError::IllegalTransition {
                    id,
                    from: self.jobs[i].state.as_str(),
                    to: JobState::Paused.as_str(),
                },
            );
        }
        proof {
            lemma_move(j, q, id, JobState::Paused);
        }
        self.put(id, JobState::Paused);
        let mut effects: Vec<Effect> = Vec::new();
        effects.push(Effect::Publish(JobUpdate::State { id, kind, state: JobState::Paused }));
        effects.push(Effect::Stop { id, run });
        assert(effects@ =~= seq![
            announced(id, j[row(id)].moved(JobState::Paused)),
            Effect::Stop { id, run },
        ]);
        let ghost middle = self.jobs@;
        assert(moves(j, q, id, JobState::Paused, middle, self.queue@));
        assert(requested(j, q, middle, self.queue@));
        self.pump(&mut effects);
        proof {
            lemma_history(j, middle, self.jobs@);
        }
        Ok(effects)
    }

    /// Put a paused job back in the queue.
    pub fn resume(&mut self, id: JobId) -> (result: Result<Vec<Effect>, JobError>)
        requires
            old(self).wf(),
        ensures
            final(self).wf(),
            old(self).operated(*final(self)),
            history_kept(old(self).jobs(), final(self).jobs()),
            final(self).jobs().len() == old(self).jobs().len(),
            result is Err ==> final(self).jobs() == old(self).jobs() && final(self).queue()
                == old(self).queue(),
            !known(old(self).jobs(), id) ==> result == Err::<Vec<Effect>, JobError>(
                JobError::NotFound(id),
            ),
            known(old(self).jobs(), id) ==> {
                let job = old(self).jobs()[row(id)];
                if job.state is Paused {
                    let queued = job.moved(JobState::Queued);
                    &&& result matches Ok(effects)
                    &&& final(self).settled_from(
                        old(self).jobs().update(row(id), queued),
                        old(self).queue().push(id),
                        seq![announced(id, queued)],
                        effects@,
                    )
                } else {
                    result == Err::<Vec<Effect>, JobError>(JobError::NotPaused { id })
                }
            },
    {
        proof {
            lemma_idle(self.jobs@, self.queue@);
            assert(requested(self.jobs@, self.queue@, self.jobs@, self.queue@));
        }
        if !self.knows(id) {
            return Err(JobError::NotFound(id));
        }
        let i: usize = self.place(id);
        let kind = self.jobs[i].kind;
        let ghost (j, q) = (self.jobs@, self.queue@);
        match &self.jobs[i].state {
            JobState::Paused => {},
            _ => {
                return Err(JobError::NotPaused { id });
            },
        }
        proof {
            lemma_enqueue_again(j, q, id);
        }
        self.put(id, JobState::Queued);
        self.queue.push(id);
        let mut effects: Vec<Effect> = Vec::new();
        effects.push(Effect::Publish(JobUpdate::State { id, kind, state: JobState::Queued }));
        assert(effects@ =~= seq![announced(id, j[row(id)].moved(JobState::Queued))]);
        let ghost middle = self.jobs@;
        assert(moves(j, q, id, JobState::Queued, middle, self.queue@));
        assert(requested(j, q, middle, self.queue@));
        self.pump(&mut effects);
        proof {
            lemma_history(j, middle, self.jobs@);
        }
        Ok(effects)
    }

    /// Take in that run `run` of a job has ended, and let the queue move on.
    ///
    /// Only the job's latest run can end it, and only while the job is at work:
    /// a run that was stopped by a pause leaves the job paused, or whatever it
    /// has become since.
    pub fn settle(&mut self, id: JobId, run: u64, ending: Ending) -> (effects: Vec<Effect>)
        requires
            old(self).wf(),
        ensures
            final(self).wf(),
            old(self).operated(*final(self)),
            history_kept(old(self).jobs(), final(self).jobs()),
            final(self).jobs().len() == old(self).jobs().len(),
            ({
                let job = old(self).jobs()[row(id)];
                let ended = job.moved(end_state(job.state, ending));
                if known(old(self).jobs(), id) && job.state.holds() && job.run == run {
                    final(self).settled_from(
                        old(self).jobs().update(row(id), ended),
                        old(self).queue(),
                        seq![announced(id, ended)],
                        effects@,
                    )
                } else {
                    &&& final(self).jobs() == old(self).jobs()
                    &&& final(self).queue() == old(self).queue()
                    &&& effects@.len() == 0
                }
            }),
    {
        let mut effects: Vec<Effect> = Vec::new();
        proof {
            lemma_idle(self.jobs@, self.queue@);
            assert(requested(self.jobs@, self.queue@, self.jobs@, self.queue@));
        }
        if !self.knows(id) {
            return effects;
        }
        let i: usize = self.place(id);
        let kind = self.jobs[i].kind;
        let ghost (j, q) = (self.jobs@, self.queue@);
        if self.jobs[i].run != run || !self.jobs[i].state.holds_repo() {
            return effects;
        }
        let state = match ending {
            Ending::Completed => JobState::Done(Outcome::Completed),
            Ending::Cancelled => JobState::Done(Outcome::Cancelled),
            Ending::Failed(error) => match &self.jobs[i].state {
                JobState::Cancelling => JobState::Done(Outcome::Cancelled),
                _ => JobState::Failed(error),
            },
        };
        assert(state == end_state(j[row(id)].state, ending));
        proof {
            lemma_move(j, q, id, state);
        }
        let told = state.clone();
        self.put(id, state);
        effects.push(Effect::Publish(JobUpdate::State { id, kind, state: told }));
        assert(effects@ =~= seq![announced(id, j[row(id)].moved(state))]);
        let ghost middle = self.jobs@;
        assert(moves(j, q, id, state, middle, self.queue@));
        assert(requested(j, q, middle, self.queue@));
        self.pump(&mut effects);
        proof {
            lemma_history(j, middle, self.jobs@);
        }
        effects
    }
}

/// Histories follow on from one another.
proof fn lemma_history(a: Seq<Job>, b: Seq<Job>, c: Seq<Job>)
    requires
        history_kept(a, b),
        history_kept(b, c),
    ensures
        history_kept(a, c),
{
    assert forall|i: int| 0 <= i < a.len() implies {
        &&& (#[trigger] c[i]).kind == a[i].kind
        &&& a[i].state.terminal() ==> c[i] == a[i]
        &&& a[i].state is Cancelling ==> c[i].state is Cancelling || c[i].state is Done
    } by {
        assert(b[i].kind == a[i].kind);
    }
}

/// A job that goes on holding the repository lets nobody in.
proof fn lemma_still_waiting(jobs: Seq<Job>, queue: Seq<JobId>, id: JobId, state: JobState)
    requires
        consistent(jobs, queue),
        nothing_waits_needlessly(jobs, queue),
        known(jobs, id),
        jobs[row(id)].state.holds(),
        state.holds(),
    ensures
        nothing_waits_needlessly(jobs.update(row(id), jobs[row(id)].moved(state)), queue),
{
    let j = jobs.update(row(id), jobs[row(id)].moved(state));
    assert forall|k: int| 0 <= k < queue.len() implies !admissible(
        j,
        j[row(#[trigger] queue[k])].kind.mode(),
    ) by {
        let mode = jobs[row(queue[k])].kind.mode();
        assert(known(jobs, queue[k]));
        assert(!admissible(jobs, mode));
        let i = choose|i: int|
            0 <= i < jobs.len() && (#[trigger] jobs[i]).state.holds() && !(mode
                == RepoAccess::Shared && jobs[i].kind.mode() == RepoAccess::Shared);
        assert(j[i].state.holds());
        assert(j[row(queue[k])].kind == jobs[row(queue[k])].kind);
    }
}

/// A writer has the repository to itself: of two jobs that hold it at once,
/// both only read.
pub proof fn a_writer_runs_alone(registry: JobRegistry, a: JobId, b: JobId)
    requires
        registry.wf(),
        known(registry.jobs(), a),
        known(registry.jobs(), b),
        a != b,
        registry.jobs()[row(a)].state.holds(),
        registry.jobs()[row(b)].state.holds(),
    ensures
        registry.jobs()[row(a)].kind.mode() == RepoAccess::Shared,
        registry.jobs()[row(b)].kind.mode() == RepoAccess::Shared,
{
}

/// A job waits only for somebody: while one is queued, some job holds the
/// repository, and one of the two is a writer.
pub proof fn a_queued_job_waits_for_somebody(registry: JobRegistry, id: JobId)
    requires
        registry.wf(),
        known(registry.jobs(), id),
        registry.jobs()[row(id)].state is Queued,
    ensures
        exists|i: int|
            {
                &&& 0 <= i < registry.jobs().len()
                &&& (#[trigger] registry.jobs()[i]).state.holds()
                &&& registry.jobs()[i].kind.mode() == RepoAccess::Exclusive
                    || registry.jobs()[row(id)].kind.mode() == RepoAccess::Exclusive
            },
{
    let (jobs, queue) = (registry.jobs(), registry.queue());
    assert((row(id) + 1) as u64 == id);
    assert(queue.contains(id));
    let k = choose|k: int| 0 <= k < queue.len() && queue[k] == id;
    assert(!admissible(jobs, jobs[row(queue[k])].kind.mode()));
}

/// What is over stays over, whatever is asked of the table, one request after
/// another.
pub proof fn an_ended_job_stays_ended(a: Seq<Job>, b: Seq<Job>, c: Seq<Job>, id: JobId)
    requires
        history_kept(a, b),
        history_kept(b, c),
        known(a, id),
        a[row(id)].state.terminal(),
    ensures
        history_kept(a, c),
        c[row(id)] == a[row(id)],
{
    lemma_history(a, b, c);
    assert(b[row(id)] == a[row(id)]);
    assert(c[row(id)] == b[row(id)]);
}

/// What admission does, whatever the table it finds: it starts queued jobs and no
/// others, so nothing that is paused or over is ever started by it; those that
/// hold the repository afterwards all read, or are a single writer; and nobody is
/// left in the queue whom the guard over those holders would admit, so a reader
/// may pass a waiting writer.
pub proof fn admission_starts_queued_jobs_and_all_it_may(jobs: Seq<Job>, queue: Seq<JobId>)
    requires
        consistent(jobs, queue),
    ensures
        ({
            let (j, q, _) = admitted(jobs, queue);
            &&& j.len() == jobs.len()
            &&& forall|i: int|
                0 <= i < jobs.len() ==> #[trigger] j[i] == jobs[i] || (jobs[i].state is Queued
                    && j[i] == jobs[i].started())
            &&& !holders(j).contains(RepoAccess::Exclusive) || holders(j).len() == 1
            &&& forall|k: int|
                0 <= k < q.len() ==> !may_start_beside(
                    holders(j),
                    j[row(#[trigger] q[k])].kind.mode(),
                )
        }),
    decreases queue.len(),
{
    let (j, q, _) = admitted(jobs, queue);
    lemma_admitted(jobs, queue);
    lemma_first_admissible(jobs, queue, 0);
    let at = first_admissible(jobs, queue, 0);
    if at < queue.len() {
        lemma_start_one(jobs, queue, at);
        let id = queue[at];
        assert(known(jobs, id) && jobs[row(id)].state is Queued);
        let next = jobs.update(row(id), jobs[row(id)].started());
        admission_starts_queued_jobs_and_all_it_may(next, queue.remove(at));
        assert forall|i: int| 0 <= i < jobs.len() implies #[trigger] j[i] == jobs[i] || (
        jobs[i].state is Queued && j[i] == jobs[i].started()) by {
            assert(j[i] == next[i] || (next[i].state is Queued && j[i] == next[i].started()));
        }
    }
    lemma_holders(j);
    lemma_holders_exclude(j);
    assert forall|k: int| 0 <= k < q.len() implies !may_start_beside(
        holders(j),
        j[row(#[trigger] q[k])].kind.mode(),
    ) by {
        assert(!admissible(j, j[row(q[k])].kind.mode()));
    }
}

/// A request leaves the table consistent.
proof fn lemma_requested(
    jobs: Seq<Job>,
    queue: Seq<JobId>,
    after: Seq<Job>,
    waiting: Seq<JobId>,
)
    requires
        consistent(jobs, queue),
        requested(jobs, queue, after, waiting),
    ensures
        consistent(after, waiting),
{
    if exists|kind: JobKind| adds(jobs, queue, kind, after, waiting) {
        let kind = choose|kind: JobKind| adds(jobs, queue, kind, after, waiting);
        lemma_enqueue_new(jobs, queue, kind);
    } else if !(after == jobs && waiting == queue) {
        let (id, state) = choose|id: JobId, state: JobState|
            moves(jobs, queue, id, state, after, waiting);
        match jobs[row(id)].state {
            JobState::Queued => {
                lemma_leave_queue(jobs, queue, id);
            },
            JobState::Paused => {
                if state is Queued {
                    lemma_enqueue_again(jobs, queue, id);
                } else {
                    lemma_leave_queue(jobs, queue, id);
                }
            },
            _ => {
                lemma_move(jobs, queue, id, state);
            },
        }
    }
}

/// Between any two operations the repository is safe.
pub proof fn a_table_between_operations_is_safe(registry: JobRegistry)
    requires
        registry.wf(),
    ensures
        registry.is_safe(),
{
    let (jobs, queue) = (registry.jobs(), registry.queue());
    lemma_holders(jobs);
    lemma_holders_exclude(jobs);
    assert forall|k: int| 0 <= k < queue.len() implies !may_start_beside(
        holders(jobs),
        jobs[row(#[trigger] queue[k])].kind.mode(),
    ) by {
        assert(!admissible(jobs, jobs[row(queue[k])].kind.mode()));
    }
}

/// After any history of submissions, cancellations, pauses, resumptions and ended
/// runs, from an empty table on, the jobs that hold the repository all read, or are
/// a single writer, and nobody is left waiting whom the guard over them would
/// admit.
pub proof fn any_history_keeps_the_repository_safe(history: Seq<JobRegistry>)
    requires
        history.len() > 0,
        history[0].jobs() == Seq::<Job>::empty(),
        history[0].queue() == Seq::<JobId>::empty(),
        forall|i: int|
            0 < i < history.len() ==> history[i - 1].operated(#[trigger] history[i]),
    ensures
        history.last().wf(),
        history.last().is_safe(),
    decreases history.len(),
{
    let last = history.last();
    if history.len() > 1 {
        let earlier = history.drop_last();
        assert forall|i: int| 0 < i < earlier.len() implies earlier[i - 1].operated(
            #[trigger] earlier[i],
        ) by {
            assert(history[i - 1].operated(history[i]));
        }
        any_history_keeps_the_repository_safe(earlier);
        let before = earlier.last();
        assert(before.operated(history[history.len() - 1]));
        let (jobs, waiting) = choose|jobs: Seq<Job>, waiting: Seq<JobId>|
            {
                &&& #[trigger] requested(before.jobs(), before.queue(), jobs, waiting)
                &&& (last.jobs(), last.queue()) == (
                    admitted(jobs, waiting).0,
                    admitted(jobs, waiting).1,
                )
            };
        lemma_requested(before.jobs(), before.queue(), jobs, waiting);
        lemma_admitted(jobs, waiting);
    }
    a_table_between_operations_is_safe(last);
}

/// How a run that ended leaves its job: what completed is completed, what was
/// stopped is cancelled, and what failed has failed with its own error, unless it
/// was being cancelled, for then it is cancelled and never failed.
pub proof fn a_job_ends_as_its_run_did(state: JobState, ending: Ending)
    ensures
        end_state(state, ending) == JobState::Done(Outcome::Completed) <==> ending
            == Ending::Completed,
        end_state(state, ending) == JobState::Done(Outcome::Cancelled) <==> ending
            == Ending::Cancelled || (ending is Failed && state is Cancelling),
        state is Cancelling ==> !(end_state(state, ending) is Failed),
        ending matches Ending::Failed(error) ==> !(state is Cancelling) ==> end_state(state, ending)
            == JobState::Failed(error),
        state is Running || state is Cancelling ==> state.may_become(end_state(state, ending)),
{
}

/// A start is a run of its own: the job keeps its kind, is at work, and its run has
/// another number than the one before, the next one while there is one.
pub proof fn a_start_is_a_run_of_its_own(job: Job)
    ensures
        job.started().kind == job.kind,
        job.started().state is Running,
        job.started().run != job.run,
        job.run < u64::MAX ==> job.started().run == job.run + 1,
        job.state is Queued ==> job.state.may_become(job.started().state),
        forall|state: JobState|
            (#[trigger] job.moved(state)).state == state && job.moved(state).kind == job.kind
                && job.moved(state).run == job.run,
{
}

/// Taking a job out of the queue leaves the others, in their order.
pub proof fn the_others_keep_their_place(queue: Seq<JobId>, id: JobId)
    ensures
        without(queue, id) == queue.filter(|other: JobId| other != id),
    decreases queue.len(),
{
    reveal(Seq::filter);
    if queue.len() > 0 {
        the_others_keep_their_place(queue.drop_last(), id);
    }
}

/// Whoever may start and came first is started first.
pub proof fn the_first_that_may_start_is_started(jobs: Seq<Job>, queue: Seq<JobId>, at: int)
    requires
        0 <= at < queue.len(),
        may_start_beside(holders(jobs), jobs[queue[at] - 1].kind.mode()),
        forall|k: int|
            0 <= k < at ==> !may_start_beside(
                holders(jobs),
                jobs[#[trigger] queue[k] - 1].kind.mode(),
            ),
    ensures
        admitted(jobs, queue).2.len() >= 2,
        admitted(jobs, queue).2[1] is Start,
        admitted(jobs, queue).2[1]->Start_id == queue[at],
{
    lemma_holders(jobs);
    lemma_first_admissible(jobs, queue, 0);
    let first = first_admissible(jobs, queue, 0);
    assert(admissible(jobs, jobs[row(queue[at])].kind.mode()));
    assert(first <= at);
    if first < at {
        assert(!may_start_beside(holders(jobs), jobs[queue[first] - 1].kind.mode()));
    }
}

/// Where nobody who waits may start, nothing happens.
pub proof fn where_nobody_may_start_nothing_happens(jobs: Seq<Job>, queue: Seq<JobId>)
    requires
        forall|k: int|
            0 <= k < queue.len() ==> !may_start_beside(
                holders(jobs),
                jobs[#[trigger] queue[k] - 1].kind.mode(),
            ),
    ensures
        admitted(jobs, queue) == (jobs, queue, Seq::<Effect>::empty()),
{
    lemma_holders(jobs);
    lemma_idle(jobs, queue);
}

/// Every start is announced and then made, and nothing else is: for each job that
/// leaves the queue its subscribers hear that it runs, and its engine is started as
/// what it is, under a new run.
pub proof fn every_start_is_announced(jobs: Seq<Job>, queue: Seq<JobId>)
    requires
        consistent(jobs, queue),
    ensures
        ({
            let (j, q, effects) = admitted(jobs, queue);
            &&& effects.len() == 2 * (queue.len() - q.len())
            &&& forall|k: int|
                0 <= k < queue.len() - q.len() ==> {
                    &&& (#[trigger] effects[2 * k + 1]) matches Effect::Start { id, kind, run }
                    &&& effects[2 * k] == Effect::Publish(
                        JobUpdate::State { id, kind, state: JobState::Running },
                    )
                    &&& queue.contains(id)
                    &&& !q.contains(id)
                    &&& kind == jobs[id - 1].kind
                    &&& run == j[id - 1].run
                    &&& run != jobs[id - 1].run
                    &&& j[id - 1].state is Running
                }
        }),
    decreases queue.len(),
{
    lemma_first_admissible(jobs, queue, 0);
    let at = first_admissible(jobs, queue, 0);
    let (j, q, effects) = admitted(jobs, queue);
    if at < queue.len() {
        lemma_start_one(jobs, queue, at);
        let id = queue[at];
        assert(known(jobs, id) && jobs[row(id)].state is Queued);
        let job = jobs[row(id)].started();
        let next = jobs.update(row(id), job);
        let left = queue.remove(at);
        every_start_is_announced(next, left);
        admission_starts_queued_jobs_and_all_it_may(next, left);
        lemma_left_are_waiting(next, left);
        let rest = admitted(next, left).2;
        assert(j[row(id)] == next[row(id)]);
        assert(effects =~= seq![
            announced(id, job),
            Effect::Start { id, kind: job.kind, run: job.run },
        ] + rest);
        assert(!left.contains(id)) by {
            assert forall|k: int| 0 <= k < left.len() implies left[k] != id by {
                assert(left[k] == queue[if k < at {
                    k
                } else {
                    k + 1
                }]);
            }
        }
        assert forall|k: int| 0 <= k < queue.len() - q.len() implies {
            &&& (#[trigger] effects[2 * k + 1]) matches Effect::Start { id, kind, run }
            &&& effects[2 * k] == Effect::Publish(
                JobUpdate::State { id, kind, state: JobState::Running },
            )
            &&& queue.contains(id)
            &&& !q.contains(id)
            &&& kind == jobs[id - 1].kind
            &&& run == j[id - 1].run
            &&& run != jobs[id - 1].run
            &&& j[id - 1].state is Running
        } by {
            if k == 0 {
                assert(queue.contains(id));
                if q.contains(id) {
                    let m = choose|m: int| 0 <= m < q.len() && q[m] == id;
                    assert(left.contains(q[m]));
                }
            } else {
                assert(effects[2 * k + 1] == rest[2 * (k - 1) + 1]);
                assert(effects[2 * k] == rest[2 * (k - 1)]);
                let which = rest[2 * (k - 1) + 1]->Start_id;
                assert(left.contains(which));
                let m = choose|m: int| 0 <= m < left.len() && left[m] == which;
                let b = if m < at {
                    m
                } else {
                    m + 1
                };
                assert(left[m] == queue[b]);
                assert(queue[b] != queue[at]);
                assert(known(jobs, queue[b]));
            }
        }
    }
}

/// Who is left waiting was waiting before.
proof fn lemma_left_are_waiting(jobs: Seq<Job>, queue: Seq<JobId>)
    ensures
        forall|k: int|
            0 <= k < admitted(jobs, queue).1.len() ==> queue.contains(
                #[trigger] admitted(jobs, queue).1[k],
            ),
        admitted(jobs, queue).1.len() <= queue.len(),
    decreases queue.len(),
{
    lemma_first_admissible(jobs, queue, 0);
    let at = first_admissible(jobs, queue, 0);
    if at < queue.len() {
        let id = queue[at];
        let left = queue.remove(at);
        lemma_left_are_waiting(jobs.update(row(id), jobs[row(id)].started()), left);
        let q = admitted(jobs, queue).1;
        assert forall|k: int| 0 <= k < q.len() implies queue.contains(#[trigger] q[k]) by {
            assert(left.contains(q[k]));
            let m = choose|m: int| 0 <= m < left.len() && left[m] == q[k];
            assert(left[m] == queue[if m < at {
                m
            } else {
                m + 1
            }]);
        }
    }
}

/// A change of state is announced as it is: of which job, of what kind, and to which
/// state.
pub proof fn a_change_is_announced_as_it_is(id: JobId, job: Job)
    ensures
        announced(id, job) == Effect::Publish(
            JobUpdate::State { id, kind: job.kind, state: job.state },
        ),
{
}

/// A job that is taken in has the next number, is announced as queued before anything
/// else happens, and is then waiting or at work, as what it is; and of the jobs that
/// were there, only ones that waited have changed, by being started.
pub proof fn a_job_is_taken_in_under_the_next_number(
    before: JobRegistry,
    kind: JobKind,
    after: JobRegistry,
    id: JobId,
    effects: Seq<Effect>,
)
    requires
        before.wf(),
        before.jobs().len() < u64::MAX,
        before.takes_in(kind, after, id, effects),
    ensures
        id == before.jobs().len() + 1,
        after.jobs().len() == id,
        effects.len() > 0,
        effects[0] == Effect::Publish(JobUpdate::State { id, kind, state: JobState::Queued }),
        after.jobs()[id - 1].kind == kind,
        after.jobs()[id - 1].state is Queued || after.jobs()[id - 1].state is Running,
        forall|i: int|
            0 <= i < before.jobs().len() ==> #[trigger] after.jobs()[i] == before.jobs()[i] || (
            before.jobs()[i].state is Queued && after.jobs()[i].state is Running
                && after.jobs()[i].kind == before.jobs()[i].kind),
        (forall|i: int|
            0 <= i < before.jobs().len() ==> !(#[trigger] before.jobs()[i]).state.holds())
            ==> after.jobs()[id - 1].state is Running,
{
    let (jobs, queue) = (before.jobs(), before.queue());
    let job = Job { kind, state: JobState::Queued, run: 0 };
    lemma_enqueue_new(jobs, queue, kind);
    let (j, q) = (jobs.push(job), queue.push(id));
    admission_starts_queued_jobs_and_all_it_may(j, q);
    assert(after.jobs()[id - 1] == j[id - 1] || after.jobs()[id - 1] == j[id - 1].started());
    assert forall|i: int| 0 <= i < jobs.len() implies #[trigger] after.jobs()[i] == jobs[i] || (
    jobs[i].state is Queued && after.jobs()[i].state is Running && after.jobs()[i].kind
        == jobs[i].kind) by {
        assert(j[i] == jobs[i]);
    }
    if forall|i: int| 0 <= i < jobs.len() ==> !(#[trigger] jobs[i]).state.holds() {
        lemma_idle_has_no_queue(jobs, queue);
        assert forall|i: int| 0 <= i < j.len() implies !(#[trigger] j[i]).state.holds() by {
            if i < jobs.len() {
                assert(j[i] == jobs[i]);
            }
        }
        assert(q[0] == id);
        assert(j[row(id)].kind == kind);
        assert(admissible(j, kind.mode()));
        assert(first_admissible(j, q, 0) == 0);
        let next = j.update(row(id), job.started());
        assert(q.remove(0) =~= Seq::<JobId>::empty());
        assert(admitted(next, q.remove(0)).0 == next);
        assert(after.jobs() == next);
    }
}

/// While nothing holds the repository, nobody waits.
proof fn lemma_idle_has_no_queue(jobs: Seq<Job>, queue: Seq<JobId>)
    requires
        nothing_waits_needlessly(jobs, queue),
        forall|i: int| 0 <= i < jobs.len() ==> !(#[trigger] jobs[i]).state.holds(),
    ensures
        queue.len() == 0,
{
    if queue.len() > 0 {
        assert(admissible(jobs, jobs[row(queue[0])].kind.mode()));
    }
}

} // verus!
