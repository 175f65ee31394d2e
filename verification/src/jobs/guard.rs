//! Admission control for the repository.
//!
//! Writers need the repository to themselves; readers share it. The guard
//! models that rule a step before the backup program's own lock does, so two
//! jobs that would collide are queued rather than started and failed. Nothing
//! waits in here: [`RepoGuard::admits`] answers a question about a set of
//! running jobs, and the registry does the queuing.

use vstd::prelude::*;

verus! {

/// How a job uses the repository.
#[derive(Debug, Clone, Copy, PartialEq, Eq, Structural)]
pub enum RepoAccess {
    /// Rewrites the repository; nothing else may run.
    Exclusive,
    /// Reads the repository; may run beside other readers.
    Shared,
}

/// What is currently holding the repository.
#[derive(Debug, Clone, Copy, PartialEq, Eq, Structural)]
pub struct RepoGuard {
    exclusive: bool,
    shared: usize,
}

impl View for RepoGuard {
    /// Whether a writer holds the repository, and how many readers do.
    type V = (bool, nat);

    closed spec fn view(&self) -> (bool, nat) {
        (self.exclusive, self.shared as nat)
    }
}

/// How many of the holders are readers.
pub open spec fn readers(running: Seq<RepoAccess>) -> nat
    decreases running.len(),
{
    if running.len() == 0 {
        0
    } else {
        readers(running.drop_last()) + if running.last() == RepoAccess::Shared {
            1nat
        } else {
            0nat
        }
    }
}

/// Whether a job wanting `access` may start beside `running`: a writer beside
/// nothing at all, a reader beside anything that is not a writer.
pub open spec fn may_start_beside(running: Seq<RepoAccess>, access: RepoAccess) -> bool {
    match access {
        RepoAccess::Exclusive => running.len() == 0,
        RepoAccess::Shared => !running.contains(RepoAccess::Exclusive),
    }
}

impl Default for RepoGuard {
    fn default() -> (guard: RepoGuard)
        ensures
            guard@ == (false, 0nat),
    {
        RepoGuard { exclusive: false, shared: 0 }
    }
}

impl RepoGuard {
    /// A guard holding nothing.
    pub fn new() -> (guard: RepoGuard)
        ensures
            guard@ == (false, 0nat),
    {
        RepoGuard { exclusive: false, shared: 0 }
    }

    /// Rebuild the guard from the access modes of everything running.
    pub fn from_running(running: &Vec<RepoAccess>) -> (guard: RepoGuard)
        ensures
            guard@ == (running@.contains(RepoAccess::Exclusive), readers(running@)),
            forall|access: RepoAccess| guard.allows(access) == may_start_beside(running@, access),
    {
        let mut guard = RepoGuard::new();
        let mut i: usize = 0;
        while i < running.len()
            invariant
                i <= running@.len(),
                guard@ == (
                    running@.take(i as int).contains(RepoAccess::Exclusive),
                    readers(running@.take(i as int)),
                ),
                guard@.1 <= i,
                guard@.0 || guard@.1 == i,
            decreases running@.len() - i,
        {
            let ghost before = running@.take(i as int);
            let ghost after = running@.take(i + 1);
            assert(after.drop_last() =~= before);
            assert(after =~= before.push(running@[i as int]));
            assert(after.contains(RepoAccess::Exclusive) == (before.contains(RepoAccess::Exclusive)
                || running@[i as int] == RepoAccess::Exclusive)) by {
                if before.contains(RepoAccess::Exclusive) {
                    let k = choose|k: int|
                        0 <= k < before.len() && before[k] == RepoAccess::Exclusive;
                    assert(after[k] == RepoAccess::Exclusive);
                }
                assert(after[i as int] == running@[i as int]);
            }
            guard.acquire(running[i]);
            i += 1;
        }
        assert(running@.take(i as int) =~= running@);
        proof {
            if running@.len() > 0 && !running@.contains(RepoAccess::Exclusive) {
                assert(guard@.1 == running@.len());
            }
        }
        guard
    }

    /// Whether the guard allows a job wanting `access`.
    pub open spec fn allows(self, access: RepoAccess) -> bool {
        match access {
            RepoAccess::Exclusive => !self@.0 && self@.1 == 0,
            RepoAccess::Shared => !self@.0,
        }
    }

    /// Whether a job wanting `access` may start now.
    pub fn admits(&self, access: RepoAccess) -> (admitted: bool)
        ensures
            admitted == self.allows(access),
    {
        match access {
            // A writer needs the repository to itself.
            RepoAccess::Exclusive => !self.exclusive && self.shared == 0,
            // Readers coexist, but never with a writer.
            RepoAccess::Shared => !self.exclusive,
        }
    }

    /// Record that a job holding `access` has started.
    pub fn acquire(&mut self, access: RepoAccess)
        requires
            access == RepoAccess::Shared ==> old(self)@.1 < usize::MAX,
        ensures
            final(self)@ == match access {
                RepoAccess::Exclusive => (true, old(self)@.1),
                RepoAccess::Shared => (old(self)@.0, old(self)@.1 + 1),
            },
    {
        match access {
            RepoAccess::Exclusive => {
                self.exclusive = true;
            },
            RepoAccess::Shared => {
                self.shared = self.shared + 1;
            },
        }
    }

    /// Whether nothing at all holds the repository.
    pub fn is_idle(&self) -> (idle: bool)
        ensures
            idle == (self@ == (false, 0nat)),
    {
        !self.exclusive && self.shared == 0
    }
}

/// Two jobs run beside each other only if both read, whichever came first, and
/// what reads runs beside any number of others that do.
pub proof fn only_readers_run_beside_each_other(running: Seq<RepoAccess>, access: RepoAccess)
    ensures
        may_start_beside(running, access) && running.len() > 0 ==> access == RepoAccess::Shared
            && forall|i: int| 0 <= i < running.len() ==> #[trigger] running[i] == RepoAccess::Shared,
        running.len() == 0 ==> may_start_beside(running, access),
        access == RepoAccess::Shared && (forall|i: int|
            0 <= i < running.len() ==> #[trigger] running[i] == RepoAccess::Shared)
            ==> may_start_beside(running, access),
{
    if may_start_beside(running, access) && running.len() > 0 {
        assert forall|i: int| 0 <= i < running.len() implies #[trigger] running[i]
            == RepoAccess::Shared by {
            if running[i] == RepoAccess::Exclusive {
                assert(running.contains(RepoAccess::Exclusive));
            }
        }
    }
}

/// What the guard admits stands to reason with what it holds: a writer only where
/// nothing holds the repository, a reader wherever no writer does.
pub proof fn a_guard_admits_what_can_run_beside(guard: RepoGuard)
    ensures
        guard.allows(RepoAccess::Exclusive) <==> guard@ == (false, 0nat),
        guard.allows(RepoAccess::Shared) <==> !guard@.0,
        guard.allows(RepoAccess::Exclusive) ==> guard.allows(RepoAccess::Shared),
{
}

/// The readers are counted one by one.
pub proof fn every_reader_is_counted(running: Seq<RepoAccess>)
    ensures
        readers(running) == running.filter(|access: RepoAccess| access == RepoAccess::Shared).len(),
    decreases running.len(),
{
    reveal(Seq::filter);
    if running.len() > 0 {
        every_reader_is_counted(running.drop_last());
    }
}

} // verus!
