//! What the daemon knows, and what follows from it.
//!
//! Everything the interface reads and writes is here, as plain values. Each
//! operation says how the values change and what is left to be done outside:
//! which job to start, which line to log, whom to wake.

use vstd::prelude::*;

use crate::jobs::{Effect, Job, JobId, JobKind, JobRegistry, JobState, Outcome};
use crate::offline::{count_marked, LocalProtection, LocalRow, Mode};
#[allow(unused_imports)]
use crate::offline::marked;
use crate::pipeline::naming;
#[allow(unused_imports)]
use crate::pipeline::naming::{backup_prefix, clock_has_room, first_free};
use crate::preflight::{self, Facts, Skip, Verdict};
use crate::reachability::Reach;
use crate::schedule::{self, ScheduleInput};
use crate::service::config::{
    changes, create_spec, effective_excludes, prune_policy, Changes, Compression, Config,
    CreateSpec, Layout, PrunePolicy,
};
use crate::service::error::{DaemonError, Result};
use crate::service::health::{self, HealthInputs, HealthState};
use crate::service::preview::without_engine;
#[allow(unused_imports)]
use crate::service::preview::no_destination;
use crate::service::state::{from_epoch, next_due, to_epoch, PauseState};
#[allow(unused_imports)]
use crate::service::state::{in_force, on_the_wire};
use crate::text;
#[allow(unused_imports)]
use crate::text::{told_of, views};
use crate::time::{Span, Timestamp};
#[allow(unused_imports)]
use crate::time::{end_of_time, seconds, seconds_since_epoch};

verus! {

/// Bookkeeping that survives a restart, in seconds since the epoch.
#[derive(Debug, Clone, Copy, PartialEq, Eq, Structural)]
pub struct RuntimeState {
    /// When the user's pause lifts.
    pub paused_until: Option<u64>,
    /// When a scheduled backup was last attempted.
    pub last_attempt: Option<u64>,
    /// When the repository was last compacted.
    pub last_compact: Option<u64>,
}

/// Whether a recorded number of seconds is one the clock can show.
pub open spec fn on_the_clock(recorded: Option<u64>) -> bool {
    recorded is Some ==> recorded->0 <= i64::MAX
}

impl RuntimeState {
    /// Whether everything recorded is a time the clock can show.
    pub open spec fn wf(self) -> bool {
        &&& on_the_clock(self.paused_until)
        &&& on_the_clock(self.last_attempt)
        &&& on_the_clock(self.last_compact)
    }

    /// Nothing recorded.
    pub fn new() -> (state: RuntimeState)
        ensures
            state == nothing_recorded(),
    {
        RuntimeState { paused_until: None, last_attempt: None, last_compact: None }
    }
}

/// A daemon's bookkeeping before anything has happened.
pub open spec fn nothing_recorded() -> RuntimeState {
    RuntimeState { paused_until: None, last_attempt: None, last_compact: None }
}

/// A point in time as it is recorded; a time before the epoch is not.
pub open spec fn recorded(time: int) -> Option<u64> {
    if time < 0 {
        None
    } else {
        Some(seconds_since_epoch(time) as u64)
    }
}

/// A point in time as it is recorded.
pub fn record(time: Timestamp) -> (secs: Option<u64>)
    ensures
        secs == recorded(time@),
        on_the_clock(secs),
{
    if time.is_before(Timestamp::from_secs(0)) {
        None
    } else {
        Some(time.epoch_secs())
    }
}

/// The point in time that was recorded.
pub open spec fn recalled(secs: Option<u64>) -> Option<int> {
    match secs {
        Some(s) => Some(seconds(s as int)),
        None => None,
    }
}

/// A point in time, by its distance from the epoch.
pub open spec fn at(time: Option<Timestamp>) -> Option<int> {
    match time {
        Some(t) => Some(t@),
        None => None,
    }
}

/// The point in time that was recorded.
pub fn recall(secs: Option<u64>) -> (time: Option<Timestamp>)
    requires
        on_the_clock(secs),
    ensures
        at(time) == recalled(secs),
{
    match secs {
        Some(s) => Some(Timestamp::from_secs(s as i64)),
        None => None,
    }
}

/// What the daemon knows.
#[derive(Debug)]
pub struct Shared {
    pub config: Config,
    pub layout: Layout,
    pub pause: PauseState,
    pub jobs: JobRegistry,
    /// Whether there is an engine for the configured repository.
    pub has_engine: bool,
    /// Whether the catalogue is open for writing.
    pub has_catalogue: bool,
    /// The archive that the latest backup was told to write.
    pub last_archive: Option<String>,
    /// The last backup that succeeded anywhere.
    pub last_backup: Option<Timestamp>,
    /// A failure stops backups until the user acts.
    pub blocking_failure: bool,
    /// Whether the destination answered last time somebody looked.
    pub destination_reachable: bool,
    pub persisted: RuntimeState,
    /// The local disk is low enough to mention.
    pub needs_attention: bool,
    /// The last reason for a skip that was announced, so that it is said once.
    pub last_skip: Option<Skip>,
    /// How this machine protects changes, once it has been found out.
    pub offline_mode: Option<Mode>,
    /// Local protection could not run at all.
    pub offline_broken: bool,
    /// The spool is at its limit.
    pub offline_degraded: bool,
}

/// Whether any job is running or waiting to run.
pub open spec fn any_unfinished(jobs: Seq<Job>) -> bool {
    exists|i: int| 0 <= i < jobs.len() && !(#[trigger] jobs[i]).state.terminal()
}

/// The first job that is running, or 0.
pub open spec fn first_running(jobs: Seq<Job>, from: int) -> int
    decreases jobs.len() - from,
{
    if from < 0 || from >= jobs.len() {
        0
    } else if jobs[from].state is Running {
        from + 1
    } else {
        first_running(jobs, from + 1)
    }
}

/// What was seen of the machine and of the destination before a scheduled
/// backup.
#[derive(Debug, Clone, Copy, PartialEq, Eq)]
pub struct Seen {
    /// Whether the machine runs on battery, if anything can say.
    pub on_battery: Option<bool>,
    /// Whether the connection is metered, if anything can say.
    pub metered: Option<bool>,
    /// What one look at the destination found.
    pub reach: Reach,
    /// Whether the destination is a share mounted from the network.
    pub network_mounted: bool,
    /// The room left on this computer, if it could be asked.
    pub free_local_bytes: Option<u64>,
}

/// What a scheduled run comes to.
#[derive(Debug, Clone, Copy, PartialEq, Eq, Structural)]
pub enum Plan {
    /// Back up.
    Backup,
    /// The destination is away: protect changes here.
    Protect,
    /// Not now.
    Wait,
}

/// Why a verdict keeps a backup from running.
pub open spec fn reason_of(verdict: Verdict) -> Option<Skip> {
    match verdict {
        Verdict::Go => None,
        Verdict::Skip(skip) => Some(skip),
    }
}

/// What is said of a verdict, given what was said last: nothing when nothing has
/// changed.
pub open spec fn announcement(last: Option<Skip>, reason: Option<Skip>) -> Option<Seq<char>> {
    if last == reason {
        None
    } else {
        match reason {
            Some(skip) => Some("scheduled backup skipped: "@ + skip.sentence()),
            None => Some("the condition that was holding backups up has cleared"@),
        }
    }
}

/// A backup that has been queued.
#[derive(Debug)]
pub struct QueuedBackup {
    pub job: JobId,
    pub spec: CreateSpec,
    /// Retention is applied as part of the backup: a repository is only ever over
    /// its policy in the moment after one.
    pub prune: PrunePolicy,
    pub effects: Vec<Effect>,
}

/// What local protection walks.
#[derive(Debug, PartialEq, Eq)]
pub struct WalkSpec {
    pub sources: Vec<String>,
    pub excludes: Vec<String>,
    pub one_file_system: bool,
    /// Directories that would feed the walk its own output.
    pub never: Vec<String>,
    /// Whether directories are listed too.
    pub include_dirs: bool,
}

impl WalkSpec {
    /// Whether two walks cover the same.
    pub open spec fn same(self, other: WalkSpec) -> bool {
        &&& self.sources@ == other.sources@
        &&& self.excludes@ == other.excludes@
        &&& self.one_file_system == other.one_file_system
        &&& self.never@ == other.never@
        &&& self.include_dirs == other.include_dirs
    }

    /// The same walk once more.
    pub fn copy(&self) -> (copy: WalkSpec)
        ensures
            copy.same(*self),
    {
        WalkSpec {
            sources: text::copies(&self.sources),
            excludes: text::copies(&self.excludes),
            one_file_system: self.one_file_system,
            never: text::copies(&self.never),
            include_dirs: self.include_dirs,
        }
    }
}

/// How changes are going to be protected.
#[derive(Debug, PartialEq, Eq)]
pub enum Protection {
    /// By a snapshot of this subvolume.
    Snapshot { subvolume: String },
    /// By an archive in the spool, inside this limit.
    Spool { compression: Compression, cap_bytes: u64 },
}

/// A local backup that has been queued.
#[derive(Debug)]
pub struct QueuedProtection {
    pub job: JobId,
    pub protection: Protection,
    pub walk: WalkSpec,
    pub created_at: Timestamp,
    pub effects: Vec<Effect>,
}

/// Whether local protection has anything to do.
#[derive(Debug, PartialEq, Eq)]
pub enum OfflineGate {
    /// It is switched off, or there is nothing to protect.
    Nothing,
    /// How this machine protects changes has to be found out first.
    Detect,
    /// Protect changes in this way.
    Ready(Mode),
}

/// What a job does when the destination's reachability changes.
#[derive(Debug, Clone, Copy, PartialEq, Eq, Structural)]
pub enum Transition {
    /// It came back: back up now and not at the next tick, then let the scheduler
    /// reconsider.
    CatchUp,
    /// It went away: bring the schedule round, which starts local protection.
    WakeScheduler,
}

/// The status a client is told.
#[derive(Debug, PartialEq, Eq)]
pub struct Status {
    pub state: String,
    pub last_backup: u64,
    pub next_backup: u64,
    pub destination_reachable: bool,
    pub spool_bytes: u64,
    pub offline_mode: String,
    pub local_snapshots: u32,
    pub expirable_snapshots: u32,
    pub active_job: u64,
    pub paused_until: u64,
    pub configured: bool,
}

/// Whether an error says that the catalogue is not open.
pub open spec fn no_catalogue(error: DaemonError) -> bool {
    error is NotConfigured && error.words() == "the catalogue is not open"@
}

/// The error for an operation that needs the catalogue when it is not open.
fn without_catalogue() -> (error: DaemonError)
    ensures
        no_catalogue(error),
{
    DaemonError::NotConfigured("the catalogue is not open".to_owned())
}

impl Shared {
    /// What holds between any two operations.
    pub open spec fn wf(self) -> bool {
        &&& self.jobs.wf()
        &&& self.persisted.wf()
    }

    /// Whether everything but the table of jobs is as in another state.
    pub open spec fn keeps_all_but_jobs(self, before: Shared) -> bool {
        self == (Shared { jobs: self.jobs, ..before })
    }

    /// A daemon that has just started: nothing known, and the destination taken to
    /// be there until somebody looks.
    pub fn new(config: Config, layout: Layout) -> (shared: Shared)
        ensures
            shared.wf(),
            shared.config == config,
            shared.layout == layout,
            shared.jobs.jobs().len() == 0,
            shared.pause@ is None,
            !shared.has_engine,
            !shared.has_catalogue,
            shared.last_archive is None,
            shared.last_backup is None,
            !shared.blocking_failure,
            shared.destination_reachable,
            shared.persisted == nothing_recorded(),
            !shared.needs_attention,
            shared.last_skip is None,
            shared.offline_mode is None,
            !shared.offline_broken,
            !shared.offline_degraded,
    {
        Shared {
            config,
            layout,
            pause: PauseState::default(),
            jobs: JobRegistry::new(),
            has_engine: false,
            has_catalogue: false,
            last_archive: None,
            last_backup: None,
            blocking_failure: false,
            destination_reachable: true,
            persisted: RuntimeState::new(),
            needs_attention: false,
            last_skip: None,
            offline_mode: None,
            offline_broken: false,
            offline_degraded: false,
        }
    }

    /// Whether any job is running or waiting to run.
    pub fn busy(&self) -> (busy: bool)
        requires
            self.wf(),
        ensures
            busy == any_unfinished(self.jobs.jobs()),
            !busy <==> forall|i: int|
                0 <= i < self.jobs.jobs().len() ==> (#[trigger] self.jobs.jobs()[i]).state is Done
                    || self.jobs.jobs()[i].state is Failed,
    {
        let all = self.jobs.list();
        let mut i: usize = 0;
        while i < all.len()
            invariant
                i <= all@.len() == self.jobs.jobs().len(),
                forall|k: int|
                    0 <= k < all@.len() ==> (#[trigger] all@[k]).state
                        == self.jobs.jobs()[k].state,
                forall|k: int|
                    0 <= k < i ==> (#[trigger] self.jobs.jobs()[k]).state.terminal(),
            decreases all@.len() - i,
        {
            if !all[i].state.is_terminal() {
                assert(!self.jobs.jobs()[i as int].state.terminal());
                return true;
            }
            assert(all@[i as int].state == self.jobs.jobs()[i as int].state);
            i += 1;
        }
        false
    }

    /// The id of whatever is running now, or 0.
    pub fn active_job(&self) -> (id: u64)
        requires
            self.wf(),
        ensures
            id == first_running(self.jobs.jobs(), 0),
            id > 0 ==> id <= self.jobs.jobs().len() && self.jobs.jobs()[id - 1].state is Running,
            forall|i: int|
                0 <= i < self.jobs.jobs().len() && (#[trigger] self.jobs.jobs()[i]).state is Running
                    ==> 0 < id <= i + 1,
    {
        proof {
            the_active_job_is_the_first_at_work(self.jobs.jobs(), 0);
        }

        let all = self.jobs.list();
        let mut i: usize = 0;
        while i < all.len()
            invariant
                i <= all@.len() == self.jobs.jobs().len(),
                forall|k: int|
                    0 <= k < all@.len() ==> (#[trigger] all@[k]).state
                        == self.jobs.jobs()[k].state && all@[k].id == (k + 1) as u64,
                self.jobs.wf(),
                first_running(self.jobs.jobs(), i as int) == first_running(self.jobs.jobs(), 0),
            decreases all@.len() - i,
        {
            match all[i].state {
                JobState::Running => {
                    assert(self.jobs.jobs()[i as int].state is Running);
                    assert(all@[i as int].id == i + 1);
                    proof {
                        the_active_job_is_the_first_at_work(self.jobs.jobs(), 0);
                    }
                    return all[i].id;
                },
                _ => {
                    assert(!(self.jobs.jobs()[i as int].state is Running));
                },
            }
            i += 1;
        }
        0
    }

    /// The facts the schedule is decided from.
    ///
    /// `development` and `dev_interval` are as in [`schedule::interval_for`].
    pub fn schedule_input(
        &self,
        now: Timestamp,
        development: bool,
        dev_interval: Option<&str>,
    ) -> (input: ScheduleInput)
        requires
            self.wf(),
        ensures
            schedule::is_interval(
                self.config.interval,
                development,
                text::chars_of(dev_interval),
                input.interval,
            ),
            at(input.last_attempt) == recalled(self.persisted.last_attempt),
            input.paused_until == in_force(self.pause@, now@),
            input.configured == (self.config.repository is Some),
            input.busy == any_unfinished(self.jobs.jobs()),
    {
        ScheduleInput {
            interval: schedule::interval_for(self.config.interval, development, dev_interval),
            last_attempt: recall(self.persisted.last_attempt),
            paused_until: self.pause.until(now),
            configured: self.config.is_configured(),
            busy: self.busy(),
        }
    }

    /// Whether the local safety net is in a position to protect anything: it is
    /// switched on and has not failed.
    pub open spec fn protects_locally(self) -> bool {
        self.config.offline_enabled && !self.offline_broken
    }

    /// Whether the local safety net is in a position to protect anything.
    pub fn offline_protection_active(&self) -> (active: bool)
        ensures
            active == self.protects_locally(),
            active == (self.config.offline_enabled && !self.offline_broken),
    {
        self.config.offline_enabled && !self.offline_broken
    }

    /// The facts that health is computed from.
    pub open spec fn health_facts(self, now: int) -> HealthInputs {
        HealthInputs {
            blocking_failure: self.blocking_failure,
            paused_until: in_force(self.pause@, now),
            destination_reachable: self.destination_reachable,
            offline_protection_active: self.protects_locally(),
            last_success: self.last_backup,
            frequency: self.config.interval,
            needs_attention: self.needs_attention || self.offline_degraded,
        }
    }

    /// The current health state, computed from the facts.
    pub fn health(&self, now: Timestamp) -> (state: HealthState)
        ensures
            state == self.health_facts(now@).state(now@),
    {
        let inputs = HealthInputs {
            blocking_failure: self.blocking_failure,
            paused_until: self.pause.until(now),
            destination_reachable: self.destination_reachable,
            offline_protection_active: self.offline_protection_active(),
            last_success: self.last_backup,
            frequency: self.config.interval,
            needs_attention: self.needs_attention || self.offline_degraded,
        };
        health::evaluate(&inputs, now)
    }

    /// Whether a daemon becomes `after` when it takes on, at `now`, the bookkeeping
    /// that an earlier one left.
    pub open spec fn adopts(self, state: RuntimeState, now: int, after: Shared) -> bool {
        let until = recalled(state.paused_until);
        &&& if until is Some && until->0 > now {
            at(after.pause@) == until
        } else {
            after.pause == self.pause
        }
        &&& after == (Shared { persisted: state, pause: after.pause, ..self })
    }

    /// Whether a daemon becomes `after` when it is paused until `until`, in seconds
    /// since the epoch.
    pub open spec fn pauses(self, until: u64, after: Shared) -> bool {
        &&& at(after.pause@) == Some(seconds(until as int))
        &&& after == (Shared {
            pause: after.pause,
            persisted: RuntimeState { paused_until: Some(until), ..self.persisted },
            ..self
        })
    }

    /// Take on the bookkeeping that an earlier daemon left. A pause that ran out
    /// while none was running has expired: honouring it now would extend it by
    /// the downtime.
    pub fn adopt_state(&mut self, state: RuntimeState, now: Timestamp)
        requires
            old(self).wf(),
            state.wf(),
        ensures
            final(self).wf(),
            old(self).adopts(state, now@, *final(self)),
    {
        match recall(state.paused_until) {
            Some(until) => {
                if now.is_before(until) {
                    self.pause.pause_until(until);
                }
            },
            None => {},
        }
        self.persisted = state;
    }

    /// Pause scheduled backups until `until`, in seconds since the epoch. There is
    /// no way to say "off for good".
    pub fn pause(&mut self, until: u64, now: Timestamp) -> (result: Result<()>)
        requires
            old(self).wf(),
            until <= i64::MAX,
        ensures
            final(self).wf(),
            result is Ok <==> until > 0 && seconds(until as int) > now@,
            result is Ok ==> old(self).pauses(until, *final(self)),
            result matches Err(error) ==> {
                &&& error is InvalidArgument
                &&& error.words() == "pause needs a time in the future"@
                &&& *final(self) == *old(self)
            },
    {
        let lifts = match from_epoch(until) {
            Some(lifts) => lifts,
            None => {
                return Err(
                    DaemonError::InvalidArgument("pause needs a time in the future".to_owned()),
                );
            },
        };
        if !now.is_before(lifts) {
            return Err(
                DaemonError::InvalidArgument("pause needs a time in the future".to_owned()),
            );
        }
        self.pause.pause_until(lifts);
        self.persisted.paused_until = record(lifts);
        assert(seconds_since_epoch(lifts@) == until);
        Ok(())
    }

    /// Resume scheduled backups.
    pub fn resume(&mut self)
        requires
            old(self).wf(),
        ensures
            final(self).wf(),
            final(self).pause@ is None,
            final(self).persisted == (RuntimeState { paused_until: None, ..old(self).persisted }),
            *final(self) == (Shared {
                pause: final(self).pause,
                persisted: final(self).persisted,
                ..*old(self)
            }),
    {
        self.pause.resume();
        self.persisted.paused_until = None;
    }

    /// Log a preflight outcome, but only when it differs from the last one: a
    /// laptop on battery all afternoon says so once.
    pub fn announce_skip(&mut self, reason: Option<Skip>) -> (line: Option<String>)
        ensures
            told_of(line) == announcement(old(self).last_skip, reason),
            *final(self) == (Shared { last_skip: reason, ..*old(self) }),
    {
        let last = self.last_skip;
        if last == reason {
            return None;
        }
        self.last_skip = reason;
        match reason {
            Some(skip) => Some(
                text::joined("scheduled backup skipped: ", skip.explain().as_str()),
            ),
            None => Some("the condition that was holding backups up has cleared".to_owned()),
        }
    }

    /// The repository as it is written, or nothing where none is configured.
    pub open spec fn repository_text(self) -> Seq<char> {
        match self.config.repository {
            Some(repository) => repository@,
            None => Seq::empty(),
        }
    }

    /// Everything a scheduled backup is decided from: what was seen of the
    /// machine, what the settings allow, and whether a pause is in force.
    pub fn preflight_facts(&self, seen: &Seen, now: Timestamp) -> (facts: Facts)
        ensures
            facts == (Facts {
                paused: in_force(self.pause@, now@) is Some,
                on_battery: seen.on_battery,
                allow_on_battery: self.config.on_battery,
                metered: seen.metered,
                allow_on_metered: self.config.on_metered,
                destination_is_remote: preflight::is_remote_syntax(self.repository_text())
                    || seen.network_mounted,
                destination_reachable: match seen.reach {
                    Reach::Yes => Some(true),
                    Reach::No => Some(false),
                    Reach::Unknown => None,
                },
                free_local_bytes: seen.free_local_bytes,
            }),
    {
        let remote = match &self.config.repository {
            Some(repository) => preflight::destination_is_remote(
                repository.as_str(),
                seen.network_mounted,
            ),
            None => {
                proof {
                    reveal_strlit("");
                    assert(""@ =~= Seq::<char>::empty());
                }
                preflight::destination_is_remote("", seen.network_mounted)
            },
        };
        Facts {
            paused: self.pause.is_paused(now),
            on_battery: seen.on_battery,
            allow_on_battery: self.config.on_battery,
            metered: seen.metered,
            allow_on_metered: self.config.on_metered,
            destination_is_remote: remote,
            destination_reachable: seen.reach.definite(),
            free_local_bytes: seen.free_local_bytes,
        }
    }

    /// What is known once the facts for a scheduled backup have been gathered.
    pub open spec fn after_facts(self, facts: Facts) -> Shared {
        Shared {
            destination_reachable: match facts.destination_reachable {
                Some(reachable) => reachable,
                None => self.destination_reachable,
            },
            needs_attention: facts.free_local_bytes is Some && facts.free_local_bytes->0
                < preflight::DISK_WARN,
            last_skip: reason_of(facts.verdict()),
            ..self
        }
    }

    /// Decide about the backup the schedule asked for.
    ///
    /// A gate that declines is no error, and the attempt clock does not advance:
    /// the backup happens when the charger goes in and not at the top of the next
    /// hour. What the probe of the destination said is taken in either way.
    pub fn start_scheduled_backup(&mut self, facts: &Facts) -> (planned: (Plan, Option<String>))
        ensures
            planned.0 == match facts.verdict() {
                Verdict::Go => Plan::Backup,
                Verdict::Skip(Skip::Unreachable) => Plan::Protect,
                Verdict::Skip(_) => Plan::Wait,
            },
            told_of(planned.1) == announcement(old(self).last_skip, reason_of(facts.verdict())),
            *final(self) == old(self).after_facts(*facts),
            planned.0 == Plan::Protect <==> {
                &&& !facts.paused
                &&& !(facts.on_battery == Some(true) && !facts.allow_on_battery)
                &&& !(facts.destination_is_remote && facts.metered == Some(true)
                    && !facts.allow_on_metered)
                &&& facts.destination_reachable == Some(false)
            },
            planned.0 == Plan::Backup <==> final(self).last_skip is None,
            facts.destination_reachable matches Some(reachable) ==> final(self).destination_reachable
                == reachable,
            facts.destination_reachable is None ==> final(self).destination_reachable
                == old(self).destination_reachable,
            final(self).needs_attention <==> (facts.free_local_bytes matches Some(free) && free
                < 1_073_741_824),
            planned.1 is None <==> final(self).last_skip == old(self).last_skip,
    {
        proof {
            preflight::the_first_closed_gate_is_the_one_named(*facts);
        }
        match facts.destination_reachable {
            Some(reachable) => {
                self.destination_reachable = reachable;
            },
            None => {},
        }
        self.needs_attention = preflight::local_disk_needs_attention(facts);
        match preflight::evaluate(facts) {
            Verdict::Go => {
                let line = self.announce_skip(None);
                (Plan::Backup, line)
            },
            Verdict::Skip(reason) => {
                let line = self.announce_skip(Some(reason));
                match reason {
                    Skip::Unreachable => (Plan::Protect, line),
                    _ => (Plan::Wait, line),
                }
            },
        }
    }

    /// Take in whether local protection could be started, and say whether clients
    /// have to be told: that the safety net itself does not work is something the
    /// user needs to know.
    pub fn protection_started(&mut self, failed: bool) -> (tell: bool)
        ensures
            tell == failed,
            *final(self) == (Shared { offline_broken: failed, ..*old(self) }),
    {
        self.offline_broken = failed;
        failed
    }

    /// Queue a backup, under a name that the repository does not hold, and record
    /// the attempt.
    ///
    /// The attempt clock advances here and not on success, so a destination that
    /// has been away for a week makes one attempt per interval and not one per
    /// tick.
    pub fn submit_backup(&mut self, hostname: &str, taken: &Vec<String>, now: Timestamp) -> (result:
        Result<QueuedBackup>)
        requires
            old(self).wf(),
            old(self).jobs.jobs().len() < u64::MAX,
            clock_has_room(now@, taken@.len()),
        ensures
            final(self).wf(),
            result is Ok <==> old(self).has_engine && old(self).has_catalogue,
            result matches Err(error) ==> {
                &&& if old(self).has_engine {
                    no_catalogue(error)
                } else {
                    no_destination(error)
                }
                &&& *final(self) == *old(self)
            },
            result matches Ok(queued) ==> {
                &&& old(self).jobs.takes_in(
                    JobKind::Backup,
                    final(self).jobs,
                    queued.job,
                    queued.effects@,
                )
                &&& first_free(
                    backup_prefix(hostname@),
                    now@,
                    taken@,
                    queued.spec.archive_name@,
                    queued.spec.created_at@,
                )
                &&& old(self).is_backup(queued.spec)
                &&& old(self).is_policy(queued.prune)
                &&& told_of(final(self).last_archive) == Some(queued.spec.archive_name@)
                &&& *final(self) == (Shared {
                    jobs: final(self).jobs,
                    last_archive: final(self).last_archive,
                    persisted: RuntimeState {
                        last_attempt: recorded(now@),
                        ..old(self).persisted
                    },
                    ..*old(self)
                })
            },
    {
        if !self.has_engine {
            return Err(without_engine());
        }
        if !self.has_catalogue {
            return Err(without_catalogue());
        }
        let (name, created_at) = naming::next_archive_name(hostname, now, taken);
        let spec = create_spec(&self.config, &self.layout, name, created_at);
        let prune = prune_policy(&self.config);
        self.last_archive = Some(spec.archive_name.clone());
        self.persisted.last_attempt = record(now);
        let (job, effects) = self.jobs.submit(JobKind::Backup);
        Ok(QueuedBackup { job, spec, prune, effects })
    }

    /// Whether a backup is of the sources, as the settings say.
    pub open spec fn is_backup(self, spec: CreateSpec) -> bool {
        &&& spec.sources@ == self.config.include_paths@
        &&& views(spec.excludes@) == views(self.config.exclude@) + self.layout.own_excludes()
        &&& spec.paths@.len() == 0
        &&& spec.compression == self.config.compression
        &&& spec.one_file_system
    }

    /// Whether a retention policy is that of the settings.
    pub open spec fn is_policy(self, policy: PrunePolicy) -> bool {
        &&& policy.keep_hourly == self.config.retention.keep_hourly
        &&& policy.keep_daily == self.config.retention.keep_daily
        &&& policy.keep_weekly == self.config.retention.keep_weekly
        &&& policy.keep_monthly == self.config.retention.keep_monthly
    }

    /// Whether local protection has anything to do, and how.
    pub fn offline_gate(&self) -> (result: Result<OfflineGate>)
        ensures
            ({
                let idle = !self.config.offline_enabled || self.config.include_paths@.len() == 0;
                if idle {
                    result == Ok::<OfflineGate, DaemonError>(OfflineGate::Nothing)
                } else if !self.has_catalogue {
                    result matches Err(error) && no_catalogue(error)
                } else {
                    result == Ok::<OfflineGate, DaemonError>(
                        match self.offline_mode {
                            Some(mode) => OfflineGate::Ready(mode),
                            None => OfflineGate::Detect,
                        },
                    )
                }
            }),
    {
        if !self.config.offline_enabled {
            return Ok(OfflineGate::Nothing);
        }
        if self.config.include_paths.len() == 0 {
            return Ok(OfflineGate::Nothing);
        }
        if !self.has_catalogue {
            return Err(without_catalogue());
        }
        match &self.offline_mode {
            Some(mode) => Ok(OfflineGate::Ready(mode.clone())),
            None => Ok(OfflineGate::Detect),
        }
    }

    /// Remember how this machine protects changes: finding out takes a real
    /// snapshot.
    pub fn remember_mode(&mut self, mode: Mode)
        ensures
            *final(self) == (Shared { offline_mode: Some(mode), ..*old(self) }),
    {
        self.offline_mode = Some(mode);
    }

    /// Forget how this machine protects changes, so that it is found out again.
    pub fn forget_offline_mode(&mut self)
        ensures
            *final(self) == (Shared { offline_mode: None, ..*old(self) }),
    {
        self.offline_mode = None;
    }

    /// Whether a walk covers the sources and never the daemon's own copies.
    pub open spec fn is_walk(self, walk: WalkSpec, include_dirs: bool) -> bool {
        &&& walk.sources@ == self.config.include_paths@
        &&& views(walk.excludes@) == views(self.config.exclude@) + self.layout.own_excludes()
        &&& walk.one_file_system
        &&& views(walk.never@) == seq![self.layout.spool_dir@, self.layout.snapshots_dir@]
        &&& walk.include_dirs == include_dirs
    }

    /// Queue the protection of what has changed, on this computer.
    ///
    /// The attempt clock advances as it does for a backup: this is the scheduled
    /// run. For the spool, its engine is up by now.
    pub fn start_offline_protection(&mut self, mode: &Mode, now: Timestamp) -> (queued:
        QueuedProtection)
        requires
            old(self).wf(),
            old(self).jobs.jobs().len() < u64::MAX,
        ensures
            final(self).wf(),
            old(self).jobs.takes_in(
                JobKind::Offline,
                final(self).jobs,
                queued.job,
                queued.effects@,
            ),
            queued.created_at == now,
            match *mode {
                Mode::FsSnapshot(subvolume) => {
                    &&& queued.protection matches Protection::Snapshot { subvolume: root }
                    &&& root@ == subvolume.root@
                    &&& old(self).is_walk(queued.walk, true)
                },
                Mode::Spool => {
                    &&& queued.protection == (Protection::Spool {
                        compression: old(self).config.compression,
                        cap_bytes: old(self).config.limit() as u64,
                    })
                    &&& old(self).is_walk(queued.walk, false)
                },
            },
            *final(self) == (Shared {
                jobs: final(self).jobs,
                persisted: RuntimeState { last_attempt: recorded(now@), ..old(self).persisted },
                ..*old(self)
            }),
    {
        let mut never: Vec<String> = Vec::new();
        never.push(self.layout.spool_dir.clone());
        never.push(self.layout.snapshots_dir.clone());
        assert(views(never@) =~= seq![self.layout.spool_dir@, self.layout.snapshots_dir@]);
        let (protection, include_dirs) = match mode {
            Mode::FsSnapshot(subvolume) => (
                Protection::Snapshot { subvolume: subvolume.root.clone() },
                true,
            ),
            Mode::Spool => (
                Protection::Spool {
                    compression: self.config.compression,
                    cap_bytes: self.config.offline_limit(),
                },
                false,
            ),
        };
        let walk = WalkSpec {
            sources: text::copies(&self.config.include_paths),
            excludes: effective_excludes(&self.config, &self.layout),
            one_file_system: true,
            never,
            include_dirs,
        };
        self.persisted.last_attempt = record(now);
        let (job, effects) = self.jobs.submit(JobKind::Offline);
        QueuedProtection { job, protection, walk, created_at: now, effects }
    }

    /// The name of the mode to report: what has been found out so far, and the
    /// spool until then.
    pub open spec fn mode_name(self) -> Seq<char> {
        if !self.config.offline_enabled {
            "off"@
        } else {
            match self.offline_mode {
                Some(mode) => mode.name(),
                None => "spool"@,
            }
        }
    }

    /// What the local safety net is holding: what the catalogue lists, and what the
    /// spool takes on disk. Nothing is claimed while the catalogue is not open.
    pub fn local_protection(&self, held: &Vec<LocalRow>, spool_bytes: u64) -> (local:
        LocalProtection)
        requires
            held@.len() <= u32::MAX,
        ensures
            local.mode@ == self.mode_name(),
            local.bytes == if self.has_catalogue { spool_bytes } else { 0 },
            local.snapshots == if self.has_catalogue { held@.len() } else { 0 },
            local.expirable == if self.has_catalogue { marked(held@) } else { 0 },
    {
        let mode = if self.config.offline_enabled {
            match &self.offline_mode {
                Some(mode) => mode.as_str(),
                None => Mode::Spool.as_str(),
            }
        } else {
            "off"
        };
        if !self.has_catalogue {
            return LocalProtection { bytes: 0, snapshots: 0, expirable: 0, mode: mode.to_owned() };
        }
        LocalProtection {
            bytes: spool_bytes,
            snapshots: held.len() as u32,
            expirable: count_marked(held) as u32,
            mode: mode.to_owned(),
        }
    }

    /// Whether the next backup is foreseeable: the clock goes on until it is due.
    pub open spec fn foreseeable(self, interval: Option<Span>) -> bool {
        interval is Some && self.persisted.last_attempt is Some ==> seconds(
            self.persisted.last_attempt->0 as int,
        ) + interval->0@ < end_of_time()
    }

    /// When the next backup is due, as the schedule would honour it.
    pub open spec fn next_backup(self, interval: Option<Span>, now: int) -> int {
        if in_force(self.pause@, now) is Some || self.config.repository is None || interval is None {
            0
        } else {
            let due = match self.persisted.last_attempt {
                Some(last) => seconds(last as int) + interval->0@,
                None => now,
            };
            seconds_since_epoch(
                if due > now {
                    due
                } else {
                    now
                },
            )
        }
    }

    /// The overall state, and the facts shown beside it. `interval` is the one in
    /// force.
    pub fn get_status(&self, interval: Option<Span>, local: LocalProtection, now: Timestamp) -> (
        status: Status)
        requires
            self.wf(),
            self.foreseeable(interval),
        ensures
            status.state@ == self.health_facts(now@).state(now@).name(),
            status.last_backup == on_the_wire(self.last_backup),
            status.next_backup == self.next_backup(interval, now@),
            status.destination_reachable == self.destination_reachable,
            status.spool_bytes == local.bytes,
            status.offline_mode == local.mode,
            status.local_snapshots == local.snapshots,
            status.expirable_snapshots == local.expirable,
            status.active_job == first_running(self.jobs.jobs(), 0),
            status.paused_until == on_the_wire(in_force(self.pause@, now@)),
            status.configured == (self.config.repository is Some),
    {
        let paused_until = self.pause.until(now);
        let next = if paused_until.is_some() || !self.config.is_configured() {
            None
        } else {
            next_due(interval, recall(self.persisted.last_attempt), now)
        };
        Status {
            state: self.health(now).as_str().to_owned(),
            last_backup: to_epoch(self.last_backup),
            next_backup: to_epoch(next),
            destination_reachable: self.destination_reachable,
            spool_bytes: local.bytes,
            offline_mode: local.mode,
            local_snapshots: local.snapshots,
            expirable_snapshots: local.expirable,
            active_job: self.active_job(),
            paused_until: to_epoch(paused_until),
            configured: self.config.is_configured(),
        }
    }

    /// Queue the cataloguing of what the repository has and the catalogue does not.
    /// Not against a destination that is known to be away: an unplugged drive is a
    /// status and not a fault.
    pub fn reconcile_catalogue(&mut self, reach: Reach) -> (queued: Option<(JobId, Vec<Effect>)>)
        requires
            old(self).wf(),
            old(self).jobs.jobs().len() < u64::MAX,
        ensures
            final(self).wf(),
            queued is Some <==> reach != Reach::No && old(self).has_engine
                && old(self).has_catalogue,
            queued is None ==> *final(self) == *old(self),
            queued matches Some((job, effects)) ==> {
                &&& old(self).jobs.takes_in(JobKind::Index, final(self).jobs, job, effects@)
                &&& final(self).keeps_all_but_jobs(*old(self))
            },
    {
        if reach == Reach::No {
            return None;
        }
        if !self.has_engine || !self.has_catalogue {
            return None;
        }
        Some(self.jobs.submit(JobKind::Index))
    }

    /// Queue a compaction if one is due, on its own daily cadence. The first time,
    /// the clock is started and nothing more: the repository may not have been
    /// backed up to yet.
    pub fn maybe_compact(&mut self, now: Timestamp) -> (queued: Option<(JobId, Vec<Effect>)>)
        requires
            old(self).wf(),
            old(self).jobs.jobs().len() < u64::MAX,
        ensures
            final(self).wf(),
            ({
                let last = recalled(old(self).persisted.last_compact);
                let due = last is Some && now@ - last->0 >= seconds(86_400) && !any_unfinished(
                    old(self).jobs.jobs(),
                ) && old(self).has_engine;
                &&& queued is Some <==> due
                &&& final(self).persisted.last_compact == if due || last is None {
                    recorded(now@)
                } else {
                    old(self).persisted.last_compact
                }
                &&& queued is None ==> final(self).jobs == old(self).jobs
                &&& queued matches Some((job, effects)) ==> old(self).jobs.takes_in(
                    JobKind::Compact,
                    final(self).jobs,
                    job,
                    effects@,
                )
            }),
            *final(self) == (Shared {
                jobs: final(self).jobs,
                persisted: RuntimeState {
                    last_compact: final(self).persisted.last_compact,
                    ..old(self).persisted
                },
                ..*old(self)
            }),
    {
        let last = recall(self.persisted.last_compact);
        if last.is_none() {
            self.persisted.last_compact = record(now);
            return None;
        }
        let busy = self.busy();
        if !schedule::compact_due(last, now, busy) {
            return None;
        }
        if !self.has_engine {
            return None;
        }
        self.persisted.last_compact = record(now);
        Some(self.jobs.submit(JobKind::Compact))
    }

    /// Recover the time of the last backup from the times of the catalogued
    /// archives, in seconds since the epoch.
    pub fn seed_last_backup(&mut self, times: &Vec<i64>)
        ensures
            ({
                let newest = latest(times@);
                if newest is Some && newest->0 > 0 {
                    at(final(self).last_backup) == Some(seconds(newest->0 as int))
                } else {
                    final(self).last_backup == old(self).last_backup
                }
            }),
            *final(self) == (Shared { last_backup: final(self).last_backup, ..*old(self) }),
    {
        let mut newest: Option<i64> = None;
        let mut i: usize = 0;
        assert(latest(times@.take(0)) is None);
        while i < times.len()
            invariant
                i <= times@.len(),
                newest == latest(times@.take(i as int)),
            decreases times@.len() - i,
        {
            assert(times@.take(i + 1).drop_last() =~= times@.take(i as int));
            newest = match newest {
                Some(best) => Some(
                    if best < times[i] {
                        times[i]
                    } else {
                        best
                    },
                ),
                None => Some(times[i]),
            };
            i += 1;
        }
        assert(times@.take(i as int) =~= times@);
        match newest {
            Some(ts) => {
                if ts > 0 {
                    self.last_backup = Some(Timestamp::from_secs(ts));
                }
            },
            None => {},
        }
    }

    /// Adopt a change in the destination's reachability, and say what follows.
    pub fn destination_changed(&mut self, reachable: bool) -> (transition: Transition)
        ensures
            transition == if reachable {
                Transition::CatchUp
            } else {
                Transition::WakeScheduler
            },
            *final(self) == (Shared { destination_reachable: reachable, ..*old(self) }),
    {
        self.destination_reachable = reachable;
        if reachable {
            Transition::CatchUp
        } else {
            Transition::WakeScheduler
        }
    }

    /// How a job that ended changes the facts. A success anywhere counts; only a
    /// failure that is known to block raises the flag, and only a success lowers
    /// it. `degraded` is what a local backup said of the spool, if it said
    /// anything.
    pub open spec fn after_job(
        self,
        kind: JobKind,
        state: JobState,
        blocking: bool,
        degraded: Option<bool>,
        now: Timestamp,
    ) -> Shared {
        if state == JobState::Done(Outcome::Completed) && (kind == JobKind::Backup || kind
            == JobKind::Offline) {
            Shared {
                last_backup: Some(now),
                blocking_failure: false,
                offline_degraded: if kind == JobKind::Offline && degraded is Some {
                    degraded->0
                } else {
                    self.offline_degraded
                },
                ..self
            }
        } else if state is Failed && blocking {
            Shared { blocking_failure: true, ..self }
        } else {
            self
        }
    }

    /// Fold a finished job into the facts health is computed from.
    pub fn update_health(
        &mut self,
        kind: JobKind,
        state: &JobState,
        blocking: bool,
        degraded: Option<bool>,
        now: Timestamp,
    )
        requires
            old(self).wf(),
        ensures
            final(self).wf(),
            *final(self) == old(self).after_job(kind, *state, blocking, degraded, now),
            final(self).last_backup == if *state == JobState::Done(Outcome::Completed) && (kind
                == JobKind::Backup || kind == JobKind::Offline) {
                Some(now)
            } else {
                old(self).last_backup
            },
    {
        match state {
            JobState::Done(Outcome::Completed) => {
                match kind {
                    JobKind::Backup => {
                        self.last_backup = Some(now);
                        self.blocking_failure = false;
                    },
                    JobKind::Offline => {
                        self.last_backup = Some(now);
                        self.blocking_failure = false;
                        match degraded {
                            Some(degraded) => {
                                self.offline_degraded = degraded;
                            },
                            None => {},
                        }
                    },
                    _ => {},
                }
            },
            JobState::Failed(_) => {
                if blocking {
                    self.blocking_failure = true;
                }
            },
            _ => {},
        }
    }

    /// Take on new settings, and say what they mean for the rest of the daemon.
    pub fn set_config(&mut self, updated: Config) -> (changed: Changes)
        ensures
            changed.repository == !crate::service::config::same_repository(
                old(self).config.repository,
                updated.repository,
            ),
            changed.sources == (views(old(self).config.include_paths@) != views(
                updated.include_paths@,
            )),
            *final(self) == (Shared {
                config: updated,
                offline_mode: if changed.sources {
                    None
                } else {
                    old(self).offline_mode
                },
                ..*old(self)
            }),
    {
        let changed = changes(&self.config, &updated);
        self.config = updated;
        if changed.sources {
            self.forget_offline_mode();
        }
        changed
    }
}

/// The latest of some times.
pub open spec fn latest(times: Seq<i64>) -> Option<i64>
    decreases times.len(),
{
    if times.len() == 0 {
        None
    } else {
        match latest(times.drop_last()) {
            Some(best) => Some(
                if best < times.last() {
                    times.last()
                } else {
                    best
                },
            ),
            None => Some(times.last()),
        }
    }
}

/// A gate that declines does not burn the attempt: whatever the facts, deciding
/// about a scheduled backup leaves the attempt clock and the jobs as they were.
pub proof fn a_skip_does_not_burn_the_attempt(before: Shared, facts: Facts)
    ensures
        before.after_facts(facts).persisted == before.persisted,
        before.after_facts(facts).jobs == before.jobs,
{
}

/// Only a success clears a blocking failure: however a job ends otherwise, the
/// flag stays.
pub proof fn only_a_success_clears_a_blocking_failure(
    before: Shared,
    kind: JobKind,
    state: JobState,
    blocking: bool,
    degraded: Option<bool>,
    now: Timestamp,
)
    requires
        before.blocking_failure,
        !before.after_job(kind, state, blocking, degraded, now).blocking_failure,
    ensures
        state == JobState::Done(Outcome::Completed),
        kind == JobKind::Backup || kind == JobKind::Offline,
{
}

/// A local backup counts as protection: after it, the machine is not at risk for
/// a day.
pub proof fn a_local_backup_counts(
    before: Shared,
    blocking: bool,
    degraded: Option<bool>,
    now: Timestamp,
    later: int,
)
    requires
        now@ <= later <= now@ + seconds(86_400),
    ensures
        before.after_job(
            JobKind::Offline,
            JobState::Done(Outcome::Completed),
            blocking,
            degraded,
            now,
        ).health_facts(later).state(later) != HealthState::AtRisk,
{
}

/// A pause survives a restart, and is not extended by it: a daemon that takes on
/// what an earlier one recorded is paused until the very same time, and one that
/// starts after that time is not paused at all.
pub proof fn a_pause_survives_a_restart(
    first: Shared,
    until: u64,
    paused: Shared,
    second: Shared,
    now: int,
    restarted: Shared,
)
    requires
        first.pauses(until, paused),
        second.pause@ is None,
        second.adopts(paused.persisted, now, restarted),
    ensures
        now < seconds(until as int) ==> at(in_force(restarted.pause@, now)) == Some(
            seconds(until as int),
        ),
        now >= seconds(until as int) ==> restarted.pause@ is None,
{
}

/// The job that is shown as active is the first that is at work, and there is none
/// only where none is.
pub proof fn the_active_job_is_the_first_at_work(jobs: Seq<Job>, from: int)
    requires
        0 <= from <= jobs.len(),
    ensures
        first_running(jobs, from) > 0 ==> {
            &&& from < first_running(jobs, from) <= jobs.len()
            &&& jobs[first_running(jobs, from) - 1].state is Running
        },
        forall|i: int|
            from <= i < jobs.len() && (#[trigger] jobs[i]).state is Running ==> 0 < first_running(
                jobs,
                from,
            ) <= i + 1,
        first_running(jobs, from) >= 0,
    decreases jobs.len() - from,
{
    if from < jobs.len() && !(jobs[from].state is Running) {
        the_active_job_is_the_first_at_work(jobs, from + 1);
    }
}

/// What is recorded of a point in time brings back the whole second it was in, and
/// a time before the epoch is not recorded.
pub proof fn what_is_recorded_is_recalled(time: int)
    requires
        time < end_of_time(),
    ensures
        time < 0 ==> recorded(time) is None,
        time >= 0 ==> {
            &&& recalled(recorded(time)) matches Some(back)
            &&& back <= time < back + 1_000_000_000
            &&& back % 1_000_000_000 == 0
        },
        recalled(None) is None,
{
}

/// What a job's end changes: the time of the last backup, only where a backup or a
/// local backup completed; the word on a blocking failure, down there and up where
/// a job failed in a way that blocks; the word on the spool, only where a local
/// backup completed and said something of it; and nothing else.
pub proof fn what_a_jobs_end_changes(
    before: Shared,
    kind: JobKind,
    state: JobState,
    blocking: bool,
    degraded: Option<bool>,
    now: Timestamp,
)
    ensures
        ({
            let after = before.after_job(kind, state, blocking, degraded, now);
            let succeeded = state == JobState::Done(Outcome::Completed) && (kind == JobKind::Backup
                || kind == JobKind::Offline);
            &&& after.last_backup == if succeeded {
                Some(now)
            } else {
                before.last_backup
            }
            &&& after.blocking_failure == if succeeded {
                false
            } else {
                before.blocking_failure || (state is Failed && blocking)
            }
            &&& after.offline_degraded == if succeeded && kind == JobKind::Offline && degraded
                is Some {
                degraded->0
            } else {
                before.offline_degraded
            }
            &&& after.config == before.config
            &&& after.layout == before.layout
            &&& after.pause == before.pause
            &&& after.jobs == before.jobs
            &&& after.persisted == before.persisted
            &&& after.last_skip == before.last_skip
            &&& after.destination_reachable == before.destination_reachable
            &&& after.needs_attention == before.needs_attention
            &&& after.offline_mode == before.offline_mode
            &&& after.offline_broken == before.offline_broken
        }),
{
}

/// What deciding about a scheduled backup changes: what is known of the
/// destination, where somebody could say; whether the disk wants attention, with
/// less than a gibibyte free; and what was said last; and nothing else.
pub proof fn what_deciding_changes(before: Shared, facts: Facts)
    ensures
        ({
            let after = before.after_facts(facts);
            &&& facts.destination_reachable matches Some(reachable) ==> after.destination_reachable
                == reachable
            &&& facts.destination_reachable is None ==> after.destination_reachable
                == before.destination_reachable
            &&& after.needs_attention <==> (facts.free_local_bytes matches Some(free) && free
                < 1_073_741_824)
            &&& after.last_skip is None <==> facts.verdict() == Verdict::Go
            &&& after.last_skip matches Some(skip) ==> facts.verdict() == Verdict::Skip(skip)
            &&& after.pause == before.pause
            &&& after.last_backup == before.last_backup
            &&& after.blocking_failure == before.blocking_failure
            &&& after.offline_mode == before.offline_mode
            &&& after.config == before.config
        }),
{
}

/// A reason is announced when it comes, and that it has cleared when it has; and
/// while it stays nothing is said, however often it is looked at.
pub proof fn a_reason_is_announced_once(last: Option<Skip>, reason: Option<Skip>)
    ensures
        announcement(reason, reason) is None,
        announcement(last, reason) is None <==> last == reason,
        last != reason ==> (reason matches Some(skip) ==> announcement(last, reason) == Some(
            "scheduled backup skipped: "@ + skip.sentence(),
        )),
        last != reason && reason is None ==> announcement(last, reason) == Some(
            "the condition that was holding backups up has cleared"@,
        ),
        forall|verdict: Verdict|
            reason_of(verdict) is None <==> #[trigger] is_go(verdict),
        forall|skip: Skip| #[trigger] reason_of(Verdict::Skip(skip)) == Some(skip),
{
}

/// Whether a verdict is to go ahead.
pub open spec fn is_go(verdict: Verdict) -> bool {
    verdict == Verdict::Go
}

/// Health is computed from what is known and from nothing else: each fact is the
/// daemon's own, and a pause counts while it lasts.
pub proof fn health_is_computed_from_what_is_known(shared: Shared, now: int)
    ensures
        ({
            let facts = shared.health_facts(now);
            &&& facts.blocking_failure == shared.blocking_failure
            &&& facts.paused_until is Some <==> (shared.pause@ matches Some(until) && now < until@)
            &&& facts.paused_until is Some ==> facts.paused_until == shared.pause@
            &&& facts.destination_reachable == shared.destination_reachable
            &&& facts.offline_protection_active == (shared.config.offline_enabled
                && !shared.offline_broken)
            &&& facts.last_success == shared.last_backup
            &&& facts.frequency == shared.config.interval
            &&& facts.needs_attention == (shared.needs_attention || shared.offline_degraded)
        }),
{
}

/// The next backup is shown exactly where there will be one: not in a pause, not
/// without a destination, not on a manual schedule. It is due an interval after
/// the last attempt, and never in the past.
pub proof fn the_next_backup_is_shown(shared: Shared, interval: Option<Span>, now: int)
    requires
        now >= 0,
    ensures
        (shared.pause@ matches Some(until) && now < until@) || shared.config.repository is None
            || interval is None ==> shared.next_backup(interval, now) == 0,
        (shared.pause@ matches Some(until) ==> until@ <= now) && shared.config.repository is Some
            && interval is Some ==> {
            let shown = shared.next_backup(interval, now);
            let due = match shared.persisted.last_attempt {
                Some(last) => last * 1_000_000_000 + interval->0@,
                None => now,
            };
            &&& shown >= now / 1_000_000_000
            &&& due > now ==> shown * 1_000_000_000 <= due < (shown + 1) * 1_000_000_000
            &&& due <= now ==> shown * 1_000_000_000 <= now < (shown + 1) * 1_000_000_000
        },
{
}

/// A backup is of what the settings say and leaves out what they say: the sources
/// as they are listed, every pattern of the user's, and the daemon's own storage.
/// Retention is that of the settings.
pub proof fn a_backup_is_what_the_settings_say(
    shared: Shared,
    spec: CreateSpec,
    policy: PrunePolicy,
)
    requires
        shared.is_backup(spec),
        shared.is_policy(policy),
    ensures
        spec.sources@ == shared.config.include_paths@,
        spec.paths@.len() == 0,
        spec.compression == shared.config.compression,
        spec.one_file_system,
        spec.excludes@.len() == shared.config.exclude@.len() + 7,
        forall|i: int|
            0 <= i < shared.config.exclude@.len() ==> (#[trigger] spec.excludes@[i])@
                == shared.config.exclude@[i]@,
        views(spec.excludes@).contains("pp:"@ + shared.layout.spool_dir@),
        views(spec.excludes@).contains("pp:"@ + shared.layout.snapshots_dir@),
        views(spec.excludes@).contains(shared.layout.index_path@ + "*"@),
        policy.keep_hourly == shared.config.retention.keep_hourly,
        policy.keep_daily == shared.config.retention.keep_daily,
        policy.keep_weekly == shared.config.retention.keep_weekly,
        policy.keep_monthly == shared.config.retention.keep_monthly,
{
    let own = shared.layout.own_excludes();
    let n = shared.config.exclude@.len() as int;
    let all = views(spec.excludes@);
    assert(all.len() == spec.excludes@.len() && views(shared.config.exclude@).len() == n);
    assert forall|i: int| 0 <= i < n implies (#[trigger] spec.excludes@[i])@
        == shared.config.exclude@[i]@ by {
        assert(all[i] == spec.excludes@[i]@);
        assert(views(shared.config.exclude@)[i] == shared.config.exclude@[i]@);
    }
    assert(all[n] == own[0] && all[n + 1] == own[1] && all[n + 6] == own[6]);
}

/// A walk for local protection is of the same sources with the same things left
/// out, and never goes where local protection keeps its own copies.
pub proof fn a_walk_never_feeds_itself(shared: Shared, walk: WalkSpec, include_dirs: bool)
    requires
        shared.is_walk(walk, include_dirs),
    ensures
        walk.sources@ == shared.config.include_paths@,
        walk.one_file_system,
        walk.include_dirs == include_dirs,
        views(walk.never@).contains(shared.layout.spool_dir@),
        views(walk.never@).contains(shared.layout.snapshots_dir@),
        walk.never@.len() == 2,
        walk.excludes@.len() == shared.config.exclude@.len() + 7,
{
    let never = views(walk.never@);
    assert(never.len() == walk.never@.len());
    assert(never[0] == shared.layout.spool_dir@);
    assert(never[1] == shared.layout.snapshots_dir@);
    assert(views(walk.excludes@).len() == walk.excludes@.len());
    assert(views(shared.config.exclude@).len() == shared.config.exclude@.len());
}

/// The latest of some times is one of them, and none is later.
pub proof fn the_latest_is_not_before_any(times: Seq<i64>)
    ensures
        latest(times) is None <==> times.len() == 0,
        latest(times) matches Some(best) ==> times.contains(best),
        forall|i: int| 0 <= i < times.len() ==> #[trigger] times[i] <= latest(times)->0,
    decreases times.len(),
{
    if times.len() > 0 {
        let front = times.drop_last();
        the_latest_is_not_before_any(front);
        let best = latest(times)->0;
        if latest(front) is Some && best == latest(front)->0 {
            let k = choose|k: int| 0 <= k < front.len() && front[k] == best;
            assert(times[k] == best);
        } else {
            assert(times[times.len() - 1] == best);
        }
        assert forall|i: int| 0 <= i < times.len() implies #[trigger] times[i] <= best by {
            if i < front.len() {
                assert(front[i] <= latest(front)->0);
            }
        }
    }
}

/// Taking on the bookkeeping of an earlier daemon changes the bookkeeping and, where it
/// has one that still lasts, the pause; and nothing else.
pub proof fn adopting_changes_only_the_bookkeeping(
    before: Shared,
    state: RuntimeState,
    now: int,
    after: Shared,
)
    requires
        before.adopts(state, now, after),
    ensures
        after.persisted == state,
        after.last_backup == before.last_backup,
        after.config == before.config,
        after.jobs == before.jobs,
        after.blocking_failure == before.blocking_failure,
        after.destination_reachable == before.destination_reachable,
        state.paused_until matches Some(until) ==> until * 1_000_000_000 > now ==> (
        after.pause@ matches Some(lifts) && lifts@ == until * 1_000_000_000),
        state.paused_until matches Some(until) ==> until * 1_000_000_000 <= now ==> after.pause
            == before.pause,
        state.paused_until is None ==> after.pause == before.pause,
{
}

/// Pausing keeps the time it was asked for, where it is looked at and where it is
/// recorded, and changes nothing else.
pub proof fn pausing_changes_only_the_pause(before: Shared, until: u64, after: Shared)
    requires
        before.pauses(until, after),
    ensures
        after.pause@ matches Some(lifts) && lifts@ == until * 1_000_000_000,
        after.persisted.paused_until == Some(until),
        after.persisted.last_attempt == before.persisted.last_attempt,
        after.persisted.last_compact == before.persisted.last_compact,
        after.jobs == before.jobs,
        after.config == before.config,
        after.last_backup == before.last_backup,
        after.last_skip == before.last_skip,
{
}

/// What the daemon says of itself: nothing is recorded of one that has just begun, the
/// repository is written as the settings have it, the mode is off where protection is
/// switched off and otherwise as it was found out, and keeping everything but the jobs
/// keeps everything else.
pub proof fn what_the_daemon_says_of_itself(shared: Shared, before: Shared)
    ensures
        nothing_recorded().paused_until is None,
        nothing_recorded().last_attempt is None,
        nothing_recorded().last_compact is None,
        shared.config.repository matches Some(repository) ==> shared.repository_text()
            == repository@,
        shared.config.repository is None ==> shared.repository_text().len() == 0,
        !shared.config.offline_enabled ==> shared.mode_name() == "off"@,
        shared.config.offline_enabled && shared.offline_mode is None ==> shared.mode_name()
            == "spool"@,
        shared.config.offline_enabled ==> (shared.offline_mode matches Some(mode) ==> (mode is Spool
            ==> shared.mode_name() == "spool"@) && (mode is FsSnapshot ==> shared.mode_name()
            == "fs-snapshot"@)),
        shared.keeps_all_but_jobs(before) ==> {
            &&& shared.config == before.config
            &&& shared.pause == before.pause
            &&& shared.persisted == before.persisted
            &&& shared.last_backup == before.last_backup
            &&& shared.last_archive == before.last_archive
            &&& shared.has_engine == before.has_engine
            &&& shared.has_catalogue == before.has_catalogue
            &&& shared.destination_reachable == before.destination_reachable
            &&& shared.last_skip == before.last_skip
            &&& shared.offline_mode == before.offline_mode
        },
{
}

/// An operation without what it needs says which it is: a destination, or the
/// catalogue.
pub proof fn what_is_missing_is_named(error: DaemonError)
    ensures
        no_catalogue(error) ==> error is NotConfigured && error.words()
            == "the catalogue is not open"@,
        no_destination(error) ==> error is NotConfigured && error.words()
            == "no backup destination is configured yet; run the setup wizard"@,
        !(no_catalogue(error) && no_destination(error)),
{
    reveal_strlit("the catalogue is not open");
    reveal_strlit("no backup destination is configured yet; run the setup wizard");
    assert("the catalogue is not open"@.len() == 25);
}

} // verus!
