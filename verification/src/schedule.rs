//! The scheduler: when a backup should run.
//!
//! The decision is a pure function, [`decide`]: everything that depends on the
//! time arrives as an argument. A run that is late by more than a whole period
//! means that the machine was asleep. Firing the instant the lid opens would be
//! wrong, so it is put off once, by a jittered delay of up to
//! [`CATCH_UP_WINDOW`] seconds, and then it runs: a [`Scheduler`] remembers that
//! the delay has been served.

use vstd::prelude::*;

use crate::text;
use crate::time::{Span, Timestamp};
#[allow(unused_imports)]
use crate::time::{end_of_time, lemma_span_is_not_negative, seconds};

verus! {

/// The longest the loop sleeps before looking again, in seconds. A clock that
/// jumped is only noticed by looking.
pub const MAX_SLEEP: u64 = 60;

/// The shortest sleep, in seconds, so that a bug becomes a slow loop and not a
/// spin.
pub const MIN_SLEEP: u64 = 1;

/// How long the loop waits after starting a backup, in seconds.
pub const AFTER_RUN: u64 = 5;

/// How long after a wake-up a missed run may be put off, in seconds.
pub const CATCH_UP_WINDOW: u64 = 120;

/// The same window, in milliseconds.
pub const CATCH_UP_MILLIS: u64 = 120_000;

/// How often the repository is compacted, in seconds.
pub const COMPACT_EVERY: u64 = 86_400;

/// Everything [`decide`] needs, assembled fresh each time.
#[derive(Debug, Clone, Copy, PartialEq, Eq)]
pub struct ScheduleInput {
    /// The gap between scheduled backups; `None` for a manual schedule.
    pub interval: Option<Span>,
    /// When a scheduled backup was last attempted, successful or not. Attempts
    /// are what the cadence counts from: counting from successes would turn a
    /// drive unplugged for a week into an attempt every tick for a week.
    pub last_attempt: Option<Timestamp>,
    /// When the user's pause lifts, if one is in force.
    pub paused_until: Option<Timestamp>,
    /// Whether a destination has been configured at all.
    pub configured: bool,
    /// Whether a job is already running or queued.
    pub busy: bool,
}

impl Default for ScheduleInput {
    fn default() -> (input: ScheduleInput)
        ensures
            input.interval is None,
            input.last_attempt is None,
            input.paused_until is None,
            !input.configured,
            !input.busy,
    {
        ScheduleInput {
            interval: None,
            last_attempt: None,
            paused_until: None,
            configured: false,
            busy: false,
        }
    }
}

/// What to do at this moment.
#[derive(Debug, Clone, Copy, PartialEq, Eq)]
pub enum Decision {
    /// Nothing to do. Look again after this long.
    Idle(Span),
    /// Start a scheduled backup now.
    Run,
    /// A run is overdue by more than a whole period. Wait this long and decide
    /// again.
    CatchUp(Span),
}

/// A decision, with its span in nanoseconds.
pub enum Choice {
    Idle(int),
    Run,
    CatchUp(int),
}

impl Decision {
    pub open spec fn choice(self) -> Choice {
        match self {
            Decision::Idle(span) => Choice::Idle(span@),
            Decision::Run => Choice::Run,
            Decision::CatchUp(span) => Choice::CatchUp(span@),
        }
    }
}

/// A wait, kept between the shortest and the longest.
pub open spec fn clamped(nanos: int) -> int {
    if nanos < seconds(1) {
        seconds(1)
    } else if nanos > seconds(60) {
        seconds(60)
    } else {
        nanos
    }
}

impl ScheduleInput {
    /// Whether there is a schedule to keep: a destination and an interval.
    pub open spec fn scheduled(self) -> bool {
        self.configured && self.interval is Some
    }

    /// Whether the user's pause is in force.
    pub open spec fn paused(self, now: int) -> bool {
        self.paused_until is Some && self.paused_until->0@ > now
    }

    /// Whether nothing but the clock stands in the way of a backup.
    pub open spec fn open(self, now: int) -> bool {
        self.scheduled() && !self.paused(now) && !self.busy
    }

    /// When the next backup is due, after the last attempt.
    pub open spec fn due(self) -> int {
        self.last_attempt->0@ + self.interval->0@
    }

    /// Whether the clock goes far enough to say when a backup is due and when
    /// it is overdue.
    pub open spec fn foreseeable(self, now: int) -> bool {
        self.open(now) && self.last_attempt is Some ==> {
            &&& self.due() < end_of_time()
            &&& now >= self.due() ==> self.due() + self.interval->0@ < end_of_time()
        }
    }

    /// What to do at `now`: look again later without a schedule, during a pause
    /// and while busy; run at once the first time; otherwise wait until the
    /// interval has passed, and when more than a whole further one has, put it
    /// off by the jitter.
    pub open spec fn decided(self, now: int, jitter: int) -> Choice {
        if !self.scheduled() {
            Choice::Idle(seconds(60))
        } else if self.paused(now) {
            Choice::Idle(clamped(self.paused_until->0@ - now))
        } else if self.busy {
            Choice::Idle(seconds(60))
        } else if self.last_attempt is None {
            Choice::Run
        } else if now < self.due() {
            Choice::Idle(clamped(self.due() - now))
        } else if now > self.due() + self.interval->0@ {
            Choice::CatchUp(
                if jitter <= seconds(120) {
                    jitter
                } else {
                    seconds(120)
                },
            )
        } else {
            Choice::Run
        }
    }
}

/// Decide what the scheduler should do at `now`.
///
/// `jitter` is the delay to use if this turns out to be a catch-up.
pub fn decide(input: &ScheduleInput, now: Timestamp, jitter: Span) -> (decision: Decision)
    requires
        input.foreseeable(now@),
    ensures
        decision.choice() == input.decided(now@, jitter@),
        decision is Idle <==> {
            ||| !input.configured
            ||| input.interval is None
            ||| input.busy
            ||| (input.paused_until matches Some(until) && now@ < until@)
            ||| (input.last_attempt matches Some(last) && now@ - last@ < input.interval->0@)
        },
        decision is CatchUp <==> {
            &&& decision !is Idle
            &&& input.last_attempt matches Some(last)
            &&& now@ - last@ > input.interval->0@ + input.interval->0@
        },
        decision matches Decision::Idle(wait) ==> 1_000_000_000 <= wait@ <= 60_000_000_000,
        decision matches Decision::CatchUp(wait) ==> wait@ <= 120_000_000_000 && wait@ <= jitter@
            && (wait@ == jitter@ || wait@ == 120_000_000_000),
{
    proof {
        if input.interval is Some {
            lemma_span_is_not_negative(input.interval->0);
        }
    }
    let interval = match input.interval {
        Some(interval) => {
            if !input.configured {
                return Decision::Idle(Span::from_secs(MAX_SLEEP));
            }
            interval
        },
        None => {
            return Decision::Idle(Span::from_secs(MAX_SLEEP));
        },
    };
    // A pause the user asked for: sleep until it lifts, or until the next look.
    match input.paused_until {
        Some(until) => {
            if now.is_before(until) {
                return Decision::Idle(clamp(remaining(until, now)));
            }
        },
        None => {},
    }
    // Something is using the repository: come back, rather than queue a backup
    // that would start the instant the current job ends.
    if input.busy {
        return Decision::Idle(Span::from_secs(MAX_SLEEP));
    }
    // Never attempted: a machine that has just been set up protects itself now.
    let last = match input.last_attempt {
        Some(last) => last,
        None => {
            return Decision::Run;
        },
    };
    let due = last.plus(interval);
    if now.is_before(due) {
        return Decision::Idle(clamp(remaining(due, now)));
    }
    // Late by more than a whole period: the machine was asleep.
    if due.plus(interval).is_before(now) {
        return Decision::CatchUp(jitter.at_most(Span::from_secs(CATCH_UP_WINDOW)));
    }
    Decision::Run
}

/// How long from `now` until `later`, or nothing if it has already passed.
pub fn remaining(later: Timestamp, now: Timestamp) -> (left: Span)
    ensures
        left@ == if now@ <= later@ { later@ - now@ } else { 0 },
{
    later.saturating_since(now)
}

/// A wait, kept between the shortest and the longest.
pub fn clamp(wait: Span) -> (kept: Span)
    ensures
        kept@ == clamped(wait@),
{
    wait.at_least(Span::from_secs(MIN_SLEEP)).at_most(Span::from_secs(MAX_SLEEP))
}

/// A delay within the window, from the fraction of a second on the clock: two
/// machines that wake together pick different ones.
pub fn jitter(now: Timestamp) -> (delay: Span)
    ensures
        delay@ == if now@ < 0 { 0 } else { (now@ % 1_000_000_000) % 120_000 * 1_000_000 },
        delay@ < seconds(120),
{
    let nanos: u32 = if now.is_before(Timestamp::from_secs(0)) {
        0
    } else {
        now.subsec_nanos()
    };
    Span::from_millis(nanos as u64 % CATCH_UP_MILLIS)
}

/// Whether `interval` is the one in force. `configured` is what the settings say,
/// `None` for a manual schedule. In development the cadence comes from the
/// override, where there is one and it is a positive number of seconds; outside
/// development the override is not looked at.
pub open spec fn is_interval(
    configured: Option<Span>,
    development: bool,
    dev_interval: Option<Seq<char>>,
    interval: Option<Span>,
) -> bool {
    if configured is None || !development {
        interval == configured
    } else {
        match dev_interval {
            None => interval == configured,
            Some(text) => match text::parsed(text, u64::MAX as int) {
                Some(secs) => if secs > 0 {
                    interval is Some && interval->0@ == seconds(secs)
                } else {
                    interval == configured
                },
                None => interval == configured,
            },
        }
    }
}

/// The interval in force, from what the settings say, whether this is a
/// development build, and the override there is for one.
pub fn interval_for(
    configured: Option<Span>,
    development: bool,
    dev_interval: Option<&str>,
) -> (interval: Option<Span>)
    ensures
        is_interval(configured, development, text::chars_of(dev_interval), interval),
{
    let configured = match configured {
        Some(configured) => configured,
        None => {
            return None;
        },
    };
    if !development {
        return Some(configured);
    }
    match dev_interval {
        None => Some(configured),
        Some(text) => {
            let chars = text::to_chars(text);
            assert(chars@.subrange(0, chars@.len() as int) =~= text@);
            match text::parse_number(&chars, 0, chars.len(), u64::MAX) {
                Some(secs) => {
                    if secs > 0 {
                        Some(Span::from_secs(secs))
                    } else {
                        Some(configured)
                    }
                },
                None => Some(configured),
            }
        },
    }
}

/// Whether the repository is due to be compacted: a day after the last time,
/// and not while anything is running.
pub fn compact_due(last: Option<Timestamp>, now: Timestamp, busy: bool) -> (due: bool)
    ensures
        due == (!busy && last is Some && now@ - last->0@ >= seconds(86_400)),
{
    match last {
        Some(last) => {
            !busy && match now.since(last) {
                Some(age) => !age.is_shorter_than(Span::from_secs(COMPACT_EVERY)),
                None => false,
            }
        },
        None => false,
    }
}

/// The scheduling loop's own memory.
#[derive(Debug, Clone, Copy, PartialEq, Eq)]
pub struct Scheduler {
    /// Since when a catch-up is put off, and for how long, while there is one.
    deferred: Option<(Timestamp, Span)>,
}

/// What one pass of the loop does.
#[derive(Debug, Clone, Copy, PartialEq, Eq)]
pub struct Tick {
    /// Whether to start a scheduled backup.
    pub run: bool,
    /// How long to sleep afterwards.
    pub sleep: Span,
}

impl Tick {
    /// It starts a backup, and the loop looks again soon.
    pub open spec fn runs(self) -> bool {
        self.run && self.sleep@ == seconds(5)
    }

    /// It does nothing for that long.
    pub open spec fn waits(self, nanos: int) -> bool {
        !self.run && self.sleep@ == nanos
    }
}

impl Scheduler {
    /// When the delay of a catch-up has been served, while there is one.
    pub closed spec fn deferred(self) -> Option<int> {
        match self.deferred {
            Some((since, wait)) => Some(since@ + wait@),
            None => None,
        }
    }

    /// What one pass does about an overdue backup: put it off by `wait` the
    /// first time, wait on while that lasts, and run it once it is over. A clock
    /// that was set back does not make the delay longer than the window.
    pub open spec fn catches_up(self, now: int, wait: int, tick: Tick, after: Scheduler) -> bool {
        match self.deferred() {
            None => tick.waits(wait) && after.deferred() == Some(now + wait),
            Some(at) => if now >= at {
                tick.runs() && after.deferred() is None
            } else {
                let left = if at - now <= seconds(120) {
                    at - now
                } else {
                    seconds(120)
                };
                tick.waits(left) && after.deferred() == Some(now + left)
            },
        }
    }

    /// What one pass at `now` does, with `delay` to put an overdue backup off by.
    pub open spec fn passes(
        self,
        input: ScheduleInput,
        now: int,
        delay: int,
        tick: Tick,
        after: Scheduler,
    ) -> bool {
        match input.decided(now, delay) {
            Choice::Idle(wait) => tick.waits(wait) && after.deferred() is None,
            Choice::Run => tick.runs() && after.deferred() is None,
            Choice::CatchUp(wait) => self.catches_up(now, wait, tick, after),
        }
    }

    /// A loop that has not looked yet.
    pub fn new() -> (scheduler: Scheduler)
        ensures
            scheduler.deferred() is None,
    {
        Scheduler { deferred: None }
    }

    /// One pass: decide, and say how long to wait next.
    pub fn tick(&mut self, input: &ScheduleInput, now: Timestamp, delay: Span) -> (tick: Tick)
        requires
            input.foreseeable(now@),
        ensures
            old(self).passes(*input, now@, delay@, tick, *final(self)),
    {
        match decide(input, now, delay) {
            Decision::Idle(sleep) => {
                self.deferred = None;
                Tick { run: false, sleep }
            },
            Decision::Run => {
                self.deferred = None;
                Tick { run: true, sleep: Span::from_secs(AFTER_RUN) }
            },
            Decision::CatchUp(sleep) => match self.deferred {
                None => {
                    self.deferred = Some((now, sleep));
                    Tick { run: false, sleep }
                },
                Some((since, wait)) => {
                    proof {
                        lemma_span_is_not_negative(wait);
                    }
                    let window = Span::from_secs(CATCH_UP_WINDOW);
                    let left = match now.since(since) {
                        Some(served) => wait.saturating_minus(served).at_most(window),
                        // The clock was set back.
                        None => {
                            let back = remaining(since, now).at_most(window);
                            back.plus(wait.at_most(window)).at_most(window)
                        },
                    };
                    if Span::zero().is_shorter_than(left) {
                        self.deferred = Some((now, left));
                        Tick { run: false, sleep: left }
                    } else {
                        self.deferred = None;
                        Tick { run: true, sleep: Span::from_secs(AFTER_RUN) }
                    }
                },
            },
        }
    }
}

/// A missed run is put off once, by no more than the window: when the loop looks
/// again after the delay it was given, and nothing else stands in the way by
/// then, the backup runs, whatever the jitter is now. That holds from any state
/// of the loop, also where the clock was set back during an earlier delay.
pub proof fn a_missed_run_happens_within_the_window(
    input: ScheduleInput,
    loop_before: Scheduler,
    now: int,
    jitter: int,
    first: Tick,
    loop_between: Scheduler,
    later: int,
    again: int,
    second: Tick,
    loop_after: Scheduler,
)
    requires
        input.open(now),
        input.open(later),
        input.last_attempt is Some,
        now > input.due() + input.interval->0@,
        loop_before.passes(input, now, jitter, first, loop_between),
        later >= now + first.sleep@,
        loop_between.passes(input, later, again, second, loop_after),
    ensures
        first.sleep@ <= seconds(120),
        first.run || second.run,
        loop_before.deferred() is None ==> !first.run && second.run,
{
    lemma_span_is_not_negative(first.sleep);
    lemma_span_is_not_negative(input.interval->0);
}

/// A backup is started, or put off as overdue, exactly when nothing stands in its
/// way and the whole interval has gone by since the last attempt, however long
/// the interval is; it is overdue exactly when more than a whole further one has.
/// An overdue one is put off by the jitter, and by no more than two minutes.
pub proof fn a_backup_waits_out_its_whole_interval(input: ScheduleInput, now: int, jitter: int)
    ensures
        input.decided(now, jitter) !is Idle && input.last_attempt is Some ==> now
            - input.last_attempt->0@ >= input.interval->0@,
        input.decided(now, jitter) !is Idle ==> {
            &&& input.configured
            &&& input.interval is Some
            &&& !input.busy
            &&& input.paused_until matches Some(until) ==> until@ <= now
        },
        input.configured && input.interval is Some && !input.busy && (
        input.paused_until matches Some(until) ==> until@ <= now) && (
        input.last_attempt matches Some(last) ==> now - last@ >= input.interval->0@)
            ==> input.decided(now, jitter) !is Idle,
        input.decided(now, jitter) is CatchUp <==> input.decided(now, jitter) !is Idle
            && input.last_attempt is Some && now - input.last_attempt->0@ > 2
            * input.interval->0@,
        input.decided(now, jitter) matches Choice::CatchUp(wait) ==> wait == if jitter
            <= 120_000_000_000 {
            jitter
        } else {
            120_000_000_000
        },
{
    if input.interval is Some {
        lemma_span_is_not_negative(input.interval->0);
    }
}

/// The loop never sleeps past the moment it waits for, by more than the shortest
/// sleep there is: not past the end of a pause, nor past the end of the interval.
/// When what it waits for is less than a minute off, it sleeps for just that
/// long; without a schedule and while busy, for a minute.
pub proof fn an_idle_wait_ends_when_its_reason_does(input: ScheduleInput, now: int, jitter: int)
    requires
        input.decided(now, jitter) is Idle,
    ensures
        1_000_000_000 <= input.decided(now, jitter)->Idle_0 <= 60_000_000_000,
        !input.configured || input.interval is None ==> input.decided(now, jitter)->Idle_0
            == 60_000_000_000,
        input.configured && input.interval is Some ==> (match input.paused_until {
            Some(until) if until@ > now => is_the_wait_for(
                until@ - now,
                input.decided(now, jitter)->Idle_0,
            ),
            _ => if input.busy {
                input.decided(now, jitter)->Idle_0 == 60_000_000_000
            } else {
                input.last_attempt is Some && is_the_wait_for(
                    input.last_attempt->0@ + input.interval->0@ - now,
                    input.decided(now, jitter)->Idle_0,
                )
            },
        }),
{
}

/// The wait for something that is `off` away: never longer than that, unless it
/// is less than a second off, and never shorter, unless it is more than a minute
/// off.
pub open spec fn is_the_wait_for(off: int, wait: int) -> bool {
    &&& wait <= off || wait == 1_000_000_000
    &&& wait >= off || wait == 60_000_000_000
}

/// What is not due yet is not due with a longer interval, a later attempt or at
/// an earlier time either; and once it is due it stays due until it is attempted.
pub proof fn what_is_due_stays_due(
    input: ScheduleInput,
    other: ScheduleInput,
    now: int,
    later: int,
    jitter: int,
    again: int,
)
    requires
        input.decided(now, jitter) !is Idle,
        other.configured,
        !other.busy,
        other.paused_until is None,
        other.interval is Some,
        input.interval->0@ >= other.interval->0@,
        other.last_attempt is Some ==> input.last_attempt is Some && input.last_attempt->0@
            >= other.last_attempt->0@,
        now <= later,
    ensures
        other.decided(later, again) !is Idle,
        input.decided(now, jitter) is CatchUp && other.last_attempt is Some ==> other.decided(
            later,
            again,
        ) is CatchUp,
{
}

/// A pass of the loop starts a backup only where one is due: with a destination
/// and an interval, outside a pause, while nothing else runs, and a whole
/// interval after the last attempt. It starts every backup that is due, unless
/// more than a whole further interval has gone by; and one that is, it starts once
/// a delay has been served, and not before.
pub proof fn a_pass_starts_what_is_due(
    scheduler: Scheduler,
    input: ScheduleInput,
    now: int,
    jitter: int,
    tick: Tick,
    after: Scheduler,
)
    requires
        scheduler.passes(input, now, jitter, tick, after),
    ensures
        tick.run ==> {
            &&& input.configured
            &&& input.interval is Some
            &&& !input.busy
            &&& input.paused_until matches Some(until) ==> until@ <= now
            &&& input.last_attempt matches Some(last) ==> now - last@ >= input.interval->0@
            &&& tick.sleep@ == 5_000_000_000
            &&& after.deferred() is None
        },
        tick.run && input.last_attempt is Some && now - input.last_attempt->0@ > 2
            * input.interval->0@ ==> scheduler.deferred() is Some && scheduler.deferred()->0
            <= now,
        input.configured && input.interval is Some && !input.busy && (
        input.paused_until matches Some(until) ==> until@ <= now) && (
        input.last_attempt matches Some(last) ==> input.interval->0@ <= now - last@ <= 2
            * input.interval->0@) ==> tick.run,
        input.configured && input.interval is Some && !input.busy && (
        input.paused_until matches Some(until) ==> until@ <= now) && (
        input.last_attempt matches Some(last) && now - last@ > 2 * input.interval->0@) ==> (
        match scheduler.deferred() {
            None => !tick.run && tick.sleep@ == if jitter <= 120_000_000_000 {
                jitter
            } else {
                120_000_000_000
            },
            Some(at) => (tick.run <==> at <= now) && (!tick.run ==> tick.sleep@ == if at - now
                <= 120_000_000_000 {
                at - now
            } else {
                120_000_000_000
            }),
        }),
        after.deferred() is Some ==> !tick.run && after.deferred()->0 == now + tick.sleep@,
        after.deferred() is Some <==> !tick.run && input.decided(now, jitter) is CatchUp,
{
    if input.interval is Some {
        lemma_span_is_not_negative(input.interval->0);
    }
}

/// A manual schedule stays manual and a kept one is kept, whatever the override;
/// outside development the override is not looked at; and in development one that
/// is no positive number of seconds changes nothing.
pub proof fn the_override_changes_only_the_cadence(
    configured: Option<Span>,
    development: bool,
    dev_interval: Option<Seq<char>>,
    interval: Option<Span>,
)
    requires
        is_interval(configured, development, dev_interval, interval),
    ensures
        interval is None <==> configured is None,
        !development ==> interval == configured,
        dev_interval is None ==> interval == configured,
        dev_interval matches Some(text) ==> text::parsed(text, u64::MAX as int) is None
            ==> interval == configured,
        interval != configured ==> exists|secs: int|
            {
                &&& 0 < secs
                &&& text::parsed(dev_interval->0, u64::MAX as int) == Some(secs)
                &&& #[trigger] (secs * 1_000_000_000) == interval->0@
            },
        development && configured is Some && dev_interval is Some ==> forall|secs: int| 0 < secs
            && text::parsed(dev_interval->0, u64::MAX as int) == Some(secs)
            ==> #[trigger] (secs * 1_000_000_000) == interval->0@,
{
    if interval != configured {
        let secs = text::parsed(dev_interval->0, u64::MAX as int)->0;
        assert(secs * 1_000_000_000 == interval->0@);
    }
}

/// The loop never spins and never oversleeps: when there is nothing to do it
/// looks again after at least a second and at most a minute.
pub proof fn idle_waits_are_bounded(input: ScheduleInput, now: int, jitter: int)
    requires
        input.decided(now, jitter) is Idle,
    ensures
        seconds(1) <= input.decided(now, jitter)->Idle_0 <= seconds(60),
{
}

/// A backup starts only with a destination, outside a pause and while nothing
/// else runs, and never before its time.
pub proof fn nothing_runs_before_its_time(input: ScheduleInput, now: int, jitter: int)
    requires
        input.decided(now, jitter) is Run,
    ensures
        input.open(now),
        input.last_attempt is Some ==> now >= input.due(),
{
}

} // verus!
