//! Rate limiting for progress signals.
//!
//! The engine reports progress far faster than anything needs to see it, so it
//! is capped at four signals a second. Two rules keep the cap from losing what
//! matters: a change of phase always goes out, and so does a job's last report.
//!
//! The clock is a parameter, so what the throttle does is a function of what it
//! is told.

use vstd::prelude::*;

use crate::text;
use crate::time::{Span, Timestamp};

verus! {

/// The cap, in milliseconds: at most one progress signal in that time.
pub const MIN_INTERVAL_MILLIS: u64 = 250;

/// Decides which progress events reach the bus.
#[derive(Debug)]
pub struct ProgressThrottle {
    min_interval: Span,
    last_emit: Option<Timestamp>,
    last_phase: Option<String>,
}

impl Default for ProgressThrottle {
    fn default() -> (throttle: ProgressThrottle)
        ensures
            throttle.interval() == 250_000_000,
            throttle.emitted_at() is None,
            throttle.phase() is None,
    {
        ProgressThrottle::new(Span::from_millis(MIN_INTERVAL_MILLIS))
    }
}

impl ProgressThrottle {
    /// The shortest time between two signals in one phase, in nanoseconds.
    pub closed spec fn interval(self) -> int {
        self.min_interval@
    }

    /// When a signal last went out, unless the cap has been lifted since.
    pub closed spec fn emitted_at(self) -> Option<int> {
        match self.last_emit {
            Some(at) => Some(at@),
            None => None,
        }
    }

    /// The phase of the signal that last went out.
    pub closed spec fn phase(self) -> Option<Seq<char>> {
        match self.last_phase {
            Some(phase) => Some(phase@),
            None => None,
        }
    }

    /// Whether an event in `phase` at `now` goes out: the phase is a new one,
    /// or nothing has gone out for a whole interval.
    pub open spec fn lets_through(self, now: int, phase: Seq<char>) -> bool {
        ||| self.phase() != Some(phase)
        ||| self.emitted_at() is None
        ||| (now >= self.emitted_at()->0 && now - self.emitted_at()->0 >= self.interval())
        ||| self.interval() == 0
    }

    /// A throttle with an explicit interval.
    pub fn new(min_interval: Span) -> (throttle: ProgressThrottle)
        ensures
            throttle.interval() == min_interval@,
            throttle.emitted_at() is None,
            throttle.phase() is None,
    {
        ProgressThrottle { min_interval, last_emit: None, last_phase: None }
    }

    /// Whether a progress event in `phase` observed at `now` should be emitted.
    ///
    /// Call once per event and act on the answer: an event that is let through
    /// is recorded as sent.
    pub fn should_emit(&mut self, now: Timestamp, phase: &str) -> (emit: bool)
        ensures
            emit == old(self).lets_through(now@, phase@),
            final(self).interval() == old(self).interval(),
            emit ==> final(self).emitted_at() == Some(now@) && final(self).phase() == Some(phase@),
            !emit ==> *final(self) == *old(self),
    {
        let phase_changed = match &self.last_phase {
            Some(last) => !text::same(last.as_str(), phase),
            None => true,
        };
        let due = match self.last_emit {
            None => true,
            Some(last) => !now.saturating_since(last).is_shorter_than(self.min_interval),
        };
        proof {
            crate::time::lemma_span_is_not_negative(self.min_interval);
        }
        if phase_changed || due {
            self.last_emit = Some(now);
            self.last_phase = Some(phase.to_owned());
            true
        } else {
            false
        }
    }

    /// Let the next event through, whatever the clock says.
    pub fn release(&mut self)
        ensures
            final(self).emitted_at() is None,
            final(self).interval() == old(self).interval(),
            final(self).phase() == old(self).phase(),
    {
        self.last_emit = None;
    }
}

/// The cap holds: once an event has gone out, the next one in the same phase
/// goes out only when a whole interval has passed since, however many were
/// withheld in between.
pub proof fn signals_in_one_phase_are_an_interval_apart(
    throttle: ProgressThrottle,
    sent: int,
    now: int,
    phase: Seq<char>,
)
    requires
        throttle.emitted_at() == Some(sent),
        throttle.phase() == Some(phase),
        throttle.lets_through(now, phase),
        throttle.interval() > 0,
    ensures
        now - sent >= throttle.interval(),
{
}

/// A change of phase is never withheld.
pub proof fn a_new_phase_always_goes_out(
    throttle: ProgressThrottle,
    now: int,
    old_phase: Seq<char>,
    phase: Seq<char>,
)
    requires
        throttle.phase() == Some(old_phase),
        old_phase != phase,
    ensures
        throttle.lets_through(now, phase),
{
}

/// Once a whole interval has passed, the next event goes out; and while it has
/// not, another in the same phase does not.
pub proof fn an_event_goes_out_after_an_interval(
    throttle: ProgressThrottle,
    now: int,
    phase: Seq<char>,
)
    ensures
        throttle.emitted_at() is None ==> throttle.lets_through(now, phase),
        throttle.emitted_at() matches Some(sent) ==> {
            &&& now >= sent && now - sent >= throttle.interval() ==> throttle.lets_through(
                now,
                phase,
            )
            &&& throttle.phase() == Some(phase) && throttle.interval() > 0 && now - sent
                < throttle.interval() ==> !throttle.lets_through(now, phase)
        },
        throttle.phase() != Some(phase) ==> throttle.lets_through(now, phase),
{
}

} // verus!
