//! One run of a job: from the engine being asked to start to the run's end.
//!
//! A run is fed what happens to it, in order, and answers with what to tell
//! subscribers and whether the run is over. It never claims success unless the
//! engine said so itself: an unverified backup reported as complete is the one
//! failure this product cannot have.

use vstd::prelude::*;

use crate::engine::{EngineError, JobEvent};
use crate::jobs::registry::{Ending, JobUpdate};
use crate::jobs::throttle::ProgressThrottle;
use crate::jobs::{JobId, JobKind};
use crate::time::Timestamp;

verus! {

/// One report of progress.
#[derive(Debug, PartialEq, Eq)]
pub struct Tick {
    pub current: u64,
    pub total: Option<u64>,
    pub phase: String,
}

/// What can happen to a run.
#[derive(Debug)]
pub enum RunInput {
    /// The run was told to stop, and the engine has been torn down.
    Stopped,
    /// The engine could not be started.
    NotStarted(EngineError),
    /// The engine reported something, at this time.
    Event(JobEvent, Timestamp),
    /// The engine's stream ended.
    StreamEnded,
}

/// What a run answers.
#[derive(Debug, PartialEq, Eq)]
pub struct RunStep {
    /// What to tell subscribers, in this order.
    pub updates: Vec<JobUpdate>,
    /// How the run ended, if it did.
    pub ending: Option<Ending>,
}

/// A run in progress.
#[derive(Debug)]
pub struct JobRun {
    id: JobId,
    kind: JobKind,
    throttle: ProgressThrottle,
    withheld: Option<Tick>,
}

/// What an engine stream that ends too soon is reported as.
pub open spec fn no_terminal_event() -> Seq<char> {
    "engine stream ended without a terminal event"@
}

impl JobRun {
    /// The job that is running.
    pub closed spec fn job(self) -> (JobId, JobKind) {
        (self.id, self.kind)
    }

    /// What has been let through to subscribers so far.
    pub closed spec fn throttle(self) -> ProgressThrottle {
        self.throttle
    }

    /// The latest report of progress, if it did not go out.
    pub closed spec fn withheld(self) -> Option<Tick> {
        self.withheld
    }

    /// The update that carries a report of progress.
    pub open spec fn carries(self, update: JobUpdate, tick: Tick) -> bool {
        update == (JobUpdate::Progress {
            id: self.job().0,
            kind: self.job().1,
            current: tick.current,
            total: tick.total,
            phase: tick.phase,
        })
    }

    /// What a run answers to something the engine reported at `at`, and what
    /// has become of the run `after` it.
    pub open spec fn hears(self, event: JobEvent, at: int, step: RunStep, after: JobRun) -> bool {
        match event {
            JobEvent::Progress { current, total, phase } => {
                &&& step.ending is None
                &&& if self.throttle().lets_through(at, phase@) {
                    &&& step.updates@.len() == 1
                    &&& self.carries(step.updates@[0], Tick { current, total, phase })
                    &&& after.withheld() is None
                    &&& after.throttle().emitted_at() == Some(at)
                    &&& after.throttle().phase() == Some(phase@)
                } else {
                    &&& step.updates@.len() == 0
                    &&& after.withheld() == Some(Tick { current, total, phase })
                    &&& after.throttle() == self.throttle()
                }
            },
            JobEvent::Log { .. } => {
                step.ending is None && step.updates@.len() == 0 && after == self
            },
            JobEvent::ItemDone { .. } => {
                step.ending is None && step.updates@.len() == 0 && after == self
            },
            JobEvent::Finished(Ok(_)) => {
                &&& step.ending == Some(Ending::Completed)
                &&& match self.withheld() {
                    Some(tick) => step.updates@.len() == 1 && self.carries(
                        step.updates@[0],
                        tick,
                    ),
                    None => step.updates@.len() == 0,
                }
            },
            JobEvent::Finished(Err(error)) => {
                &&& step.updates@.len() == 0
                &&& step.ending == Some(
                    if error is Cancelled {
                        Ending::Cancelled
                    } else {
                        Ending::Failed(error)
                    },
                )
            },
        }
    }

    /// A run of a job that has just been admitted.
    pub fn new(id: JobId, kind: JobKind) -> (run: JobRun)
        ensures
            run.job() == (id, kind),
            run.withheld() is None,
            run.throttle().interval() == 250_000_000,
            run.throttle().emitted_at() is None,
            run.throttle().phase() is None,
    {
        JobRun { id, kind, throttle: ProgressThrottle::default(), withheld: None }
    }

    /// Take in what happened next.
    ///
    /// Progress goes out as often as the throttle lets it, and a report that
    /// was held back is kept: when the engine says it finished, the last report
    /// goes out first, so a progress bar does not freeze short of its end.
    pub fn step(&mut self, input: RunInput) -> (step: RunStep)
        ensures
            final(self).job() == old(self).job(),
            final(self).throttle().interval() == old(self).throttle().interval(),
            match input {
                RunInput::Stopped => {
                    step.ending == Some(Ending::Cancelled) && step.updates@.len() == 0
                },
                RunInput::NotStarted(error) => {
                    step.ending == Some(Ending::Failed(error)) && step.updates@.len() == 0
                },
                RunInput::StreamEnded => {
                    &&& step.updates@.len() == 0
                    &&& step.ending matches Some(Ending::Failed(error))
                    &&& crate::engine::unclassified_as(error, no_terminal_event())
                },
                RunInput::Event(event, at) => old(self).hears(event, at@, step, *final(self)),
            },
            step.ending == Some(Ending::Completed) <==> (input matches RunInput::Event(
                JobEvent::Finished(Ok(_)),
                _,
            )),
            step.ending == Some(Ending::Cancelled) <==> (input is Stopped || (
            input matches RunInput::Event(
                JobEvent::Finished(Err(EngineError::Cancelled)),
                _,
            ))),
            input matches RunInput::Event(JobEvent::Finished(Err(error)), _) ==> error !is Cancelled
                ==> step.ending == Some(Ending::Failed(error)),
            step.ending is None <==> (input matches RunInput::Event(event, _) && event
                !is Finished),
            step.updates@.len() <= 1,
            forall|i: int|
                0 <= i < step.updates@.len() ==> {
                    &&& (#[trigger] step.updates@[i]) matches JobUpdate::Progress { id, kind, .. }
                    &&& id == old(self).job().0
                    &&& kind == old(self).job().1
                },
    {
        match input {
            RunInput::Stopped => RunStep { updates: Vec::new(), ending: Some(Ending::Cancelled) },
            RunInput::NotStarted(error) => RunStep {
                updates: Vec::new(),
                ending: Some(Ending::Failed(error)),
            },
            RunInput::StreamEnded => RunStep {
                updates: Vec::new(),
                ending: Some(
                    Ending::Failed(
                        EngineError::unclassified(
                            "engine stream ended without a terminal event".to_owned(),
                        ),
                    ),
                ),
            },
            RunInput::Event(event, at) => self.heard(event, at),
        }
    }

    /// Take in something the engine reported.
    fn heard(&mut self, event: JobEvent, at: Timestamp) -> (step: RunStep)
        ensures
            final(self).job() == old(self).job(),
            final(self).throttle().interval() == old(self).throttle().interval(),
            old(self).hears(event, at@, step, *final(self)),
    {
        match event {
            JobEvent::Progress { current, total, phase } => {
                if self.throttle.should_emit(at, phase.as_str()) {
                    self.withheld = None;
                    let mut updates: Vec<JobUpdate> = Vec::new();
                    updates.push(
                        JobUpdate::Progress { id: self.id, kind: self.kind, current, total, phase },
                    );
                    RunStep { updates, ending: None }
                } else {
                    self.withheld = Some(Tick { current, total, phase });
                    RunStep { updates: Vec::new(), ending: None }
                }
            },
            JobEvent::Log { .. } | JobEvent::ItemDone { .. } => RunStep {
                updates: Vec::new(),
                ending: None,
            },
            JobEvent::Finished(Ok(_)) => {
                // The last report must land or the bar stops short.
                self.throttle.release();
                let mut updates: Vec<JobUpdate> = Vec::new();
                match self.withheld.take() {
                    Some(tick) => {
                        updates.push(
                            JobUpdate::Progress {
                                id: self.id,
                                kind: self.kind,
                                current: tick.current,
                                total: tick.total,
                                phase: tick.phase,
                            },
                        );
                    },
                    None => {},
                }
                RunStep { updates, ending: Some(Ending::Completed) }
            },
            JobEvent::Finished(Err(EngineError::Cancelled)) => RunStep {
                updates: Vec::new(),
                ending: Some(Ending::Cancelled),
            },
            JobEvent::Finished(Err(error)) => RunStep {
                updates: Vec::new(),
                ending: Some(Ending::Failed(error)),
            },
        }
    }
}

/// The last report of a job that finishes always goes out, whether at once or
/// with the end of the run.
pub proof fn the_last_report_goes_out(
    run: JobRun,
    tick: Tick,
    at: int,
    step: RunStep,
    between: JobRun,
    event: JobEvent,
    later: int,
    last_step: RunStep,
    after: JobRun,
)
    requires
        run.hears(
            JobEvent::Progress { current: tick.current, total: tick.total, phase: tick.phase },
            at,
            step,
            between,
        ),
        between.job() == run.job(),
        event matches JobEvent::Finished(Ok(_)),
        between.hears(event, later, last_step, after),
    ensures
        (step.updates@ + last_step.updates@).len() == 1,
        run.carries((step.updates@ + last_step.updates@)[0], tick),
{
}

/// What goes out for a report is that report: the same counts, the same phase, and
/// the job it is about.
pub proof fn a_report_goes_out_as_it_was(
    run: JobRun,
    current: u64,
    total: Option<u64>,
    phase: String,
    at: int,
    step: RunStep,
    after: JobRun,
)
    requires
        run.hears(JobEvent::Progress { current, total, phase }, at, step, after),
    ensures
        step.ending is None,
        step.updates@.len() <= 1,
        step.updates@.len() == 1 ==> step.updates@[0] == (JobUpdate::Progress {
            id: run.job().0,
            kind: run.job().1,
            current,
            total,
            phase,
        }),
        step.updates@.len() == 0 ==> after.withheld() == Some(Tick { current, total, phase }),
        run.throttle().phase() != Some(phase@) ==> step.updates@.len() == 1,
        run.throttle().phase() == Some(phase@) ==> (run.throttle().emitted_at() matches Some(sent)
            ==> (at - sent >= run.throttle().interval() && at >= sent ==> step.updates@.len() == 1)),
        step.updates@.len() == 1 && run.throttle().interval() > 0 ==> run.throttle().phase() != Some(
            phase@,
        ) || run.throttle().emitted_at() is None || at - run.throttle().emitted_at()->0
            >= run.throttle().interval(),
{
}

/// However the engine ends, the run says the same: completed where it finished
/// well, cancelled where it was cancelled, and otherwise failed with the engine's
/// own error; and nothing else it reports ends the run.
pub proof fn a_run_ends_as_its_engine_did(
    run: JobRun,
    event: JobEvent,
    at: int,
    step: RunStep,
    after: JobRun,
)
    requires
        run.hears(event, at, step, after),
    ensures
        step.ending is Some <==> event is Finished,
        step.ending == Some(Ending::Completed) <==> (event matches JobEvent::Finished(Ok(_))),
        event matches JobEvent::Finished(Err(error)) ==> step.updates@.len() == 0
            && (error is Cancelled ==> step.ending == Some(Ending::Cancelled)) && (error
            !is Cancelled ==> step.ending == Some(Ending::Failed(error))),
        event is Log || event is ItemDone ==> step.updates@.len() == 0 && after == run,
{
}

} // verus!
