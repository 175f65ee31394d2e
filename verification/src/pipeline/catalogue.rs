//! Reading archives into the catalogue.
//!
//! The archive's row is recorded before its file list is read: a backup that
//! dies while it is being catalogued leaves a row that the next start finds.
//! The list itself crosses to the writer in batches, so a large archive never
//! exists in memory at once, and it ends with either the last batch or the word
//! that it is incomplete. A list that broke off must not pass for a whole one:
//! the snapshot would show the user's documents gone, and nothing would say
//! that anything went wrong.

use vstd::prelude::*;

use crate::engine::{EngineError, JobEvent, JobSummary};
use crate::time::Timestamp;
#[allow(unused_imports)]
use crate::time::seconds_since_epoch;

verus! {

/// How many items cross to the writer at a time.
pub const INGEST_BATCH: usize = 4_096;

/// The listing did not come to its end.
#[derive(Debug, Clone, Copy, PartialEq, Eq, Structural)]
pub struct ListingIncomplete;

/// Where reading an archive into the catalogue is.
#[derive(Debug, Clone, Copy, PartialEq, Eq, Structural)]
pub enum IngestStage {
    /// The archive's row is being recorded.
    Recording,
    /// The file list is being asked for.
    Opening,
    /// Items are being read.
    Reading,
    /// A batch is on its way to the writer.
    Sending,
    /// A report of progress is going out.
    Reporting,
    /// The writer has been sent the end, and is finishing.
    Closing,
    Over,
}

/// What happened.
#[derive(Debug)]
pub enum IngestInput<T> {
    /// The row was recorded, or was not.
    Recorded(Result<i64, EngineError>),
    /// The file list is there, or is not.
    Opened(Result<(), EngineError>),
    /// The next item of the list, or why there is none.
    Item(Result<T, EngineError>),
    /// The list is at its end; and whether the job has been cancelled.
    Ended { cancelled: bool },
    /// Whether the writer took the batch; and whether the job has been
    /// cancelled.
    Sent { accepted: bool, cancelled: bool },
    /// The report went out; and whether the job has been cancelled by now.
    Reported { cancelled: bool },
    /// What came of the writer: whether it got to its end, and if so what it
    /// wrote; and whether the job has been cancelled.
    Written { writer: Result<Result<usize, EngineError>, EngineError>, cancelled: bool },
}

/// What to do next.
#[derive(Debug)]
pub enum IngestOrder<T> {
    /// Record the archive's row.
    Record,
    /// Ask for the file list of the archive in this row.
    Open(Option<i64>),
    /// Read the next item.
    Read,
    /// Send a batch to the writer.
    Send(Vec<T>),
    /// Report how many items have crossed.
    Report(JobEvent),
    /// Send the writer the last batch, or the word that there is none, and wait
    /// for it to finish.
    Close(Result<Vec<T>, ListingIncomplete>),
    /// It is over, with the number of items or a reason.
    Finish(Result<usize, EngineError>),
}

/// An archive being read into the catalogue.
pub struct Ingest<T> {
    stage: IngestStage,
    /// Whether progress is reported after each batch.
    reports: bool,
    batch: Vec<T>,
    sent: usize,
    failure: Option<EngineError>,
    read: Ghost<Seq<T>>,
    crossed: Ghost<Seq<T>>,
}

impl<T> Ingest<T> {
    /// Where it is.
    pub closed spec fn stage(self) -> IngestStage {
        self.stage
    }

    /// Whether progress is reported after each batch.
    pub closed spec fn reports(self) -> bool {
        self.reports
    }

    /// Every item that has been read, in order.
    pub closed spec fn read(self) -> Seq<T> {
        self.read@
    }

    /// The items that have been sent to the writer, in order.
    pub closed spec fn crossed(self) -> Seq<T> {
        self.crossed@
    }

    /// The items read that have not been sent yet.
    pub closed spec fn held(self) -> Seq<T> {
        self.batch@
    }

    /// Why the listing broke off, if it did.
    pub closed spec fn failure(self) -> Option<EngineError> {
        self.failure
    }

    /// Nothing is lost on the way: what has been read is what has been sent,
    /// followed by what is held, and that is always less than a batch.
    pub closed spec fn wf(self) -> bool {
        &&& self.read@ == self.crossed@ + self.batch@
        &&& self.sent == self.crossed@.len()
        &&& self.batch@.len() < INGEST_BATCH
    }

    /// Whether an input is about what is being done.
    pub open spec fn awaits(self, input: IngestInput<T>) -> bool {
        match input {
            IngestInput::Recorded(_) => self.stage() == IngestStage::Recording,
            IngestInput::Opened(_) => self.stage() == IngestStage::Opening,
            IngestInput::Item(_) => self.stage() == IngestStage::Reading,
            IngestInput::Ended { .. } => self.stage() == IngestStage::Reading,
            IngestInput::Sent { .. } => self.stage() == IngestStage::Sending,
            IngestInput::Reported { .. } => self.stage() == IngestStage::Reporting,
            IngestInput::Written { .. } => self.stage() == IngestStage::Closing,
        }
    }

    /// The same listing, elsewhere in its course.
    pub open spec fn same_items(self, before: Ingest<T>) -> bool {
        &&& self.read() == before.read()
        &&& self.crossed() == before.crossed()
        &&& self.held() == before.held()
        &&& self.reports() == before.reports()
    }

    /// Whether the writer is told that the listing is whole, with what was left
    /// of it, or is told that it is not.
    pub open spec fn closes(self, order: IngestOrder<T>, cancelled: bool) -> bool {
        &&& order matches IngestOrder::Close(last)
        &&& match last {
            Ok(rest) => !cancelled && self.failure() is None && rest@ == self.held(),
            Err(_) => cancelled || self.failure() is Some,
        }
    }

    /// What follows on an input: `after` it, and the order given.
    pub open spec fn follows(
        self,
        input: IngestInput<T>,
        after: Ingest<T>,
        order: IngestOrder<T>,
    ) -> bool {
        match input {
            IngestInput::Recorded(Err(error)) => {
                &&& order == IngestOrder::<T>::Finish(Err(error))
                &&& after.stage() == IngestStage::Over
            },
            IngestInput::Recorded(Ok(seq)) => {
                &&& order == IngestOrder::<T>::Open(Some(seq))
                &&& after.stage() == IngestStage::Opening
                &&& after.same_items(self)
                &&& after.failure() == self.failure()
            },
            IngestInput::Opened(Ok(_)) => {
                &&& order == IngestOrder::<T>::Read
                &&& after.stage() == IngestStage::Reading
                &&& after.same_items(self)
                &&& after.failure() == self.failure()
            },
            // Without a file list the writer is told so: left alone, it would
            // take an empty archive for a whole one.
            IngestInput::Opened(Err(error)) => {
                &&& order == IngestOrder::<T>::Close(Err(ListingIncomplete))
                &&& after.stage() == IngestStage::Closing
                &&& after.same_items(self)
                &&& after.failure() == Some(error)
            },
            IngestInput::Item(Ok(item)) => {
                &&& after.read() == self.read().push(item)
                &&& after.failure() == self.failure()
                &&& after.reports() == self.reports()
                &&& if self.held().len() + 1 < INGEST_BATCH {
                    &&& order == IngestOrder::<T>::Read
                    &&& after.stage() == IngestStage::Reading
                    &&& after.crossed() == self.crossed()
                    &&& after.held() == self.held().push(item)
                } else {
                    &&& order matches IngestOrder::Send(batch)
                    &&& batch@ == self.held().push(item)
                    &&& after.stage() == IngestStage::Sending
                    &&& after.crossed() == self.crossed() + batch@
                    &&& after.held() == Seq::<T>::empty()
                }
            },
            IngestInput::Item(Err(error)) => {
                &&& order == IngestOrder::<T>::Close(Err(ListingIncomplete))
                &&& after.stage() == IngestStage::Closing
                &&& after.same_items(self)
                &&& after.failure() == Some(error)
            },
            IngestInput::Ended { cancelled } => {
                &&& self.closes(order, cancelled)
                &&& after.stage() == IngestStage::Closing
                &&& after.failure() == self.failure()
                &&& after.read() == self.read()
                &&& after.crossed() == self.crossed()
            },
            IngestInput::Sent { accepted, cancelled } => {
                &&& after.failure() == self.failure()
                &&& after.read() == self.read()
                &&& after.crossed() == self.crossed()
                &&& if !accepted {
                    &&& self.closes(order, cancelled)
                    &&& after.stage() == IngestStage::Closing
                } else if self.reports() {
                    &&& order matches IngestOrder::Report(
                        JobEvent::Progress { current, total, phase },
                    )
                    &&& current == self.crossed().len()
                    &&& total is None
                    &&& phase@ == "cataloguing"@
                    &&& after.stage() == IngestStage::Reporting
                    &&& after.same_items(self)
                } else {
                    &&& order == IngestOrder::<T>::Read
                    &&& after.stage() == IngestStage::Reading
                    &&& after.same_items(self)
                }
            },
            IngestInput::Reported { cancelled } => {
                &&& after.failure() == self.failure()
                &&& after.read() == self.read()
                &&& after.crossed() == self.crossed()
                &&& if cancelled {
                    &&& self.closes(order, true)
                    &&& after.stage() == IngestStage::Closing
                } else {
                    &&& order == IngestOrder::<T>::Read
                    &&& after.stage() == IngestStage::Reading
                    &&& after.same_items(self)
                }
            },
            // Why the listing broke off is reported rather than what the writer
            // made of that.
            IngestInput::Written { writer, cancelled } => {
                &&& after.stage() == IngestStage::Over
                &&& order == IngestOrder::<T>::Finish(
                    match writer {
                        Err(unfinished) => Err(unfinished),
                        Ok(written) => match self.failure() {
                            Some(error) => Err(error),
                            None => match written {
                                Err(error) => Err(error),
                                Ok(items) => if cancelled {
                                    Err(EngineError::Cancelled)
                                } else {
                                    Ok(items)
                                },
                            },
                        },
                    },
                )
            },
        }
    }

    /// Begin with an archive that has just been written: its row comes first.
    pub fn of_new_archive() -> (started: (Ingest<T>, IngestOrder<T>))
        ensures
            started.0.wf(),
            started.0.stage() == IngestStage::Recording,
            started.0.reports(),
            started.0.read() == Seq::<T>::empty(),
            started.0.crossed() == Seq::<T>::empty(),
            started.0.failure() is None,
            started.1 == IngestOrder::<T>::Record,
    {
        let run = Ingest {
            stage: IngestStage::Recording,
            reports: true,
            batch: Vec::new(),
            sent: 0,
            failure: None,
            read: Ghost(Seq::empty()),
            crossed: Ghost(Seq::empty()),
        };
        assert(run.read@ =~= run.crossed@ + run.batch@);
        (run, IngestOrder::Record)
    }

    /// Begin with an archive whose row is there already.
    pub fn of_known_archive() -> (started: (Ingest<T>, IngestOrder<T>))
        ensures
            started.0.wf(),
            started.0.stage() == IngestStage::Opening,
            !started.0.reports(),
            started.0.read() == Seq::<T>::empty(),
            started.0.crossed() == Seq::<T>::empty(),
            started.0.failure() is None,
            started.1 == IngestOrder::<T>::Open(None),
    {
        let run = Ingest {
            stage: IngestStage::Opening,
            reports: false,
            batch: Vec::new(),
            sent: 0,
            failure: None,
            read: Ghost(Seq::empty()),
            crossed: Ghost(Seq::empty()),
        };
        assert(run.read@ =~= run.crossed@ + run.batch@);
        (run, IngestOrder::Open(None))
    }

    /// The last word to the writer.
    fn close(self, cancelled: bool) -> (closed: (Ingest<T>, IngestOrder<T>))
        requires
            self.wf(),
        ensures
            self.closes(closed.1, cancelled),
            closed.0.stage() == IngestStage::Closing,
            closed.0.failure() == self.failure(),
            closed.0.read() == self.read(),
            closed.0.crossed() == self.crossed(),
    {
        let Ingest { reports, batch, sent, failure, read, crossed, .. } = self;
        let last = if cancelled || failure.is_some() {
            Err(ListingIncomplete)
        } else {
            Ok(batch)
        };
        let run = Ingest {
            stage: IngestStage::Closing,
            reports,
            batch: Vec::new(),
            sent,
            failure,
            read,
            crossed,
        };
        (run, IngestOrder::Close(last))
    }

    /// Take in what happened.
    pub fn step(self, input: IngestInput<T>) -> (next: (Ingest<T>, IngestOrder<T>))
        requires
            self.awaits(input),
            self.stage() == IngestStage::Closing || self.wf(),
            input matches IngestInput::Item(Ok(_)) ==> self.read().len() < usize::MAX,
        ensures
            self.follows(input, next.0, next.1),
            next.0.stage() == IngestStage::Closing || next.0.stage() == IngestStage::Over
                || next.0.wf(),
            (next.1 matches IngestOrder::Finish(Ok(_))) <==> self.failure() is None && (
            input matches IngestInput::Written { writer: Ok(Ok(_)), cancelled: false }),
            next.1 matches IngestOrder::Close(Ok(_)) ==> self.failure() is None && (
            input matches IngestInput::Ended { cancelled: false } || (
            input matches IngestInput::Sent { accepted: false, cancelled: false })),
            next.1 matches IngestOrder::Send(batch) ==> batch@.len() == 4_096,
    {
        let mut run = self;
        match input {
            IngestInput::Recorded(Err(error)) => {
                run.stage = IngestStage::Over;
                (run, IngestOrder::Finish(Err(error)))
            },
            IngestInput::Recorded(Ok(seq)) => {
                run.stage = IngestStage::Opening;
                (run, IngestOrder::Open(Some(seq)))
            },
            IngestInput::Opened(Ok(_)) => {
                run.stage = IngestStage::Reading;
                (run, IngestOrder::Read)
            },
            IngestInput::Opened(Err(error)) | IngestInput::Item(Err(error)) => {
                run.stage = IngestStage::Closing;
                run.failure = Some(error);
                (run, IngestOrder::Close(Err(ListingIncomplete)))
            },
            IngestInput::Item(Ok(item)) => {
                run.read = Ghost(run.read@.push(item));
                run.batch.push(item);
                assert(run.read@ =~= run.crossed@ + run.batch@);
                if run.batch.len() < INGEST_BATCH {
                    run.stage = IngestStage::Reading;
                    return (run, IngestOrder::Read);
                }
                let Ingest { reports, batch, sent, failure, read, crossed, .. } = run;
                let run = Ingest {
                    stage: IngestStage::Sending,
                    reports,
                    batch: Vec::new(),
                    sent: sent + batch.len(),
                    failure,
                    read,
                    crossed: Ghost(crossed@ + batch@),
                };
                assert(run.read@ =~= run.crossed@ + run.batch@);
                (run, IngestOrder::Send(batch))
            },
            IngestInput::Ended { cancelled } => run.close(cancelled),
            IngestInput::Sent { accepted, cancelled } => {
                if !accepted {
                    run.close(cancelled)
                } else if run.reports {
                    run.stage = IngestStage::Reporting;
                    // A listing has no denominator: a count, and no percentage.
                    let progress = JobEvent::Progress {
                        current: run.sent as u64,
                        total: None,
                        phase: "cataloguing".to_owned(),
                    };
                    (run, IngestOrder::Report(progress))
                } else {
                    run.stage = IngestStage::Reading;
                    (run, IngestOrder::Read)
                }
            },
            IngestInput::Reported { cancelled } => {
                if cancelled {
                    run.close(true)
                } else {
                    run.stage = IngestStage::Reading;
                    (run, IngestOrder::Read)
                }
            },
            IngestInput::Written { writer, cancelled } => {
                run.stage = IngestStage::Over;
                let failure = run.failure.take();
                let result = match writer {
                    Err(unfinished) => Err(unfinished),
                    Ok(written) => match failure {
                        Some(error) => Err(error),
                        None => match written {
                            Err(error) => Err(error),
                            Ok(items) => {
                                if cancelled {
                                    Err(EngineError::Cancelled)
                                } else {
                                    Ok(items)
                                }
                            },
                        },
                    },
                };
                (run, IngestOrder::Finish(result))
            },
        }
    }
}

/// The writer is told that a listing is whole only when it is: every item that
/// was read has crossed or is in the last batch, none of them twice and in
/// order, and neither a failure nor a cancellation cut it short.
pub proof fn a_whole_listing_is_whole<T>(run: Ingest<T>, last: Vec<T>, cancelled: bool)
    requires
        run.wf(),
        run.closes(IngestOrder::Close(Ok(last)), cancelled),
    ensures
        run.crossed() + last@ == run.read(),
        run.failure() is None,
        !cancelled,
{
}

/// A listing that does not open, or that breaks off, is never written: the writer
/// is told, nothing more crosses to it, and the reason is what is reported.
pub proof fn a_broken_listing_is_reported<T>(
    run: Ingest<T>,
    error: EngineError,
    after: Ingest<T>,
    order: IngestOrder<T>,
    written: Result<usize, EngineError>,
    cancelled: bool,
    end: Ingest<T>,
    verdict: IngestOrder<T>,
)
    requires
        run.follows(IngestInput::Opened(Err(error)), after, order) || run.follows(
            IngestInput::Item(Err(error)),
            after,
            order,
        ),
        after.follows(IngestInput::Written { writer: Ok(written), cancelled }, end, verdict),
    ensures
        order == IngestOrder::<T>::Close(Err(ListingIncomplete)),
        after.crossed() == run.crossed(),
        verdict == IngestOrder::<T>::Finish(Err(error)),
{
}

/// What is recorded of an archive before its files are read: its name, and when
/// it was taken, in whole seconds since the epoch.
pub fn archive_row(name: &str, created_at: Timestamp) -> (row: (String, i64))
    ensures
        row.0@ == name@,
        row.1 == seconds_since_epoch(created_at@),
{
    (name.to_owned(), created_at.epoch_secs() as i64)
}

/// Batches turned back into single items, in order.
#[derive(Debug)]
pub struct BatchedItems<T> {
    /// What is left of the current batch, last item first.
    current: Vec<T>,
}

impl<T> BatchedItems<T> {
    /// The items still to come of the batches so far.
    pub closed spec fn items(self) -> Seq<T> {
        self.current@.reverse()
    }

    /// No batch yet.
    pub fn new() -> (items: BatchedItems<T>)
        ensures
            items.items() == Seq::<T>::empty(),
    {
        let items = BatchedItems { current: Vec::new() };
        assert(items.items() =~= Seq::<T>::empty());
        items
    }

    /// The next item, or `None` when another batch is needed.
    pub fn next(&mut self) -> (item: Option<T>)
        ensures
            old(self).items().len() == 0 ==> item is None && final(self).items()
                == old(self).items(),
            old(self).items().len() > 0 ==> item == Some(old(self).items()[0])
                && final(self).items() == old(self).items().drop_first(),
    {
        let ghost before = self.current@;
        let item = self.current.pop();
        assert(before.len() > 0 ==> self.current@.reverse() =~= before.reverse().drop_first());
        item
    }

    /// Go on with another batch, once the one before has been used up.
    pub fn refill(&mut self, batch: Vec<T>)
        requires
            old(self).items().len() == 0,
        ensures
            final(self).items() == batch@,
    {
        let mut rest = batch;
        let mut reversed: Vec<T> = Vec::new();
        while rest.len() > 0
            invariant
                reversed@ + rest@.reverse() == batch@.reverse(),
            decreases rest@.len(),
        {
            let ghost (a, b) = (reversed@, rest@);
            match rest.pop() {
                Some(item) => {
                    reversed.push(item);
                    assert(reversed@ + rest@.reverse() =~= a + b.reverse());
                },
                None => {},
            }
        }
        assert(reversed@ + rest@.reverse() =~= reversed@);
        assert(reversed@.reverse() =~= batch@);
        self.current = reversed;
    }
}

/// An archive that a repository holds.
#[derive(Debug, PartialEq, Eq)]
pub struct Held {
    pub name: String,
    /// When it was taken, in seconds since the epoch.
    pub ts: i64,
}

/// An archive that is in the catalogue by name only.
#[derive(Debug, PartialEq, Eq)]
pub struct Pending {
    pub seq: i64,
    pub name: String,
}

/// Where catching up is.
#[derive(Debug, Clone, Copy, PartialEq, Eq, Structural)]
pub enum CatchUpStage {
    /// The repository is being asked what it holds.
    Listing,
    /// The catalogue is being told.
    Syncing,
    /// The catalogue is being asked what it has only the name of.
    Asking,
    /// One archive is being read.
    Ingesting,
    Over,
}

/// What happened.
#[derive(Debug)]
pub enum CatchUpInput {
    /// What the repository holds.
    Listed(Result<Vec<Held>, EngineError>),
    Synced(Result<(), EngineError>),
    /// The archives that are still to be read, newest first; and whether the
    /// job has been cancelled.
    Outstanding { pending: Result<Vec<Pending>, EngineError>, cancelled: bool },
    /// One archive was read, or was not; and whether the job has been cancelled.
    Ingested { result: Result<usize, EngineError>, cancelled: bool },
}

/// What to do next.
#[derive(Debug)]
pub enum CatchUpOrder {
    /// Ask the repository what it holds.
    List,
    /// Tell the catalogue that this is what the repository holds.
    Sync(Vec<Held>),
    /// Ask the catalogue what is outstanding.
    Ask,
    /// Report progress, and read this archive.
    Ingest { progress: JobEvent, seq: i64, name: String },
    /// It is over, with this result, after a last report if there is one.
    Finish { report: Option<JobEvent>, result: Result<JobSummary, EngineError> },
}

/// The catalogue catching up with the repository.
///
/// Everything outstanding is read, not merely what is new: a run that was cut
/// short left work behind, and this is where it is picked up. One archive that
/// cannot be read does not stop the others.
#[derive(Debug)]
pub struct CatchUp {
    pub stage: CatchUpStage,
    pub pending: Vec<Pending>,
    /// How many of them have had their turn.
    pub done: usize,
}

/// A report of progress, field by field.
pub open spec fn reports(event: JobEvent, current: int, total: int, phase: Seq<char>) -> bool {
    &&& event matches JobEvent::Progress { current: c, total: t, phase: p }
    &&& c == current
    &&& t == Some(total as u64)
    &&& p@ == phase
}

impl CatchUp {
    pub open spec fn wf(self) -> bool {
        self.done <= self.pending@.len() <= u64::MAX
    }

    /// Whether an input is about what is being done.
    pub open spec fn awaits(self, input: CatchUpInput) -> bool {
        match input {
            CatchUpInput::Listed(_) => self.stage == CatchUpStage::Listing,
            CatchUpInput::Synced(_) => self.stage == CatchUpStage::Syncing,
            CatchUpInput::Outstanding { .. } => self.stage == CatchUpStage::Asking,
            CatchUpInput::Ingested { .. } => self.stage == CatchUpStage::Ingesting && self.done
                < self.pending@.len(),
        }
    }

    /// What is ordered when it is the turn of archive `self.done`: nothing more
    /// once the job is cancelled, and a last report once all have had theirs.
    pub open spec fn turn(self, cancelled: bool, order: CatchUpOrder) -> bool {
        let total = self.pending@.len() as int;
        if self.done >= total {
            &&& order matches CatchUpOrder::Finish { report: Some(progress), result: Ok(summary) }
            &&& reports(progress, total, total, ""@)
            &&& summary.archive_id is None
            &&& self.stage == CatchUpStage::Over
        } else if cancelled {
            &&& order matches CatchUpOrder::Finish { report: None, result: Err(error) }
            &&& error == EngineError::Cancelled
            &&& self.stage == CatchUpStage::Over
        } else {
            let next = self.pending@[self.done as int];
            &&& order matches CatchUpOrder::Ingest { progress, seq, name }
            &&& reports(progress, self.done as int, total, next.name@)
            &&& seq == next.seq
            &&& name@ == next.name@
            &&& self.stage == CatchUpStage::Ingesting
        }
    }

    /// The same archives, of which as many have had their turn.
    pub open spec fn same_turns(self, before: CatchUp) -> bool {
        self.pending == before.pending && self.done == before.done
    }

    /// It is over, with this failure.
    pub open spec fn breaks_off(
        self,
        error: EngineError,
        after: CatchUp,
        order: CatchUpOrder,
    ) -> bool {
        &&& order == (CatchUpOrder::Finish { report: None, result: Err(error) })
        &&& after.stage == CatchUpStage::Over
        &&& after.same_turns(self)
    }

    /// What follows on an input.
    pub open spec fn follows(
        self,
        input: CatchUpInput,
        after: CatchUp,
        order: CatchUpOrder,
    ) -> bool {
        match input {
            // The catalogue is told what the repository said, and nothing else.
            CatchUpInput::Listed(Ok(held)) => {
                &&& order == CatchUpOrder::Sync(held)
                &&& after.stage == CatchUpStage::Syncing
                &&& after.same_turns(self)
            },
            CatchUpInput::Synced(Ok(_)) => {
                &&& order is Ask
                &&& after.stage == CatchUpStage::Asking
                &&& after.same_turns(self)
            },
            CatchUpInput::Listed(Err(error)) => self.breaks_off(error, after, order),
            CatchUpInput::Synced(Err(error)) => self.breaks_off(error, after, order),
            CatchUpInput::Outstanding { pending: Err(error), .. } => self.breaks_off(
                error,
                after,
                order,
            ),
            CatchUpInput::Outstanding { pending: Ok(pending), cancelled } => {
                &&& after.done == 0
                &&& after.pending == pending
                &&& if pending@.len() == 0 {
                    &&& order matches CatchUpOrder::Finish { report: None, result: Ok(summary) }
                    &&& summary.archive_id is None
                    &&& after.stage == CatchUpStage::Over
                } else {
                    after.turn(cancelled, order)
                }
            },
            CatchUpInput::Ingested { cancelled, .. } => {
                &&& after.pending == self.pending
                &&& after.done == self.done + 1
                &&& after.turn(cancelled, order)
            },
        }
    }

    /// Begin.
    pub fn start() -> (started: (CatchUp, CatchUpOrder))
        ensures
            started.0.wf(),
            started.0.stage == CatchUpStage::Listing,
            started.0.pending@ == Seq::<Pending>::empty(),
            started.0.done == 0,
            started.1 is List,
    {
        (
            CatchUp { stage: CatchUpStage::Listing, pending: Vec::new(), done: 0 },
            CatchUpOrder::List,
        )
    }

    /// The order for the archive whose turn it is.
    fn take_turn(self, cancelled: bool) -> (next: (CatchUp, CatchUpOrder))
        requires
            self.wf(),
        ensures
            next.0.wf(),
            next.0.pending == self.pending,
            next.0.done == self.done,
            next.0.turn(cancelled, next.1),
    {
        let CatchUp { pending, done, .. } = self;
        let total: u64 = pending.len() as u64;
        if done >= pending.len() {
            let progress = JobEvent::Progress {
                current: total,
                total: Some(total),
                phase: "".to_owned(),
            };
            return (
                CatchUp { stage: CatchUpStage::Over, pending, done },
                CatchUpOrder::Finish {
                    report: Some(progress),
                    result: Ok(JobSummary { archive_id: None }),
                },
            );
        }
        if cancelled {
            // Nothing is lost: what remains is still outstanding.
            return (
                CatchUp { stage: CatchUpStage::Over, pending, done },
                CatchUpOrder::Finish { report: None, result: Err(EngineError::Cancelled) },
            );
        }
        let seq: i64 = pending[done].seq;
        let name = pending[done].name.clone();
        let progress = JobEvent::Progress {
            current: done as u64,
            total: Some(total),
            phase: name.clone(),
        };
        (
            CatchUp { stage: CatchUpStage::Ingesting, pending, done },
            CatchUpOrder::Ingest { progress, seq, name },
        )
    }

    /// Take in what happened.
    pub fn step(self, input: CatchUpInput) -> (next: (CatchUp, CatchUpOrder))
        requires
            self.wf(),
            self.awaits(input),
        ensures
            next.0.wf(),
            self.follows(input, next.0, next.1),
    {
        let CatchUp { pending, done, .. } = self;
        match input {
            CatchUpInput::Listed(Ok(held)) => (
                CatchUp { stage: CatchUpStage::Syncing, pending, done },
                CatchUpOrder::Sync(held),
            ),
            CatchUpInput::Synced(Ok(_)) => (
                CatchUp { stage: CatchUpStage::Asking, pending, done },
                CatchUpOrder::Ask,
            ),
            CatchUpInput::Listed(Err(error)) | CatchUpInput::Synced(Err(error)) => (
                CatchUp { stage: CatchUpStage::Over, pending, done },
                CatchUpOrder::Finish { report: None, result: Err(error) },
            ),
            CatchUpInput::Outstanding { pending: Err(error), .. } => (
                CatchUp { stage: CatchUpStage::Over, pending, done },
                CatchUpOrder::Finish { report: None, result: Err(error) },
            ),
            CatchUpInput::Outstanding { pending, cancelled } => {
                let pending = match pending {
                    Ok(pending) => pending,
                    Err(_) => Vec::new(),
                };
                if pending.len() == 0 {
                    return (
                        CatchUp { stage: CatchUpStage::Over, pending, done: 0 },
                        CatchUpOrder::Finish {
                            report: None,
                            result: Ok(JobSummary { archive_id: None }),
                        },
                    );
                }
                CatchUp { stage: CatchUpStage::Ingesting, pending, done: 0 }.take_turn(cancelled)
            },
            CatchUpInput::Ingested { cancelled, .. } => {
                let total: usize = pending.len();
                assert(done < total);
                CatchUp { stage: CatchUpStage::Ingesting, pending, done: done + 1 }.take_turn(
                    cancelled,
                )
            },
        }
    }
}

/// A whole course of catching up: what happened, where it was before and after each
/// of these things, and what was ordered at its start and after each of them.
pub open spec fn is_course(
    inputs: Seq<CatchUpInput>,
    states: Seq<CatchUp>,
    orders: Seq<CatchUpOrder>,
) -> bool {
    &&& states.len() == inputs.len() + 1
    &&& orders.len() == inputs.len() + 1
    &&& states[0].stage == CatchUpStage::Listing
    &&& states[0].pending@.len() == 0
    &&& states[0].done == 0
    &&& orders[0] is List
    &&& forall|i: int|
        0 <= i < inputs.len() ==> states[i].awaits(#[trigger] inputs[i]) && states[i].follows(
            inputs[i],
            states[i + 1],
            orders[i + 1],
        )
}

/// The archives that were ordered to be read, in order.
pub open spec fn read_in(orders: Seq<CatchUpOrder>) -> Seq<(i64, Seq<char>)>
    decreases orders.len(),
{
    if orders.len() == 0 {
        Seq::empty()
    } else {
        let rest = read_in(orders.drop_last());
        match orders.last() {
            CatchUpOrder::Ingest { seq, name, .. } => rest.push((seq, name@)),
            _ => rest,
        }
    }
}

/// Archives, as plain values.
pub open spec fn as_rows(pending: Seq<Pending>) -> Seq<(i64, Seq<char>)> {
    pending.map_values(|p: Pending| (p.seq, p.name@))
}

/// The archives that the catalogue said are outstanding, if it has said so.
pub open spec fn outstanding_in(inputs: Seq<CatchUpInput>) -> Option<Seq<Pending>> {
    if inputs.len() >= 3 {
        match inputs[2] {
            CatchUpInput::Outstanding { pending: Ok(pending), .. } => Some(pending@),
            _ => None,
        }
    } else {
        None
    }
}

/// What holds at every point of a course: how far it is, and what has been read.
pub open spec fn on_course(
    inputs: Seq<CatchUpInput>,
    last: CatchUp,
    orders: Seq<CatchUpOrder>,
) -> bool {
    let n = inputs.len();
    let pending = last.pending@;
    let turns = last.done + if last.stage == CatchUpStage::Ingesting {
        1int
    } else {
        0
    };
    &&& turns <= pending.len()
    &&& read_in(orders) == as_rows(pending).take(turns)
    &&& pending == match outstanding_in(inputs) {
        Some(told) => told,
        None => Seq::empty(),
    }
    &&& match last.stage {
        CatchUpStage::Listing => n == 0 && orders.last() is List,
        CatchUpStage::Syncing => n == 1 && orders.last() is Sync,
        CatchUpStage::Asking => n == 2 && orders.last() is Ask,
        CatchUpStage::Ingesting => {
            &&& n >= 3
            &&& outstanding_in(inputs) is Some
            &&& last.done == n - 3
            &&& orders.last() is Ingest
        },
        CatchUpStage::Over => {
            &&& orders.last() is Finish
            &&& orders.last()->result is Ok ==> {
                &&& outstanding_in(inputs) is Some
                &&& last.done == pending.len()
                &&& n == 3 + pending.len()
            }
        },
    }
}

/// Every point of a course is as [`on_course`] says.
proof fn lemma_on_course(
    inputs: Seq<CatchUpInput>,
    states: Seq<CatchUp>,
    orders: Seq<CatchUpOrder>,
)
    requires
        is_course(inputs, states, orders),
    ensures
        on_course(inputs, states.last(), orders),
    decreases inputs.len(),
{
    reveal_with_fuel(read_in, 2);
    let n = inputs.len() as int;
    let last = states.last();
    if n == 0 {
        assert(orders.drop_last() =~= Seq::<CatchUpOrder>::empty());
        assert(last.pending@ =~= Seq::<Pending>::empty());
        assert(as_rows(last.pending@).take(0) =~= Seq::<(i64, Seq<char>)>::empty());
    } else {
        let (i, s, o) = (inputs.drop_last(), states.drop_last(), orders.drop_last());
        assert forall|k: int| 0 <= k < i.len() implies s[k].awaits(#[trigger] i[k]) && s[k].follows(
            i[k],
            s[k + 1],
            o[k + 1],
        ) by {
            assert(i[k] == inputs[k]);
        }
        lemma_on_course(i, s, o);
        let before = s.last();
        let input = inputs[n - 1];
        assert(before == states[n - 1]);
        assert(before.awaits(input) && before.follows(input, last, orders.last()));
        assert(n > 3 ==> i[2] == inputs[2]);
        assert(read_in(orders) == match orders.last() {
            CatchUpOrder::Ingest { seq, name, .. } => read_in(o).push((seq, name@)),
            _ => read_in(o),
        });
        let all = as_rows(last.pending@);
        match input {
            CatchUpInput::Outstanding { pending: Ok(pending), .. } => {
                assert(n == 3);
                assert(read_in(o) =~= Seq::<(i64, Seq<char>)>::empty());
                assert(all.take(0) =~= Seq::<(i64, Seq<char>)>::empty());
                if orders.last() is Ingest {
                    assert(read_in(orders) =~= all.take(1));
                }
            },
            CatchUpInput::Ingested { .. } => {
                assert(before.done + 1 == last.done);
                assert(read_in(o) == all.take(last.done as int));
                if orders.last() is Ingest {
                    assert(read_in(orders) =~= all.take(last.done + 1));
                }
            },
            _ => {},
        }
    }
}

/// Whether nothing cuts a course short: the repository, and the catalogue where it
/// is told and asked, answer, and nobody cancels. Archives may fail to be read.
pub open spec fn undisturbed(inputs: Seq<CatchUpInput>) -> bool {
    forall|i: int|
        0 <= i < inputs.len() ==> match #[trigger] inputs[i] {
            CatchUpInput::Listed(listed) => listed is Ok,
            CatchUpInput::Synced(synced) => synced is Ok,
            CatchUpInput::Outstanding { pending, cancelled } => pending is Ok && !cancelled,
            CatchUpInput::Ingested { cancelled, .. } => !cancelled,
        }
}

/// Outstanding archives have their turns one by one, in the order in which the
/// catalogue named them, and never twice: what has been ordered to be read, at any
/// point of any course, is the front of that list. Where catching up succeeds, it is
/// all of it; and the catalogue was told exactly what the repository said it holds.
pub proof fn outstanding_archives_have_their_turns_in_order(
    inputs: Seq<CatchUpInput>,
    states: Seq<CatchUp>,
    orders: Seq<CatchUpOrder>,
)
    requires
        is_course(inputs, states, orders),
    ensures
        ({
            let told = match outstanding_in(inputs) {
                Some(pending) => as_rows(pending),
                None => Seq::empty(),
            };
            let read = read_in(orders);
            &&& read.len() <= told.len()
            &&& read == told.take(read.len() as int)
            &&& orders.last() matches CatchUpOrder::Finish { result: Ok(_), .. } ==> {
                &&& outstanding_in(inputs) is Some
                &&& read == told
            }
        }),
        inputs.len() > 0 ==> inputs[0] is Listed && (inputs[0] matches CatchUpInput::Listed(Ok(held))
            ==> orders[1] == CatchUpOrder::Sync(held)),
{
    lemma_on_course(inputs, states, orders);
    let all = as_rows(states.last().pending@);
    assert(all.take(all.len() as int) =~= all);
    assert(as_rows(Seq::<Pending>::empty()) =~= Seq::<(i64, Seq<char>)>::empty());
    if inputs.len() > 0 {
        assert(states[0].awaits(inputs[0]) && states[0].follows(inputs[0], states[1], orders[1]));
    }
}

/// Catching up is owed: where nothing cuts it short, it goes on until every
/// outstanding archive has had its turn, however many of them could not be read, and
/// then it has succeeded.
pub proof fn one_broken_archive_does_not_stop_the_others(
    inputs: Seq<CatchUpInput>,
    states: Seq<CatchUp>,
    orders: Seq<CatchUpOrder>,
)
    requires
        is_course(inputs, states, orders),
        undisturbed(inputs),
    ensures
        orders.last() is Finish <==> outstanding_in(inputs) is Some && inputs.len() == 3
            + outstanding_in(inputs)->0.len(),
        orders.last() is Finish ==> orders.last()->result is Ok && read_in(orders) == as_rows(
            outstanding_in(inputs)->0,
        ),
    decreases inputs.len(),
{
    lemma_on_course(inputs, states, orders);
    let n = inputs.len() as int;
    if n > 0 {
        assert(states[n - 1].awaits(inputs[n - 1]) && states[n - 1].follows(
            inputs[n - 1],
            states[n],
            orders[n],
        ));
        outstanding_archives_have_their_turns_in_order(inputs, states, orders);
    }
}

/// Catching up once more with nothing outstanding changes nothing: no archive is
/// read, and it succeeds at once.
pub proof fn nothing_outstanding_is_left_alone(
    inputs: Seq<CatchUpInput>,
    states: Seq<CatchUp>,
    orders: Seq<CatchUpOrder>,
)
    requires
        is_course(inputs, states, orders),
        outstanding_in(inputs) is Some,
        outstanding_in(inputs)->0.len() == 0,
    ensures
        read_in(orders).len() == 0,
        inputs.len() == 3,
        orders.last() matches CatchUpOrder::Finish { report: None, result: Ok(_) },
{
    lemma_on_course(inputs, states, orders);
    assert(states[2].awaits(inputs[2]) && states[2].follows(inputs[2], states[3], orders[3]));
    if inputs.len() > 3 {
        assert(states[3].awaits(inputs[3]));
    }
}

/// What a catalogue knows of a repository: the archives in it by name, and whether
/// the files of each are listed.
pub type Shelf = Map<Seq<char>, bool>;

/// Whether an archive of this name is among those held.
pub open spec fn is_held(held: Seq<Held>, name: Seq<char>) -> bool {
    exists|k: int| 0 <= k < held.len() && (#[trigger] held[k]).name@ == name
}

/// Whether an archive of this name is among those outstanding.
pub open spec fn is_outstanding(pending: Seq<Pending>, name: Seq<char>) -> bool {
    exists|k: int| 0 <= k < pending.len() && (#[trigger] pending[k]).name@ == name
}

/// What becomes of a catalogue that does what it is told, when an order is carried
/// out and `input` came of it. Told what the repository holds, it knows just those
/// archives, and of those it knew it keeps what it had. Asked, it names those whose
/// files are not listed, each once. An archive that was read is listed; one that was
/// not is left as it was.
pub open spec fn obeys(shelf: Shelf, order: CatchUpOrder, input: CatchUpInput, after: Shelf) -> bool {
    match input {
        CatchUpInput::Synced(Ok(_)) => {
            &&& order matches CatchUpOrder::Sync(held)
            &&& forall|name: Seq<char>| #[trigger]
                after.dom().contains(name) <==> is_held(held@, name)
            &&& forall|name: Seq<char>| #[trigger]
                after.dom().contains(name) ==> after[name] == (shelf.dom().contains(name)
                    && shelf[name])
        },
        CatchUpInput::Outstanding { pending: Ok(pending), .. } => {
            &&& after == shelf
            &&& forall|name: Seq<char>| #[trigger]
                is_outstanding(pending@, name) <==> shelf.dom().contains(name) && !shelf[name]
            &&& forall|i: int, j: int|
                0 <= i < j < pending@.len() ==> (#[trigger] pending@[i]).name@ != (
                #[trigger] pending@[j]).name@
        },
        CatchUpInput::Ingested { result, .. } => {
            &&& order matches CatchUpOrder::Ingest { name, .. }
            &&& after == if result is Ok {
                shelf.insert(name@, true)
            } else {
                shelf
            }
        },
        CatchUpInput::Listed(_) => after == shelf,
        // What is left of a catalogue that failed is not said.
        _ => true,
    }
}

/// A catalogue that does what it is told, all along a course.
pub open spec fn is_obedient(
    inputs: Seq<CatchUpInput>,
    orders: Seq<CatchUpOrder>,
    shelves: Seq<Shelf>,
) -> bool {
    &&& shelves.len() == inputs.len() + 1
    &&& forall|i: int|
        0 <= i < inputs.len() ==> obeys(
            shelves[i],
            orders[i],
            #[trigger] inputs[i],
            shelves[i + 1],
        )
}

/// The beginning of a course is a course.
proof fn lemma_course_so_far(
    inputs: Seq<CatchUpInput>,
    states: Seq<CatchUp>,
    orders: Seq<CatchUpOrder>,
    n: int,
)
    requires
        is_course(inputs, states, orders),
        0 <= n <= inputs.len(),
    ensures
        on_course(inputs.take(n), states[n], orders.take(n + 1)),
{
    let (i, s, o) = (inputs.take(n), states.take(n + 1), orders.take(n + 1));
    assert forall|k: int| 0 <= k < i.len() implies s[k].awaits(#[trigger] i[k]) && s[k].follows(
        i[k],
        s[k + 1],
        o[k + 1],
    ) by {
        assert(i[k] == inputs[k]);
    }
    lemma_on_course(i, s, o);
    assert(s.last() == states[n]);
}

/// The archive whose turn it is after so many.
proof fn lemma_turn(
    inputs: Seq<CatchUpInput>,
    states: Seq<CatchUp>,
    orders: Seq<CatchUpOrder>,
    k: int,
)
    requires
        is_course(inputs, states, orders),
        0 <= k,
        3 + k < inputs.len(),
    ensures
        outstanding_in(inputs) is Some,
        k < outstanding_in(inputs)->0.len(),
        orders[3 + k] is Ingest,
        orders[3 + k]->name@ == outstanding_in(inputs)->0[k].name@,
        inputs[3 + k] is Ingested,
{
    let n = 3 + k;
    lemma_course_so_far(inputs, states, orders, n);
    assert(states[n].awaits(inputs[n]));
    assert(inputs.take(n)[2] == inputs[2]);
    assert(orders.take(n + 1).last() == orders[n]);
    assert(states[n - 1].awaits(inputs[n - 1]) && states[n - 1].follows(
        inputs[n - 1],
        states[n],
        orders[n],
    ));
}

/// What an obedient catalogue knows once so many archives have had their turn.
proof fn lemma_shelf(
    inputs: Seq<CatchUpInput>,
    states: Seq<CatchUp>,
    orders: Seq<CatchUpOrder>,
    shelves: Seq<Shelf>,
    k: int,
)
    requires
        is_course(inputs, states, orders),
        undisturbed(inputs),
        is_obedient(inputs, orders, shelves),
        0 <= k,
        3 + k <= inputs.len(),
        outstanding_in(inputs) is Some,
    ensures
        shelves[3 + k].dom() == shelves[3].dom(),
        forall|name: Seq<char>|
            #![trigger shelves[3 + k][name]]
            !is_outstanding(outstanding_in(inputs)->0, name) ==> shelves[3 + k][name]
                == shelves[3][name],
        forall|i: int|
            0 <= i < outstanding_in(inputs)->0.len() ==> shelves[3 + k][(
            #[trigger] outstanding_in(inputs)->0[i]).name@] == (i < k && inputs[3
                + i]->Ingested_result is Ok),
    decreases k,
{
    let pending = outstanding_in(inputs)->0;
    assert(obeys(shelves[2], orders[2], inputs[2], shelves[3]));
    if k == 0 {
        assert forall|i: int| 0 <= i < pending.len() implies !shelves[3][(
        #[trigger] pending[i]).name@] by {
            assert(is_outstanding(pending, pending[i].name@));
        }
    } else {
        lemma_shelf(inputs, states, orders, shelves, k - 1);
        lemma_turn(inputs, states, orders, k - 1);
        let (before, after) = (shelves[2 + k], shelves[3 + k]);
        let name = pending[k - 1].name@;
        assert(obeys(before, orders[2 + k], inputs[2 + k], after));
        assert(is_outstanding(pending, name));
        assert(before.dom().contains(name));
        assert(after.dom() =~= before.dom());
        assert forall|i: int| 0 <= i < pending.len() implies after[(
        #[trigger] pending[i]).name@] == (i < k && inputs[3 + i]->Ingested_result is Ok) by {
            if i < k - 1 {
                assert(pending[i].name@ != pending[k - 1].name@);
            } else if i > k - 1 {
                assert(pending[k - 1].name@ != pending[i].name@);
            }
        }
        assert forall|other: Seq<char>| !is_outstanding(pending, other) implies
            #[trigger] after[other] == shelves[3][other] by {
            assert(other != name);
            assert(before[other] == shelves[3][other]);
        }
    }
}

/// What catching up does to a catalogue that does what it is told, once nothing has
/// cut it short. The catalogue knows just the archives that the repository said it
/// holds. The files of one are listed if they were before, or if it was read to its
/// end. One whose listing broke off is outstanding still, and did not stop the
/// others.
pub proof fn the_catalogue_has_caught_up(
    inputs: Seq<CatchUpInput>,
    states: Seq<CatchUp>,
    orders: Seq<CatchUpOrder>,
    shelves: Seq<Shelf>,
)
    requires
        is_course(inputs, states, orders),
        undisturbed(inputs),
        is_obedient(inputs, orders, shelves),
        orders.last() is Finish,
    ensures
        inputs[0] matches CatchUpInput::Listed(Ok(held)) && forall|name: Seq<char>| #[trigger]
            shelves.last().dom().contains(name) <==> is_held(held@, name),
        outstanding_in(inputs) is Some,
        forall|k: int|
            0 <= k < outstanding_in(inputs)->0.len() ==> shelves.last()[(
            #[trigger] outstanding_in(inputs)->0[k]).name@] == inputs[3
                + k]->Ingested_result is Ok,
        forall|name: Seq<char>| #[trigger]
            shelves.last().dom().contains(name) && !is_outstanding(outstanding_in(inputs)->0, name)
                ==> shelves.last()[name] && shelves[0].dom().contains(name) && shelves[0][name],
        forall|name: Seq<char>| #[trigger]
            shelves.last().dom().contains(name) && shelves[0].dom().contains(name)
                && shelves[0][name] ==> shelves.last()[name],
{
    one_broken_archive_does_not_stop_the_others(inputs, states, orders);
    outstanding_archives_have_their_turns_in_order(inputs, states, orders);
    let pending = outstanding_in(inputs)->0;
    lemma_shelf(inputs, states, orders, shelves, pending.len() as int);
    assert(obeys(shelves[0], orders[0], inputs[0], shelves[1]));
    lemma_course_so_far(inputs, states, orders, 1);
    assert(states[1].awaits(inputs[1]));
    assert(obeys(shelves[1], orders[1], inputs[1], shelves[2]));
    assert(obeys(shelves[2], orders[2], inputs[2], shelves[3]));
    assert forall|name: Seq<char>| #[trigger]
        shelves.last().dom().contains(name) && !is_outstanding(pending, name) implies
        shelves.last()[name] && shelves[0].dom().contains(name) && shelves[0][name] by {
        assert(shelves[2].dom().contains(name));
        assert(shelves.last()[name] == shelves[3][name]);
    }
    assert forall|name: Seq<char>| #[trigger]
        shelves.last().dom().contains(name) && shelves[0].dom().contains(name)
            && shelves[0][name] implies shelves.last()[name] by {
        assert(shelves[2].dom().contains(name));
        assert(!is_outstanding(pending, name));
        assert(shelves.last()[name] == shelves[3][name]);
    }
}

/// Catching up once more with a repository whose archives are all listed changes
/// nothing: a catalogue that does what it is told knows afterwards what it knew
/// before, and no archive is read.
pub proof fn a_caught_up_catalogue_is_left_alone(
    inputs: Seq<CatchUpInput>,
    states: Seq<CatchUp>,
    orders: Seq<CatchUpOrder>,
    shelves: Seq<Shelf>,
)
    requires
        is_course(inputs, states, orders),
        undisturbed(inputs),
        is_obedient(inputs, orders, shelves),
        orders.last() is Finish,
        inputs[0] matches CatchUpInput::Listed(Ok(held)) ==> forall|name: Seq<char>| #[trigger]
            shelves[0].dom().contains(name) <==> is_held(held@, name),
        forall|name: Seq<char>| #[trigger] shelves[0].dom().contains(name) ==> shelves[0][name],
    ensures
        shelves.last() == shelves[0],
        read_in(orders).len() == 0,
{
    the_catalogue_has_caught_up(inputs, states, orders, shelves);
    one_broken_archive_does_not_stop_the_others(inputs, states, orders);
    outstanding_archives_have_their_turns_in_order(inputs, states, orders);
    let pending = outstanding_in(inputs)->0;
    assert(obeys(shelves[0], orders[0], inputs[0], shelves[1]));
    lemma_course_so_far(inputs, states, orders, 1);
    assert(states[1].awaits(inputs[1]));
    assert(obeys(shelves[1], orders[1], inputs[1], shelves[2]));
    assert(obeys(shelves[2], orders[2], inputs[2], shelves[3]));
    if pending.len() > 0 {
        assert(is_outstanding(pending, pending[0].name@));
        assert(shelves[2].dom().contains(pending[0].name@));
    }
    assert(shelves.last().dom() =~= shelves[0].dom());
    assert(shelves.last() =~= shelves[0]);
}

/// The archive to read before anything else when a repository is adopted: the
/// newest, which is the one the user is about to be shown. The outstanding ones
/// come newest first.
pub fn newest(pending: &Vec<Pending>) -> (first: Option<(i64, String)>)
    ensures
        first is Some <==> pending@.len() > 0,
        first matches Some((seq, name)) ==> seq == pending@[0].seq && name@ == pending@[0].name@,
{
    if pending.len() == 0 {
        None
    } else {
        Some((pending[0].seq, pending[0].name.clone()))
    }
}

/// How many archives are left once the newest has been read. `None` stands for
/// there having been none to read.
pub fn left_after_newest(
    pending: &Vec<Pending>,
    read: Option<Result<usize, EngineError>>,
) -> (left: Result<usize, EngineError>)
    requires
        read is Some <==> pending@.len() > 0,
    ensures
        match read {
            None => left == Ok::<usize, EngineError>(0),
            Some(Ok(_)) => left == Ok::<usize, EngineError>((pending@.len() - 1) as usize),
            Some(Err(error)) => left == Err::<usize, EngineError>(error),
        },
{
    match read {
        None => Ok(0),
        Some(Ok(_)) => Ok(pending.len() - 1),
        Some(Err(error)) => Err(error),
    }
}

/// A listing ends well exactly where the writer came to its end and wrote, nothing
/// had failed before and nobody cancelled; and then with as many items as the writer
/// says. Whatever failed first is what is reported.
pub proof fn a_listing_ends_as_it_went<T>(
    run: Ingest<T>,
    input: IngestInput<T>,
    after: Ingest<T>,
    order: IngestOrder<T>,
)
    requires
        run.follows(input, after, order),
    ensures
        (order matches IngestOrder::Finish(Ok(_))) <==> run.failure() is None && (
        input matches IngestInput::Written { writer: Ok(Ok(_)), cancelled: false }),
        input matches IngestInput::Written { writer: Ok(Ok(items)), cancelled } ==> (run.failure()
            is None && !cancelled ==> order == IngestOrder::<T>::Finish(Ok(items))),
        input matches IngestInput::Written { writer: Ok(Ok(_)), cancelled } ==> (run.failure()
            is None && cancelled ==> order == IngestOrder::<T>::Finish(
            Err(EngineError::Cancelled),
        )),
        input matches IngestInput::Written { writer: Ok(Err(error)), .. } ==> (run.failure() is None
            ==> order == IngestOrder::<T>::Finish(Err(error))),
        input matches IngestInput::Written { writer: Ok(_), .. } ==> (
        run.failure() matches Some(error) ==> order == IngestOrder::<T>::Finish(Err(error))),
        input matches IngestInput::Written { writer: Err(error), .. } ==> order == IngestOrder::<
            T,
        >::Finish(Err(error)),
        input matches IngestInput::Recorded(Err(error)) ==> order == IngestOrder::<T>::Finish(
            Err(error),
        ),
        order is Finish <==> after.stage() == IngestStage::Over,
        order is Close ==> after.stage() == IngestStage::Closing,
{
}

/// Where the job has been cancelled, the writer is never told that a listing is
/// whole; nor is it told so after a failure. It is told so exactly at the end of a
/// listing that nothing cut short, or where it took no more.
pub proof fn a_cut_listing_is_never_called_whole<T>(
    run: Ingest<T>,
    input: IngestInput<T>,
    after: Ingest<T>,
    order: IngestOrder<T>,
)
    requires
        run.follows(input, after, order),
    ensures
        (order matches IngestOrder::Close(Ok(_))) <==> run.failure() is None && (
        input matches IngestInput::Ended { cancelled: false } || (
        input matches IngestInput::Sent { accepted: false, cancelled: false })),
        order matches IngestOrder::Close(Ok(last)) ==> last@ == run.held(),
        input matches IngestInput::Ended { cancelled: true } ==> (order matches IngestOrder::Close(
            Err(_),
        )),
        input matches IngestInput::Reported { cancelled: true } ==> (
        order matches IngestOrder::Close(Err(_))),
        input matches IngestInput::Reported { cancelled: false } ==> order == IngestOrder::<
            T,
        >::Read,
        input matches IngestInput::Sent { accepted: false, .. } ==> order is Close,
        input matches IngestInput::Sent { accepted: true, .. } ==> (order is Report
            <==> run.reports()) && (order is Read <==> !run.reports()),
        input matches IngestInput::Item(Ok(item)) ==> (order is Send <==> run.held().len()
            >= 4_095) && (order is Read <==> run.held().len() < 4_095),
        order matches IngestOrder::Report(event) ==> (
        event matches JobEvent::Progress { current, total, .. } && current == run.crossed().len()
            && total is None),
{
}

/// The items that a listing gave, in order.
pub open spec fn items_in<T>(inputs: Seq<IngestInput<T>>) -> Seq<T>
    decreases inputs.len(),
{
    if inputs.len() == 0 {
        Seq::empty()
    } else {
        let before = items_in(inputs.drop_last());
        match inputs.last() {
            IngestInput::Item(Ok(item)) => before.push(item),
            _ => before,
        }
    }
}

/// The items that were sent to the writer in batches, in order.
pub open spec fn sent_in<T>(orders: Seq<IngestOrder<T>>) -> Seq<T>
    decreases orders.len(),
{
    if orders.len() == 0 {
        Seq::empty()
    } else {
        let before = sent_in(orders.drop_last());
        match orders.last() {
            IngestOrder::Send(batch) => before + batch@,
            _ => before,
        }
    }
}

/// A listing from its start on: what happened, where it was before and after each of
/// these things, and what was ordered after each.
pub open spec fn is_listing<T>(
    inputs: Seq<IngestInput<T>>,
    states: Seq<Ingest<T>>,
    orders: Seq<IngestOrder<T>>,
) -> bool {
    &&& states.len() == inputs.len() + 1
    &&& orders.len() == inputs.len()
    &&& states[0].wf()
    &&& states[0].stage() == IngestStage::Recording || states[0].stage() == IngestStage::Opening
    &&& states[0].read() == Seq::<T>::empty()
    &&& states[0].crossed() == Seq::<T>::empty()
    &&& states[0].failure() is None
    &&& forall|i: int|
        0 <= i < inputs.len() ==> states[i].awaits(#[trigger] inputs[i]) && states[i].follows(
            inputs[i],
            states[i + 1],
            orders[i],
        )
}

/// Everything that was read crosses to the writer, each item once and in order: what
/// was sent in batches and what is held make the items that were read, and with the
/// last batch of a listing that is called whole, so do the batches before it.
pub proof fn every_item_crosses_once_and_in_order<T>(
    inputs: Seq<IngestInput<T>>,
    states: Seq<Ingest<T>>,
    orders: Seq<IngestOrder<T>>,
)
    requires
        is_listing(inputs, states, orders),
    ensures
        states.last().stage() != IngestStage::Over ==> states.last().read() == items_in(inputs)
            && states.last().crossed() == sent_in(orders),
        states.last().stage() != IngestStage::Closing && states.last().stage() != IngestStage::Over
            ==> sent_in(orders) + states.last().held() == items_in(inputs),
        orders.len() > 0 ==> (orders.last() matches IngestOrder::Close(Ok(last)) ==> sent_in(orders)
            + last@ == items_in(inputs)),
    decreases inputs.len(),
{
    let n = inputs.len() as int;
    if n == 0 {
        assert(states[0].held() =~= Seq::<T>::empty());
        assert(sent_in(orders) + states[0].held() =~= items_in(inputs));
    } else {
        let (i, s, o) = (inputs.drop_last(), states.drop_last(), orders.drop_last());
        assert forall|k: int| 0 <= k < i.len() implies s[k].awaits(#[trigger] i[k]) && s[k].follows(
            i[k],
            s[k + 1],
            o[k],
        ) by {
            assert(i[k] == inputs[k]);
        }
        every_item_crosses_once_and_in_order(i, s, o);
        let (before, input, after, order) = (
            states[n - 1],
            inputs[n - 1],
            states[n],
            orders[n - 1],
        );
        assert(before.awaits(input) && before.follows(input, after, order));
        match input {
            IngestInput::Item(Ok(item)) => {
                assert(sent_in(o) + before.held().push(item) =~= (sent_in(o) + before.held()).push(
                    item,
                ));
                if order is Send {
                    assert(sent_in(orders) + after.held() =~= sent_in(orders));
                }
            },
            _ => {},
        }
    }
}

/// Catching up that is cancelled between two archives stops there and says that it
/// was cancelled; after the last one there is nothing left to cancel. Otherwise the
/// next archive has its turn, whatever came of the one before.
pub proof fn a_cancelled_catch_up_stops_between_archives(
    run: CatchUp,
    result: Result<usize, EngineError>,
    cancelled: bool,
    after: CatchUp,
    order: CatchUpOrder,
)
    requires
        run.awaits(CatchUpInput::Ingested { result, cancelled }),
        run.follows(CatchUpInput::Ingested { result, cancelled }, after, order),
    ensures
        run.done + 1 == run.pending@.len() <==> (order matches CatchUpOrder::Finish {
            result: Ok(_),
            ..
        }),
        order matches CatchUpOrder::Finish { result: Err(error), .. } ==> cancelled && error
            == EngineError::Cancelled,
        cancelled && run.done + 1 < run.pending@.len() ==> (order matches CatchUpOrder::Finish {
            result: Err(_),
            ..
        }),
        !cancelled && run.done + 1 < run.pending@.len() ==> {
            &&& order matches CatchUpOrder::Ingest { progress, seq, name }
            &&& seq == run.pending@[run.done + 1].seq
            &&& name@ == run.pending@[run.done + 1].name@
            &&& progress matches JobEvent::Progress { current, total, phase }
            &&& current == run.done + 1
            &&& total == Some(run.pending@.len() as u64)
            &&& phase@ == name@
        },
        after.done == run.done + 1,
        after.pending == run.pending,
{
}

/// Catching up that meets an error before any archive has its turn says so, and asks
/// for nothing more.
pub proof fn a_catch_up_fails_with_its_own_error(
    run: CatchUp,
    input: CatchUpInput,
    after: CatchUp,
    order: CatchUpOrder,
    error: EngineError,
)
    requires
        run.follows(input, after, order),
        ({
            ||| input matches CatchUpInput::Listed(Err(e)) && e == error
            ||| input matches CatchUpInput::Synced(Err(e)) && e == error
            ||| input matches CatchUpInput::Outstanding { pending: Err(e), .. } && e == error
        }),
    ensures
        order == (CatchUpOrder::Finish { report: None, result: Err(error) }),
        after.stage == CatchUpStage::Over,
{
}

} // verus!
