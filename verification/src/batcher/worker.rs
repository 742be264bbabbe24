//! The decisions of the background task: which batch an event goes into and
//! when a batch is handed on for export.

use super::batch::{Batch, BatchState, BatchWriter};
use super::clock::Instant;
use super::error::BatchCollectorError;
use super::opts::BatchCollectorOpts;
use crate::AnalyticsEvent;
use std::fmt::{Debug, Display};
use vstd::prelude::*;

verus! {

/// What is put into the event queue.
#[derive(Debug)]
pub enum ControlEvent<T> {
    /// An event to be collected.
    Process(T),
    /// No more events will come.
    Shutdown,
}

/// What wakes the background task up.
#[derive(Debug)]
pub enum WakeUp<T> {
    /// The event queue delivered something, or `None` once it is closed.
    Control(Option<ControlEvent<T>>),
    /// The check interval has passed.
    Tick,
}

/// What the background task was doing when something failed.
#[derive(Debug, Clone, Copy, PartialEq, Eq, Structural)]
pub enum Activity {
    /// Processing an event.
    Processing,
    /// Exporting what was left at shutdown.
    CollectorShutdown,
    /// Exporting a batch that had expired.
    BatchExpired,
}

/// What is to be done after the background task was woken up.
#[derive(Debug)]
pub struct Step<E: Debug + Display> {
    /// The bytes of the batches that were completed, each of which is to be
    /// exported.
    pub exports: Vec<Vec<u8>>,
    /// The failure that is to be reported, if there was one.
    pub failure: Option<(Activity, BatchCollectorError<E>)>,
    /// Whether the background task ends here.
    pub stop: bool,
}

/// A batch that was replaced by a fresh one: the events in it and the bytes to
/// be exported, unless the writer failed to give them.
pub struct Completed<T> {
    pub events: Seq<T>,
    pub bytes: Option<Vec<u8>>,
}

/// The bytes that are handed on for export, batch by batch.
pub open spec fn sent<T>(completed: Seq<Completed<T>>) -> Seq<Vec<u8>>
    decreases completed.len(),
{
    if completed.len() == 0 {
        Seq::empty()
    } else {
        match completed.last().bytes {
            Some(bytes) => sent(completed.drop_last()).push(bytes),
            None => sent(completed.drop_last()),
        }
    }
}

proof fn lemma_sent_concat<T>(a: Seq<Completed<T>>, b: Seq<Completed<T>>)
    ensures
        sent(a + b) == sent(a) + sent(b),
    decreases b.len(),
{
    if b.len() == 0 {
        assert(a + b == a);
    } else {
        assert((a + b).drop_last() == a + b.drop_last());
        lemma_sent_concat(a, b.drop_last());
    }
}

/// What happened to events while something was processed or exported.
pub struct Effect<T> {
    /// The event that the writer took, if it took one.
    pub taken: Seq<T>,
    /// The size of the buffer that was read after the event was taken.
    pub measured: Option<usize>,
    /// The batches that were completed, in order.
    pub completed: Seq<Completed<T>>,
}

impl<T> Effect<T> {
    /// No event was taken, but batches were completed.
    pub open spec fn completing(completed: Seq<Completed<T>>) -> Self {
        Effect { taken: Seq::empty(), measured: None, completed }
    }

    /// This happened after other batches had been completed.
    pub open spec fn following(self, earlier: Seq<Completed<T>>) -> Self {
        Effect { completed: earlier + self.completed, ..self }
    }
}

/// Whether a batch contains as many events as it can.
pub open spec fn is_full<T: AnalyticsEvent, W: BatchWriter<T>>(
    opts: BatchCollectorOpts,
    batch: BatchState<T, W>,
) -> bool {
    batch.events.len() >= opts.row_limit()
}

/// None of the completed batches contains more events than a batch can.
pub open spec fn within_limit<T>(opts: BatchCollectorOpts, completed: Seq<Completed<T>>) -> bool {
    forall|i: int|
        0 <= i < completed.len() ==> (#[trigger] completed[i]).events.len() <= opts.row_limit()
}

/// Whether a batch that an event was just added to has to be exported at once:
/// because its buffer, found to be of `size` bytes, is large enough or because
/// it holds enough events.
pub open spec fn is_due<T: AnalyticsEvent, W: BatchWriter<T>>(
    opts: BatchCollectorOpts,
    batch: BatchState<T, W>,
    size: usize,
) -> bool {
    ||| size >= opts.export_size_threshold
    ||| batch.events.len() >= opts.export_row_threshold
}

/// Whether a batch of `rows` events, the last of which was just added, has to be
/// exported at once if its buffer is of `size` bytes then.
pub fn due(opts: &BatchCollectorOpts, rows: usize, size: usize) -> (due: bool)
    ensures
        due == (size >= opts.export_size_threshold || rows >= opts.export_row_threshold),
{
    size >= opts.export_size_threshold || rows >= opts.export_row_threshold
}

/// What exporting `before` at `now` may leave behind, complete and return,
/// given that flushing left the writer as `flushed`.
///
/// A batch whose flush fails stays, and so does a batch without events. Any
/// other batch is replaced by a fresh one, and its bytes are handed on, unless
/// the fresh one cannot be started: then the batch stays. Where its bytes
/// cannot be had, a batch that was replaced is gone.
pub open spec fn may_export_flushed<T: AnalyticsEvent, W: BatchWriter<T>>(
    opts: BatchCollectorOpts,
    before: BatchState<T, W>,
    now: Instant,
    flushed: W,
    after: BatchState<T, W>,
    completed: Seq<Completed<T>>,
    outcome: Result<(), BatchCollectorError<W::Error>>,
) -> bool {
    let kept = before.with_writer(flushed);
    ||| {
        &&& outcome matches Err(BatchCollectorError::Writer(error))
        &&& before.writer.may_flush(flushed, Err(error))
        &&& after == kept
        &&& completed.len() == 0
    }
    ||| {
        &&& before.writer.may_flush(flushed, Ok(()))
        &&& before.events.len() == 0
        &&& outcome is Ok
        &&& after == kept
        &&& completed.len() == 0
    }
    ||| {
        &&& before.writer.may_flush(flushed, Ok(()))
        &&& before.events.len() > 0
        &&& outcome matches Err(error)
        &&& super::batch::may_start::<T, W>(opts, now, Err(error))
        &&& after == kept
        &&& completed.len() == 0
    }
    ||| {
        &&& before.writer.may_flush(flushed, Ok(()))
        &&& before.events.len() > 0
        &&& super::batch::may_start::<T, W>(opts, now, Ok(after))
        &&& completed.len() == 1
        &&& completed[0].events == before.events
        &&& match (outcome, completed[0].bytes) {
            (Ok(()), Some(bytes)) => flushed.may_finish(Ok(bytes)),
            (Err(BatchCollectorError::Writer(error)), None) => flushed.may_finish(Err(error)),
            _ => false,
        }
    }
}

/// What exporting `before` at `now` may leave behind, complete and return.
pub open spec fn may_export<T: AnalyticsEvent, W: BatchWriter<T>>(
    opts: BatchCollectorOpts,
    before: BatchState<T, W>,
    now: Instant,
    after: BatchState<T, W>,
    completed: Seq<Completed<T>>,
    outcome: Result<(), BatchCollectorError<W::Error>>,
) -> bool {
    exists|flushed: W|
        #[trigger] may_export_flushed::<T, W>(
            opts,
            before,
            now,
            flushed,
            after,
            completed,
            outcome,
        )
}

/// The batch as it is when an event reaches it at `now`: the first event
/// decides when the batch expires.
pub open spec fn armed<T: AnalyticsEvent, W: BatchWriter<T>>(
    opts: BatchCollectorOpts,
    batch: BatchState<T, W>,
    now: Instant,
) -> BatchState<T, W> {
    if batch.has_expiration {
        batch
    } else {
        batch.expiring(now.after(opts.export_time_threshold))
    }
}

/// What adding `event` at `now` to a batch with room for it may leave behind,
/// do and return, given that writing the event left the writer as `written`.
///
/// An event that the writer refuses is not part of the batch. One that it
/// takes completes the batch if the batch is due then.
pub open spec fn may_add_written<T: AnalyticsEvent, W: BatchWriter<T>>(
    opts: BatchCollectorOpts,
    before: BatchState<T, W>,
    event: T,
    now: Instant,
    written: W,
    after: BatchState<T, W>,
    effect: Effect<T>,
    outcome: Result<(), BatchCollectorError<W::Error>>,
) -> bool {
    let batch = armed(opts, before, now);
    let filled = batch.with_event(written, event);
    ||| {
        &&& outcome matches Err(BatchCollectorError::Writer(error))
        &&& batch.writer.may_write(event, written, Err(error))
        &&& after == batch.with_writer(written)
        &&& effect == Effect::<T>::completing(Seq::empty())
    }
    ||| {
        &&& batch.writer.may_write(event, written, Ok(()))
        &&& effect.taken == seq![event]
        &&& effect.measured matches Some(size)
        &&& super::batch::may_measure(filled, size)
        &&& if is_due(opts, filled, size) {
            may_export(opts, filled, now, after, effect.completed, outcome)
        } else {
            &&& outcome is Ok
            &&& after == filled
            &&& effect.completed.len() == 0
        }
    }
}

/// What adding `event` at `now` to a batch with room for it may leave behind,
/// do and return.
pub open spec fn may_add<T: AnalyticsEvent, W: BatchWriter<T>>(
    opts: BatchCollectorOpts,
    before: BatchState<T, W>,
    event: T,
    now: Instant,
    after: BatchState<T, W>,
    effect: Effect<T>,
    outcome: Result<(), BatchCollectorError<W::Error>>,
) -> bool {
    exists|written: W|
        #[trigger] may_add_written::<T, W>(
            opts,
            before,
            event,
            now,
            written,
            after,
            effect,
            outcome,
        )
}

/// What processing `event` at `now` may leave behind, do and return.
///
/// A batch that is full, because an earlier attempt to export it failed, is
/// exported first. Where that fails again, the event is not added to anything.
pub open spec fn may_process<T: AnalyticsEvent, W: BatchWriter<T>>(
    opts: BatchCollectorOpts,
    before: BatchState<T, W>,
    event: T,
    now: Instant,
    after: BatchState<T, W>,
    effect: Effect<T>,
    outcome: Result<(), BatchCollectorError<W::Error>>,
) -> bool {
    if is_full(opts, before) {
        ||| {
            &&& outcome is Err
            &&& may_export(opts, before, now, after, effect.completed, outcome)
            &&& effect == Effect::completing(effect.completed)
        }
        ||| exists|next: BatchState<T, W>, earlier: Seq<Completed<T>>, rest: Effect<T>|
            {
                &&& #[trigger] may_export(opts, before, now, next, earlier, Ok(()))
                &&& #[trigger] may_add(opts, next, event, now, after, rest, outcome)
                &&& effect == rest.following(earlier)
            }
    } else {
        may_add(opts, before, event, now, after, effect, outcome)
    }
}

/// The failure that is to be reported after something was tried.
pub open spec fn failure_of<E: Debug + Display>(
    activity: Activity,
    outcome: Result<(), BatchCollectorError<E>>,
) -> Option<(Activity, BatchCollectorError<E>)> {
    match outcome {
        Ok(()) => None,
        Err(error) => Some((activity, error)),
    }
}

/// What a wake-up at `now` may leave behind, do and return.
///
/// Events are processed. Shutdown exports what is left and ends the task, and
/// a closed queue ends it at once. A tick exports the batch if it has expired.
pub open spec fn may_step<T: AnalyticsEvent, W: BatchWriter<T>>(
    opts: BatchCollectorOpts,
    before: BatchState<T, W>,
    wake_up: WakeUp<T>,
    now: Instant,
    after: BatchState<T, W>,
    effect: Effect<T>,
    step: Step<W::Error>,
) -> bool {
    &&& step.exports@ == sent(effect.completed)
    &&& step.stop == (wake_up matches WakeUp::Control(control) && !(control matches Some(
        ControlEvent::Process(_),
    )))
    &&& match wake_up {
        WakeUp::Control(Some(ControlEvent::Process(event))) => exists|
            outcome: Result<(), BatchCollectorError<W::Error>>,
        |
            {
                &&& #[trigger] may_process(opts, before, event, now, after, effect, outcome)
                &&& step.failure == failure_of(Activity::Processing, outcome)
            },
        WakeUp::Control(Some(ControlEvent::Shutdown)) => {
            &&& effect == Effect::completing(effect.completed)
            &&& exists|outcome: Result<(), BatchCollectorError<W::Error>>|
                {
                    &&& #[trigger] may_export(opts, before, now, after, effect.completed, outcome)
                    &&& step.failure == failure_of(Activity::CollectorShutdown, outcome)
                }
        },
        WakeUp::Tick if now.nanos > before.expiration.nanos => {
            &&& effect == Effect::completing(effect.completed)
            &&& exists|outcome: Result<(), BatchCollectorError<W::Error>>|
                {
                    &&& #[trigger] may_export(opts, before, now, after, effect.completed, outcome)
                    &&& step.failure == failure_of(Activity::BatchExpired, outcome)
                }
        },
        _ => {
            &&& effect == Effect::<T>::completing(Seq::empty())
            &&& step.failure is None
            &&& after == before
        },
    }
}

/// The state of the background task.
#[verifier::reject_recursive_types(T)]
pub struct Batcher<T: AnalyticsEvent, W: BatchWriter<T>> {
    opts: BatchCollectorOpts,
    horizon: Instant,
    batch: Batch<T, W>,
}

impl<T: AnalyticsEvent, W: BatchWriter<T>> Batcher<T, W> {
    pub closed spec fn opts(&self) -> BatchCollectorOpts {
        self.opts
    }

    /// The last point in time that the clock can count to.
    pub closed spec fn horizon(&self) -> Instant {
        self.horizon
    }

    /// The batch that events go into.
    pub closed spec fn batch(&self) -> BatchState<T, W> {
        self.batch@
    }

    /// Batches can be allocated, and the current one counts its events and
    /// contains no more than it may.
    pub closed spec fn wf(&self) -> bool {
        &&& self.opts.allocatable()
        &&& self.batch.wf()
        &&& self.batch@.events.len() <= self.opts.row_limit()
    }

    /// If an event that arrives at `now` can be the first of its batch, the
    /// clock can count to when that batch expires.
    pub open spec fn accepts_event(&self, now: Instant) -> bool {
        ||| self.batch().has_expiration && !is_full(self.opts(), self.batch())
        ||| now.reaches(self.opts().export_time_threshold, self.horizon())
    }

    /// The state of a background task whose clock reads `now` and can count to
    /// `horizon`.
    pub fn new(opts: BatchCollectorOpts, now: Instant, horizon: Instant) -> (created: Result<
        Self,
        BatchCollectorError<W::Error>,
    >)
        requires
            opts.allocatable(),
        ensures
            created matches Ok(batcher) ==> {
                &&& batcher.wf()
                &&& batcher.opts() == opts
                &&& batcher.horizon() == horizon
            },
            super::batch::may_start::<T, W>(
                opts,
                now,
                match created {
                    Ok(batcher) => Ok(batcher.batch()),
                    Err(error) => Err(error),
                },
            ),
    {
        match Self::create_new_batch(&opts, now) {
            Ok(batch) => Ok(Self { opts, horizon, batch }),
            Err(error) => Err(error),
        }
    }

    /// Adds an event to the batch, and exports the batch if it is due then. The
    /// bytes that are to be exported are put into `outbox`.
    ///
    /// A batch that is full is exported before, and the event is added only if
    /// that succeeds.
    pub fn process(&mut self, evt: T, now: Instant, outbox: &mut Vec<Vec<u8>>) -> (outcome: Result<
        (),
        BatchCollectorError<W::Error>,
    >)
        requires
            old(self).wf(),
            old(self).accepts_event(now),
        ensures
            final(self).wf(),
            final(self).opts() == old(self).opts(),
            final(self).horizon() == old(self).horizon(),
            final(self).batch().events.len() <= old(self).opts().row_limit(),
            exists|effect: Effect<T>|
                {
                    &&& #[trigger] may_process(
                        old(self).opts(),
                        old(self).batch(),
                        evt,
                        now,
                        final(self).batch(),
                        effect,
                        outcome,
                    )
                    &&& final(outbox)@ == old(outbox)@ + sent(effect.completed)
                    &&& within_limit(old(self).opts(), effect.completed)
                },
    {
        let ghost opts = self.opts();
        let ghost before = self.batch();
        let ghost waiting = outbox@;
        if !self.has_room() {
            match self.export(now, outbox) {
                Ok(done) => {
                    assert(done == ());
                    let ghost next = self.batch();
                    let ghost earlier = choose|earlier: Seq<Completed<T>>|
                        {
                            &&& #[trigger] may_export(opts, before, now, next, earlier, Ok(()))
                            &&& outbox@ == waiting + sent(earlier)
                        };
                    let ghost halfway = outbox@;
                    let outcome = self.add(evt, now, outbox);
                    proof {
                        let rest = choose|rest: Effect<T>|
                            {
                                &&& #[trigger] may_add(
                                    opts,
                                    next,
                                    evt,
                                    now,
                                    self.batch(),
                                    rest,
                                    outcome,
                                )
                                &&& outbox@ == halfway + sent(rest.completed)
                            };
                        let effect = rest.following(earlier);
                        lemma_sent_concat(earlier, rest.completed);
                        assert(may_process(opts, before, evt, now, self.batch(), effect, outcome));
                        assert(outbox@ == waiting + sent(effect.completed));
                    }
                    outcome
                },
                Err(error) => {
                    let outcome = Err(error);
                    proof {
                        let completed = choose|completed: Seq<Completed<T>>|
                            {
                                &&& #[trigger] may_export(
                                    opts,
                                    before,
                                    now,
                                    self.batch(),
                                    completed,
                                    outcome,
                                )
                                &&& outbox@ == waiting + sent(completed)
                            };
                        let effect = Effect::completing(completed);
                        assert(may_process(opts, before, evt, now, self.batch(), effect, outcome));
                    }
                    outcome
                },
            }
        } else {
            let outcome = self.add(evt, now, outbox);
            proof {
                let effect = choose|effect: Effect<T>|
                    {
                        &&& #[trigger] may_add(
                            opts,
                            before,
                            evt,
                            now,
                            self.batch(),
                            effect,
                            outcome,
                        )
                        &&& outbox@ == waiting + sent(effect.completed)
                    };
                assert(may_process(opts, before, evt, now, self.batch(), effect, outcome));
            }
            outcome
        }
    }

    /// Adds an event to a batch that has room for it, and exports the batch if
    /// it is due then.
    fn add(&mut self, evt: T, now: Instant, outbox: &mut Vec<Vec<u8>>) -> (outcome: Result<
        (),
        BatchCollectorError<W::Error>,
    >)
        requires
            old(self).wf(),
            old(self).accepts_event(now),
            !is_full(old(self).opts(), old(self).batch()),
        ensures
            final(self).wf(),
            final(self).opts() == old(self).opts(),
            final(self).horizon() == old(self).horizon(),
            exists|effect: Effect<T>|
                {
                    &&& #[trigger] may_add(
                        old(self).opts(),
                        old(self).batch(),
                        evt,
                        now,
                        final(self).batch(),
                        effect,
                        outcome,
                    )
                    &&& final(outbox)@ == old(outbox)@ + sent(effect.completed)
                    &&& within_limit(old(self).opts(), effect.completed)
                },
    {
        let ghost opts = self.opts();
        let ghost before = self.batch();
        let ghost waiting = outbox@;
        if !self.batch.has_expiration() {
            self.batch.set_expiration(now.plus(self.opts.export_time_threshold));
        }
        assert(self.batch() == armed(opts, before, now));
        let written = self.batch.write(evt);
        let ghost writer = self.batch().writer;
        let ghost filled = self.batch();
        match written {
            Ok(size) => {
                let num_rows: usize = self.batch.num_rows();
                let outcome = if due(&self.opts, num_rows, size) {
                    self.export(now, outbox)
                } else {
                    Ok(())
                };
                proof {
                    let completed = if is_due(opts, filled, size) {
                        choose|completed: Seq<Completed<T>>|
                            {
                                &&& #[trigger] may_export(
                                    opts,
                                    filled,
                                    now,
                                    self.batch(),
                                    completed,
                                    outcome,
                                )
                                &&& outbox@ == waiting + sent(completed)
                            }
                    } else {
                        Seq::empty()
                    };
                    let effect = Effect { taken: seq![evt], measured: Some(size), completed };
                    assert(may_add_written(
                        opts,
                        before,
                        evt,
                        now,
                        writer,
                        self.batch(),
                        effect,
                        outcome,
                    ));
                    assert(may_add(opts, before, evt, now, self.batch(), effect, outcome));
                    assert(outbox@ == waiting + sent(effect.completed));
                }
                outcome
            },
            Err(error) => {
                let outcome = Err(error);
                proof {
                    let effect = Effect::<T>::completing(Seq::empty());
                    assert(may_add_written(
                        opts,
                        before,
                        evt,
                        now,
                        writer,
                        self.batch(),
                        effect,
                        outcome,
                    ));
                    assert(may_add(opts, before, evt, now, self.batch(), effect, outcome));
                    assert(outbox@ == waiting + sent(effect.completed));
                }
                outcome
            },
        }
    }

    /// Completes the current batch, if it holds events, and starts the next.
    /// The bytes of the completed batch are put into `outbox`.
    pub fn export(&mut self, now: Instant, outbox: &mut Vec<Vec<u8>>) -> (outcome: Result<
        (),
        BatchCollectorError<W::Error>,
    >)
        requires
            old(self).wf(),
        ensures
            final(self).wf(),
            final(self).opts() == old(self).opts(),
            final(self).horizon() == old(self).horizon(),
            final(self).batch().events.len() <= old(self).opts().row_limit(),
            exists|completed: Seq<Completed<T>>|
                {
                    &&& #[trigger] may_export(
                        old(self).opts(),
                        old(self).batch(),
                        now,
                        final(self).batch(),
                        completed,
                        outcome,
                    )
                    &&& final(outbox)@ == old(outbox)@ + sent(completed)
                    &&& within_limit(old(self).opts(), completed)
                },
    {
        let ghost opts = self.opts();
        let ghost before = self.batch();
        let ghost waiting = outbox@;
        let ghost mut completed = Seq::<Completed<T>>::empty();
        let flushed = self.batch.flush();
        let ghost writer = self.batch().writer;
        let outcome = match flushed {
            Ok(_) => if self.has_data() {
                match Self::create_new_batch(&self.opts, now) {
                    Ok(next_batch) => {
                        let mut prev_batch = next_batch;
                        std::mem::swap(&mut self.batch, &mut prev_batch);
                        match prev_batch.into_buffer() {
                            Ok(data) => {
                                proof {
                                    completed = completed.push(
                                        Completed { events: before.events, bytes: Some(data) },
                                    );
                                }
                                outbox.push(data);
                                Ok(())
                            },
                            Err(error) => {
                                proof {
                                    completed = completed.push(
                                        Completed { events: before.events, bytes: None },
                                    );
                                }
                                Err(error)
                            },
                        }
                    },
                    Err(error) => Err(error),
                }
            } else {
                Ok(())
            },
            Err(error) => Err(error),
        };
        proof {
            reveal_with_fuel(sent, 2);
            assert(may_export_flushed(opts, before, now, writer, self.batch(), completed, outcome));
            assert(may_export(opts, before, now, self.batch(), completed, outcome));
            assert(outbox@ == waiting + sent(completed));
        }
        outcome
    }

    /// Whether the current batch can take another event.
    fn has_room(&self) -> (room: bool)
        requires
            self.wf(),
        ensures
            room == !is_full(self.opts(), self.batch()),
    {
        let rows: usize = self.batch.num_rows();
        rows == 0 || rows < self.opts.export_row_threshold
    }

    /// When the current batch expires.
    pub fn expiration(&self) -> (expiration: Instant)
        ensures
            expiration == self.batch().expiration,
    {
        self.batch.expiration()
    }

    /// Whether the current batch holds events.
    pub fn has_data(&self) -> (data: bool)
        requires
            self.wf(),
        ensures
            data == (self.batch().events.len() > 0),
    {
        self.batch.num_rows() > 0
    }

    /// Whether an event that arrives at `now` can be processed.
    pub fn can_accept_event(&self, now: Instant) -> (accepted: bool)
        requires
            self.wf(),
        ensures
            accepted == self.accepts_event(now),
    {
        self.batch.has_expiration() && self.has_room() || now.nanos <= self.horizon.nanos
            && self.opts.export_time_threshold.nanos <= self.horizon.nanos - now.nanos
    }

    fn create_new_batch(opts: &BatchCollectorOpts, now: Instant) -> (started: Result<
        Batch<T, W>,
        BatchCollectorError<W::Error>,
    >)
        requires
            opts.allocatable(),
        ensures
            started matches Ok(batch) ==> batch.wf(),
            super::batch::may_start::<T, W>(
                *opts,
                now,
                match started {
                    Ok(batch) => Ok(batch@),
                    Err(error) => Err(error),
                },
            ),
    {
        Batch::new(opts, now)
    }

    /// Decides what follows from a wake-up at `now`.
    pub fn step(&mut self, wake_up: WakeUp<T>, now: Instant) -> (step: Step<W::Error>)
        requires
            old(self).wf(),
            wake_up matches WakeUp::Control(Some(ControlEvent::Process(_))) ==> old(
                self,
            ).accepts_event(now),
        ensures
            final(self).wf(),
            final(self).opts() == old(self).opts(),
            final(self).horizon() == old(self).horizon(),
            final(self).batch().events.len() <= old(self).opts().row_limit(),
            exists|effect: Effect<T>|
                {
                    &&& #[trigger] may_step(
                        old(self).opts(),
                        old(self).batch(),
                        wake_up,
                        now,
                        final(self).batch(),
                        effect,
                        step,
                    )
                    &&& within_limit(old(self).opts(), effect.completed)
                },
    {
        let ghost opts = self.opts();
        let ghost before = self.batch();
        let mut exports: Vec<Vec<u8>> = Vec::new();
        match wake_up {
            WakeUp::Control(Some(ControlEvent::Process(data))) => {
                let outcome = self.process(data, now, &mut exports);
                let failure = Self::failure(Activity::Processing, outcome);
                let step = Step { exports, failure, stop: false };
                proof {
                    let effect = choose|effect: Effect<T>|
                        {
                            &&& #[trigger] may_process(
                                opts,
                                before,
                                data,
                                now,
                                self.batch(),
                                effect,
                                outcome,
                            )
                            &&& exports@ == Seq::<Vec<u8>>::empty() + sent(effect.completed)
                        };
                    assert(exports@ == sent(effect.completed));
                    assert(may_step(opts, before, wake_up, now, self.batch(), effect, step));
                }
                step
            },
            WakeUp::Control(Some(ControlEvent::Shutdown)) => {
                let outcome = self.export(now, &mut exports);
                let failure = Self::failure(Activity::CollectorShutdown, outcome);
                let step = Step { exports, failure, stop: true };
                proof {
                    let completed = choose|completed: Seq<Completed<T>>|
                        {
                            &&& #[trigger] may_export(
                                opts,
                                before,
                                now,
                                self.batch(),
                                completed,
                                outcome,
                            )
                            &&& exports@ == Seq::<Vec<u8>>::empty() + sent(completed)
                        };
                    assert(exports@ == sent(completed));
                    let effect = Effect::completing(completed);
                    assert(may_step(opts, before, wake_up, now, self.batch(), effect, step));
                }
                step
            },
            WakeUp::Tick => {
                if now.is_later_than(self.expiration()) {
                    let outcome = self.export(now, &mut exports);
                    let failure = Self::failure(Activity::BatchExpired, outcome);
                    let step = Step { exports, failure, stop: false };
                    proof {
                        let completed = choose|completed: Seq<Completed<T>>|
                            {
                                &&& #[trigger] may_export(
                                    opts,
                                    before,
                                    now,
                                    self.batch(),
                                    completed,
                                    outcome,
                                )
                                &&& exports@ == Seq::<Vec<u8>>::empty() + sent(completed)
                            };
                        assert(exports@ == sent(completed));
                        let effect = Effect::completing(completed);
                        assert(may_step(opts, before, wake_up, now, self.batch(), effect, step));
                    }
                    step
                } else {
                    let step = Step { exports, failure: None, stop: false };
                    assert(may_step(
                        opts,
                        before,
                        wake_up,
                        now,
                        self.batch(),
                        Effect::completing(Seq::empty()),
                        step,
                    ));
                    step
                }
            },
            WakeUp::Control(None) => {
                let step = Step { exports, failure: None, stop: true };
                assert(may_step(
                    opts,
                    before,
                    wake_up,
                    now,
                    self.batch(),
                    Effect::completing(Seq::empty()),
                    step,
                ));
                step
            },
        }
    }

    fn failure(activity: Activity, outcome: Result<(), BatchCollectorError<W::Error>>) -> (failure:
        Option<(Activity, BatchCollectorError<W::Error>)>)
        ensures
            failure == failure_of(activity, outcome),
    {
        match outcome {
            Ok(_) => None,
            Err(error) => Some((activity, error)),
        }
    }
}

} // verus!
