//! What holds of the background task as a whole.

use super::batch::{BatchState, BatchWriter};
use super::buffer::Buffer;
use super::clock::Instant;
use super::collector::BatchCollector;
use super::error::{BatchCollectorError, TrySendError};
use super::opts::BatchCollectorOpts;
use super::worker::{Completed, ControlEvent, Effect, Step, WakeUp};
use crate::AnalyticsEvent;
use vstd::prelude::*;

verus! {

/// One wake-up of the background task, with the batch before and after it and
/// what it did to events.
#[verifier::reject_recursive_types(T)]
#[verifier::reject_recursive_types(W)]
pub struct Transition<T: AnalyticsEvent, W: BatchWriter<T>> {
    pub before: BatchState<T, W>,
    pub wake_up: WakeUp<T>,
    pub now: Instant,
    pub after: BatchState<T, W>,
    pub effect: Effect<T>,
    pub step: Step<W::Error>,
}

impl<T: AnalyticsEvent, W: BatchWriter<T>> Transition<T, W> {
    /// The task may take this transition.
    pub open spec fn possible(self, opts: BatchCollectorOpts) -> bool {
        super::worker::may_step(
            opts,
            self.before,
            self.wake_up,
            self.now,
            self.after,
            self.effect,
            self.step,
        )
    }

    /// The transition reports no failure.
    pub open spec fn succeeds(self) -> bool {
        self.step.failure is None
    }

    /// The event that this wake-up brings, if it brings one.
    pub open spec fn arrived(self) -> Seq<T> {
        match self.wake_up {
            WakeUp::Control(Some(ControlEvent::Process(event))) => seq![event],
            _ => Seq::empty(),
        }
    }

    /// What the event queue delivered, if that woke the task up.
    pub open spec fn delivered(self) -> Seq<ControlEvent<T>> {
        match self.wake_up {
            WakeUp::Control(Some(control)) => seq![control],
            _ => Seq::empty(),
        }
    }

    /// The events in the batches that this wake-up hands on for export.
    pub open spec fn exported(self) -> Seq<T> {
        exported_events(self.effect.completed)
    }
}

/// The events in all of the completed batches, in order.
pub open spec fn events_of<T>(completed: Seq<Completed<T>>) -> Seq<T>
    decreases completed.len(),
{
    if completed.len() == 0 {
        Seq::empty()
    } else {
        events_of(completed.drop_last()) + completed.last().events
    }
}

/// The events in those of the completed batches that are handed on for export,
/// in order.
pub open spec fn exported_events<T>(completed: Seq<Completed<T>>) -> Seq<T>
    decreases completed.len(),
{
    if completed.len() == 0 {
        Seq::empty()
    } else if completed.last().bytes is Some {
        exported_events(completed.drop_last()) + completed.last().events
    } else {
        exported_events(completed.drop_last())
    }
}

/// The bytes of all of the completed batches could be had.
pub open spec fn none_lost<T>(completed: Seq<Completed<T>>) -> bool {
    forall|i: int| 0 <= i < completed.len() ==> (#[trigger] completed[i]).bytes is Some
}

/// A run of the task: transitions that are possible and follow each other.
pub open spec fn is_run<T: AnalyticsEvent, W: BatchWriter<T>>(
    opts: BatchCollectorOpts,
    run: Seq<Transition<T, W>>,
) -> bool {
    &&& forall|i: int| 0 <= i < run.len() ==> (#[trigger] run[i]).possible(opts)
    &&& forall|i: int, j: int|
        0 <= i < run.len() && j == i + 1 && j < run.len() ==> (#[trigger] run[i]).after == (
        #[trigger] run[j]).before
}

/// No transition of the run reports a failure.
pub open spec fn all_succeed<T: AnalyticsEvent, W: BatchWriter<T>>(
    run: Seq<Transition<T, W>>,
) -> bool {
    forall|i: int| 0 <= i < run.len() ==> (#[trigger] run[i]).succeeds()
}

/// The events that a run brings, in order.
pub open spec fn arrivals<T: AnalyticsEvent, W: BatchWriter<T>>(
    run: Seq<Transition<T, W>>,
) -> Seq<T>
    decreases run.len(),
{
    if run.len() == 0 {
        Seq::empty()
    } else {
        arrivals(run.drop_last()) + run.last().arrived()
    }
}

/// What the event queue delivers during a run, in order.
pub open spec fn deliveries<T: AnalyticsEvent, W: BatchWriter<T>>(
    run: Seq<Transition<T, W>>,
) -> Seq<ControlEvent<T>>
    decreases run.len(),
{
    if run.len() == 0 {
        Seq::empty()
    } else {
        deliveries(run.drop_last()) + run.last().delivered()
    }
}

/// The events that the writers take during a run, in order.
pub open spec fn taken<T: AnalyticsEvent, W: BatchWriter<T>>(run: Seq<Transition<T, W>>) -> Seq<T>
    decreases run.len(),
{
    if run.len() == 0 {
        Seq::empty()
    } else {
        taken(run.drop_last()) + run.last().effect.taken
    }
}

/// The batches that a run completes, in order.
pub open spec fn completed<T: AnalyticsEvent, W: BatchWriter<T>>(
    run: Seq<Transition<T, W>>,
) -> Seq<Completed<T>>
    decreases run.len(),
{
    if run.len() == 0 {
        Seq::empty()
    } else {
        completed(run.drop_last()) + run.last().effect.completed
    }
}

/// The events in the batches that a run hands on for export, in order.
pub open spec fn exports<T: AnalyticsEvent, W: BatchWriter<T>>(
    run: Seq<Transition<T, W>>,
) -> Seq<T> {
    exported_events(completed(run))
}

/// The bytes that a run hands on for export, in order.
pub open spec fn outbox<T: AnalyticsEvent, W: BatchWriter<T>>(
    run: Seq<Transition<T, W>>,
) -> Seq<Vec<u8>>
    decreases run.len(),
{
    if run.len() == 0 {
        Seq::empty()
    } else {
        outbox(run.drop_last()) + run.last().step.exports@
    }
}

proof fn lemma_events_concat<T>(a: Seq<Completed<T>>, b: Seq<Completed<T>>)
    ensures
        events_of(a + b) == events_of(a) + events_of(b),
        exported_events(a + b) == exported_events(a) + exported_events(b),
    decreases b.len(),
{
    if b.len() == 0 {
        assert(a + b == a);
    } else {
        assert((a + b).drop_last() == a + b.drop_last());
        lemma_events_concat(a, b.drop_last());
    }
}

/// Where nothing is lost, all events of completed batches are exported.
proof fn lemma_none_lost<T>(completed: Seq<Completed<T>>)
    requires
        none_lost(completed),
    ensures
        exported_events(completed) == events_of(completed),
    decreases completed.len(),
{
    if completed.len() > 0 {
        lemma_none_lost(completed.drop_last());
    }
}

/// What an export does to events.
proof fn lemma_export<T: AnalyticsEvent, W: BatchWriter<T>>(
    opts: BatchCollectorOpts,
    before: BatchState<T, W>,
    now: Instant,
    after: BatchState<T, W>,
    completed: Seq<Completed<T>>,
    outcome: Result<(), BatchCollectorError<W::Error>>,
)
    requires
        super::worker::may_export(opts, before, now, after, completed, outcome),
    ensures
        before.events == events_of(completed) + after.events,
        completed.len() <= 1,
        completed.len() == 1 ==> completed[0].events == before.events && before.events.len() > 0
            && after.events.len() == 0 && !after.has_expiration && after.expiration == now,
        completed.len() == 0 ==> after.events == before.events && after.has_expiration
            == before.has_expiration && after.expiration == before.expiration,
        outcome is Ok ==> none_lost(completed) && after.events.len() == 0,
        outcome is Ok && before.events.len() > 0 ==> completed.len() == 1,
{
    reveal_with_fuel(events_of, 2);
    assert(before.events == events_of(completed) + after.events);
}

/// What adding an event does to events.
proof fn lemma_add<T: AnalyticsEvent, W: BatchWriter<T>>(
    opts: BatchCollectorOpts,
    before: BatchState<T, W>,
    event: T,
    now: Instant,
    after: BatchState<T, W>,
    effect: Effect<T>,
    outcome: Result<(), BatchCollectorError<W::Error>>,
)
    requires
        super::worker::may_add(opts, before, event, now, after, effect, outcome),
    ensures
        before.events + effect.taken == events_of(effect.completed) + after.events,
        effect.taken == seq![event] || effect.taken == Seq::<T>::empty() && outcome is Err
            && effect.completed.len() == 0 && after.events == before.events,
        effect.completed.len() <= 1,
        effect.completed.len() == 1 ==> effect.taken == seq![event] && effect.completed[0].events
            == before.events.push(event) && after.events.len() == 0 && !after.has_expiration
            && after.expiration == now,
        effect.completed.len() == 0 ==> after.has_expiration && after.expiration
            == super::worker::armed(opts, before, now).expiration && (after.events == before.events
            || after.events == before.events.push(event)),
        outcome is Ok ==> none_lost(effect.completed),
        outcome is Ok ==> effect.taken == seq![event] && (effect.measured matches Some(size) && (
        effect.completed.len() == 1 <==> size >= opts.export_size_threshold || before.events.len()
            + 1 >= opts.export_row_threshold)),
{
    let written = choose|written: W|
        #[trigger] super::worker::may_add_written(
            opts,
            before,
            event,
            now,
            written,
            after,
            effect,
            outcome,
        );
    let filled = super::worker::armed(opts, before, now).with_event(written, event);
    assert(before.events + seq![event] == before.events.push(event));
    assert(before.events + Seq::<T>::empty() == before.events);
    assert(events_of(Seq::<Completed<T>>::empty()) + after.events == after.events);
    if super::worker::may_export(opts, filled, now, after, effect.completed, outcome) {
        lemma_export(opts, filled, now, after, effect.completed, outcome);
    }
    if effect.completed.len() == 0 {
        assert(effect.completed == Seq::<Completed<T>>::empty());
    }
}

/// What processing an event does to events. Where the batch is full at first
/// and its export succeeds, `effect` is that of adding the event to an empty
/// batch, preceded by the completion of the full one.
proof fn lemma_process<T: AnalyticsEvent, W: BatchWriter<T>>(
    opts: BatchCollectorOpts,
    before: BatchState<T, W>,
    event: T,
    now: Instant,
    after: BatchState<T, W>,
    effect: Effect<T>,
    outcome: Result<(), BatchCollectorError<W::Error>>,
) -> (split: (BatchState<T, W>, Effect<T>))
    requires
        super::worker::may_process(opts, before, event, now, after, effect, outcome),
    ensures
        before.events + effect.taken == events_of(effect.completed) + after.events,
        effect.taken == seq![event] || effect.taken == Seq::<T>::empty() && outcome is Err,
        outcome is Ok ==> none_lost(effect.completed),
        !super::worker::is_full(opts, before) ==> split == (before, effect)
            && super::worker::may_add(opts, before, event, now, after, effect, outcome),
        super::worker::is_full(opts, before) && outcome is Ok ==> {
            &&& super::worker::may_add(opts, split.0, event, now, after, split.1, outcome)
            &&& split.0.events.len() == 0
            &&& !split.0.has_expiration
            &&& effect.completed.len() == split.1.completed.len() + 1
            &&& effect.completed[0].events == before.events
            &&& effect.completed.drop_first() == split.1.completed
            &&& effect.taken == split.1.taken
            &&& effect.measured == split.1.measured
        },
        super::worker::is_full(opts, before) && effect.taken.len() == 0 ==> after.events
            == before.events || after.events.len() == 0,
        super::worker::is_full(opts, before) && effect.taken.len() > 0 ==> after.events == seq![event]
            || after.events.len() == 0,
        super::worker::is_full(opts, before) ==> (effect.completed.len() > 0
            ==> effect.completed[0].events == before.events),
        effect.completed.len() <= 2,
        forall|i: int|
            0 <= i < effect.completed.len() ==> {
                ||| (#[trigger] effect.completed[i]).events == before.events && before.events.len()
                    > 0
                ||| effect.completed[i].events == before.events.push(event)
                    && !super::worker::is_full(opts, before)
                ||| effect.completed[i].events == seq![event]
            },
        effect.completed.len() == 0 && before.has_expiration ==> after.has_expiration
            && after.expiration == before.expiration,
        effect.completed.len() == 0 && !before.has_expiration && effect.taken.len() > 0
            ==> after.has_expiration && after.expiration == now.after(opts.export_time_threshold),
        super::worker::is_full(opts, before) && effect.taken.len() > 0 ==> effect.completed.len() > 0
            && (after.events.len() > 0 ==> after.has_expiration && after.expiration == now.after(
            opts.export_time_threshold,
        )),
{
    if !super::worker::is_full(opts, before) {
        lemma_add(opts, before, event, now, after, effect, outcome);
        (before, effect)
    } else if outcome is Err && super::worker::may_export(
        opts,
        before,
        now,
        after,
        effect.completed,
        outcome,
    ) && effect == Effect::completing(effect.completed) {
        lemma_export(opts, before, now, after, effect.completed, outcome);
        assert(before.events + Seq::<T>::empty() == before.events);
        (before, effect)
    } else {
        let (next, earlier, rest) = choose|
            next: BatchState<T, W>,
            earlier: Seq<Completed<T>>,
            rest: Effect<T>,
        |
            {
                &&& #[trigger] super::worker::may_export(opts, before, now, next, earlier, Ok(()))
                &&& #[trigger] super::worker::may_add(opts, next, event, now, after, rest, outcome)
                &&& effect == rest.following(earlier)
            };
        lemma_export(opts, before, now, next, earlier, Ok(()));
        lemma_add(opts, next, event, now, after, rest, outcome);
        lemma_events_concat(earlier, rest.completed);
        assert(next.events == Seq::<T>::empty());
        assert(Seq::<T>::empty().push(event) == seq![event]);
        assert(before.events + effect.taken == events_of(effect.completed) + after.events) by {
            assert(next.events + rest.taken == rest.taken);
            assert(events_of(earlier) + next.events == events_of(earlier));
            assert(events_of(earlier) + (events_of(rest.completed) + after.events) == (events_of(
                earlier,
            ) + events_of(rest.completed)) + after.events);
        }
        assert(effect.completed.drop_first() == rest.completed);
        assert forall|i: int| 0 <= i < effect.completed.len() implies {
            ||| (#[trigger] effect.completed[i]).events == before.events && before.events.len() > 0
            ||| effect.completed[i].events == before.events.push(event)
                && !super::worker::is_full(opts, before)
            ||| effect.completed[i].events == seq![event]
        } by {
            if i > 0 {
                assert(effect.completed[i] == rest.completed[i - 1]);
            }
        }
        assert(outcome is Ok ==> none_lost(effect.completed));
        (next, rest)
    }
}

/// What processing the event that a wake-up brought returned.
proof fn lemma_outcome<T: AnalyticsEvent, W: BatchWriter<T>>(
    opts: BatchCollectorOpts,
    t: Transition<T, W>,
    event: T,
) -> (outcome: Result<(), BatchCollectorError<W::Error>>)
    requires
        t.possible(opts),
        t.wake_up == WakeUp::Control(Some(ControlEvent::Process(event))),
    ensures
        super::worker::may_process(opts, t.before, event, t.now, t.after, t.effect, outcome),
        t.step.failure == super::worker::failure_of(super::worker::Activity::Processing, outcome),
{
    choose|outcome: Result<(), BatchCollectorError<W::Error>>|
        {
            &&& #[trigger] super::worker::may_process(
                opts,
                t.before,
                event,
                t.now,
                t.after,
                t.effect,
                outcome,
            )
            &&& t.step.failure == super::worker::failure_of(
                super::worker::Activity::Processing,
                outcome,
            )
        }
}

/// No wake-up loses track of events, reorders or repeats them, not even where
/// something fails: what is in the batches that it completes, followed by what
/// stays in the current batch, is what was in the batch, followed by the event
/// that the writer took. Without a failure, what was completed is exported.
pub proof fn law_step_conserves_events<T: AnalyticsEvent, W: BatchWriter<T>>(
    opts: BatchCollectorOpts,
    t: Transition<T, W>,
)
    requires
        t.possible(opts),
    ensures
        events_of(t.effect.completed) + t.after.events == t.before.events + t.effect.taken,
        t.succeeds() ==> none_lost(t.effect.completed) && t.exported() == events_of(
            t.effect.completed,
        ),
{
    assert(t.before.events + Seq::<T>::empty() == t.before.events);
    assert(events_of(Seq::<Completed<T>>::empty()) + t.before.events == t.before.events);
    match t.wake_up {
        WakeUp::Control(Some(ControlEvent::Process(event))) => {
            let outcome = lemma_outcome(opts, t, event);
            let _ = lemma_process(opts, t.before, event, t.now, t.after, t.effect, outcome);
        },
        _ => {
            lemma_step_exports(opts, t);
        },
    }
    if t.succeeds() {
        lemma_none_lost(t.effect.completed);
    }
}

/// A wake-up that brings no event either exports the batch or changes nothing.
proof fn lemma_step_exports<T: AnalyticsEvent, W: BatchWriter<T>>(
    opts: BatchCollectorOpts,
    t: Transition<T, W>,
)
    requires
        t.possible(opts),
        t.arrived().len() == 0,
    ensures
        t.effect.taken.len() == 0,
        t.before.events == events_of(t.effect.completed) + t.after.events,
        t.effect.completed.len() <= 1,
        t.effect.completed.len() == 1 ==> t.effect.completed[0].events == t.before.events
            && t.before.events.len() > 0 && t.after.events.len() == 0 && !t.after.has_expiration
            && t.after.expiration == t.now,
        t.effect.completed.len() == 0 ==> t.after.events == t.before.events
            && t.after.has_expiration == t.before.has_expiration && t.after.expiration
            == t.before.expiration,
        t.succeeds() ==> none_lost(t.effect.completed),
        t.succeeds() && (t.wake_up is Tick && t.now.nanos > t.before.expiration.nanos || t.wake_up
            == WakeUp::<T>::Control(Some(ControlEvent::Shutdown))) ==> t.after.events.len() == 0,
        t.succeeds() && t.before.events.len() > 0 && (t.wake_up is Tick && t.now.nanos
            > t.before.expiration.nanos || t.wake_up == WakeUp::<T>::Control(
            Some(ControlEvent::Shutdown),
        )) ==> t.effect.completed.len() == 1,
        (t.wake_up is Tick && t.now.nanos <= t.before.expiration.nanos || t.wake_up
            == WakeUp::<T>::Control(None)) ==> t.effect.completed.len() == 0 && t.succeeds()
            && t.after == t.before,
{
    assert(events_of(Seq::<Completed<T>>::empty()) + t.before.events == t.before.events);
    match t.wake_up {
        WakeUp::Control(Some(ControlEvent::Shutdown)) => {
            let outcome = choose|outcome: Result<(), BatchCollectorError<W::Error>>|
                {
                    &&& #[trigger] super::worker::may_export(
                        opts,
                        t.before,
                        t.now,
                        t.after,
                        t.effect.completed,
                        outcome,
                    )
                    &&& t.step.failure == super::worker::failure_of(
                        super::worker::Activity::CollectorShutdown,
                        outcome,
                    )
                };
            lemma_export(opts, t.before, t.now, t.after, t.effect.completed, outcome);
        },
        WakeUp::Tick => {
            if t.now.nanos > t.before.expiration.nanos {
                let outcome = choose|outcome: Result<(), BatchCollectorError<W::Error>>|
                    {
                        &&& #[trigger] super::worker::may_export(
                            opts,
                            t.before,
                            t.now,
                            t.after,
                            t.effect.completed,
                            outcome,
                        )
                        &&& t.step.failure == super::worker::failure_of(
                            super::worker::Activity::BatchExpired,
                            outcome,
                        )
                    };
                lemma_export(opts, t.before, t.now, t.after, t.effect.completed, outcome);
            }
        },
        _ => {},
    }
}

/// The writer takes the event that arrives or refuses it. A refusal is
/// reported, and it does not end the task: only a shutdown or a closed queue
/// does.
pub proof fn law_event_is_taken_or_reported<T: AnalyticsEvent, W: BatchWriter<T>>(
    opts: BatchCollectorOpts,
    t: Transition<T, W>,
)
    requires
        t.possible(opts),
    ensures
        t.effect.taken == t.arrived() || t.effect.taken.len() == 0 && !t.succeeds(),
        t.step.stop <==> t.wake_up == WakeUp::<T>::Control(None) || t.wake_up == WakeUp::<
            T,
        >::Control(Some(ControlEvent::Shutdown)),
{
    match t.wake_up {
        WakeUp::Control(Some(ControlEvent::Process(event))) => {
            let outcome = lemma_outcome(opts, t, event);
            let _ = lemma_process(opts, t.before, event, t.now, t.after, t.effect, outcome);
        },
        _ => {
            lemma_step_exports(opts, t);
            assert(t.effect.taken == t.arrived());
        },
    }
}

/// Whether an event is taken is the answer of the writer that it is handed to,
/// as long as the batch has room: one that is taken was taken by the writer, and
/// one that is not was refused by it, with the error that is reported. The size
/// of the buffer is read when the batch has the event that was taken.
pub proof fn law_writer_decides_what_is_taken<T: AnalyticsEvent, W: BatchWriter<T>>(
    opts: BatchCollectorOpts,
    t: Transition<T, W>,
    event: T,
) -> (written: W)
    requires
        t.possible(opts),
        t.wake_up == WakeUp::Control(Some(ControlEvent::Process(event))),
        t.before.events.len() < opts.row_limit(),
    ensures
        t.effect.taken.len() > 0 ==> {
            &&& t.before.writer.may_write(event, written, Ok(()))
            &&& t.effect.measured matches Some(size)
            &&& super::batch::may_measure(
                super::worker::armed(opts, t.before, t.now).with_event(written, event),
                size,
            )
        },
        t.effect.taken.len() == 0 ==> {
            &&& t.step.failure matches Some((activity, BatchCollectorError::Writer(error)))
            &&& activity == super::worker::Activity::Processing
            &&& t.before.writer.may_write(event, written, Err(error))
            &&& t.after.events == t.before.events
            &&& t.after.writer == written
        },
{
    let outcome = lemma_outcome(opts, t, event);
    choose|written: W|
        #[trigger] super::worker::may_add_written(
            opts,
            t.before,
            event,
            t.now,
            written,
            t.after,
            t.effect,
            outcome,
        )
}

/// As long as no batch is completed, the size that is measured is read from the
/// counter of one and the same buffer: the one that was handed to the writer of
/// the batch when the batch was started.
pub proof fn law_batch_measures_its_own_buffer<T: AnalyticsEvent, W: BatchWriter<T>>(
    opts: BatchCollectorOpts,
    start: Instant,
    buffer: Buffer,
    run: Seq<Transition<T, W>>,
)
    requires
        run.len() > 0,
        super::batch::may_start_with::<T, W>(opts, start, buffer, Ok(run[0].before)),
        is_run(opts, run),
        forall|i: int| 0 <= i < run.len() ==> (#[trigger] run[i]).effect.completed.len() == 0,
    ensures
        run.last().after.counter == buffer.counter(),
        forall|i: int|
            0 <= i < run.len() ==> ((#[trigger] run[i]).effect.measured matches Some(size)
                ==> super::buffer::may_count(buffer.counter(), size)),
    decreases run.len(),
{
    let rest = run.drop_last();
    let t = run.last();
    if rest.len() > 0 {
        assert forall|i: int| 0 <= i < rest.len() implies (#[trigger] rest[i]).effect.completed.len()
            == 0 by {
            assert(rest[i] == run[i]);
        }
        law_batch_measures_its_own_buffer(opts, start, buffer, rest);
        assert(rest.last() == run[run.len() - 2]);
    }
    assert(t == run[run.len() - 1]);
    assert(t.before.counter == buffer.counter());
    assert(t.after.counter == buffer.counter() && (t.effect.measured matches Some(size)
        ==> super::buffer::may_count(buffer.counter(), size))) by {
        match t.wake_up {
            WakeUp::Control(Some(ControlEvent::Process(event))) => {
                let outcome = lemma_outcome(opts, t, event);
                let _ = lemma_process(opts, t.before, event, t.now, t.after, t.effect, outcome);
            },
            _ => {
                lemma_step_exports(opts, t);
            },
        }
    }
    assert forall|i: int| 0 <= i < run.len() implies ((#[trigger] run[i]).effect.measured matches Some(
        size,
    ) ==> super::buffer::may_count(buffer.counter(), size)) by {
        if i < rest.len() {
            assert(rest[i] == run[i]);
        }
    }
}

/// The size that a batch measures is a reading of the counter that tells exactly
/// how many bytes the writer has put into the buffer that it was given:
/// whatever writes brought the buffer from what was handed over to what it is
/// now, the counter tells their total.
pub proof fn law_batch_measures_what_was_written<T: AnalyticsEvent, W: BatchWriter<T>>(
    opts: BatchCollectorOpts,
    start: Instant,
    first: BatchState<T, W>,
    batch: BatchState<T, W>,
    size: usize,
    buffers: Seq<Buffer>,
    writes: Seq<Seq<u8>>,
)
    requires
        buffers.len() == writes.len() + 1,
        super::batch::may_start_with::<T, W>(opts, start, buffers[0], Ok(first)),
        forall|i: int| #![trigger writes[i]]
            0 <= i < writes.len() ==> buffers[i + 1].appended(buffers[i], writes[i]),
        batch.counter == first.counter,
        super::batch::may_measure(batch, size),
    ensures
        super::buffer::may_count(buffers.last().counter(), size),
        super::buffer::told_after(buffers.last().log()) == buffers.last()@.len(),
        super::buffer::told_after(buffers.last().log()) == writes.flatten().len(),
{
    super::buffer::law_counter_tells_the_length(buffers, writes, opts.batch_alloc_size);
    super::buffer::law_size_handle_outlives_ownership(
        buffers,
        writes,
        std::sync::Arc::new(buffers[0].counter()),
    );
}

/// Over any run, failures or not, the events that the writers took are each in
/// exactly one completed batch, in the order in which they were taken, except
/// for those that are still in the batch at the end. Events that were refused
/// are in none.
pub proof fn law_run_conserves_events<T: AnalyticsEvent, W: BatchWriter<T>>(
    opts: BatchCollectorOpts,
    run: Seq<Transition<T, W>>,
)
    requires
        run.len() > 0,
        is_run(opts, run),
    ensures
        events_of(completed(run)) + run.last().after.events == run[0].before.events + taken(run),
    decreases run.len(),
{
    let rest = run.drop_last();
    let t = run.last();
    law_step_conserves_events(opts, t);
    lemma_events_concat(completed(rest), t.effect.completed);
    if rest.len() > 0 {
        assert(rest.last() == run[run.len() - 2]);
        law_run_conserves_events(opts, rest);
        assert(events_of(completed(run)) + t.after.events == events_of(completed(rest)) + (events_of(
            t.effect.completed,
        ) + t.after.events));
        assert(run[0].before.events + taken(run) == (run[0].before.events + taken(rest))
            + t.effect.taken);
        assert(events_of(completed(rest)) + (rest.last().after.events + t.effect.taken) == (
        events_of(completed(rest)) + rest.last().after.events) + t.effect.taken);
    } else {
        assert(completed(rest) == Seq::<Completed<T>>::empty());
        assert(taken(rest) == Seq::<T>::empty());
        assert(completed(run) == t.effect.completed);
        assert(taken(run) == t.effect.taken);
    }
}

/// In a run in which no completed batch is lost, the events that the writers
/// took are exported exactly once and in order, except for those that are
/// still in the batch at the end. It does not matter whether other events were
/// refused, or whether flushing a batch or starting the next one failed
/// meanwhile.
pub proof fn law_taken_events_are_exported<T: AnalyticsEvent, W: BatchWriter<T>>(
    opts: BatchCollectorOpts,
    run: Seq<Transition<T, W>>,
)
    requires
        run.len() > 0,
        is_run(opts, run),
        none_lost(completed(run)),
    ensures
        exports(run) + run.last().after.events == run[0].before.events + taken(run),
{
    law_run_conserves_events(opts, run);
    lemma_none_lost(completed(run));
}

/// Without failures, nothing is lost and every event is taken that arrives.
proof fn lemma_success<T: AnalyticsEvent, W: BatchWriter<T>>(
    opts: BatchCollectorOpts,
    run: Seq<Transition<T, W>>,
)
    requires
        is_run(opts, run),
        all_succeed(run),
    ensures
        none_lost(completed(run)),
        taken(run) == arrivals(run),
    decreases run.len(),
{
    if run.len() > 0 {
        let rest = run.drop_last();
        let t = run.last();
        assert(t == run[run.len() - 1]);
        law_step_conserves_events(opts, t);
        law_event_is_taken_or_reported(opts, t);
        lemma_success(opts, rest);
        assert forall|i: int| 0 <= i < completed(run).len() implies (#[trigger] completed(
            run,
        )[i]).bytes is Some by {
            if i >= completed(rest).len() {
                assert(completed(run)[i] == t.effect.completed[i - completed(rest).len()]);
            }
        }
    }
}

/// Over a run without failures every event that arrives is exported exactly
/// once and in the order of arrival, except for those that are still in the
/// batch at the end.
pub proof fn law_arrivals_are_exported<T: AnalyticsEvent, W: BatchWriter<T>>(
    opts: BatchCollectorOpts,
    run: Seq<Transition<T, W>>,
)
    requires
        run.len() > 0,
        is_run(opts, run),
        all_succeed(run),
    ensures
        exports(run) + run.last().after.events == run[0].before.events + arrivals(run),
{
    lemma_success(opts, run);
    law_taken_events_are_exported(opts, run);
}

/// A run that starts with an empty batch and ends with a shutdown that
/// succeeds exports every event that a writer took, in order, and no other, and
/// then stops, provided that no completed batch was lost on the way.
pub proof fn law_shutdown_exports_everything<T: AnalyticsEvent, W: BatchWriter<T>>(
    opts: BatchCollectorOpts,
    run: Seq<Transition<T, W>>,
)
    requires
        run.len() > 0,
        is_run(opts, run),
        none_lost(completed(run)),
        run[0].before.events.len() == 0,
        run.last().wake_up == WakeUp::<T>::Control(Some(ControlEvent::Shutdown)),
        run.last().succeeds(),
    ensures
        run.last().step.stop,
        run.last().after.events.len() == 0,
        exports(run) == taken(run),
        all_succeed(run) ==> exports(run) == arrivals(run),
{
    law_taken_events_are_exported(opts, run);
    assert(run.last().possible(opts));
    lemma_step_exports(opts, run.last());
    assert(exports(run) == exports(run) + run.last().after.events);
    assert(taken(run) == run[0].before.events + taken(run));
    if all_succeed(run) {
        lemma_success(opts, run);
    }
}

/// A run that the event queue delivers exactly `events` and then a shutdown
/// brings exactly these events.
proof fn lemma_deliveries<T: AnalyticsEvent, W: BatchWriter<T>>(
    run: Seq<Transition<T, W>>,
    events: Seq<T>,
)
    requires
        deliveries(run) == events.map_values(|event: T| ControlEvent::Process(event)),
    ensures
        arrivals(run) == events,
    decreases run.len(),
{
    if run.len() > 0 {
        let rest = run.drop_last();
        let d = run.last().delivered();
        if d.len() == 0 {
            assert(deliveries(run) == deliveries(rest));
            lemma_deliveries(rest, events);
            assert(arrivals(run) == arrivals(rest));
        } else {
            assert(deliveries(run).last() == d[0]);
            assert(d[0] == ControlEvent::Process(events.last()));
            assert(deliveries(rest) == deliveries(run).drop_last());
            assert(deliveries(rest) == events.drop_last().map_values(
                |event: T| ControlEvent::Process(event),
            ));
            lemma_deliveries(rest, events.drop_last());
            assert(arrivals(run) == events.drop_last().push(events.last()));
        }
    } else {
        assert(deliveries(run).len() == 0);
        assert(arrivals(run) == events);
    }
}

/// A collector that is dropped after `collected` were put into its queue, and
/// whose shutdown follows them there, loses none of them: the task that started
/// with the collector and is delivered these events and then the shutdown, with
/// any number of ticks between them, exports all of them in order and ends,
/// unless something fails.
pub proof fn law_dropped_collector_exports_everything<T: AnalyticsEvent, W: BatchWriter<T>>(
    opts: BatchCollectorOpts,
    start: Instant,
    run: Seq<Transition<T, W>>,
    collected: Seq<T>,
)
    requires
        run.len() > 0,
        super::batch::may_start::<T, W>(opts, start, Ok(run[0].before)),
        is_run(opts, run),
        all_succeed(run),
        deliveries(run.drop_last()) == collected.map_values(|event: T| ControlEvent::Process(event)),
        run.last().wake_up == WakeUp::<T>::Control(Some(ControlEvent::Shutdown)),
    ensures
        exports(run) == collected,
        run.last().step.stop,
{
    lemma_success(opts, run);
    law_shutdown_exports_everything(opts, run);
    lemma_deliveries(run.drop_last(), collected);
    assert(arrivals(run) == arrivals(run.drop_last()));
}

/// The events that the queue accepted of those that were offered to it, in
/// order.
pub open spec fn accepted<T>(
    offered: Seq<T>,
    answers: Seq<Result<(), TrySendError<ControlEvent<T>>>>,
) -> Seq<T>
    decreases offered.len(),
{
    if offered.len() == 0 {
        Seq::empty()
    } else {
        let earlier = accepted(offered.drop_last(), answers.drop_last());
        if answers.last() is Ok {
            earlier.push(offered.last())
        } else {
            earlier
        }
    }
}

/// What a collector is good for: events are offered to it one after the other,
/// and then a shutdown that its queue accepts. If the queue delivers what it
/// accepted, and nothing else, in that order, then exactly the accepted events
/// are exported, in order, and the task ends with the shutdown and not before,
/// unless something fails or the queue is closed.
pub proof fn law_collector_exports_what_its_queue_accepts<T: AnalyticsEvent, W: BatchWriter<T>>(
    collector: BatchCollector<T>,
    opts: BatchCollectorOpts,
    start: Instant,
    offered: Seq<T>,
    answers: Seq<Result<(), TrySendError<ControlEvent<T>>>>,
    run: Seq<Transition<T, W>>,
)
    requires
        offered.len() == answers.len(),
        forall|i: int|
            0 <= i < offered.len() ==> collector.may_answer(
                ControlEvent::Process(#[trigger] offered[i]),
                answers[i],
            ),
        collector.may_answer(ControlEvent::Shutdown, Ok(())),
        run.len() > 0,
        super::batch::may_start::<T, W>(opts, start, Ok(run[0].before)),
        is_run(opts, run),
        all_succeed(run),
        run.last().wake_up == WakeUp::<T>::Control(Some(ControlEvent::Shutdown)),
        deliveries(run) == accepted(offered, answers).map_values(
            |event: T| ControlEvent::Process(event),
        ).push(ControlEvent::Shutdown),
    ensures
        exports(run) == accepted(offered, answers),
        run.last().step.stop,
        forall|i: int|
            0 <= i < run.len() - 1 && !((#[trigger] run[i]).wake_up == WakeUp::<T>::Control(None))
                ==> !run[i].step.stop,
{
    let collected = accepted(offered, answers);
    assert(deliveries(run.drop_last()) == deliveries(run).drop_last());
    assert(deliveries(run.drop_last()) == collected.map_values(
        |event: T| ControlEvent::Process(event),
    ));
    law_dropped_collector_exports_everything(opts, start, run, collected);
    assert forall|i: int|
        0 <= i < run.len() - 1 && !((#[trigger] run[i]).wake_up == WakeUp::<T>::Control(
            None,
        )) implies !run[i].step.stop by {
        assert(run[i].possible(opts));
        law_event_is_taken_or_reported(opts, run[i]);
        if run[i].wake_up == WakeUp::<T>::Control(Some(ControlEvent::Shutdown)) {
            lemma_delivered(run.drop_last(), i);
            let k = choose|k: int|
                0 <= k < deliveries(run.drop_last()).len() && deliveries(run.drop_last())[k]
                    == ControlEvent::<T>::Shutdown;
            assert(deliveries(run.drop_last())[k] == ControlEvent::Process(collected[k]));
        }
    }
}

/// What wakes the task up by the queue is among what the queue delivers.
proof fn lemma_delivered<T: AnalyticsEvent, W: BatchWriter<T>>(
    run: Seq<Transition<T, W>>,
    i: int,
)
    requires
        0 <= i < run.len(),
        run[i].wake_up == WakeUp::<T>::Control(Some(ControlEvent::Shutdown)),
    ensures
        exists|k: int|
            0 <= k < deliveries(run).len() && deliveries(run)[k] == ControlEvent::<T>::Shutdown,
    decreases run.len(),
{
    let rest = run.drop_last();
    if i < rest.len() {
        lemma_delivered(rest, i);
        let k = choose|k: int|
            0 <= k < deliveries(rest).len() && deliveries(rest)[k] == ControlEvent::<T>::Shutdown;
        assert(deliveries(run)[k] == deliveries(rest)[k]);
    } else {
        assert(deliveries(run)[deliveries(rest).len() as int] == ControlEvent::<T>::Shutdown);
    }
}

/// Whatever happens, a wake-up leaves in the batch the events that were there,
/// those followed by the one that arrived, only the one that arrived, or none.
pub proof fn law_batch_never_mixes_events<T: AnalyticsEvent, W: BatchWriter<T>>(
    opts: BatchCollectorOpts,
    t: Transition<T, W>,
)
    requires
        t.possible(opts),
    ensures
        t.after.events == t.before.events || t.after.events == t.before.events + t.arrived()
            || t.after.events == t.arrived() || t.after.events.len() == 0,
{
    match t.wake_up {
        WakeUp::Control(Some(ControlEvent::Process(event))) => {
            let outcome = lemma_outcome(opts, t, event);
            let _ = lemma_process(opts, t.before, event, t.now, t.after, t.effect, outcome);
            if !super::worker::is_full(opts, t.before) {
                lemma_add(opts, t.before, event, t.now, t.after, t.effect, outcome);
            }
            assert(t.before.events.push(event) == t.before.events + t.arrived());
        },
        _ => {
            lemma_step_exports(opts, t);
        },
    }
}

/// Only batches that hold events are completed and exported.
pub proof fn law_no_empty_export<T: AnalyticsEvent, W: BatchWriter<T>>(
    opts: BatchCollectorOpts,
    t: Transition<T, W>,
)
    requires
        t.possible(opts),
    ensures
        forall|i: int|
            0 <= i < t.effect.completed.len() ==> (#[trigger] t.effect.completed[i]).events.len()
                > 0,
{
    match t.wake_up {
        WakeUp::Control(Some(ControlEvent::Process(event))) => {
            let outcome = lemma_outcome(opts, t, event);
            let _ = lemma_process(opts, t.before, event, t.now, t.after, t.effect, outcome);
        },
        _ => {
            lemma_step_exports(opts, t);
        },
    }
}

/// A wake-up neither leaves nor completes a batch with more events than a batch
/// can contain, whatever fails.
pub proof fn law_step_keeps_row_limit<T: AnalyticsEvent, W: BatchWriter<T>>(
    opts: BatchCollectorOpts,
    t: Transition<T, W>,
)
    requires
        t.possible(opts),
        t.before.events.len() <= opts.row_limit(),
    ensures
        t.after.events.len() <= opts.row_limit(),
        super::worker::within_limit(opts, t.effect.completed),
{
    match t.wake_up {
        WakeUp::Control(Some(ControlEvent::Process(event))) => {
            let outcome = lemma_outcome(opts, t, event);
            let _ = lemma_process(opts, t.before, event, t.now, t.after, t.effect, outcome);
            if !super::worker::is_full(opts, t.before) {
                lemma_add(opts, t.before, event, t.now, t.after, t.effect, outcome);
            }
        },
        _ => {
            lemma_step_exports(opts, t);
        },
    }
}

/// In every state of every run that starts with a fresh batch, failures
/// or not, the batch contains no more events than the row threshold allows, and
/// neither does any batch that the run exports.
pub proof fn law_row_limit_is_never_exceeded<T: AnalyticsEvent, W: BatchWriter<T>>(
    opts: BatchCollectorOpts,
    start: Instant,
    run: Seq<Transition<T, W>>,
)
    requires
        run.len() > 0,
        super::batch::may_start::<T, W>(opts, start, Ok(run[0].before)),
        is_run(opts, run),
    ensures
        forall|i: int|
            0 <= i < run.len() ==> (#[trigger] run[i]).before.events.len() <= opts.row_limit()
                && run[i].after.events.len() <= opts.row_limit() && super::worker::within_limit(
                opts,
                run[i].effect.completed,
            ),
        super::worker::within_limit(opts, completed(run)),
    decreases run.len(),
{
    let rest = run.drop_last();
    let t = run.last();
    if rest.len() > 0 {
        law_row_limit_is_never_exceeded(opts, start, rest);
        assert(rest.last() == run[run.len() - 2]);
        assert(t.before == rest[rest.len() - 1].after);
    }
    law_step_keeps_row_limit(opts, t);
    assert forall|i: int| 0 <= i < run.len() implies (#[trigger] run[i]).before.events.len()
        <= opts.row_limit() && run[i].after.events.len() <= opts.row_limit()
        && super::worker::within_limit(opts, run[i].effect.completed) by {
        if i < rest.len() {
            assert(rest[i] == run[i]);
        }
    }
    assert forall|i: int| 0 <= i < completed(run).len() implies (#[trigger] completed(
        run,
    )[i]).events.len() <= opts.row_limit() by {
        if i < completed(rest).len() {
            assert(completed(run)[i] == completed(rest)[i]);
        } else {
            assert(completed(run)[i] == t.effect.completed[i - completed(rest).len()]);
        }
    }
}

/// Without a failure, the batch that an event is left in has fewer events than
/// the row threshold, and its buffer was found smaller than the size threshold.
pub proof fn law_batch_stays_below_thresholds<T: AnalyticsEvent, W: BatchWriter<T>>(
    opts: BatchCollectorOpts,
    t: Transition<T, W>,
    event: T,
)
    requires
        t.possible(opts),
        t.succeeds(),
        t.wake_up == WakeUp::Control(Some(ControlEvent::Process(event))),
        t.after.events.len() > 0,
    ensures
        t.after.events.len() < opts.export_row_threshold,
        t.effect.measured matches Some(size) && size < opts.export_size_threshold,
{
    let outcome = lemma_outcome(opts, t, event);
    let (next, rest) = lemma_process(opts, t.before, event, t.now, t.after, t.effect, outcome);
    lemma_add(opts, next, event, t.now, t.after, rest, outcome);
}

/// An event that makes the batch reach the row threshold completes the batch:
/// unless something fails, the batch is exported with that event as its last.
pub proof fn law_full_batch_is_exported<T: AnalyticsEvent, W: BatchWriter<T>>(
    opts: BatchCollectorOpts,
    t: Transition<T, W>,
    event: T,
)
    requires
        t.possible(opts),
        t.succeeds(),
        t.wake_up == WakeUp::Control(Some(ControlEvent::Process(event))),
        t.before.events.len() < opts.row_limit(),
        t.before.events.len() + 1 >= opts.export_row_threshold,
    ensures
        t.step.exports@.len() == 1,
        t.exported() == t.before.events.push(event),
        t.after.events.len() == 0,
{
    let outcome = lemma_outcome(opts, t, event);
    lemma_add(opts, t.before, event, t.now, t.after, t.effect, outcome);
    reveal_with_fuel(super::worker::sent, 2);
    reveal_with_fuel(exported_events, 2);
    assert(t.exported() == t.before.events.push(event));
}

/// An event after which the buffer is found to have reached the size threshold
/// completes the batch: unless something fails, the batch is exported with that
/// event as its last.
pub proof fn law_large_batch_is_exported<T: AnalyticsEvent, W: BatchWriter<T>>(
    opts: BatchCollectorOpts,
    t: Transition<T, W>,
    event: T,
    size: usize,
)
    requires
        t.possible(opts),
        t.succeeds(),
        t.wake_up == WakeUp::Control(Some(ControlEvent::Process(event))),
        t.before.events.len() < opts.row_limit(),
        t.effect.measured == Some(size),
        size >= opts.export_size_threshold,
    ensures
        t.step.exports@.len() == 1,
        t.exported() == t.before.events.push(event),
        t.after.events.len() == 0,
{
    let outcome = lemma_outcome(opts, t, event);
    lemma_add(opts, t.before, event, t.now, t.after, t.effect, outcome);
    reveal_with_fuel(super::worker::sent, 2);
    reveal_with_fuel(exported_events, 2);
    assert(t.exported() == t.before.events.push(event));
}

/// A batch that is already full when an event arrives is exported as it is: the
/// event goes into the next batch, or nowhere if the export fails.
pub proof fn law_full_batch_takes_no_event<T: AnalyticsEvent, W: BatchWriter<T>>(
    opts: BatchCollectorOpts,
    t: Transition<T, W>,
    event: T,
)
    requires
        t.possible(opts),
        t.wake_up == WakeUp::Control(Some(ControlEvent::Process(event))),
        t.before.events.len() >= opts.row_limit(),
    ensures
        t.effect.completed.len() > 0 ==> t.effect.completed[0].events == t.before.events,
        t.effect.taken.len() > 0 ==> t.after.events == seq![event] || t.after.events.len() == 0,
        t.effect.taken.len() == 0 ==> t.after.events == t.before.events || t.after.events.len()
            == 0,
        t.succeeds() ==> t.effect.taken == seq![event],
{
    let outcome = lemma_outcome(opts, t, event);
    let _ = lemma_process(opts, t.before, event, t.now, t.after, t.effect, outcome);
}

/// A batch that holds events has a time at which it expires.
pub proof fn law_batch_with_events_expires<T: AnalyticsEvent, W: BatchWriter<T>>(
    opts: BatchCollectorOpts,
    t: Transition<T, W>,
)
    requires
        t.possible(opts),
        t.before.events.len() > 0 ==> t.before.has_expiration,
    ensures
        t.after.events.len() > 0 ==> t.after.has_expiration,
{
}

/// The first event of a batch decides when the batch expires, and later events
/// do not change that.
pub proof fn law_first_event_sets_expiration<T: AnalyticsEvent, W: BatchWriter<T>>(
    opts: BatchCollectorOpts,
    t: Transition<T, W>,
    event: T,
)
    requires
        t.possible(opts),
        t.succeeds(),
        t.wake_up == WakeUp::Control(Some(ControlEvent::Process(event))),
        t.step.exports@.len() == 0,
    ensures
        t.after.has_expiration,
        t.after.expiration == if t.before.has_expiration {
            t.before.expiration
        } else {
            t.now.after(opts.export_time_threshold)
        },
{
    let outcome = lemma_outcome(opts, t, event);
    let (next, rest) = lemma_process(opts, t.before, event, t.now, t.after, t.effect, outcome);
    lemma_add(opts, next, event, t.now, t.after, rest, outcome);
    if t.effect.completed.len() > 0 {
        assert(t.effect.completed.last().bytes is Some);
        assert(super::worker::sent(t.effect.completed).len() > 0);
    }
}

/// A tick that comes after the batch has expired exports the batch if it holds
/// events, unless something fails.
pub proof fn law_expired_batch_is_exported<T: AnalyticsEvent, W: BatchWriter<T>>(
    opts: BatchCollectorOpts,
    t: Transition<T, W>,
)
    requires
        t.possible(opts),
        t.succeeds(),
        t.wake_up is Tick,
        t.now.nanos > t.before.expiration.nanos,
    ensures
        t.step.exports@.len() == if t.before.events.len() > 0 {
            1nat
        } else {
            0
        },
        t.exported() == t.before.events,
        t.after.events.len() == 0,
{
    lemma_step_exports(opts, t);
    law_step_conserves_events(opts, t);
    reveal_with_fuel(super::worker::sent, 2);
    assert(events_of(t.effect.completed) == events_of(t.effect.completed) + t.after.events);
    assert(t.before.events == t.before.events + t.effect.taken);
}

/// A tick that comes before the batch has expired changes nothing.
pub proof fn law_unexpired_batch_is_kept<T: AnalyticsEvent, W: BatchWriter<T>>(
    opts: BatchCollectorOpts,
    t: Transition<T, W>,
)
    requires
        t.possible(opts),
        t.wake_up is Tick,
        t.now.nanos <= t.before.expiration.nanos,
    ensures
        t.step.exports@.len() == 0,
        t.succeeds(),
        !t.step.stop,
        t.after == t.before,
{
    lemma_step_exports(opts, t);
}

/// No event that a writer took waits for longer than the time threshold: a run
/// that starts with its arrival and ends with a tick that comes later than the
/// threshold after it and that succeeds has exported the event, together with
/// everything that was in the batch before it.
///
/// Meanwhile other events may be refused, and flushing the batch or starting
/// the next one may fail. Only a batch must not have been lost.
pub proof fn law_no_event_outlives_time_threshold<T: AnalyticsEvent, W: BatchWriter<T>>(
    opts: BatchCollectorOpts,
    run: Seq<Transition<T, W>>,
    event: T,
)
    requires
        run.len() > 1,
        is_run(opts, run),
        none_lost(completed(run)),
        run[0].wake_up == WakeUp::Control(Some(ControlEvent::Process(event))),
        run[0].effect.taken == seq![event],
        run[0].now.nanos + opts.export_time_threshold.nanos <= u128::MAX,
        run[0].before.has_expiration ==> run[0].before.expiration.nanos <= run[0].now.nanos
            + opts.export_time_threshold.nanos,
        run.last().wake_up is Tick,
        run.last().succeeds(),
        run.last().now.nanos > run[0].now.nanos + opts.export_time_threshold.nanos,
    ensures
        run[0].before.events.push(event).is_prefix_of(exports(run)),
{
    let rest = run.drop_last();
    let t = run.last();
    assert(rest.last() == run[run.len() - 2]);
    assert(t.possible(opts));
    lemma_waiting(opts, rest, event);
    law_taken_events_are_exported(opts, run);
    lemma_none_lost(completed(run));
    lemma_events_concat(completed(rest), t.effect.completed);
    lemma_step_exports(opts, t);
    lemma_taken_starts_with(run, event);
    assert(exports(run).len() > run[0].before.events.len()) by {
        if events_of(completed(rest)).len() <= run[0].before.events.len() {
            assert(t.after.events.len() == 0);
            assert(events_of(t.effect.completed).len() == t.before.events.len());
        }
    }
    let all = run[0].before.events + taken(run);
    let first = run[0].before.events.push(event);
    assert(exports(run).len() <= all.len());
    assert forall|i: int| 0 <= i < first.len() implies first[i] == exports(run)[i] by {
        assert(exports(run)[i] == all[i]);
    }
}

/// As long as the event has not been completed, its batch is the current one
/// and expires in time, whatever fails.
proof fn lemma_waiting<T: AnalyticsEvent, W: BatchWriter<T>>(
    opts: BatchCollectorOpts,
    run: Seq<Transition<T, W>>,
    event: T,
)
    requires
        run.len() > 0,
        is_run(opts, run),
        run[0].wake_up == WakeUp::Control(Some(ControlEvent::Process(event))),
        run[0].effect.taken == seq![event],
        run[0].now.nanos + opts.export_time_threshold.nanos <= u128::MAX,
        run[0].before.has_expiration ==> run[0].before.expiration.nanos <= run[0].now.nanos
            + opts.export_time_threshold.nanos,
    ensures
        events_of(completed(run)).len() > run[0].before.events.len() || {
            &&& run.last().after.has_expiration
            &&& run.last().after.expiration.nanos <= run[0].now.nanos
                + opts.export_time_threshold.nanos
            &&& events_of(completed(run)).len() + run.last().after.events.len()
                > run[0].before.events.len()
        },
    decreases run.len(),
{
    let rest = run.drop_last();
    let t = run.last();
    assert(t.possible(opts));
    law_run_conserves_events(opts, run);
    lemma_taken_starts_with(run, event);
    lemma_events_concat(completed(rest), t.effect.completed);
    law_step_conserves_events(opts, t);
    if rest.len() > 0 {
        assert(rest.last() == run[run.len() - 2]);
        lemma_waiting(opts, rest, event);
    } else {
        assert(completed(rest) == Seq::<Completed<T>>::empty());
    }
    if t.effect.completed.len() > 0 {
        lemma_first_completed_is_oldest(t.effect.completed);
    } else {
        assert(t.effect.completed == Seq::<Completed<T>>::empty());
    }
    match t.wake_up {
        WakeUp::Control(Some(ControlEvent::Process(latest))) => {
            let outcome = lemma_outcome(opts, t, latest);
            let _ = lemma_process(opts, t.before, latest, t.now, t.after, t.effect, outcome);
            if !super::worker::is_full(opts, t.before) {
                lemma_add(opts, t.before, latest, t.now, t.after, t.effect, outcome);
            }
        },
        _ => {
            lemma_step_exports(opts, t);
        },
    }
}

/// All batches together hold at least the events of the first.
proof fn lemma_first_completed_is_oldest<T>(completed: Seq<Completed<T>>)
    requires
        completed.len() > 0,
    ensures
        events_of(completed).len() >= completed[0].events.len(),
    decreases completed.len(),
{
    if completed.len() > 1 {
        lemma_first_completed_is_oldest(completed.drop_last());
    }
}

/// A run that starts with a writer taking `event` takes that event first.
proof fn lemma_taken_starts_with<T: AnalyticsEvent, W: BatchWriter<T>>(
    run: Seq<Transition<T, W>>,
    event: T,
)
    requires
        run.len() > 0,
        run[0].effect.taken == seq![event],
    ensures
        taken(run).len() > 0,
        taken(run)[0] == event,
    decreases run.len(),
{
    let rest = run.drop_last();
    if rest.len() > 0 {
        lemma_taken_starts_with(rest, event);
    } else {
        assert(taken(rest) == Seq::<T>::empty());
        assert(taken(run) == run[0].effect.taken);
    }
}

/// Ticks come no further apart than the check interval: as long as the run
/// lasts, there is one in every stretch of time of that length.
pub open spec fn ticks_regularly<T: AnalyticsEvent, W: BatchWriter<T>>(
    opts: BatchCollectorOpts,
    run: Seq<Transition<T, W>>,
) -> bool {
    forall|start: int|
        run[0].now.nanos <= start && start + opts.export_check_interval.nanos
            <= run.last().now.nanos ==> #[trigger] has_tick(
            run,
            start,
            start + opts.export_check_interval.nanos,
        )
}

/// There is a tick after `start` and no later than `end`.
pub open spec fn has_tick<T: AnalyticsEvent, W: BatchWriter<T>>(
    run: Seq<Transition<T, W>>,
    start: int,
    end: int,
) -> bool {
    exists|i: int|
        0 <= i < run.len() && (#[trigger] run[i]).wake_up is Tick && start < run[i].now.nanos <= end
}

/// The ticks of a run succeed.
pub open spec fn ticks_succeed<T: AnalyticsEvent, W: BatchWriter<T>>(
    run: Seq<Transition<T, W>>,
) -> bool {
    forall|i: int|
        0 <= i < run.len() && (#[trigger] run[i]).wake_up is Tick ==> run[i].succeeds()
}

/// An event that a writer took is exported no later than the time threshold and
/// the check interval after it arrived, even if no other event follows: in a run
/// that starts with its arrival, in which ticks come regularly and succeed and
/// which lasts that long, it has been exported by a wake-up that came in time.
///
/// Other events may be refused meanwhile, and exporting a batch that is full or
/// large may fail, as long as no batch is lost.
pub proof fn law_wait_is_bounded<T: AnalyticsEvent, W: BatchWriter<T>>(
    opts: BatchCollectorOpts,
    run: Seq<Transition<T, W>>,
    event: T,
) -> (last: int)
    requires
        run.len() > 0,
        is_run(opts, run),
        none_lost(completed(run)),
        ticks_succeed(run),
        ticks_regularly(opts, run),
        run[0].wake_up == WakeUp::Control(Some(ControlEvent::Process(event))),
        run[0].effect.taken == seq![event],
        run[0].now.nanos + opts.export_time_threshold.nanos <= u128::MAX,
        run[0].before.has_expiration ==> run[0].before.expiration.nanos <= run[0].now.nanos
            + opts.export_time_threshold.nanos,
        run.last().now.nanos >= run[0].now.nanos + opts.export_time_threshold.nanos
            + opts.export_check_interval.nanos,
    ensures
        0 <= last < run.len(),
        run[last].now.nanos <= run[0].now.nanos + opts.export_time_threshold.nanos
            + opts.export_check_interval.nanos,
        run[0].before.events.push(event).is_prefix_of(exports(run.take(last + 1))),
{
    let start = run[0].now.nanos + opts.export_time_threshold.nanos;
    let end = start + opts.export_check_interval.nanos;
    assert(has_tick(run, start, end));
    let last = choose|i: int|
        0 <= i < run.len() && (#[trigger] run[i]).wake_up is Tick && start < run[i].now.nanos
            <= end;
    let part = run.take(last + 1);
    assert forall|i: int, j: int|
        0 <= i < part.len() && j == i + 1 && j < part.len() implies (#[trigger] part[i]).after == (
    #[trigger] part[j]).before by {
        assert(run[i].after == run[j].before);
    }
    assert forall|i: int| 0 <= i < part.len() implies (#[trigger] part[i]).possible(opts) by {
        assert(part[i] == run[i]);
    }
    lemma_completed_so_far(run, last + 1);
    assert(none_lost(completed(part))) by {
        assert forall|i: int| 0 <= i < completed(part).len() implies (#[trigger] completed(
            part,
        )[i]).bytes is Some by {
            assert(completed(run)[i] == completed(part)[i]);
        }
    }
    law_no_event_outlives_time_threshold(opts, part, event);
    last
}

/// What a run has completed at some point is what it completes first.
proof fn lemma_completed_so_far<T: AnalyticsEvent, W: BatchWriter<T>>(
    run: Seq<Transition<T, W>>,
    steps: int,
)
    requires
        0 <= steps <= run.len(),
    ensures
        completed(run.take(steps)).is_prefix_of(completed(run)),
    decreases run.len(),
{
    if steps == run.len() {
        assert(run.take(steps) == run);
    } else {
        let rest = run.drop_last();
        assert(rest.take(steps) == run.take(steps));
        lemma_completed_so_far(rest, steps);
    }
}

/// An event that arrives while the batch has room is refused: the writer does
/// not take it, and nothing is completed.
pub open spec fn is_refusal<T: AnalyticsEvent, W: BatchWriter<T>>(
    opts: BatchCollectorOpts,
    t: Transition<T, W>,
) -> bool {
    &&& t.arrived().len() > 0
    &&& !super::worker::is_full(opts, t.before)
    &&& t.effect.taken.len() == 0
    &&& t.effect.completed.len() == 0
}

/// Nothing fails in a run but that writers refuse events.
pub open spec fn fails_by_refusal_only<T: AnalyticsEvent, W: BatchWriter<T>>(
    opts: BatchCollectorOpts,
    run: Seq<Transition<T, W>>,
) -> bool {
    forall|i: int|
        0 <= i < run.len() ==> (#[trigger] run[i]).succeeds() || is_refusal(opts, run[i])
}

/// Events that writers refuse do not delay those that they take: in a run in
/// which nothing else fails, an event that was taken is exported no later than
/// the time threshold and the check interval after it arrived.
pub proof fn law_refusals_delay_nothing<T: AnalyticsEvent, W: BatchWriter<T>>(
    opts: BatchCollectorOpts,
    run: Seq<Transition<T, W>>,
    event: T,
) -> (last: int)
    requires
        run.len() > 0,
        is_run(opts, run),
        fails_by_refusal_only(opts, run),
        ticks_regularly(opts, run),
        run[0].wake_up == WakeUp::Control(Some(ControlEvent::Process(event))),
        run[0].effect.taken == seq![event],
        run[0].now.nanos + opts.export_time_threshold.nanos <= u128::MAX,
        run[0].before.has_expiration ==> run[0].before.expiration.nanos <= run[0].now.nanos
            + opts.export_time_threshold.nanos,
        run.last().now.nanos >= run[0].now.nanos + opts.export_time_threshold.nanos
            + opts.export_check_interval.nanos,
    ensures
        0 <= last < run.len(),
        run[last].now.nanos <= run[0].now.nanos + opts.export_time_threshold.nanos
            + opts.export_check_interval.nanos,
        run[0].before.events.push(event).is_prefix_of(exports(run.take(last + 1))),
{
    lemma_refusals(opts, run);
    law_wait_is_bounded(opts, run, event)
}

/// Refusals lose no batch and make no tick fail.
proof fn lemma_refusals<T: AnalyticsEvent, W: BatchWriter<T>>(
    opts: BatchCollectorOpts,
    run: Seq<Transition<T, W>>,
)
    requires
        is_run(opts, run),
        fails_by_refusal_only(opts, run),
    ensures
        none_lost(completed(run)),
        ticks_succeed(run),
    decreases run.len(),
{
    if run.len() > 0 {
        let rest = run.drop_last();
        let t = run.last();
        assert(t == run[run.len() - 1]);
        assert forall|i: int| 0 <= i < rest.len() implies (#[trigger] rest[i]).succeeds()
            || is_refusal(opts, rest[i]) by {
            assert(rest[i] == run[i]);
        }
        lemma_refusals(opts, rest);
        law_step_conserves_events(opts, t);
        assert forall|i: int| 0 <= i < completed(run).len() implies (#[trigger] completed(
            run,
        )[i]).bytes is Some by {
            if i < completed(rest).len() {
                assert(completed(run)[i] == completed(rest)[i]);
            } else {
                assert(completed(run)[i] == t.effect.completed[i - completed(rest).len()]);
            }
        }
    }
}

/// The clock of a run does not go back.
pub open spec fn clock_advances<T: AnalyticsEvent, W: BatchWriter<T>>(
    run: Seq<Transition<T, W>>,
) -> bool {
    forall|i: int, j: int|
        0 <= i <= j < run.len() ==> (#[trigger] run[i]).now.nanos <= (#[trigger] run[j]).now.nanos
}

/// In every run that starts with a fresh batch, failures or not, the batch never
/// expires later than the time threshold after the current time, as long as the
/// clock can count that far.
pub proof fn law_expiration_is_within_threshold<T: AnalyticsEvent, W: BatchWriter<T>>(
    opts: BatchCollectorOpts,
    start: Instant,
    run: Seq<Transition<T, W>>,
)
    requires
        run.len() > 0,
        super::batch::may_start::<T, W>(opts, start, Ok(run[0].before)),
        is_run(opts, run),
        clock_advances(run),
        run.last().now.nanos + opts.export_time_threshold.nanos <= u128::MAX,
    ensures
        run.last().before.has_expiration ==> run.last().before.expiration.nanos
            <= run.last().now.nanos + opts.export_time_threshold.nanos,
        run.last().after.has_expiration ==> run.last().after.expiration.nanos
            <= run.last().now.nanos + opts.export_time_threshold.nanos,
    decreases run.len(),
{
    let rest = run.drop_last();
    let t = run.last();
    assert(t.possible(opts));
    if rest.len() > 0 {
        assert(rest.last() == run[run.len() - 2]);
        assert(run[run.len() - 2].now.nanos <= run[run.len() - 1].now.nanos);
        law_expiration_is_within_threshold(opts, start, rest);
    }
}

/// A way in which a writer encodes: each event has a code, what a writer holds
/// is the codes of the events that it took, one after the other, and that is
/// what it gives away in the end.
pub open spec fn encodes<T: AnalyticsEvent, W: BatchWriter<T>>(
    content: spec_fn(W) -> Seq<u8>,
    code: spec_fn(T) -> Seq<u8>,
) -> bool {
    &&& forall|buffer: Buffer, opts: BatchCollectorOpts, writer: W|
        buffer@.len() == 0 && #[trigger] W::may_create(buffer, opts, Ok(writer)) ==> content(writer)
            == Seq::<u8>::empty()
    &&& forall|writer: W, event: T, after: W, written: Result<(), W::Error>| #[trigger]
        writer.may_write(event, after, written) ==> content(after) == if written is Ok {
            content(writer) + code(event)
        } else {
            content(writer)
        }
    &&& forall|writer: W, after: W, flushed: Result<(), W::Error>| #[trigger]
        writer.may_flush(after, flushed) ==> content(after) == content(writer)
    &&& forall|writer: W, bytes: Vec<u8>| #[trigger]
        writer.may_finish(Ok(bytes)) ==> bytes@ == content(writer)
}

/// The codes of events, one after the other.
pub open spec fn encoded<T>(code: spec_fn(T) -> Seq<u8>, events: Seq<T>) -> Seq<u8>
    decreases events.len(),
{
    if events.len() == 0 {
        Seq::empty()
    } else {
        encoded(code, events.drop_last()) + code(events.last())
    }
}

/// Bytes, one after the other.
pub open spec fn joined(parts: Seq<Vec<u8>>) -> Seq<u8>
    decreases parts.len(),
{
    if parts.len() == 0 {
        Seq::empty()
    } else {
        joined(parts.drop_last()) + parts.last()@
    }
}

/// The bytes of completed batches are the codes of their events.
pub open spec fn bytes_match_events<T>(
    code: spec_fn(T) -> Seq<u8>,
    completed: Seq<Completed<T>>,
) -> bool {
    forall|i: int|
        0 <= i < completed.len() ==> ((#[trigger] completed[i]).bytes matches Some(bytes)
            ==> bytes@ == encoded(code, completed[i].events))
}

proof fn lemma_encoded_concat<T>(code: spec_fn(T) -> Seq<u8>, a: Seq<T>, b: Seq<T>)
    ensures
        encoded(code, a + b) == encoded(code, a) + encoded(code, b),
    decreases b.len(),
{
    if b.len() == 0 {
        assert(a + b == a);
    } else {
        assert((a + b).drop_last() == a + b.drop_last());
        lemma_encoded_concat(code, a, b.drop_last());
    }
}

/// Where the bytes of each batch match its events, so do all bytes together.
proof fn lemma_sent_matches<T>(code: spec_fn(T) -> Seq<u8>, completed: Seq<Completed<T>>)
    requires
        bytes_match_events(code, completed),
    ensures
        joined(super::worker::sent(completed)) == encoded(code, exported_events(completed)),
    decreases completed.len(),
{
    if completed.len() > 0 {
        let rest = completed.drop_last();
        lemma_sent_matches(code, rest);
        if let Some(bytes) = completed.last().bytes {
            assert(completed[completed.len() - 1].bytes == Some(bytes));
            assert(super::worker::sent(completed).drop_last() == super::worker::sent(rest));
            lemma_encoded_concat(code, exported_events(rest), completed.last().events);
        }
    }
}

/// Exporting hands on the codes of the events in the batch.
proof fn lemma_export_encodes<T: AnalyticsEvent, W: BatchWriter<T>>(
    opts: BatchCollectorOpts,
    content: spec_fn(W) -> Seq<u8>,
    code: spec_fn(T) -> Seq<u8>,
    before: BatchState<T, W>,
    now: Instant,
    after: BatchState<T, W>,
    completed: Seq<Completed<T>>,
    outcome: Result<(), BatchCollectorError<W::Error>>,
)
    requires
        encodes(content, code),
        super::worker::may_export(opts, before, now, after, completed, outcome),
        content(before.writer) == encoded(code, before.events),
    ensures
        content(after.writer) == encoded(code, after.events),
        bytes_match_events(code, completed),
{
}

/// Adding an event adds its code.
proof fn lemma_add_encodes<T: AnalyticsEvent, W: BatchWriter<T>>(
    opts: BatchCollectorOpts,
    content: spec_fn(W) -> Seq<u8>,
    code: spec_fn(T) -> Seq<u8>,
    before: BatchState<T, W>,
    event: T,
    now: Instant,
    after: BatchState<T, W>,
    effect: Effect<T>,
    outcome: Result<(), BatchCollectorError<W::Error>>,
)
    requires
        encodes(content, code),
        super::worker::may_add(opts, before, event, now, after, effect, outcome),
        content(before.writer) == encoded(code, before.events),
    ensures
        content(after.writer) == encoded(code, after.events),
        bytes_match_events(code, effect.completed),
{
    let written = choose|written: W|
        #[trigger] super::worker::may_add_written(
            opts,
            before,
            event,
            now,
            written,
            after,
            effect,
            outcome,
        );
    let filled = super::worker::armed(opts, before, now).with_event(written, event);
    assert(before.events.push(event).drop_last() == before.events);
    if effect.taken.len() > 0 {
        assert(content(filled.writer) == encoded(code, filled.events));
        if super::worker::may_export(opts, filled, now, after, effect.completed, outcome) {
            lemma_export_encodes(
                opts,
                content,
                code,
                filled,
                now,
                after,
                effect.completed,
                outcome,
            );
        }
    }
}

/// The bytes of a batch belong to its events: if a writer encodes events by
/// codes, then every batch that a wake-up hands on for export consists of the
/// codes of the events counted for it, and the current batch of those of its
/// own, failures or not.
pub proof fn law_bytes_belong_to_events<T: AnalyticsEvent, W: BatchWriter<T>>(
    opts: BatchCollectorOpts,
    content: spec_fn(W) -> Seq<u8>,
    code: spec_fn(T) -> Seq<u8>,
    t: Transition<T, W>,
)
    requires
        encodes(content, code),
        t.possible(opts),
        content(t.before.writer) == encoded(code, t.before.events),
    ensures
        content(t.after.writer) == encoded(code, t.after.events),
        bytes_match_events(code, t.effect.completed),
        joined(t.step.exports@) == encoded(code, t.exported()),
{
    match t.wake_up {
        WakeUp::Control(Some(ControlEvent::Process(event))) => {
            let outcome = lemma_outcome(opts, t, event);
            if !super::worker::is_full(opts, t.before) {
                lemma_add_encodes(
                    opts,
                    content,
                    code,
                    t.before,
                    event,
                    t.now,
                    t.after,
                    t.effect,
                    outcome,
                );
            } else if super::worker::may_export(
                opts,
                t.before,
                t.now,
                t.after,
                t.effect.completed,
                outcome,
            ) {
                lemma_export_encodes(
                    opts,
                    content,
                    code,
                    t.before,
                    t.now,
                    t.after,
                    t.effect.completed,
                    outcome,
                );
            } else {
                let (next, earlier, rest) = choose|
                    next: BatchState<T, W>,
                    earlier: Seq<Completed<T>>,
                    rest: Effect<T>,
                |
                    {
                        &&& #[trigger] super::worker::may_export(
                            opts,
                            t.before,
                            t.now,
                            next,
                            earlier,
                            Ok(()),
                        )
                        &&& #[trigger] super::worker::may_add(
                            opts,
                            next,
                            event,
                            t.now,
                            t.after,
                            rest,
                            outcome,
                        )
                        &&& t.effect == rest.following(earlier)
                    };
                lemma_export_encodes(
                    opts,
                    content,
                    code,
                    t.before,
                    t.now,
                    next,
                    earlier,
                    Ok(()),
                );
                lemma_add_encodes(
                    opts,
                    content,
                    code,
                    next,
                    event,
                    t.now,
                    t.after,
                    rest,
                    outcome,
                );
            }
        },
        _ => {
            if t.after != t.before || t.effect.completed.len() > 0 {
                let outcome = choose|outcome: Result<(), BatchCollectorError<W::Error>>|
                    #[trigger] super::worker::may_export(
                        opts,
                        t.before,
                        t.now,
                        t.after,
                        t.effect.completed,
                        outcome,
                    );
                lemma_export_encodes(
                    opts,
                    content,
                    code,
                    t.before,
                    t.now,
                    t.after,
                    t.effect.completed,
                    outcome,
                );
            }
        },
    }
    lemma_sent_matches(code, t.effect.completed);
}

/// Over a whole run that starts with a fresh batch, failures or not, the bytes
/// handed on for export are the codes of the exported events, one after the
/// other.
pub proof fn law_run_exports_codes_of_events<T: AnalyticsEvent, W: BatchWriter<T>>(
    opts: BatchCollectorOpts,
    content: spec_fn(W) -> Seq<u8>,
    code: spec_fn(T) -> Seq<u8>,
    start: Instant,
    run: Seq<Transition<T, W>>,
)
    requires
        encodes(content, code),
        run.len() > 0,
        super::batch::may_start::<T, W>(opts, start, Ok(run[0].before)),
        is_run(opts, run),
    ensures
        joined(outbox(run)) == encoded(code, exports(run)),
        content(run.last().after.writer) == encoded(code, run.last().after.events),
    decreases run.len(),
{
    let rest = run.drop_last();
    let t = run.last();
    assert(t.possible(opts));
    if rest.len() > 0 {
        assert(rest.last() == run[run.len() - 2]);
        law_run_exports_codes_of_events(opts, content, code, start, rest);
    }
    law_bytes_belong_to_events(opts, content, code, t);
    lemma_events_concat(completed(rest), t.effect.completed);
    lemma_encoded_concat(code, exports(rest), t.exported());
    lemma_joined_concat(outbox(rest), t.step.exports@);
}

proof fn lemma_joined_concat(a: Seq<Vec<u8>>, b: Seq<Vec<u8>>)
    ensures
        joined(a + b) == joined(a) + joined(b),
    decreases b.len(),
{
    if b.len() == 0 {
        assert(a + b == a);
    } else {
        assert((a + b).drop_last() == a + b.drop_last());
        lemma_joined_concat(a, b.drop_last());
    }
}

/// Whatever the thresholds and wherever they cut the sequence: in a run without
/// failures that starts with a fresh batch and ends with a shutdown, the bytes
/// handed on for export are the codes of all events that arrived, each once and
/// in order.
pub proof fn law_thresholds_only_cut<T: AnalyticsEvent, W: BatchWriter<T>>(
    opts: BatchCollectorOpts,
    content: spec_fn(W) -> Seq<u8>,
    code: spec_fn(T) -> Seq<u8>,
    start: Instant,
    run: Seq<Transition<T, W>>,
)
    requires
        encodes(content, code),
        run.len() > 0,
        super::batch::may_start::<T, W>(opts, start, Ok(run[0].before)),
        is_run(opts, run),
        all_succeed(run),
        run.last().wake_up == WakeUp::<T>::Control(Some(ControlEvent::Shutdown)),
    ensures
        joined(outbox(run)) == encoded(code, arrivals(run)),
{
    lemma_success(opts, run);
    law_shutdown_exports_everything(opts, run);
    law_run_exports_codes_of_events(opts, content, code, start, run);
}

/// Two batches that contain the same events and expire at the same time.
pub open spec fn alike<T: AnalyticsEvent, W: BatchWriter<T>>(
    a: BatchState<T, W>,
    b: BatchState<T, W>,
) -> bool {
    &&& a.events == b.events
    &&& a.has_expiration == b.has_expiration
    &&& a.expiration == b.expiration
}

/// Two wake-ups that bring the same at the same time, and after which the
/// buffer is found to have the same size, with no failure in either.
pub open spec fn same_occasion<T: AnalyticsEvent, W: BatchWriter<T>>(
    a: Transition<T, W>,
    b: Transition<T, W>,
) -> bool {
    &&& a.wake_up == b.wake_up
    &&& a.now == b.now
    &&& a.effect.measured == b.effect.measured
    &&& a.succeeds()
    &&& b.succeeds()
}

/// What a wake-up does to events follows from the options, the events in the
/// batch and when it expires, the wake-up, the time and the size of the buffer.
proof fn lemma_step_is_determined<T: AnalyticsEvent, W: BatchWriter<T>>(
    opts: BatchCollectorOpts,
    a: Transition<T, W>,
    b: Transition<T, W>,
)
    requires
        a.possible(opts),
        b.possible(opts),
        alike(a.before, b.before),
        same_occasion(a, b),
    ensures
        alike(a.after, b.after),
        a.exported() == b.exported(),
        a.step.exports@.len() == b.step.exports@.len(),
        a.step.stop == b.step.stop,
{
    law_step_conserves_events(opts, a);
    law_step_conserves_events(opts, b);
    match a.wake_up {
        WakeUp::Control(Some(ControlEvent::Process(event))) => {
            let x = lemma_outcome(opts, a, event);
            let y = lemma_outcome(opts, b, event);
            let (an, ae) = lemma_process(opts, a.before, event, a.now, a.after, a.effect, x);
            let (bn, be) = lemma_process(opts, b.before, event, b.now, b.after, b.effect, y);
            lemma_add(opts, an, event, a.now, a.after, ae, x);
            lemma_add(opts, bn, event, b.now, b.after, be, y);
            assert(an.events == bn.events);
            assert(ae.completed.len() == be.completed.len());
            if ae.completed.len() == 0 {
                assert(an.events + seq![event] == events_of(ae.completed) + a.after.events);
                assert(ae.completed == Seq::<Completed<T>>::empty());
                assert(be.completed == Seq::<Completed<T>>::empty());
                assert(a.after.events == an.events + seq![event]);
                assert(b.after.events == bn.events + seq![event]);
            } else {
                assert(a.after.events == b.after.events);
            }
        },
        _ => {
            lemma_step_exports(opts, a);
            lemma_step_exports(opts, b);
            if a.effect.completed.len() == 1 {
                assert(a.after.events == b.after.events);
            }
        },
    }
    lemma_sent_len(a.effect.completed);
    lemma_sent_len(b.effect.completed);
    assert(a.effect.taken == b.effect.taken) by {
        law_event_is_taken_or_reported(opts, a);
        law_event_is_taken_or_reported(opts, b);
    }
    let total = a.before.events + a.effect.taken;
    assert(events_of(a.effect.completed) == total.take(total.len() - a.after.events.len()));
    assert(events_of(b.effect.completed) == total.take(total.len() - b.after.events.len()));
}

/// Where nothing is lost, as many bytes are sent as batches are completed.
proof fn lemma_sent_len<T>(completed: Seq<Completed<T>>)
    requires
        none_lost(completed),
    ensures
        super::worker::sent(completed).len() == completed.len(),
    decreases completed.len(),
{
    if completed.len() > 0 {
        lemma_sent_len(completed.drop_last());
    }
}

/// What became of an export changes neither the batches nor later exports. Two
/// runs that start with the same events, are woken up by the same at the same
/// times and find the same sizes, with no failure of the writer in either, hand
/// on the same events at the same steps and leave the same batch, whatever else
/// went differently between them, such as whether an exporter succeeded, failed
/// or has not come to an end.
pub proof fn law_fate_of_exports_does_not_matter<T: AnalyticsEvent, W: BatchWriter<T>>(
    opts: BatchCollectorOpts,
    a: Seq<Transition<T, W>>,
    b: Seq<Transition<T, W>>,
)
    requires
        a.len() == b.len(),
        a.len() > 0,
        is_run(opts, a),
        is_run(opts, b),
        alike(a[0].before, b[0].before),
        forall|i: int| 0 <= i < a.len() ==> same_occasion(#[trigger] a[i], #[trigger] b[i]),
    ensures
        forall|i: int|
            0 <= i < a.len() ==> {
                &&& (#[trigger] a[i]).exported() == (#[trigger] b[i]).exported()
                &&& a[i].step.exports@.len() == b[i].step.exports@.len()
                &&& a[i].step.stop == b[i].step.stop
                &&& alike(a[i].after, b[i].after)
            },
    decreases a.len(),
{
    let n = a.len() - 1;
    if n > 0 {
        let x = a.drop_last();
        let y = b.drop_last();
        assert forall|i: int| 0 <= i < x.len() implies same_occasion(
            #[trigger] x[i],
            #[trigger] y[i],
        ) by {
            assert(same_occasion(a[i], b[i]));
        }
        law_fate_of_exports_does_not_matter(opts, x, y);
        assert(alike(x[n - 1].after, y[n - 1].after)) by {
            assert(x[n - 1].exported() == y[n - 1].exported());
        }
        assert(a[n - 1].after == a[n].before);
        assert(b[n - 1].after == b[n].before);
        assert forall|i: int| 0 <= i < n implies {
            &&& (#[trigger] a[i]).exported() == (#[trigger] b[i]).exported()
            &&& a[i].step.exports@.len() == b[i].step.exports@.len()
            &&& a[i].step.stop == b[i].step.stop
            &&& alike(a[i].after, b[i].after)
        } by {
            assert(x[i] == a[i] && y[i] == b[i]);
        }
    }
    assert(same_occasion(a[n], b[n]));
    lemma_step_is_determined(opts, a[n], b[n]);
}

} // verus!
