//! The event queue and the collector that fills it.

use super::batch::BatchWriter;
use super::clock::Instant;
use super::error::{BatchCollectorError, TrySendError};
use super::opts::BatchCollectorOpts;
use super::worker::{Batcher, ControlEvent};
use crate::{AnalyticsCollector, AnalyticsEvent};
use tokio::sync::mpsc;
use vstd::prelude::*;

verus! {

/// The sending half of a bounded channel of `tokio`. It is only passed along.
#[verifier::external_type_specification]
#[verifier::external_body]
#[verifier::reject_recursive_types(T)]
pub struct ExSender<T>(mpsc::Sender<T>);

/// The receiving half of a bounded channel of `tokio`. It is only passed along.
#[verifier::external_type_specification]
#[verifier::external_body]
#[verifier::reject_recursive_types(T)]
pub struct ExReceiver<T>(mpsc::Receiver<T>);

/// What it is to put `event` into an event queue. Functions that may do so say
/// it where they say which invariants they open: a function that opens none but
/// that of an event puts no other kind of event into a queue.
pub open spec fn putting<T>(event: ControlEvent<T>) -> int {
    match event {
        ControlEvent::Process(_) => 1,
        ControlEvent::Shutdown => 2,
    }
}

/// The sending end of an event queue.
#[verifier::reject_recursive_types(T)]
pub struct EventSender<T> {
    tx: mpsc::Sender<ControlEvent<T>>,
    capacity: Ghost<nat>,
}

impl<T> EventSender<T> {
    /// How many events the queue can hold.
    pub closed spec fn capacity(&self) -> nat {
        self.capacity@
    }

    /// Calls `tokio::sync::mpsc::channel`, which panics if the bound is zero
    /// or larger than `Semaphore::MAX_PERMITS`, an eighth of what `usize` can
    /// count, and which otherwise makes the two ends of a queue that buffers up
    /// to `limit` events.
    #[verifier::external_body]
    fn channel(limit: usize) -> (ends: (Self, mpsc::Receiver<ControlEvent<T>>))
        requires
            0 < limit <= usize::MAX / 8,
        ensures
            ends.0.capacity() == limit,
        opens_invariants none
    {
        let (tx, rx) = mpsc::channel(limit);
        (Self { tx, capacity: Ghost(limit as nat) }, rx)
    }

    /// Calls `Sender::try_send`, which returns the event if the queue is full
    /// or closed. Whether it is depends on what the receiving task has done;
    /// nothing is stated of that, nor of what the queue holds afterwards.
    #[verifier::external_body]
    fn try_send(&self, event: ControlEvent<T>) -> (sent: Result<
        (),
        TrySendError<ControlEvent<T>>,
    >)
        ensures
            sent matches Err(error) ==> error.refused() == event,
        opens_invariants [putting(event)]
    {
        match self.tx.try_send(event) {
            Ok(()) => Ok(()),
            Err(mpsc::error::TrySendError::Full(event)) => Err(TrySendError::Full(event)),
            Err(mpsc::error::TrySendError::Closed(event)) => Err(TrySendError::Closed(event)),
        }
    }
}

/// The collector's end of the event queue.
#[verifier::reject_recursive_types(T)]
pub struct BatchCollector<T: AnalyticsEvent> {
    ctrl_tx: EventSender<T>,
}

impl<T: AnalyticsEvent> BatchCollector<T> {
    /// How many events can wait for the background task.
    pub closed spec fn queue_limit(&self) -> nat {
        self.ctrl_tx.capacity()
    }

    /// Whether this collector's queue may have been created together with the
    /// receiving end `rx`, for up to `limit` events, so that what is put into
    /// the queue comes out there.
    pub closed spec fn feeds(&self, limit: usize, rx: mpsc::Receiver<ControlEvent<T>>) -> bool {
        call_ensures(EventSender::<T>::channel, (limit,), (self.ctrl_tx, rx))
    }

    /// Whether `sent` is what this collector's queue may answer when exactly
    /// `event` is offered to it.
    pub closed spec fn may_answer(
        &self,
        event: ControlEvent<T>,
        sent: Result<(), TrySendError<ControlEvent<T>>>,
    ) -> bool {
        call_ensures(EventSender::<T>::try_send, (&self.ctrl_tx, event), sent)
    }

    /// A collector, with the state of the background task that serves it and
    /// the end of the event queue from which that task is fed. The task's clock
    /// reads `now` and can count to `horizon`.
    pub fn new<W: BatchWriter<T>>(
        opts: BatchCollectorOpts,
        now: Instant,
        horizon: Instant,
    ) -> (created: Result<
        (Self, mpsc::Receiver<ControlEvent<T>>, Batcher<T, W>),
        BatchCollectorError<W::Error>,
    >)
        requires
            opts.queueable(),
            opts.allocatable(),
        ensures
            created matches Ok((collector, rx, batcher)) ==> {
                &&& collector.queue_limit() == opts.event_queue_limit
                &&& collector.feeds(opts.event_queue_limit, rx)
                &&& batcher.wf()
                &&& batcher.opts() == opts
                &&& batcher.horizon() == horizon
            },
            super::batch::may_start::<T, W>(
                opts,
                now,
                match created {
                    Ok((_, _, batcher)) => Ok(batcher.batch()),
                    Err(error) => Err(error),
                },
            ),
    {
        let (collector, ctrl_rx) = Self::connect(&opts);
        match Batcher::new(opts, now, horizon) {
            Ok(batcher) => Ok((collector, ctrl_rx, batcher)),
            Err(error) => Err(error),
        }
    }

    /// A collector and the other end of its queue, into which nothing is put.
    fn connect(opts: &BatchCollectorOpts) -> (ends: (Self, mpsc::Receiver<ControlEvent<T>>))
        requires
            opts.queueable(),
        ensures
            ends.0.queue_limit() == opts.event_queue_limit,
            ends.0.feeds(opts.event_queue_limit, ends.1),
        opens_invariants none
    {
        let (ctrl_tx, ctrl_rx) = EventSender::channel(opts.event_queue_limit);
        (Self { ctrl_tx }, ctrl_rx)
    }

    /// Puts an event into the queue, unless the queue refuses it, and returns
    /// what the queue answers.
    pub fn try_collect(&self, data: T) -> (sent: Result<(), TrySendError<ControlEvent<T>>>)
        ensures
            self.may_answer(ControlEvent::Process(data), sent),
            sent matches Err(error) ==> error.refused() == ControlEvent::Process(data),
        opens_invariants [putting(ControlEvent::Process(data))]
    {
        self.ctrl_tx.try_send(ControlEvent::Process(data))
    }

    /// Tells the background task that no more events will come, unless the
    /// queue refuses to take that, and returns what the queue answers.
    pub fn shutdown(&self) -> (sent: Result<(), TrySendError<ControlEvent<T>>>)
        ensures
            self.may_answer(ControlEvent::Shutdown, sent),
            sent matches Err(error) ==> error.refused() == ControlEvent::<T>::Shutdown,
        opens_invariants [putting(ControlEvent::<T>::Shutdown)]
    {
        self.ctrl_tx.try_send(ControlEvent::Shutdown)
    }
}

impl<T: AnalyticsEvent> AnalyticsCollector<T> for BatchCollector<T> {
    /// The event was offered to the queue. If the queue refused it, it is gone.
    open spec fn collected(&self, data: T) -> bool {
        exists|sent: Result<(), TrySendError<ControlEvent<T>>>|
            #[trigger] self.may_answer(ControlEvent::Process(data), sent)
    }

    /// Nothing but events is put into the queue.
    open spec fn opened(&self) -> Set<int> {
        set![1]
    }

    fn collect(&self, data: T) {
        let _ = self.try_collect(data);
    }
}

/// Only a shutdown puts a shutdown into the queue: to put an event into a queue
/// and to put a shutdown into it are different things, and of the two a collector
/// opens only the former when it collects, whichever event that is.
pub proof fn law_collecting_puts_no_shutdown<T: AnalyticsEvent>(
    collector: BatchCollector<T>,
    event: T,
)
    ensures
        collector.opened().contains(putting(ControlEvent::Process(event))),
        !collector.opened().contains(putting(ControlEvent::<T>::Shutdown)),
        forall|kind: int|
            collector.opened().contains(kind) ==> kind == putting(ControlEvent::Process(event)),
{
}

} // verus!
