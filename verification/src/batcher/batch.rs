//! A batch under construction.

use super::buffer::{Buffer, SizeHandle};
use super::clock::Instant;
use super::error::BatchCollectorError;
use super::opts::BatchCollectorOpts;
use crate::AnalyticsEvent;
use std::fmt::{Debug, Display};
use std::sync::atomic::AtomicUsize;
use vstd::prelude::*;

verus! {

/// An encoder of events: it takes events of type `T` one by one and turns them
/// into bytes.
///
/// How an implementation encodes, and when it fails, is its own choice. It
/// states that choice in the `may_*` relations, which say what each method may
/// do; an implementation that promises nothing leaves them all true.
pub trait BatchWriter<T: AnalyticsEvent>: 'static + Send + Sync + Sized {
    type Error: Debug + Display;

    /// What `create` may make of `buffer`.
    open spec fn may_create(
        buffer: Buffer,
        opts: BatchCollectorOpts,
        created: Result<Self, Self::Error>,
    ) -> bool {
        true
    }

    /// What `write` may leave behind and return.
    open spec fn may_write(self, data: T, after: Self, written: Result<(), Self::Error>) -> bool {
        true
    }

    /// What `flush` may leave behind and return.
    open spec fn may_flush(self, after: Self, flushed: Result<(), Self::Error>) -> bool {
        true
    }

    /// What `into_buffer` may return.
    open spec fn may_finish(self, finished: Result<Vec<u8>, Self::Error>) -> bool {
        true
    }

    /// A writer that encodes into `buffer`.
    fn create(buffer: Buffer, opts: &BatchCollectorOpts) -> (created: Result<Self, Self::Error>)
        ensures
            Self::may_create(buffer, *opts, created),
    ;

    /// Takes one event.
    fn write(&mut self, data: T) -> (written: Result<(), Self::Error>)
        ensures
            old(self).may_write(data, *final(self), written),
    ;

    /// Moves what the writer holds back to the buffer, as far as it can.
    fn flush(&mut self) -> (flushed: Result<(), Self::Error>)
        ensures
            old(self).may_flush(*final(self), flushed),
    ;

    /// Completes the encoding and gives the bytes away.
    fn into_buffer(self) -> (finished: Result<Vec<u8>, Self::Error>)
        ensures
            self.may_finish(finished),
    ;
}

/// What a batch is: the writer in its current state, the events that the
/// writer took since it was created, the counter of the bytes in the buffer
/// that the writer was given, and when the batch expires.
pub struct BatchState<T, W> {
    pub writer: W,
    pub events: Seq<T>,
    pub counter: AtomicUsize,
    pub expiration: Instant,
    pub has_expiration: bool,
}

impl<T: AnalyticsEvent, W: BatchWriter<T>> BatchState<T, W> {
    /// The batch that `writer` starts at `now` with a buffer whose bytes are
    /// counted by `counter`.
    pub open spec fn fresh(writer: W, counter: AtomicUsize, now: Instant) -> Self {
        BatchState { writer, events: Seq::empty(), counter, expiration: now, has_expiration: false }
    }

    /// The same batch with its writer in another state.
    pub open spec fn with_writer(self, writer: W) -> Self {
        BatchState { writer, ..self }
    }

    /// The same batch after its writer took `event`.
    pub open spec fn with_event(self, writer: W, event: T) -> Self {
        BatchState { writer, events: self.events.push(event), ..self }
    }

    /// The same batch, expiring at `expiration`.
    pub open spec fn expiring(self, expiration: Instant) -> Self {
        BatchState { expiration, has_expiration: true, ..self }
    }
}

/// What starting a batch at `now` may return, given that `buffer` was handed to
/// the writer.
pub open spec fn may_start_with<T: AnalyticsEvent, W: BatchWriter<T>>(
    opts: BatchCollectorOpts,
    now: Instant,
    buffer: Buffer,
    started: Result<BatchState<T, W>, BatchCollectorError<W::Error>>,
) -> bool {
    &&& buffer.is_fresh(opts.batch_alloc_size)
    &&& match started {
        Ok(batch) => {
            &&& W::may_create(buffer, opts, Ok(batch.writer))
            &&& batch == BatchState::<T, W>::fresh(batch.writer, buffer.counter(), now)
        },
        Err(BatchCollectorError::Writer(error)) => W::may_create(buffer, opts, Err(error)),
        Err(_) => false,
    }
}

/// What starting a batch at `now` may return.
pub open spec fn may_start<T: AnalyticsEvent, W: BatchWriter<T>>(
    opts: BatchCollectorOpts,
    now: Instant,
    started: Result<BatchState<T, W>, BatchCollectorError<W::Error>>,
) -> bool {
    exists|buffer: Buffer| #[trigger] may_start_with::<T, W>(opts, now, buffer, started)
}

/// A writer together with what is known of the events that it holds.
#[verifier::reject_recursive_types(T)]
pub struct Batch<T: AnalyticsEvent, W: BatchWriter<T>> {
    data: W,
    num_rows: usize,
    size_bytes: SizeHandle,
    expiration: Instant,
    has_expiration: bool,
    events: Ghost<Seq<T>>,
}

impl<T: AnalyticsEvent, W: BatchWriter<T>> View for Batch<T, W> {
    type V = BatchState<T, W>;

    closed spec fn view(&self) -> BatchState<T, W> {
        BatchState {
            writer: self.data,
            events: self.events@,
            counter: self.size_bytes.counter(),
            expiration: self.expiration,
            has_expiration: self.has_expiration,
        }
    }
}

/// Whether `size` is what may be read as the size of the buffer when the batch
/// is as `batch` says, with all of these events taken.
pub open spec fn may_measure<T: AnalyticsEvent, W: BatchWriter<T>>(
    batch: BatchState<T, W>,
    size: usize,
) -> bool {
    exists|measured: Batch<T, W>|
        measured@ == batch && #[trigger] call_ensures(
            Batch::<T, W>::size_bytes,
            (&measured,),
            size,
        )
}

impl<T: AnalyticsEvent, W: BatchWriter<T>> Batch<T, W> {
    /// The row count is the number of events taken.
    pub closed spec fn wf(&self) -> bool {
        self.num_rows == self.events@.len()
    }

    /// An empty batch with a writer of its own, which has not been given a
    /// time to expire yet.
    pub fn new(opts: &BatchCollectorOpts, now: Instant) -> (started: Result<
        Self,
        BatchCollectorError<W::Error>,
    >)
        requires
            opts.allocatable(),
        ensures
            started matches Ok(batch) ==> batch.wf(),
            may_start::<T, W>(
                *opts,
                now,
                match started {
                    Ok(batch) => Ok(batch@),
                    Err(error) => Err(error),
                },
            ),
    {
        let buffer = Buffer::new(opts.batch_alloc_size);
        let size_bytes = buffer.handle();
        let ghost handed_over = buffer;
        match W::create(buffer, opts) {
            Ok(data) => {
                let batch = Self {
                    data,
                    num_rows: 0,
                    size_bytes,
                    expiration: now,
                    has_expiration: false,
                    events: Ghost(Seq::empty()),
                };
                assert(may_start_with::<T, W>(*opts, now, handed_over, Ok(batch@)));
                Ok(batch)
            },
            Err(error) => {
                let error = BatchCollectorError::Writer(error);
                assert(may_start_with::<T, W>(*opts, now, handed_over, Err(error)));
                Err(error)
            },
        }
    }

    /// Hands one event to the writer and returns the size of the buffer after
    /// that. An event that the writer refuses is not counted.
    pub fn write(&mut self, data: T) -> (size: Result<usize, BatchCollectorError<W::Error>>)
        requires
            old(self).wf(),
            old(self)@.events.len() < usize::MAX,
        ensures
            final(self).wf(),
            match size {
                Ok(n) => {
                    &&& old(self)@.writer.may_write(data, final(self)@.writer, Ok(()))
                    &&& final(self)@ == old(self)@.with_event(final(self)@.writer, data)
                    &&& call_ensures(Batch::<T, W>::size_bytes, (&*final(self),), n)
                    &&& may_measure(final(self)@, n)
                },
                Err(BatchCollectorError::Writer(error)) => {
                    &&& old(self)@.writer.may_write(data, final(self)@.writer, Err(error))
                    &&& final(self)@ == old(self)@.with_writer(final(self)@.writer)
                },
                Err(_) => false,
            },
    {
        match self.data.write(data) {
            Ok(done) => {
                assert(done == ());
                self.num_rows += 1;
                self.events = Ghost(self.events@.push(data));
                let size: usize = self.size_bytes();
                assert(call_ensures(Batch::<T, W>::size_bytes, (&*self,), size));
                Ok(size)
            },
            Err(error) => Err(BatchCollectorError::Writer(error)),
        }
    }

    pub fn flush(&mut self) -> (flushed: Result<(), BatchCollectorError<W::Error>>)
        requires
            old(self).wf(),
        ensures
            final(self).wf(),
            final(self)@ == old(self)@.with_writer(final(self)@.writer),
            match flushed {
                Ok(()) => old(self)@.writer.may_flush(final(self)@.writer, Ok(())),
                Err(BatchCollectorError::Writer(error)) => old(self)@.writer.may_flush(
                    final(self)@.writer,
                    Err(error),
                ),
                Err(_) => false,
            },
    {
        match self.data.flush() {
            Ok(done) => {
                assert(done == ());
                Ok(done)
            },
            Err(error) => Err(BatchCollectorError::Writer(error)),
        }
    }

    /// The number of events that the writer took.
    pub fn num_rows(&self) -> (rows: usize)
        requires
            self.wf(),
        ensures
            rows == self@.events.len(),
    {
        self.num_rows
    }

    /// The size of the buffer that the writer fills, which the counter tells
    /// although the buffer belongs to the writer.
    pub fn size_bytes(&self) -> (size: usize)
        ensures
            super::buffer::may_count(self@.counter, size),
    {
        self.size_bytes.read()
    }

    pub fn has_expiration(&self) -> (set: bool)
        ensures
            set == self@.has_expiration,
    {
        self.has_expiration
    }

    pub fn set_expiration(&mut self, expiration: Instant)
        ensures
            final(self)@ == old(self)@.expiring(expiration),
            old(self).wf() ==> final(self).wf(),
    {
        self.has_expiration = true;
        self.expiration = expiration;
    }

    /// When the batch expires: the time that was set, or when it was started
    /// if none was set.
    pub fn expiration(&self) -> (expiration: Instant)
        ensures
            expiration == self@.expiration,
    {
        self.expiration
    }

    /// Gives away the encoded events.
    pub fn into_buffer(self) -> (data: Result<Vec<u8>, BatchCollectorError<W::Error>>)
        ensures
            match data {
                Ok(bytes) => self@.writer.may_finish(Ok(bytes)),
                Err(BatchCollectorError::Writer(error)) => self@.writer.may_finish(Err(error)),
                Err(_) => false,
            },
    {
        match self.data.into_buffer() {
            Ok(bytes) => Ok(bytes),
            Err(error) => Err(BatchCollectorError::Writer(error)),
        }
    }
}

} // verus!
