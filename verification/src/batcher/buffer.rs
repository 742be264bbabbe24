//! The byte buffer that a batch is written into.

use std::sync::atomic::{AtomicUsize, Ordering};
use std::sync::Arc;
use vstd::prelude::*;

verus! {

/// The error type of `std::io`. It is only passed along.
#[verifier::external_type_specification]
#[verifier::external_body]
pub struct ExIoError(std::io::Error);

/// Whether `counter` was made to start at zero.
pub open spec fn starts_at_zero(counter: AtomicUsize) -> bool {
    call_ensures(AtomicUsize::new, (0usize,), counter)
}

/// Whether `amount` has been added to `counter`. How often it was added, and
/// what the counter told then, is not stated.
pub open spec fn was_increased(counter: AtomicUsize, amount: usize) -> bool {
    exists|previous: usize|
        #[trigger] call_ensures(
            AtomicUsize::fetch_add,
            (&counter, amount, Ordering::Relaxed),
            previous,
        )
}

/// Whether `counter` was set to tell `amount`.
pub open spec fn was_set(counter: AtomicUsize, amount: usize) -> bool {
    call_ensures(AtomicUsize::store, (&counter, amount, Ordering::Relaxed), ())
}

/// Whether `count` is what reading `counter` may give. How it relates to what
/// was added before is not stated.
pub open spec fn may_count(counter: AtomicUsize, count: usize) -> bool {
    call_ensures(AtomicUsize::load, (&counter, Ordering::Relaxed), count)
}

/// Something that a buffer did to its counter.
pub enum Counting {
    /// An amount was added while the buffer held `content`.
    Added { amount: usize, content: Seq<u8> },
    /// The counter was set to tell an amount.
    Told { amount: usize },
}

/// What a counter that starts at zero tells after all that was done to it.
pub open spec fn told_after(log: Seq<Counting>) -> int
    decreases log.len(),
{
    if log.len() == 0 {
        0
    } else {
        match log.last() {
            Counting::Added { amount, .. } => told_after(log.drop_last()) + amount,
            Counting::Told { amount } => amount as int,
        }
    }
}

/// Wrapper around the `Vec<u8>` buffer to accurately report the underlying
/// buffer size after giving away its ownership.
///
/// The size is kept in a counter that is shared with everyone who asked for
/// it. It starts at zero. Every write adds to it the number of bytes that the
/// write appended, and then sets it to the number of bytes in the buffer, so
/// that it is right whatever was done to the counter before.
pub struct Buffer {
    data: Vec<u8>,
    size_bytes: Arc<AtomicUsize>,
    log: Ghost<Seq<Counting>>,
}

impl View for Buffer {
    type V = Seq<u8>;

    /// The bytes that were written so far.
    closed spec fn view(&self) -> Seq<u8> {
        self.data@
    }
}

impl Buffer {
    /// The counter of the bytes that were written.
    pub closed spec fn counter(&self) -> AtomicUsize {
        *self.size_bytes
    }

    /// All that the buffer did to its counter, in order.
    pub closed spec fn log(&self) -> Seq<Counting> {
        self.log@
    }

    /// The counter tells the number of bytes in the buffer.
    pub open spec fn is_accurate(&self) -> bool {
        told_after(self.log()) == self@.len()
    }

    /// The memory was reserved by asking for `capacity` bytes.
    pub closed spec fn reserved(&self, capacity: usize) -> bool {
        call_ensures(Vec::<u8>::with_capacity, (capacity,), self.data)
    }

    /// Nothing has been written yet, and `capacity` bytes were asked for.
    pub open spec fn is_fresh(&self, capacity: usize) -> bool {
        &&& self@ == Seq::<u8>::empty()
        &&& self.reserved(capacity)
        &&& starts_at_zero(self.counter())
        &&& self.log() == Seq::<Counting>::empty()
        &&& self.is_accurate()
    }

    /// `amount` was added to the counter while the buffer was as it is now.
    pub open spec fn counted(&self, amount: usize) -> bool {
        &&& was_increased(self.counter(), amount)
        &&& self.log().contains(Counting::Added { amount, content: self@ })
    }

    /// The last that was done to the counter is that it was set to the number of
    /// bytes in the buffer.
    pub open spec fn is_told(&self) -> bool {
        &&& self.log().len() > 0
        &&& self.log().last() matches Counting::Told { amount }
        &&& amount == self@.len()
        &&& was_set(self.counter(), amount)
    }

    /// This is `before` after `bytes` were written to it: they follow what was
    /// there, then their number was added to the counter, which is the same, and
    /// the counter was set to how many bytes there are. Nothing else was done to
    /// the counter.
    pub open spec fn appended(&self, before: Buffer, bytes: Seq<u8>) -> bool {
        &&& self@ == before@ + bytes
        &&& self.counter() == before.counter()
        &&& self.is_told()
        &&& exists|amount: usize, total: usize|
            {
                &&& amount == bytes.len()
                &&& self.counted(amount)
                &&& #[trigger] was_increased(self.counter(), amount)
                &&& total == self@.len()
                &&& #[trigger] was_set(self.counter(), total)
                &&& self.log() == before.log().push(
                    Counting::Added { amount, content: self@ },
                ).push(Counting::Told { amount: total })
            }
    }

    pub fn new(capacity: usize) -> (buffer: Self)
        requires
            capacity <= isize::MAX,
        ensures
            buffer.is_fresh(capacity),
    {
        let data = Vec::with_capacity(capacity);
        let size_bytes = Arc::new(AtomicUsize::new(0));
        Self { data, size_bytes, log: Ghost(Seq::empty()) }
    }

    pub fn into_inner(self) -> (data: Vec<u8>)
        ensures
            data@ == self@,
        opens_invariants none
    {
        self.data
    }

    /// A handle to the size, which can be kept when the buffer is given away.
    pub fn size_bytes(&self) -> (size: &Arc<AtomicUsize>)
        ensures
            **size == self.counter(),
        opens_invariants none
    {
        &self.size_bytes
    }

    /// Counts `amount` bytes that were appended.
    fn count(&mut self, amount: usize)
        ensures
            was_increased(final(self).counter(), amount),
            final(self)@ == old(self)@,
            final(self).counter() == old(self).counter(),
            final(self).log() == old(self).log().push(
                Counting::Added { amount, content: old(self)@ },
            ),
    {
        let _previous: usize = self.size_bytes.fetch_add(amount, Ordering::Relaxed);
        self.log = Ghost(self.log@.push(Counting::Added { amount, content: self.data@ }));
    }

    /// Sets the counter to the number of bytes in the buffer.
    fn tell(&mut self)
        ensures
            final(self)@ == old(self)@,
            final(self).counter() == old(self).counter(),
            exists|amount: usize|
                {
                    &&& amount == old(self)@.len()
                    &&& #[trigger] was_set(final(self).counter(), amount)
                    &&& final(self).log() == old(self).log().push(Counting::Told { amount })
                },
    {
        let amount: usize = self.data.len();
        self.size_bytes.store(amount, Ordering::Relaxed);
        self.log = Ghost(self.log@.push(Counting::Told { amount }));
        assert(was_set(self.counter(), amount));
    }

    /// A handle to the size that can be read but not changed.
    pub fn handle(&self) -> (handle: SizeHandle)
        ensures
            handle.counter() == self.counter(),
    {
        SizeHandle { counter: self.size_bytes.clone() }
    }
}

/// A handle to the size of a buffer. It stays with the buffer when that is given
/// away, and all it can do is to read the size.
pub struct SizeHandle {
    counter: Arc<AtomicUsize>,
}

impl SizeHandle {
    /// The counter of the bytes in the buffer.
    pub closed spec fn counter(&self) -> AtomicUsize {
        *self.counter
    }

    /// How many bytes there are in the buffer.
    pub fn read(&self) -> (size: usize)
        ensures
            may_count(self.counter(), size),
    {
        self.counter.load(Ordering::Relaxed)
    }
}

impl std::io::Write for Buffer {
    /// Appends all of `buf`.
    fn write(&mut self, buf: &[u8]) -> (written: std::io::Result<usize>)
        ensures
            written matches Ok(len) && len == buf@.len(),
            final(self).appended(*old(self), buf@),
    {
        self.data.extend_from_slice(buf);
        let len: usize = buf.len();
        self.count(len);
        self.tell();
        proof {
            let added = Counting::Added { amount: len, content: self@ };
            assert(self@ == old(self)@ + buf@);
            assert(self.log()[old(self).log().len() as int] == added);
            assert(was_increased(self.counter(), len));
        }
        Ok(len)
    }

    /// There is nothing to flush: written bytes are in the buffer at once.
    fn flush(&mut self) -> (flushed: std::io::Result<()>)
        ensures
            flushed == Ok::<(), std::io::Error>(()),
            *final(self) == *old(self),
    {
        Ok(())
    }
}

/// After any sequence of writes to a fresh buffer, its counter tells exactly the
/// number of bytes in it, which are those of all the writes: nothing is counted
/// twice, and nothing else is counted.
pub proof fn law_counter_tells_the_length(
    buffers: Seq<Buffer>,
    writes: Seq<Seq<u8>>,
    capacity: usize,
)
    requires
        buffers.len() == writes.len() + 1,
        buffers[0].is_fresh(capacity),
        forall|i: int| #![trigger writes[i]]
            0 <= i < writes.len() ==> buffers[i + 1].appended(buffers[i], writes[i]),
    ensures
        buffers.last().is_accurate(),
        told_after(buffers.last().log()) == writes.flatten().len(),
        buffers.last().log().len() == 2 * writes.len(),
    decreases writes.len(),
{
    law_size_handle_outlives_ownership(buffers, writes, Arc::new(buffers[0].counter()));
    if writes.len() > 0 {
        let n = writes.len() - 1;
        let earlier = writes.drop_last();
        assert forall|i: int| #![trigger earlier[i]] 0 <= i < earlier.len() implies buffers.drop_last()[i
            + 1].appended(buffers.drop_last()[i], earlier[i]) by {
            assert(earlier[i] == writes[i]);
        }
        law_counter_tells_the_length(buffers.drop_last(), earlier, capacity);
        assert(buffers[n + 1].appended(buffers[n], writes[n]));
    }
}

/// A write raises what the counter tells by the length of what it appended, and
/// by no more, if the counter was right before.
pub proof fn law_write_is_counted_once(before: Buffer, bytes: Seq<u8>, after: Buffer)
    requires
        before.is_accurate(),
        after.appended(before, bytes),
    ensures
        after.is_accurate(),
        told_after(after.log()) == told_after(before.log()) + bytes.len(),
        told_after(after.log().drop_last()) == told_after(before.log()) + bytes.len(),
{
    let log = after.log().drop_last();
    assert(log.drop_last() == before.log());
}

/// Whoever writes to a buffer, and however often: a handle to its size that was
/// taken at the start is a handle to the counter of what the buffer has become,
/// and to that counter the length of each write was added. In the end it was set
/// to the number of bytes in the buffer, which is the number of bytes that were
/// in it at the start and in all writes since.
pub proof fn law_size_handle_outlives_ownership(
    buffers: Seq<Buffer>,
    writes: Seq<Seq<u8>>,
    handle: Arc<AtomicUsize>,
)
    requires
        buffers.len() == writes.len() + 1,
        *handle == buffers[0].counter(),
        forall|i: int| #![trigger writes[i]]
            0 <= i < writes.len() ==> buffers[i + 1].appended(buffers[i], writes[i]),
    ensures
        *handle == buffers.last().counter(),
        buffers.last()@ == buffers[0]@ + writes.flatten(),
        forall|i: int| #![trigger writes[i]]
            0 <= i < writes.len() ==> exists|amount: usize|
                amount == writes[i].len() && #[trigger] was_increased(*handle, amount),
        writes.len() > 0 ==> exists|total: usize|
            total == buffers[0]@.len() + writes.flatten().len() && #[trigger] was_set(
                *handle,
                total,
            ),
    decreases writes.len(),
{
    if writes.len() == 0 {
        assert(writes.flatten() == Seq::<u8>::empty());
        assert(buffers.last()@ == buffers[0]@ + writes.flatten());
    } else {
        let n = writes.len() - 1;
        let earlier = writes.drop_last();
        assert forall|i: int| #![trigger earlier[i]] 0 <= i < earlier.len() implies buffers.drop_last()[i
            + 1].appended(buffers.drop_last()[i], earlier[i]) by {
            assert(earlier[i] == writes[i]);
        }
        law_size_handle_outlives_ownership(buffers.drop_last(), earlier, handle);
        assert(buffers[n + 1].appended(buffers[n], writes[n]));
        assert(writes == earlier.push(writes[n]));
        earlier.lemma_flatten_push(writes[n]);
        assert(buffers.last()@ == buffers[0]@ + writes.flatten());
        assert forall|i: int| #![trigger writes[i]] 0 <= i < writes.len() implies exists|amount: usize|
            amount == writes[i].len() && #[trigger] was_increased(*handle, amount) by {
            if i < n {
                assert(earlier[i] == writes[i]);
            }
        }
    }
}

} // verus!
