//! Bounded channels and the fixed-capacity circular buffer they are built
//! from.
//!
//! A channel is a triple of circular buffers: the data buffer proper, a queue
//! of parked senders (id and the value each is waiting to hand over) and a
//! queue of parked receivers.  The channel invariants relating the three are
//! stated here; the rendezvous protocol that maintains them lives in the
//! runtime module.

use vstd::prelude::*;

use crate::thread::Id;

verus! {

/// Capacity of the pending-sender and pending-receiver queues of a channel.
pub const BLOCK_QUEUE_SIZE: usize = 10;

/// Fixed-capacity FIFO of typed elements, allocated once.
///
/// The slots live in `inner`; `read` and `write` chase each other around it,
/// and `full` tells the two apart when they coincide.  A buffer of capacity 0
/// is permanently full: every write and every read fails.
pub struct CircularBuffer<T> {
    /// The slot array, always exactly `size` long.  A slot holds `Some`
    /// exactly while a queued element sits in it.
    pub inner: Vec<Option<T>>,
    /// Index of the slot the next write goes to.
    pub write: usize,
    /// Index of the slot the next read comes from.
    pub read: usize,
    /// Capacity of the buffer, fixed at construction.
    pub size: usize,
    /// True when every slot is occupied (and from construction on when the
    /// capacity is 0).
    pub full: bool,
}

impl<T> CircularBuffer<T> {
    /// Number of elements currently queued.
    pub open spec fn spec_len(self) -> int {
        if self.full {
            self.size as int
        } else if self.write >= self.read {
            self.write - self.read
        } else {
            self.size - self.read + self.write
        }
    }

    /// Slot index holding the `k`-th queued element (the oldest is `k == 0`).
    pub open spec fn slot(self, k: int) -> int {
        if self.read + k < self.size {
            self.read + k
        } else {
            self.read + k - self.size
        }
    }

    /// How many steps slot `i` lies ahead of the read index, going around
    /// the buffer.
    pub open spec fn dist_from_read(self, i: int) -> int {
        if i >= self.read {
            i - self.read
        } else {
            self.size - self.read + i
        }
    }

    /// Whether slot `i` currently holds a queued element.
    pub open spec fn occupied(self, i: int) -> bool {
        self.dist_from_read(i) < self.spec_len()
    }

    /// Structural invariant: indices in range, the full flag consistent with
    /// them, and exactly the live window of slots occupied.
    pub open spec fn wf(self) -> bool {
        &&& self.inner@.len() == self.size
        &&& (self.size == 0 ==> self.read == 0 && self.write == 0 && self.full)
        &&& (self.size > 0 ==> self.read < self.size && self.write < self.size)
        &&& (self.full ==> self.write == self.read)
        &&& (forall|i: int|
            0 <= i < self.size ==> (self.inner@[i] is Some <==> self.occupied(i)))
    }

    /// The `k`-th queued element is at slot `slot(k)`, and that slot is `k`
    /// steps ahead of the read index.
    proof fn lemma_slot_dist(self, k: int)
        requires
            self.wf(),
            0 <= k < self.size,
        ensures
            0 <= self.slot(k) < self.size,
            self.dist_from_read(self.slot(k)) == k,
    {
    }

    /// Every slot is reached from the read index after exactly
    /// `dist_from_read` steps.
    proof fn lemma_dist_slot(self, i: int)
        requires
            self.wf(),
            self.size > 0,
            0 <= i < self.size,
        ensures
            0 <= self.dist_from_read(i) < self.size,
            self.slot(self.dist_from_read(i)) == i,
    {
    }

    /// Distinct positions in the live window sit in distinct slots.
    proof fn lemma_slot_injective(self, j: int, k: int)
        requires
            self.wf(),
            0 <= j < self.size,
            0 <= k < self.size,
            j != k,
        ensures
            self.slot(j) != self.slot(k),
    {
    }
}

impl<T> View for CircularBuffer<T> {
    type V = Seq<T>;

    /// The queued elements, oldest first.
    open spec fn view(&self) -> Seq<T> {
        Seq::new(self.spec_len() as nat, |k: int| self.inner@[self.slot(k)]->0)
    }
}

impl<T> CircularBuffer<T> {
    /// Creates an empty buffer of capacity `size`.  A capacity-0 buffer is
    /// born full.
    pub fn new(size: usize) -> (b: Self)
        ensures
            b.wf(),
            b@ == Seq::<T>::empty(),
            b.size == size,
    {
        let mut inner: Vec<Option<T>> = Vec::new();
        while inner.len() < size
            invariant
                inner@.len() <= size,
                forall|i: int| 0 <= i < inner@.len() ==> inner@[i] is None,
            decreases size - inner.len(),
        {
            inner.push(None);
        }
        let b = CircularBuffer { inner, write: 0, read: 0, size, full: size == 0 };
        proof {
            assert(b@ =~= Seq::<T>::empty());
        }
        b
    }

    /// Number of elements currently queued: the whole capacity when full,
    /// otherwise the gap from the read index up to the write index.
    pub fn len(&self) -> (n: usize)
        requires
            self.wf(),
        ensures
            n == self@.len(),
    {
        if self.full {
            return self.size;
        }

        if self.write >= self.read {
            self.write - self.read
        } else {
            self.size - self.read + self.write
        }
    }

    /// Whether the buffer holds no element.
    pub fn is_empty(&self) -> (e: bool)
        requires
            self.wf(),
        ensures
            e == (self@.len() == 0),
    {
        self.len() == 0
    }

    /// Whether the buffer can take no further element.
    pub fn is_full(&self) -> (f: bool)
        requires
            self.wf(),
        ensures
            f == self.full,
            f == (self@.len() == self.size),
    {
        self.full
    }

    /// Advances the write index past a just-filled slot, wrapping at the end
    /// of the buffer, and records whether the buffer is now full.
    pub fn inc_write(&mut self)
        requires
            old(self).size > 0,
            old(self).write < old(self).size,
        ensures
            final(self).write == if old(self).write + 1 == old(self).size {
                0int
            } else {
                old(self).write + 1
            },
            final(self).full == (final(self).write == final(self).read),
            final(self).read == old(self).read,
            final(self).size == old(self).size,
            final(self).inner == old(self).inner,
    {
        let ghost w = old(self).write as int;
        let ghost n = old(self).size as int;
        proof {
            if w + 1 == n {
                vstd::arithmetic::div_mod::lemma_mod_self_0(n);
            } else {
                vstd::arithmetic::div_mod::lemma_small_mod((w + 1) as nat, n as nat);
            }
        }
        self.write = (self.write + 1) % self.size;
        self.full = self.write == self.read;
    }

    /// Advances the read index past a just-emptied slot, wrapping at the end
    /// of the buffer; the buffer can no longer be full.
    pub fn inc_read(&mut self)
        requires
            old(self).size > 0,
            old(self).read < old(self).size,
        ensures
            final(self).read == if old(self).read + 1 == old(self).size {
                0int
            } else {
                old(self).read + 1
            },
            !final(self).full,
            final(self).write == old(self).write,
            final(self).size == old(self).size,
            final(self).inner == old(self).inner,
    {
        let ghost r = old(self).read as int;
        let ghost n = old(self).size as int;
        proof {
            if r + 1 == n {
                vstd::arithmetic::div_mod::lemma_mod_self_0(n);
            } else {
                vstd::arithmetic::div_mod::lemma_small_mod((r + 1) as nat, n as nat);
            }
        }
        self.read = (self.read + 1) % self.size;
        if self.full {
            self.full = false;
        }
    }

    /// Takes the oldest element out of the buffer, or fails if the buffer is
    /// empty.
    pub fn read(&mut self) -> (r: Result<T, ()>)
        requires
            old(self).wf(),
        ensures
            final(self).wf(),
            final(self).size == old(self).size,
            old(self)@.len() == 0 ==> r is Err && *final(self) == *old(self),
            old(self)@.len() > 0 ==> r == Ok::<T, ()>(old(self)@[0]) && final(self)@ == old(
                self,
            )@.subrange(1, old(self)@.len() as int),
    {
        if self.is_empty() {
            return Err(());
        }

        let ghost pre = *self;
        proof {
            pre.lemma_slot_dist(0);
            assert(pre.slot(0) == pre.read);
            assert(pre.occupied(pre.read as int));
        }
        let mut taken: Option<T> = None;
        core::mem::swap(&mut taken, &mut self.inner[self.read]);
        self.inc_read();

        proof {
            let post = *self;
            assert(pre.spec_len() <= pre.size);
            assert(post.spec_len() == pre.spec_len() - 1);
            assert forall|i: int| 0 <= i < post.size implies (post.inner@[i] is Some
                <==> post.occupied(i)) by {
                assert(pre.inner@[i] is Some <==> pre.occupied(i));
                if i == pre.read {
                    assert(post.inner@[i] is None);
                    assert(post.dist_from_read(i) == post.size - 1);
                } else {
                    assert(post.inner@[i] == pre.inner@[i]);
                    assert(post.dist_from_read(i) == pre.dist_from_read(i) - 1);
                    assert(pre.dist_from_read(i) != 0);
                }
            }
            assert(post.wf());
            assert forall|k: int| 0 <= k < post.spec_len() implies post@[k] == pre@[k + 1] by {
                assert(post.slot(k) == pre.slot(k + 1));
                pre.lemma_slot_dist(k + 1);
            }
            assert(post@ =~= pre@.subrange(1, pre@.len() as int));
        }
        Ok(taken.unwrap())
    }

    /// Appends an element at the write index, or fails and hands the element
    /// back unchanged if the buffer is full.
    pub fn write(&mut self, val: T) -> (r: Result<(), T>)
        requires
            old(self).wf(),
        ensures
            final(self).wf(),
            final(self).size == old(self).size,
            old(self)@.len() == old(self).size ==> r == Err::<(), T>(val) && *final(self) == *old(
                self,
            ),
            old(self)@.len() < old(self).size ==> r == Ok::<(), T>(()) && final(self)@ == old(
                self,
            )@.push(val),
    {
        if self.is_full() {
            return Err(val);
        }

        let ghost pre = *self;
        proof {
            pre.lemma_slot_dist(pre.spec_len());
            assert(pre.slot(pre.spec_len()) == pre.write);
            assert(!pre.occupied(pre.write as int));
        }
        self.inner[self.write] = Some(val);
        self.inc_write();

        proof {
            let post = *self;
            assert(post.spec_len() == pre.spec_len() + 1);
            assert forall|i: int| 0 <= i < post.size implies (post.inner@[i] is Some
                <==> post.occupied(i)) by {
                assert(pre.inner@[i] is Some <==> pre.occupied(i));
                assert(post.dist_from_read(i) == pre.dist_from_read(i));
                if i != pre.write {
                    assert(post.inner@[i] == pre.inner@[i]);
                    pre.lemma_dist_slot(i);
                    assert(pre.dist_from_read(i) != pre.spec_len());
                } else {
                    assert(pre.dist_from_read(i) == pre.spec_len());
                }
            }
            assert(post.wf());
            assert forall|k: int| 0 <= k < post.spec_len() implies post@[k] == pre@.push(val)[k] by {
                assert(post.slot(k) == pre.slot(k));
                if k < pre.spec_len() {
                    pre.lemma_slot_dist(k);
                    pre.lemma_slot_injective(k, pre.spec_len());
                    assert(post.inner@[post.slot(k)] == pre.inner@[pre.slot(k)]);
                } else {
                    assert(post.inner@[post.slot(k)] == Some(val));
                }
            }
            assert(post@ =~= pre@.push(val));
        }
        Ok(())
    }
}

/// A bounded channel for values of type `V`: the data buffer proper plus the
/// queues of parked senders and parked receivers.
pub struct Channel<V> {
    /// Values sent but not yet received, oldest first.
    pub buffer: CircularBuffer<V>,
    /// Senders parked on a full buffer, each with the value it is waiting to
    /// hand over.
    pub sendq: CircularBuffer<(Id, V)>,
    /// Receivers parked on an empty buffer.
    pub recvq: CircularBuffer<Id>,
}

impl<V> Channel<V> {
    /// Structural invariant: the three buffers are well formed and the two
    /// parking queues have their fixed capacity.
    pub open spec fn wf(self) -> bool {
        &&& self.buffer.wf()
        &&& self.sendq.wf()
        &&& self.recvq.wf()
        &&& self.sendq.size == BLOCK_QUEUE_SIZE
        &&& self.recvq.size == BLOCK_QUEUE_SIZE
    }

    /// The channel invariants proper, holding between any two operations:
    /// a parked sender means the buffer is full, a parked receiver means it
    /// is empty, and never both kinds at once.
    pub open spec fn inv(self) -> bool {
        &&& self.sendq@.len() > 0 ==> self.buffer@.len() == self.buffer.size
        &&& self.recvq@.len() > 0 ==> self.buffer@.len() == 0
        &&& !(self.sendq@.len() > 0 && self.recvq@.len() > 0)
    }

    /// Creates a channel whose data buffer has capacity `size` (0 makes
    /// every exchange a rendezvous) and whose parking queues are empty.
    pub fn new(size: usize) -> (c: Self)
        ensures
            c.wf(),
            c.inv(),
            c.buffer.size == size,
            c.buffer@ == Seq::<V>::empty(),
            c.sendq@ == Seq::<(Id, V)>::empty(),
            c.recvq@ == Seq::<Id>::empty(),
    {
        let buffer = CircularBuffer::<V>::new(size);
        let sendq = CircularBuffer::<(Id, V)>::new(BLOCK_QUEUE_SIZE);
        let recvq = CircularBuffer::<Id>::new(BLOCK_QUEUE_SIZE);

        Channel { buffer, sendq, recvq }
    }
}

/// **Round trip**: a value sent on an idle channel with buffer room goes
/// into the buffer, and a receive with no other sender or receiver in
/// between takes it back out unchanged.
pub proof fn lemma_channel_round_trip<V>(c0: Channel<V>, c1: Channel<V>, v: V, r: V)
    requires
        c0.wf(),
        c0.inv(),
        c0.buffer@.len() == 0,
        c0.sendq@.len() == 0,
        c0.recvq@.len() == 0,
        // what a buffered send of `v` leaves behind
        c1.buffer@ == c0.buffer@.push(v),
        c1.sendq@ == c0.sendq@,
        c1.recvq@ == c0.recvq@,
        // what the receive that follows returns, by its own contract
        r == c1.buffer@[0],
    ensures
        r == v,
{
}

/// **Buffered FIFO order**: when values `vs` sit in a channel's buffer and
/// receivers drain it, the buffer after `k` receives holds the suffix of
/// `vs` from position `k` — so the next receive returns `vs[k]` and leaves
/// the suffix from `k + 1`: the receivers observe `vs` in sending order.
pub proof fn lemma_buffered_fifo<V>(vs: Seq<V>, k: int)
    requires
        0 <= k < vs.len(),
    ensures
        vs.subrange(k, vs.len() as int)[0] == vs[k],
        vs.subrange(k, vs.len() as int).subrange(
            1,
            vs.subrange(k, vs.len() as int).len() as int,
        ) == vs.subrange(k + 1, vs.len() as int),
        // the sending side builds the same sequence value by value
        vs.subrange(0, k).push(vs[k]) == vs.subrange(0, k + 1),
{
    assert(vs.subrange(k, vs.len() as int).subrange(1, vs.subrange(k, vs.len() as int).len() as int)
        =~= vs.subrange(k + 1, vs.len() as int));
    assert(vs.subrange(0, k).push(vs[k]) =~= vs.subrange(0, k + 1));
}

} // verus!
