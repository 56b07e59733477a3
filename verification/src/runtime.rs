//! The scheduler: the task set, round-robin selection, the yield and
//! completion steps, and the channel rendezvous protocol.
//!
//! Every scheduling decision is computed here over plain data.  The one thing
//! that cannot be: the actual register save/restore that transfers control
//! between stacks.  A step that asks for a transfer therefore returns the two
//! positions involved, and the embedder performs the switch between the
//! corresponding saved contexts.

use vstd::prelude::*;

use crate::channel::{Channel, BLOCK_QUEUE_SIZE};
use crate::thread::{Context, Id, State, Thread, BASE_THREAD_ID, DEFAULT_STACK_SIZE};

verus! {

/// Position reached after `k` steps of a circular walk that starts at
/// `start` over `len` positions.
pub open spec fn rr_index(len: int, start: int, k: int) -> int {
    if start + k < len {
        start + k
    } else {
        start + k - len
    }
}

/// The position of the first thread in `Ready` state met on a circular walk
/// of `ts` that starts at position `start` and has already taken `k` steps;
/// `None` when a full circle finds none.
pub open spec fn first_ready<V>(ts: Seq<Thread<V>>, start: int, k: int) -> Option<int>
    decreases ts.len() - k,
{
    if k < 0 || k >= ts.len() {
        None
    } else if ts[rr_index(ts.len() as int, start, k)].state is Ready {
        Some(rr_index(ts.len() as int, start, k))
    } else {
        first_ready(ts, start, k + 1)
    }
}

/// When the circular walk from step `k` on finds no `Ready` thread, none of
/// the positions it visits holds one.
proof fn lemma_first_ready_none<V>(ts: Seq<Thread<V>>, start: int, k: int)
    requires
        0 <= k,
        first_ready(ts, start, k) is None,
    ensures
        forall|j: int| k <= j < ts.len() ==> !(ts[rr_index(ts.len() as int, start, j)].state is Ready),
    decreases ts.len() - k,
{
    if k < ts.len() {
        lemma_first_ready_none(ts, start, k + 1);
    }
}

/// A circular walk visits every position: position `i` is reached from
/// `start` after `i - start` steps, modulo the length.
proof fn lemma_rr_covers(len: int, start: int, i: int)
    requires
        0 <= start < len,
        0 <= i < len,
    ensures
        ({
            let j = if i >= start {
                i - start
            } else {
                len - start + i
            };
            0 <= j < len && rr_index(len, start, j) == i
        }),
{
}

/// Represents a runtime hosting cooperative tasks whose mailboxes carry
/// values of type `V`.
pub struct Runtime<V> {
    /// All active threads, i.e. those which haven't completed.  Can store
    /// threads that are not currently running, but are waiting to be chosen
    /// by the runtime or for some other event to occur.
    pub threads: Vec<Thread<V>>,
    /// Id of the thread that is currently running.
    pub current: Id,
    /// Total number of threads created up until a certain point; used to
    /// generate unique ids for threads spawned by the runtime.
    pub count: usize,
}

impl<V> Runtime<V> {
    /// No two live threads share an id: positions with equal ids coincide.
    pub open spec fn ids_unique(self) -> bool {
        forall|i: int, j: int|
            #![trigger self.threads@[i].id, self.threads@[j].id]
            0 <= i < self.threads@.len() && 0 <= j < self.threads@.len()
                && self.threads@[i].id == self.threads@[j].id ==> i == j
    }

    /// Every live id was drawn from the counter, so the counter's next value
    /// is fresh.
    pub open spec fn ids_below_count(self) -> bool {
        forall|i: int| 0 <= i < self.threads@.len() ==> self.threads@[i].id.0 < self.count
    }

    /// Some live thread carries id `id`.
    pub open spec fn has_thread(self, id: Id) -> bool {
        exists|i: int| 0 <= i < self.threads@.len() && self.threads@[i].id == id
    }

    /// The position of the live thread carrying id `id`.
    pub open spec fn spec_pos(self, id: Id) -> int {
        choose|i: int| 0 <= i < self.threads@.len() && self.threads@[i].id == id
    }

    /// The thread currently holding control.
    pub open spec fn current_thread(self) -> Thread<V> {
        self.threads@[self.spec_pos(self.current)]
    }

    /// No thread other than the current one is in `Running` state.
    pub open spec fn only_current_runs(self) -> bool {
        forall|i: int|
            0 <= i < self.threads@.len() ==> (self.threads@[i].state is Running
                ==> self.threads@[i].id == self.current)
    }

    /// The current thread is in `Running` state.
    pub open spec fn current_runs(self) -> bool {
        forall|i: int|
            0 <= i < self.threads@.len() ==> (self.threads@[i].id == self.current
                ==> self.threads@[i].state is Running)
    }

    /// The current thread holds control: it is either `Running`, or it has
    /// just parked itself on a channel and is about to yield.
    pub open spec fn current_holds_control(self) -> bool {
        forall|i: int|
            0 <= i < self.threads@.len() ==> (self.threads@[i].id == self.current
                ==> !(self.threads@[i].state is Ready))
    }

    /// Well-formedness at a quiescent point: unique ids below the counter,
    /// and exactly one `Running` thread, which is the current one.
    pub open spec fn wf(self) -> bool {
        &&& self.ids_unique()
        &&& self.ids_below_count()
        &&& self.has_thread(self.current)
        &&& self.only_current_runs()
        &&& self.current_runs()
    }

    /// Well-formedness between a channel operation that parked the current
    /// thread and the yield that follows it: as `wf`, except that the
    /// current thread may be in a blocked state instead of `Running`.
    pub open spec fn wf_parked(self) -> bool {
        &&& self.ids_unique()
        &&& self.ids_below_count()
        &&& self.has_thread(self.current)
        &&& self.only_current_runs()
        &&& self.current_holds_control()
    }

    /// `spec_pos` really is the position of the thread with the given id.
    pub proof fn lemma_spec_pos(self, id: Id)
        requires
            self.has_thread(id),
        ensures
            0 <= self.spec_pos(id) < self.threads@.len(),
            self.threads@[self.spec_pos(id)].id == id,
    {
    }

    /// Creates a runtime whose only thread is the running bootstrap thread.
    pub fn new() -> (rt: Self)
        ensures
            rt.wf(),
            rt.threads@.len() == 1,
            rt.threads@[0].id == Id(BASE_THREAD_ID),
            rt.threads@[0].state is Running,
            rt.threads@[0].chan_val is None,
            rt.current == Id(BASE_THREAD_ID),
            rt.count == 1,
    {
        let base_thread = Thread::new(Id(BASE_THREAD_ID), State::Running);

        let mut threads: Vec<Thread<V>> = Vec::new();
        threads.push(base_thread);

        Runtime { threads, current: Id(BASE_THREAD_ID), count: 1 }
    }

    /// The position of the current thread in the thread list.  Needed
    /// because completed threads are removed from the list, so a position
    /// can differ from the thread's id.
    pub fn cur_pos(&self) -> (p: usize)
        requires
            self.ids_unique(),
            self.has_thread(self.current),
        ensures
            p < self.threads@.len(),
            self.threads@[p as int].id == self.current,
            p as int == self.spec_pos(self.current),
    {
        self.get_pos(self.current)
    }

    /// The position of the thread with id `id` in the thread list.
    pub fn get_pos(&self, id: Id) -> (p: usize)
        requires
            self.ids_unique(),
            self.has_thread(id),
        ensures
            p < self.threads@.len(),
            self.threads@[p as int].id == id,
            p as int == self.spec_pos(id),
    {
        let mut i: usize = 0;
        while i < self.threads.len()
            invariant
                i <= self.threads@.len(),
                self.ids_unique(),
                self.has_thread(id),
                forall|j: int| 0 <= j < i ==> self.threads@[j].id != id,
            decreases self.threads@.len() - i,
        {
            if self.threads[i].id == id {
                proof {
                    self.lemma_spec_pos(id);
                    let s = self.spec_pos(id);
                    assert(self.threads@[s].id == self.threads@[i as int].id);
                    assert(s == i as int);
                }
                return i;
            }
            i += 1;
        }
        proof {
            let w = choose|j: int|
                0 <= j < self.threads@.len() && self.threads@[j].id == id;
            assert(self.threads@[w].id != id);
        }
        vstd::pervasive::unreached()
    }

    /// Chooses the next thread to run: the first `Ready` thread met on a
    /// circular scan of the thread list starting at `start_pos`, or nothing
    /// when a full circle finds none.
    pub fn round_robin(&self, start_pos: usize) -> (r: Option<usize>)
        requires
            start_pos < self.threads@.len(),
        ensures
            match r {
                Some(p) => {
                    &&& first_ready(self.threads@, start_pos as int, 0) == Some(p as int)
                    &&& p < self.threads@.len()
                    &&& self.threads@[p as int].state is Ready
                },
                None => {
                    &&& first_ready(self.threads@, start_pos as int, 0) is None
                    &&& forall|i: int|
                        0 <= i < self.threads@.len() ==> !(self.threads@[i].state is Ready)
                },
            },
    {
        let n = self.threads.len();
        let mut next_pos = start_pos;
        let ghost mut k: int = 0;
        loop
            invariant
                n == self.threads@.len(),
                start_pos < n,
                0 <= k < n,
                next_pos < n,
                next_pos as int == rr_index(n as int, start_pos as int, k),
                first_ready(self.threads@, start_pos as int, 0) == first_ready(
                    self.threads@,
                    start_pos as int,
                    k,
                ),
                forall|j: int|
                    0 <= j < k ==> !(self.threads@[rr_index(n as int, start_pos as int, j)].state
                        is Ready),
            decreases n - k,
        {
            if self.threads[next_pos].state == State::Ready {
                return Some(next_pos);
            }
            next_pos += 1;
            if next_pos == n {
                next_pos = 0;
            }
            proof {
                k = k + 1;
            }
            if next_pos == start_pos {
                proof {
                    assert(k == n);
                    assert(first_ready(self.threads@, start_pos as int, k) is None);
                    lemma_first_ready_none(self.threads@, start_pos as int, 0);
                    assert forall|i: int| 0 <= i < n implies !(self.threads@[i].state is Ready) by {
                        lemma_rr_covers(n as int, start_pos as int, i);
                        let j = if i >= start_pos as int {
                            i - start_pos
                        } else {
                            n - start_pos + i
                        };
                        assert(!(self.threads@[rr_index(n as int, start_pos as int, j)].state
                            is Ready));
                    }
                }
                return None;
            }
        }
    }

    /// Sets the state of the thread with id `id`, leaving everything else
    /// untouched.
    pub fn change_thread_state(&mut self, id: Id, state: State)
        requires
            old(self).ids_unique(),
            old(self).has_thread(id),
        ensures
            ({
                let p = old(self).spec_pos(id);
                final(self).threads@ == old(self).threads@.update(
                    p,
                    (Thread { state, ..old(self).threads@[p] }),
                )
            }),
            final(self).current == old(self).current,
            final(self).count == old(self).count,
    {
        let index = self.get_pos(id);
        let thread = &mut self.threads[index];
        thread.state = state;
    }

    /// Places `val` in the mailbox of the thread with id `id`: the direct
    /// hand-off a sender performs for a parked receiver.  The mailbox must be
    /// free and a thread never hands a value to itself.
    pub fn add_val_to_chan(&mut self, id: Id, val: V)
        requires
            old(self).ids_unique(),
            old(self).has_thread(id),
            id != old(self).current,
            old(self).threads@[old(self).spec_pos(id)].chan_val is None,
        ensures
            ({
                let p = old(self).spec_pos(id);
                final(self).threads@ == old(self).threads@.update(
                    p,
                    (Thread { chan_val: Some(val), ..old(self).threads@[p] }),
                )
            }),
            final(self).current == old(self).current,
            final(self).count == old(self).count,
    {
        let index = self.get_pos(id);
        let thread = &mut self.threads[index];
        thread.chan_val = Some(val);
    }

    /// Empties the current thread's mailbox, returning what a sender had
    /// placed there, if anything.
    pub fn get_val_from_chan(&mut self) -> (r: Option<V>)
        requires
            old(self).ids_unique(),
            old(self).has_thread(old(self).current),
        ensures
            ({
                let p = old(self).spec_pos(old(self).current);
                &&& r == old(self).threads@[p].chan_val
                &&& final(self).threads@ == old(self).threads@.update(
                    p,
                    (Thread { chan_val: None, ..old(self).threads@[p] }),
                )
            }),
            final(self).current == old(self).current,
            final(self).count == old(self).count,
    {
        let index = self.get_pos(self.current);
        let thread = &mut self.threads[index];
        thread.chan_val.take()
    }

    /// Creates a new `Ready` thread with a fresh id drawn from the counter
    /// and appends it to the thread list.  The embedder must still lay the
    /// entry frames into the new thread's stack and record its initial stack
    /// pointer before the thread is first switched to.
    pub fn create_thread(&mut self) -> (id: Id)
        requires
            old(self).wf_parked(),
            old(self).count < usize::MAX,
        ensures
            id == Id(old(self).count),
            final(self).count == old(self).count + 1,
            final(self).current == old(self).current,
            final(self).threads@.len() == old(self).threads@.len() + 1,
            forall|i: int|
                0 <= i < old(self).threads@.len() ==> final(self).threads@[i] == old(
                    self,
                ).threads@[i],
            forall|i: int| 0 <= i < old(self).threads@.len() ==> old(self).threads@[i].id != id,
            ({
                let t = final(self).threads@[old(self).threads@.len() as int];
                &&& t.id == id
                &&& t.state is Ready
                &&& t.chan_val is None
                &&& t.ctx == Context::spec_zeroed()
                &&& t.stack@.len() == DEFAULT_STACK_SIZE
            }),
            final(self).wf_parked(),
            old(self).wf() ==> final(self).wf(),
    {
        let id = Id(self.count);
        let thread = Thread::new(id, State::Ready);

        self.threads.push(thread);
        self.count = self.count + 1;

        proof {
            let pre = *old(self);
            let post = *self;
            assert forall|i: int| 0 <= i < pre.threads@.len() implies post.threads@[i] == pre.threads@[i] by {}
            assert(post.has_thread(post.current)) by {
                let c = choose|i: int|
                    0 <= i < pre.threads@.len() && pre.threads@[i].id == pre.current;
                assert(post.threads@[c].id == post.current);
            }
        }
        id
    }

    /// One scheduler step: pick the next `Ready` thread round-robin from the
    /// current one, demote the current thread to `Ready` (unless a channel
    /// operation just parked it — a blocked state is never overwritten),
    /// promote the chosen thread to `Running` and hand it control.
    ///
    /// Returns the positions of the outgoing and incoming threads, whose
    /// saved contexts the embedder must now actually switch between; or
    /// `None`, leaving everything untouched, when no other thread is ready.
    pub fn yield_thread(&mut self) -> (r: Option<(usize, usize)>)
        requires
            old(self).wf_parked(),
        ensures
            // a scheduler step never touches any thread's stack or saved
            // context: locals of one thread cannot leak into another's
            forall|i: int|
                0 <= i < old(self).threads@.len() ==> final(self).threads@[i].stack == old(
                    self,
                ).threads@[i].stack && final(self).threads@[i].ctx == old(self).threads@[i].ctx,
            match r {
                None => {
                    &&& *final(self) == *old(self)
                    &&& forall|i: int|
                        0 <= i < old(self).threads@.len() ==> !(old(self).threads@[i].state
                            is Ready)
                },
                Some((c, n)) => ({
                    let pre = *old(self);
                    let post = *final(self);
                    let cs = pre.threads@[c as int].state;
                    let demoted = if cs is Running {
                        State::Ready
                    } else {
                        cs
                    };
                    &&& (c as int) == pre.spec_pos(pre.current)
                    &&& (c as int) < pre.threads@.len()
                    &&& pre.threads@[c as int].id == pre.current
                    &&& first_ready(pre.threads@, c as int, 0) == Some(n as int)
                    &&& (n as int) < pre.threads@.len()
                    &&& c != n
                    &&& pre.threads@[n as int].state is Ready
                    &&& post.threads@ == pre.threads@.update(
                        c as int,
                        (Thread { state: demoted, ..pre.threads@[c as int] }),
                    ).update(n as int, (Thread { state: State::Running, ..pre.threads@[n as int] }))
                    &&& post.current == pre.threads@[n as int].id
                    &&& post.count == pre.count
                    &&& post.wf()
                }),
            },
    {
        let cur_pos = self.cur_pos();
        let next_opt = self.round_robin(cur_pos);
        let next_pos = match next_opt {
            Some(p) => p,
            None => {
                return None;
            },
        };
        proof {
            // the current thread holds control, so it is not `Ready` and
            // cannot be the thread round-robin picked
            assert(!(self.threads@[cur_pos as int].state is Ready));
        }

        if self.threads[cur_pos].state == State::Running {
            let outgoing = &mut self.threads[cur_pos];
            outgoing.state = State::Ready;
        }
        let incoming = &mut self.threads[next_pos];
        incoming.state = State::Running;
        self.current = self.threads[next_pos].id;

        proof {
            let pre = *old(self);
            let post = *self;
            let cs = pre.threads@[cur_pos as int].state;
            let demoted = if cs is Running {
                State::Ready
            } else {
                cs
            };
            assert(post.threads@ =~= pre.threads@.update(
                cur_pos as int,
                (Thread { state: demoted, ..pre.threads@[cur_pos as int] }),
            ).update(
                next_pos as int,
                (Thread { state: State::Running, ..pre.threads@[next_pos as int] }),
            ));
            assert(post.has_thread(post.current)) by {
                assert(post.threads@[next_pos as int].id == post.current);
            }
            assert forall|i: int, j: int|
                0 <= i < post.threads@.len() && 0 <= j < post.threads@.len()
                    && #[trigger] post.threads@[i].id == #[trigger] post.threads@[j].id implies i
                == j by {
                assert(post.threads@[i].id == pre.threads@[i].id);
                assert(post.threads@[j].id == pre.threads@[j].id);
            }
            assert forall|i: int|
                0 <= i < post.threads@.len() && post.threads@[i].state is Running implies post.threads@[i].id
                == post.current by {
                if i != cur_pos as int && i != next_pos as int {
                    assert(post.threads@[i] == pre.threads@[i]);
                    assert(pre.threads@[i].id == pre.current);
                    assert(pre.threads@[i].id == pre.threads@[cur_pos as int].id);
                }
            }
            assert forall|i: int|
                0 <= i < post.threads@.len() && post.threads@[i].id == post.current implies post.threads@[i].state
                is Running by {
                if i != next_pos as int {
                    assert(post.threads@[i].id == post.threads@[next_pos as int].id);
                }
            }
        }
        Some((cur_pos, next_pos))
    }

    /// Cleanup when a thread completes what it was asked to do: the current
    /// thread is removed from the list, a successor is chosen and promoted,
    /// and control passes to it.  The bootstrap thread never completes, so
    /// for it this is a no-op.
    ///
    /// Returns the removed thread record together with the successor's
    /// position; the embedder must switch from a detached context of the
    /// removed thread into the successor's saved context, and may release
    /// the removed thread's stack once the switch has happened.
    pub fn done(&mut self) -> (r: Option<(Thread<V>, usize)>)
        requires
            old(self).wf(),
            old(self).current != Id(BASE_THREAD_ID) ==> exists|i: int|
                0 <= i < old(self).threads@.len() && old(self).threads@[i].state is Ready,
        ensures
            old(self).current == Id(BASE_THREAD_ID) ==> r is None && *final(self) == *old(self),
            old(self).current != Id(BASE_THREAD_ID) ==> ({
                let pre = *old(self);
                let post = *final(self);
                let c = pre.spec_pos(pre.current);
                let rest = pre.threads@.remove(c);
                let start = if c == rest.len() {
                    0int
                } else {
                    c
                };
                &&& r matches Some((t, n))
                &&& t == pre.threads@[c]
                &&& t.id == pre.current
                &&& first_ready(rest, start, 0) == Some(n as int)
                &&& (n as int) < rest.len()
                &&& rest[n as int].state is Ready
                &&& post.threads@ == rest.update(
                    n as int,
                    (Thread { state: State::Running, ..rest[n as int] }),
                )
                &&& post.current == rest[n as int].id
                &&& post.count == pre.count
                &&& forall|i: int|
                    0 <= i < post.threads@.len() ==> post.threads@[i].id != pre.current
                &&& post.wf()
            }),
    {
        if self.current == Id(BASE_THREAD_ID) {
            return None;
        }

        let ghost pre = *self;
        let cur_pos = self.cur_pos();
        let cur_thread = self.threads.remove(cur_pos);

        let start_pos = if cur_pos == self.threads.len() {
            0
        } else {
            cur_pos
        };
        proof {
            // the thread list cannot have become empty: a `Ready` thread
            // existed and the removed thread was `Running`, not `Ready`
            let w = choose|i: int|
                0 <= i < pre.threads@.len() && pre.threads@[i].state is Ready;
            assert(pre.threads@[w].id != pre.current);
            assert(w != cur_pos as int);
            if w < cur_pos as int {
                assert(self.threads@[w] == pre.threads@[w]);
            } else {
                assert(self.threads@[w - 1] == pre.threads@[w]);
            }
        }
        let next_opt = self.round_robin(start_pos);
        let next_pos = match next_opt {
            Some(p) => p,
            None => {
                proof {
                    let w = choose|i: int|
                        0 <= i < pre.threads@.len() && pre.threads@[i].state is Ready;
                    if w < cur_pos as int {
                        assert(self.threads@[w].state is Ready);
                    } else {
                        assert(self.threads@[w - 1].state is Ready);
                    }
                }
                vstd::pervasive::unreached()
            },
        };

        let incoming = &mut self.threads[next_pos];
        incoming.state = State::Running;
        self.current = self.threads[next_pos].id;

        proof {
            let post = *self;
            let c = pre.spec_pos(pre.current);
            let rest = pre.threads@.remove(c);
            assert(c == cur_pos as int);
            assert(post.threads@ =~= rest.update(
                next_pos as int,
                (Thread { state: State::Running, ..rest[next_pos as int] }),
            ));
            assert forall|i: int|
                0 <= i < post.threads@.len() implies post.threads@[i].id != pre.current by {
                if i < c {
                    assert(rest[i] == pre.threads@[i]);
                } else {
                    assert(rest[i] == pre.threads@[i + 1]);
                }
            }
            assert(post.has_thread(post.current)) by {
                assert(post.threads@[next_pos as int].id == post.current);
            }
            assert forall|i: int, j: int|
                0 <= i < post.threads@.len() && 0 <= j < post.threads@.len()
                    && #[trigger] post.threads@[i].id == #[trigger] post.threads@[j].id implies i
                == j by {
                let pi = if i < c {
                    i
                } else {
                    i + 1
                };
                let pj = if j < c {
                    j
                } else {
                    j + 1
                };
                assert(post.threads@[i].id == pre.threads@[pi].id);
                assert(post.threads@[j].id == pre.threads@[pj].id);
            }
            assert forall|i: int|
                0 <= i < post.threads@.len() && post.threads@[i].state is Running implies post.threads@[i].id
                == post.current by {
                if i != next_pos as int {
                    let pi = if i < c {
                        i
                    } else {
                        i + 1
                    };
                    assert(post.threads@[i] == pre.threads@[pi]);
                    assert(pre.threads@[pi].id == pre.current);
                    assert(pre.threads@[pi].id == pre.threads@[c].id);
                }
            }
            assert forall|i: int|
                0 <= i < post.threads@.len() && post.threads@[i].id == post.current implies post.threads@[i].state
                is Running by {
                if i != next_pos as int {
                    assert(post.threads@[i].id == post.threads@[next_pos as int].id);
                }
            }
        }
        Some((cur_thread, next_pos))
    }
}

/// Ties a channel's parking queues to the runtime's thread list: every
/// parked id names a live thread in the matching blocked state, a parked
/// receiver's mailbox is free so a sender can fill it, and no thread is
/// parked twice.
pub open spec fn chan_threads_ok<V>(rt: Runtime<V>, chan: Channel<V>) -> bool {
    &&& forall|k: int| 0 <= k < chan.recvq@.len() ==> rt.has_thread(#[trigger] chan.recvq@[k])
    &&& forall|k: int, i: int|
        #![trigger rt.threads@[i].id, chan.recvq@[k]]
        0 <= k < chan.recvq@.len() && 0 <= i < rt.threads@.len() && rt.threads@[i].id
            == chan.recvq@[k] ==> rt.threads@[i].state is ChannelBlockRecv
            && rt.threads@[i].chan_val is None
    &&& forall|k1: int, k2: int|
        #![trigger chan.recvq@[k1], chan.recvq@[k2]]
        0 <= k1 < k2 < chan.recvq@.len() ==> chan.recvq@[k1] != chan.recvq@[k2]
    &&& forall|k: int| 0 <= k < chan.sendq@.len() ==> rt.has_thread((#[trigger] chan.sendq@[k]).0)
    &&& forall|k: int, i: int|
        #![trigger rt.threads@[i].id, chan.sendq@[k]]
        0 <= k < chan.sendq@.len() && 0 <= i < rt.threads@.len() && rt.threads@[i].id
            == chan.sendq@[k].0 ==> rt.threads@[i].state is ChannelBlockSend
    &&& forall|k1: int, k2: int|
        #![trigger chan.sendq@[k1], chan.sendq@[k2]]
        0 <= k1 < k2 < chan.sendq@.len() ==> chan.sendq@[k1].0 != chan.sendq@[k2].0
}

/// What a send did before returning control to the caller.
#[derive(Debug, PartialEq, Eq, Structural, Clone, Copy)]
pub enum SendOutcome {
    /// The value went straight into a parked receiver's mailbox, and that
    /// receiver is ready again.  The sender keeps its turn.
    Delivered,
    /// The value was appended to the channel's data buffer.
    Buffered,
    /// The buffer was full: the value now sits in the pending-sender queue
    /// and the calling thread is blocked.  The caller must yield; by the
    /// time it is resumed, a receiver will have consumed the value.
    Parked,
}

/// What a receive did before returning control to the caller.
#[derive(Debug)]
pub enum RecvOutcome<V> {
    /// A value was obtained at once, either from a parked sender or from
    /// the data buffer.
    Value(V),
    /// Nothing was available: the calling thread is parked in the
    /// pending-receiver queue and blocked.  The caller must yield and, once
    /// resumed, call [`chan_recv_finish`] to collect the value.
    Parked,
}

/// Sends `val` on `chan` in the name of the current thread.
///
/// A parked receiver, if any, gets the value directly and wakes; otherwise
/// the value is buffered; and when the buffer is full the current thread
/// parks with the value and must yield.
pub fn chan_send<V>(rt: &mut Runtime<V>, chan: &mut Channel<V>, val: V) -> (r: SendOutcome)
    requires
        old(rt).wf(),
        old(chan).wf(),
        old(chan).inv(),
        chan_threads_ok(*old(rt), *old(chan)),
        old(chan).recvq@.len() == 0 && old(chan).buffer@.len() == old(chan).buffer.size ==> old(
            chan,
        ).sendq@.len() < BLOCK_QUEUE_SIZE,
    ensures
        final(chan).wf(),
        final(chan).inv(),
        chan_threads_ok(*final(rt), *final(chan)),
        final(rt).count == old(rt).count,
        final(rt).current == old(rt).current,
        final(rt).threads@.len() == old(rt).threads@.len(),
        final(chan).buffer.size == old(chan).buffer.size,
        old(chan).recvq@.len() > 0 ==> ({
            let pre = *old(rt);
            let rid = old(chan).recvq@[0];
            let p = pre.spec_pos(rid);
            &&& r == SendOutcome::Delivered
            &&& final(chan).recvq@ == old(chan).recvq@.subrange(1, old(chan).recvq@.len() as int)
            &&& final(chan).sendq == old(chan).sendq
            &&& final(chan).buffer == old(chan).buffer
            &&& final(rt).threads@ == pre.threads@.update(
                p,
                (Thread { state: State::Ready, chan_val: Some(val), ..pre.threads@[p] }),
            )
            &&& final(rt).wf()
        }),
        old(chan).recvq@.len() == 0 && old(chan).buffer@.len() < old(chan).buffer.size ==> {
            &&& r == SendOutcome::Buffered
            &&& *final(rt) == *old(rt)
            &&& final(chan).buffer@ == old(chan).buffer@.push(val)
            &&& final(chan).sendq == old(chan).sendq
            &&& final(chan).recvq == old(chan).recvq
            &&& final(rt).wf()
        },
        old(chan).recvq@.len() == 0 && old(chan).buffer@.len() == old(chan).buffer.size ==> ({
            let pre = *old(rt);
            let p = pre.spec_pos(pre.current);
            &&& r == SendOutcome::Parked
            &&& final(chan).sendq@ == old(chan).sendq@.push((pre.current, val))
            &&& final(chan).buffer == old(chan).buffer
            &&& final(chan).recvq == old(chan).recvq
            &&& final(rt).threads@ == pre.threads@.update(
                p,
                (Thread { state: State::ChannelBlockSend, ..pre.threads@[p] }),
            )
            &&& final(rt).wf_parked()
        }),
{
    let ghost pre_rt = *rt;
    let ghost pre_chan = *chan;
    match chan.recvq.read() {
        Ok(receiver) => {
            proof {
                assert(pre_chan.recvq@[0] == receiver);
                assert(pre_rt.has_thread(receiver));
                pre_rt.lemma_spec_pos(receiver);
                let p = pre_rt.spec_pos(receiver);
                assert(pre_rt.threads@[p].state is ChannelBlockRecv
                    && pre_rt.threads@[p].chan_val is None);
                // the receiver is blocked, the current thread runs: different
                if receiver == pre_rt.current {
                    assert(pre_rt.threads@[p].state is Running);
                }
            }
            rt.add_val_to_chan(receiver, val);
            proof {
                let p = pre_rt.spec_pos(receiver);
                assert(rt.ids_unique() && rt.has_thread(receiver)) by {
                    assert forall|i: int| 0 <= i < rt.threads@.len() implies #[trigger] rt.threads@[i].id
                        == pre_rt.threads@[i].id by {}
                    assert(rt.threads@[p].id == receiver);
                }
                rt.lemma_spec_pos(receiver);
                assert(rt.spec_pos(receiver) == p) by {
                    assert(rt.threads@[rt.spec_pos(receiver)].id == rt.threads@[p].id);
                }
            }
            rt.change_thread_state(receiver, State::Ready);
            proof {
                let p = pre_rt.spec_pos(receiver);
                let post = *rt;
                let post_chan = *chan;
                assert(post.threads@ =~= pre_rt.threads@.update(
                    p,
                    (Thread {
                        state: State::Ready,
                        chan_val: Some(val),
                        ..pre_rt.threads@[p]
                    }),
                ));
                assert forall|i: int| 0 <= i < post.threads@.len() implies #[trigger] post.threads@[i].id
                    == pre_rt.threads@[i].id by {}
                assert(post.has_thread(post.current)) by {
                    let c = pre_rt.spec_pos(pre_rt.current);
                    pre_rt.lemma_spec_pos(pre_rt.current);
                    assert(post.threads@[c].id == post.current);
                }
                assert(post.wf()) by {
                    assert forall|i: int|
                        0 <= i < post.threads@.len() && post.threads@[i].state is Running implies post.threads@[i].id
                        == post.current by {
                        if i != p {
                            assert(post.threads@[i] == pre_rt.threads@[i]);
                        }
                    }
                    assert forall|i: int|
                        0 <= i < post.threads@.len() && post.threads@[i].id == post.current implies post.threads@[i].state
                        is Running by {
                        if i == p {
                            assert(pre_rt.threads@[p].state is Running);
                        } else {
                            assert(post.threads@[i] == pre_rt.threads@[i]);
                        }
                    }
                }
                // the popped receiver parks nowhere else, so the remaining
                // parked receivers are untouched
                assert(chan_threads_ok(post, post_chan)) by {
                    assert(pre_chan.sendq@.len() == 0);
                    assert forall|k: int, i: int|
                        #![trigger post.threads@[i].id, post_chan.recvq@[k]]
                        0 <= k < post_chan.recvq@.len() && 0 <= i < post.threads@.len()
                            && post.threads@[i].id == post_chan.recvq@[k] implies post.threads@[i].state
                        is ChannelBlockRecv && post.threads@[i].chan_val is None by {
                        assert(post_chan.recvq@[k] == pre_chan.recvq@[k + 1]);
                        if i == p {
                            assert(pre_chan.recvq@[0] != pre_chan.recvq@[k + 1]);
                            assert(pre_rt.threads@[p].id == pre_chan.recvq@[0]);
                        } else {
                            assert(post.threads@[i] == pre_rt.threads@[i]);
                        }
                    }
                    assert forall|k: int| 0 <= k < post_chan.recvq@.len() implies post.has_thread(
                        #[trigger] post_chan.recvq@[k],
                    ) by {
                        assert(post_chan.recvq@[k] == pre_chan.recvq@[k + 1]);
                        let w = choose|i: int|
                            0 <= i < pre_rt.threads@.len() && pre_rt.threads@[i].id
                                == pre_chan.recvq@[k + 1];
                        assert(post.threads@[w].id == pre_chan.recvq@[k + 1]);
                    }
                    assert forall|k1: int, k2: int|
                        #![trigger post_chan.recvq@[k1], post_chan.recvq@[k2]]
                        0 <= k1 < k2 < post_chan.recvq@.len() implies post_chan.recvq@[k1]
                        != post_chan.recvq@[k2] by {
                        assert(post_chan.recvq@[k1] == pre_chan.recvq@[k1 + 1]);
                        assert(post_chan.recvq@[k2] == pre_chan.recvq@[k2 + 1]);
                    }
                }
            }
            SendOutcome::Delivered
        },
        Err(()) => {
            match chan.buffer.write(val) {
                Ok(()) => SendOutcome::Buffered,
                Err(val) => {
                    let curr_id = rt.current;
                    match chan.sendq.write((curr_id, val)) {
                        Ok(()) => {},
                        Err(_) => {
                            proof {
                                assert(false);
                            }
                        },
                    }
                    proof {
                        pre_rt.lemma_spec_pos(pre_rt.current);
                    }
                    rt.change_thread_state(curr_id, State::ChannelBlockSend);
                    proof {
                        let p = pre_rt.spec_pos(pre_rt.current);
                        let post = *rt;
                        let post_chan = *chan;
                        assert forall|i: int|
                            0 <= i < post.threads@.len() implies #[trigger] post.threads@[i].id
                            == pre_rt.threads@[i].id by {}
                        assert(post.has_thread(post.current)) by {
                            assert(post.threads@[p].id == post.current);
                        }
                        assert(post.wf_parked()) by {
                            assert forall|i: int|
                                0 <= i < post.threads@.len() && post.threads@[i].state
                                    is Running implies post.threads@[i].id == post.current by {
                                if i != p {
                                    assert(post.threads@[i] == pre_rt.threads@[i]);
                                }
                            }
                            assert forall|i: int|
                                0 <= i < post.threads@.len() && post.threads@[i].id
                                    == post.current implies !(post.threads@[i].state is Ready) by {
                                if i != p {
                                    assert(post.threads@[i] == pre_rt.threads@[i]);
                                    assert(i == p);
                                }
                            }
                        }
                        // the current thread was running, so it was parked in
                        // no queue; the new pending-sender entry is fresh
                        assert(chan_threads_ok(post, post_chan)) by {
                            assert(pre_chan.recvq@.len() == 0);
                            assert forall|k: int, i: int|
                                #![trigger post.threads@[i].id, post_chan.sendq@[k]]
                                0 <= k < post_chan.sendq@.len() && 0 <= i < post.threads@.len()
                                    && post.threads@[i].id == post_chan.sendq@[k].0 implies post.threads@[i].state
                                is ChannelBlockSend by {
                                if k < pre_chan.sendq@.len() {
                                    assert(post_chan.sendq@[k] == pre_chan.sendq@[k]);
                                    if i == p {
                                        assert(pre_rt.threads@[i].state is ChannelBlockSend);
                                    } else {
                                        assert(post.threads@[i] == pre_rt.threads@[i]);
                                    }
                                } else {
                                    assert(post_chan.sendq@[k].0 == pre_rt.current);
                                    assert(i == p);
                                }
                            }
                            assert forall|k: int|
                                0 <= k < post_chan.sendq@.len() implies post.has_thread(
                                (#[trigger] post_chan.sendq@[k]).0,
                            ) by {
                                if k < pre_chan.sendq@.len() {
                                    assert(post_chan.sendq@[k] == pre_chan.sendq@[k]);
                                    let w = choose|i: int|
                                        0 <= i < pre_rt.threads@.len() && pre_rt.threads@[i].id
                                            == pre_chan.sendq@[k].0;
                                    assert(post.threads@[w].id == pre_chan.sendq@[k].0);
                                } else {
                                    assert(post.threads@[p].id == post_chan.sendq@[k].0);
                                }
                            }
                            assert forall|k1: int, k2: int|
                                #![trigger post_chan.sendq@[k1], post_chan.sendq@[k2]]
                                0 <= k1 < k2 < post_chan.sendq@.len() implies post_chan.sendq@[k1].0
                                != post_chan.sendq@[k2].0 by {
                                assert(post_chan.sendq@[k1] == pre_chan.sendq@[k1]);
                                if k2 < pre_chan.sendq@.len() {
                                    assert(post_chan.sendq@[k2] == pre_chan.sendq@[k2]);
                                } else {
                                    // an old entry naming the current thread would
                                    // make a running thread blocked
                                    assert(post_chan.sendq@[k2].0 == pre_rt.current);
                                    if pre_chan.sendq@[k1].0 == pre_rt.current {
                                        let p0 = pre_rt.spec_pos(pre_rt.current);
                                        assert(pre_rt.threads@[p0].state is Running);
                                        assert(pre_rt.threads@[p0].id == pre_chan.sendq@[k1].0);
                                        assert(pre_rt.threads@[p0].state is ChannelBlockSend);
                                    }
                                }
                            }
                        }
                    }
                    SendOutcome::Parked
                },
            }
        },
    }
}

/// Receives a value from `chan` in the name of the current thread.
///
/// A parked sender's value, if any, is taken directly and that sender wakes
/// (its value never transits the buffer); otherwise the oldest buffered
/// value is taken; and when neither exists the current thread parks in the
/// pending-receiver queue with an empty mailbox and must yield, finishing
/// the receive with [`chan_recv_finish`] once resumed.
pub fn chan_recv<V>(rt: &mut Runtime<V>, chan: &mut Channel<V>) -> (r: RecvOutcome<V>)
    requires
        old(rt).wf(),
        old(chan).wf(),
        old(chan).inv(),
        chan_threads_ok(*old(rt), *old(chan)),
        old(chan).sendq@.len() == 0 && old(chan).buffer@.len() == 0 ==> old(chan).recvq@.len()
            < BLOCK_QUEUE_SIZE,
        old(chan).sendq@.len() == 0 && old(chan).buffer@.len() == 0 ==> old(
            rt,
        ).current_thread().chan_val is None,
    ensures
        final(chan).wf(),
        final(chan).inv(),
        chan_threads_ok(*final(rt), *final(chan)),
        final(rt).count == old(rt).count,
        final(rt).current == old(rt).current,
        final(rt).threads@.len() == old(rt).threads@.len(),
        final(chan).buffer.size == old(chan).buffer.size,
        old(chan).sendq@.len() > 0 ==> ({
            let pre = *old(rt);
            let entry = old(chan).sendq@[0];
            let p = pre.spec_pos(entry.0);
            &&& r == RecvOutcome::Value(entry.1)
            &&& final(chan).sendq@ == old(chan).sendq@.subrange(1, old(chan).sendq@.len() as int)
            &&& final(chan).buffer == old(chan).buffer
            &&& final(chan).recvq == old(chan).recvq
            &&& final(rt).threads@ == pre.threads@.update(
                p,
                (Thread { state: State::Ready, ..pre.threads@[p] }),
            )
            &&& final(rt).wf()
        }),
        old(chan).sendq@.len() == 0 && old(chan).buffer@.len() > 0 ==> {
            &&& r == RecvOutcome::Value(old(chan).buffer@[0])
            &&& *final(rt) == *old(rt)
            &&& final(chan).buffer@ == old(chan).buffer@.subrange(
                1,
                old(chan).buffer@.len() as int,
            )
            &&& final(chan).sendq == old(chan).sendq
            &&& final(chan).recvq == old(chan).recvq
            &&& final(rt).wf()
        },
        old(chan).sendq@.len() == 0 && old(chan).buffer@.len() == 0 ==> ({
            let pre = *old(rt);
            let p = pre.spec_pos(pre.current);
            &&& r is Parked
            &&& final(chan).recvq@ == old(chan).recvq@.push(pre.current)
            &&& final(chan).buffer == old(chan).buffer
            &&& final(chan).sendq == old(chan).sendq
            &&& final(rt).threads@ == pre.threads@.update(
                p,
                (Thread { state: State::ChannelBlockRecv, ..pre.threads@[p] }),
            )
            &&& final(rt).wf_parked()
        }),
{
    let ghost pre_rt = *rt;
    let ghost pre_chan = *chan;
    match chan.sendq.read() {
        Ok((sender, val)) => {
            proof {
                assert(pre_chan.sendq@[0] == (sender, val));
                assert(pre_rt.has_thread(sender));
                pre_rt.lemma_spec_pos(sender);
                let p = pre_rt.spec_pos(sender);
                assert(pre_rt.threads@[p].state is ChannelBlockSend);
            }
            rt.change_thread_state(sender, State::Ready);
            proof {
                let p = pre_rt.spec_pos(sender);
                let post = *rt;
                let post_chan = *chan;
                assert forall|i: int| 0 <= i < post.threads@.len() implies #[trigger] post.threads@[i].id
                    == pre_rt.threads@[i].id by {}
                assert(post.has_thread(post.current)) by {
                    let c = pre_rt.spec_pos(pre_rt.current);
                    pre_rt.lemma_spec_pos(pre_rt.current);
                    assert(post.threads@[c].id == post.current);
                }
                assert(post.wf()) by {
                    assert forall|i: int|
                        0 <= i < post.threads@.len() && post.threads@[i].state is Running implies post.threads@[i].id
                        == post.current by {
                        if i != p {
                            assert(post.threads@[i] == pre_rt.threads@[i]);
                        }
                    }
                    assert forall|i: int|
                        0 <= i < post.threads@.len() && post.threads@[i].id == post.current implies post.threads@[i].state
                        is Running by {
                        if i == p {
                            assert(pre_rt.threads@[p].state is Running);
                        } else {
                            assert(post.threads@[i] == pre_rt.threads@[i]);
                        }
                    }
                }
                // the woken sender parks nowhere else, so the remaining
                // parked senders are untouched
                assert(chan_threads_ok(post, post_chan)) by {
                    assert(pre_chan.recvq@.len() == 0);
                    assert forall|k: int, i: int|
                        #![trigger post.threads@[i].id, post_chan.sendq@[k]]
                        0 <= k < post_chan.sendq@.len() && 0 <= i < post.threads@.len()
                            && post.threads@[i].id == post_chan.sendq@[k].0 implies post.threads@[i].state
                        is ChannelBlockSend by {
                        assert(post_chan.sendq@[k] == pre_chan.sendq@[k + 1]);
                        if i == p {
                            assert(pre_chan.sendq@[0].0 != pre_chan.sendq@[k + 1].0);
                            assert(pre_rt.threads@[p].id == pre_chan.sendq@[0].0);
                        } else {
                            assert(post.threads@[i] == pre_rt.threads@[i]);
                        }
                    }
                    assert forall|k: int| 0 <= k < post_chan.sendq@.len() implies post.has_thread(
                        (#[trigger] post_chan.sendq@[k]).0,
                    ) by {
                        assert(post_chan.sendq@[k] == pre_chan.sendq@[k + 1]);
                        let w = choose|i: int|
                            0 <= i < pre_rt.threads@.len() && pre_rt.threads@[i].id
                                == pre_chan.sendq@[k + 1].0;
                        assert(post.threads@[w].id == pre_chan.sendq@[k + 1].0);
                    }
                    assert forall|k1: int, k2: int|
                        #![trigger post_chan.sendq@[k1], post_chan.sendq@[k2]]
                        0 <= k1 < k2 < post_chan.sendq@.len() implies post_chan.sendq@[k1].0
                        != post_chan.sendq@[k2].0 by {
                        assert(post_chan.sendq@[k1] == pre_chan.sendq@[k1 + 1]);
                        assert(post_chan.sendq@[k2] == pre_chan.sendq@[k2 + 1]);
                    }
                }
            }
            RecvOutcome::Value(val)
        },
        Err(()) => {
            match chan.buffer.read() {
                Ok(val) => RecvOutcome::Value(val),
                Err(()) => {
                    let curr_id = rt.current;
                    match chan.recvq.write(curr_id) {
                        Ok(()) => {},
                        Err(_) => {
                            proof {
                                assert(false);
                            }
                        },
                    }
                    proof {
                        pre_rt.lemma_spec_pos(pre_rt.current);
                    }
                    rt.change_thread_state(curr_id, State::ChannelBlockRecv);
                    proof {
                        let p = pre_rt.spec_pos(pre_rt.current);
                        let post = *rt;
                        let post_chan = *chan;
                        assert forall|i: int|
                            0 <= i < post.threads@.len() implies #[trigger] post.threads@[i].id
                            == pre_rt.threads@[i].id by {}
                        assert(post.has_thread(post.current)) by {
                            assert(post.threads@[p].id == post.current);
                        }
                        assert(post.wf_parked()) by {
                            assert forall|i: int|
                                0 <= i < post.threads@.len() && post.threads@[i].state
                                    is Running implies post.threads@[i].id == post.current by {
                                if i != p {
                                    assert(post.threads@[i] == pre_rt.threads@[i]);
                                }
                            }
                            assert forall|i: int|
                                0 <= i < post.threads@.len() && post.threads@[i].id
                                    == post.current implies !(post.threads@[i].state is Ready) by {
                                if i != p {
                                    assert(post.threads@[i] == pre_rt.threads@[i]);
                                    assert(i == p);
                                }
                            }
                        }
                        // the current thread was running, so it was parked in
                        // no queue; the new pending-receiver entry is fresh
                        assert(chan_threads_ok(post, post_chan)) by {
                            assert(pre_chan.sendq@.len() == 0);
                            assert forall|k: int, i: int|
                                #![trigger post.threads@[i].id, post_chan.recvq@[k]]
                                0 <= k < post_chan.recvq@.len() && 0 <= i < post.threads@.len()
                                    && post.threads@[i].id == post_chan.recvq@[k] implies post.threads@[i].state
                                is ChannelBlockRecv && post.threads@[i].chan_val is None by {
                                if k < pre_chan.recvq@.len() {
                                    assert(post_chan.recvq@[k] == pre_chan.recvq@[k]);
                                    if i == p {
                                        assert(pre_rt.threads@[i].state is ChannelBlockRecv);
                                    } else {
                                        assert(post.threads@[i] == pre_rt.threads@[i]);
                                    }
                                } else {
                                    assert(post_chan.recvq@[k] == pre_rt.current);
                                    assert(i == p);
                                }
                            }
                            assert forall|k: int|
                                0 <= k < post_chan.recvq@.len() implies post.has_thread(
                                #[trigger] post_chan.recvq@[k],
                            ) by {
                                if k < pre_chan.recvq@.len() {
                                    assert(post_chan.recvq@[k] == pre_chan.recvq@[k]);
                                    let w = choose|i: int|
                                        0 <= i < pre_rt.threads@.len() && pre_rt.threads@[i].id
                                            == pre_chan.recvq@[k];
                                    assert(post.threads@[w].id == pre_chan.recvq@[k]);
                                } else {
                                    assert(post.threads@[p].id == post_chan.recvq@[k]);
                                }
                            }
                            assert forall|k1: int, k2: int|
                                #![trigger post_chan.recvq@[k1], post_chan.recvq@[k2]]
                                0 <= k1 < k2 < post_chan.recvq@.len() implies post_chan.recvq@[k1]
                                != post_chan.recvq@[k2] by {
                                assert(post_chan.recvq@[k1] == pre_chan.recvq@[k1]);
                                if k2 < pre_chan.recvq@.len() {
                                    assert(post_chan.recvq@[k2] == pre_chan.recvq@[k2]);
                                } else {
                                    // an old entry naming the current thread
                                    // would make a running thread blocked
                                    assert(post_chan.recvq@[k2] == pre_rt.current);
                                    if pre_chan.recvq@[k1] == pre_rt.current {
                                        let p0 = pre_rt.spec_pos(pre_rt.current);
                                        assert(pre_rt.threads@[p0].state is Running);
                                        assert(pre_rt.threads@[p0].id == pre_chan.recvq@[k1]);
                                        assert(pre_rt.threads@[p0].state is ChannelBlockRecv);
                                    }
                                }
                            }
                        }
                    }
                    RecvOutcome::Parked
                },
            }
        },
    }
}

/// Completes a receive whose caller had parked and has been resumed: takes
/// the value a sender placed in the current thread's mailbox, or — when the
/// mailbox is empty because the buffer was refilled instead — the oldest
/// buffered value.
pub fn chan_recv_finish<V>(rt: &mut Runtime<V>, chan: &mut Channel<V>) -> (v: V)
    requires
        old(rt).wf(),
        old(chan).wf(),
        old(chan).inv(),
        chan_threads_ok(*old(rt), *old(chan)),
        old(rt).current_thread().chan_val is Some || old(chan).buffer@.len() > 0,
    ensures
        final(chan).wf(),
        chan_threads_ok(*final(rt), *final(chan)),
        final(rt).wf(),
        final(rt).count == old(rt).count,
        final(rt).current == old(rt).current,
        final(rt).threads@.len() == old(rt).threads@.len(),
        final(chan).buffer.size == old(chan).buffer.size,
        ({
            let pre = *old(rt);
            let p = pre.spec_pos(pre.current);
            let m = pre.threads@[p].chan_val;
            &&& final(rt).threads@ == pre.threads@.update(
                p,
                (Thread { chan_val: None, ..pre.threads@[p] }),
            )
            &&& (m is Some ==> v == m->0 && *final(chan) == *old(chan) && final(chan).inv())
            &&& (m is None ==> v == old(chan).buffer@[0] && final(chan).buffer@ == old(
                chan,
            ).buffer@.subrange(1, old(chan).buffer@.len() as int) && final(chan).sendq == old(
                chan,
            ).sendq && final(chan).recvq == old(chan).recvq && (old(chan).sendq@.len() == 0
                ==> final(chan).inv()))
        }),
{
    let ghost pre_rt = *rt;
    let ghost pre_chan = *chan;
    proof {
        pre_rt.lemma_spec_pos(pre_rt.current);
    }
    let got = rt.get_val_from_chan();
    proof {
        let p = pre_rt.spec_pos(pre_rt.current);
        let post = *rt;
        assert forall|i: int| 0 <= i < post.threads@.len() implies #[trigger] post.threads@[i].id
            == pre_rt.threads@[i].id by {}
        assert(post.has_thread(post.current)) by {
            assert(post.threads@[p].id == post.current);
        }
        assert(post.wf()) by {
            assert forall|i: int|
                0 <= i < post.threads@.len() && post.threads@[i].state is Running implies post.threads@[i].id
                == post.current by {
                if i != p {
                    assert(post.threads@[i] == pre_rt.threads@[i]);
                }
            }
            assert forall|i: int|
                0 <= i < post.threads@.len() && post.threads@[i].id == post.current implies post.threads@[i].state
                is Running by {
                if i == p {
                    assert(pre_rt.threads@[p].state is Running);
                } else {
                    assert(post.threads@[i] == pre_rt.threads@[i]);
                }
            }
        }
        // the current thread is running, so it is parked in no queue and
        // emptying its mailbox leaves every parked receiver's mailbox free
        assert(chan_threads_ok(post, pre_chan)) by {
            assert forall|k: int, i: int|
                #![trigger post.threads@[i].id, pre_chan.recvq@[k]]
                0 <= k < pre_chan.recvq@.len() && 0 <= i < post.threads@.len()
                    && post.threads@[i].id == pre_chan.recvq@[k] implies post.threads@[i].state
                is ChannelBlockRecv && post.threads@[i].chan_val is None by {
                if i == p {
                    assert(pre_rt.threads@[i].state is ChannelBlockRecv);
                    assert(pre_rt.threads@[p].state is Running);
                }
            }
            assert forall|k: int, i: int|
                #![trigger post.threads@[i].id, pre_chan.sendq@[k]]
                0 <= k < pre_chan.sendq@.len() && 0 <= i < post.threads@.len()
                    && post.threads@[i].id == pre_chan.sendq@[k].0 implies post.threads@[i].state
                is ChannelBlockSend by {
                if i == p {
                    assert(pre_rt.threads@[i].state is ChannelBlockSend);
                    assert(pre_rt.threads@[p].state is Running);
                }
            }
            assert forall|k: int| 0 <= k < pre_chan.recvq@.len() implies post.has_thread(
                #[trigger] pre_chan.recvq@[k],
            ) by {
                let w = choose|i: int|
                    0 <= i < pre_rt.threads@.len() && pre_rt.threads@[i].id == pre_chan.recvq@[k];
                assert(post.threads@[w].id == pre_chan.recvq@[k]);
            }
            assert forall|k: int| 0 <= k < pre_chan.sendq@.len() implies post.has_thread(
                (#[trigger] pre_chan.sendq@[k]).0,
            ) by {
                let w = choose|i: int|
                    0 <= i < pre_rt.threads@.len() && pre_rt.threads@[i].id
                        == pre_chan.sendq@[k].0;
                assert(post.threads@[w].id == pre_chan.sendq@[k].0);
            }
        }
    }
    match got {
        Some(val) => val,
        None => {
            match chan.buffer.read() {
                Ok(val) => val,
                Err(()) => vstd::pervasive::unreached(),
            }
        },
    }
}

/// **Unique thread ids**: in a well-formed runtime, any two distinct live
/// threads carry distinct ids.
pub proof fn lemma_unique_ids<V>(rt: Runtime<V>, i: int, j: int)
    requires
        rt.wf(),
        0 <= i < rt.threads@.len(),
        0 <= j < rt.threads@.len(),
        i != j,
    ensures
        rt.threads@[i].id != rt.threads@[j].id,
{
}

/// **Single runner**: in a well-formed runtime, exactly one thread is in
/// `Running` state, and its id equals `current`.
pub proof fn lemma_single_runner<V>(rt: Runtime<V>)
    requires
        rt.wf(),
    ensures
        exists|i: int|
            0 <= i < rt.threads@.len() && (#[trigger] rt.threads@[i]).state is Running
                && rt.threads@[i].id == rt.current,
        forall|i: int, j: int|
            0 <= i < rt.threads@.len() && 0 <= j < rt.threads@.len() && (#[trigger] rt.threads@[i]).state
                is Running && (#[trigger] rt.threads@[j]).state is Running ==> i == j,
{
    rt.lemma_spec_pos(rt.current);
    let p = rt.spec_pos(rt.current);
    assert(rt.threads@[p].state is Running && rt.threads@[p].id == rt.current);
    assert forall|i: int, j: int|
        0 <= i < rt.threads@.len() && 0 <= j < rt.threads@.len() && (#[trigger] rt.threads@[i]).state
            is Running && (#[trigger] rt.threads@[j]).state is Running implies i == j by {
        assert(rt.threads@[i].id == rt.current);
        assert(rt.threads@[j].id == rt.current);
    }
}

/// **Rendezvous**: on a capacity-0 channel with nobody parked, a send can
/// only park, leaving its value in the pending-sender queue; the receive
/// that follows takes the head of that queue — so it returns exactly the
/// value that was sent and wakes exactly the thread that sent it.
pub proof fn lemma_rendezvous<V>(c0: Channel<V>, c1: Channel<V>, sender: Id, v: V, r: RecvOutcome<
    V,
>)
    requires
        c0.wf(),
        c0.inv(),
        c0.buffer.size == 0,
        c0.sendq@.len() == 0,
        c0.recvq@.len() == 0,
        // what a send that parked `sender` with value `v` leaves behind
        c1.sendq@ == c0.sendq@.push((sender, v)),
        // what the next receive returns, by its own contract
        r == RecvOutcome::Value(c1.sendq@[0].1),
    ensures
        r == RecvOutcome::Value(v),
        c1.sendq@[0].0 == sender,
{
    assert(c1.sendq@[0] == (sender, v));
}

} // verus!
