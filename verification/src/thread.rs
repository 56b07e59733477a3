//! Task control blocks: identity, lifecycle state, saved register context and
//! the single-slot mailbox used for channel rendezvous.

use vstd::prelude::*;

verus! {

/// Number of bytes in the stack region owned by each task.
pub const DEFAULT_STACK_SIZE: usize = 1024 * 1024 * 2;

/// Numeric id of the bootstrap task that hosts the scheduler's `run` loop.
pub const BASE_THREAD_ID: usize = 0;

/// Uniquely identifies a thread.
#[derive(Debug, PartialEq, Eq, Structural, Clone, Copy)]
pub struct Id(pub usize);

/// Possible states that a thread can be in during its lifetime.
#[derive(Debug, PartialEq, Eq, Structural, Clone, Copy)]
pub enum State {
    /// Thread is making progress.
    Running,
    /// Thread is ready to be run and is not waiting on any external event.
    Ready,
    /// Thread is unable to send a value to a channel and is hence blocked
    /// until the channel frees up.
    ChannelBlockSend,
    /// Thread is waiting to receive a value from the channel.
    ChannelBlockRecv,
}

/// The per-thread record preserved between context switches: the stack
/// pointer and the callee-saved registers of the x86-64 ABI, each held as a
/// plain machine word.  The scheduler only stores and hands these records
/// around; the embedder fills them and feeds them to the actual register
/// save/restore sequence.
#[derive(Debug, PartialEq, Eq, Structural, Clone, Copy)]
pub struct Context {
    /// Saved stack pointer.
    pub rsp: u64,
    /// Saved callee-saved register r15.
    pub r15: u64,
    /// Saved callee-saved register r14.
    pub r14: u64,
    /// Saved callee-saved register r13.
    pub r13: u64,
    /// Saved callee-saved register r12.
    pub r12: u64,
    /// Saved callee-saved register rbx.
    pub rbx: u64,
    /// Saved callee-saved register rbp.
    pub rbp: u64,
}

impl Context {
    /// The all-zero register record a freshly created thread starts from.
    pub open spec fn spec_zeroed() -> Context {
        Context { rsp: 0, r15: 0, r14: 0, r13: 0, r12: 0, rbx: 0, rbp: 0 }
    }
}

impl Default for Context {
    /// A fresh context has every saved register zeroed.
    fn default() -> (c: Self)
        ensures
            c == Context::spec_zeroed(),
    {
        Context { rsp: 0, r15: 0, r14: 0, r13: 0, r12: 0, rbx: 0, rbp: 0 }
    }
}

/// Represents a thread in our runtime.
///
/// The generic parameter `V` is the type of value the thread's mailbox can
/// carry during a channel rendezvous.
pub struct Thread<V> {
    /// Uniquely identifies a thread.
    pub id: Id,
    /// Stack used by the thread to run the function passed.  The scheduler
    /// never reads or writes it; the embedder lays the initial frames into it
    /// and the machine mutates it while the thread runs.
    pub stack: Vec<u8>,
    /// Stores the thread context between successive runs.
    pub ctx: Context,
    /// Represents the current state of the thread.
    pub state: State,
    /// Stores the value handed to this thread by a sender during rendezvous,
    /// if any.
    pub chan_val: Option<V>,
}

impl<V> Thread<V> {
    /// Creates a thread record with a freshly allocated zeroed stack, a
    /// zeroed register context and an empty mailbox.
    pub fn new(id: Id, state: State) -> (t: Self)
        ensures
            t.id == id,
            t.state == state,
            t.ctx == Context::spec_zeroed(),
            t.chan_val is None,
            t.stack@.len() == DEFAULT_STACK_SIZE,
            forall|i: int| 0 <= i < t.stack@.len() ==> t.stack@[i] == 0u8,
    {
        let mut stack: Vec<u8> = Vec::new();
        while stack.len() < DEFAULT_STACK_SIZE
            invariant
                stack@.len() <= DEFAULT_STACK_SIZE,
                forall|i: int| 0 <= i < stack@.len() ==> stack@[i] == 0u8,
            decreases DEFAULT_STACK_SIZE - stack.len(),
        {
            stack.push(0u8);
        }
        Thread { id, stack, ctx: Context::default(), state, chan_val: None }
    }
}

} // verus!
