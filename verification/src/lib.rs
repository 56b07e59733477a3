//! A single-threaded cooperative task runtime with synchronous message-passing
//! channels.
//!
//! Several tasks are hosted on one OS thread and multiplexed by explicit
//! context switches.  Tasks communicate exclusively by value through bounded
//! channels that park senders and receivers when capacity or data is absent.
//!
//! This crate holds the verified core: the task control block and its
//! lifecycle, the round-robin scheduler with its yield and completion steps,
//! the fixed-capacity circular buffer, and the channel rendezvous protocol.
//! The machine-level pieces that the scheduler's decisions drive — the
//! register save/restore sequence and the initial stack frames of a freshly
//! spawned task — cannot be expressed in safe code and live with the embedder,
//! which performs a switch exactly where a scheduler step tells it to.

pub mod channel;
pub mod runtime;
pub mod thread;
