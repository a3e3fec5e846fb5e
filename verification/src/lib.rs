//! A reliable FIFO job queue with a pluggable worker.
//!
//! The crate models the queue reliability state machine — the atomic
//! hand-off of task references between the pending and processing
//! collections, crash recovery, and write-once result persistence — and
//! the decision logic of the job execution pipeline for the one concrete
//! job kind (a sandboxed code-generation invocation).  External effects
//! (the backing store, blob storage, the subprocess) are performed by a
//! thin unverified shell that hands plain values to this library.

pub mod codex;
pub mod store;
pub mod task;
pub mod text;
pub mod worker;
