use vstd::prelude::*;

verus! {

/// Correlation metadata supplied by the producer and echoed back,
/// untouched, in the task's result record.
pub struct Correlation {
    pub chat_id: i64,
    pub reply_to_message_id: Option<i64>,
}

impl Correlation {
    /// The correlation used when a result is synthesized by the worker
    /// itself and no producer-supplied metadata is at hand.
    pub fn empty() -> (c: Correlation)
        ensures
            c.chat_id == 0,
            c.reply_to_message_id is None,
    {
        Correlation { chat_id: 0, reply_to_message_id: None }
    }
}

/// A unit of requested work.  Immutable once created: the queue layer
/// reads only `id` and `job_type`; `params` is an opaque serialized
/// payload interpreted by the handler selected through `job_type`.
pub struct Task {
    pub id: u128,
    pub enqueued_at: i64,
    pub job_type: String,
    pub params: String,
}

/// Relies on uuid::Uuid::new_v4 for a freshly drawn random identifier;
/// nothing is promised of the value.
#[verifier::external_body]
fn fresh_task_id() -> u128 {
    uuid::Uuid::new_v4().as_u128()
}

/// Relies on std::time::SystemTime::now for the current wall-clock time
/// in whole seconds since the Unix epoch; nothing is promised of the
/// value (a clock before the epoch is reported as 0).
#[verifier::external_body]
fn now_unix_secs() -> i64 {
    match std::time::SystemTime::now().duration_since(std::time::UNIX_EPOCH) {
        Ok(d) => d.as_secs() as i64,
        Err(_) => 0,
    }
}

impl Task {
    /// Create a new task of `job_type` with the given serialized `params`.
    pub fn new(job_type: String, params: String) -> (t: Task)
        ensures
            t.job_type == job_type,
            t.params == params,
    {
        Task { id: fresh_task_id(), enqueued_at: now_unix_secs(), job_type, params }
    }
}

} // verus!
