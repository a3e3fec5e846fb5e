use vstd::prelude::*;
use crate::codex::CodexResult;
use crate::store::{QueueStore, ResultRecord, TaskOutcome, TaskStatus};
use crate::task::{Correlation, Task};

verus! {

/// The job types a worker can execute.  Dispatch itself is the caller's
/// (the handlers perform external work); the registry decides whether a
/// handler exists at all.
pub struct HandlerRegistry {
    job_types: Vec<String>,
}

impl HandlerRegistry {
    /// The registered job-type tags, in registration order.
    pub closed spec fn spec_job_types(self) -> Seq<Seq<char>> {
        self.job_types.deep_view()
    }

    /// Whether a handler is registered for a tag.
    pub open spec fn spec_is_registered(self, job_type: Seq<char>) -> bool {
        self.spec_job_types().contains(job_type)
    }

    /// An empty registry.
    pub fn new() -> (r: HandlerRegistry)
        ensures
            r.spec_job_types() == Seq::<Seq<char>>::empty(),
    {
        let r = HandlerRegistry { job_types: Vec::new() };
        proof {
            assert(r.spec_job_types() =~= Seq::<Seq<char>>::empty());
        }
        r
    }

    /// Register a handler for a job-type tag.
    pub fn register(&mut self, job_type: String)
        ensures
            final(self).spec_job_types() == old(self).spec_job_types().push(job_type@),
    {
        self.job_types.push(job_type);
        proof {
            assert(self.spec_job_types() =~= old(self).spec_job_types().push(job_type@));
        }
    }

    /// Whether a handler is registered for this tag.
    pub fn is_registered(&self, job_type: &String) -> (r: bool)
        ensures
            r == self.spec_is_registered(job_type@),
    {
        let ghost tags = self.spec_job_types();
        let mut i: usize = 0;
        while i < self.job_types.len()
            invariant
                i <= self.job_types@.len(),
                tags == self.spec_job_types(),
                tags.len() == self.job_types@.len(),
                forall|k: int| 0 <= k < i ==> tags[k] != job_type@,
            decreases self.job_types@.len() - i,
        {
            proof {
                assert(tags[i as int] == self.job_types@[i as int]@);
            }
            if crate::text::str_eq(self.job_types[i].as_str(), job_type.as_str()) {
                proof {
                    assert(tags[i as int] == job_type@);
                }
                return true;
            }
            i += 1;
        }
        false
    }
}

/// What loading a claimed task's payload from the record store gave:
/// the record may have expired, may no longer deserialize, or loads.
pub enum FetchOutcome {
    Missing,
    Corrupt,
    Loaded { task: Task },
}

/// The decision for one claimed reference: hand the task to its
/// handler, or resolve it at once with an error message.
pub enum DispatchPlan {
    Execute { task: Task },
    Resolve { message: String },
}

/// The error text for a task whose payload record is gone.
pub open spec fn spec_missing_payload_message() -> Seq<char> {
    "task payload missing"@
}

/// The error text for a task whose payload no longer deserializes.
pub open spec fn spec_malformed_payload_message() -> Seq<char> {
    "malformed task payload"@
}

/// The error text for a task whose job type has no registered handler.
pub open spec fn spec_unknown_job_type_message(job_type: Seq<char>) -> Seq<char> {
    "unknown job type: "@ + job_type
}

/// Decide one worker iteration after a reference has been claimed: a
/// loadable task with a registered handler is handed on for execution;
/// anything else is a poison entry, resolved at once with an error
/// message so that it can never block the queue.
pub fn plan_dispatch(fetched: FetchOutcome, registry: &HandlerRegistry) -> (p: DispatchPlan)
    ensures
        match fetched {
            FetchOutcome::Missing => p matches DispatchPlan::Resolve { message } && message@
                == spec_missing_payload_message(),
            FetchOutcome::Corrupt => p matches DispatchPlan::Resolve { message } && message@
                == spec_malformed_payload_message(),
            FetchOutcome::Loaded { task } => if registry.spec_is_registered(task.job_type@) {
                p matches DispatchPlan::Execute { task: t } && t == task
            } else {
                p matches DispatchPlan::Resolve { message } && message@
                    == spec_unknown_job_type_message(task.job_type@)
            },
        },
{
    match fetched {
        FetchOutcome::Missing => DispatchPlan::Resolve {
            message: "task payload missing".to_owned(),
        },
        FetchOutcome::Corrupt => DispatchPlan::Resolve {
            message: "malformed task payload".to_owned(),
        },
        FetchOutcome::Loaded { task } => {
            if registry.is_registered(&task.job_type) {
                DispatchPlan::Execute { task }
            } else {
                let mut m = "unknown job type: ".to_owned();
                m.append(task.job_type.as_str());
                DispatchPlan::Resolve { message: m }
            }
        },
    }
}

/// Wrap a handler's outcome in a result record, echoing the producer's
/// correlation metadata.
pub fn finish_job(outcome: Result<CodexResult, String>, correlation: Correlation) -> (rec:
    ResultRecord)
    ensures
        rec.correlation == correlation,
        match outcome {
            Result::Ok(data) => rec.outcome matches TaskOutcome::Completed { data: d } && d
                == data,
            Result::Err(message) => rec.outcome matches TaskOutcome::Failed { message: m } && m
                == message,
        },
{
    match outcome {
        Result::Ok(data) => ResultRecord { outcome: TaskOutcome::Completed { data }, correlation },
        Result::Err(message) => ResultRecord {
            outcome: TaskOutcome::Failed { message },
            correlation,
        },
    }
}

/// The combined transition of persisting a result and acknowledging the
/// reference.
pub open spec fn resolved_step(
    pre: QueueStore,
    id: u128,
    record: ResultRecord,
    post: QueueStore,
) -> bool {
    &&& post.pending() == pre.pending()
    &&& post.tasks() == pre.tasks()
    &&& post.results() == pre.results().insert(id, record)
    &&& !post.processing().contains(id)
    &&& pre.processing().contains(id) ==> post.processing() == pre.processing().remove_value(id)
    &&& !pre.processing().contains(id) ==> post.processing() == pre.processing()
}

/// Persist a result record for a claimed task and acknowledge its
/// reference: the final two steps of one worker iteration.
pub fn worker_resolve(store: &mut QueueStore, id: u128, record: ResultRecord)
    requires
        old(store).inv(),
    ensures
        final(store).inv(),
        resolved_step(*old(store), id, record, *final(store)),
{
    store.write_result(id, record);
    store.acknowledge(id);
}

/// Once a claimed task's result is written and its reference
/// acknowledged, the reference is in neither collection while the
/// result record exists, and the reported status is the record's.
pub proof fn lemma_resolved_leaves_queues(
    pre: QueueStore,
    id: u128,
    record: ResultRecord,
    post: QueueStore,
)
    requires
        pre.inv(),
        pre.processing().contains(id),
        resolved_step(pre, id, record, post),
    ensures
        post.results().contains_key(id),
        !post.pending().contains(id),
        !post.processing().contains(id),
        post.spec_status(id) == (if record.outcome is Failed {
            TaskStatus::Failed
        } else {
            TaskStatus::Completed
        }),
{
}

} // verus!
