use task_queue::store::{QueueStore, ResultRecord, TaskOutcome, TaskStatus};
use task_queue::task::{Correlation, Task};
use task_queue::worker::{plan_dispatch, worker_resolve, DispatchPlan, FetchOutcome, HandlerRegistry};

fn task(id: u128, job_type: &str, params: &str) -> Task {
    Task {
        id,
        enqueued_at: 0,
        job_type: job_type.to_owned(),
        params: params.to_owned(),
    }
}

fn error_record(message: &str) -> ResultRecord {
    ResultRecord {
        outcome: TaskOutcome::Failed { message: message.to_owned() },
        correlation: Correlation::empty(),
    }
}

#[test]
fn enqueue_reports_pending() {
    let mut s = QueueStore::new();
    s.enqueue(task(1, "codex", "{}"));
    assert_eq!(s.get_status(1), TaskStatus::Pending);
    assert_eq!(s.get_status(2), TaskStatus::Absent);
}

#[test]
fn dequeue_moves_to_processing() {
    let mut s = QueueStore::new();
    s.enqueue(task(1, "codex", "{}"));
    let claimed = s.dequeue();
    assert_eq!(claimed, Some(1));
    assert_eq!(s.get_status(1), TaskStatus::Processing);
    let listing = s.list_tasks();
    assert_eq!(listing.len(), 1);
    assert_eq!(listing[0], (1, TaskStatus::Processing));
}

#[test]
fn dequeue_on_empty_returns_none() {
    let mut s = QueueStore::new();
    assert_eq!(s.dequeue(), None);
}

#[test]
fn crash_recovery_restores_stranded_task() {
    let mut s = QueueStore::new();
    s.enqueue(task(5, "codex", "{}"));
    assert_eq!(s.dequeue(), Some(5));
    // the worker stops here: no result was written, no acknowledgement
    assert_eq!(s.get_status(5), TaskStatus::Processing);
    s.recover_stranded();
    assert_eq!(s.get_status(5), TaskStatus::Pending);
    // the recovered task is handed out again
    assert_eq!(s.dequeue(), Some(5));
    worker_resolve(&mut s, 5, error_record("handled on retry"));
    assert_eq!(s.get_status(5), TaskStatus::Failed);
}

#[test]
fn recovery_keeps_claim_order() {
    let mut s = QueueStore::new();
    s.enqueue(task(1, "codex", "{}"));
    s.enqueue(task(2, "codex", "{}"));
    s.enqueue(task(3, "codex", "{}"));
    assert_eq!(s.dequeue(), Some(1));
    assert_eq!(s.dequeue(), Some(2));
    s.recover_stranded();
    // 3 was never claimed and stays ahead of the requeued 1 and 2
    assert_eq!(s.dequeue(), Some(3));
    assert_eq!(s.dequeue(), Some(1));
    assert_eq!(s.dequeue(), Some(2));
}

#[test]
fn delete_reports_absent_from_any_state() {
    let mut s = QueueStore::new();
    s.enqueue(task(1, "codex", "{}"));
    s.enqueue(task(2, "codex", "{}"));
    s.enqueue(task(3, "codex", "{}"));
    // 1 stays pending; 2 is claimed; 3 is resolved
    assert_eq!(s.dequeue(), Some(1));
    s.acknowledge(1);
    assert_eq!(s.dequeue(), Some(2));
    assert_eq!(s.dequeue(), Some(3));
    worker_resolve(&mut s, 3, error_record("done"));

    s.delete_task(1);
    s.delete_task(2);
    s.delete_task(3);
    assert_eq!(s.get_status(1), TaskStatus::Absent);
    assert_eq!(s.get_status(2), TaskStatus::Absent);
    assert_eq!(s.get_status(3), TaskStatus::Absent);
    assert!(s.get_result(3).is_none());
    assert!(s.get_task(3).is_none());
}

#[test]
fn delete_unknown_id_is_noop() {
    let mut s = QueueStore::new();
    s.enqueue(task(1, "codex", "{}"));
    s.delete_task(99);
    assert_eq!(s.get_status(1), TaskStatus::Pending);
}

#[test]
fn delete_all_leaves_nothing() {
    let mut s = QueueStore::new();
    s.enqueue(task(1, "codex", "{}"));
    s.enqueue(task(2, "codex", "{}"));
    assert_eq!(s.dequeue(), Some(1));
    worker_resolve(&mut s, 1, error_record("done"));
    s.delete_all();
    assert!(s.list_tasks().is_empty());
    assert_eq!(s.get_status(1), TaskStatus::Absent);
    assert_eq!(s.get_status(2), TaskStatus::Absent);
}

#[test]
fn acknowledge_is_idempotent() {
    let mut s = QueueStore::new();
    s.enqueue(task(1, "codex", "{}"));
    assert_eq!(s.dequeue(), Some(1));
    s.acknowledge(1);
    s.acknowledge(1);
    assert_eq!(s.get_status(1), TaskStatus::Absent);
}

#[test]
fn result_takes_priority_over_queue_membership() {
    let mut s = QueueStore::new();
    s.enqueue(task(1, "codex", "{}"));
    assert_eq!(s.dequeue(), Some(1));
    // result written but not yet acknowledged: terminal state wins
    s.write_result(1, error_record("boom"));
    assert_eq!(s.get_status(1), TaskStatus::Failed);
    let listing = s.list_tasks();
    assert_eq!(listing, vec![(1, TaskStatus::Failed)]);
    s.acknowledge(1);
    assert_eq!(s.get_status(1), TaskStatus::Failed);
}

#[test]
fn listing_covers_all_states_once() {
    let mut s = QueueStore::new();
    s.enqueue(task(1, "codex", "{}"));
    s.enqueue(task(2, "codex", "{}"));
    s.enqueue(task(3, "codex", "{}"));
    assert_eq!(s.dequeue(), Some(1));
    assert_eq!(s.dequeue(), Some(2));
    worker_resolve(
        &mut s,
        2,
        ResultRecord {
            outcome: TaskOutcome::Completed {
                data: task_queue::codex::CodexResult {
                    assistant_msg: "done".to_owned(),
                    generated_zip: String::new(),
                },
            },
            correlation: Correlation::empty(),
        },
    );
    let mut listing = s.list_tasks();
    listing.sort();
    assert_eq!(
        listing,
        vec![
            (1, TaskStatus::Processing),
            (2, TaskStatus::Completed),
            (3, TaskStatus::Pending),
        ]
    );
}

#[test]
fn unknown_job_type_is_resolved_within_one_iteration() {
    let mut s = QueueStore::new();
    let mut reg = HandlerRegistry::new();
    reg.register("codex".to_owned());
    s.enqueue(task(9, "mystery", "{}"));
    let id = s.dequeue().expect("one task is pending");
    assert_eq!(id, 9);
    let loaded = s.get_task(id).expect("payload is stored");
    let fetched = FetchOutcome::Loaded {
        task: Task {
            id: loaded.id,
            enqueued_at: loaded.enqueued_at,
            job_type: loaded.job_type.clone(),
            params: loaded.params.clone(),
        },
    };
    match plan_dispatch(fetched, &reg) {
        DispatchPlan::Resolve { message } => {
            assert_eq!(message, "unknown job type: mystery");
            worker_resolve(&mut s, id, error_record(&message));
        }
        DispatchPlan::Execute { .. } => panic!("an unregistered job type must not dispatch"),
    }
    // resolved and acknowledged: out of processing, reported as error
    assert_eq!(s.get_status(9), TaskStatus::Failed);
    let listing = s.list_tasks();
    assert_eq!(listing, vec![(9, TaskStatus::Failed)]);
    match &s.get_result(9).expect("result record exists").outcome {
        TaskOutcome::Failed { message } => assert_eq!(message, "unknown job type: mystery"),
        TaskOutcome::Completed { .. } => panic!("expected an error outcome"),
    }
}

#[test]
fn fifo_order_under_single_worker() {
    let mut s = QueueStore::new();
    s.enqueue(task(1, "codex", "{}"));
    s.enqueue(task(2, "codex", "{}"));
    // one worker: T1 is claimed, resolved and acknowledged before T2 moves
    let first = s.dequeue().expect("T1 is pending");
    assert_eq!(first, 1);
    assert_eq!(s.get_status(2), TaskStatus::Pending);
    worker_resolve(&mut s, first, error_record("T1 done"));
    let second = s.dequeue().expect("T2 is pending");
    assert_eq!(second, 2);
    assert_eq!(s.get_status(1), TaskStatus::Failed);
    assert_eq!(s.get_status(2), TaskStatus::Processing);
}

#[test]
fn missing_and_corrupt_payloads_are_poison() {
    let reg = HandlerRegistry::new();
    match plan_dispatch(FetchOutcome::Missing, &reg) {
        DispatchPlan::Resolve { message } => assert_eq!(message, "task payload missing"),
        DispatchPlan::Execute { .. } => panic!("a missing payload must not dispatch"),
    }
    match plan_dispatch(FetchOutcome::Corrupt, &reg) {
        DispatchPlan::Resolve { message } => assert_eq!(message, "malformed task payload"),
        DispatchPlan::Execute { .. } => panic!("a corrupt payload must not dispatch"),
    }
}

#[test]
fn task_new_fills_fields() {
    let t = Task::new("codex".to_owned(), "{\"prompt\":\"hi\"}".to_owned());
    assert_eq!(t.job_type, "codex");
    assert_eq!(t.params, "{\"prompt\":\"hi\"}");
    let u = Task::new("codex".to_owned(), "{}".to_owned());
    assert_ne!(t.id, u.id);
}
