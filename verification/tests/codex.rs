use task_queue::codex::{
    artifact_key, assemble_run_result, assistant_message, answer_from_events, content_answer_text,
    extract_assistant_message, failure_message, prepare_job, ContentItem, Event,
};
use task_queue::store::{QueueStore, TaskOutcome, TaskStatus};
use task_queue::task::{Correlation, Task};
use task_queue::worker::{
    finish_job, plan_dispatch, worker_resolve, DispatchPlan, FetchOutcome, HandlerRegistry,
};

fn answer_record(text: &str) -> String {
    format!(
        "{{\"role\":\"assistant\",\"type\":\"message\",\"status\":\"completed\",\
         \"content\":[{{\"type\":\"output_text\",\"text\":\"{}\"}}]}}",
        text
    )
}

#[test]
fn extracts_the_answer_from_tool_output() {
    let stdout = format!(
        "{{\"type\":\"task_started\"}}\n\
         not json at all\n\
         {}\n",
        answer_record("hi there")
    );
    assert_eq!(extract_assistant_message(&stdout), Some("hi there".to_owned()));
}

#[test]
fn last_completed_assistant_message_wins() {
    let stdout = format!("{}\n{}\n", answer_record("first"), answer_record("second"));
    assert_eq!(extract_assistant_message(&stdout), Some("second".to_owned()));
}

#[test]
fn incomplete_or_foreign_records_are_skipped() {
    let stdout = format!(
        "{{\"role\":\"assistant\",\"type\":\"message\",\"status\":\"in_progress\",\
         \"content\":[{{\"type\":\"output_text\",\"text\":\"draft\"}}]}}\n\
         {{\"role\":\"user\",\"type\":\"message\",\"status\":\"completed\",\
         \"content\":[{{\"type\":\"output_text\",\"text\":\"question\"}}]}}\n\
         {}\n",
        answer_record("final")
    );
    assert_eq!(extract_assistant_message(&stdout), Some("final".to_owned()));
}

#[test]
fn first_output_text_entry_is_taken() {
    let stdout = "{\"role\":\"assistant\",\"type\":\"message\",\"status\":\"completed\",\
         \"content\":[{\"type\":\"reasoning\",\"text\":\"thinking\"},\
         {\"type\":\"output_text\",\"text\":\"answer\"},\
         {\"type\":\"output_text\",\"text\":\"later\"}]}";
    assert_eq!(extract_assistant_message(stdout), Some("answer".to_owned()));
}

#[test]
fn no_answer_falls_back_to_sentinel() {
    assert_eq!(extract_assistant_message(""), None);
    assert_eq!(extract_assistant_message("{\"type\":\"noise\"}\n"), None);
    assert_eq!(assistant_message("{\"type\":\"noise\"}\n"), "<no answer>");
    assert_eq!(assistant_message(&answer_record("yes")), "yes");
}

#[test]
fn answer_scan_over_built_events() {
    let matching = Event {
        role: "assistant".to_owned(),
        kind: "message".to_owned(),
        status: "completed".to_owned(),
        content: vec![ContentItem {
            kind: "output_text".to_owned(),
            text: Some("built".to_owned()),
        }],
    };
    let other = Event {
        role: "assistant".to_owned(),
        kind: "reasoning".to_owned(),
        status: "completed".to_owned(),
        content: vec![],
    };
    let events = vec![other, matching];
    assert_eq!(answer_from_events(&events), Some("built".to_owned()));

    let content = vec![
        ContentItem { kind: "reasoning".to_owned(), text: Some("skip".to_owned()) },
        ContentItem { kind: "output_text".to_owned(), text: None },
    ];
    assert_eq!(content_answer_text(&content), None);
}

#[test]
fn artifact_key_renders_the_task_id() {
    assert_eq!(artifact_key(123), "codex/123.zip");
    assert_eq!(artifact_key(0), "codex/0.zip");
    assert_eq!(
        artifact_key(340282366920938463463374607431768211455),
        "codex/340282366920938463463374607431768211455.zip"
    );
}

#[test]
fn failure_message_carries_code_and_stderr() {
    assert_eq!(
        failure_message(Some(2), "no such tool"),
        "codex failed with exit code 2: no such tool"
    );
    assert_eq!(
        failure_message(Some(-7), "killed"),
        "codex failed with exit code -7: killed"
    );
    assert_eq!(
        failure_message(None, "interrupted"),
        "codex terminated by a signal: interrupted"
    );
}

#[test]
fn params_are_read_with_defaults() {
    let p = prepare_job(
        &"{\"prompt\":\"echo hi\",\"chat_id\":42,\"reply_to_message_id\":7,\
           \"input_zip_key\":\"in/bundle.zip\"}"
            .to_owned(),
    );
    assert_eq!(p.prompt, "echo hi");
    assert_eq!(p.chat_id, 42);
    assert_eq!(p.reply_to_message_id, Some(7));
    assert_eq!(p.input_zip_key, Some("in/bundle.zip".to_owned()));

    let d = prepare_job(&"{}".to_owned());
    assert_eq!(d.prompt, "");
    assert_eq!(d.chat_id, 0);
    assert_eq!(d.reply_to_message_id, None);
    assert_eq!(d.input_zip_key, None);

    let junk = prepare_job(&"not json".to_owned());
    assert_eq!(junk.prompt, "");
}

#[test]
fn run_with_no_files_has_empty_artifact_reference() {
    // the tool answered and produced no files: nothing is uploaded
    let stdout = format!("{}\n", answer_record("echo hi output"));
    let msg = assistant_message(&stdout);
    assert!(!msg.is_empty());
    let result = assemble_run_result(msg, None).expect("no upload can not fail");
    assert_eq!(result.assistant_msg, "echo hi output");
    assert_eq!(result.generated_zip, "");
}

#[test]
fn run_with_files_records_the_uploaded_key() {
    let key = artifact_key(5);
    let result =
        assemble_run_result("made files".to_owned(), Some(Ok(key))).expect("upload succeeded");
    assert_eq!(result.generated_zip, "codex/5.zip");
}

#[test]
fn failed_upload_fails_the_invocation() {
    let r = assemble_run_result("text".to_owned(), Some(Err("blob store unreachable".to_owned())));
    assert_eq!(r.err(), Some("blob store unreachable".to_owned()));
}

#[test]
fn finish_job_wraps_outcomes() {
    let correlation = Correlation { chat_id: 9, reply_to_message_id: Some(3) };
    let ok = finish_job(
        Ok(task_queue::codex::CodexResult {
            assistant_msg: "done".to_owned(),
            generated_zip: String::new(),
        }),
        correlation,
    );
    assert_eq!(ok.correlation.chat_id, 9);
    assert_eq!(ok.correlation.reply_to_message_id, Some(3));
    match ok.outcome {
        TaskOutcome::Completed { data } => assert_eq!(data.assistant_msg, "done"),
        TaskOutcome::Failed { .. } => panic!("expected a completed outcome"),
    }
    let err = finish_job(Err("boom".to_owned()), Correlation::empty());
    match err.outcome {
        TaskOutcome::Failed { message } => assert_eq!(message, "boom"),
        TaskOutcome::Completed { .. } => panic!("expected a failed outcome"),
    }
}

#[test]
fn codex_scenario_through_the_store() {
    let mut store = QueueStore::new();
    let mut registry = HandlerRegistry::new();
    registry.register("codex-run".to_owned());

    store.enqueue(Task {
        id: 11,
        enqueued_at: 0,
        job_type: "codex-run".to_owned(),
        params: "{\"prompt\":\"echo hi\"}".to_owned(),
    });
    let id = store.dequeue().expect("one task is pending");
    let loaded = store.get_task(id).expect("payload is stored");
    let fetched = FetchOutcome::Loaded {
        task: Task {
            id: loaded.id,
            enqueued_at: loaded.enqueued_at,
            job_type: loaded.job_type.clone(),
            params: loaded.params.clone(),
        },
    };
    let task = match plan_dispatch(fetched, &registry) {
        DispatchPlan::Execute { task } => task,
        DispatchPlan::Resolve { .. } => panic!("the job type is registered"),
    };
    let p = prepare_job(&task.params);
    assert_eq!(p.prompt, "echo hi");

    // the tool answers and produces no files
    let stdout = format!("{}\n", answer_record("hi"));
    let msg = assistant_message(&stdout);
    let outcome = assemble_run_result(msg, None);
    let record = finish_job(
        outcome,
        Correlation { chat_id: p.chat_id, reply_to_message_id: p.reply_to_message_id },
    );
    worker_resolve(&mut store, id, record);

    assert_eq!(store.get_status(11), TaskStatus::Completed);
    match &store.get_result(11).expect("result record exists").outcome {
        TaskOutcome::Completed { data } => {
            assert!(!data.assistant_msg.is_empty());
            assert_eq!(data.generated_zip, "");
        }
        TaskOutcome::Failed { .. } => panic!("expected a completed outcome"),
    }
}
