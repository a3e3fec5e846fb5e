use vstd::prelude::*;
use crate::text::{dec_digits, dec_int, push_decimal, push_decimal_i64, str_eq};

verus! {

/// The result value of one code-generation invocation: the tool's final
/// textual answer, and the blob-store key of the packaged produced
/// files (empty when no files were produced).
pub struct CodexResult {
    pub assistant_msg: String,
    pub generated_zip: String,
}

/// The parameters a producer supplies for a code-generation task:
/// the free-text prompt, an optional blob-store key of an input bundle
/// to unpack first, and the correlation fields echoed back unchanged.
pub struct CodexParams {
    pub prompt: String,
    pub chat_id: i64,
    pub reply_to_message_id: Option<i64>,
    pub input_zip_key: Option<String>,
}

/// The mathematical shape of `CodexParams`.
pub ghost struct CodexParamsView {
    pub prompt: Seq<char>,
    pub chat_id: i64,
    pub reply_to_message_id: Option<i64>,
    pub input_zip_key: Option<Seq<char>>,
}

impl DeepView for CodexParams {
    type V = CodexParamsView;

    open spec fn deep_view(&self) -> CodexParamsView {
        CodexParamsView {
            prompt: self.prompt@,
            chat_id: self.chat_id,
            reply_to_message_id: self.reply_to_message_id,
            input_zip_key: self.input_zip_key.deep_view(),
        }
    }
}

/// One entry of an event record's content list.
pub struct ContentItem {
    pub kind: String,
    pub text: Option<String>,
}

/// The mathematical shape of `ContentItem`.
pub ghost struct ContentItemView {
    pub kind: Seq<char>,
    pub text: Option<Seq<char>>,
}

impl DeepView for ContentItem {
    type V = ContentItemView;

    open spec fn deep_view(&self) -> ContentItemView {
        ContentItemView { kind: self.kind@, text: self.text.deep_view() }
    }
}

/// One event record of the tool's newline-delimited output: the fields
/// the answer scan reads, each blank when missing from the record.
pub struct Event {
    pub role: String,
    pub kind: String,
    pub status: String,
    pub content: Vec<ContentItem>,
}

/// The mathematical shape of `Event`.
pub ghost struct EventView {
    pub role: Seq<char>,
    pub kind: Seq<char>,
    pub status: Seq<char>,
    pub content: Seq<ContentItemView>,
}

impl DeepView for Event {
    type V = EventView;

    open spec fn deep_view(&self) -> EventView {
        EventView {
            role: self.role@,
            kind: self.kind@,
            status: self.status@,
            content: self.content.deep_view(),
        }
    }
}

/// The event record that one line of the tool's output parses to, or
/// none for a line that is not a JSON object.
pub uninterp spec fn event_of(line: Seq<char>) -> Option<EventView>;

/// The lines of a string, as `str::lines` splits it.
pub uninterp spec fn lines_of(s: Seq<char>) -> Seq<Seq<char>>;

/// Relies on str::lines to split captured output into lines; the result
/// depends on the string alone.
#[verifier::external_body]
fn split_lines(s: &str) -> (r: Vec<String>)
    ensures
        r.deep_view() == lines_of(s@),
{
    s.lines().map(str::to_owned).collect()
}

/// Relies on serde_json::from_str and the serde_json::Value accessors
/// to read one line of the tool's output as a JSON event record, with
/// blank fields for anything missing; the result depends on the line
/// alone.
#[verifier::external_body]
fn parse_event_line(line: &str) -> (ev: Option<Event>)
    ensures
        ev.deep_view() == event_of(line@),
{
    let v: serde_json::Value = match serde_json::from_str(line) { Ok(v) => v, Err(_) => return None };
    let s = |o: &serde_json::Value, k: &str| o.get(k).and_then(serde_json::Value::as_str).unwrap_or("").to_owned();
    let content = v.get("content").and_then(serde_json::Value::as_array).map_or_else(Vec::new, |items| {
        items.iter().map(|c| ContentItem {
            kind: s(c, "type"),
            text: c.get("text").and_then(serde_json::Value::as_str).map(str::to_owned),
        }).collect()
    });
    Some(Event { role: s(&v, "role"), kind: s(&v, "type"), status: s(&v, "status"), content })
}

/// Relies on serde_json::from_str and the serde_json::Value accessors
/// to read the fields of a parameter object, with defaults for anything
/// missing or of the wrong shape; the result depends on the text alone.
#[verifier::external_body]
fn parse_codex_params(params: &str) -> (p: CodexParams)
    ensures
        p.deep_view() == codex_params_of(params@),
{
    let v: serde_json::Value = serde_json::from_str(params).unwrap_or(serde_json::Value::Null);
    CodexParams {
        prompt: v.get("prompt").and_then(serde_json::Value::as_str).unwrap_or("").to_owned(),
        chat_id: v.get("chat_id").and_then(serde_json::Value::as_i64).unwrap_or(0),
        reply_to_message_id: v.get("reply_to_message_id").and_then(serde_json::Value::as_i64),
        input_zip_key: v.get("input_zip_key").and_then(serde_json::Value::as_str).map(
            str::to_owned,
        ),
    }
}

/// The parameter record held in a task's serialized payload.
pub uninterp spec fn codex_params_of(s: Seq<char>) -> CodexParamsView;

/// Read the handler parameters out of a task's payload text.
pub fn prepare_job(params: &String) -> (p: CodexParams)
    ensures
        p.deep_view() == codex_params_of(params@),
{
    parse_codex_params(params.as_str())
}

/// Whether an event record is a completed assistant message, the kind
/// of record that carries the tool's final answer.
pub open spec fn is_answer_event(e: EventView) -> bool {
    &&& e.role == "assistant"@
    &&& e.kind == "message"@
    &&& e.status == "completed"@
}

/// The text of the first content entry of kind "output_text", if that
/// entry has a text field.
pub open spec fn first_output_text(content: Seq<ContentItemView>) -> Option<Seq<char>>
    decreases content.len(),
{
    if content.len() == 0 {
        Option::None
    } else if content[0].kind == "output_text"@ {
        content[0].text
    } else {
        first_output_text(content.drop_first())
    }
}

/// The answer carried by a sequence of event records: the first output
/// text of the last completed assistant message, if any.
pub open spec fn answer_over(events: Seq<EventView>) -> Option<Seq<char>>
    decreases events.len(),
{
    if events.len() == 0 {
        Option::None
    } else if is_answer_event(events.last()) {
        first_output_text(events.last().content)
    } else {
        answer_over(events.drop_last())
    }
}

/// The event records of a sequence of output lines, in order, with the
/// lines that do not parse left out.
pub open spec fn parsed_events(lines: Seq<Seq<char>>) -> Seq<EventView>
    decreases lines.len(),
{
    if lines.len() == 0 {
        Seq::empty()
    } else {
        parsed_events(lines.drop_last()) + (match event_of(lines.last()) {
            Option::Some(e) => seq![e],
            Option::None => Seq::empty(),
        })
    }
}

/// The answer carried by the tool's raw output lines.
pub open spec fn answer_in(lines: Seq<Seq<char>>) -> Option<Seq<char>> {
    answer_over(parsed_events(lines))
}

/// The final answer text reported for a tool run: the extracted answer,
/// or a sentinel when the output carries none.
pub open spec fn spec_assistant_message(s: Seq<char>) -> Seq<char> {
    match answer_in(lines_of(s)) {
        Option::Some(t) => t,
        Option::None => "<no answer>"@,
    }
}

/// Whether an event record is a completed assistant message.
pub fn event_is_final_answer(e: &Event) -> (r: bool)
    ensures
        r == is_answer_event(e.deep_view()),
{
    str_eq(e.role.as_str(), "assistant") && str_eq(e.kind.as_str(), "message") && str_eq(
        e.status.as_str(),
        "completed",
    )
}

/// The text of the first content entry of kind "output_text", if that
/// entry has a text field.
pub fn content_answer_text(content: &Vec<ContentItem>) -> (r: Option<String>)
    ensures
        r.deep_view() == first_output_text(content.deep_view()),
{
    let ghost cv = content.deep_view();
    proof {
        assert(cv.skip(0) =~= cv);
    }
    let mut i: usize = 0;
    while i < content.len()
        invariant
            i <= content@.len(),
            cv == content.deep_view(),
            cv.len() == content@.len(),
            first_output_text(cv) == first_output_text(cv.skip(i as int)),
        decreases content@.len() - i,
    {
        let hit = str_eq(content[i].kind.as_str(), "output_text");
        proof {
            assert(cv.skip(i as int).len() > 0);
            assert(cv.skip(i as int)[0] == cv[i as int]);
            assert(cv[i as int] == content@[i as int].deep_view());
        }
        if hit {
            proof {
                assert(first_output_text(cv.skip(i as int)) == cv[i as int].text);
            }
            let r = match &content[i].text {
                Option::Some(t) => Option::Some(t.clone()),
                Option::None => Option::None,
            };
            return r;
        }
        proof {
            assert(cv.skip(i as int).drop_first() =~= cv.skip(i as int + 1));
        }
        i += 1;
    }
    proof {
        assert(cv.skip(cv.len() as int).len() == 0);
    }
    Option::None
}

/// Scan parsed event records for the final answer: the first output
/// text of the last completed assistant message.
pub fn answer_from_events(events: &Vec<Event>) -> (r: Option<String>)
    ensures
        r.deep_view() == answer_over(events.deep_view()),
{
    let ghost ev = events.deep_view();
    let mut ans: Option<String> = Option::None;
    let mut i: usize = 0;
    while i < events.len()
        invariant
            i <= events@.len(),
            ev == events.deep_view(),
            ev.len() == events@.len(),
            ans.deep_view() == answer_over(ev.take(i as int)),
        decreases events@.len() - i,
    {
        let matched = event_is_final_answer(&events[i]);
        proof {
            assert(ev.take(i as int + 1).last() == ev[i as int]);
            assert(ev.take(i as int + 1).drop_last() =~= ev.take(i as int));
            assert(ev[i as int] == events@[i as int].deep_view());
        }
        if matched {
            ans = content_answer_text(&events[i].content);
            proof {
                assert(events@[i as int].deep_view().content == events@[i as int]
                    .content
                    .deep_view());
                assert(answer_over(ev.take(i as int + 1)) == first_output_text(
                    ev[i as int].content,
                ));
            }
        } else {
            proof {
                assert(answer_over(ev.take(i as int + 1)) == answer_over(ev.take(i as int)));
            }
        }
        i += 1;
    }
    proof {
        assert(ev.take(ev.len() as int) =~= ev);
    }
    ans
}

/// Extract the tool's final answer from its captured output: parse each
/// line as a JSON event record, ignoring lines that do not parse, and
/// scan for the last completed assistant message.
pub fn extract_assistant_message(stdout: &str) -> (r: Option<String>)
    ensures
        r.deep_view() == answer_in(lines_of(stdout@)),
{
    let lines = split_lines(stdout);
    let ghost lv = lines.deep_view();
    let mut events: Vec<Event> = Vec::new();
    let mut i: usize = 0;
    while i < lines.len()
        invariant
            i <= lines@.len(),
            lv == lines.deep_view(),
            lv == lines_of(stdout@),
            lv.len() == lines@.len(),
            events.deep_view() == parsed_events(lv.take(i as int)),
        decreases lines@.len() - i,
    {
        let ghost pre_events = events.deep_view();
        let ev = parse_event_line(lines[i].as_str());
        let ghost evv = ev.deep_view();
        proof {
            assert(lines@[i as int].deep_view() == lv[i as int]);
            assert(evv == event_of(lv[i as int]));
            assert(lv.take(i as int + 1).last() == lv[i as int]);
            assert(lv.take(i as int + 1).drop_last() =~= lv.take(i as int));
        }
        match ev {
            Option::Some(e) => {
                events.push(e);
                proof {
                    assert(events.deep_view() =~= pre_events + seq![evv->0]);
                    assert(parsed_events(lv.take(i as int + 1)) == parsed_events(
                        lv.take(i as int),
                    ) + seq![evv->0]);
                }
            },
            Option::None => {
                proof {
                    assert(parsed_events(lv.take(i as int + 1)) =~= parsed_events(
                        lv.take(i as int),
                    ));
                }
            },
        }
        i += 1;
    }
    proof {
        assert(lv.take(lv.len() as int) =~= lv);
    }
    answer_from_events(&events)
}

/// The tool's final answer, with the sentinel fallback when the output
/// carries none.
pub fn assistant_message(stdout: &str) -> (r: String)
    ensures
        r@ == spec_assistant_message(stdout@),
{
    match extract_assistant_message(stdout) {
        Option::Some(t) => t,
        Option::None => "<no answer>".to_owned(),
    }
}

/// The blob-store key under which the packaged files of one task are
/// uploaded.
pub open spec fn spec_artifact_key(id: u128) -> Seq<char> {
    "codex/"@ + dec_digits(id as nat) + ".zip"@
}

/// Build the task-scoped blob-store key for the packaged files.
pub fn artifact_key(id: u128) -> (k: String)
    ensures
        k@ == spec_artifact_key(id),
{
    let mut k = "codex/".to_owned();
    push_decimal(id, &mut k);
    k.append(".zip");
    k
}

/// The error text for a tool run that exited without success: the exit
/// code (or a note that a signal ended the process) and the captured
/// standard error text.
pub open spec fn spec_failure_message(code: Option<i64>, stderr: Seq<char>) -> Seq<char> {
    match code {
        Option::Some(c) => "codex failed with exit code "@ + dec_int(c as int) + ": "@ + stderr,
        Option::None => "codex terminated by a signal: "@ + stderr,
    }
}

/// Build the error text for a tool run that exited without success.
pub fn failure_message(code: Option<i64>, stderr: &str) -> (r: String)
    ensures
        r@ == spec_failure_message(code, stderr@),
{
    match code {
        Option::Some(c) => {
            let mut m = "codex failed with exit code ".to_owned();
            push_decimal_i64(c, &mut m);
            m.append(": ");
            m.append(stderr);
            proof {
                assert(m@ =~= spec_failure_message(code, stderr@));
            }
            m
        },
        Option::None => {
            let mut m = "codex terminated by a signal: ".to_owned();
            m.append(stderr);
            m
        },
    }
}

/// Combine the extracted assistant text with the artifact upload
/// outcome: no produced files means an empty artifact reference, and a
/// failed upload fails the whole invocation.
pub fn assemble_run_result(assistant_msg: String, upload: Option<Result<String, String>>) -> (r:
    Result<CodexResult, String>)
    ensures
        match upload {
            Option::None => r matches Result::Ok(c) && c.assistant_msg == assistant_msg
                && c.generated_zip@ == Seq::<char>::empty(),
            Option::Some(Result::Ok(key)) => r matches Result::Ok(c) && c.assistant_msg
                == assistant_msg && c.generated_zip == key,
            Option::Some(Result::Err(e)) => r matches Result::Err(m) && m == e,
        },
{
    match upload {
        Option::None => Result::Ok(
            CodexResult { assistant_msg, generated_zip: String::new() },
        ),
        Option::Some(Result::Ok(key)) => Result::Ok(
            CodexResult { assistant_msg, generated_zip: key },
        ),
        Option::Some(Result::Err(e)) => Result::Err(e),
    }
}

} // verus!
