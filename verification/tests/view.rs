//! What a session looks like on the wire.

use ilar_tui::format::{bound, MAX_DETAIL_CHARS};
use ilar_tui::serve::json::Json;
use ilar_tui::serve::view::{
    effective_model, has_invocation, invocation_slice, project_block, project_event,
    project_live_delta, project_page, project_tool_call, usage_totals, LiveDelta,
    QUESTION_TOOL_NAME,
};
use ilar_tui::session::event::{
    ContentBlock, ImageContent, Moment, SessionEvent, SessionMeta, TaskInput, ToolInput, Usage,
};
use ilar_tui::transcript::model::{DiffKind, DiffLine};

const DETAIL_TRUNCATED: &str = "\n… output truncated";

fn bounded_detail(text: &str) -> String {
    bound(text, MAX_DETAIL_CHARS)
}

fn ts() -> Moment {
    Moment { seconds: 1_700_000_000, nanos: 0 }
}

fn text(value: &str) -> Json {
    Json::Text(value.to_string())
}

fn at<'a>(value: &'a Json, key: &str) -> &'a Json {
    value.get(key).unwrap_or(&Json::Null)
}

fn items(value: &Json) -> &[Json] {
    match value {
        Json::Array(items) => items,
        other => panic!("no list: {other:?}"),
    }
}

/// An object with these entries and no others, in any order.
fn is_object(value: &Json, entries: &[(&str, Json)]) -> bool {
    match value {
        Json::Object(found) => {
            found.len() == entries.len()
                && entries.iter().all(|(key, entry)| value.get(key) == Some(entry))
        }
        _ => false,
    }
}

fn meta(model: &str, context_limit: Option<u64>) -> SessionEvent {
    SessionEvent::Meta {
        meta: SessionMeta {
            session_id: "session-1".to_string(),
            parent_id: None,
            agent: "build".to_string(),
            model: model.to_string(),
            cwd: None,
            context_limit,
        },
        ts: ts(),
    }
}

fn png(bytes: u64) -> ImageContent {
    ImageContent {
        media_type: "image/png".to_string(),
        data: "QUJDREVGR0g=".to_string(),
        bytes,
    }
}

fn user(said: &str, markers: &str, images: Vec<ImageContent>) -> SessionEvent {
    SessionEvent::UserMessage {
        id: "user-1".to_string(),
        text: said.to_string(),
        markers: markers.to_string(),
        images,
        ts: ts(),
    }
}

fn tool_result(of: &str, content: &str, markers: &str, images: Vec<ImageContent>) -> SessionEvent {
    SessionEvent::ToolResult {
        id: "result-1".to_string(),
        tool_use_id: of.to_string(),
        content: content.to_string(),
        redacted: content.to_string(),
        is_error: false,
        markers: markers.to_string(),
        images,
        child_session_id: None,
        ts: ts(),
    }
}

fn invocation(call: &str) -> SessionEvent {
    SessionEvent::SubagentInvocation {
        id: "invocation-1".to_string(),
        parent_tool_call_id: call.to_string(),
        ts: ts(),
    }
}

fn assistant(model: &str, content: Vec<ContentBlock>, usage: Usage, priced: bool) -> SessionEvent {
    SessionEvent::AssistantMessage {
        id: "message-1".to_string(),
        model: model.to_string(),
        content,
        usage,
        context_tokens: 0,
        priced,
        stop_reason: "end_turn".to_string(),
        ts: ts(),
    }
}

fn usage(input: u64, output: u64, cache_read: u64, cache_creation: u64) -> Usage {
    Usage {
        input_tokens: input,
        output_tokens: output,
        cache_read_input_tokens: cache_read,
        cache_creation_input_tokens: cache_creation,
    }
}

fn input(summary: &str, detail: &str) -> ToolInput {
    ToolInput {
        task: None,
        summary: summary.to_string(),
        detail: detail.to_string(),
        diff: Vec::new(),
        content: None,
    }
}

fn call(id: &str, name: &str) -> ContentBlock {
    ContentBlock::ToolCall { id: id.to_string(), name: name.to_string(), input: input("", "") }
}

#[test]
fn a_turn_error_reaches_the_page_and_raw_thinking_never_does() {
    let event = assistant(
        "zai/glm-4.7",
        vec![
            ContentBlock::Diagnostic {
                text: "chain of thought nobody asked for".to_string(),
                turn_error: false,
            },
            ContentBlock::Diagnostic {
                text: "turn error: provider exploded".to_string(),
                turn_error: true,
            },
        ],
        usage(1, 1, 0, 0),
        true,
    );

    let projected = project_event(&event);
    let content = items(at(&projected, "content"));

    assert_eq!(content.len(), 1, "{content:?}");
    assert_eq!(at(&content[0], "type"), &text("diagnostic"));
    assert_eq!(at(&content[0], "text"), &text("turn error: provider exploded"));
    assert!(
        !format!("{projected:?}").contains("nobody asked for"),
        "raw thinking left the process: {projected:?}"
    );
}

#[test]
fn an_image_bearing_tool_result_projects_the_markers_the_tui_renders() {
    let jpeg = ImageContent {
        media_type: "image/jpeg".to_string(),
        data: "WFlaWFla".to_string(),
        bytes: 900,
    };
    let markers = "\n[image: image/png, 12.3 KiB]\n[image: image/jpeg, 900 B]";
    let value = project_event(&tool_result(
        "read-1",
        "shot.png: 640x480",
        markers,
        vec![png(12_600), jpeg],
    ));

    assert_eq!(at(&value, "type"), &text("tool_result"));
    assert_eq!(at(&value, "tool_use_id"), &text("read-1"));
    assert_eq!(at(&value, "text"), &text(&format!("shot.png: 640x480{markers}")));
    assert_eq!(at(&value, "truncated"), &Json::Bool(false));
    let images = items(at(&value, "images"));
    assert_eq!(images.len(), 2);
    assert!(is_object(
        &images[0],
        &[
            ("n", Json::Number(0)),
            ("media_type", text("image/png")),
            ("bytes", Json::Number(12_600)),
        ]
    ));
    assert!(is_object(
        &images[1],
        &[
            ("n", Json::Number(1)),
            ("media_type", text("image/jpeg")),
            ("bytes", Json::Number(900)),
        ]
    ));
    // The payload never rides along.
    assert!(!format!("{value:?}").contains("QUJDREVGR0g="));
}

#[test]
fn a_user_message_carries_attachment_markers_and_descriptors() {
    let markers = "\n[attached: image/png, 12.3 KiB]";
    let value = project_event(&user("look at this", markers, vec![png(12_600)]));

    assert_eq!(at(&value, "type"), &text("user_message"));
    assert_eq!(at(&value, "text"), &text(&format!("look at this{markers}")));
    let images = items(at(&value, "images"));
    assert_eq!(images.len(), 1);
    assert!(is_object(
        &images[0],
        &[
            ("n", Json::Number(0)),
            ("media_type", text("image/png")),
            ("bytes", Json::Number(12_600)),
        ]
    ));
}

#[test]
fn an_over_cap_tool_result_is_bounded_and_flagged_truncated() {
    let raw = "x".repeat(MAX_DETAIL_CHARS * 2);
    let value = project_event(&tool_result("bash-1", &raw, "", Vec::new()));

    assert_eq!(at(&value, "text"), &text(&bounded_detail(&raw)));
    assert_eq!(at(&value, "truncated"), &Json::Bool(true));
    let Json::Text(shown) = at(&value, "text") else {
        panic!("no text");
    };
    assert_eq!(shown.chars().count(), MAX_DETAIL_CHARS);
    assert!(shown.ends_with(DETAIL_TRUNCATED));

    // At the cap exactly, nothing was cut.
    let exact = "y".repeat(MAX_DETAIL_CHARS);
    let value = project_event(&tool_result("bash-2", &exact, "", Vec::new()));
    assert_eq!(at(&value, "text"), &text(&exact));
    assert_eq!(at(&value, "truncated"), &Json::Bool(false));
}

#[test]
fn markers_are_bounded_with_the_text_they_follow() {
    let markers = "\n[image: image/png, 12.3 KiB]";
    let raw = "z".repeat(MAX_DETAIL_CHARS * 2);
    let value = project_event(&tool_result("bash-3", &raw, markers, vec![png(12_600)]));
    assert_eq!(
        at(&value, "text"),
        &text(&bounded_detail(&format!("{raw}{markers}")))
    );
    // Descriptors survive the cut even when the markers did not.
    assert_eq!(items(at(&value, "images")).len(), 1);
}

#[test]
fn tool_calls_are_summarized_by_the_core_helpers() {
    let task = ToolInput {
        task: Some(TaskInput {
            description: "Review restored security paths".to_string(),
            agent: "build · secure".to_string(),
            model: None,
        }),
        ..input("", "{\n  \"description\": \"Review restored security paths\"\n}")
    };
    let value = project_event(&assistant(
        "zai/glm-4.7",
        vec![
            ContentBlock::Text { text: "on it".to_string() },
            ContentBlock::Thinking { text: "hidden thought".to_string() },
            ContentBlock::ReasoningSummary { text: "**Planning**".to_string(), completed: true },
            ContentBlock::ReasoningSummary { text: "half a thought".to_string(), completed: false },
            ContentBlock::ToolCall {
                id: "read-1".to_string(),
                name: "read".to_string(),
                input: input("src/lib.rs:10", "{\n  \"path\": \"src/lib.rs\"\n}"),
            },
            ContentBlock::ToolCall {
                id: "task-1".to_string(),
                name: "task".to_string(),
                input: task,
            },
        ],
        usage(1, 2, 3, 4),
        true,
    ));

    assert_eq!(at(&value, "type"), &text("assistant_message"));
    assert_eq!(at(&value, "model"), &text("zai/glm-4.7"));
    assert!(is_object(
        at(&value, "usage"),
        &[
            ("input", Json::Number(1)),
            ("output", Json::Number(2)),
            ("cache_read", Json::Number(3)),
            ("cache_creation", Json::Number(4)),
        ]
    ));
    let content = items(at(&value, "content"));
    // Thinking and an incomplete summary never reach a surface.
    assert_eq!(content.len(), 4);
    assert!(is_object(
        &content[0],
        &[("type", text("text")), ("text", text("on it"))]
    ));
    assert!(is_object(
        &content[1],
        &[("type", text("reasoning_summary")), ("text", text("**Planning**"))]
    ));
    assert!(is_object(
        &content[2],
        &[
            ("type", text("tool_call")),
            ("id", text("read-1")),
            ("name", text("read")),
            ("summary", text("src/lib.rs:10")),
            ("detail", text("{\n  \"path\": \"src/lib.rs\"\n}")),
            ("agent", Json::Null),
            ("state", text("running")),
            ("diff", Json::Null),
        ]
    ));
    assert_eq!(at(&content[3], "summary"), &text("Review restored security paths"));
    assert!(is_object(
        at(&content[3], "agent"),
        &[("name", text("build · secure")), ("model", Json::Null)]
    ));
    assert_eq!(at(&content[3], "state"), &text("running"));
    let whole = format!("{value:?}");
    assert!(!whole.contains("hidden thought"));
    assert!(!whole.contains("half a thought"));
}

#[test]
fn a_meta_line_carries_the_context_limit_the_catalog_knows() {
    let known = project_event(&meta("zai/glm-4.7", Some(73_728)));
    assert_eq!(at(&known, "context_limit"), &Json::Number(73_728));

    // A model that nobody knows gets no denominator, and the key is still there.
    let unknown = project_event(&meta("nobody/nothing", None));
    assert_eq!(unknown.get("context_limit"), Some(&Json::Null));
}

#[test]
fn every_canonical_event_projects_in_file_order() {
    let id = || "event".to_string();
    let events = vec![
        meta("zai/glm-4.7", Some(73_728)),
        user("hi", "", Vec::new()),
        invocation("task-1"),
        assistant("zai/glm-4.7", Vec::new(), Usage::none(), true),
        tool_result("read-1", "ok", "", Vec::new()),
        SessionEvent::Checkpoint { id: id(), ts: ts() },
        SessionEvent::ModelChange {
            id: id(),
            model: "openai/gpt-5.6-sol".to_string(),
            variant: Some("high".to_string()),
            ts: ts(),
        },
        SessionEvent::Compaction {
            id: id(),
            summary: "kept decisions".to_string(),
            kept_from: 3,
            ts: ts(),
        },
        SessionEvent::Topic { id: id(), text: "serve".to_string(), ts: ts() },
        SessionEvent::Rewind { id: id(), to: 1, ts: ts() },
    ];
    let projected: Vec<Json> = events.iter().map(project_event).collect();
    assert_eq!(projected.len(), events.len());
    let types = [
        "meta",
        "user_message",
        "subagent_invocation",
        "assistant_message",
        "tool_result",
        "checkpoint",
        "model_change",
        "compaction",
        "topic",
        "rewind",
    ];
    for (value, name) in projected.iter().zip(types) {
        assert_eq!(at(value, "type"), &text(name));
    }
    assert_eq!(at(&projected[0], "model"), &text("zai/glm-4.7"));
    assert_eq!(at(&projected[0], "agent"), &text("build"));
    assert_eq!(at(&projected[2], "parent_tool_call_id"), &text("task-1"));
    assert_eq!(at(&projected[6], "variant"), &text("high"));
    assert_eq!(at(&projected[7], "kept_from"), &Json::Number(3));
    assert_eq!(at(&projected[9], "to"), &Json::Number(1));
    // Every event carries a timestamp the client can render.
    for value in &projected {
        assert_eq!(at(value, "ts"), &text("2023-11-14T22:13:20+00:00"));
    }
}

#[test]
fn live_deltas_project_with_the_core_spelling() {
    let s = |value: &str| value.to_string();
    let turn = project_live_delta(&LiveDelta::TurnStarted { turn: s("turn-1"), step: 2 });
    assert!(is_object(
        &turn,
        &[("type", text("turn_started")), ("turn", text("turn-1")), ("step", Json::Number(2))]
    ));
    let said = project_live_delta(&LiveDelta::TextDelta { text: s("on it") });
    assert!(is_object(&said, &[("type", text("text_delta")), ("text", text("on it"))]));
    let thought = project_live_delta(&LiveDelta::ThinkingDelta { text: s("**Planning**") });
    assert!(is_object(
        &thought,
        &[("type", text("thinking_delta")), ("text", text("**Planning**"))]
    ));
    let pause = project_live_delta(&LiveDelta::ThinkingBreak);
    assert!(is_object(&pause, &[("type", text("thinking_break"))]));
    let started = project_live_delta(&LiveDelta::ToolStarted {
        id: s("bash-1"),
        name: s("bash"),
        summary: s("cargo test"),
    });
    assert!(is_object(
        &started,
        &[
            ("type", text("tool_started")),
            ("id", text("bash-1")),
            ("name", text("bash")),
            ("summary", text("cargo test")),
        ]
    ));
    let finished = project_live_delta(&LiveDelta::ToolFinished { id: s("bash-1"), ok: true });
    assert!(is_object(
        &finished,
        &[("type", text("tool_finished")), ("id", text("bash-1")), ("ok", Json::Bool(true))]
    ));
}

#[test]
fn an_invocation_slice_ends_at_the_next_invocation() {
    let events = vec![
        meta("zai/glm-4.7", None),
        invocation("task-1"),
        user("first request", "", Vec::new()),
        assistant("zai/glm-4.7", Vec::new(), Usage::none(), true),
        invocation("task-2"),
        user("second request", "", Vec::new()),
    ];
    let slice = invocation_slice(&events, "task-1");
    assert_eq!(slice.len(), 2);
    assert!(matches!(
        &slice[0],
        SessionEvent::UserMessage { text, .. } if text == "first request"
    ));
    assert!(matches!(&slice[1], SessionEvent::AssistantMessage { .. }));

    // The last invocation runs to the end of the log.
    let tail = invocation_slice(&events, "task-2");
    assert_eq!(tail.len(), 1);
    assert!(matches!(
        &tail[0],
        SessionEvent::UserMessage { text, .. } if text == "second request"
    ));
}

#[test]
fn an_unknown_invocation_yields_nothing() {
    let events = vec![meta("zai/glm-4.7", None), invocation("task-1"), user("x", "", vec![])];
    assert!(invocation_slice(&events, "task-missing").is_empty());
    assert!(invocation_slice(&vec![], "task-1").is_empty());
}

#[test]
fn usage_totals_accumulate_tokens_and_dollars_for_a_priced_model() {
    let events = vec![
        meta("zai/glm-4.7", None),
        assistant("zai/glm-4.7", Vec::new(), usage(1_000_000, 0, 0, 0), true),
        assistant("zai/glm-4.7", Vec::new(), usage(0, 500_000, 2_000_000, 1_000_000), true),
    ];
    let (totals, priced) = usage_totals(&events, false);
    assert_eq!(at(&totals, "input"), &Json::Number(1_000_000));
    assert_eq!(at(&totals, "output"), &Json::Number(500_000));
    assert_eq!(at(&totals, "cache_read"), &Json::Number(2_000_000));
    assert_eq!(at(&totals, "cache_creation"), &Json::Number(1_000_000));
    // Every step has a price, so a sum in dollars is owed.
    assert!(priced);
    assert_eq!(totals.get("plan"), None);
}

#[test]
fn usage_totals_report_the_plan_for_a_plan_billed_model() {
    let events = vec![
        meta("zai/glm-5.3", None),
        assistant("zai/glm-5.3", Vec::new(), usage(120, 30, 40, 0), false),
        assistant("zai/glm-5.3", Vec::new(), usage(80, 20, 10, 5), false),
    ];
    let (totals, priced) = usage_totals(&events, true);
    assert_eq!(at(&totals, "input"), &Json::Number(200));
    assert_eq!(at(&totals, "output"), &Json::Number(50));
    assert_eq!(at(&totals, "cache_read"), &Json::Number(50));
    assert_eq!(at(&totals, "cache_creation"), &Json::Number(5));
    assert_eq!(at(&totals, "plan"), &Json::Bool(true));
    assert!(!priced);
    assert_eq!(totals.get("cost_dollars"), None);

    // An unpriced model that is not plan-billed gets neither key.
    let unknown = vec![
        meta("custom/unknown", None),
        assistant("custom/unknown", Vec::new(), usage(1, 1, 0, 0), false),
    ];
    let (totals, priced) = usage_totals(&unknown, false);
    assert_eq!(at(&totals, "input"), &Json::Number(1));
    assert!(!priced);
    assert_eq!(totals.get("plan"), None);

    // A runtime switch decides which model the header bills against.
    let switched = vec![
        meta("zai/glm-4.7", None),
        SessionEvent::ModelChange {
            id: "m".to_string(),
            model: "zai/glm-5.3".to_string(),
            variant: None,
            ts: ts(),
        },
        assistant("zai/glm-5.3", Vec::new(), usage(10, 10, 0, 0), false),
    ];
    assert_eq!(effective_model(&switched), "zai/glm-5.3");
    assert_eq!(at(&usage_totals(&switched, true).0, "plan"), &Json::Bool(true));
}

fn states(projected: &[Json]) -> Vec<(String, Json)> {
    let mut found = Vec::new();
    for value in projected {
        if at(value, "type") != &text("assistant_message") {
            continue;
        }
        for block in items(at(value, "content")) {
            if at(block, "type") != &text("tool_call") {
                continue;
            }
            let Json::Text(id) = at(block, "id") else {
                panic!("no id");
            };
            let state = match at(block, "state") {
                Json::Text(state) => text(state),
                _ => Json::Null,
            };
            found.push((id.clone(), state));
        }
    }
    found
}

#[test]
fn an_unanswered_call_is_failed_unless_the_session_is_live() {
    let events = vec![
        meta("zai/glm-4.7", None),
        assistant(
            "zai/glm-4.7",
            vec![call("read-1", "read"), call("bash-1", "bash")],
            Usage::none(),
            true,
        ),
        tool_result("read-1", "ok", "", Vec::new()),
    ];

    assert_eq!(
        states(&project_page(&events, &events, false)),
        vec![
            ("read-1".to_string(), Json::Null),
            ("bash-1".to_string(), text("failed")),
        ]
    );
    assert_eq!(
        states(&project_page(&events, &events, true)),
        vec![
            ("read-1".to_string(), Json::Null),
            ("bash-1".to_string(), text("running")),
        ],
        "a turn is running it right now"
    );
    // One event on its own cannot know.
    assert_eq!(
        at(&items(at(&project_event(&events[1]), "content"))[1], "state"),
        &text("running")
    );
}

#[test]
fn a_page_settles_its_calls_against_the_whole_session() {
    let events = vec![
        meta("zai/glm-4.7", None),
        assistant("zai/glm-4.7", vec![call("read-1", "read")], Usage::none(), true),
        tool_result("read-1", "ok", "", Vec::new()),
    ];
    // The page holds the call but not the result that follows it.
    let page = project_page(&events, &events[..2], false);
    assert_eq!(states(&page), vec![("read-1".to_string(), Json::Null)]);
}

#[test]
fn a_lone_pending_question_keeps_running_in_an_idle_session() {
    let asking = || {
        assistant(
            "zai/glm-4.7",
            vec![call("question-1", QUESTION_TOOL_NAME)],
            Usage::none(),
            true,
        )
    };
    let events = vec![meta("zai/glm-4.7", None), asking()];
    assert_eq!(
        states(&project_page(&events, &events, false)),
        vec![("question-1".to_string(), text("running"))]
    );

    // With another call outstanding beside it, the session did not suspend.
    let events = vec![
        meta("zai/glm-4.7", None),
        asking(),
        assistant("zai/glm-4.7", vec![call("bash-1", "bash")], Usage::none(), true),
    ];
    assert_eq!(
        states(&project_page(&events, &events, false)),
        vec![
            ("question-1".to_string(), text("failed")),
            ("bash-1".to_string(), text("failed")),
        ]
    );
}

fn diff(kind: DiffKind, line: &str) -> DiffLine {
    DiffLine { kind, text: line.to_string() }
}

fn shown(kind: &str, line: &str) -> Json {
    Json::Object(vec![
        ("kind".to_string(), text(kind)),
        ("text".to_string(), text(line)),
    ])
}

#[test]
fn an_edit_carries_the_diff_the_tui_draws_however_large_it_is() {
    let edit = ToolInput {
        diff: vec![
            diff(DiffKind::Context, "a"),
            diff(DiffKind::Removed, "b"),
            diff(DiffKind::Added, "B"),
            diff(DiffKind::Context, "c"),
        ],
        ..input("f.rs", "{}")
    };
    let projected = project_tool_call("edit-1", "edit", &edit);
    assert_eq!(
        items(at(&projected, "diff")),
        [shown("ctx", "a"), shown("del", "b"), shown("add", "B"), shown("ctx", "c")]
    );

    // Long enough that the pretty input is cut.
    let fox = "the quick brown fox jumps over the lazy dog";
    let pretty = format!("{{\"old_string\": \"{}\"}}", format!("{fox}\n").repeat(600));
    let mut lines: Vec<DiffLine> = (0..300).map(|_| diff(DiffKind::Context, fox)).collect();
    lines.push(diff(DiffKind::Added, "tail"));
    let huge = ToolInput { diff: lines, ..input("f.rs", &bounded_detail(&pretty)) };
    let projected = project_tool_call("edit-2", "edit", &huge);
    let Json::Text(detail) = at(&projected, "detail") else {
        panic!("no detail");
    };
    assert!(
        detail.ends_with(DETAIL_TRUNCATED),
        "the premise: the pretty input was cut"
    );
    assert_eq!(
        items(at(&projected, "diff")).last().expect("a diff all the same"),
        &shown("add", "tail")
    );

    // A write is its file, as pure additions; every other tool has no diff and the
    // key is still there.
    let write = |content: String| ToolInput { content: Some(content), ..input("f", "{}") };
    let written = project_tool_call("write-1", "write", &write("a\nb".to_string()));
    assert_eq!(
        items(at(&written, "diff")),
        [shown("add", "a"), shown("add", "b")]
    );
    let long = "one line of a new file\n".repeat(500);
    let big_write = project_tool_call("write-3", "write", &write(long));
    assert_eq!(items(at(&big_write, "diff")).len(), 500);

    let read = project_tool_call("read-1", "read", &input("f", "{}"));
    assert_eq!(read.get("diff"), Some(&Json::Null));
    // Past the caps there is no diff, and the page falls back.
    let enormous = "x".repeat(300 * 1024);
    assert_eq!(
        at(&project_tool_call("write-2", "write", &write(enormous)), "diff"),
        &Json::Null
    );
}

#[test]
fn a_task_notification_is_projected_as_a_headline_and_a_body() {
    let envelope = "<task-notification>\nTask \"review\" completed.\n<result>\nAll good.\n\
                    Two files changed.\n</result>\n</task-notification>";
    let projected = project_event(&user(envelope, "", Vec::new()));
    assert!(is_object(
        at(&projected, "notification"),
        &[
            ("kind", text("task")),
            ("headline", text("review completed.")),
            ("body", text("All good.\nTwo files changed.")),
        ]
    ));
    assert_eq!(
        at(&projected, "text"),
        &text(envelope),
        "the envelope still crosses verbatim: the shape is additive"
    );

    let job = project_event(&user(
        "<tool-notification>\nBackground job 3 finished\n<result>\nexit 0\n</result>\n\
         </tool-notification>",
        "",
        Vec::new(),
    ));
    let notice = at(&job, "notification");
    assert_eq!(at(notice, "kind"), &text("job"));
    assert_eq!(at(notice, "headline"), &text("3 finished"));
    assert_eq!(at(notice, "body"), &text("exit 0"));

    // An ordinary message carries the key and nothing in it.
    let typed = project_event(&user("<task-notification> is a thing I typed", "", Vec::new()));
    assert_eq!(typed.get("notification"), Some(&Json::Null));
}

#[test]
fn an_invocation_is_found_before_it_has_said_anything() {
    let events = vec![meta("zai/glm-4.7", None), invocation("task-1")];
    assert!(has_invocation(&events, "task-1"));
    assert!(
        invocation_slice(&events, "task-1").is_empty(),
        "the premise: an empty slice is not the same answer"
    );
    assert!(!has_invocation(&events, "task-2"));
}

#[test]
fn an_empty_session_totals_to_zero_dollars() {
    let (totals, priced) = usage_totals(&[], false);
    assert_eq!(at(&totals, "input"), &Json::Number(0));
    assert!(priced, "nothing was spent, and all of it has a price");
}

#[test]
fn a_result_in_a_message_stays_in_the_process() {
    assert!(project_block(&ContentBlock::ToolResult).is_none());
    assert!(project_block(&ContentBlock::Reasoning).is_none());
    assert!(project_block(&ContentBlock::Text { text: "x".to_string() }).is_some());
}
