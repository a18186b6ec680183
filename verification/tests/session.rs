//! Rebuilding a transcript from a session's log.

use ilar_tui::format::{bound, MAX_DETAIL_CHARS, MAX_RESULT_CHARS};
use ilar_tui::session::children::{
    restored_session_view, restored_session_view_with_store, Timeline,
};
use ilar_tui::session::event::{
    ContentBlock, ImageContent, Moment, SessionEvent, SessionLog, SessionMeta, TaskInput, ToolInput,
    Usage,
};
use ilar_tui::session::ghost::{
    ghost_events, ghost_header, ghost_offer, last_events, wants_whole_read, GHOST_LINES,
    GHOST_TAIL_EVENTS, GHOST_WHOLE_READ_BYTES,
};
use ilar_tui::session::notice::{
    is_an_arrival, task_notification_display, tool_notification_display,
};
use ilar_tui::session::restore::{
    accrue_usage, add_usage, ends_mid_turn, memory_recall_display, replayed_lines,
    restored_line_id, restored_session_invocation_view, session_own_spend, whole_log_lines,
    Liveness, RestoredSessionView,
};
use ilar_tui::style::{Line, Span};
use ilar_tui::transcript::activity::toggle_note_expansion;
use ilar_tui::transcript::details::TranscriptHitTarget;
use ilar_tui::transcript::events::{finish_tool_row, new_tool_row};
use ilar_tui::transcript::lines::{transcript_entry_lines, Page, Scene};
use ilar_tui::transcript::model::{
    DiffKind, DiffLine, Line_, ToolKind, ToolProgress, ToolState,
};
use ilar_tui::transcript::pages::entry_pages;
use ilar_tui::transcript::render::transcript_entry_rows;
use ilar_tui::transcript::rows::transcript_entries;
use ilar_tui::transcript::share::transcript_markdown;

const MODEL: &str = "zai/glm-4.7";

fn ts() -> Moment {
    Moment { seconds: 1_700_000_000, nanos: 0 }
}

fn s(text: &str) -> String {
    text.to_string()
}

fn meta(id: &str, parent: Option<&str>, agent: &str) -> SessionMeta {
    SessionMeta {
        session_id: s(id),
        parent_id: parent.map(s),
        agent: s(agent),
        model: s(MODEL),
        cwd: None,
        context_limit: None,
    }
}

fn log(id: &str, parent: Option<&str>, agent: &str, events: Vec<SessionEvent>) -> SessionLog {
    SessionLog {
        id: s(id),
        meta: Some(meta(id, parent, agent)),
        events,
        pending_question: None,
        event_base: 0,
    }
}

fn user(text: &str) -> SessionEvent {
    SessionEvent::UserMessage {
        id: s("u"),
        text: s(text),
        markers: String::new(),
        images: Vec::new(),
        ts: ts(),
    }
}

fn assistant_with(content: Vec<ContentBlock>, usage: Usage, context_tokens: u64) -> SessionEvent {
    SessionEvent::AssistantMessage {
        id: s("a"),
        model: s(MODEL),
        content,
        usage,
        context_tokens,
        priced: true,
        stop_reason: s("tool_use"),
        ts: ts(),
    }
}

fn assistant(content: Vec<ContentBlock>) -> SessionEvent {
    assistant_with(content, Usage::none(), 0)
}

fn said(text: &str) -> ContentBlock {
    ContentBlock::Text { text: s(text) }
}

fn input() -> ToolInput {
    ToolInput {
        task: None,
        summary: String::new(),
        detail: s("{}"),
        diff: Vec::new(),
        content: None,
    }
}

fn call(id: &str, name: &str, input: ToolInput) -> ContentBlock {
    ContentBlock::ToolCall { id: s(id), name: s(name), input }
}

fn task(description: &str, agent: &str) -> ToolInput {
    ToolInput {
        task: Some(TaskInput { description: s(description), agent: s(agent), model: None }),
        ..input()
    }
}

fn result_with(of: &str, content: &str, markers: &str, child: Option<&str>) -> SessionEvent {
    SessionEvent::ToolResult {
        id: s("r"),
        tool_use_id: s(of),
        content: s(content),
        redacted: s(content),
        is_error: false,
        markers: s(markers),
        images: Vec::new(),
        child_session_id: child.map(s),
        ts: ts(),
    }
}

fn result(of: &str, content: &str) -> SessionEvent {
    result_with(of, content, "", None)
}

fn invocation(of: &str) -> SessionEvent {
    SessionEvent::SubagentInvocation { id: s("i"), parent_tool_call_id: s(of), ts: ts() }
}

fn compaction(summary: &str, kept_from: usize) -> SessionEvent {
    SessionEvent::Compaction { id: s("c"), summary: s(summary), kept_from, ts: ts() }
}

/// A session restored with its agents. The timelines here are too short to lose
/// anything when they are digested.
fn restored_with_agents(
    session: &SessionLog,
    logs: &Vec<SessionLog>,
    liveness: Liveness,
) -> RestoredSessionView {
    let mut digests: Vec<Timeline> = Vec::new();
    loop {
        match restored_session_view_with_store(session, logs, liveness, &digests) {
            Ok(view) => return view,
            Err(timeline) => digests.push(timeline),
        }
    }
}

fn scene() -> Scene {
    Scene { expanded_groups: Vec::new(), now: 0, activity_started: 0, pages: Vec::new() }
}

fn rendered_text(line: &Line) -> String {
    line.spans.iter().map(|span| span.content.as_str()).collect()
}

#[test]
fn a_task_row_leads_with_the_task_not_its_id() {
    let wrap = |first: &str, body: &str| {
        if body.is_empty() {
            format!("<task-notification>\n{first}\n</task-notification>")
        } else {
            format!(
                "<task-notification>\n{first}\n<result>\n{body}\n</result>\n</task-notification>"
            )
        }
    };
    assert_eq!(
        task_notification_display(&wrap(
            "Task \"Fix tests\" completed (task_id: 7c1e2a3b-0000).",
            "all green"
        ))
        .unwrap(),
        "Fix tests completed.\nall green\ntask_id: 7c1e2a3b-0000"
    );
    assert_eq!(
        task_notification_display(&wrap("Task \"Fix tests\" failed: it broke", "")).unwrap(),
        "Fix tests failed: it broke"
    );
    assert_eq!(
        task_notification_display(&wrap("Task \"Fix tests\" was cancelled.", "")).unwrap(),
        "Fix tests was cancelled."
    );
    assert_eq!(
        task_notification_display(&wrap(
            "Task \"say \"hi\"\" stalled: no progress for 600s. It has been stopped.",
            ""
        ))
        .unwrap(),
        "say \"hi\" stalled: no progress for 600s. It has been stopped."
    );
    assert_eq!(
        task_notification_display(&wrap(
            "Nested task \"review the diff\" completed.",
            "no findings"
        ))
        .unwrap(),
        "nested: review the diff completed.\nno findings"
    );
    // Unknown shapes are shown as written, never dropped.
    assert_eq!(
        task_notification_display(&wrap("Something else entirely.", "")).unwrap(),
        "Something else entirely."
    );
    assert_eq!(
        tool_notification_display(
            "<tool-notification>\nBackground job job-1 (\"Run checks\") completed.\n<result>\nok\n</result>\n</tool-notification>"
        )
        .unwrap(),
        "Run checks completed.\nok\njob: job-1"
    );
    assert_eq!(
        tool_notification_display(
            "<tool-notification>\nBackground job job-2 (\"Run checks\") timed out after 5000ms and was stopped.\n</tool-notification>"
        )
        .unwrap(),
        "Run checks timed out after 5000ms and was stopped.\njob: job-2"
    );
}

#[test]
fn a_restore_only_fails_open_rows_when_nothing_is_driving_the_session() {
    let session = log(
        "s1",
        None,
        "build",
        vec![assistant(vec![call("bash-1", "bash", input())])],
    );
    let state = |liveness| {
        restored_with_agents(&session, &Vec::new(), liveness)
            .lines
            .iter()
            .find_map(|line| match line {
                Line_::Tool(row) if row.id == "bash-1" => Some(row.state),
                _ => None,
            })
            .expect("the tool row is restored")
    };
    assert_eq!(state(Liveness::Settled), ToolState::Failed);
    assert_eq!(state(Liveness::Running), ToolState::Running);
}

#[test]
fn a_restored_row_settles_exactly_as_the_live_one_does() {
    let session = log(
        "s1",
        None,
        "build",
        vec![
            assistant(vec![call("task-1", "bash", input())]),
            result_with("task-1", "ok\n", "", Some("child-9")),
        ],
    );
    let view = restored_with_agents(&session, &Vec::new(), Liveness::Settled);
    let Some(Line_::Tool(row)) = view
        .lines
        .iter()
        .find(|line| matches!(line, Line_::Tool(row) if row.id == "task-1"))
    else {
        panic!("the tool row is restored: {:?}", view.lines);
    };
    assert_eq!(row.state, ToolState::Succeeded);
    assert_eq!(row.progress, ToolProgress::Idle);
    assert_eq!(row.child_session_id.as_deref(), Some("child-9"));
    assert!(row.result.as_deref().unwrap_or_default().contains("ok"));
}

#[test]
fn a_restored_result_is_redacted_like_the_live_one() {
    let session = log(
        "s1",
        None,
        "build",
        vec![
            assistant(vec![call("svc-1", "service", input())]),
            SessionEvent::ToolResult {
                id: s("r"),
                tool_use_id: s("svc-1"),
                content: s("started: run --api-key=sk-verysecretvalue serve"),
                redacted: s("started: run --api-key=<redacted> serve"),
                is_error: false,
                markers: String::new(),
                images: Vec::new(),
                child_session_id: None,
                ts: ts(),
            },
        ],
    );
    let restored = restored_with_agents(&session, &Vec::new(), Liveness::Settled);
    let result = restored
        .lines
        .iter()
        .find_map(|line| match line {
            Line_::Tool(row) => row.result.clone(),
            _ => None,
        })
        .expect("the restored result row");
    assert!(
        !result.contains("sk-verysecretvalue"),
        "the secret resurfaced on replay: {result}"
    );
    assert!(result.contains("<redacted>"), "{result}");
}

#[test]
fn resumed_session_restores_visible_events_and_latest_usage() {
    let usage = Usage {
        input_tokens: 120,
        output_tokens: 30,
        cache_read_input_tokens: 40,
        cache_creation_input_tokens: 0,
    };
    let session = log(
        "s1",
        None,
        "build",
        vec![
            user("remember this"),
            assistant_with(
                vec![
                    said("restored answer"),
                    ContentBlock::Thinking {
                        text: s("a thought from a model that summarises none"),
                    },
                    ContentBlock::ReasoningSummary {
                        text: s("**Reviewing restored state**\n\nDetails remain collapsed."),
                        completed: true,
                    },
                    call("read-1", "read", input()),
                    call(
                        "task-1",
                        "task",
                        task("Review restored security paths", "build · secure"),
                    ),
                ],
                usage,
                160,
            ),
            result("task-1", "review complete"),
            result("read-1", "file contents"),
            SessionEvent::ModelChange {
                id: s("m"),
                model: s("openai/gpt-5.6-sol"),
                variant: Some(s("high")),
                ts: ts(),
            },
        ],
    );
    let view = restored_session_view(&session);
    assert_eq!(view.latest_usage, Some(usage));
    assert!(matches!(&view.lines[0], Line_::User(text) if text == "remember this"));
    assert!(matches!(&view.lines[1], Line_::Assistant(text) if text == "restored answer"));
    assert!(matches!(
        &view.lines[2],
        Line_::Thought { text, complete: true, .. } if text.contains("summarises none")
    ));
    assert!(matches!(
        &view.lines[3],
        Line_::Thought { text, complete: true, .. } if text.contains("Reviewing restored state")
    ));
    assert!(matches!(
        &view.lines[4],
        Line_::Tool(row) if row.id == "read-1"
            && row.name == "read"
            && row.arguments.is_empty()
            && row.state == ToolState::Succeeded
    ));
    assert!(matches!(
        &view.lines[5],
        Line_::Tool(row) if row.id == "task-1"
            && row.name == "task"
            && matches!(&row.kind, ToolKind::Agent { name, .. } if name == "build · secure")
            && row.arguments == "Review restored security paths"
            && row.state == ToolState::Succeeded
    ));
    assert!(matches!(
        view.lines.last(),
        Some(Line_::System(text)) if text.contains("openai/gpt-5.6-sol")
    ));
}

#[test]
fn a_resumed_session_shows_why_its_turn_died() {
    let session = log(
        "s1",
        None,
        "build",
        vec![assistant(vec![
            ContentBlock::Diagnostic {
                text: s("first I will check the parser"),
                turn_error: false,
            },
            ContentBlock::Diagnostic {
                text: s("turn error: provider exploded"),
                turn_error: true,
            },
        ])],
    );
    let view = restored_session_view(&session);
    let systems: Vec<&String> = view
        .lines
        .iter()
        .filter_map(|line| match line {
            Line_::System(text) => Some(text),
            _ => None,
        })
        .collect();
    assert_eq!(systems, vec!["turn error: provider exploded"], "{:?}", view.lines);
    let thoughts: Vec<&String> = view
        .lines
        .iter()
        .filter_map(|line| match line {
            Line_::Thought { text, complete: true, expanded: false, .. } => Some(text),
            _ => None,
        })
        .collect();
    assert_eq!(thoughts, vec!["first I will check the parser"]);

    let restored = restored_with_agents(&session, &Vec::new(), Liveness::Settled);
    assert!(restored.resume_offer, "a dead turn is resumable");
}

#[test]
fn raw_thinking_restores_as_a_thought_whichever_shape_it_was_written_in() {
    let session = log(
        "s1",
        None,
        "build",
        vec![assistant(vec![
            ContentBlock::Diagnostic {
                text: s("the user wants the article read first"),
                turn_error: false,
            },
            ContentBlock::Thinking { text: s("an older log wrote it like this") },
            said("here is what I think"),
        ])],
    );
    let view = restored_session_view(&session);
    let thoughts: Vec<&String> = view
        .lines
        .iter()
        .filter_map(|line| match line {
            Line_::Thought { text, .. } => Some(text),
            _ => None,
        })
        .collect();
    assert_eq!(
        thoughts,
        vec![
            "the user wants the article read first",
            "an older log wrote it like this"
        ],
        "{:?}",
        view.lines
    );
    assert!(
        view.lines
            .iter()
            .any(|line| matches!(line, Line_::Assistant(text) if text == "here is what I think")),
        "{:?}",
        view.lines
    );
}

#[test]
fn a_resume_is_offered_only_while_the_log_ends_mid_turn() {
    let user = || user("try again");
    let died = || {
        assistant(vec![ContentBlock::Diagnostic {
            text: s("turn error: provider exploded"),
            turn_error: true,
        }])
    };
    let answered = || assistant(vec![said("done")]);
    let interrupted_tool = || SessionEvent::ToolResult {
        id: s("r"),
        tool_use_id: s("t"),
        content: s("Tool call interrupted before completion."),
        redacted: s("Tool call interrupted before completion."),
        is_error: true,
        markers: String::new(),
        images: Vec::new(),
        child_session_id: None,
        ts: ts(),
    };
    let called_tool = || assistant(vec![call("bash-1", "bash", input())]);

    assert!(!ends_mid_turn(&vec![]));
    assert!(!ends_mid_turn(&vec![user()]));
    assert!(!ends_mid_turn(&vec![died(), user()]));
    assert!(!ends_mid_turn(&vec![died(), user(), answered()]));
    assert!(!ends_mid_turn(&vec![user(), answered()]), "the turn finished");
    assert!(ends_mid_turn(&vec![user(), died()]));
    assert!(ends_mid_turn(&vec![user(), died(), interrupted_tool()]));
    assert!(
        ends_mid_turn(&vec![user(), called_tool()]),
        "a tool call nobody answered"
    );
    assert!(
        ends_mid_turn(&vec![user(), called_tool(), interrupted_tool()]),
        "a result the provider was never told about"
    );

    let arrival = || {
        crate::user("<task-notification>\nTask \"build\" completed.\n</task-notification>")
    };
    assert!(
        ends_mid_turn(&vec![user(), called_tool(), interrupted_tool(), arrival()]),
        "an arrival does not end the turn it landed behind"
    );
    assert!(
        ends_mid_turn(&vec![user(), died(), arrival()]),
        "nor does it undo a recorded failure"
    );
    let job_arrival = || {
        crate::user(
            "<tool-notification>\nBackground job job-1 (\"checks\") completed.\n</tool-notification>",
        )
    };
    assert!(
        ends_mid_turn(&vec![user(), called_tool(), job_arrival()]),
        "a job ending does not end the turn it landed behind"
    );
    // A person typing is still the session moving on.
    assert!(!ends_mid_turn(&vec![user(), died(), arrival(), user()]));
}

#[test]
fn restored_edit_tools_carry_a_diff() {
    let diff = |kind, text: &str| DiffLine { kind, text: s(text) };
    let edit = ToolInput {
        diff: vec![
            diff(DiffKind::Context, "keep"),
            diff(DiffKind::Removed, "old"),
            diff(DiffKind::Added, "new"),
        ],
        ..input()
    };
    let session = log("s1", None, "build", vec![assistant(vec![call("edit-1", "edit", edit)])]);
    let view = restored_session_view(&session);
    let Some(Line_::Tool(row)) = view.lines.first() else {
        panic!("expected restored edit tool: {:?}", view.lines);
    };
    assert_eq!(
        row.diff.iter().map(|line| line.kind).collect::<Vec<_>>(),
        vec![DiffKind::Context, DiffKind::Removed, DiffKind::Added]
    );
}

#[test]
fn resumed_unfinished_tools_are_marked_failed() {
    let session = log(
        "s1",
        None,
        "build",
        vec![assistant(vec![call("unfinished", "bash", input())])],
    );
    let view = restored_session_view(&session);
    assert!(matches!(
        view.lines.as_slice(),
        [Line_::Tool(row)] if row.state == ToolState::Failed
    ));
}

#[test]
fn resumed_compaction_replaces_old_history_with_the_summary() {
    let session = log(
        "s1",
        None,
        "build",
        vec![
            SessionEvent::Meta { meta: meta("s1", None, "build"), ts: ts() },
            user("obsolete history"),
            compaction("decisions retained here", 2),
            user("current history"),
        ],
    );
    let view = restored_session_view(&session);
    let rendered = format!("{:?}", view.lines);
    assert!(!rendered.contains("obsolete history"), "{rendered}");
    assert!(rendered.contains("decisions retained here"), "{rendered}");
    assert!(rendered.contains("current history"), "{rendered}");

    let Some(Line_::Note { id, text, expanded }) = view.lines.first() else {
        panic!("the summary leads, as a note: {:?}", view.lines.first());
    };
    assert!(!expanded, "collapsed until asked");
    assert!(!id.is_empty(), "and clickable, since it has a body");
    assert_eq!(
        text.lines().next(),
        Some("transcript compacted"),
        "the headline says what happened; the summary is the body"
    );

    // The summary is off the screen while it is folded, and on it once it is not.
    let rows = |lines: &[Line_]| {
        transcript_entry_lines(&lines[0], 80, &scene())
            .iter()
            .map(rendered_text)
            .collect::<Vec<_>>()
            .join("\n")
    };
    let folded = rows(&view.lines);
    assert!(!folded.contains("decisions retained here"), "{folded}");
    assert!(folded.contains("click or Enter to expand"), "{folded}");
    let id = id.clone();
    let mut opened = view.lines;
    toggle_note_expansion(&mut opened, &id);
    assert!(rows(&opened).contains("decisions retained here"));
    toggle_note_expansion(&mut opened, &id);
    assert_eq!(rows(&opened), folded, "and back");
}

#[test]
fn an_export_carries_the_turns_the_compaction_folded() {
    let folded = vec![
        SessionEvent::Meta { meta: meta("s1", None, "build"), ts: ts() },
        user("the first question"),
    ];
    // A compacted session is read from where its newest compaction left it.
    let reader = SessionLog {
        event_base: 2,
        ..log(
            "s1",
            None,
            "build",
            vec![
                compaction("earlier: a question was asked", 0),
                user("the second question"),
            ],
        )
    };
    let view = restored_session_view(&reader);
    assert!(view.history_before > 0, "the compaction folded something away");

    let on_screen = format!("{:?}", view.lines);
    assert!(!on_screen.contains("the first question"), "{on_screen}");
    assert!(
        !format!("{:?}", reader.events).contains("the first question"),
        "the reader is the window too"
    );

    // The export splices the folded half in front of the screen.
    let mut lines = whole_log_lines(&folded);
    lines.extend(view.lines);
    let exported = transcript_markdown("s1", &lines);
    assert!(exported.contains("the first question"), "{exported}");
    assert!(exported.contains("the second question"), "{exported}");
    assert_eq!(exported.matches("transcript compacted").count(), 1, "{exported}");
}

#[test]
fn a_child_timeline_honours_its_own_compaction() {
    let events = vec![
        user("child obsolete history"),
        invocation("task-restore"),
        user("child current history"),
        compaction("child decisions retained", 2),
    ];
    let view = restored_session_invocation_view(
        &events,
        None,
        Some("task-restore"),
        Liveness::Settled,
    );
    let rendered = format!("{:?}", view.lines);
    assert!(rendered.contains("child decisions retained"), "{rendered}");
    assert!(rendered.contains("child current history"), "{rendered}");
    assert!(!rendered.contains("child obsolete history"), "{rendered}");
}

#[test]
fn a_parents_message_in_a_child_timeline_is_not_labelled_you() {
    let events = vec![invocation("task-1"), user("also check the picker")];
    let nested =
        restored_session_invocation_view(&events, None, Some("task-1"), Liveness::Settled);
    assert!(
        nested
            .lines
            .iter()
            .any(|line| matches!(line, Line_::Incoming(text) if text == "also check the picker")),
        "{:?}",
        nested.lines
    );
    let root = restored_session_invocation_view(&events, None, None, Liveness::Settled);
    assert!(
        root.lines
            .iter()
            .any(|line| matches!(line, Line_::User(text) if text == "also check the picker")),
        "{:?}",
        root.lines
    );
}

/// The rows of a transcript with every call unfolded.
fn opened_rows(mut lines: Vec<Line_>) -> Vec<(String, Option<TranscriptHitTarget>)> {
    for line in &mut lines {
        if let Line_::Tool(row) = line {
            row.expanded = true;
        }
    }
    transcript_entries(&lines, &Vec::new())
        .iter()
        .flat_map(|entry| {
            let pages = entry_pages(&lines, entry, &Vec::new(), 100, false)
                .into_iter()
                .map(|ask| Page {
                    lines: ask.text.lines().map(|line| Line::of(vec![Span::raw(line)])).collect(),
                    text: ask.text,
                    width: ask.width,
                })
                .collect();
            let scene = Scene { pages, ..scene() };
            transcript_entry_rows(&lines, entry, &scene, 100, false)
        })
        .map(|row| (rendered_text(&row.line), row.target))
        .collect()
}

#[test]
fn a_restored_task_message_becomes_the_agent_it_resumed_and_draws_its_children() {
    let turn = |call: &str, prompt: &str, answer: &str| {
        [invocation(call), user(prompt), assistant(vec![said(answer)])]
    };
    let mut events = Vec::new();
    events.extend(turn("task-1", "Inspect rendering", "the first half"));
    events.extend(turn("msg-1", "keep going", "the second half"));
    let child = log("child", Some("parent"), "explore", events);

    let parent = log(
        "parent",
        None,
        "build",
        vec![
            assistant(vec![call("task-1", "task", task("Inspect rendering", "explore"))]),
            result_with("task-1", "done", "", Some("child")),
            assistant(vec![call("msg-1", "task_message", input())]),
            result_with("msg-1", "done", "", Some("child")),
        ],
    );
    let restored = restored_with_agents(&parent, &vec![child], Liveness::Settled);
    let resumed = restored
        .lines
        .iter()
        .find_map(|line| match line {
            Line_::Tool(row) if row.id == "msg-1" => Some(row),
            _ => None,
        })
        .expect("the task_message row");
    assert!(
        matches!(&resumed.kind, ToolKind::Agent { name, .. } if name == "explore"),
        "{:?}",
        resumed.kind
    );
    assert!(resumed
        .child_lines
        .iter()
        .any(|line| matches!(line, Line_::Assistant(text) if text == "the second half")));

    // And it reaches the screen once opened.
    let rendered = opened_rows(restored.lines);
    assert!(
        rendered.iter().any(|(line, _)| line.contains("the second half")),
        "{rendered:?}"
    );
}

#[test]
fn restored_agent_loads_its_child_timeline() {
    let child = log(
        "child",
        Some("parent"),
        "explore",
        vec![
            invocation("task-restore"),
            user("Inspect rendering"),
            assistant(vec![said("Nested restored answer")]),
            invocation("later-task"),
            user("Later request"),
            assistant(vec![said("Later answer")]),
        ],
    );
    let parent = log(
        "parent",
        None,
        "build",
        vec![
            assistant(vec![call("task-restore", "task", task("Inspect rendering", "explore"))]),
            result_with("task-restore", "Nested restored answer", "", Some("child")),
        ],
    );
    let restored = restored_with_agents(&parent, &vec![child], Liveness::Settled);
    let child_lines = restored.lines.iter().find_map(|line| match line {
        Line_::Tool(row) => Some(&row.child_lines),
        _ => None,
    });
    assert!(child_lines.is_some_and(|lines| {
        lines
            .iter()
            .any(|line| matches!(line, Line_::Assistant(text) if text == "Nested restored answer"))
            && !lines
                .iter()
                .any(|line| matches!(line, Line_::Assistant(text) if text == "Later answer"))
    }));
}

#[test]
fn a_restored_timeline_drops_the_prompt_that_its_row_shows() {
    let restored_children = |events: Vec<SessionEvent>| {
        let child = log("child", Some("parent"), "explore", events);
        let parent = log(
            "parent",
            None,
            "build",
            vec![
                assistant(vec![call("task-1", "task", task("Inspect rendering", "explore"))]),
                result_with("task-1", "done", "", Some("child")),
            ],
        );
        let restored = restored_with_agents(&parent, &vec![child], Liveness::Settled);
        restored
            .lines
            .into_iter()
            .find_map(|line| match line {
                Line_::Tool(row) => Some(row.child_lines),
                _ => None,
            })
            .expect("the agent's row")
    };

    let lines = restored_children(vec![
        invocation("task-1"),
        user("Inspect rendering"),
        assistant(vec![said("the first half")]),
        user("also check the picker"),
    ]);
    assert_eq!(lines.len(), 2, "{lines:?}");
    assert!(matches!(&lines[0], Line_::Assistant(text) if text == "the first half"));
    assert!(matches!(&lines[1], Line_::Incoming(text) if text == "also check the picker"));

    // A compacted one leads with its summary, and the prompt sits behind it.
    let compacted = restored_children(vec![
        user("obsolete"),
        invocation("task-1"),
        user("Inspect rendering"),
        assistant(vec![said("the first half")]),
        compaction("decisions retained", 2),
    ]);
    assert_eq!(compacted.len(), 2, "{compacted:?}");
    assert!(matches!(&compacted[0], Line_::Note { text, .. } if text.contains("decisions retained")));
    assert!(matches!(&compacted[1], Line_::Assistant(text) if text == "the first half"));
}

/// The same tool result down both paths: as it settles a live row, and rebuilt from
/// the log.
fn live_and_restored(raw: &str, markers: &str) -> (String, String) {
    let published = format!("{}{markers}", bound(raw, MAX_RESULT_CHARS));
    let mut live = vec![Line_::Tool(new_tool_row("call-1", s("g"), "bash"))];
    finish_tool_row(&mut live, "call-1", false, &published, &None);
    let Some(Line_::Tool(row)) = live.first() else {
        panic!("the live row must have settled");
    };
    let live_result = row.result.clone().expect("a live result");

    let session = log(
        "s1",
        None,
        "build",
        vec![
            assistant(vec![call("call-1", "bash", input())]),
            result_with("call-1", raw, markers, None),
        ],
    );
    let restored = restored_session_view(&session);
    let restored_result = restored
        .lines
        .iter()
        .find_map(|line| match line {
            Line_::Tool(row) => row.result.clone(),
            _ => None,
        })
        .expect("a restored tool row");
    (live_result, restored_result)
}

#[test]
fn an_over_long_result_reads_the_same_live_and_restored() {
    let raw = "\tname\tvalue\n".repeat(4_000);
    assert!(raw.chars().count() > MAX_DETAIL_CHARS);
    assert!(raw.chars().count() < MAX_RESULT_CHARS);
    let (live, restored) = live_and_restored(&raw, "");
    assert_eq!(live, restored);
    assert!(!live.contains("output truncated"), "cut under the cap");
    assert_eq!(live.lines().count(), 4_000);
    assert!(!live.contains('\t'), "tabs are expanded for display");

    // Images ride along on the same string.
    let markers = "\n[image: png · 128 B]";
    let (live, restored) = live_and_restored(&raw, markers);
    assert!(live.ends_with(markers), "{live:?}");
    assert!(restored.ends_with(markers), "{restored:?}");
    let (live, restored) = live_and_restored("one\ttwo\n", markers);
    assert_eq!(live, restored);
    assert!(live.ends_with(markers));
}

#[test]
fn restored_image_bearing_tool_results_show_the_same_markers_the_live_row_did() {
    let markers = "\n[image: png · 12.3 KiB]";
    let session = log(
        "s1",
        None,
        "build",
        vec![
            assistant(vec![call("read-image", "read", input())]),
            SessionEvent::ToolResult {
                id: s("r"),
                tool_use_id: s("read-image"),
                content: s("shot.png: image/png, 640x480 — the image itself follows"),
                redacted: s("shot.png: image/png, 640x480 — the image itself follows"),
                is_error: false,
                markers: s(markers),
                images: vec![ImageContent {
                    media_type: s("image/png"),
                    data: s("AAAA"),
                    bytes: 12_600,
                }],
                child_session_id: None,
                ts: ts(),
            },
        ],
    );
    let restored = restored_session_view(&session);
    let Some(Line_::Tool(row)) =
        restored.lines.iter().find(|line| matches!(line, Line_::Tool(_)))
    else {
        panic!("expected a restored tool row: {:?}", restored.lines);
    };
    let result = row.result.as_deref().unwrap_or_default();
    assert!(
        result.starts_with("shot.png: image/png, 640x480 — the image itself follows"),
        "the description still leads: {result:?}"
    );
    assert!(
        result.ends_with(markers),
        "restored rows must carry the live markers: {result:?}"
    );
    assert!(result.contains("[image: png · 12.3 KiB]"), "{result:?}");
}

/// Click-target id of an expandable line, if it is one.
fn expandable_id(line: &Line_) -> Option<&str> {
    match line {
        Line_::Thought { id, .. }
        | Line_::Task { id, .. }
        | Line_::Job { id, .. }
        | Line_::Note { id, .. } => Some(id.as_str()),
        _ => None,
    }
}

#[test]
fn restored_nested_thoughts_are_not_click_targets() {
    let child = log(
        "child",
        Some("parent"),
        "explore",
        vec![
            invocation("task-nested"),
            user("Inspect rendering"),
            assistant(vec![
                ContentBlock::ReasoningSummary { text: s("Nested reasoning"), completed: true },
                said("Nested restored answer"),
            ]),
            user("<tool-notification>\nBackground job build finished.\n</tool-notification>"),
        ],
    );
    let parent = log(
        "parent",
        None,
        "build",
        vec![
            assistant(vec![
                ContentBlock::ReasoningSummary { text: s("Top-level reasoning"), completed: true },
                call("task-nested", "task", task("Inspect rendering", "explore")),
            ]),
            result_with("task-nested", "Nested restored answer", "", Some("child")),
        ],
    );
    let restored = restored_with_agents(&parent, &vec![child], Liveness::Settled);
    let Some(Line_::Tool(row)) =
        restored.lines.iter().find(|line| matches!(line, Line_::Tool(_)))
    else {
        panic!("expected a restored agent tool: {:?}", restored.lines);
    };
    let nested_ids: Vec<&str> = row.child_lines.iter().filter_map(expandable_id).collect();
    assert_eq!(
        nested_ids.len(),
        2,
        "the child timeline keeps its thought and its job note: {:?}",
        row.child_lines
    );
    assert!(
        nested_ids.iter().all(|id| id.is_empty()),
        "nested restored rows are previews, not click targets: {nested_ids:?}"
    );

    // Top level keeps working, unique ids.
    let top_ids: Vec<String> =
        restored.lines.iter().filter_map(expandable_id).map(s).collect();
    assert_eq!(top_ids.len(), 1, "{:?}", restored.lines);
    for id in &top_ids {
        assert!(!id.is_empty());
        assert_eq!(
            restored
                .lines
                .iter()
                .filter(|line| expandable_id(line) == Some(id.as_str()))
                .count(),
            1,
            "id {id} must toggle only itself"
        );
    }

    // Rendered, an expanded agent row offers no nested thought target.
    let targets: Vec<String> = opened_rows(restored.lines)
        .into_iter()
        .filter_map(|(_, target)| match target {
            Some(TranscriptHitTarget::Thought(id)) => Some(id),
            _ => None,
        })
        .collect();
    assert!(
        targets.iter().all(|id| top_ids.contains(id)),
        "only top-level thoughts are clickable: {targets:?}"
    );
}

fn conversation(turns: usize) -> Vec<SessionEvent> {
    (0..turns)
        .flat_map(|turn| {
            [
                user(&format!("ask {turn}")),
                assistant(vec![said(&format!("answer {turn}"))]),
            ]
        })
        .collect()
}

#[test]
fn an_offer_is_made_where_a_session_was_left_and_nowhere_else() {
    // A directory that nothing was launched in has no session, and so no title.
    assert!(ghost_offer("s1", None, "now", &conversation(2)).is_none());

    let offer = ghost_offer("s1", Some("ask 0"), "2m ago", &conversation(2))
        .expect("the session here is on offer");
    assert_eq!(offer.session_id, "s1");
    assert_eq!(offer.title, "ask 0", "named by its opening prompt");
    assert!(
        offer.header.starts_with("previous session here: ask 0 · "),
        "{}",
        offer.header
    );
    assert!(
        !offer.header.contains("Enter"),
        "the keys are said in the prompt, not here: {}",
        offer.header
    );
    assert!(
        format!("{:?}", offer.lines).contains("answer 1"),
        "the tail is what it was last doing"
    );
}

#[test]
fn an_untouched_session_is_not_offered() {
    assert!(ghost_offer("s1", None, "now", &vec![]).is_none());
    assert!(ghost_offer("s1", Some("x"), "now", &vec![]).is_none(), "nothing to show");
}

#[test]
fn a_record_bigger_than_the_window_is_still_offered() {
    // The window holds no whole record, so a log that is small enough is read whole.
    assert!(wants_whole_read(0, Some(300_000)));
    assert!(wants_whole_read(0, Some(GHOST_WHOLE_READ_BYTES)));
    assert!(!wants_whole_read(0, Some(GHOST_WHOLE_READ_BYTES + 1)));
    assert!(!wants_whole_read(0, None));
    assert!(!wants_whole_read(3, Some(10)), "the window had something");

    let mut whole = conversation(1);
    whole.push(user(&format!("one enormous message {}", "x".repeat(256 * 1024))));
    let events = ghost_events(vec![], Some(whole));
    let offer = ghost_offer("s1", Some("ask 0"), "now", &events).expect("on offer");
    assert!(
        format!("{:?}", offer.lines).contains("one enormous message"),
        "the offer shows what the session was last doing"
    );
}

#[test]
fn an_offer_is_bounded_however_long_the_session() {
    let events = ghost_events(vec![], Some(conversation(400)));
    assert_eq!(events.len(), GHOST_TAIL_EVENTS);
    let offer = ghost_offer("s1", Some("ask 0"), "now", &events).expect("on offer");
    assert!(
        offer.lines.len() <= GHOST_LINES,
        "{} lines is not a couple of screenfuls",
        offer.lines.len()
    );
    assert!(
        format!("{:?}", offer.lines).contains("answer 399"),
        "and it is the ending that is kept"
    );
    assert!(
        !format!("{:?}", offer.lines).contains("ask 0\""),
        "not the beginning"
    );
}

// ---- More ----

#[test]
fn an_arrival_is_a_message_that_nobody_typed() {
    assert!(is_an_arrival("<task-notification>\nx\n</task-notification>"));
    assert!(is_an_arrival("<tool-notification>\nx\n</tool-notification>"));
    assert!(!is_an_arrival("<task-notification> is a thing I typed"));
}

#[test]
fn usage_adds_up_without_overflowing() {
    let mut total = Usage { input_tokens: u64::MAX - 1, ..Usage::none() };
    let step = Usage { input_tokens: 5, output_tokens: 2, ..Usage::none() };
    add_usage(&mut total, &step);
    assert_eq!(total.input_tokens, u64::MAX);
    assert_eq!(total.output_tokens, 2);
    let mut priced = true;
    accrue_usage(&mut total, &mut priced, true, &step);
    assert!(priced);
    accrue_usage(&mut total, &mut priced, false, &step);
    accrue_usage(&mut total, &mut priced, true, &step);
    assert!(!priced, "one step without a price leaves the whole without one");
}

#[test]
fn totals_span_what_a_compaction_folded_away() {
    let spent = |n: u64| {
        assistant_with(
            vec![said("x")],
            Usage { input_tokens: n, ..Usage::none() },
            n,
        )
    };
    let events = vec![spent(10), compaction("c", 1), spent(5)];
    let session = log("s1", None, "build", events);
    let view = restored_session_view(&session);
    assert_eq!(view.total_usage.input_tokens, 15);
    assert_eq!(session_own_spend(&session).0.input_tokens, 15);
    assert_eq!(view.latest_usage.unwrap().input_tokens, 5);
}

#[test]
fn an_agents_session_is_counted_once() {
    let step = |n: u64| {
        assistant_with(vec![said("x")], Usage { input_tokens: n, ..Usage::none() }, n)
    };
    let child = log(
        "child",
        Some("parent"),
        "explore",
        vec![invocation("a"), user("p"), step(7), invocation("b"), user("q"), step(4)],
    );
    let stranger = log("stranger", Some("someone"), "explore", vec![step(100)]);
    let parent = log(
        "parent",
        None,
        "build",
        vec![
            assistant(vec![
                call("a", "task", task("x", "explore")),
                call("b", "task_message", input()),
                call("c", "task", task("y", "explore")),
            ]),
            result_with("a", "done", "", Some("child")),
            result_with("b", "done", "", Some("child")),
            result_with("c", "done", "", Some("stranger")),
        ],
    );
    let view = restored_with_agents(&parent, &vec![child, stranger], Liveness::Settled);
    assert_eq!(view.task_usage.input_tokens, 11);
    assert!(view.task_priced);
}

/// A parent with an agent, which has two agents of its own.
fn family() -> (SessionLog, Vec<SessionLog>) {
    let step = |n: u64, content: Vec<ContentBlock>| {
        assistant_with(content, Usage { input_tokens: n, ..Usage::none() }, n)
    };
    let leaf = |id: &str, call: &str, n: u64| {
        log(
            id,
            Some("child"),
            "explore",
            vec![invocation(call), user("p"), step(n, vec![said(id)])],
        )
    };
    let child = log(
        "child",
        Some("parent"),
        "explore",
        vec![
            invocation("a"),
            user("p"),
            step(
                1,
                vec![
                    call("left", "task", task("x", "explore")),
                    call("right", "task", task("y", "explore")),
                ],
            ),
            result_with("left", "done", "", Some("leaf-1")),
            result_with("right", "done", "", Some("leaf-2")),
        ],
    );
    let parent = log(
        "parent",
        None,
        "build",
        vec![
            assistant(vec![call("a", "task", task("x", "explore"))]),
            result_with("a", "done", "", Some("child")),
        ],
    );
    (parent, vec![child, leaf("leaf-1", "left", 10), leaf("leaf-2", "right", 100)])
}

#[test]
fn what_a_digest_leaves_out_is_neither_restored_nor_counted() {
    let (parent, logs) = family();
    assert_eq!(
        restored_with_agents(&parent, &logs, Liveness::Settled).task_usage.input_tokens,
        111
    );

    let mut digests: Vec<Timeline> = Vec::new();
    let mut asked = Vec::new();
    let view = loop {
        match restored_session_view_with_store(&parent, &logs, Liveness::Settled, &digests) {
            Ok(view) => break view,
            Err(mut timeline) => {
                asked.push((timeline.session.clone(), timeline.call.clone()));
                if timeline.session == "child" {
                    assert_eq!(timeline.lines.len(), 2, "whole, but for the prompt");
                    timeline.lines.remove(0);
                }
                digests.push(timeline);
            }
        }
    };
    assert_eq!(asked, [(s("child"), s("a")), (s("leaf-2"), s("right"))]);
    assert_eq!(view.task_usage.input_tokens, 101);
    let Some(Line_::Tool(row)) = view.lines.first() else {
        panic!("the agent's row: {:?}", view.lines);
    };
    assert_eq!(row.child_lines.len(), 1);
    assert!(matches!(&row.child_lines[0], Line_::Tool(row) if row.id == "right"));
}

#[test]
fn a_running_agents_timeline_is_whole() {
    let (parent, logs) = family();
    let view =
        restored_session_view_with_store(&parent, &logs, Liveness::Running, &Vec::new()).unwrap();
    assert_eq!(view.task_usage.input_tokens, 111);
}

#[test]
fn a_question_that_is_waited_on_stays_open() {
    let mut session = log(
        "s1",
        None,
        "build",
        vec![assistant(vec![call("q", "question", input()), call("b", "bash", input())])],
    );
    session.pending_question = Some(s("q"));
    let view = restored_with_agents(&session, &Vec::new(), Liveness::Settled);
    let states: Vec<ToolState> = view
        .lines
        .iter()
        .filter_map(|line| match line {
            Line_::Tool(row) => Some(row.state),
            _ => None,
        })
        .collect();
    assert_eq!(states, [ToolState::Running, ToolState::Failed]);
    assert!(!view.resume_offer, "it waits, it did not break off");
}

#[test]
fn small_texts_are_what_they_say() {
    assert!(memory_recall_display(1).contains('1'));
    assert_ne!(memory_recall_display(1), memory_recall_display(2));
    assert_eq!(restored_line_id(true, "note", 3), "");
    assert!(restored_line_id(false, "note", 3).contains('3'));
    assert_eq!(ghost_header("t", "now"), "previous session here: t · now");
    assert_eq!(last_events(conversation(2)).len(), 4);
    assert_eq!(replayed_lines(&conversation(1)).len(), 2);
}
