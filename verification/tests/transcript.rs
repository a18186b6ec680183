//! The transcript: its events, its rows and its cache.

use ilar_tui::style::{Line, Span};
use ilar_tui::theme;
use ilar_tui::transcript::activity::{
    apply_subagent_activity, session_lines_for_call, subagent_owner_index, toggle_tool_expansion,
    tool_group_index, SubagentActivity,
};
use ilar_tui::transcript::cache::TranscriptRenderCache;
use ilar_tui::transcript::details::{
    detail_source_lines, tool_detail_rows, tool_diff_rows, TranscriptHitTarget, TranscriptRow,
};
use ilar_tui::transcript::events::{
    append_thought_tail, apply_child_loop_event, complete_tool_execution, complete_tool_input,
    finish_tool_row, mark_running_tools_failed, note_tool_input_progress,
    prune_incomplete_thoughts, push_tool_row, set_tool_tail, start_tool_execution, LoopEvent,
    MAX_THOUGHT_CHARS,
};
use ilar_tui::transcript::hover::underline_content_spans;
use ilar_tui::transcript::lines::{
    reasoning_summary_title, transcript_entry_lines, Page, Scene,
};
use ilar_tui::transcript::model::{
    DiffKind, DiffLine, Line_, ToolKind, ToolProgress, ToolRow, ToolState,
};
use ilar_tui::transcript::pages::{entry_pages, line_pages, missing_pages, PageAsk};
use ilar_tui::transcript::render::transcript_entry_rows;
use ilar_tui::transcript::rows::{
    agent_live_preview, preview_tail, transcript_entries, transcript_entry_animated, Group,
    TranscriptEntry,
};
use ilar_tui::transcript::share::{pending_summary, transcript_markdown};
use ilar_tui::transcript::tool_line::{display_name, tool_group_line, tool_line};
use unicode_width::UnicodeWidthStr;

fn s(text: &str) -> String {
    text.to_string()
}

fn rendered_text(line: &Line) -> String {
    line.spans.iter().map(|span| span.content.as_str()).collect()
}

fn scene_at(now: u64, expanded_groups: &[&str]) -> Scene {
    Scene {
        expanded_groups: expanded_groups.iter().map(|id| s(id)).collect(),
        now,
        activity_started: 0,
        pages: Vec::new(),
    }
}

fn scene() -> Scene {
    scene_at(0, &[])
}

/// A page for each that is asked for, with the lines of the text as they stand.
fn pages(asks: &[PageAsk]) -> Vec<Page> {
    asks.iter()
        .map(|ask| Page {
            text: ask.text.clone(),
            width: ask.width,
            lines: ask.text.lines().map(|line| Line::of(vec![Span::raw(line)])).collect(),
        })
        .collect()
}

fn update(
    cache: &mut TranscriptRenderCache,
    lines: &Vec<Line_>,
    scene: Scene,
    revision: u64,
    width: u16,
) {
    let asks = cache.pages_asked(lines, &scene.expanded_groups, revision, width);
    let scene = Scene { pages: pages(&asks), ..scene };
    cache.update(lines, &scene, revision, width);
}

fn entry_lines(entry: &Line_, width: u16) -> Vec<Line> {
    let scene = Scene { pages: pages(&line_pages(entry, width)), ..scene() };
    transcript_entry_lines(entry, width, &scene)
}

fn row(id: &str, name: &str) -> ToolRow {
    ToolRow {
        id: s(id),
        group_id: s("g"),
        name: s(name),
        kind: ToolKind::Tool,
        arguments: String::new(),
        argument_detail: String::new(),
        diff: Vec::new(),
        tail: String::new(),
        result: None,
        state: ToolState::Succeeded,
        progress: ToolProgress::Idle,
        expanded: false,
        full: false,
        child_lines: Vec::new(),
        child_group: 0,
        child_running: false,
        child_session_id: None,
    }
}

fn finished_tool(id: &str, name: &str, arguments: &str) -> Line_ {
    Line_::Tool(ToolRow { arguments: s(arguments), ..row(id, name) })
}

/// A tool row with an id, running, with `child_lines` of its own.
fn agent_row(id: &str, child_lines: Vec<Line_>, expanded: bool) -> Line_ {
    Line_::Tool(ToolRow {
        kind: ToolKind::Agent { name: s("explore"), model: None },
        arguments: s("look around"),
        state: ToolState::Running,
        expanded,
        child_lines,
        child_running: true,
        ..row(id, "task")
    })
}

fn entry_rows(line: Line_, scene: &Scene, width: u16, nested: bool) -> Vec<TranscriptRow> {
    let lines = vec![line];
    let entries = transcript_entries(&lines, &scene.expanded_groups);
    let asks = entry_pages(&lines, &entries[0], &scene.expanded_groups, width, nested);
    let scene = Scene {
        expanded_groups: scene.expanded_groups.clone(),
        pages: pages(&asks),
        ..*scene
    };
    transcript_entry_rows(&lines, &entries[0], &scene, width, nested)
}

#[test]
fn truncated_detail_rows_and_collapsed_thought_previews_take_clicks() {
    let tool = Line_::Tool(ToolRow {
        arguments: s("x"),
        argument_detail: s("{}"),
        result: Some(
            (0..40).map(|index| format!("line {index}")).collect::<Vec<_>>().join("\n"),
        ),
        expanded: true,
        ..row("call-1", "read")
    });
    let scene = scene_at(0, &["g:call-1"]);
    let rows = entry_rows(tool, &scene, 100, false);
    let more_row = rows
        .iter()
        .find(|row| rendered_text(&row.line).contains("… more"))
        .expect("a truncated result row");
    assert_eq!(
        more_row.target,
        Some(TranscriptHitTarget::Tool(s("call-1"))),
        "clicking the more row must advance the expansion"
    );

    // A collapsed notification row: the headline and its hint both take the click.
    let text = (0..8).map(|index| format!("body {index}")).collect::<Vec<_>>().join("\n");
    let task = Line_::Task { id: s("t1"), text: text.clone(), expanded: false };
    let rows = entry_rows(task, &scene, 100, false);
    assert!(rows.len() > 1);
    assert!(rows.iter().any(|row| rendered_text(&row.line).contains("click to expand")));
    assert!(
        rows.iter().all(|row| row.target == Some(TranscriptHitTarget::Thought(s("t1")))),
        "every collapsed-preview row is a click target"
    );

    // Expanded, only the header keeps it.
    let task = Line_::Task { id: s("t1"), text, expanded: true };
    let rows = entry_rows(task, &scene, 100, false);
    assert_eq!(rows[0].target, Some(TranscriptHitTarget::Thought(s("t1"))));
    assert!(rows[1..].iter().all(|row| row.target.is_none()));
}

#[test]
fn a_single_line_notification_row_advertises_no_click() {
    for line in [
        Line_::Task { id: s("t1"), text: s("task abc finished"), expanded: false },
        Line_::Job { id: s("j1"), text: s("job done"), expanded: false },
    ] {
        let rows = entry_rows(line, &scene(), 100, false);
        assert!(
            rows.iter().all(|row| row.target.is_none()),
            "nothing to expand, nothing to click"
        );
    }
}

#[test]
fn a_completed_write_call_carries_a_diff() {
    let mut lines = Vec::new();
    push_tool_row(&mut lines, "w1", s("g"), "write");
    let added = |text: &str| DiffLine { kind: DiffKind::Added, text: s(text) };
    complete_tool_input(
        &mut lines,
        "w1",
        "{\"path\":\"f.rs\",\"content\":\"a\\nb\"}",
        &vec![added("a"), added("b")],
    );
    let Line_::Tool(row) = &lines[0] else {
        panic!("tool row")
    };
    assert_eq!(row.diff.len(), 2);
    assert!(row.diff.iter().all(|line| line.kind == DiffKind::Added));
}

#[test]
fn an_animating_agent_row_does_not_re_render_its_child_transcript() {
    let child = || -> Vec<Line_> {
        (0..60)
            .map(|index| Line_::Assistant(format!("## step {index}\n\nbody *text* here")))
            .collect()
    };
    let lines = vec![agent_row("task-1", child(), true)];
    let mut cache = TranscriptRenderCache::new();
    update(&mut cache, &lines, scene_at(0, &[]), 1, 80);
    let rows = cache.visible_rows(0, 40, &vec![]);
    assert_eq!(cache.child_renders(), 1);

    // Ten animation frames, no marks: the clock moved, the model did not.
    for frame in 1..=10 {
        update(&mut cache, &lines, scene_at(50 * frame, &[]), 1, 80);
    }
    assert_eq!(
        cache.child_renders(),
        1,
        "the child timeline is rendered once, not once per frame"
    );
    let after = cache.visible_rows(0, 40, &vec![]);
    let child_text = |rows: &[TranscriptRow]| {
        rows.iter().skip(1).map(|row| rendered_text(&row.line)).collect::<Vec<_>>()
    };
    assert_eq!(
        child_text(&rows),
        child_text(&after),
        "and it still shows the same rows"
    );
    assert_ne!(
        rendered_text(&rows[0].line),
        rendered_text(&after[0].line),
        "while the row's own spinner keeps turning"
    );

    // A change to the child marks the entry, and the rows follow it.
    let mut grown_child = child();
    grown_child.push(Line_::Assistant(s("the last word")));
    let grown = vec![agent_row("task-1", grown_child, true)];
    cache.mark_dirty_from(0, 2);
    update(&mut cache, &grown, scene_at(0, &[]), 2, 80);
    assert!(cache
        .visible_rows(0, 200, &vec![])
        .iter()
        .any(|row| rendered_text(&row.line).contains("the last word")));
}

#[test]
fn detail_rows_cut_their_source_before_wrapping_and_still_say_there_is_more() {
    let long = "x".repeat(16 * 1024);
    let (source, cut) = detail_source_lines(&long, 4, 20);
    assert!(cut, "there is more than four rows' worth");
    assert_eq!(source.len(), 1);
    assert_eq!(
        source[0].chars().count(),
        4 * 20 + 1,
        "just enough to fill four rows and prove a fifth exists"
    );

    let many = (0..500).map(|i| format!("line {i}")).collect::<Vec<_>>().join("\n");
    let (source, cut) = detail_source_lines(&many, 4, 20);
    assert!(cut);
    assert_eq!(source.len(), 5);

    // Nothing cut when it all fits, and the empty case still has a line to draw.
    let (source, cut) = detail_source_lines("a\nb", 4, 20);
    assert_eq!(source, vec!["a".to_string(), "b".to_string()]);
    assert!(!cut);
    let (source, cut) = detail_source_lines("", 4, 20);
    assert_eq!(source, vec![String::new()]);
    assert!(!cut);

    let rows = tool_detail_rows("args", &long, 60, 0, 4, false, &None);
    assert_eq!(rows.len(), 4);
    assert!(rendered_text(&rows[3].line).contains("… more"));
}

#[test]
fn a_reasoning_row_without_a_click_target_advertises_nothing() {
    let nested = Line_::Thought {
        id: String::new(),
        text: s("reasoning"),
        complete: false,
        expanded: false,
    };
    let rows = entry_rows(nested, &scene(), 80, true);
    assert!(rows.iter().all(|row| row.target.is_none()));
    let text = rendered_text(&rows[0].line);
    assert!(!text.contains('+'), "{text}");
    assert!(!text.contains('▸') && !text.contains('▾'), "{text}");
}

#[test]
fn hover_underline_marks_content_and_skips_structure() {
    let mut line = Line::of(vec![
        Span::raw("  └─ "),
        Span::raw("read"),
        Span::raw(" main.rs"),
    ]);
    underline_content_spans(&mut line);

    assert!(
        !line.spans[0].style.modifier.underlined,
        "branch glyphs and indent stay bare"
    );
    assert!(line.spans[1].style.modifier.underlined);
    assert!(line.spans[2].style.modifier.underlined);
}

#[test]
fn the_transcript_tail_keeps_a_blank_row_off_the_input() {
    let mut cache = TranscriptRenderCache::new();
    let lines = vec![Line_::Assistant(s("done"))];
    update(&mut cache, &lines, scene(), 1, 40);

    let rows = cache.visible_rows(0, 10, &vec![]);
    let text = rows.iter().map(|row| rendered_text(&row.line)).collect::<Vec<_>>();

    assert!(text.first().unwrap().contains("done"), "{text:?}");
    assert_eq!(
        text.last().map(String::as_str),
        Some(""),
        "the answer hugs the input box: {text:?}"
    );
    // The padding is real content, so scrolling can reach it.
    assert_eq!(cache.row_count(), rows.len());

    // It sits below the activity rows, not above them.
    let busy = cache.visible_rows(0, 10, &vec![Line::of(vec![Span::raw("thinking…")])]);
    let busy_text = busy.iter().map(|row| rendered_text(&row.line)).collect::<Vec<_>>();
    assert_eq!(busy_text.last().map(String::as_str), Some(""), "{busy_text:?}");
    assert!(busy_text[busy_text.len() - 2].contains("thinking"), "{busy_text:?}");
}

#[test]
fn tool_diff_rows_truncate_and_expand() {
    let diff: Vec<DiffLine> = (0..12)
        .map(|index| DiffLine { kind: DiffKind::Added, text: format!("added line {index}") })
        .collect();
    let limited = tool_diff_rows(&diff, 80, 4, 8, &None);
    assert_eq!(limited.len(), 8);
    assert!(rendered_text(&limited.last().unwrap().line).contains("… more"));
    assert!(!limited.iter().any(|row| rendered_text(&row.line).contains("added line 11")));

    let full = tool_diff_rows(&diff, 80, 4, usize::MAX, &None);
    assert_eq!(full.len(), 12);
    assert!(full.iter().any(|row| rendered_text(&row.line).contains("added line 11")));
    assert!(!full.iter().any(|row| rendered_text(&row.line).contains("… more")));
}

#[test]
fn grouped_tool_rows_align_to_their_widest_sibling() {
    let calls = vec![
        finished_tool("t1", "bash", "cargo test"),
        finished_tool("t2", "webfetch", "https://x"),
    ];
    let group = TranscriptEntry {
        start: 0,
        end: 2,
        group: Some(Group { id: s("g"), expanded: true, child: false }),
    };
    let rows = transcript_entry_rows(&calls, &group, &scene(), 120, false);
    let rendered: Vec<String> = rows.iter().map(|row| rendered_text(&row.line)).collect();
    let bash = rendered.iter().find(|row| row.contains("bash")).unwrap();
    let fetch = rendered.iter().find(|row| row.contains("webfetch")).unwrap();

    assert_eq!(bash.find('✓'), fetch.find('✓'), "{bash:?} vs {fetch:?}");
    assert!(bash.contains("bash     ✓"), "{bash}");
    assert!(fetch.contains("webfetch ✓"), "{fetch}");
}

#[test]
fn transcript_markdown_renders_all_line_kinds() {
    let lines = vec![
        Line_::User(s("fix the bug")),
        Line_::Thought {
            id: s("thought:1"),
            text: s("check the parser\nthen the lexer"),
            complete: true,
            expanded: false,
        },
        Line_::Tool(ToolRow {
            arguments: s("cargo test"),
            result: Some(s("all green")),
            ..row("t1", "bash")
        }),
        Line_::Assistant(s("Fixed it.")),
        Line_::System(s("switched to zai/glm-5.3")),
    ];
    let markdown = transcript_markdown("abcd1234-rest", &lines);
    assert!(markdown.starts_with("# ilar session abcd1234-rest"));
    assert!(markdown.contains("## You\n\nfix the bug"), "{markdown}");
    assert!(markdown.contains("> check the parser\n> then the lexer"));
    assert!(markdown.contains("- `bash` cargo test\n"));
    assert!(markdown.contains("```\nall green\n```"));
    assert!(markdown.contains("## ilar\n\nFixed it."));
    assert!(markdown.contains("*switched to zai/glm-5.3*"));
}

#[test]
fn agent_reply_previews_are_bounded_tails() {
    // Short replies pass through untouched.
    assert_eq!(preview_tail("done"), "done");
    // Long replies show only the last lines, marked truncated.
    let long: String =
        (0..30).map(|index| format!("finding number {index}")).collect::<Vec<_>>().join("\n");
    let preview = preview_tail(&long);
    assert!(preview.starts_with("… "), "{preview}");
    assert!(preview.contains("finding number 29"), "{preview}");
    assert!(!preview.contains("finding number 5"), "{preview}");

    // A live child with a long reply previews bounded in the parent.
    let child = vec![Line_::Assistant(long)];
    let previewed = agent_live_preview(&child);
    let Some(Line_::Assistant(text)) = previewed.first() else {
        panic!("assistant preview expected: {previewed:?}");
    };
    assert!(text.lines().count() <= 3, "{text}");
}

fn thought(text: &str) -> Line_ {
    Line_::Thought { id: String::new(), text: s(text), complete: true, expanded: false }
}

#[test]
fn transcript_uses_neutral_body_text_and_distinct_reasoning_color() {
    let assistant = entry_lines(&Line_::Assistant(s("plain response")), 80);
    assert_eq!(assistant[0].spans[0].style.fg, Some(theme::ASSISTANT));
    assert_eq!(assistant[0].spans[1].style.fg, Some(theme::PRIMARY));

    let user = entry_lines(&Line_::User(s("plain request")), 80);
    assert_eq!(user[0].spans[0].style.fg, Some(theme::USER));
    assert_eq!(user[0].spans[1].style.fg, Some(theme::PRIMARY));

    let thought = entry_lines(&thought("Inspecting state"), 80);
    assert_eq!(thought[0].spans[0].style.fg, Some(theme::REASONING));
    assert_ne!(theme::REASONING, theme::WAITING);
}

#[test]
fn repeated_chrome_spends_its_colour_sparingly() {
    let thought = entry_lines(&thought("Inspecting state"), 80);
    assert!(rendered_text(&thought[0]).contains("Inspecting state"));
    assert_eq!(thought[0].spans[1].style.fg, Some(theme::SECONDARY));

    // A group of calls that all worked is scaffolding; one that failed is not.
    let succeeded = tool_group_line(3, 0, 0, false, 80);
    assert!(
        succeeded.spans.iter().all(|span| span.style.fg == Some(theme::MUTED)),
        "{succeeded:?}"
    );
    let failed = tool_group_line(3, 0, 1, false, 80);
    assert!(
        failed.spans.iter().any(|span| span.style.fg == Some(theme::ERROR)),
        "{failed:?}"
    );
}

#[test]
fn diff_tints_reach_the_margin() {
    let rows = tool_diff_rows(
        &vec![
            DiffLine { kind: DiffKind::Added, text: s("let x = 1;") },
            DiffLine { kind: DiffKind::Context, text: s("unchanged") },
        ],
        60,
        0,
        10,
        &None,
    );
    let added = &rows[0].line;
    assert_eq!(
        added.spans.last().unwrap().style.bg,
        Some(ilar_tui::style::Color::Indexed(theme::DIFF_ADD_BG))
    );
    let context = &rows[1].line;
    assert!(
        context.spans.iter().all(|span| span.style.bg.is_none()),
        "unchanged rows stay untinted: {context:?}"
    );
}

#[test]
fn markdown_tables_use_the_transcript_content_width() {
    let table = "| Phase | Estimate |\n| --- | ---: |\n| Signed-device testing | 1–2 weeks |";
    let page = |width: usize, lines: &[&str]| Page {
        text: s(table),
        width,
        lines: lines.iter().map(|line| Line::of(vec![Span::raw(line)])).collect(),
    };
    // The page that was made for the content's width is the one that is shown.
    let scene = Scene {
        pages: vec![
            page(26, &["Phase | Estimate", "--- | ---:", "Signed-device testing | 1–2 weeks"]),
            page(21, &["Phase: Signed-device", "testing", "Estimate: 1–2 weeks"]),
        ],
        ..scene()
    };
    let rows = transcript_entry_lines(&Line_::Assistant(s(table)), 26, &scene);
    let rendered = rows.iter().map(rendered_text).collect::<Vec<_>>();

    assert!(rendered.iter().all(|line| line.width() <= 26));
    assert!(rendered.iter().any(|line| line.contains("Phase:")));
    assert!(!rendered.iter().any(|line| line.contains("---")));
}

#[test]
fn thought_tails_are_bounded() {
    let mut text = String::new();
    append_thought_tail(&mut text, &"x".repeat(MAX_THOUGHT_CHARS + 500));
    assert!(text.len() <= MAX_THOUGHT_CHARS + '…'.len_utf8());
    assert!(text.starts_with('…'));
    // Multi-byte boundary safety.
    let mut unicode = String::new();
    append_thought_tail(&mut unicode, &"é".repeat(MAX_THOUGHT_CHARS));
    assert!(unicode.starts_with('…'));
    assert!(unicode.ends_with('é'));
}

#[test]
fn child_reasoning_summaries_are_bounded_like_the_parents() {
    let mut lines = Vec::new();
    let mut group = 0u64;
    for _ in 0..4 {
        apply_child_loop_event(
            &mut lines,
            &mut group,
            "call-1",
            &LoopEvent::ReasoningSummaryDelta("x".repeat(MAX_THOUGHT_CHARS / 2)),
        );
    }
    let Some(Line_::Thought { text, .. }) = lines.last() else {
        panic!("a child thought row: {lines:?}");
    };
    assert!(
        text.len() <= MAX_THOUGHT_CHARS + '…'.len_utf8(),
        "child thought grew to {} bytes",
        text.len()
    );
}

#[test]
fn child_tool_events_land_on_the_newest_row_with_that_id() {
    let mut lines = vec![finished_tool("call-1", "read", "stale")];
    let mut group = 0u64;
    apply_child_loop_event(
        &mut lines,
        &mut group,
        "scope",
        &LoopEvent::ToolStarted { id: s("call-1"), name: s("read") },
    );
    apply_child_loop_event(
        &mut lines,
        &mut group,
        "scope",
        &LoopEvent::ToolArguments { id: s("call-1"), arguments: s("live") },
    );
    let arguments = lines
        .iter()
        .map(|line| match line {
            Line_::Tool(row) => row.arguments.as_str(),
            _ => "",
        })
        .collect::<Vec<_>>();
    assert_eq!(arguments, ["stale", "live"], "{lines:?}");
}

#[test]
fn tool_rows_never_exceed_their_width() {
    for width in 0..=100 {
        let line = tool_line(
            "extremely-long-tool-name",
            &ToolKind::Tool,
            "👩‍💻 /very/long/path/to/a/file with arguments",
            ToolState::Succeeded,
            width,
            0,
            ToolProgress::Idle,
            60_000,
        );
        let rendered = rendered_text(&line);
        assert!(
            UnicodeWidthStr::width(rendered.as_str()) <= width as usize,
            "width {width}: {rendered:?}"
        );
        let progress = tool_line(
            "write",
            &ToolKind::Tool,
            "👩‍💻 /very/long/path/to/a/file",
            ToolState::Running,
            width,
            0,
            ToolProgress::Receiving { received_bytes: u64::MAX, last_data: 30_000 },
            60_000,
        );
        let rendered = rendered_text(&progress);
        assert!(
            UnicodeWidthStr::width(rendered.as_str()) <= width as usize,
            "progress width {width}: {rendered:?}"
        );
    }
}

// ---- Events ----

#[test]
fn a_call_goes_from_arriving_to_settled() {
    let mut lines = Vec::new();
    push_tool_row(&mut lines, "c", s("g"), "bash");
    assert_eq!(note_tool_input_progress(&mut lines, "c", 10, 5), Some(0));
    assert_eq!(complete_tool_input(&mut lines, "c", "{}", &vec![]), Some(0));
    // Bytes that arrive late say less than that the call is queued.
    assert_eq!(note_tool_input_progress(&mut lines, "c", 11, 6), None);
    assert_eq!(start_tool_execution(&mut lines, "c", 11, 7), Some(0));
    assert_eq!(set_tool_tail(&mut lines, "c", "building"), Some(0));
    assert_eq!(complete_tool_execution(&mut lines, "c"), Some(0));
    assert_eq!(finish_tool_row(&mut lines, "c", false, "ok", &None), Some(0));
    // A result is settled once.
    assert_eq!(finish_tool_row(&mut lines, "c", true, "late", &None), None);
    let Line_::Tool(row) = &lines[0] else {
        panic!("tool row")
    };
    assert_eq!(row.state, ToolState::Succeeded);
    assert_eq!(row.result.as_deref(), Some("ok"));
    assert_eq!(row.tail, "building");
}

#[test]
fn a_broken_turn_leaves_nothing_running() {
    let mut lines = vec![
        agent_row("a", vec![agent_row("b", vec![], false)], false),
        Line_::Thought { id: s("t"), text: s("half"), complete: false, expanded: false },
        Line_::Assistant(s("said")),
    ];
    assert_eq!(prune_incomplete_thoughts(&mut lines), Some(1));
    assert_eq!(lines.len(), 2);
    assert_eq!(prune_incomplete_thoughts(&mut lines), None);
    mark_running_tools_failed(&mut lines);
    let Line_::Tool(outer) = &lines[0] else {
        panic!("tool row")
    };
    let Line_::Tool(inner) = &outer.child_lines[0] else {
        panic!("tool row")
    };
    assert_eq!((outer.state, inner.state), (ToolState::Failed, ToolState::Failed));
}

#[test]
fn a_timeline_takes_every_event() {
    let mut lines = Vec::new();
    let mut group = 0u64;
    let mut apply = |event: LoopEvent| {
        apply_child_loop_event(&mut lines, &mut group, "call", &event);
    };
    apply(LoopEvent::TurnStarted);
    apply(LoopEvent::ThinkingDelta(s("hidden")));
    apply(LoopEvent::ReasoningSummaryCompleted);
    apply(LoopEvent::TextDelta(s("he")));
    apply(LoopEvent::TextDelta(s("llo")));
    apply(LoopEvent::ToolStarted { id: s("x"), name: s("task") });
    apply(LoopEvent::SubagentConfigured {
        id: s("x"),
        description: s("look"),
        agent: s("explore"),
        model: Some(s("zai/glm-4.7")),
    });
    apply(LoopEvent::StepComplete);
    apply(LoopEvent::ToolStarted { id: s("y"), name: s("bash") });
    apply(LoopEvent::Steered { text: s("and this"), markers: s(" [image]") });
    apply(LoopEvent::TurnDone { completed: false });
    assert_eq!(group, 1);
    assert_eq!(lines.len(), 5);
    assert!(matches!(&lines[0], Line_::Thought { complete: true, .. }));
    assert!(matches!(&lines[1], Line_::Assistant(text) if text == "hello"));
    assert!(matches!(&lines[2], Line_::Tool(row) if row.group_id == "call:0"
        && display_name(&row.name, &row.kind) == "explore@glm-4.7"
        && row.arguments == "look"
        && row.state == ToolState::Failed));
    assert!(matches!(&lines[3], Line_::Tool(row) if row.group_id == "call:1"));
    assert!(matches!(&lines[4], Line_::Incoming(text) if text == "and this [image]"));
}

#[test]
fn a_row_unfolds_in_stages_and_comes_back() {
    let folded = || vec![agent_row("a", vec![finished_tool("b", "bash", "x")], false)];
    let mut lines = folded();
    for (expanded, full) in [(true, false), (true, true), (false, false)] {
        assert_eq!(toggle_tool_expansion(&mut lines, "b"), Some(0));
        let Line_::Tool(outer) = &lines[0] else {
            panic!("tool row")
        };
        let Line_::Tool(inner) = &outer.child_lines[0] else {
            panic!("tool row")
        };
        assert_eq!((inner.expanded, inner.full), (expanded, full));
    }
    assert_eq!(lines, folded());
    assert_eq!(toggle_tool_expansion(&mut lines, "none"), None);
    // A group is named after its first call; an agent's row begins none.
    assert_eq!(tool_group_index(&lines, "g:b"), Some(0));
    assert_eq!(tool_group_index(&lines, "g:a"), None);
}

#[test]
fn an_agents_activity_shows_below_its_call() {
    let activity = |session: &str, call: &str, child: &str, text: &str| SubagentActivity {
        parent_session_id: s(session),
        parent_call_id: s(call),
        child_session_id: s(child),
        agent: s("explore"),
        event: LoopEvent::TextDelta(s(text)),
    };
    let mut lines = vec![
        Line_::User(s("go")),
        Line_::Tool(ToolRow { state: ToolState::Running, ..row("t1", "task_message") }),
    ];
    apply_subagent_activity(&mut lines, "root", &activity("root", "t1", "kid", "hi"));
    let Line_::Tool(t1) = &lines[1] else {
        panic!("tool row")
    };
    assert!(matches!(&t1.kind, ToolKind::Agent { name, .. } if name == "explore"));
    assert!(matches!(&t1.child_lines[0], Line_::Assistant(text) if text == "hi"));
    assert_eq!(t1.child_session_id.as_deref(), Some("kid"));
    assert!(t1.child_running);

    // A grandchild finds its place through the session of its parent.
    let started = SubagentActivity {
        event: LoopEvent::ToolStarted { id: s("t2"), name: s("task") },
        ..activity("root", "t1", "kid", "")
    };
    apply_subagent_activity(&mut lines, "root", &started);
    assert!(session_lines_for_call(&lines, "kid", "t2"));
    let deep = activity("kid", "t2", "grandkid", "deep");
    assert_eq!(subagent_owner_index(&lines, "root", &deep), Some(1));
    apply_subagent_activity(&mut lines, "root", &deep);
    let text = format!("{lines:?}");
    assert!(text.contains("deep") && text.contains("grandkid"), "{text}");

    // What belongs to no row changes nothing.
    let stray = activity("nobody", "t9", "x", "lost");
    assert_eq!(subagent_owner_index(&lines, "root", &stray), None);
    apply_subagent_activity(&mut lines, "root", &stray);
    assert!(!format!("{lines:?}").contains("lost"));
}

// ---- Rows and the cache ----

#[test]
fn adjacent_calls_of_a_step_are_one_entry() {
    let lines = vec![
        Line_::User(s("go")),
        finished_tool("t1", "read", "a"),
        finished_tool("t2", "read", "b"),
        Line_::Tool(ToolRow { state: ToolState::Running, ..row("t3", "bash") }),
    ];
    let entries = transcript_entries(&lines, &vec![]);
    assert_eq!(entries.len(), 2);
    assert_eq!((entries[1].start, entries[1].end), (1, 4));
    assert!(transcript_entry_animated(&lines, &entries[1]));
    assert!(!transcript_entry_animated(&lines, &entries[0]));
}

#[test]
fn a_marked_change_renders_what_a_fresh_cache_would() {
    let old = vec![
        Line_::User(s("one")),
        Line_::Assistant(s("two")),
        Line_::System(s("three")),
    ];
    let new = vec![
        Line_::User(s("one")),
        Line_::Assistant(s("two and a half")),
        Line_::System(s("three")),
        Line_::User(s("four")),
    ];
    let text = |cache: &TranscriptRenderCache| {
        cache
            .visible_rows(0, 100, &vec![])
            .iter()
            .map(|row| rendered_text(&row.line))
            .collect::<Vec<_>>()
    };
    let mut cache = TranscriptRenderCache::new();
    update(&mut cache, &old, scene(), 1, 60);
    cache.mark_dirty_from(1, 2);
    update(&mut cache, &new, scene(), 2, 60);
    let mut fresh = TranscriptRenderCache::new();
    update(&mut fresh, &new, scene(), 1, 60);
    assert_eq!(text(&cache), text(&fresh));
    // Another width renders everything anew.
    update(&mut cache, &new, scene(), 2, 30);
    update(&mut fresh, &new, scene(), 1, 30);
    assert_eq!(text(&cache), text(&fresh));
}

#[test]
fn rows_are_searched_whatever_their_case() {
    let mut cache = TranscriptRenderCache::new();
    let lines = vec![Line_::User(s("Find the NEEDLE")), Line_::Assistant(s("no"))];
    update(&mut cache, &lines, scene(), 1, 60);
    let found = cache.matching_rows("needle");
    assert_eq!(found.len(), 1);
    let rows = cache.visible_rows(found[0], 1, &vec![]);
    assert!(rendered_text(&rows[0].line).contains("NEEDLE"));
    assert_eq!(cache.matching_rows("NeEdLe"), found);
    assert!(cache.matching_rows("  ").is_empty());
    assert!(cache.matching_rows("absent").is_empty());
    let accents = vec![Line_::User(s("ÀÉ"))];
    let mut cache = TranscriptRenderCache::new();
    update(&mut cache, &accents, scene(), 1, 60);
    assert_eq!(cache.matching_rows("àé").len(), 1);
}

#[test]
fn a_thoughts_title_is_its_heading() {
    assert_eq!(reasoning_summary_title("**Planning**\n\nDetails"), "Planning");
    assert_eq!(reasoning_summary_title("## Reading code"), "Reading code");
    assert_eq!(reasoning_summary_title("   "), "reasoning");
}

#[test]
fn what_is_pending_is_shown_in_one_row() {
    let shown = pending_summary("a\nb", 0);
    assert!(!shown.contains('\n'), "{shown}");
    assert!(shown.contains('a') && shown.contains('b'), "{shown}");
    assert_ne!(pending_summary("a", 2), pending_summary("a", 0));
}

#[test]
fn a_render_asks_for_the_pages_of_what_it_shows() {
    let asks = |lines: &Vec<Line_>, width: u16| {
        TranscriptRenderCache::new()
            .pages_asked(lines, &Vec::new(), 1, width)
            .into_iter()
            .map(|ask| (ask.text, ask.width))
            .collect::<Vec<_>>()
    };
    let reply = |text: &str| Line_::Assistant(s(text));
    // A reply asks for what is left beside the speaker's name, anything else for
    // nothing.
    let lines = vec![Line_::User(s("go")), reply("one"), finished_tool("t1", "bash", "x")];
    assert_eq!(asks(&lines, 80), [(s("one"), 75)]);
    assert_eq!(asks(&lines, 4), [(s("one"), 2)]);
    // A timeline stands in from the left; folded, only its preview is shown.
    let child = || vec![reply("a\nb\nc"), reply("d\ne\nf")];
    let open = vec![agent_row("task-1", child(), true)];
    assert_eq!(asks(&open, 80), [(s("a\nb\nc"), 71), (s("d\ne\nf"), 71)]);
    let folded = vec![agent_row("task-1", child(), false)];
    assert_eq!(asks(&folded, 80), [(s("… e\nf"), 71)]);
    let settled = Line_::Tool(ToolRow {
        kind: ToolKind::Agent { name: s("explore"), model: None },
        child_lines: child(),
        ..row("task-2", "task")
    });
    assert!(asks(&vec![settled], 80).is_empty());
}

#[test]
fn an_update_asks_only_for_what_it_renders() {
    let old = vec![
        Line_::Assistant(s("one")),
        agent_row("task-1", vec![Line_::Assistant(s("two"))], true),
    ];
    let mut cache = TranscriptRenderCache::new();
    update(&mut cache, &old, scene(), 1, 80);
    // The clock alone asks for nothing: the agent's timeline is remembered.
    assert!(cache.pages_asked(&old, &Vec::new(), 1, 80).is_empty());
    let new = vec![
        Line_::Assistant(s("one")),
        agent_row("task-1", vec![Line_::Assistant(s("two"))], true),
        Line_::Assistant(s("three")),
    ];
    cache.mark_dirty_from(2, 2);
    let asks = cache.pages_asked(&new, &Vec::new(), 2, 80);
    assert_eq!(asks, [PageAsk { text: s("three"), width: 75 }]);
    // What is there already is not missing.
    assert_eq!(missing_pages(&Vec::new(), &asks), asks);
    assert!(missing_pages(&pages(&asks), &asks).is_empty());
    assert_eq!(cache.pages_asked(&new, &Vec::new(), 2, 60).len(), 3);
}

#[test]
fn a_reply_is_shown_as_its_page() {
    let page = |width: usize, line: &str| Page {
        text: s("# Title"),
        width,
        lines: vec![Line::of(vec![Span::raw(line)])],
    };
    let scene = Scene { pages: vec![page(30, "narrow"), page(75, "wide")], ..scene() };
    let shown = transcript_entry_lines(&Line_::Assistant(s("# Title")), 80, &scene);
    assert_eq!(shown.iter().map(rendered_text).collect::<Vec<_>>(), ["ilar wide"]);
}
