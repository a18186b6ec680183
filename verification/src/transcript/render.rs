//! The rows of an entry: of a line, of a call with what it unfolds, of a group
//! of calls, and of the timeline below an agent.

use vstd::prelude::*;
use crate::chars::{group_views, own, same, views};
use crate::format::{safe_line_list, safe_lines};
use crate::measure::{text_width, width as columns_of};
use crate::style::{fg, line, span, Line, Span, Style};
use crate::text::wrap_styled_line;
use crate::theme::BORDER;
use crate::transcript::details::{
    append_lines, append_spans, copy_target, detail_rows, diff_rows, extend_rows, target_view,
    tool_detail_rows, tool_diff_rows, wrapped_each, RowView, TargetView, TranscriptHitTarget,
    TranscriptRow,
};
use crate::transcript::events::is_open_state;
use crate::transcript::lines::{elapsed, entry_lines, transcript_entry_lines, Scene, SceneView};
use crate::transcript::model::{
    depth, depths, lemma_depths, lemma_tool_view, ItemView, Line_, ToolKind, ToolRow, ToolState,
    ToolView,
};
use crate::transcript::pages::{
    call_asks, child_asks, entry_asks, group_asks, lemma_prepared_both, line_asks, memo_asks,
    prepared, timeline_asks,
};
use crate::transcript::rows::{
    active_count, agent_live_preview, branch_prefix, entry_at, entry_fits, failed_count,
    hierarchy_prefix, indent_transcript_row, indented, is_active, lemma_preview_depth,
    lemma_run_end, live_preview, tool_is_active, transcript_entry_at, count_active, count_failed,
    EntryView, GroupView, TranscriptEntry,
};
use crate::transcript::tool_line::{
    call_line, display_name, group_line, less, min, shown_name, tool_group_line,
    tool_line_with_disclosure, CallView,
};

verus! {

broadcast use {group_views, lemma_tool_view};

/// What a click on a line names, and whether every row of it takes the click: a
/// thought or notification that is folded does. A notification of one line has
/// nothing to unfold.
pub open spec fn note_target(l: ItemView) -> (Option<TargetView>, bool) {
    match l {
        ItemView::Thought { id, expanded, .. } => if id.len() > 0 {
            (Some(TargetView::Thought(id)), !expanded)
        } else {
            (None, false)
        },
        ItemView::Task { id, text, expanded } => body_target(id, text, expanded),
        ItemView::Job { id, text, expanded } => body_target(id, text, expanded),
        ItemView::Note { id, text, expanded } => body_target(id, text, expanded),
        _ => (None, false),
    }
}

pub open spec fn body_target(id: Seq<char>, text: Seq<char>, expanded: bool) -> (
    Option<TargetView>,
    bool,
) {
    if id.len() > 0 && safe_line_list(text).len() > 1 {
        (Some(TargetView::Thought(id)), !expanded)
    } else {
        (None, false)
    }
}

/// The rows of a line that is not a call.
pub open spec fn item_rows(l: ItemView, scene: SceneView, width: nat) -> Seq<RowView> {
    let all = wrapped_each(entry_lines(l, width, scene), width);
    let target = note_target(l);
    Seq::new(
        all.len(),
        |i: int|
            RowView {
                line: all[i],
                target: if i == 0 || target.1 {
                    target.0
                } else {
                    None
                },
            },
    )
}

fn target_of_body(id: &str, text: &str, expanded: bool) -> (r: (
    Option<TranscriptHitTarget>,
    bool,
))
    ensures
        (target_view(r.0), r.1) == body_target(id@, text@, expanded),
{
    let parts: Vec<String> = safe_lines(text);
    assert(views(parts@).len() == parts@.len());
    if !id.is_empty() && parts.len() > 1 {
        (Some(TranscriptHitTarget::Thought(own(id))), !expanded)
    } else {
        (None, false)
    }
}

fn target_of_note(l: &Line_) -> (r: (Option<TranscriptHitTarget>, bool))
    ensures
        (target_view(r.0), r.1) == note_target(l@),
{
    match l {
        Line_::Thought { id, expanded, .. } => if !id.as_str().is_empty() {
            (Some(TranscriptHitTarget::Thought(own(id.as_str()))), !*expanded)
        } else {
            (None, false)
        },
        Line_::Task { id, text, expanded } => target_of_body(id.as_str(), text.as_str(), *expanded),
        Line_::Job { id, text, expanded } => target_of_body(id.as_str(), text.as_str(), *expanded),
        Line_::Note { id, text, expanded } => target_of_body(id.as_str(), text.as_str(), *expanded),
        _ => (None, false),
    }
}

fn rows_of_item(l: &Line_, scene: &Scene, width: u16) -> (r: Vec<TranscriptRow>)
    requires
        prepared(scene@.pages, line_asks(l@, width as nat)),
    ensures
        views(r@) == item_rows(l@, scene@, width as nat),
{
    let content: Vec<Line> = transcript_entry_lines(l, width, scene);
    let ghost all = views(content@);
    let mut rows: Vec<Line> = Vec::new();
    let mut i: usize = 0;
    assert(all.take(0) =~= Seq::empty());
    while i < content.len()
        invariant
            i <= content@.len(),
            all == views(content@),
            views(rows@) == wrapped_each(all.take(i as int), width as nat),
        decreases content@.len() - i,
    {
        assert(all.take(i + 1).drop_last() =~= all.take(i as int));
        assert(all[i as int] == content@[i as int]@);
        append_lines(&mut rows, wrap_styled_line(&content[i], width as usize));
        i += 1;
    }
    assert(all.take(i as int) =~= all);
    let (target, whole) = target_of_note(l);
    let ghost want = item_rows(l@, scene@, width as nat);
    let ghost shown = views(rows@);
    assert(shown.len() == rows@.len());
    let mut r: Vec<TranscriptRow> = Vec::new();
    let mut k: usize = 0;
    while k < rows.len()
        invariant
            k <= rows@.len(),
            shown == views(rows@),
            shown == wrapped_each(entry_lines(l@, width as nat, scene@), width as nat),
            (target_view(target), whole) == note_target(l@),
            want == item_rows(l@, scene@, width as nat),
            views(r@) == want.take(k as int),
        decreases rows@.len() - k,
    {
        assert(shown[k as int] == rows@[k as int]@);
        r.push(
            TranscriptRow {
                line: rows[k].copy(),
                target: if k == 0 || whole {
                    copy_target(&target)
                } else {
                    None
                },
            },
        );
        k += 1;
        assert(views(r@) =~= want.take(k as int));
    }
    assert(views(r@) =~= want);
    r
}

/// How many rows of a block are shown: few, or all where the row is open in full.
pub open spec fn block_limit(full: bool, few: nat) -> nat {
    if full {
        usize::MAX as nat
    } else {
        few
    }
}

/// What an unfolded call shows below its row: what it was given, what it says
/// while it runs, and what it brought.
pub open spec fn unfolded_rows(t: ToolView, width: nat, indent: nat) -> Seq<RowView> {
    let more = Some(TargetView::Tool(t.id));
    let given = if t.diff.len() == 0 {
        detail_rows(
            "args"@,
            t.argument_detail,
            width,
            indent + 4,
            block_limit(t.full, 4),
            false,
            more,
        )
    } else {
        diff_rows(t.diff, width, indent + 4, block_limit(t.full, 8), more)
    };
    let said = if t.state == ToolState::Running && t.tail.len() > 0 {
        detail_rows("tail"@, t.tail, width, indent + 4, block_limit(t.full, 6), false, more)
    } else {
        Seq::empty()
    };
    let brought = if t.kind is Tool || t.child_lines.len() == 0 || t.state == ToolState::Failed {
        detail_rows(
            "result"@,
            match t.result {
                Some(result) => result,
                None => "pending"@,
            },
            width,
            indent + 4,
            block_limit(t.full, 8),
            t.state == ToolState::Failed,
            more,
        )
    } else {
        Seq::empty()
    };
    given + said + brought
}

/// The row of a call, behind its branch where it has one.
pub open spec fn call_row(
    t: ToolView,
    scene: SceneView,
    width: nat,
    indent: nat,
    branch: Option<Seq<char>>,
    name_column: nat,
) -> RowView {
    let shown = call_line(
        CallView {
            name: t.name,
            kind: t.kind,
            arguments: t.arguments,
            state: if t.child_running {
                ToolState::Running
            } else {
                t.state
            },
            progress: t.progress,
            expanded: t.expanded,
            full: t.full,
        },
        less(width, indent),
        elapsed(scene),
        scene.now,
        name_column,
    );
    let spans = match branch {
        Some(branch) => seq![span(branch_prefix(indent, branch), fg(BORDER))] + shown.spans,
        None => shown.spans,
    };
    RowView { line: line(spans), target: Some(TargetView::Tool(t.id)) }
}

/// The row of a call and what it unfolds.
pub open spec fn head_rows(
    t: ToolView,
    scene: SceneView,
    width: nat,
    indent: nat,
    branch: Option<Seq<char>>,
    name_column: nat,
) -> Seq<RowView> {
    let head = seq![call_row(t, scene, width, indent, branch, name_column)];
    if t.expanded {
        head + unfolded_rows(t, width, indent)
    } else {
        head
    }
}

/// The view of an optional branch.
pub open spec fn branch_view(b: Option<&str>) -> Option<Seq<char>> {
    match b {
        Some(b) => Some(b@),
        None => None,
    }
}

fn row_of_call(
    row: &ToolRow,
    scene: &Scene,
    width: u16,
    indent: usize,
    branch: Option<&str>,
    name_column: usize,
) -> (r: TranscriptRow)
    requires
        indent <= width,
    ensures
        r@ == call_row(
            row@,
            scene@,
            width as nat,
            indent as nat,
            branch_view(branch),
            name_column as nat,
        ),
{
    let shown: Line = tool_line_with_disclosure(
        row.name.as_str(),
        &row.kind,
        row.arguments.as_str(),
        if row.child_running {
            ToolState::Running
        } else {
            row.state
        },
        width.saturating_sub(indent as u16),
        scene.now.saturating_sub(scene.activity_started),
        row.progress,
        scene.now,
        row.expanded,
        row.full,
        name_column,
    );
    let mut spans: Vec<Span> = Vec::new();
    let ghost lead = views(spans@);
    match branch {
        Some(branch) => {
            spans.push(
                Span { content: hierarchy_prefix(indent, branch), style: Style::fg(BORDER) },
            );
            assert(views(spans@) =~= seq![
                span(branch_prefix(indent as nat, branch@), fg(BORDER)),
            ]);
        },
        None => {},
    }
    append_spans(&mut spans, &shown.spans);
    proof {
        if branch is None {
            assert(views(spans@) =~= views(shown.spans@));
        }
    }
    TranscriptRow {
        line: Line::of(spans),
        target: Some(TranscriptHitTarget::Tool(own(row.id.as_str()))),
    }
}

/// Move the rows of `more` behind `out`.
pub fn append_rows(out: &mut Vec<TranscriptRow>, more: Vec<TranscriptRow>)
    ensures
        views(final(out)@) == views(old(out)@) + views(more@),
{
    let mut more: Vec<TranscriptRow> = more;
    out.append(&mut more);
}

fn limit_of(full: bool, few: usize) -> (r: usize)
    ensures
        r == block_limit(full, few as nat),
{
    if full {
        usize::MAX
    } else {
        few
    }
}

fn rows_unfolded(row: &ToolRow, width: u16, indent: usize) -> (r: Vec<TranscriptRow>)
    requires
        indent <= width,
    ensures
        views(r@) == unfolded_rows(row@, width as nat, indent as nat),
{
    let more: Option<TranscriptHitTarget> = Some(TranscriptHitTarget::Tool(own(row.id.as_str())));
    let below: usize = indent + 4;
    assert(views(row.diff@).len() == row.diff@.len());
    assert(views(row.child_lines@).len() == row.child_lines@.len());
    let mut r: Vec<TranscriptRow> = if row.diff.len() == 0 {
        tool_detail_rows(
            "args",
            row.argument_detail.as_str(),
            width,
            below,
            limit_of(row.full, 4),
            false,
            &more,
        )
    } else {
        tool_diff_rows(&row.diff, width, below, limit_of(row.full, 8), &more)
    };
    let ghost given = views(r@);
    if row.state == ToolState::Running && !row.tail.as_str().is_empty() {
        let said: Vec<TranscriptRow> = tool_detail_rows(
            "tail",
            row.tail.as_str(),
            width,
            below,
            limit_of(row.full, 6),
            false,
            &more,
        );
        append_rows(&mut r, said);
    } else {
        assert(given + Seq::<RowView>::empty() =~= given);
    }
    let ghost two = views(r@);
    let plain: bool = match &row.kind {
        ToolKind::Tool => true,
        ToolKind::Agent { .. } => false,
    };
    if plain || row.child_lines.len() == 0 || row.state == ToolState::Failed {
        let result: &str = match &row.result {
            Some(result) => result.as_str(),
            None => "pending",
        };
        let brought: Vec<TranscriptRow> = tool_detail_rows(
            "result",
            result,
            width,
            below,
            limit_of(row.full, 8),
            row.state == ToolState::Failed,
            &more,
        );
        append_rows(&mut r, brought);
    } else {
        assert(two + Seq::<RowView>::empty() =~= two);
    }
    r
}

fn rows_of_head(
    row: &ToolRow,
    scene: &Scene,
    width: u16,
    indent: usize,
    branch: Option<&str>,
    name_column: usize,
) -> (r: Vec<TranscriptRow>)
    requires
        indent <= width,
    ensures
        views(r@) == head_rows(
            row@,
            scene@,
            width as nat,
            indent as nat,
            branch_view(branch),
            name_column as nat,
        ),
{
    let mut r: Vec<TranscriptRow> = Vec::new();
    r.push(row_of_call(row, scene, width, indent, branch, name_column));
    assert(views(r@) =~= seq![
        call_row(
            row@,
            scene@,
            width as nat,
            indent as nat,
            branch_view(branch),
            name_column as nat,
        ),
    ]);
    if row.expanded {
        append_rows(&mut r, rows_unfolded(row, width, indent));
    }
    r
}

/// Whether the timeline of a call's agent is shown below it.
pub open spec fn shows_children(t: ToolView) -> bool {
    t.kind is Agent && (t.expanded || t.child_running || is_open_state(t.state))
}

/// The columns that a timeline stands in from the left.
pub open spec fn child_indent(width: nat, indent: nat) -> nat {
    if width >= 64 {
        min(indent + 4, width)
    } else {
        0
    }
}

/// The branch before row `i` of an entry in a timeline.
pub open spec fn timeline_branch(i: int, last: bool) -> Seq<char> {
    if i == 0 {
        if last {
            "└─"@
        } else {
            "├─"@
        }
    } else if last {
        "  "@
    } else {
        "│ "@
    }
}

pub open spec fn branched(rows: Seq<RowView>, indent: nat, last: bool) -> Seq<RowView> {
    Seq::new(rows.len(), |i: int| indented(rows[i], indent, timeline_branch(i, last)))
}

/// What of an agent's timeline is shown: all of it where the row is unfolded,
/// else a preview.
pub open spec fn shown_children(t: ToolView) -> Seq<ItemView> {
    if t.expanded {
        t.child_lines
    } else {
        live_preview(t.child_lines)
    }
}

/// The timeline below a call.
pub open spec fn child_rows(t: ToolView, scene: SceneView, width: nat, indent: nat) -> Seq<RowView>
    decreases depth(ItemView::Tool(t)), 1nat, 0nat,
{
    proof {
        lemma_preview_depth(t.child_lines);
    }
    let below = child_indent(width, indent);
    timeline(shown_children(t), scene, less(width, below), below, 0)
}

/// The rows of a call: its own, what it unfolds, and the timeline of its agent.
pub open spec fn call_rows(
    t: ToolView,
    scene: SceneView,
    width: nat,
    indent: nat,
    branch: Option<Seq<char>>,
    name_column: nat,
) -> Seq<RowView>
    decreases depth(ItemView::Tool(t)), 2nat, 0nat,
{
    let indent = min(indent, width);
    let head = head_rows(t, scene, width, indent, branch, name_column);
    if shows_children(t) {
        head + child_rows(t, scene, width, indent)
    } else {
        head
    }
}

/// The rows of the visible calls of a group from `k` on.
pub open spec fn group_rows(
    calls: Seq<ItemView>,
    k: int,
    scene: SceneView,
    width: nat,
    indent: nat,
    name_column: nat,
) -> Seq<RowView>
    decreases depths(calls), 3nat, calls.len() - k,
{
    if k < 0 || k >= calls.len() {
        Seq::empty()
    } else {
        proof {
            lemma_depths(calls, k);
        }
        let branch = if width >= 64 {
            Some(
                if k + 1 == calls.len() {
                    "└─"@
                } else {
                    "├─"@
                },
            )
        } else {
            None
        };
        let rows = match calls[k] {
            ItemView::Tool(t) => call_rows(t, scene, width, indent, branch, name_column),
            _ => Seq::empty(),
        };
        rows + group_rows(calls, k + 1, scene, width, indent, name_column)
    }
}

/// The calls of a group that are shown: all of them where it is unfolded, else
/// those under way.
pub open spec fn visible_calls(lines: Seq<ItemView>, from: int, to: int, expanded: bool) -> Seq<
    ItemView,
>
    decreases to - from,
{
    if from >= to {
        Seq::empty()
    } else {
        let before = visible_calls(lines, from, to - 1, expanded);
        if expanded || is_active(lines[to - 1]) {
            before.push(lines[to - 1])
        } else {
            before
        }
    }
}

/// The columns of the widest name among the calls.
pub open spec fn widest_name(calls: Seq<ItemView>) -> nat
    decreases calls.len(),
{
    if calls.len() == 0 {
        0
    } else {
        let before = widest_name(calls.drop_last());
        match calls.last() {
            ItemView::Tool(t) => {
                let w = text_width(shown_name(t.name, t.kind));
                if w > before {
                    w
                } else {
                    before
                }
            },
            _ => before,
        }
    }
}

/// The columns that a group below a thought stands in.
pub open spec fn group_indent(child: bool, width: nat, nested: bool) -> nat {
    if child && width >= 64 && !nested {
        2
    } else {
        0
    }
}

/// The row of a group.
pub open spec fn group_header(
    lines: Seq<ItemView>,
    e: EntryView,
    group: GroupView,
    width: nat,
    nested: bool,
) -> RowView {
    let indent = group_indent(group.child, width, nested);
    let shown = group_line(
        (e.end - e.start) as nat,
        active_count(lines, e.start, e.end),
        failed_count(lines, e.start, e.end),
        group.expanded,
        less(width, indent),
    );
    RowView {
        line: if indent > 0 {
            line(seq![span(branch_prefix(indent, "└─"@), fg(BORDER))] + shown.spans)
        } else {
            shown
        },
        target: Some(TargetView::ToolGroup(group.id)),
    }
}

pub proof fn lemma_visible_depth(lines: Seq<ItemView>, from: int, to: int, expanded: bool)
    requires
        0 <= from <= to <= lines.len(),
    ensures
        depths(visible_calls(lines, from, to, expanded)) <= depths(lines),
    decreases to - from,
{
    if from < to {
        lemma_visible_depth(lines, from, to - 1, expanded);
        lemma_depths(lines, to - 1);
        let before = visible_calls(lines, from, to - 1, expanded);
        let now = visible_calls(lines, from, to, expanded);
        if expanded || is_active(lines[to - 1]) {
            assert(now.drop_last() =~= before);
        }
    }
}

/// The rows of an entry of the lines.
pub open spec fn entry_rows_of(
    lines: Seq<ItemView>,
    e: EntryView,
    scene: SceneView,
    width: nat,
    nested: bool,
) -> Seq<RowView>
    decreases depths(lines), 4nat, 0nat,
{
    if !entry_fits(e, lines) {
        Seq::empty()
    } else {
        match e.group {
            None => match lines[e.start] {
                ItemView::Tool(t) => {
                    proof {
                        lemma_depths(lines, e.start);
                    }
                    call_rows(t, scene, width, 0, None, 0)
                },
                _ => item_rows(lines[e.start], scene, width),
            },
            Some(group) => {
                proof {
                    lemma_visible_depth(lines, e.start, e.end, group.expanded);
                }
                let calls = visible_calls(lines, e.start, e.end, group.expanded);
                let indent = if width >= 64 {
                    group_indent(group.child, width, nested) + 2
                } else {
                    0
                };
                seq![group_header(lines, e, group, width, nested)] + group_rows(
                    calls,
                    0,
                    scene,
                    width,
                    indent,
                    widest_name(calls),
                )
            },
        }
    }
}

/// The rows of the entries from line `from` on, behind their branches.
pub open spec fn timeline(
    lines: Seq<ItemView>,
    scene: SceneView,
    width: nat,
    indent: nat,
    from: int,
) -> Seq<RowView>
    decreases depths(lines), 5nat, lines.len() - from,
{
    if from < 0 || from >= lines.len() {
        Seq::empty()
    } else {
        proof {
            lemma_run_end(lines, from);
        }
        let e = entry_at(lines, scene.expanded_groups, from);
        branched(entry_rows_of(lines, e, scene, width, true), indent, e.end >= lines.len())
            + timeline(lines, scene, width, indent, e.end)
    }
}

/// The columns that the timeline of a call stands in from the left.
pub fn indent_of_children(width: u16, indent: usize) -> (r: u16)
    requires
        indent <= width,
    ensures
        r == child_indent(width as nat, indent as nat),
{
    if width >= 64 {
        if indent + 4 <= width as usize {
            (indent + 4) as u16
        } else {
            width
        }
    } else {
        0
    }
}

fn rows_of_children(row: &ToolRow, scene: &Scene, width: u16, indent: usize) -> (r: Vec<
    TranscriptRow,
>)
    requires
        indent <= width,
        prepared(
            scene@.pages,
            child_asks(row@, scene@.expanded_groups, width as nat, indent as nat),
        ),
    ensures
        views(r@) == child_rows(row@, scene@, width as nat, indent as nat),
    decreases depth(ItemView::Tool(row@)), 1nat, 0nat,
{
    let below: u16 = indent_of_children(width, indent);
    let inner: u16 = width.saturating_sub(below);
    proof {
        lemma_preview_depth(row@.child_lines);
    }
    if row.expanded {
        rows_of_timeline(&row.child_lines, scene, inner, below as usize)
    } else {
        let preview: Vec<Line_> = agent_live_preview(&row.child_lines);
        rows_of_timeline(&preview, scene, inner, below as usize)
    }
}

/// The rows of a call, `indent` columns from the left. A call in a group stands
/// behind a branch, its name padded to the widest of the group.
pub fn tool_entry_rows(
    row: &ToolRow,
    scene: &Scene,
    width: u16,
    indent: usize,
    branch: Option<&str>,
    name_column: usize,
) -> (r: Vec<TranscriptRow>)
    requires
        prepared(
            scene@.pages,
            call_asks(row@, scene@.expanded_groups, width as nat, indent as nat),
        ),
    ensures
        views(r@) == call_rows(
            row@,
            scene@,
            width as nat,
            indent as nat,
            branch_view(branch),
            name_column as nat,
        ),
    decreases depth(ItemView::Tool(row@)), 2nat, 0nat,
{
    let indent: usize = if indent <= width as usize {
        indent
    } else {
        width as usize
    };
    let mut r: Vec<TranscriptRow> = rows_of_head(row, scene, width, indent, branch, name_column);
    if children_shown(row) {
        append_rows(&mut r, rows_of_children(row, scene, width, indent));
    }
    r
}

pub fn children_shown(row: &ToolRow) -> (r: bool)
    ensures
        r == shows_children(row@),
{
    match &row.kind {
        ToolKind::Tool => false,
        ToolKind::Agent { .. } => row.expanded || row.child_running || row.state
            == ToolState::Running || row.state == ToolState::Complete,
    }
}

/// The calls of a group that are shown, by their lines.
pub fn calls_visible(lines: &Vec<Line_>, from: usize, to: usize, expanded: bool) -> (r: Vec<usize>)
    requires
        from <= to <= lines@.len(),
    ensures
        r@.len() == visible_calls(views(lines@), from as int, to as int, expanded).len(),
        forall|k: int|
            0 <= k < r@.len() ==> (#[trigger] r@[k]) < lines@.len() && lines@[r@[k] as int]@
                == visible_calls(views(lines@), from as int, to as int, expanded)[k],
{
    let ghost all = views(lines@);
    let mut r: Vec<usize> = Vec::new();
    let mut i: usize = from;
    while i < to
        invariant
            from <= i <= to <= lines@.len(),
            all == views(lines@),
            r@.len() == visible_calls(all, from as int, i as int, expanded).len(),
            forall|k: int|
                0 <= k < r@.len() ==> (#[trigger] r@[k]) < lines@.len() && lines@[r@[k] as int]@
                    == visible_calls(all, from as int, i as int, expanded)[k],
        decreases to - i,
    {
        assert(all[i as int] == lines@[i as int]@);
        if expanded || tool_is_active(&lines[i]) {
            r.push(i);
        }
        i += 1;
    }
    r
}

fn width_of_names(lines: &Vec<Line_>, calls: &Vec<usize>, Ghost(shown): Ghost<Seq<ItemView>>) -> (r:
    usize)
    requires
        calls@.len() == shown.len(),
        forall|k: int|
            0 <= k < calls@.len() ==> (#[trigger] calls@[k]) < lines@.len()
                && lines@[calls@[k] as int]@ == shown[k],
    ensures
        r == widest_name(shown),
{
    let mut r: usize = 0;
    let mut k: usize = 0;
    assert(shown.take(0) =~= Seq::empty());
    while k < calls.len()
        invariant
            k <= calls@.len(),
            calls@.len() == shown.len(),
            forall|k: int|
                0 <= k < calls@.len() ==> (#[trigger] calls@[k]) < lines@.len()
                    && lines@[calls@[k] as int]@ == shown[k],
            r == widest_name(shown.take(k as int)),
        decreases calls@.len() - k,
    {
        assert(shown.take(k + 1).drop_last() =~= shown.take(k as int));
        let i: usize = calls[k];
        assert(lines@[i as int]@ == shown[k as int]);
        if let Line_::Tool(row) = &lines[i] {
            let w: usize = columns_of(display_name(row.name.as_str(), &row.kind).as_str());
            if w > r {
                r = w;
            }
        }
        k += 1;
    }
    assert(shown.take(k as int) =~= shown);
    r
}

fn header_of_group(
    lines: &Vec<Line_>,
    e: &TranscriptEntry,
    id: &str,
    expanded: bool,
    child: bool,
    width: u16,
    nested: bool,
) -> (r: TranscriptRow)
    requires
        entry_fits(e@, views(lines@)),
    ensures
        r@ == group_header(
            views(lines@),
            e@,
            GroupView { id: id@, expanded, child },
            width as nat,
            nested,
        ),
{
    let indent: usize = if child && width >= 64 && !nested {
        2
    } else {
        0
    };
    let shown: Line = tool_group_line(
        e.end - e.start,
        count_active(lines, e.start, e.end),
        count_failed(lines, e.start, e.end),
        expanded,
        width.saturating_sub(indent as u16),
    );
    let target: Option<TranscriptHitTarget> = Some(TranscriptHitTarget::ToolGroup(own(id)));
    if indent > 0 {
        let mut spans: Vec<Span> = Vec::new();
        spans.push(Span { content: hierarchy_prefix(indent, "└─"), style: Style::fg(BORDER) });
        append_spans(&mut spans, &shown.spans);
        assert(views(spans@) =~= seq![
            span(branch_prefix(indent as nat, "└─"@), fg(BORDER)),
        ] + views(shown.spans@));
        TranscriptRow { line: Line::of(spans), target }
    } else {
        TranscriptRow { line: shown, target }
    }
}

fn rows_of_group(
    lines: &Vec<Line_>,
    e: &TranscriptEntry,
    id: &str,
    expanded: bool,
    child: bool,
    scene: &Scene,
    width: u16,
    nested: bool,
) -> (r: Vec<TranscriptRow>)
    requires
        entry_fits(e@, views(lines@)),
        e@.group == Some(GroupView { id: id@, expanded, child }),
        prepared(
            scene@.pages,
            entry_asks(views(lines@), e@, scene@.expanded_groups, width as nat, nested),
        ),
    ensures
        views(r@) == entry_rows_of(views(lines@), e@, scene@, width as nat, nested),
    decreases depths(views(lines@)), 3nat, 0nat,
{
    let ghost all = views(lines@);
    let ghost shown = visible_calls(all, e.start as int, e.end as int, expanded);
    proof {
        lemma_visible_depth(all, e.start as int, e.end as int, expanded);
    }
    let calls: Vec<usize> = calls_visible(lines, e.start, e.end, expanded);
    let name_column: usize = width_of_names(lines, &calls, Ghost(shown));
    let indent: usize = if width >= 64 {
        if child && !nested {
            4
        } else {
            2
        }
    } else {
        0
    };
    let mut r: Vec<TranscriptRow> = Vec::new();
    r.push(header_of_group(lines, e, id, expanded, child, width, nested));
    let ghost header = group_header(
        all,
        e@,
        GroupView { id: id@, expanded, child },
        width as nat,
        nested,
    );
    let ghost body = group_rows(
        shown,
        0,
        scene@,
        width as nat,
        indent as nat,
        widest_name(shown),
    );
    assert(views(r@) + body =~= seq![header] + body);
    let mut k: usize = 0;
    while k < calls.len()
        invariant
            k <= calls@.len(),
            all == views(lines@),
            calls@.len() == shown.len(),
            depths(shown) <= depths(all),
            name_column == widest_name(shown),
            prepared(
                scene@.pages,
                group_asks(shown, k as int, scene@.expanded_groups, width as nat, indent as nat),
            ),
            forall|k: int|
                0 <= k < calls@.len() ==> (#[trigger] calls@[k]) < lines@.len()
                    && lines@[calls@[k] as int]@ == shown[k],
            views(r@) + group_rows(
                shown,
                k as int,
                scene@,
                width as nat,
                indent as nat,
                name_column as nat,
            ) == seq![header] + body,
        decreases calls@.len() - k,
    {
        let branch: Option<&str> = if width >= 64 {
            Some(
                if k + 1 == calls.len() {
                    "└─"
                } else {
                    "├─"
                },
            )
        } else {
            None
        };
        let i: usize = calls[k];
        assert(lines@[i as int]@ == shown[k as int]);
        proof {
            lemma_depths(shown, k as int);
        }
        let ghost done = views(r@);
        let ghost rest = group_rows(
            shown,
            k + 1,
            scene@,
            width as nat,
            indent as nat,
            name_column as nat,
        );
        proof {
            let groups = scene@.expanded_groups;
            let here = match shown[k as int] {
                ItemView::Tool(t) => call_asks(t, groups, width as nat, indent as nat),
                _ => Seq::empty(),
            };
            lemma_prepared_both(
                scene@.pages,
                here,
                group_asks(shown, k + 1, groups, width as nat, indent as nat),
            );
        }
        if let Line_::Tool(row) = &lines[i] {
            let rows: Vec<TranscriptRow> = tool_entry_rows(
                row,
                scene,
                width,
                indent,
                branch,
                name_column,
            );
            let ghost new = views(rows@);
            append_rows(&mut r, rows);
            assert(views(r@) + rest =~= done + (new + rest));
        } else {
            assert(Seq::<RowView>::empty() + rest =~= rest);
        }
        k += 1;
    }
    assert(views(r@) + Seq::<RowView>::empty() =~= views(r@));
    r
}

/// The rows of an entry, rendered afresh.
pub fn transcript_entry_rows(
    lines: &Vec<Line_>,
    entry: &TranscriptEntry,
    scene: &Scene,
    width: u16,
    nested: bool,
) -> (r: Vec<TranscriptRow>)
    requires
        entry_fits(entry@, views(lines@)),
        prepared(
            scene@.pages,
            entry_asks(views(lines@), entry@, scene@.expanded_groups, width as nat, nested),
        ),
    ensures
        views(r@) == entry_rows_of(views(lines@), entry@, scene@, width as nat, nested),
    decreases depths(views(lines@)), 4nat, 0nat,
{
    match &entry.group {
        Some(group) => rows_of_group(
            lines,
            entry,
            group.id.as_str(),
            group.expanded,
            group.child,
            scene,
            width,
            nested,
        ),
        None => {
            assert(views(lines@)[entry.start as int] == lines@[entry.start as int]@);
            proof {
                lemma_depths(views(lines@), entry.start as int);
            }
            match &lines[entry.start] {
                Line_::Tool(row) => tool_entry_rows(row, scene, width, 0, None, 0),
                _ => rows_of_item(&lines[entry.start], scene, width),
            }
        },
    }
}

fn rows_of_timeline(lines: &Vec<Line_>, scene: &Scene, width: u16, indent: usize) -> (r: Vec<
    TranscriptRow,
>)
    requires
        prepared(
            scene@.pages,
            timeline_asks(views(lines@), scene@.expanded_groups, width as nat, 0),
        ),
    ensures
        views(r@) == timeline(views(lines@), scene@, width as nat, indent as nat, 0),
    decreases depths(views(lines@)), 5nat, 0nat,
{
    let ghost all = views(lines@);
    let ghost want = timeline(all, scene@, width as nat, indent as nat, 0);
    let mut r: Vec<TranscriptRow> = Vec::new();
    let mut from: usize = 0;
    assert(views(r@) + want =~= want);
    while from < lines.len()
        invariant
            from <= lines@.len(),
            all == views(lines@),
            want == timeline(all, scene@, width as nat, indent as nat, 0),
            prepared(
                scene@.pages,
                timeline_asks(all, scene@.expanded_groups, width as nat, from as int),
            ),
            views(r@) + timeline(all, scene@, width as nat, indent as nat, from as int) == want,
        decreases lines@.len() - from,
    {
        let e: TranscriptEntry = transcript_entry_at(lines, &scene.expanded_groups, from);
        proof {
            let groups = scene@.expanded_groups;
            lemma_prepared_both(
                scene@.pages,
                entry_asks(all, e@, groups, width as nat, true),
                timeline_asks(all, groups, width as nat, e.end as int),
            );
        }
        let rows: Vec<TranscriptRow> = transcript_entry_rows(lines, &e, scene, width, true);
        let last: bool = e.end >= lines.len();
        let ghost shown = views(rows@);
        let ghost new = branched(shown, indent as nat, last);
        let ghost done = views(r@);
        let ghost rest = timeline(all, scene@, width as nat, indent as nat, e.end as int);
        let mut k: usize = 0;
        assert(views(r@) =~= done + new.take(0));
        while k < rows.len()
            invariant
                k <= rows@.len(),
                shown == views(rows@),
                new == branched(shown, indent as nat, last),
                views(r@) == done + new.take(k as int),
            decreases rows@.len() - k,
        {
            let branch: &str = if k == 0 {
                if last {
                    "└─"
                } else {
                    "├─"
                }
            } else if last {
                "  "
            } else {
                "│ "
            };
            assert(shown[k as int] == rows@[k as int]@);
            r.push(indent_transcript_row(&rows[k], indent, branch));
            k += 1;
            assert(views(r@) =~= done + new.take(k as int));
        }
        assert(new.take(k as int) =~= new);
        assert(views(r@) + rest =~= done + (new + rest));
        from = e.end;
    }
    assert(views(r@) =~= want);
    r
}

/// The timelines below the calls of an entry, kept so that a row which only
/// moves with the clock need not have its agent's timeline rendered again.
#[derive(Debug)]
pub struct ChildRowMemo {
    pub rows: Vec<RememberedRows>,
    /// Whether what is kept is to be used.
    pub reuse: bool,
    /// How many timelines were rendered, as far as they can be counted.
    pub renders: usize,
}

#[derive(Debug)]
pub struct RememberedRows {
    pub id: String,
    pub rows: Vec<TranscriptRow>,
}

#[verifier::ext_equal]
pub struct RememberedView {
    pub id: Seq<char>,
    pub rows: Seq<RowView>,
}

impl View for RememberedRows {
    type V = RememberedView;

    open spec fn view(&self) -> RememberedView {
        RememberedView { id: self.id@, rows: views(self.rows@) }
    }
}

#[verifier::ext_equal]
pub struct MemoView {
    pub rows: Seq<RememberedView>,
    pub reuse: bool,
    pub renders: nat,
}

impl View for ChildRowMemo {
    type V = MemoView;

    open spec fn view(&self) -> MemoView {
        MemoView { rows: views(self.rows@), reuse: self.reuse, renders: self.renders as nat }
    }
}

/// The memo that remembers nothing.
pub open spec fn empty_memo() -> MemoView {
    MemoView { rows: Seq::empty(), reuse: false, renders: 0 }
}

/// Where the rows of `id` are kept from `i` on, or the length.
pub open spec fn memo_index(rows: Seq<RememberedView>, i: int, id: Seq<char>) -> int
    decreases rows.len() - i,
{
    if i < 0 || i >= rows.len() || rows[i].id == id {
        i
    } else {
        memo_index(rows, i + 1, id)
    }
}

/// What is kept for `id`.
pub open spec fn remembered(rows: Seq<RememberedView>, id: Seq<char>) -> Option<Seq<RowView>> {
    let i = memo_index(rows, 0, id);
    if 0 <= i < rows.len() {
        Some(rows[i].rows)
    } else {
        None
    }
}

/// With `kept` as the rows of `id`.
pub open spec fn remember(rows: Seq<RememberedView>, id: Seq<char>, kept: Seq<RowView>) -> Seq<
    RememberedView,
> {
    let i = memo_index(rows, 0, id);
    if 0 <= i < rows.len() {
        rows.update(i, RememberedView { id, rows: kept })
    } else {
        rows.push(RememberedView { id, rows: kept })
    }
}

/// Without rows of `id`.
pub open spec fn forget(rows: Seq<RememberedView>, id: Seq<char>) -> Seq<RememberedView> {
    let i = memo_index(rows, 0, id);
    if 0 <= i < rows.len() {
        rows.remove(i)
    } else {
        rows
    }
}

/// The timeline below a call, from the memo where it may be used, and the memo
/// after. A row that cannot come back by the clock alone is not remembered.
pub open spec fn memo_child_rows(
    t: ToolView,
    scene: SceneView,
    width: nat,
    indent: nat,
    memo: MemoView,
) -> (Seq<RowView>, MemoView) {
    match remembered(memo.rows, t.id) {
        Some(kept) if memo.reuse => (kept, memo),
        _ => {
            let fresh = child_rows(t, scene, width, indent);
            (
                fresh,
                MemoView {
                    rows: if is_active(ItemView::Tool(t)) {
                        remember(memo.rows, t.id, fresh)
                    } else {
                        forget(memo.rows, t.id)
                    },
                    reuse: memo.reuse,
                    renders: if memo.renders < usize::MAX {
                        memo.renders + 1
                    } else {
                        memo.renders
                    },
                },
            )
        },
    }
}

/// The rows of an entry, and the memo after they were rendered with it.
pub open spec fn memo_entry_rows(
    lines: Seq<ItemView>,
    e: EntryView,
    scene: SceneView,
    width: nat,
    memo: MemoView,
) -> (Seq<RowView>, MemoView) {
    if entry_fits(e, lines) && e.group is None && lines[e.start] is Tool && shows_children(
        lines[e.start]->Tool_0,
    ) {
        let t = lines[e.start]->Tool_0;
        let below = memo_child_rows(t, scene, width, 0, memo);
        (head_rows(t, scene, width, 0, None, 0) + below.0, below.1)
    } else {
        (entry_rows_of(lines, e, scene, width, false), memo)
    }
}

impl ChildRowMemo {
    pub fn new() -> (r: ChildRowMemo)
        ensures
            r@ == empty_memo(),
    {
        ChildRowMemo { rows: Vec::new(), reuse: false, renders: 0 }
    }

    fn index_of(&self, id: &str) -> (r: usize)
        ensures
            r == memo_index(self@.rows, 0, id@),
            r <= self.rows@.len(),
    {
        let ghost all = self@.rows;
        let mut i: usize = 0;
        while i < self.rows.len()
            invariant
                i <= self.rows@.len(),
                all == views(self.rows@),
                memo_index(all, 0, id@) == memo_index(all, i as int, id@),
            decreases self.rows@.len() - i,
        {
            assert(all[i as int] == self.rows@[i as int]@);
            if same(self.rows[i].id.as_str(), id) {
                return i;
            }
            i += 1;
        }
        i
    }

    /// Whether the timeline of a call is kept.
    pub fn remembers(&self, id: &str) -> (r: bool)
        ensures
            r == (remembered(self@.rows, id@) is Some),
    {
        assert(self@.rows.len() == self.rows@.len());
        proof {
            lemma_memo_index(self@.rows, 0, id@);
        }
        self.index_of(id) < self.rows.len()
    }

    /// The timeline below the call, rendered or remembered.
    pub fn child_rows(&mut self, row: &ToolRow, scene: &Scene, width: u16, indent: usize) -> (r: Vec<
        TranscriptRow,
    >)
        requires
            indent <= width,
            old(self)@.reuse && remembered(old(self)@.rows, row@.id) is Some || prepared(
                scene@.pages,
                child_asks(row@, scene@.expanded_groups, width as nat, indent as nat),
            ),
        ensures
            (views(r@), final(self)@) == memo_child_rows(
                row@,
                scene@,
                width as nat,
                indent as nat,
                old(self)@,
            ),
    {
        let i: usize = self.index_of(row.id.as_str());
        let ghost all = self@.rows;
        if self.reuse && i < self.rows.len() {
            assert(all[i as int] == self.rows@[i as int]@);
            let mut r: Vec<TranscriptRow> = Vec::new();
            extend_rows(&mut r, &self.rows[i].rows, 0, self.rows[i].rows.len());
            assert(views(r@) =~= all[i as int].rows);
            return r;
        }
        let r: Vec<TranscriptRow> = rows_of_children(row, scene, width, indent);
        self.renders = self.renders.saturating_add(1);
        let active: bool = row.state == ToolState::Running || row.state == ToolState::Complete
            || row.child_running;
        if active {
            let mut kept: Vec<TranscriptRow> = Vec::new();
            extend_rows(&mut kept, &r, 0, r.len());
            assert(views(kept@) =~= views(r@));
            let item: RememberedRows = RememberedRows { id: own(row.id.as_str()), rows: kept };
            if i < self.rows.len() {
                self.rows[i] = item;
                assert(views(self.rows@) =~= all.update(i as int, item@));
            } else {
                self.rows.push(item);
            }
        } else if i < self.rows.len() {
            let ghost before = self.rows@;
            self.rows.remove(i);
            assert(views(self.rows@) =~= all.remove(i as int));
        }
        r
    }
}

/// The rows of a top-level entry, with the timelines that `children` keeps.
pub fn entry_rows(
    lines: &Vec<Line_>,
    entry: &TranscriptEntry,
    scene: &Scene,
    width: u16,
    children: &mut ChildRowMemo,
) -> (r: Vec<TranscriptRow>)
    requires
        entry_fits(entry@, views(lines@)),
        prepared(
            scene@.pages,
            memo_asks(
                views(lines@),
                entry@,
                scene@.expanded_groups,
                width as nat,
                old(children)@,
            ),
        ),
    ensures
        (views(r@), final(children)@) == memo_entry_rows(
            views(lines@),
            entry@,
            scene@,
            width as nat,
            old(children)@,
        ),
{
    assert(views(lines@)[entry.start as int] == lines@[entry.start as int]@);
    if entry.group.is_none() {
        if let Line_::Tool(row) = &lines[entry.start] {
            if children_shown(row) {
                let mut r: Vec<TranscriptRow> = rows_of_head(row, scene, width, 0, None, 0);
                append_rows(&mut r, children.child_rows(row, scene, width, 0));
                return r;
            }
        }
    }
    transcript_entry_rows(lines, entry, scene, width, false)
}

/// Rendered without a memo to use, an entry's rows are its fresh rows.
pub proof fn law_fresh_memo_changes_nothing(
    lines: Seq<ItemView>,
    e: EntryView,
    scene: SceneView,
    width: nat,
    memo: MemoView,
)
    requires
        !memo.reuse,
    ensures
        memo_entry_rows(lines, e, scene, width, memo).0 == entry_rows_of(
            lines,
            e,
            scene,
            width,
            false,
        ),
{
}

/// A timeline that was remembered comes back as it was rendered.
pub proof fn law_remembered_rows_come_back(
    t: ToolView,
    scene: SceneView,
    later: SceneView,
    width: nat,
    indent: nat,
    memo: MemoView,
)
    requires
        !memo.reuse,
        is_active(ItemView::Tool(t)),
    ensures
        ({
            let first = memo_child_rows(t, scene, width, indent, memo);
            let again = MemoView { reuse: true, ..first.1 };
            memo_child_rows(t, later, width, indent, again) == (first.0, again)
        }),
{
    let fresh = child_rows(t, scene, width, indent);
    lemma_memo_index(memo.rows, 0, t.id);
    let i = memo_index(memo.rows, 0, t.id);
    let after = remember(memo.rows, t.id, fresh);
    lemma_memo_index_same(memo.rows, after, 0, t.id, i);
}

pub proof fn lemma_memo_index(rows: Seq<RememberedView>, i: int, id: Seq<char>)
    requires
        0 <= i <= rows.len(),
    ensures
        i <= memo_index(rows, i, id) <= rows.len(),
        forall|k: int| i <= k < memo_index(rows, i, id) ==> (#[trigger] rows[k]).id != id,
    decreases rows.len() - i,
{
    if i < rows.len() && rows[i].id != id {
        lemma_memo_index(rows, i + 1, id);
    }
}

pub proof fn lemma_memo_index_same(
    rows: Seq<RememberedView>,
    after: Seq<RememberedView>,
    i: int,
    id: Seq<char>,
    at: int,
)
    requires
        0 <= i <= at <= rows.len(),
        at < after.len(),
        after[at].id == id,
        forall|k: int| 0 <= k < at ==> (#[trigger] rows[k]).id != id && after[k] == rows[k],
    ensures
        memo_index(after, i, id) == at,
    decreases at - i,
{
    if i < at {
        assert(rows[i].id != id);
        lemma_memo_index_same(rows, after, i + 1, id, at);
    }
}

} // verus!
