//! Which lines of the transcript are shown, folded and unfolded.

use vstd::prelude::*;
use crate::chars::lines;
use crate::format::safe_line_list;
use crate::measure::text_width;
use crate::paint::{
    clustered, in_style, law_wrapping_keeps_what_is_painted, lemma_rows_join, lemma_visible_joins,
    painted, painted_rows, visible,
};
use crate::style::{blank, line, plain, span, LineView, Style};
use crate::text::{cells_of, wrapped};
use crate::theme::{ERROR, MUTED};
use crate::transcript::activity::{flipped, toggle_index, toggled, toggled_lines};
use crate::transcript::details::{
    beside_margin, block, block_lines, detail_rows, diff_line, diff_lines, layout_of, line_chars,
    raw_line, source_cut, source_lines, wrapped_each, DetailLayout, RowView, TargetView,
};
use crate::transcript::lines::SceneView;
use crate::transcript::model::{DiffView, ItemView, ToolState, ToolView};
use crate::transcript::render::{
    branched, call_row, call_rows, child_indent, child_rows, entry_rows_of, group_indent,
    group_rows, head_rows, item_rows, timeline, unfolded_rows, visible_calls, widest_name,
};
use crate::transcript::rows::{
    active_count, active_upto, entries_from, entry_at, failed_count, lemma_run_end, live_preview,
    EntryView, GroupView,
};
use crate::transcript::shows::{law_a_block_is_labelled, lemma_plain_lines, one_plain_line};
use crate::transcript::tool_line::less;

verus! {

/// Whether a call is under way: it runs, or its result is awaited, or its agent
/// works.
pub open spec fn under_way(l: ItemView) -> bool {
    match l {
        ItemView::Tool(t) => t.state == ToolState::Running || t.state == ToolState::Complete
            || t.child_running,
        _ => false,
    }
}

pub open spec fn has_failed(l: ItemView) -> bool {
    match l {
        ItemView::Tool(t) => t.state == ToolState::Failed,
        _ => false,
    }
}

/// A group shows all of its calls, in order, where it is unfolded, and else those
/// alone that are under way.
pub proof fn law_a_folded_group_shows_what_is_under_way(lines: Seq<ItemView>, from: int, to: int)
    requires
        0 <= from <= to <= lines.len(),
    ensures
        visible_calls(lines, from, to, true) == lines.subrange(from, to),
        visible_calls(lines, from, to, false) == lines.subrange(from, to).filter(
            |l: ItemView| under_way(l),
        ),
    decreases to - from,
{
    reveal(Seq::filter);
    let part = lines.subrange(from, to);
    if from < to {
        law_a_folded_group_shows_what_is_under_way(lines, from, to - 1);
        assert(part.drop_last() =~= lines.subrange(from, to - 1));
        assert(part.last() == lines[to - 1]);
        assert(visible_calls(lines, from, to, true) =~= part);
    } else {
        assert(part =~= Seq::empty());
    }
}

/// A group counts its calls that are under way and those that failed.
pub proof fn law_a_group_counts_what_it_holds(lines: Seq<ItemView>, from: int, to: int)
    requires
        0 <= from <= to <= lines.len(),
    ensures
        active_count(lines, from, to) == lines.subrange(from, to).filter(
            |l: ItemView| under_way(l),
        ).len(),
        failed_count(lines, from, to) == lines.subrange(from, to).filter(
            |l: ItemView| has_failed(l),
        ).len(),
    decreases to - from,
{
    reveal(Seq::filter);
    let part = lines.subrange(from, to);
    if from < to {
        law_a_group_counts_what_it_holds(lines, from, to - 1);
        assert(part.drop_last() =~= lines.subrange(from, to - 1));
        assert(part.last() == lines[to - 1]);
    } else {
        assert(part =~= Seq::empty());
    }
}

/// Whether a line is a call of a tool, not of an agent.
pub open spec fn is_tool_call(l: ItemView) -> bool {
    match l {
        ItemView::Tool(t) => t.kind is Tool,
        _ => false,
    }
}

/// The entries of a transcript part its lines: each line is in one entry, in order.
/// Calls of tools that follow one another are one group, as many as there are; any
/// other line is an entry of its own.
pub proof fn law_the_entries_part_the_lines(
    lines: Seq<ItemView>,
    open: Seq<Seq<char>>,
    from: int,
)
    requires
        0 <= from <= lines.len(),
    ensures
        ({
            let all = entries_from(lines, open, from);
            &&& all.len() == 0 <==> from == lines.len()
            &&& all.len() > 0 ==> all[0].start == from && all.last().end == lines.len()
            &&& forall|i: int, j: int|
                0 <= i && j == i + 1 && j < all.len() ==> (#[trigger] all[i]).end
                    == (#[trigger] all[j]).start
            &&& forall|i: int| 0 <= i < all.len() ==> one_entry(lines, #[trigger] all[i])
        }),
    decreases lines.len() - from,
{
    if from < lines.len() {
        lemma_run_end(lines, from);
        let entry = entry_at(lines, open, from);
        law_the_entries_part_the_lines(lines, open, entry.end);
        let rest = entries_from(lines, open, entry.end);
        let all = entries_from(lines, open, from);
        assert(all[0] == entry);
        assert forall|i: int| 0 <= i < all.len() implies one_entry(lines, #[trigger] all[i]) by {
            if i > 0 {
                assert(all[i] == rest[i - 1]);
            } else {
                assert forall|k: int| entry.start <= k < entry.end && entry.group is Some implies
                    is_tool_call(#[trigger] lines[k]) by {}
            }
        }
        assert forall|i: int, j: int|
            0 <= i && j == i + 1 && j < all.len() implies (#[trigger] all[i]).end == (
        #[trigger] all[j]).start by {
            assert(all[j] == rest[j - 1]);
            if i > 0 {
                assert(all[i] == rest[i - 1]);
            }
        }
        if rest.len() > 0 {
            assert(all.last() == rest.last());
        }
    }
}

/// Whether an entry is one line, or a run of calls of tools that nothing but its end
/// keeps from being longer.
pub open spec fn one_entry(lines: Seq<ItemView>, e: EntryView) -> bool {
    &&& 0 <= e.start < e.end <= lines.len()
    &&& e.group is None ==> e.end == e.start + 1 && !is_tool_call(lines[e.start])
    &&& e.group is Some ==> {
        &&& forall|k: int| e.start <= k < e.end ==> is_tool_call(#[trigger] lines[k])
        &&& e.end < lines.len() ==> !is_tool_call(lines[e.end])
    }
}

/// A folded thought unfolds wherever it is clicked, an unfolded one folds where its
/// first row is. A report does likewise where it has more than one line.
pub proof fn law_a_click_names_what_it_unfolds(
    id: Seq<char>,
    text: Seq<char>,
    complete: bool,
    expanded: bool,
    scene: SceneView,
    width: nat,
    i: int,
)
    ensures
        ({
            let thought = item_rows(
                ItemView::Thought { id, text, complete, expanded },
                scene,
                width,
            );
            let task = item_rows(ItemView::Task { id, text, expanded }, scene, width);
            let job = item_rows(ItemView::Job { id, text, expanded }, scene, width);
            let note = item_rows(ItemView::Note { id, text, expanded }, scene, width);
            let user = item_rows(ItemView::User(text), scene, width);
            let here = Some(TargetView::Thought(id));
            let takes = id.len() > 0 && (i == 0 || !expanded);
            let body = safe_line_list(text).len() > 1;
            &&& 0 <= i < thought.len() ==> thought[i].target == (if takes {
                here
            } else {
                None
            })
            &&& 0 <= i < task.len() ==> task[i].target == (if takes && body {
                here
            } else {
                None
            })
            &&& 0 <= i < job.len() ==> job[i].target == (if takes && body {
                here
            } else {
                None
            })
            &&& 0 <= i < note.len() ==> note[i].target == (if takes && body {
                here
            } else {
                None
            })
            &&& 0 <= i < user.len() ==> user[i].target is None
        }),
{
}

/// The row of a call is what a click on the call names. Folded, a call of a tool is
/// that row alone, and so is that of an agent that is settled.
pub proof fn law_a_folded_call_is_one_row(
    t: ToolView,
    scene: SceneView,
    width: nat,
    indent: nat,
    branch: Option<Seq<char>>,
    name_column: nat,
)
    ensures
        ({
            let rows = call_rows(t, scene, width, indent, branch, name_column);
            &&& rows.len() >= 1
            &&& rows[0].target == Some(TargetView::Tool(t.id))
            &&& !t.expanded && (t.kind is Tool || !under_way(ItemView::Tool(t))) ==> rows.len()
                == 1
        }),
{
}

/// A call whose agent works is shown as one that runs.
pub proof fn law_a_call_runs_while_its_agent_works(
    t: ToolView,
    scene: SceneView,
    width: nat,
    indent: nat,
    branch: Option<Seq<char>>,
    name_column: nat,
)
    requires
        t.child_running,
    ensures
        call_row(t, scene, width, indent, branch, name_column) == call_row(
            (ToolView { state: ToolState::Running, child_running: false, ..t }),
            scene,
            width,
            indent,
            branch,
            name_column,
        ),
{
}

/// A folded agent shows the calls of its own that are under way, and before them the
/// last thing that it said or thought, if there is one.
pub proof fn law_a_folded_agent_shows_what_is_under_way(lines: Seq<ItemView>)
    ensures
        ({
            let active = lines.filter(|l: ItemView| under_way(l));
            let shown = live_preview(lines);
            &&& shown.len() > 0
            &&& shown.len() <= active.len() + 1
            &&& active.len() > 0 ==> shown.skip(shown.len() - active.len()) == active
        }),
{
    lemma_active(lines, lines.len() as int);
    assert(lines.take(lines.len() as int) =~= lines);
    let active = lines.filter(|l: ItemView| under_way(l));
    let shown = live_preview(lines);
    if active.len() > 0 {
        assert(shown.skip(shown.len() - active.len()) =~= active);
    }
}

proof fn lemma_active(lines: Seq<ItemView>, n: int)
    requires
        0 <= n <= lines.len(),
    ensures
        active_upto(lines, n) == lines.take(n).filter(|l: ItemView| under_way(l)),
    decreases n,
{
    reveal(Seq::filter);
    if n > 0 {
        lemma_active(lines, n - 1);
        assert(lines.take(n).drop_last() =~= lines.take(n - 1));
        assert(lines.take(n).last() == lines[n - 1]);
    } else {
        assert(lines.take(n) =~= Seq::empty());
    }
}

/// Whether a line of this text can be shown in `columns` columns without an ellipsis.
pub open spec fn can_be_wrapped(text: Seq<char>, columns: nat) -> bool {
    let spans = seq![span(text, plain())];
    &&& clustered(spans)
    &&& forall|i: int|
        0 <= i < cells_of(spans).len() ==> (#[trigger] cells_of(spans)[i]).width <= columns
}

proof fn lemma_text_painted(text: Seq<char>, columns: nat)
    requires
        columns > 0,
        text.len() > 0,
        can_be_wrapped(text, columns),
    ensures
        visible(painted_rows(wrapped(raw_line(text), columns))) == visible(
            in_style(text, plain()),
        ),
{
    let l = raw_line(text);
    law_wrapping_keeps_what_is_painted(l, columns);
    assert(l.spans.drop_last() =~= Seq::empty());
    assert(painted(l.spans.drop_last()) =~= Seq::empty());
    assert(painted(l.spans) =~= in_style(text, plain()));
}

/// A block of two lines shows both, whole and in order, where it is shown in full.
pub proof fn law_a_block_shows_its_text(
    label: Seq<char>,
    a: Seq<char>,
    b: Seq<char>,
    width: nat,
    indent: nat,
    error: bool,
    more: Option<TargetView>,
)
    requires
        one_plain_line(a),
        one_plain_line(b),
        0 < width <= usize::MAX,
        a.len() <= usize::MAX,
        b.len() <= usize::MAX,
        can_be_wrapped(a, layout_of(width, indent).content_width as nat),
        can_be_wrapped(b, layout_of(width, indent).content_width as nat),
        ({
            let columns = layout_of(width, indent).content_width as nat;
            wrapped(raw_line(a), columns).len() + wrapped(raw_line(b), columns).len() <= usize::MAX
        }),
    ensures
        ({
            let rows = detail_rows(
                label,
                a + seq!['\n'] + b,
                width,
                indent,
                usize::MAX as nat,
                error,
                more,
            );
            visible(painted_rows(beside_margin(rows))) == visible(in_style(a, plain())) + visible(
                in_style(b, plain()),
            )
        }),
{
    let layout = layout_of(width, indent);
    let columns = layout.content_width as nat;
    let most = usize::MAX as nat;
    let text = a + seq!['\n'] + b;
    lemma_plain_lines(a, b);
    assert(lines(text).len() == 2);
    assert(safe_line_list(text)[0] == a && safe_line_list(text)[1] == b);
    assert(most * columns >= most) by (nonlinear_arith)
        requires
            columns >= 1,
            most >= 0,
    ;
    assert(line_chars(most, columns) == most);
    assert(source_lines(text, most, columns) =~= seq![a, b]);
    assert(!source_cut(text, most, columns));
    let raws = seq![a, b].map_values(|s: Seq<char>| raw_line(s));
    assert(raws =~= seq![raw_line(a), raw_line(b)]);
    let first = wrapped(raw_line(a), columns);
    let second = wrapped(raw_line(b), columns);
    assert(raws.drop_last() =~= seq![raw_line(a)]);
    assert(raws.drop_last().drop_last() =~= Seq::empty());
    assert(wrapped_each(raws.drop_last().drop_last(), columns) =~= Seq::empty());
    assert(wrapped_each(raws.drop_last(), columns) =~= first);
    let content = wrapped_each(raws, columns);
    assert(content =~= first + second);
    let rows = detail_rows(label, text, width, indent, most, error, more);
    assert(rows == block(label, content, layout, most, false, error, more));
    lemma_text_painted(a, columns);
    lemma_text_painted(b, columns);
    lemma_rows_join(first, second);
    lemma_visible_joins(painted_rows(first), painted_rows(second));
    lemma_whole_block(label, content, layout, error, more);
}

/// A block that is shown in full paints its content beside the margin.
proof fn lemma_whole_block(
    label: Seq<char>,
    content: Seq<LineView>,
    layout: DetailLayout,
    error: bool,
    more: Option<TargetView>,
)
    requires
        content.len() <= usize::MAX,
    ensures
        painted_rows(
            beside_margin(
                block(label, content, layout, usize::MAX as nat, false, error, more),
            ),
        ) == painted_rows(content),
{
    let rows = block(label, content, layout, usize::MAX as nat, false, error, more);
    let beside = beside_margin(rows);
    assert(content.take(content.len() as int) =~= content);
    let shown = block_lines(content, layout, usize::MAX as nat, false);
    assert forall|i: int| 0 <= i < shown.len() implies #[trigger] beside[i] == line(
        shown[i].spans,
    ) by {
        assert(rows[i].line.spans.skip(2) =~= shown[i].spans);
    }
    if content.len() == 0 {
        assert(shown =~= seq![blank()]);
        assert(beside =~= seq![blank()]);
        assert(beside.drop_first() =~= Seq::empty());
        assert(painted(blank().spans) =~= Seq::empty());
        assert(painted_rows(beside.drop_first()) =~= Seq::empty());
        assert(painted_rows(beside) =~= painted_rows(content));
    } else {
        lemma_same_paint(beside, content);
    }
}

proof fn lemma_same_paint(a: Seq<LineView>, b: Seq<LineView>)
    requires
        a.len() == b.len(),
        forall|i: int| 0 <= i < a.len() ==> (#[trigger] a[i]).spans == b[i].spans,
    ensures
        painted_rows(a) == painted_rows(b),
    decreases a.len(),
{
    if a.len() > 0 {
        let x = a.drop_first();
        let y = b.drop_first();
        assert forall|i: int| 0 <= i < x.len() implies (#[trigger] x[i]).spans == y[i].spans by {
            assert(a[i + 1].spans == b[i + 1].spans);
        }
        lemma_same_paint(x, y);
        assert(a[0].spans == b[0].spans);
    }
}

/// An unfolded call of a tool shows what it was given and then what it brought: the
/// result under that name, as an error where the call failed, or that it is awaited.
pub proof fn law_an_unfolded_call_shows_its_result(
    t: ToolView,
    a: Seq<char>,
    b: Seq<char>,
    width: nat,
    indent: nat,
)
    requires
        t.kind is Tool,
        t.full,
        t.result == Some(a + seq!['\n'] + b),
        one_plain_line(a),
        one_plain_line(b),
        0 < width <= usize::MAX,
        a.len() <= usize::MAX,
        b.len() <= usize::MAX,
        ({
            let layout = layout_of(width, indent + 4);
            let columns = layout.content_width as nat;
            &&& can_be_wrapped(a, columns)
            &&& can_be_wrapped(b, columns)
            &&& wrapped(raw_line(a), columns).len() + wrapped(raw_line(b), columns).len()
                <= usize::MAX
            &&& 6 <= layout.label_width
            &&& text_width("result"@) <= layout.label_width
        }),
    ensures
        ({
            let rows = unfolded_rows(t, width, indent);
            exists|n: int| #[trigger]
                shows_from(rows, n, visible(in_style(a, plain())) + visible(in_style(b, plain())))
                    && rows[n].line.spans[1].content.take(6) == seq![
                    'r',
                    'e',
                    's',
                    'u',
                    'l',
                    't',
                ] && rows[n].line.spans[1].style.fg == Some(
                    if t.state == ToolState::Failed {
                        ERROR
                    } else {
                        MUTED
                    },
                )
        }),
{
    let layout = layout_of(width, indent + 4);
    let more = Some(TargetView::Tool(t.id));
    let text = a + seq!['\n'] + b;
    let error = t.state == ToolState::Failed;
    let most = usize::MAX as nat;
    let brought = detail_rows("result"@, text, width, indent + 4, most, error, more);
    let rows = unfolded_rows(t, width, indent);
    let n = rows.len() - brought.len();
    law_a_block_shows_its_text("result"@, a, b, width, indent + 4, error, more);
    reveal_strlit("result");
    assert("result"@ =~= seq!['r', 'e', 's', 'u', 'l', 't']);
    assert(rows.skip(n) =~= brought);
    assert(brought.len() > 0);
    let columns = layout.content_width as nat;
    law_a_block_is_labelled(
        "result"@,
        wrapped_each(
            source_lines(text, most, columns).map_values(|s: Seq<char>| raw_line(s)),
            columns,
        ),
        layout,
        most,
        source_cut(text, most, columns),
        error,
        more,
        0,
    );
    assert(rows[n] == brought[0]);
    assert(shows_from(
        rows,
        n,
        visible(in_style(a, plain())) + visible(in_style(b, plain())),
    ));
}

/// Whether the rows from `n` on paint this beside the margin.
pub open spec fn shows_from(rows: Seq<RowView>, n: int, paint: Seq<(char, Style)>) -> bool {
    &&& 0 <= n < rows.len()
    &&& visible(painted_rows(beside_margin(rows.skip(n)))) == paint
}

/// A group is led by its own row, which is what a click on the group names, and below
/// it are the calls that it shows.
pub proof fn law_a_group_is_led_by_its_row(
    lines: Seq<ItemView>,
    e: EntryView,
    group: GroupView,
    scene: SceneView,
    width: nat,
    nested: bool,
)
    requires
        e.group == Some(group),
        0 <= e.start < e.end <= lines.len(),
    ensures
        ({
            let rows = entry_rows_of(lines, e, scene, width, nested);
            let calls = visible_calls(lines, e.start, e.end, group.expanded);
            &&& rows.len() >= 1
            &&& rows[0].target == Some(TargetView::ToolGroup(group.id))
            &&& exists|indent: int, column: nat| #[trigger]
                shows_calls(rows, calls, scene, width, indent, column)
        }),
{
    let rows = entry_rows_of(lines, e, scene, width, nested);
    let calls = visible_calls(lines, e.start, e.end, group.expanded);
    let indent: int = if width >= 64 {
        group_indent(group.child, width, nested) as int + 2
    } else {
        0
    };
    assert(rows.skip(1) =~= group_rows(calls, 0, scene, width, indent as nat, widest_name(calls)));
    assert(shows_calls(rows, calls, scene, width, indent, widest_name(calls)));
}

/// Whether the rows below the first are those of the calls.
pub open spec fn shows_calls(
    rows: Seq<RowView>,
    calls: Seq<ItemView>,
    scene: SceneView,
    width: nat,
    indent: int,
    column: nat,
) -> bool {
    rows.skip(1) == group_rows(calls, 0, scene, width, indent as nat, column)
}

/// The calls of a group are shown in their order, a folded one in one row; each hangs
/// on a fork but the last, which hangs on a corner.
pub proof fn law_a_group_shows_its_calls_in_order(
    calls: Seq<ItemView>,
    k: int,
    scene: SceneView,
    width: nat,
    indent: nat,
    column: nat,
)
    requires
        0 <= k <= calls.len(),
        forall|i: int|
            0 <= i < calls.len() ==> (#[trigger] calls[i]) is Tool && calls[i]->Tool_0.kind is Tool
                && !calls[i]->Tool_0.expanded,
    ensures
        ({
            let rows = group_rows(calls, k, scene, width, indent, column);
            &&& rows.len() == calls.len() - k
            &&& forall|i: int|
                0 <= i < rows.len() ==> (#[trigger] rows[i]).target == Some(
                    TargetView::Tool(calls[k + i]->Tool_0.id),
                )
            &&& width >= 64 && 2 <= indent <= width ==> forall|i: int|
                0 <= i < rows.len() ==> {
                    let lead = (#[trigger] rows[i]).line.spans[0].content;
                    &&& lead.len() == indent
                    &&& lead.skip(indent - 2) == (if k + i == calls.len() - 1 {
                        seq!['└', '─']
                    } else {
                        seq!['├', '─']
                    })
                }
        }),
    decreases calls.len() - k,
{
    reveal_strlit("└─");
    reveal_strlit("├─");
    assert("└─"@ =~= seq!['└', '─']);
    assert("├─"@ =~= seq!['├', '─']);
    if k < calls.len() {
        law_a_group_shows_its_calls_in_order(calls, k + 1, scene, width, indent, column);
        let rest = group_rows(calls, k + 1, scene, width, indent, column);
        let rows = group_rows(calls, k, scene, width, indent, column);
        let branch = if width >= 64 {
            Some(
                if k + 1 == calls.len() {
                    "└─"@
                } else {
                    "├─"@
                },
            )
        } else {
            None
        };
        let t = calls[k]->Tool_0;
        law_a_folded_call_is_one_row(t, scene, width, indent, branch, column);
        let own = call_rows(t, scene, width, indent, branch, column);
        assert(rows =~= own + rest);
        assert forall|i: int| 0 <= i < rows.len() implies (#[trigger] rows[i]).target == Some(
            TargetView::Tool(calls[k + i]->Tool_0.id),
        ) by {
            if i > 0 {
                assert(rows[i] == rest[i - 1]);
            }
        }
        if width >= 64 && 2 <= indent <= width {
            assert forall|i: int| 0 <= i < rows.len() implies ({
                let lead = (#[trigger] rows[i]).line.spans[0].content;
                &&& lead.len() == indent
                &&& lead.skip(indent - 2) == (if k + i == calls.len() - 1 {
                    seq!['└', '─']
                } else {
                    seq!['├', '─']
                })
            }) by {
                if i > 0 {
                    assert(rows[i] == rest[i - 1]);
                } else {
                    let lead = rows[0].line.spans[0].content;
                    assert(rows[0] == own[0]);
                    assert(lead.skip(indent - 2) =~= branch->0);
                }
            }
        }
    }
}

/// A group is named by the group of its first call and that call, and is unfolded where
/// that name is among those that were unfolded. It hangs below a thought where one
/// stands before it.
pub proof fn law_a_group_is_unfolded_by_its_name(
    lines: Seq<ItemView>,
    open: Seq<Seq<char>>,
    start: int,
)
    requires
        0 <= start < lines.len(),
        is_tool_call(lines[start]),
    ensures
        ({
            let e = entry_at(lines, open, start);
            let first = lines[start]->Tool_0;
            let name = first.group_id + seq![':'] + first.id;
            &&& e.start == start
            &&& e.group is Some
            &&& (e.group->0).id == name
            &&& (e.group->0).expanded == open.contains(name)
            &&& (e.group->0).child == (start > 0 && lines[start - 1] is Thought)
        }),
{
    reveal_strlit(":");
    assert(":"@ =~= seq![':']);
}

/// What an agent did is shown below its row where it is unfolded: each line of its
/// timeline as it would be shown alone, behind a branch.
pub proof fn law_an_unfolded_agent_shows_its_timeline(
    t: ToolView,
    a: ItemView,
    b: ItemView,
    scene: SceneView,
    width: nat,
    indent: nat,
    branch: Option<Seq<char>>,
    name_column: nat,
)
    requires
        t.kind is Agent,
        t.expanded,
        t.child_lines == seq![a, b],
        !(a is Tool),
        !(b is Tool),
        indent <= width,
    ensures
        ({
            let rows = call_rows(t, scene, width, indent, branch, name_column);
            let head = head_rows(t, scene, width, indent, branch, name_column);
            let inner = less(width, child_indent(width, indent));
            let first = item_rows(a, scene, inner);
            let second = item_rows(b, scene, inner);
            let n = head.len() as int;
            &&& rows.len() == n + first.len() + second.len()
            &&& rows.take(n) == head
            &&& forall|i: int|
                0 <= i < first.len() ==> (#[trigger] rows[n + i]).line.spans.skip(1)
                    == first[i].line.spans && rows[n + i].target == first[i].target
            &&& forall|i: int|
                0 <= i < second.len() ==> (#[trigger] rows[n + first.len() + i]).line.spans.skip(1)
                    == second[i].line.spans && rows[n + first.len() + i].target
                    == second[i].target
        }),
{
    let below = child_indent(width, indent);
    let inner = less(width, below);
    let lines = seq![a, b];
    let rows = call_rows(t, scene, width, indent, branch, name_column);
    let head = head_rows(t, scene, width, indent, branch, name_column);
    let first = item_rows(a, scene, inner);
    let second = item_rows(b, scene, inner);
    let n = head.len() as int;
    lemma_run_end(lines, 0);
    lemma_run_end(lines, 1);
    let e0 = entry_at(lines, scene.expanded_groups, 0);
    let e1 = entry_at(lines, scene.expanded_groups, 1);
    assert(e0.end == 1 && e1.end == 2);
    assert(entry_rows_of(lines, e0, scene, inner, true) == first);
    assert(entry_rows_of(lines, e1, scene, inner, true) == second);
    assert(timeline(lines, scene, inner, below, 2) =~= Seq::empty());
    let upper = branched(first, below, false);
    let lower = branched(second, below, true);
    assert(timeline(lines, scene, inner, below, 1) =~= lower);
    assert(timeline(lines, scene, inner, below, 0) =~= upper + lower);
    assert(child_rows(t, scene, width, indent) == upper + lower);
    assert(rows =~= head + (upper + lower));
    assert(rows.take(n) =~= head);
    assert forall|i: int| 0 <= i < first.len() implies (#[trigger] rows[n + i]).line.spans.skip(1)
        == first[i].line.spans && rows[n + i].target == first[i].target by {
        assert(rows[n + i] == upper[i]);
        assert(upper[i].line.spans.skip(1) =~= first[i].line.spans);
    }
    assert forall|i: int| 0 <= i < second.len() implies (
    #[trigger] rows[n + first.len() + i]).line.spans.skip(1) == second[i].line.spans && rows[n
        + first.len() + i].target == second[i].target by {
        assert(rows[n + first.len() + i] == lower[i]);
        assert(lower[i].line.spans.skip(1) =~= second[i].line.spans);
    }
}

proof fn lemma_each_has_a_row(content: Seq<LineView>, columns: nat)
    ensures
        wrapped_each(content, columns).len() >= content.len(),
    decreases content.len(),
{
    if content.len() > 0 {
        lemma_each_has_a_row(content.drop_last(), columns);
        lemma_has_a_row(content.last(), columns);
    }
}

proof fn lemma_has_a_row(l: LineView, columns: nat)
    ensures
        wrapped(l, columns).len() >= 1,
{
}

proof fn lemma_long_text(
    label: Seq<char>,
    text: Seq<char>,
    width: nat,
    indent: nat,
    limit: nat,
    error: bool,
    more: Option<TargetView>,
)
    requires
        width > 0,
        0 < limit < 100,
        lines(text).len() > limit,
    ensures
        ({
            let rows = detail_rows(label, text, width, indent, limit, error, more);
            rows.len() == limit && rows[limit - 1].target == more
        }),
{
    let columns = layout_of(width, indent).content_width as nat;
    let source = source_lines(text, limit, columns);
    let raws = source.map_values(|s: Seq<char>| raw_line(s));
    assert(source.len() == limit + 1);
    lemma_each_has_a_row(raws, columns);
}

proof fn lemma_long_diff(diff: Seq<DiffView>, columns: nat)
    ensures
        diff_lines(diff, columns).len() >= diff.len(),
    decreases diff.len(),
{
    if diff.len() > 0 {
        lemma_long_diff(diff.drop_last(), columns);
        lemma_has_a_row(diff_line(diff.last()), columns);
    }
}

/// A call that is unfolded but not in full shows four rows of what it was given, or
/// eight of what it changes, six of what it prints while it runs, and eight of what it
/// brought, where there are more; the last of each takes the click that shows the rest.
pub proof fn law_an_unfolded_call_shows_the_beginning(t: ToolView, width: nat, indent: nat)
    requires
        width > 0,
        t.kind is Tool,
        !t.full,
        t.diff.len() == 0 ==> lines(t.argument_detail).len() > 4,
        t.diff.len() > 0 ==> t.diff.len() > 8,
        t.state == ToolState::Running ==> t.tail.len() > 0 && lines(t.tail).len() > 6,
        t.result is Some,
        lines(t.result->0).len() > 8,
    ensures
        ({
            let rows = unfolded_rows(t, width, indent);
            let more = Some(TargetView::Tool(t.id));
            let given: int = if t.diff.len() == 0 {
                4
            } else {
                8
            };
            let said: int = if t.state == ToolState::Running {
                6
            } else {
                0
            };
            &&& rows.len() == given + said + 8
            &&& rows[given - 1].target == more
            &&& rows[given + said - 1].target == more
            &&& rows[given + said + 7].target == more
        }),
{
    let more = Some(TargetView::Tool(t.id));
    let inner = indent + 4;
    if t.diff.len() == 0 {
        lemma_long_text("args"@, t.argument_detail, width, inner, 4, false, more);
    } else {
        let columns = layout_of(width, inner).content_width as nat;
        lemma_long_diff(t.diff.take(9), columns);
    }
    if t.state == ToolState::Running {
        lemma_long_text("tail"@, t.tail, width, inner, 6, false, more);
    }
    lemma_long_text(
        "result"@,
        t.result->0,
        width,
        inner,
        8,
        t.state == ToolState::Failed,
        more,
    );
}

/// A click on a call opens it, the next opens it in full, and the next folds it. It
/// changes nothing else of the call.
pub proof fn law_a_click_opens_a_call_step_by_step(lines: Seq<ItemView>, t: ToolView)
    ensures
        ({
            let after = toggled_lines(seq![ItemView::Tool(t)] + lines, t.id);
            let now = after[0]->Tool_0;
            &&& after.len() == lines.len() + 1
            &&& after.skip(1) == lines
            &&& after[0] is Tool
            &&& now == (ToolView { expanded: now.expanded, full: now.full, ..t })
            &&& !t.expanded ==> now.expanded && now.full == t.full
            &&& t.expanded && !t.full ==> now.expanded && now.full
            &&& t.expanded && t.full ==> !now.expanded && !now.full
        }),
{
    let all = seq![ItemView::Tool(t)] + lines;
    assert(all[0] == ItemView::Tool(t));
    assert(toggled(all[0], t.id) is Some);
    assert(toggle_index(all, 0, t.id) == 0);
    let after = toggled_lines(all, t.id);
    assert(after.skip(1) =~= lines);
}

/// A click on a thought or a report unfolds it where it was folded and folds it where it
/// was not, and changes nothing else of it.
pub proof fn law_a_click_turns_a_note_over(id: Seq<char>, text: Seq<char>, complete: bool, open: bool)
    ensures
        flipped(ItemView::Thought { id, text, complete, expanded: open }) == (ItemView::Thought {
            id,
            text,
            complete,
            expanded: !open,
        }),
        flipped(ItemView::Task { id, text, expanded: open }) == (ItemView::Task {
            id,
            text,
            expanded: !open,
        }),
        flipped(ItemView::Job { id, text, expanded: open }) == (ItemView::Job {
            id,
            text,
            expanded: !open,
        }),
        flipped(ItemView::Note { id, text, expanded: open }) == (ItemView::Note {
            id,
            text,
            expanded: !open,
        }),
{
}

} // verus!
