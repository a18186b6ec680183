//! Finding rows in the transcript, unfolding them, and the activity of agents.

use vstd::prelude::*;
use crate::chars::{cat3, group_views, own, same, views};
use crate::transcript::events::{
    apply_child_loop_event, child_event, found, is_tool, lemma_rfind, newest, newest_tool_index,
    LoopEvent,
};
use crate::transcript::model::{
    lemma_tool_view, opt_text, ItemView, KindView, Line_, ToolKind, ToolRow, ToolView,
};

verus! {

broadcast use {group_views, lemma_tool_view};

/// The next stage of a row: folded, open, open in full, folded again.
pub open spec fn next_stage(t: ToolView) -> ToolView {
    if !t.expanded {
        ToolView { expanded: true, ..t }
    } else if !t.full {
        ToolView { full: true, ..t }
    } else {
        ToolView { expanded: false, full: false, ..t }
    }
}

/// The line with the tool `id` in it one stage further, if it holds that tool.
pub open spec fn toggled(l: ItemView, id: Seq<char>) -> Option<ItemView>
    decreases l, 0int,
{
    match l {
        ItemView::Tool(t) => if t.id == id {
            Some(ItemView::Tool(next_stage(t)))
        } else {
            let i = toggle_index(t.child_lines, 0, id);
            if 0 <= i < t.child_lines.len() {
                Some(
                    ItemView::Tool(
                        ToolView {
                            child_lines: t.child_lines.update(i, toggled(t.child_lines[i], id)->0),
                            ..t
                        },
                    ),
                )
            } else {
                None
            }
        },
        _ => None,
    }
}

/// The first of the lines from `i` on that holds the tool `id`, or the length.
pub open spec fn toggle_index(lines: Seq<ItemView>, i: int, id: Seq<char>) -> int
    decreases lines, lines.len() - i,
{
    if i < 0 || i >= lines.len() || toggled(lines[i], id) is Some {
        i
    } else {
        toggle_index(lines, i + 1, id)
    }
}

/// All the lines, with the first that holds the tool `id` one stage further.
pub open spec fn toggled_lines(lines: Seq<ItemView>, id: Seq<char>) -> Seq<ItemView> {
    let i = toggle_index(lines, 0, id);
    if 0 <= i < lines.len() {
        lines.update(i, toggled(lines[i], id)->0)
    } else {
        lines
    }
}

fn toggle_line(line: &mut Line_, id: &str) -> (r: bool)
    ensures
        r == toggled(old(line)@, id@) is Some,
        final(line)@ == (if r {
            toggled(old(line)@, id@)->0
        } else {
            old(line)@
        }),
    decreases *old(line),
{
    match line {
        Line_::Tool(row) => {
            if same(row.id.as_str(), id) {
                if !row.expanded {
                    row.expanded = true;
                } else if !row.full {
                    row.full = true;
                } else {
                    row.expanded = false;
                    row.full = false;
                }
                true
            } else {
                toggle_tool_expansion(&mut row.child_lines, id).is_some()
            }
        },
        _ => false,
    }
}

/// Unfold a tool's row a stage further. What comes back is the top-level line:
/// a row inside an agent's timeline reports the line that contains it.
pub fn toggle_tool_expansion(lines: &mut Vec<Line_>, id: &str) -> (r: Option<usize>)
    ensures
        views(final(lines)@) == toggled_lines(views(old(lines)@), id@),
        final(lines)@.len() == old(lines)@.len(),
        ({
            let i = toggle_index(views(old(lines)@), 0, id@);
            0 <= i && if i < old(lines)@.len() {
                r == Some(i as usize)
            } else {
                r is None
            }
        }),
    decreases *old(lines),
{
    let ghost all = views(lines@);
    let mut i: usize = 0;
    let n: usize = lines.len();
    while i < n
        invariant
            i <= n,
            n == lines@.len(),
            lines@.len() == old(lines)@.len(),
            all == views(old(lines)@),
            views(lines@) == all,
            forall|k: int| i <= k < n ==> lines@[k] == old(lines)@[k],
            toggle_index(all, 0, id@) == toggle_index(all, i as int, id@),
        decreases n - i,
    {
        assert(decreases_to!(*old(lines) => old(lines)@[i as int]));
        assert(all[i as int] == lines@[i as int]@);
        let ghost before = lines@;
        if toggle_line(&mut lines[i], id) {
            assert(lines@ =~= before.update(i as int, lines@[i as int]));
            return Some(i);
        }
        assert(views(lines@) =~= all);
        i += 1;
    }
    None
}

/// Whether this is a note, a thought or a notification under `id`.
pub open spec fn is_note(l: ItemView, id: Seq<char>) -> bool {
    match l {
        ItemView::Thought { id: line_id, .. } => line_id == id,
        ItemView::Task { id: line_id, .. } => line_id == id,
        ItemView::Job { id: line_id, .. } => line_id == id,
        ItemView::Note { id: line_id, .. } => line_id == id,
        _ => false,
    }
}

/// The note folded where it was open, open where it was folded.
pub open spec fn flipped(l: ItemView) -> ItemView {
    match l {
        ItemView::Thought { id, text, complete, expanded } => ItemView::Thought {
            id,
            text,
            complete,
            expanded: !expanded,
        },
        ItemView::Task { id, text, expanded } => ItemView::Task { id, text, expanded: !expanded },
        ItemView::Job { id, text, expanded } => ItemView::Job { id, text, expanded: !expanded },
        ItemView::Note { id, text, expanded } => ItemView::Note { id, text, expanded: !expanded },
        _ => l,
    }
}

/// The first of the lines from `i` on that is a note under `id`, or the length.
pub open spec fn note_index(lines: Seq<ItemView>, i: int, id: Seq<char>) -> int
    decreases lines.len() - i,
{
    if i < 0 || i >= lines.len() || is_note(lines[i], id) {
        i
    } else {
        note_index(lines, i + 1, id)
    }
}

fn flip_note(line: &mut Line_, id: &str) -> (r: bool)
    ensures
        r == is_note(old(line)@, id@),
        final(line)@ == (if r {
            flipped(old(line)@)
        } else {
            old(line)@
        }),
{
    match line {
        Line_::Thought { id: line_id, expanded, .. } => flip_named(line_id, expanded, id),
        Line_::Task { id: line_id, expanded, .. } => flip_named(line_id, expanded, id),
        Line_::Job { id: line_id, expanded, .. } => flip_named(line_id, expanded, id),
        Line_::Note { id: line_id, expanded, .. } => flip_named(line_id, expanded, id),
        _ => false,
    }
}

fn flip_named(line_id: &String, expanded: &mut bool, id: &str) -> (r: bool)
    ensures
        r == (line_id@ == id@),
        *final(expanded) == (*old(expanded) != r),
{
    if same(line_id.as_str(), id) {
        *expanded = !*expanded;
        true
    } else {
        false
    }
}

/// Open or fold the note `id`. Only top-level lines carry such ids.
pub fn toggle_note_expansion(lines: &mut Vec<Line_>, id: &str) -> (r: Option<usize>)
    ensures
        ({
            let all = views(old(lines)@);
            let i = note_index(all, 0, id@);
            if i < all.len() {
                r == Some(i as usize) && views(final(lines)@) == all.update(i, flipped(all[i]))
            } else {
                r is None && views(final(lines)@) == all
            }
        }),
{
    let ghost all = views(lines@);
    let mut i: usize = 0;
    while i < lines.len()
        invariant
            i <= lines@.len(),
            all == views(old(lines)@),
            views(lines@) == all,
            note_index(all, 0, id@) == note_index(all, i as int, id@),
        decreases lines@.len() - i,
    {
        assert(all[i as int] == lines@[i as int]@);
        let ghost before = lines@;
        if flip_note(&mut lines[i], id) {
            assert(lines@ =~= before.update(i as int, lines@[i as int]));
            return Some(i);
        }
        assert(lines@ =~= before.update(i as int, lines@[i as int]));
        assert(views(lines@) =~= all);
        i += 1;
    }
    None
}

/// Whether this line starts the group of calls named `group`, or an agent's
/// timeline below it does.
pub open spec fn holds_group(l: ItemView, group: Seq<char>) -> bool
    decreases l, 0int,
{
    match l {
        ItemView::Tool(t) => (t.kind is Tool && group == t.group_id + ":"@ + t.id) || (0
            <= group_index(t.child_lines, 0, group) < t.child_lines.len()),
        _ => false,
    }
}

/// The first of the lines from `i` on that holds the group, or the length.
pub open spec fn group_index(lines: Seq<ItemView>, i: int, group: Seq<char>) -> int
    decreases lines, lines.len() - i,
{
    if i < 0 || i >= lines.len() || holds_group(lines[i], group) {
        i
    } else {
        group_index(lines, i + 1, group)
    }
}

fn line_holds_group(line: &Line_, group: &str) -> (r: bool)
    ensures
        r == holds_group(line@, group@),
    decreases line,
{
    match line {
        Line_::Tool(row) => {
            let starts: bool = match &row.kind {
                ToolKind::Tool => same(
                    group,
                    cat3(row.group_id.as_str(), ":", row.id.as_str()).as_str(),
                ),
                ToolKind::Agent { .. } => false,
            };
            starts || tool_group_index(&row.child_lines, group).is_some()
        },
        _ => false,
    }
}

/// Where the group of calls that `group` names begins, as a top-level line.
pub fn tool_group_index(lines: &Vec<Line_>, group: &str) -> (r: Option<usize>)
    ensures
        ({
            let i = group_index(views(lines@), 0, group@);
            0 <= i && if i < lines@.len() {
                r == Some(i as usize)
            } else {
                r is None
            }
        }),
    decreases lines,
{
    let ghost all = views(lines@);
    let mut i: usize = 0;
    while i < lines.len()
        invariant
            i <= lines@.len(),
            all == views(lines@),
            group_index(all, 0, group@) == group_index(all, i as int, group@),
        decreases lines@.len() - i,
    {
        assert(decreases_to!(lines => lines@[i as int]));
        assert(all[i as int] == lines@[i as int]@);
        if line_holds_group(&lines[i], group) {
            return Some(i);
        }
        i += 1;
    }
    None
}

/// Whether a call of this id is among the lines.
pub open spec fn has_call(lines: Seq<ItemView>, call: Seq<char>) -> bool {
    newest(lines, call) >= 0
}

/// Whether some tool in this line hosts the session `session` and holds the row
/// of the call `call`.
pub open spec fn hosts_call(l: ItemView, session: Seq<char>, call: Seq<char>) -> bool
    decreases l, 0int,
{
    match l {
        ItemView::Tool(t) => (t.child_session_id == Some(session) && has_call(t.child_lines, call))
            || (0 <= host_index(t.child_lines, 0, session, call) < t.child_lines.len()),
        _ => false,
    }
}

/// The first of the lines from `i` on that hosts the call, or the length.
pub open spec fn host_index(lines: Seq<ItemView>, i: int, session: Seq<char>, call: Seq<char>) -> int
    decreases lines, lines.len() - i,
{
    if i < 0 || i >= lines.len() || hosts_call(lines[i], session, call) {
        i
    } else {
        host_index(lines, i + 1, session, call)
    }
}

fn is_session(id: &Option<String>, session: &str) -> (r: bool)
    ensures
        r == (opt_text(*id) == Some(session@)),
{
    match id {
        Some(id) => same(id.as_str(), session),
        None => false,
    }
}

fn line_hosts_call(line: &Line_, session_id: &str, call_id: &str) -> (r: bool)
    ensures
        r == hosts_call(line@, session_id@, call_id@),
    decreases line,
{
    match line {
        Line_::Tool(row) => (is_session(&row.child_session_id, session_id) && newest_tool_index(
            &row.child_lines,
            call_id,
        ).is_some()) || first_host(&row.child_lines, session_id, call_id) < row.child_lines.len(),
        _ => false,
    }
}

fn first_host(lines: &Vec<Line_>, session_id: &str, call_id: &str) -> (r: usize)
    ensures
        r == host_index(views(lines@), 0, session_id@, call_id@),
        r <= lines@.len(),
    decreases lines,
{
    let ghost all = views(lines@);
    let mut i: usize = 0;
    while i < lines.len()
        invariant
            i <= lines@.len(),
            all == views(lines@),
            host_index(all, 0, session_id@, call_id@) == host_index(
                all,
                i as int,
                session_id@,
                call_id@,
            ),
        decreases lines@.len() - i,
    {
        assert(decreases_to!(lines => lines@[i as int]));
        assert(all[i as int] == lines@[i as int]@);
        if line_hosts_call(&lines[i], session_id, call_id) {
            return i;
        }
        i += 1;
    }
    i
}

/// Whether any tool below these lines hosts the session and holds the row of
/// the call.
pub fn session_lines_for_call(lines: &Vec<Line_>, session_id: &str, call_id: &str) -> (r: bool)
    ensures
        r == (host_index(views(lines@), 0, session_id@, call_id@) < lines@.len()),
{
    first_host(lines, session_id, call_id) < lines.len()
}

/// Something that an agent did: its parent's session and call, its own session,
/// its name, and the event.
#[derive(Debug)]
pub struct SubagentActivity {
    pub parent_session_id: String,
    pub parent_call_id: String,
    pub child_session_id: String,
    pub agent: String,
    pub event: LoopEvent,
}

/// Whether the parent's call is in the session's own transcript.
pub open spec fn is_direct(root: Seq<char>, activity: SubagentActivity) -> bool {
    activity.parent_session_id@ == root || root.len() == 0
}

/// The top-level line that owns the parent's call, or -1.
pub open spec fn owner_index(
    lines: Seq<ItemView>,
    root: Seq<char>,
    activity: SubagentActivity,
) -> int {
    if is_direct(root, activity) {
        newest(lines, activity.parent_call_id@)
    } else {
        let i = host_index(
            lines,
            0,
            activity.parent_session_id@,
            activity.parent_call_id@,
        );
        if i < lines.len() {
            i
        } else {
            -1
        }
    }
}

/// The row of a call after its agent did something. A call that has an agent is
/// an agent's call, whatever tool made it.
pub open spec fn active_row(t: ToolView, activity: SubagentActivity) -> ToolView {
    let after = child_event(
        t.child_lines,
        t.child_group,
        activity.parent_call_id@,
        activity.event,
    );
    ToolView {
        kind: if t.kind is Tool && activity.agent@.len() > 0 {
            KindView::Agent { name: activity.agent@, model: None }
        } else {
            t.kind
        },
        child_lines: after.0,
        child_group: after.1,
        child_running: !(activity.event is TurnDone),
        child_session_id: Some(activity.child_session_id@),
        ..t
    }
}

/// The lines after the newest row of the parent's call took the activity.
pub open spec fn active_lines(lines: Seq<ItemView>, activity: SubagentActivity) -> Seq<ItemView> {
    let i = newest(lines, activity.parent_call_id@);
    lines.update(i, ItemView::Tool(active_row(lines[i]->Tool_0, activity)))
}

/// A line that hosts the parent's call, after the activity.
pub open spec fn active_host(l: ItemView, activity: SubagentActivity) -> ItemView
    decreases l,
{
    let session = activity.parent_session_id@;
    let call = activity.parent_call_id@;
    match l {
        ItemView::Tool(t) => if t.child_session_id == Some(session) && has_call(
            t.child_lines,
            call,
        ) {
            ItemView::Tool(ToolView { child_lines: active_lines(t.child_lines, activity), ..t })
        } else {
            let i = host_index(t.child_lines, 0, session, call);
            if 0 <= i < t.child_lines.len() {
                ItemView::Tool(
                    ToolView {
                        child_lines: t.child_lines.update(
                            i,
                            active_host(t.child_lines[i], activity),
                        ),
                        ..t
                    },
                )
            } else {
                l
            }
        },
        _ => l,
    }
}

/// The lines after the activity.
pub open spec fn active_transcript(
    lines: Seq<ItemView>,
    root: Seq<char>,
    activity: SubagentActivity,
) -> Seq<ItemView> {
    let i = owner_index(lines, root, activity);
    if i < 0 {
        lines
    } else if is_direct(root, activity) {
        active_lines(lines, activity)
    } else {
        lines.update(i, active_host(lines[i], activity))
    }
}

fn apply_to_row(row: &mut ToolRow, activity: &SubagentActivity)
    ensures
        final(row)@ == active_row(old(row)@, *activity),
{
    let plain: bool = match &row.kind {
        ToolKind::Tool => true,
        ToolKind::Agent { .. } => false,
    };
    if plain && !activity.agent.as_str().is_empty() {
        row.kind = ToolKind::Agent { name: own(activity.agent.as_str()), model: None };
    }
    row.child_session_id = Some(own(activity.child_session_id.as_str()));
    row.child_running = match &activity.event {
        LoopEvent::TurnDone { .. } => false,
        _ => true,
    };
    apply_child_loop_event(
        &mut row.child_lines,
        &mut row.child_group,
        activity.parent_call_id.as_str(),
        &activity.event,
    );
}

fn apply_to_call(lines: &mut Vec<Line_>, index: usize, activity: &SubagentActivity)
    requires
        index == newest(views(old(lines)@), activity.parent_call_id@),
        index < old(lines)@.len(),
        views(old(lines)@)[index as int] is Tool,
    ensures
        views(final(lines)@) == active_lines(views(old(lines)@), *activity),
{
    assert(views(lines@)[index as int] == lines@[index as int]@);
    if let Line_::Tool(row) = &mut lines[index] {
        apply_to_row(row, activity);
    }
}

fn apply_in_host(line: &mut Line_, activity: &SubagentActivity)
    requires
        hosts_call(old(line)@, activity.parent_session_id@, activity.parent_call_id@),
    ensures
        final(line)@ == active_host(old(line)@, *activity),
    decreases *old(line),
{
    let session: &str = activity.parent_session_id.as_str();
    let call: &str = activity.parent_call_id.as_str();
    if let Line_::Tool(row) = line {
        if is_session(&row.child_session_id, session) {
            if let Some(index) = newest_tool_index(&row.child_lines, call) {
                apply_to_call(&mut row.child_lines, index, activity);
                return;
            }
        }
        let ghost all = views(row.child_lines@);
        let i: usize = first_host(&row.child_lines, session, call);
        assert(all[i as int] == row.child_lines@[i as int]@);
        proof {
            lemma_host_index(all, 0, session@, call@);
        }
        apply_in_host(&mut row.child_lines[i], activity);
        assert(views(row.child_lines@) =~= all.update(i as int, row.child_lines@[i as int]@));
    }
}

proof fn lemma_host_index(lines: Seq<ItemView>, i: int, session: Seq<char>, call: Seq<char>)
    requires
        0 <= i <= lines.len(),
    ensures
        i <= host_index(lines, i, session, call) <= lines.len(),
        host_index(lines, i, session, call) < lines.len() ==> hosts_call(
            lines[host_index(lines, i, session, call)],
            session,
            call,
        ),
    decreases lines.len() - i,
{
    if i < lines.len() && !hosts_call(lines[i], session, call) {
        lemma_host_index(lines, i + 1, session, call);
    }
}

/// The top-level line whose rows own the parent's call.
pub fn subagent_owner_index(lines: &Vec<Line_>, root_session_id: &str, activity: &SubagentActivity) -> (r:
    Option<usize>)
    ensures
        found(r) == owner_index(views(lines@), root_session_id@, *activity),
        r matches Some(i) ==> i < lines@.len(),
{
    if same(activity.parent_session_id.as_str(), root_session_id) || root_session_id.is_empty() {
        return newest_tool_index(lines, activity.parent_call_id.as_str());
    }
    let i: usize = first_host(
        lines,
        activity.parent_session_id.as_str(),
        activity.parent_call_id.as_str(),
    );
    if i < lines.len() {
        Some(i)
    } else {
        None
    }
}

/// Fold what an agent did into the timeline below its call. What comes back is
/// the top-level line that changed, or `None` where the call's row has not
/// arrived yet.
pub fn apply_subagent_activity(
    lines: &mut Vec<Line_>,
    root_session_id: &str,
    activity: &SubagentActivity,
) -> (r: Option<usize>)
    ensures
        views(final(lines)@) == active_transcript(
            views(old(lines)@),
            root_session_id@,
            *activity,
        ),
        found(r) == owner_index(views(old(lines)@), root_session_id@, *activity),
{
    let direct: bool = same(activity.parent_session_id.as_str(), root_session_id)
        || root_session_id.is_empty();
    let ghost all = views(lines@);
    if direct {
        match newest_tool_index(lines, activity.parent_call_id.as_str()) {
            Some(index) => {
                apply_to_call(lines, index, activity);
                Some(index)
            },
            None => None,
        }
    } else {
        let index: usize = first_host(
            lines,
            activity.parent_session_id.as_str(),
            activity.parent_call_id.as_str(),
        );
        if index >= lines.len() {
            return None;
        }
        assert(all[index as int] == lines@[index as int]@);
        proof {
            lemma_host_index(
                all,
                0,
                activity.parent_session_id@,
                activity.parent_call_id@,
            );
        }
        apply_in_host(&mut lines[index], activity);
        assert(views(lines@) =~= all.update(index as int, lines@[index as int]@));
        Some(index)
    }
}

/// Whether the row that a toggle of `id` finds in the line, if any, is at one of
/// its stages: only one that is open is open in full.
pub open spec fn staged(l: ItemView, id: Seq<char>) -> bool
    decreases l,
{
    match l {
        ItemView::Tool(t) => if t.id == id {
            t.full ==> t.expanded
        } else {
            let i = toggle_index(t.child_lines, 0, id);
            if 0 <= i < t.child_lines.len() {
                staged(t.child_lines[i], id)
            } else {
                true
            }
        },
        _ => true,
    }
}

proof fn lemma_toggle_index(lines: Seq<ItemView>, i: int, id: Seq<char>)
    requires
        0 <= i <= lines.len(),
    ensures
        i <= toggle_index(lines, i, id) <= lines.len(),
        forall|k: int|
            i <= k < toggle_index(lines, i, id) ==> toggled(#[trigger] lines[k], id) is None,
        toggle_index(lines, i, id) < lines.len() ==> toggled(
            lines[toggle_index(lines, i, id)],
            id,
        ) is Some,
    decreases lines.len() - i,
{
    if i < lines.len() && toggled(lines[i], id) is None {
        lemma_toggle_index(lines, i + 1, id);
    }
}

proof fn lemma_toggle_index_is(lines: Seq<ItemView>, i: int, at: int, id: Seq<char>)
    requires
        0 <= i <= at < lines.len(),
        forall|k: int| i <= k < at ==> toggled(#[trigger] lines[k], id) is None,
        toggled(lines[at], id) is Some,
    ensures
        toggle_index(lines, i, id) == at,
    decreases at - i,
{
    if i < at {
        lemma_toggle_index_is(lines, i + 1, at, id);
    }
}

proof fn lemma_three_toggles(l: ItemView, id: Seq<char>)
    requires
        staged(l, id),
        toggled(l, id) is Some,
    ensures
        toggled(toggled(l, id)->0, id) is Some,
        toggled(toggled(toggled(l, id)->0, id)->0, id) == Some(l),
    decreases l,
{
    let t = l->Tool_0;
    if t.id != id {
        let lines = t.child_lines;
        lemma_toggle_index(lines, 0, id);
        let i = toggle_index(lines, 0, id);
        lemma_three_toggles(lines[i], id);
        let one = lines.update(i, toggled(lines[i], id)->0);
        lemma_toggle_index_is(one, 0, i, id);
        let two = one.update(i, toggled(one[i], id)->0);
        lemma_toggle_index_is(two, 0, i, id);
        assert(two.update(i, toggled(two[i], id)->0) =~= lines);
    }
}

/// A row goes through its stages and comes back: toggled three times, the
/// transcript is what it was, wherever in it the row is. Only that row need be at
/// one of its stages.
pub proof fn law_three_toggles_come_back(lines: Seq<ItemView>, id: Seq<char>)
    requires
        ({
            let i = toggle_index(lines, 0, id);
            0 <= i < lines.len() ==> staged(lines[i], id)
        }),
    ensures
        toggled_lines(toggled_lines(toggled_lines(lines, id), id), id) == lines,
{
    lemma_toggle_index(lines, 0, id);
    let i = toggle_index(lines, 0, id);
    if i < lines.len() {
        lemma_three_toggles(lines[i], id);
        let one = lines.update(i, toggled(lines[i], id)->0);
        lemma_toggle_index_is(one, 0, i, id);
        let two = one.update(i, toggled(one[i], id)->0);
        lemma_toggle_index_is(two, 0, i, id);
        assert(two.update(i, toggled(two[i], id)->0) =~= lines);
    }
}

/// A note that is opened and folded again is what it was, and stays the note that
/// its id names.
pub proof fn law_a_note_flips_back(note: ItemView, id: Seq<char>)
    ensures
        flipped(flipped(note)) == note,
        is_note(flipped(note), id) == is_note(note, id),
{
}

/// What an agent does shows below one line of the transcript; the others stay as
/// they are.
pub proof fn law_an_agent_touches_one_line(
    lines: Seq<ItemView>,
    root: Seq<char>,
    activity: SubagentActivity,
    k: int,
)
    requires
        0 <= k < lines.len(),
        k != owner_index(lines, root, activity),
    ensures
        active_transcript(lines, root, activity).len() == lines.len(),
        active_transcript(lines, root, activity)[k] == lines[k],
{
    lemma_rfind(lines, lines.len() as int, is_tool(activity.parent_call_id@));
    lemma_host_index(lines, 0, activity.parent_session_id@, activity.parent_call_id@);
}

} // verus!
