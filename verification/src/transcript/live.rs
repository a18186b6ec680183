//! How the timeline of an agent follows its events, what a reply looks like, what is
//! found in the rows, and what an export tells.

use vstd::prelude::*;
use crate::chars::{
    byte_len, char_bytes, control, dec, group_views, join, law_a_line_ends_at_its_line_feed, lines,
    rep, tail_start, views, white_space,
};
use crate::format::{detail, kept_detail, law_safe_text_is_kept};
use crate::measure::{lowercase, text_width};
use crate::style::{line_width, LineView, Style};
use crate::theme::{ASSISTANT, PRIMARY};
use crate::transcript::activity::{active_transcript, SubagentActivity};
use crate::transcript::cache::{matching_offsets, row_text};
use crate::transcript::details::RowView;
use crate::transcript::events::{
    child_event, is_running, is_tool, is_unsettled, lemma_rfind, newest, newest_running,
    newest_unsettled, LoopEvent,
};
use crate::transcript::lines::{
    first_line, markdown_rows, reply_columns, reply_label_width, reply_lines, reply_upto,
    rendered, thought_title, PageView,
};
use crate::transcript::model::{opt_text, ItemView, KindView, ToolProgress, ToolState, ToolView};
use crate::transcript::rows::{live_preview, reply_preview, said_lines};
use crate::transcript::share::{line_markdown, markdown_upto};
use crate::transcript::shows::{lemma_plain_lines, name_style, one_plain_line};
use crate::words::{
    before, is_char, is_white, law_trimming_takes_white_space_alone, lemma_search, past, search,
    stands_at, starts, trimmed_end, trimmed_start,
};

verus! {

broadcast use group_views;

/// Whether line `m` is the one row of the call `c`.
pub open spec fn its_row(lines: Seq<ItemView>, c: Seq<char>, m: int) -> bool {
    &&& 0 <= m < lines.len()
    &&& lines[m] is Tool
    &&& lines[m]->Tool_0.id == c
    &&& forall|k: int|
        0 <= k < lines.len() && k != m ==> !((#[trigger] lines[k]) is Tool
            && lines[k]->Tool_0.id == c)
}

proof fn lemma_its_row(lines: Seq<ItemView>, c: Seq<char>, m: int)
    requires
        its_row(lines, c, m),
        lines[m]->Tool_0.state == ToolState::Running,
    ensures
        newest(lines, c) == m,
        newest_running(lines, c) == m,
        newest_unsettled(lines, c) == m,
{
    let n = lines.len() as int;
    lemma_rfind(lines, n, is_tool(c));
    lemma_rfind(lines, n, is_running(c));
    lemma_rfind(lines, n, is_unsettled(c));
    assert(is_tool(c)(lines[m]));
    assert(is_running(c)(lines[m]));
    assert(is_unsettled(c)(lines[m]));
    assert(is_tool(c)(lines[newest(lines, c)]));
    assert(is_running(c)(lines[newest_running(lines, c)]));
    assert(is_unsettled(c)(lines[newest_unsettled(lines, c)]));
}

/// What a running call's row is after an event of the call.
pub open spec fn follows(t: ToolView, event: LoopEvent) -> ToolView {
    match event {
        LoopEvent::ToolArguments { arguments, .. } => ToolView { arguments: arguments@, ..t },
        LoopEvent::ToolInputProgress { received_bytes, last_data, .. } => if t.progress is Queued
            || t.progress is Executing {
            t
        } else {
            ToolView { progress: ToolProgress::Receiving { received_bytes, last_data }, ..t }
        },
        LoopEvent::ToolInputComplete { arguments, diff, .. } => ToolView {
            progress: ToolProgress::Queued,
            argument_detail: detail(arguments@),
            diff: views(diff@),
            ..t
        },
        LoopEvent::SubagentConfigured { description, agent, model, .. } => ToolView {
            kind: KindView::Agent { name: agent@, model: opt_text(model) },
            arguments: description@,
            ..t
        },
        LoopEvent::ToolExecutionStarted { received_bytes, started, .. } => ToolView {
            progress: ToolProgress::Executing { received_bytes, started },
            ..t
        },
        LoopEvent::ToolExecutionCompleted { .. } => ToolView {
            state: ToolState::Complete,
            progress: ToolProgress::Idle,
            ..t
        },
        LoopEvent::ToolOutputTail { tail, .. } => ToolView { tail: tail@, ..t },
        LoopEvent::ToolFinished { is_error, result, child_session_id, .. } => ToolView {
            state: if is_error {
                ToolState::Failed
            } else {
                ToolState::Succeeded
            },
            progress: ToolProgress::Idle,
            result: Some(kept_detail(result@)),
            child_session_id: opt_text(child_session_id),
            ..t
        },
        _ => t,
    }
}

/// The call that an event is about.
pub open spec fn call_of(event: LoopEvent) -> Option<Seq<char>> {
    match event {
        LoopEvent::ToolArguments { id, .. } => Some(id@),
        LoopEvent::ToolInputProgress { id, .. } => Some(id@),
        LoopEvent::ToolInputComplete { id, .. } => Some(id@),
        LoopEvent::SubagentConfigured { id, .. } => Some(id@),
        LoopEvent::ToolExecutionStarted { id, .. } => Some(id@),
        LoopEvent::ToolExecutionCompleted { id, .. } => Some(id@),
        LoopEvent::ToolOutputTail { id, .. } => Some(id@),
        LoopEvent::ToolFinished { id, .. } => Some(id@),
        _ => None,
    }
}

/// The row of a running call follows the events of the call: what it is given, what it
/// does, what it prints and how it ends. Nothing else in the timeline changes.
pub proof fn law_a_row_follows_its_call(
    lines: Seq<ItemView>,
    group: u64,
    scope: Seq<char>,
    event: LoopEvent,
    c: Seq<char>,
    m: int,
)
    requires
        its_row(lines, c, m),
        lines[m]->Tool_0.state == ToolState::Running,
        call_of(event) == Some(c),
    ensures
        child_event(lines, group, scope, event).1 == group,
        child_event(lines, group, scope, event).0 == lines.update(
            m,
            ItemView::Tool(follows(lines[m]->Tool_0, event)),
        ),
{
    lemma_its_row(lines, c, m);
    assert(lines.update(m, ItemView::Tool(lines[m]->Tool_0)) =~= lines);
}

/// What an agent says, thinks and is told is shown below what there is: a text goes
/// on with the reply under way, or begins one; a thought likewise; a new call begins a
/// row that runs, in the group of its step.
pub proof fn law_a_timeline_grows_at_its_end(
    lines: Seq<ItemView>,
    group: u64,
    scope: Seq<char>,
    event: LoopEvent,
)
    ensures
        ({
            let after = child_event(lines, group, scope, event).0;
            let next = child_event(lines, group, scope, event).1;
            match event {
                LoopEvent::Steered { text, markers } => after == lines.push(
                    ItemView::Incoming(text@ + markers@),
                ),
                LoopEvent::TextDelta(text) => if lines.len() > 0 && lines.last() is Assistant {
                    after == lines.drop_last().push(
                        ItemView::Assistant(lines.last()->Assistant_0 + text@),
                    )
                } else {
                    after == lines.push(ItemView::Assistant(text@))
                },
                LoopEvent::ThinkingDelta(_) => if lines.len() > 0 && lines.last() is Thought
                    && !lines.last()->Thought_complete {
                    after == lines
                } else {
                    after.len() == lines.len() + 1 && after.drop_last() == lines
                        && after.last() is Thought && !after.last()->Thought_complete
                        && after.last()->Thought_text == "reasoning"@
                },
                LoopEvent::ReasoningSummaryDelta(_) => after.len() >= lines.len()
                    && after.last() is Thought && !after.last()->Thought_complete,
                LoopEvent::ToolStarted { id, name } => {
                    let row = after.last()->Tool_0;
                    &&& after.len() == lines.len() + 1
                    &&& after.drop_last() == lines
                    &&& after.last() is Tool
                    &&& row.id == id@
                    &&& row.name == name@
                    &&& row.kind == KindView::Tool
                    &&& row.state == ToolState::Running
                    &&& row.progress is Idle
                    &&& row.result is None
                    &&& row.group_id == scope + ":"@ + dec(group as nat)
                    &&& !row.expanded && !row.full && row.child_lines.len() == 0
                },
                LoopEvent::StepComplete => after == lines && (group < u64::MAX ==> next == group
                    + 1),
                _ => true,
            }
        }),
        !(event is StepComplete) ==> child_event(lines, group, scope, event).1 == group,
{
    let after = child_event(lines, group, scope, event).0;
    match event {
        LoopEvent::TextDelta(text) => {
            if lines.len() > 0 && lines.last() is Assistant {
                assert(after =~= lines.drop_last().push(
                    ItemView::Assistant(lines.last()->Assistant_0 + text@),
                ));
            }
        },
        LoopEvent::ThinkingDelta(_) => {
            if after.len() > lines.len() {
                assert(after.drop_last() =~= lines);
            }
        },
        LoopEvent::ToolStarted { .. } => {
            assert(after.drop_last() =~= lines);
        },
        _ => {},
    }
}

/// A reply stands beside its speaker, who is named once: the first row behind the
/// name, the others below it. What has no colour of its own takes that of the text.
pub proof fn law_a_reply_stands_beside_its_speaker(
    text: Seq<char>,
    width: nat,
    pages: Seq<PageView>,
)
    requires
        width >= 7,
        text_width("ilar "@) <= 5,
        ({
            let page = rendered(pages, text, reply_columns(width));
            &&& page.len() == 2
            &&& page[0].spans.len() == 1 && page[1].spans.len() == 1
            &&& line_width(page[0]) <= width - 5 && line_width(page[1]) <= width - 5
        }),
    ensures
        ({
            let page = rendered(pages, text, reply_columns(width));
            let shown = reply_lines(text, width, pages);
            &&& shown.len() == 2
            &&& shown[0].spans.len() == 2 && shown[1].spans.len() == 2
            &&& shown[0].spans[0].content == seq!['i', 'l', 'a', 'r', ' ']
            &&& shown[1].spans[0].content == seq![' ', ' ', ' ', ' ', ' ']
            &&& shown[0].spans[0].style == name_style(ASSISTANT)
            &&& shown[0].spans[1].content == page[0].spans[0].content
            &&& shown[1].spans[1].content == page[1].spans[0].content
            &&& forall|i: int|
                0 <= i < 2 ==> (#[trigger] shown[i]).spans[1].style == (if page[i].spans[0].style.fg
                    is None {
                    Style { fg: Some(PRIMARY), ..page[i].spans[0].style }
                } else {
                    page[i].spans[0].style
                })
        }),
{
    reveal_strlit("ilar ");
    assert("ilar "@ =~= seq!['i', 'l', 'a', 'r', ' ']);
    assert(rep(' ', 5) =~= seq![' ', ' ', ' ', ' ', ' ']);
    let columns = reply_columns(width);
    let page = rendered(pages, text, columns);
    assert(reply_label_width(width) == 5);
    assert(columns == width - 5);
    assert(markdown_rows(page[0], columns) =~= seq![page[0]]);
    assert(markdown_rows(page[1], columns) =~= seq![page[1]]);
    reveal_with_fuel(reply_upto, 3);
    let one = reply_upto(page, 1, 5, columns);
    assert(reply_upto(page, 0, 5, columns).0.len() == 0);
    assert(one.0.len() == 1);
    assert(!one.1);
}

proof fn lemma_searched(s: Seq<char>, part: Seq<char>, i: int, at: int)
    requires
        0 <= i <= at,
        stands_at(s, part, at),
    ensures
        search(s, part, i) >= 0,
    decreases at - i,
{
    if i < at && !stands_at(s, part, i) {
        lemma_searched(s, part, i + 1, at);
    }
}

/// Whether `text` reads `part` from `at` on.
pub open spec fn reads_at(text: Seq<char>, at: int, part: Seq<char>) -> bool {
    &&& 0 <= at
    &&& at + part.len() <= text.len()
    &&& forall|i: int| 0 <= i < part.len() ==> text[at + i] == #[trigger] part[i]
}

/// What is searched for is found in a row exactly where the text of the row, in small
/// letters, holds it. The rows are found from top to bottom.
pub proof fn law_a_search_finds_the_rows_that_hold_it(
    rows: Seq<RowView>,
    n: int,
    needle: Seq<char>,
)
    requires
        0 <= n <= rows.len() <= usize::MAX,
    ensures
        ({
            let found = matching_offsets(rows, n, needle);
            &&& forall|k: int| 0 <= k < found.len() ==> (#[trigger] found[k]) < n
            &&& forall|j: int, k: int| 0 <= j < k < found.len() ==> found[j] < found[k]
            &&& forall|i: usize|
                i < n ==> (#[trigger] found.contains(i) <==> exists|at: int| #[trigger]
                    reads_at(lowercase(row_text(rows[i as int])), at, needle))
        }),
    decreases n,
{
    if n > 0 {
        law_a_search_finds_the_rows_that_hold_it(rows, n - 1, needle);
        let before = matching_offsets(rows, n - 1, needle);
        let found = matching_offsets(rows, n, needle);
        let text = lowercase(row_text(rows[n - 1]));
        lemma_search(text, needle, 0);
        assert forall|k: int| 0 <= k < found.len() implies (#[trigger] found[k]) < n by {
            if k < before.len() {
                assert(found[k] == before[k]);
            }
        }
        assert forall|j: int, k: int| 0 <= j < k < found.len() implies found[j] < found[k] by {
            assert(found[j] == before[j]);
            if k < before.len() {
                assert(found[k] == before[k]);
            }
        }
        assert forall|i: usize| i < n implies (#[trigger] found.contains(i) <==> exists|at: int| #[trigger]
            reads_at(lowercase(row_text(rows[i as int])), at, needle)) by {
            if i < n - 1 {
                assert(found.contains(i) <==> before.contains(i)) by {
                    if before.contains(i) {
                        let k = choose|k: int| 0 <= k < before.len() && before[k] == i;
                        assert(found[k] == i);
                    }
                    if found.contains(i) {
                        let k = choose|k: int| 0 <= k < found.len() && found[k] == i;
                        assert(k < before.len());
                        assert(before[k] == i);
                    }
                }
            } else {
                if search(text, needle, 0) >= 0 {
                    let at = search(text, needle, 0);
                    assert forall|k: int| 0 <= k < needle.len() implies text[at + k]
                        == #[trigger] needle[k] by {
                        assert(text.subrange(at, at + needle.len())[k] == text[at + k]);
                    }
                    assert(reads_at(text, at, needle));
                    assert(found[found.len() - 1] == i);
                } else {
                    if found.contains(i) {
                        let k = choose|k: int| 0 <= k < found.len() && found[k] == i;
                        assert(before[k] == i);
                    }
                    assert forall|at: int| !(#[trigger] reads_at(text, at, needle)) by {
                        if reads_at(text, at, needle) {
                            assert(text.subrange(at, at + needle.len()) =~= needle);
                            lemma_searched(text, needle, 0, at);
                        }
                    }
                }
            }
        }
    }
}

/// An export tells who spoke, what was said, and of each call its name, what it was
/// about and whether it failed, one line of the transcript after the other.
pub proof fn law_an_export_tells_who_spoke(
    session: Seq<char>,
    items: Seq<ItemView>,
    item: ItemView,
    text: Seq<char>,
    t: ToolView,
)
    ensures
        markdown_upto(session, Seq::empty(), 0) == "# ilar session "@ + session + "\n"@,
        markdown_upto(session, items.push(item), items.len() as int + 1) == markdown_upto(
            session,
            items,
            items.len() as int,
        ) + line_markdown(item),
        line_markdown(ItemView::User(text)) == "\n## You\n\n"@ + text + "\n"@,
        line_markdown(ItemView::Incoming(text)) == "\n## Parent\n\n"@ + text + "\n"@,
        line_markdown(ItemView::Assistant(text)) == "\n## ilar\n\n"@ + text + "\n"@,
        line_markdown(ItemView::System(text)) == "\n*"@ + first_line(text) + "*\n"@,
        t.result is None && t.state == ToolState::Failed ==> line_markdown(ItemView::Tool(t))
            == "\n- `"@ + t.name + "` "@ + t.arguments + " (failed)\n"@,
        t.result is None && t.state != ToolState::Failed ==> line_markdown(ItemView::Tool(t))
            == "\n- `"@ + t.name + "` "@ + t.arguments + "\n"@,
{
    reveal_strlit(" (failed)");
    reveal_strlit("\n");
    reveal_strlit(" (failed)\n");
    reveal_strlit("");
    let head = "\n- `"@ + t.name + "` "@ + t.arguments;
    assert(head + " (failed)"@ + "\n"@ + ""@ =~= head + " (failed)\n"@);
    assert(head + ""@ + "\n"@ + ""@ =~= head + "\n"@);
    let n = items.len() as int;
    lemma_export_front(session, items, item, n);
    assert(items.push(item)[n] == item);
}

proof fn lemma_export_front(session: Seq<char>, items: Seq<ItemView>, item: ItemView, n: int)
    requires
        0 <= n <= items.len(),
    ensures
        markdown_upto(session, items.push(item), n) == markdown_upto(session, items, n),
    decreases n,
{
    if n > 0 {
        lemma_export_front(session, items, item, n - 1);
        assert(items.push(item)[n - 1] == items[n - 1]);
    }
}

/// The paragraphs of a reply are set apart by a blank row, which names nobody.
pub proof fn law_a_blank_line_sets_paragraphs_apart(
    page: Seq<LineView>,
    n: int,
    label_width: nat,
    width: nat,
)
    requires
        0 < n <= page.len(),
        page[n - 1].spans.len() == 0,
    ensures
        ({
            let before = reply_upto(page, n - 1, label_width, width);
            let after = reply_upto(page, n, label_width, width);
            &&& after.0.len() == before.0.len() + 1
            &&& after.0.drop_last() == before.0
            &&& after.0.last().spans.len() == 0
            &&& after.1 == before.1
        }),
{
    let before = reply_upto(page, n - 1, label_width, width);
    let after = reply_upto(page, n, label_width, width);
    assert(after.0.drop_last() =~= before.0);
}

/// Whether a text is one line that has no white space around it and is not marked as a
/// heading or in bold.
pub open spec fn is_title(s: Seq<char>) -> bool {
    &&& one_plain_line(s)
    &&& !white_space(s[0]) && !white_space(s.last())
    &&& s[0] != '#' && s[0] != '*' && s.last() != '*'
}

/// A thought that is over is titled by its first line, and one under way by the line
/// that is being written. A first line in bold is titled by the bold words.
pub proof fn law_a_thought_is_titled_by_what_it_says(a: Seq<char>, b: Seq<char>)
    requires
        is_title(a),
        is_title(b),
        forall|i: int| 0 <= i < a.len() ==> a[i] != '*',
    ensures
        thought_title(a + seq!['\n'] + b, true) == a,
        thought_title(a + seq!['\n'] + b, false) == b,
        thought_title(seq!['*', '*'] + a + seq!['*', '*'], true) == a,
        thought_title(seq!['*', '*'] + a + seq!['*', '*'], false) == a,
{
    let text = a + seq!['\n'] + b;
    let none = Seq::<char>::empty();
    reveal_strlit("**");
    reveal_strlit("#");
    assert("**"@ =~= seq!['*', '*']);
    lemma_plain_lines(a, b);
    law_safe_text_is_kept(a);
    law_trimming_takes_white_space_alone(none, a, none);
    law_trimming_takes_white_space_alone(none, b, none);
    assert(none + a + none =~= a);
    assert(none + b + none =~= b);
    assert(text[0] == a[0]);
    assert(past(text, 0, is_white()) == 0);
    assert(trimmed_start(text, is_white()) =~= text);
    assert(first_line(text) == a);
    if starts(text, "**"@) {
        assert(text.subrange(0, 2)[0] == '*');
    }
    if starts(text, "#"@) {
        assert(text.subrange(0, 1)[0] == '#');
    }
    if starts(a, "**"@) {
        assert(a.subrange(0, 2)[0] == '*');
    }
    if starts(a, "#"@) {
        assert(a.subrange(0, 1)[0] == '#');
    }
    let star = is_char('*');
    assert(past(a, 0, star) == 0);
    assert(trimmed_start(a, star) =~= a);
    assert(before(a, a.len() as int, star) == a.len());
    assert(trimmed_end(a, star) =~= a);
    assert(lines(text)[1] == b);
    let marked = seq!['*', '*'] + a + seq!['*', '*'];
    assert forall|i: int| 0 <= i < marked.len() implies !control(#[trigger] marked[i]) by {
        if 2 <= i < a.len() + 2 {
            assert(marked[i] == a[i - 2]);
        }
    }
    assert(one_plain_line(marked));
    lemma_plain_lines(marked, a);
    assert(lines(marked) =~= seq![marked]) by {
        assert forall|i: int| 0 <= i < marked.len() implies marked[i] != '\n' && marked[i]
            != '\r' by {
            assert(!control(marked[i]));
        }
        law_a_line_ends_at_its_line_feed(marked, none);
    }
    law_trimming_takes_white_space_alone(none, marked, none);
    assert(none + marked + none =~= marked);
    assert(past(marked, 0, is_white()) == 0);
    assert(trimmed_start(marked, is_white()) =~= marked);
    assert(first_line(marked) == marked);
    assert(marked.subrange(0, 2) =~= "**"@);
    assert(starts(marked, "**"@));
    let rest = marked.skip(2);
    assert(rest =~= a + seq!['*', '*']);
    let n = a.len() as int;
    assert(rest.subrange(n, n + 2) =~= "**"@);
    assert forall|k: int| 0 <= k < n implies !(#[trigger] stands_at(rest, "**"@, k)) by {
        if stands_at(rest, "**"@, k) {
            assert(rest.subrange(k, k + 2)[0] == rest[k]);
            assert(rest[k] == a[k]);
        }
    }
    lemma_found_at(rest, "**"@, 0, n);
    assert(rest.take(n) =~= a);
}

proof fn lemma_found_at(s: Seq<char>, part: Seq<char>, i: int, at: int)
    requires
        0 <= i <= at,
        stands_at(s, part, at),
        forall|k: int| i <= k < at ==> !(#[trigger] stands_at(s, part, k)),
    ensures
        search(s, part, i) == at,
    decreases at - i,
{
    if i < at {
        assert(!stands_at(s, part, i));
        lemma_found_at(s, part, i + 1, at);
    }
}

/// What an agent does is shown below the call that started it: in the session's own
/// transcript the row of that call takes the event, runs until the turn is done, is an
/// agent's, and names the agent's session. No other line changes.
pub proof fn law_an_agents_work_is_shown_below_its_call(
    lines: Seq<ItemView>,
    root: Seq<char>,
    activity: SubagentActivity,
    m: int,
)
    requires
        activity.parent_session_id@ == root,
        its_row(lines, activity.parent_call_id@, m),
    ensures
        ({
            let after = active_transcript(lines, root, activity);
            let was = lines[m]->Tool_0;
            let now = after[m]->Tool_0;
            &&& after.len() == lines.len()
            &&& forall|k: int|
                0 <= k < lines.len() && k != m ==> #[trigger] after[k] == lines[k]
            &&& after[m] is Tool
            &&& now.id == was.id && now.name == was.name && now.state == was.state
            &&& now.child_running == !(activity.event is TurnDone)
            &&& now.child_session_id == Some(activity.child_session_id@)
            &&& was.kind is Tool && activity.agent@.len() > 0 ==> now.kind == (KindView::Agent {
                name: activity.agent@,
                model: None,
            })
            &&& was.kind is Agent ==> now.kind == was.kind
            &&& (now.child_lines, now.child_group) == child_event(
                was.child_lines,
                was.child_group,
                activity.parent_call_id@,
                activity.event,
            )
        }),
{
    let c = activity.parent_call_id@;
    lemma_rfind(lines, lines.len() as int, is_tool(c));
    assert(is_tool(c)(lines[m]));
    assert(is_tool(c)(lines[newest(lines, c)]));
    assert(newest(lines, c) == m);
}

proof fn lemma_whole_tail(s: Seq<char>, i: int, used: nat, max: nat)
    requires
        0 <= i <= s.len(),
        used + byte_len(s.take(i)) <= max,
    ensures
        tail_start(s, i, used, max) == 0,
    decreases i,
{
    if i > 0 {
        assert(s.take(i).drop_last() =~= s.take(i - 1));
        lemma_whole_tail(s, i - 1, used + char_bytes(s[i - 1]), max);
    }
}

/// A folded agent leads with what it is saying, whole where it is one short line, or
/// else with its last thought. One that has said nothing and does nothing is thinking.
pub proof fn law_a_folded_agent_leads_with_what_it_says(lines: Seq<ItemView>, a: Seq<char>)
    requires
        is_title(a),
        byte_len(a) <= 240,
    ensures
        lines.len() > 0 && lines.last() == ItemView::Assistant(a) ==> live_preview(lines).len() > 0
            && live_preview(lines)[0] == ItemView::Assistant(a),
        lines.len() > 0 && lines.last() is Thought ==> live_preview(lines).len() > 0
            && live_preview(lines)[0] == lines.last(),
        live_preview(Seq::empty()) == seq![ItemView::System("thinking…"@)],
{
    let none = Seq::<char>::empty();
    lemma_plain_lines(a, a);
    assert forall|i: int| 0 <= i < a.len() implies a[i] != '\n' && a[i] != '\r' by {
        assert(!control(a[i]));
    }
    law_a_line_ends_at_its_line_feed(a, none);
    law_trimming_takes_white_space_alone(none, a, none);
    assert(none + a + none =~= a);
    let parts = seq![a];
    assert(parts.drop_last() =~= Seq::empty());
    assert(said_lines(parts.drop_last()) =~= Seq::empty());
    assert(said_lines(parts) =~= seq![a]);
    assert(seq![a].skip(0) =~= seq![a]);
    assert(join(seq![a], "\n"@) == a);
    assert(a.take(a.len() as int) =~= a);
    lemma_whole_tail(a, a.len() as int, 0, 240);
    assert(a.skip(0) =~= a);
    assert(reply_preview(a) == a);
    assert(live_preview(Seq::empty()) =~= seq![ItemView::System("thinking…"@)]);
}

} // verus!
