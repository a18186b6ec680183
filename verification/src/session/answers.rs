//! What a log is restored to, told by its events: how each call was answered, and
//! where each message went.

use vstd::prelude::*;
use crate::chars::{dec, group_views};
use crate::format::kept_detail;
use crate::session::event::{no_usage, ContentBlock, SessionEvent, ToolInput};
use crate::session::notice::arrival;
use crate::session::restore::{
    after_block, after_blocks, after_event, breaks_off, broken_off, call_runs, compacted_upto,
    latest_usage_of, law_without_compactions_the_whole_is_shown, replay, restored, spend_upto,
    swept, Extent, Liveness,
};
use crate::transcript::events::{is_unsettled, lemma_rfind, newest_unsettled};
use crate::transcript::model::{opt_text, ItemView, KindView, ToolState, ToolView};
use crate::words::starts;

verus! {

broadcast use group_views;

/// Whether block `k` of an event makes the call `c`.
pub open spec fn calls_at(event: SessionEvent, k: int, c: Seq<char>) -> bool {
    match event {
        SessionEvent::AssistantMessage { content, .. } => 0 <= k < content@.len()
            && content@[k] is ToolCall && content@[k]->ToolCall_id@ == c,
        _ => false,
    }
}

/// Whether an event is the result of the call `c`.
pub open spec fn answers(event: SessionEvent, c: Seq<char>) -> bool {
    event is ToolResult && event->ToolResult_tool_use_id@ == c
}

/// Whether a line is the row of the call `c`.
pub open spec fn is_row_of(l: ItemView, c: Seq<char>) -> bool {
    l is Tool && l->Tool_0.id == c
}

/// Whether a row tells what its call was given: the input, what it changes, and in a
/// word what it is about. A task is its agent's, and is about what it was described
/// as; any other call is a tool's.
pub open spec fn tells_input(t: ToolView, name: Seq<char>, input: ToolInput) -> bool {
    &&& t.argument_detail == input.detail@
    &&& t.diff.len() == input.diff@.len()
    &&& forall|d: int| 0 <= d < t.diff.len() ==> #[trigger] t.diff[d] == input.diff@[d]@
    &&& name == "task"@ ==> match input.task {
        Some(task) => {
            &&& t.kind == KindView::Agent { name: task.agent@, model: opt_text(task.model) }
            &&& t.arguments == task.description@
        },
        None => t.kind is Agent && t.arguments == input.summary@,
    }
    &&& name != "task"@ ==> t.kind == KindView::Tool && t.arguments == input.summary@
    &&& !t.expanded && !t.full && !t.child_running && t.child_lines.len() == 0
}

/// Whether line `m` is the one row of the call `c`.
pub open spec fn only_row(lines: Seq<ItemView>, c: Seq<char>, m: int) -> bool {
    &&& 0 <= m < lines.len()
    &&& is_row_of(lines[m], c)
    &&& forall|k: int| 0 <= k < lines.len() && k != m ==> !is_row_of(#[trigger] lines[k], c)
}

/// Whether the rows of the call `c` are the same in both.
spec fn same_rows(before: Seq<ItemView>, after: Seq<ItemView>, c: Seq<char>) -> bool {
    &&& before.len() <= after.len()
    &&& forall|m: int|
        0 <= m < after.len() && is_row_of(#[trigger] after[m], c) ==> m < before.len()
            && before[m] == after[m]
    &&& forall|m: int|
        0 <= m < before.len() && is_row_of(#[trigger] before[m], c) ==> after[m] == before[m]
}

/// Whether what is neither a reply nor a call stays as it is.
spec fn lines_stay(before: Seq<ItemView>, after: Seq<ItemView>) -> bool {
    &&& before.len() <= after.len()
    &&& forall|m: int|
        0 <= m < before.len() && !(before[m] is Assistant) && !(before[m] is Tool)
            ==> #[trigger] after[m] == before[m]
    &&& forall|m: int|
        0 <= m < before.len() && before[m] is Assistant ==> (#[trigger] after[m]) is Assistant
            && before[m]->Assistant_0.is_prefix_of(after[m]->Assistant_0)
}

proof fn lemma_block(
    lines: Seq<ItemView>,
    block: ContentBlock,
    message: Seq<char>,
    run: nat,
    nested: bool,
    c: Seq<char>,
)
    ensures
        lines_stay(lines, after_block(lines, block, message, run, nested)),
        !(block is ToolCall && block->ToolCall_id@ == c) ==> same_rows(
            lines,
            after_block(lines, block, message, run, nested),
            c,
        ),
{
    let after = after_block(lines, block, message, run, nested);
    assert forall|m: int| 0 <= m < lines.len() && lines[m] is Assistant implies (
    #[trigger] after[m]) is Assistant && lines[m]->Assistant_0.is_prefix_of(
        after[m]->Assistant_0,
    ) by {
        let old_text = lines[m]->Assistant_0;
        assert(old_text.is_prefix_of(old_text)) by {
            assert(old_text.subrange(0, old_text.len() as int) =~= old_text);
        }
        if after[m] != lines[m] {
            let new_text = after[m]->Assistant_0;
            assert(new_text.subrange(0, old_text.len() as int) =~= old_text);
        }
    }
}

proof fn lemma_stay_on(a: Seq<ItemView>, b: Seq<ItemView>, d: Seq<ItemView>)
    requires
        lines_stay(a, b),
        lines_stay(b, d),
    ensures
        lines_stay(a, d),
{
    assert forall|m: int|
        0 <= m < a.len() && !(a[m] is Assistant) && !(a[m] is Tool) implies #[trigger] d[m]
        == a[m] by {
        assert(b[m] == a[m]);
    }
    assert forall|m: int| 0 <= m < a.len() && a[m] is Assistant implies (
    #[trigger] d[m]) is Assistant && a[m]->Assistant_0.is_prefix_of(d[m]->Assistant_0) by {
        assert(b[m] is Assistant);
        let x = a[m]->Assistant_0;
        let y = b[m]->Assistant_0;
        let z = d[m]->Assistant_0;
        assert(z.subrange(0, x.len() as int) =~= y.subrange(0, x.len() as int)) by {
            assert(z.subrange(0, y.len() as int) == y);
            assert forall|i: int| 0 <= i < x.len() implies z[i] == y[i] by {
                assert(z.subrange(0, y.len() as int)[i] == z[i]);
            }
        }
    }
}

proof fn lemma_same_on(a: Seq<ItemView>, b: Seq<ItemView>, d: Seq<ItemView>, c: Seq<char>)
    requires
        same_rows(a, b, c),
        same_rows(b, d, c),
    ensures
        same_rows(a, d, c),
{
    assert forall|m: int| 0 <= m < d.len() && is_row_of(#[trigger] d[m], c) implies m < a.len()
        && a[m] == d[m] by {
        assert(b[m] == d[m]);
    }
    assert forall|m: int| 0 <= m < a.len() && is_row_of(#[trigger] a[m], c) implies d[m]
        == a[m] by {
        assert(b[m] == a[m]);
    }
}

proof fn lemma_blocks(
    lines: Seq<ItemView>,
    content: Seq<ContentBlock>,
    from: int,
    n: int,
    message: Seq<char>,
    nested: bool,
    c: Seq<char>,
)
    requires
        0 <= from <= n <= content.len(),
    ensures
        ({
            let a = after_blocks(lines, content, from, message, nested);
            let b = after_blocks(lines, content, n, message, nested);
            &&& lines_stay(a, b)
            &&& (forall|k: int|
                from <= k < n ==> !((#[trigger] content[k]) is ToolCall && content[k]->ToolCall_id@
                    == c)) ==> same_rows(a, b, c)
        }),
    decreases n - from,
{
    let a = after_blocks(lines, content, from, message, nested);
    if from < n {
        lemma_blocks(lines, content, from, n - 1, message, nested, c);
        let b = after_blocks(lines, content, n - 1, message, nested);
        let run = call_runs(content, n).0;
        lemma_block(b, content[n - 1], message, run, nested, c);
        let d = after_blocks(lines, content, n, message, nested);
        lemma_stay_on(a, b, d);
        if forall|k: int|
            from <= k < n ==> !((#[trigger] content[k]) is ToolCall && content[k]->ToolCall_id@
                == c) {
            lemma_same_on(a, b, d, c);
        }
    } else {
        assert forall|m: int| 0 <= m < a.len() && a[m] is Assistant implies (
        #[trigger] a[m])->Assistant_0.is_prefix_of(a[m]->Assistant_0) by {
            let text = a[m]->Assistant_0;
            assert(text.subrange(0, text.len() as int) =~= text);
        }
    }
}

proof fn lemma_reflexive(a: Seq<ItemView>)
    ensures
        lines_stay(a, a),
{
    assert forall|m: int| 0 <= m < a.len() && a[m] is Assistant implies (
    #[trigger] a[m])->Assistant_0.is_prefix_of(a[m]->Assistant_0) by {
        let text = a[m]->Assistant_0;
        assert(text.subrange(0, text.len() as int) =~= text);
    }
}

proof fn lemma_event(lines: Seq<ItemView>, event: SessionEvent, nested: bool, c: Seq<char>)
    ensures
        lines_stay(lines, after_event(lines, event, nested)),
        !answers(event, c) && (forall|k: int| !(#[trigger] calls_at(event, k, c))) ==> same_rows(
            lines,
            after_event(lines, event, nested),
            c,
        ),
{
    lemma_reflexive(lines);
    let after = after_event(lines, event, nested);
    match event {
        SessionEvent::AssistantMessage { id, content, .. } => {
            lemma_blocks(lines, content@, 0, content@.len() as int, id@, nested, c);
            if forall|k: int| !(#[trigger] calls_at(event, k, c)) {
                assert forall|k: int| 0 <= k < content@.len() implies !((
                #[trigger] content@[k]) is ToolCall && content@[k]->ToolCall_id@ == c) by {
                    assert(!calls_at(event, k, c));
                }
            }
        },
        SessionEvent::ToolResult { tool_use_id, .. } => {
            let p = is_unsettled(tool_use_id@);
            lemma_rfind(lines, lines.len() as int, p);
        },
        _ => {
            assert forall|m: int| 0 <= m < lines.len() && lines[m] is Assistant implies (
            #[trigger] after[m]) is Assistant && lines[m]->Assistant_0.is_prefix_of(
                after[m]->Assistant_0,
            ) by {
                assert(after[m] == lines[m]);
            }
        },
    }
}

proof fn lemma_replay(
    start: Seq<ItemView>,
    events: Seq<SessionEvent>,
    first: int,
    from: int,
    n: int,
    nested: bool,
    c: Seq<char>,
)
    requires
        0 <= first <= from <= n <= events.len(),
    ensures
        ({
            let a = replay(start, events, first, from, nested);
            let b = replay(start, events, first, n, nested);
            &&& lines_stay(a, b)
            &&& (forall|i: int|
                #![trigger events[i]]
                from <= i < n ==> !answers(events[i], c) && forall|k: int|
                    !(#[trigger] calls_at(events[i], k, c))) ==> same_rows(a, b, c)
        }),
    decreases n - from,
{
    let a = replay(start, events, first, from, nested);
    if from < n {
        lemma_replay(start, events, first, from, n - 1, nested, c);
        let b = replay(start, events, first, n - 1, nested);
        lemma_event(b, events[n - 1], nested, c);
        let d = replay(start, events, first, n, nested);
        lemma_stay_on(a, b, d);
        if forall|i: int|
            #![trigger events[i]]
            from <= i < n ==> !answers(events[i], c) && forall|k: int|
                !(#[trigger] calls_at(events[i], k, c)) {
            assert(!answers(events[n - 1], c));
            lemma_same_on(a, b, d, c);
        }
    } else {
        lemma_reflexive(a);
    }
}

/// No event of the log but the message at `i`, with its block `k`, makes the call
/// `c`, and there is no compaction.
pub open spec fn called_once(events: Seq<SessionEvent>, i: int, k: int, c: Seq<char>) -> bool {
    &&& 0 <= i < events.len()
    &&& calls_at(events[i], k, c)
    &&& forall|a: int, b: int|
        0 <= a < events.len() && #[trigger] calls_at(events[a], b, c) ==> a == i && b == k
    &&& forall|a: int| 0 <= a < events.len() ==> !((#[trigger] events[a]) is Compaction)
}

/// Behind the message that makes it, a call has one row, which runs.
proof fn lemma_called(
    events: Seq<SessionEvent>,
    i: int,
    k: int,
    c: Seq<char>,
) -> (m: int)
    requires
        called_once(events, i, k, c),
        forall|a: int| 0 <= a <= i ==> !answers(#[trigger] events[a], c),
    ensures
        ({
            let lines = replay(Seq::empty(), events, 0, i + 1, false);
            let call = events[i]->AssistantMessage_content@[k];
            &&& only_row(lines, c, m)
            &&& lines[m]->Tool_0.state == ToolState::Running
            &&& lines[m]->Tool_0.name == call->ToolCall_name@
            &&& tells_input(lines[m]->Tool_0, call->ToolCall_name@, call->ToolCall_input)
            &&& lines[m]->Tool_0.result is None
        }),
{
    let before = replay(Seq::empty(), events, 0, i, false);
    assert forall|a: int| #![trigger events[a]] 0 <= a < i implies !answers(events[a], c)
        && forall|b: int| !(#[trigger] calls_at(events[a], b, c)) by {
        assert forall|b: int| !(#[trigger] calls_at(events[a], b, c)) by {
            if calls_at(events[a], b, c) {
                assert(a == i);
            }
        }
    }
    lemma_replay(Seq::empty(), events, 0, 0, i, false, c);
    assert(replay(Seq::empty(), events, 0, 0, false) =~= Seq::empty());
    let content = events[i]->AssistantMessage_content@;
    let id = events[i]->AssistantMessage_id@;
    assert forall|b: int| 0 <= b < content.len() && b != k implies !((
    #[trigger] content[b]) is ToolCall && content[b]->ToolCall_id@ == c) by {
        if content[b] is ToolCall && content[b]->ToolCall_id@ == c {
            assert(calls_at(events[i], b, c));
        }
    }
    lemma_blocks(before, content, 0, k, id, false, c);
    lemma_blocks(before, content, k + 1, content.len() as int, id, false, c);
    let there = after_blocks(before, content, k, id, false);
    let with = after_blocks(before, content, k + 1, id, false);
    let m = there.len() as int;
    assert(after_blocks(before, content, 0, id, false) == before);
    assert(with[m] is Tool && with[m]->Tool_0.id == c);
    assert(is_row_of(with[m], c));
    let lines = replay(Seq::empty(), events, 0, i + 1, false);
    assert(lines == after_blocks(before, content, content.len() as int, id, false));
    assert forall|j: int| 0 <= j < lines.len() && j != m implies !is_row_of(
        #[trigger] lines[j],
        c,
    ) by {
        if is_row_of(lines[j], c) {
            assert(with[j] == lines[j]);
            assert(there[j] == with[j]);
            assert(before[j] == there[j]);
        }
    }
    m
}

proof fn lemma_rows_come_through(
    before: Seq<ItemView>,
    after: Seq<ItemView>,
    c: Seq<char>,
    m: int,
)
    requires
        only_row(before, c, m),
        same_rows(before, after, c),
    ensures
        only_row(after, c, m),
        after[m] == before[m],
{
    assert forall|k: int| 0 <= k < after.len() && k != m implies !is_row_of(
        #[trigger] after[k],
        c,
    ) by {
        if is_row_of(after[k], c) {
            assert(before[k] == after[k]);
        }
    }
}

proof fn lemma_whole_log(
    events: Seq<SessionEvent>,
    pending: Option<Seq<char>>,
    liveness: Liveness,
    extent: Extent,
)
    requires
        forall|a: int| 0 <= a < events.len() ==> !((#[trigger] events[a]) is Compaction),
    ensures
        ({
            let lines = replay(Seq::empty(), events, 0, events.len() as int, false);
            let shown = restored(events, pending, None, liveness, extent).lines;
            &&& shown.len() == lines.len()
            &&& forall|m: int|
                0 <= m < lines.len() ==> #[trigger] shown[m] == (if liveness is Settled {
                    swept(lines[m], pending)
                } else {
                    lines[m]
                })
        }),
{
    law_without_compactions_the_whole_is_shown(events, pending, None, liveness);
}

/// A restored session shows how each call was answered: a call that the log makes
/// once and answers once has one row, which failed where the result is an error and
/// succeeded otherwise. The row has the call's name and tells what it was given, and
/// it has the result and the session that the result names.
pub proof fn law_a_call_shows_how_it_was_answered(
    events: Seq<SessionEvent>,
    pending: Option<Seq<char>>,
    liveness: Liveness,
    extent: Extent,
    i: int,
    k: int,
    j: int,
    c: Seq<char>,
)
    requires
        called_once(events, i, k, c),
        i < j < events.len(),
        answers(events[j], c),
        forall|a: int| 0 <= a < events.len() && answers(#[trigger] events[a], c) ==> a == j,
    ensures
        ({
            let lines = restored(events, pending, None, liveness, extent).lines;
            let call = events[i]->AssistantMessage_content@[k];
            exists|m: int| {
                &&& #[trigger] only_row(lines, c, m)
                &&& lines[m]->Tool_0.state == (if events[j]->ToolResult_is_error {
                    ToolState::Failed
                } else {
                    ToolState::Succeeded
                })
                &&& lines[m]->Tool_0.name == call->ToolCall_name@
                &&& tells_input(lines[m]->Tool_0, call->ToolCall_name@, call->ToolCall_input)
                &&& lines[m]->Tool_0.result == Some(
                    kept_detail(events[j]->ToolResult_redacted@ + events[j]->ToolResult_markers@),
                )
                &&& lines[m]->Tool_0.child_session_id == opt_text(
                    events[j]->ToolResult_child_session_id,
                )
            }
        }),
{
    let m = lemma_called(events, i, k, c);
    let n = events.len() as int;
    let open = replay(Seq::empty(), events, 0, i + 1, false);
    let before = replay(Seq::empty(), events, 0, j, false);
    let after = replay(Seq::empty(), events, 0, j + 1, false);
    let end = replay(Seq::empty(), events, 0, n, false);
    assert forall|a: int| #![trigger events[a]] i < a < n && a != j implies !answers(events[a], c)
        && forall|b: int| !(#[trigger] calls_at(events[a], b, c)) by {
        assert forall|b: int| !(#[trigger] calls_at(events[a], b, c)) by {
            if calls_at(events[a], b, c) {
                assert(a == i);
            }
        }
    }
    lemma_replay(Seq::empty(), events, 0, i + 1, j, false, c);
    lemma_rows_come_through(open, before, c, m);
    lemma_rfind(before, before.len() as int, is_unsettled(c));
    assert(newest_unsettled(before, c) == m) by {
        assert(is_unsettled(c)(before[m]));
        let r = newest_unsettled(before, c);
        assert(is_unsettled(c)(before[r]));
        assert(is_row_of(before[r], c));
    }
    assert(only_row(after, c, m)) by {
        assert forall|x: int| 0 <= x < after.len() && x != m implies !is_row_of(
            #[trigger] after[x],
            c,
        ) by {
            assert(after[x] == before[x]);
        }
    }
    lemma_replay(Seq::empty(), events, 0, j + 1, n, false, c);
    lemma_rows_come_through(after, end, c, m);
    lemma_whole_log(events, pending, liveness, extent);
    let lines = restored(events, pending, None, liveness, extent).lines;
    assert(lines[m] == end[m]);
    assert(only_row(lines, c, m)) by {
        assert forall|x: int| 0 <= x < lines.len() && x != m implies !is_row_of(
            #[trigger] lines[x],
            c,
        ) by {
            assert(!is_row_of(end[x], c));
        }
    }
}

/// A call that the log makes once and never answers has one row. Where nothing
/// drives the session it failed, unless it is the question that is waited on; else
/// it runs.
pub proof fn law_a_call_without_an_answer_broke_off(
    events: Seq<SessionEvent>,
    pending: Option<Seq<char>>,
    liveness: Liveness,
    extent: Extent,
    i: int,
    k: int,
    c: Seq<char>,
)
    requires
        called_once(events, i, k, c),
        forall|a: int| 0 <= a < events.len() ==> !answers(#[trigger] events[a], c),
    ensures
        ({
            let lines = restored(events, pending, None, liveness, extent).lines;
            let call = events[i]->AssistantMessage_content@[k];
            exists|m: int| {
                &&& #[trigger] only_row(lines, c, m)
                &&& lines[m]->Tool_0.state == (if liveness is Settled && pending != Some(c) {
                    ToolState::Failed
                } else {
                    ToolState::Running
                })
                &&& lines[m]->Tool_0.name == call->ToolCall_name@
                &&& tells_input(lines[m]->Tool_0, call->ToolCall_name@, call->ToolCall_input)
                &&& lines[m]->Tool_0.result is None
            }
        }),
{
    let m = lemma_called(events, i, k, c);
    let n = events.len() as int;
    let open = replay(Seq::empty(), events, 0, i + 1, false);
    let end = replay(Seq::empty(), events, 0, n, false);
    assert forall|a: int| #![trigger events[a]] i < a < n implies !answers(events[a], c)
        && forall|b: int| !(#[trigger] calls_at(events[a], b, c)) by {
        assert forall|b: int| !(#[trigger] calls_at(events[a], b, c)) by {
            if calls_at(events[a], b, c) {
                assert(a == i);
            }
        }
    }
    lemma_replay(Seq::empty(), events, 0, i + 1, n, false, c);
    lemma_rows_come_through(open, end, c, m);
    lemma_whole_log(events, pending, liveness, extent);
    let lines = restored(events, pending, None, liveness, extent).lines;
    assert(only_row(lines, c, m)) by {
        assert forall|x: int| 0 <= x < lines.len() && x != m implies !is_row_of(
            #[trigger] lines[x],
            c,
        ) by {
            assert(!is_row_of(end[x], c));
        }
    }
}

/// Whether an event is a person's message that opens no tag.
pub open spec fn is_words(event: SessionEvent) -> bool {
    match event {
        SessionEvent::UserMessage { text, .. } => text@.len() > 0 ==> text@[0] != '<',
        _ => false,
    }
}

proof fn lemma_words_are_no_report(text: Seq<char>)
    requires
        text.len() > 0 ==> text[0] != '<',
    ensures
        !arrival(text),
{
    reveal_strlit("<task-notification>\n");
    reveal_strlit("<tool-notification>\n");
    if starts(text, "<task-notification>\n"@) {
        assert(text.subrange(0, "<task-notification>\n"@.len() as int)[0] == '<');
    }
    if starts(text, "<tool-notification>\n"@) {
        assert(text.subrange(0, "<tool-notification>\n"@.len() as int)[0] == '<');
    }
}

/// A restored session shows each message where it was said: a person's words, with
/// what marks the pictures, as theirs; a switch of model by its name; what ended a
/// turn in its own words. What is later in the log is lower on the screen.
pub proof fn law_messages_are_shown_in_order(
    events: Seq<SessionEvent>,
    pending: Option<Seq<char>>,
    liveness: Liveness,
    extent: Extent,
    i: int,
    j: int,
)
    requires
        0 <= i < j < events.len(),
        is_words(events[i]),
        events[j] is ModelChange || events[j] is TurnEnded || is_words(events[j]),
        forall|a: int| 0 <= a < events.len() ==> !((#[trigger] events[a]) is Compaction),
    ensures
        ({
            let lines = restored(events, pending, None, liveness, extent).lines;
            exists|x: int, y: int| {
                &&& 0 <= x < y < lines.len()
                &&& #[trigger] lines[x] == ItemView::User(
                    events[i]->UserMessage_text@ + events[i]->UserMessage_markers@,
                )
                &&& #[trigger] lines[y] == (match events[j] {
                    SessionEvent::UserMessage { text, markers, .. } => ItemView::User(
                        text@ + markers@,
                    ),
                    SessionEvent::ModelChange { model, variant, .. } => ItemView::System(
                        "switched to "@ + (match variant {
                            Some(variant) => model@ + "@"@ + variant@,
                            None => model@,
                        }),
                    ),
                    SessionEvent::TurnEnded { detail, .. } => ItemView::System(detail@),
                    _ => arbitrary(),
                })
            }
        }),
{
    let n = events.len() as int;
    let x = replay(Seq::empty(), events, 0, i, false).len() as int;
    let y = replay(Seq::empty(), events, 0, j, false).len() as int;
    let first = replay(Seq::empty(), events, 0, i + 1, false);
    let second = replay(Seq::empty(), events, 0, j + 1, false);
    let end = replay(Seq::empty(), events, 0, n, false);
    lemma_replay(Seq::empty(), events, 0, i + 1, j, false, Seq::empty());
    lemma_replay(Seq::empty(), events, 0, i + 1, n, false, Seq::empty());
    lemma_replay(Seq::empty(), events, 0, j + 1, n, false, Seq::empty());
    lemma_whole_log(events, pending, liveness, extent);
    lemma_words_are_no_report(events[i]->UserMessage_text@);
    if events[j] is UserMessage {
        lemma_words_are_no_report(events[j]->UserMessage_text@);
    }
    assert(first[x] is User);
    assert(end[x] == first[x]);
    assert(end[y] == second[y]);
    let lines = restored(events, pending, None, liveness, extent).lines;
    assert(lines[x] == end[x]);
    assert(lines[y] == end[y]);
}

/// Whether a line shows what a block says: a reply holds the text, a thought is the
/// text and is over, what broke a turn off is the system's.
pub open spec fn shows_block(l: ItemView, block: ContentBlock) -> bool {
    match block {
        ContentBlock::Text { text } => l is Assistant && exists|front: Seq<char>|
            (#[trigger] (front + text@)).is_prefix_of(l->Assistant_0),
        ContentBlock::ReasoningSummary { text, .. } => is_past_thought(l, text@),
        ContentBlock::Thinking { text } => is_past_thought(l, text@),
        ContentBlock::Diagnostic { text, turn_error } => if turn_error {
            l == ItemView::System(text@)
        } else {
            is_past_thought(l, text@)
        },
        _ => false,
    }
}

pub open spec fn is_past_thought(l: ItemView, said: Seq<char>) -> bool {
    match l {
        ItemView::Thought { text, complete, expanded, .. } => text == said && complete
            && !expanded,
        _ => false,
    }
}

/// Whether a block is to be seen: words, or a thought that was finished.
pub open spec fn is_seen(block: ContentBlock) -> bool {
    match block {
        ContentBlock::Text { .. } => true,
        ContentBlock::ReasoningSummary { completed, .. } => completed,
        ContentBlock::Thinking { .. } => true,
        ContentBlock::Diagnostic { .. } => true,
        _ => false,
    }
}

proof fn lemma_still_shown(a: Seq<ItemView>, b: Seq<ItemView>, m: int, block: ContentBlock)
    requires
        lines_stay(a, b),
        0 <= m < a.len(),
        shows_block(a[m], block),
    ensures
        shows_block(b[m], block),
{
    if a[m] is Assistant {
        let text = block->Text_text@;
        let front = choose|front: Seq<char>|
            (#[trigger] (front + text)).is_prefix_of(a[m]->Assistant_0);
        let x = front + text;
        let y = a[m]->Assistant_0;
        let z = b[m]->Assistant_0;
        assert(b[m] is Assistant);
        assert(x =~= z.subrange(0, x.len() as int)) by {
            assert(z.subrange(0, y.len() as int) == y);
            assert(y.subrange(0, x.len() as int) == x);
            assert forall|i: int| 0 <= i < x.len() implies z[i] == x[i] by {
                assert(z.subrange(0, y.len() as int)[i] == z[i]);
                assert(y.subrange(0, x.len() as int)[i] == y[i]);
            }
        }
        assert((front + text).is_prefix_of(z));
    } else {
        assert(b[m] == a[m]);
    }
}

/// A restored session shows what the model said and thought: each text, each finished
/// thought and what broke a turn off has a line that shows it.
pub proof fn law_what_the_model_said_is_shown(
    events: Seq<SessionEvent>,
    pending: Option<Seq<char>>,
    liveness: Liveness,
    extent: Extent,
    i: int,
    k: int,
)
    requires
        0 <= i < events.len(),
        events[i] is AssistantMessage,
        0 <= k < events[i]->AssistantMessage_content@.len(),
        is_seen(events[i]->AssistantMessage_content@[k]),
        forall|a: int| 0 <= a < events.len() ==> !((#[trigger] events[a]) is Compaction),
    ensures
        ({
            let lines = restored(events, pending, None, liveness, extent).lines;
            exists|m: int|
                0 <= m < lines.len() && #[trigger] shows_block(
                    lines[m],
                    events[i]->AssistantMessage_content@[k],
                )
        }),
{
    let n = events.len() as int;
    let content = events[i]->AssistantMessage_content@;
    let id = events[i]->AssistantMessage_id@;
    let before = replay(Seq::empty(), events, 0, i, false);
    let there = after_blocks(before, content, k, id, false);
    let with = after_blocks(before, content, k + 1, id, false);
    let after = replay(Seq::empty(), events, 0, i + 1, false);
    let end = replay(Seq::empty(), events, 0, n, false);
    let lines = restored(events, pending, None, liveness, extent).lines;
    let m = with.len() - 1;
    assert(after == after_blocks(before, content, content.len() as int, id, false));
    if let ContentBlock::Text { text } = content[k] {
        let front = if there.len() > 0 && there.last() is Assistant {
            there.last()->Assistant_0
        } else {
            Seq::empty()
        };
        let whole = with[m]->Assistant_0;
        assert(whole =~= front + text@);
        assert(whole.subrange(0, whole.len() as int) =~= whole);
        assert((front + text@).is_prefix_of(whole));
    }
    assert(shows_block(with[m], content[k]));
    lemma_blocks(before, content, k + 1, content.len() as int, id, false, Seq::empty());
    lemma_still_shown(with, after, m, content[k]);
    lemma_replay(Seq::empty(), events, 0, i + 1, n, false, Seq::empty());
    lemma_still_shown(after, end, m, content[k]);
    lemma_whole_log(events, pending, liveness, extent);
    assert(lines[m] == end[m]);
    assert(shows_block(lines[m], content[k]));
}

/// Whether the log has one compaction, at `i`.
pub open spec fn compacted_once(events: Seq<SessionEvent>, i: int) -> bool {
    &&& 0 <= i < events.len()
    &&& events[i] is Compaction
    &&& events[i]->Compaction_kept_from <= i
    &&& forall|a: int| 0 <= a < events.len() && a != i ==> !((#[trigger] events[a]) is Compaction)
}

proof fn lemma_one_cut(events: Seq<SessionEvent>, i: int, n: int)
    requires
        compacted_once(events, i),
        0 <= n <= events.len(),
    ensures
        compacted_upto(events, 0, n) == (if n <= i {
            (0int, None::<Seq<char>>)
        } else {
            (events[i]->Compaction_kept_from as int, Some(events[i]->Compaction_summary@))
        }),
    decreases n,
{
    if n > 0 {
        lemma_one_cut(events, i, n - 1);
        if n - 1 != i {
            assert(!(events[n - 1] is Compaction));
        }
    }
}

/// Of a log that was compacted the summary leads, and below it is shown what the
/// compaction kept.
pub proof fn law_a_summary_leads_what_was_kept(
    events: Seq<SessionEvent>,
    pending: Option<Seq<char>>,
    liveness: Liveness,
    i: int,
    j: int,
)
    requires
        compacted_once(events, i),
        events[i]->Compaction_kept_from <= j < events.len(),
        is_words(events[j]),
    ensures
        ({
            let lines = restored(events, pending, None, liveness, Extent::Compacted).lines;
            &&& lines.len() > 1
            &&& lines[0] is Note
            &&& !lines[0]->Note_expanded
            &&& lines[0]->Note_text == "transcript compacted\n"@ + events[i]->Compaction_summary@
            &&& exists|x: int|
                0 < x < lines.len() && #[trigger] lines[x] == ItemView::User(
                    events[j]->UserMessage_text@ + events[j]->UserMessage_markers@,
                )
        }),
{
    let n = events.len() as int;
    lemma_one_cut(events, i, n);
    let kept = events[i]->Compaction_kept_from as int;
    let lines = restored(events, pending, None, liveness, Extent::Compacted).lines;
    let lead = choose|lead: Seq<ItemView>|
        lead.len() == 1 && lead[0] is Note && !lead[0]->Note_expanded && lead[0]->Note_text
            == "transcript compacted\n"@ + events[i]->Compaction_summary@ && (
        #[trigger] replay(lead, events, kept, n, false)).len() == lines.len() && forall|m: int|
            0 <= m < lines.len() ==> #[trigger] lines[m] == (if liveness is Settled {
                swept(replay(lead, events, kept, n, false)[m], pending)
            } else {
                replay(lead, events, kept, n, false)[m]
            });
    let whole = replay(lead, events, kept, n, false);
    let before = replay(lead, events, kept, j, false);
    let after = replay(lead, events, kept, j + 1, false);
    lemma_replay(lead, events, kept, kept, j, false, Seq::empty());
    lemma_replay(lead, events, kept, j + 1, n, false, Seq::empty());
    lemma_replay(lead, events, kept, kept, n, false, Seq::empty());
    assert(replay(lead, events, kept, kept, false) == lead);
    lemma_words_are_no_report(events[j]->UserMessage_text@);
    let x = before.len() as int;
    assert(after[x] is User);
    assert(whole[x] == after[x]);
    assert(whole[0] == lead[0]);
    assert(lines[x] == whole[x]);
    assert(lines[0] == whole[0]);
}

proof fn lemma_same_replay(
    start: Seq<ItemView>,
    a: Seq<SessionEvent>,
    b: Seq<SessionEvent>,
    from: int,
    n: int,
    nested: bool,
)
    requires
        0 <= from,
        a.len() == b.len(),
        forall|k: int| from <= k < a.len() ==> #[trigger] a[k] == b[k],
    ensures
        replay(start, a, from, n, nested) == replay(start, b, from, n, nested),
    decreases n,
{
    if from < n && 0 < n <= a.len() {
        lemma_same_replay(start, a, b, from, n - 1, nested);
        assert(a[n - 1] == b[n - 1]);
    }
}

/// What a compaction folded away has no part in what is shown.
pub proof fn law_what_was_folded_away_is_not_shown(
    a: Seq<SessionEvent>,
    b: Seq<SessionEvent>,
    pending: Option<Seq<char>>,
    liveness: Liveness,
    i: int,
)
    requires
        compacted_once(a, i),
        compacted_once(b, i),
        a.len() == b.len(),
        forall|k: int| a[i]->Compaction_kept_from <= k < a.len() ==> #[trigger] a[k] == b[k],
    ensures
        restored(a, pending, None, liveness, Extent::Compacted).lines == restored(
            b,
            pending,
            None,
            liveness,
            Extent::Compacted,
        ).lines,
{
    let n = a.len() as int;
    lemma_one_cut(a, i, n);
    lemma_one_cut(b, i, n);
    assert(a[i] == b[i]);
    let kept = a[i]->Compaction_kept_from as int;
    assert forall|lead: Seq<ItemView>| #[trigger]
        replay(lead, a, kept, n, false) == replay(lead, b, kept, n, false) by {
        lemma_same_replay(lead, a, b, kept, n, false);
    }
    assert(restored(a, pending, None, liveness, Extent::Compacted).lines =~= restored(
        b,
        pending,
        None,
        liveness,
        Extent::Compacted,
    ).lines);
}

/// Each message of the model adds what it used to what the session spent, and
/// nothing else does. The whole has a price where every message has one.
pub proof fn law_each_message_spends_what_it_used(events: Seq<SessionEvent>, event: SessionEvent)
    ensures
        ({
            let n = events.len() as int;
            let before = spend_upto(events, n);
            let after = spend_upto(events.push(event), n + 1);
            match event {
                SessionEvent::AssistantMessage { usage, priced, .. } => {
                    &&& after.1 == (before.1 && priced)
                    &&& adds(before.0.input_tokens, usage.input_tokens, after.0.input_tokens)
                    &&& adds(before.0.output_tokens, usage.output_tokens, after.0.output_tokens)
                    &&& adds(
                        before.0.cache_read_input_tokens,
                        usage.cache_read_input_tokens,
                        after.0.cache_read_input_tokens,
                    )
                    &&& adds(
                        before.0.cache_creation_input_tokens,
                        usage.cache_creation_input_tokens,
                        after.0.cache_creation_input_tokens,
                    )
                },
                _ => after == before,
            }
        }),
        spend_upto(Seq::empty(), 0) == (no_usage(), true),
        no_usage().input_tokens == 0 && no_usage().output_tokens == 0,
        no_usage().cache_read_input_tokens == 0 && no_usage().cache_creation_input_tokens == 0,
{
    let n = events.len() as int;
    lemma_same_spend(events, event, n);
    assert(events.push(event)[n] == event);
}

/// Whether `sum` is `a` and `b`, or as much as can be counted.
pub open spec fn adds(a: u64, b: u64, sum: u64) -> bool {
    sum == a + b || a + b > u64::MAX && sum == u64::MAX
}

proof fn lemma_same_spend(events: Seq<SessionEvent>, event: SessionEvent, n: int)
    requires
        0 <= n <= events.len(),
    ensures
        spend_upto(events.push(event), n) == spend_upto(events, n),
    decreases n,
{
    if n > 0 {
        lemma_same_spend(events, event, n - 1);
        assert(events.push(event)[n - 1] == events[n - 1]);
    }
}

/// The latest usage is that of the last message with a context.
pub proof fn law_the_last_context_is_told(
    events: Seq<SessionEvent>,
    pending: Option<Seq<char>>,
    liveness: Liveness,
    extent: Extent,
    i: int,
)
    requires
        0 <= i < events.len(),
        events[i] is AssistantMessage,
        events[i]->AssistantMessage_context_tokens > 0,
        forall|a: int|
            i < a < events.len() && (#[trigger] events[a]) is AssistantMessage
                ==> events[a]->AssistantMessage_context_tokens == 0,
    ensures
        restored(events, pending, None, liveness, extent).latest_usage == Some(
            events[i]->AssistantMessage_usage,
        ),
{
    lemma_last_context(events, i, events.len() as int);
}

proof fn lemma_last_context(events: Seq<SessionEvent>, i: int, n: int)
    requires
        0 <= i < n <= events.len(),
        events[i] is AssistantMessage,
        events[i]->AssistantMessage_context_tokens > 0,
        forall|a: int|
            i < a < events.len() && (#[trigger] events[a]) is AssistantMessage
                ==> events[a]->AssistantMessage_context_tokens == 0,
    ensures
        latest_usage_of(events, 0, n) == Some(events[i]->AssistantMessage_usage),
    decreases n,
{
    if n - 1 > i {
        lemma_last_context(events, i, n - 1);
        if events[n - 1] is AssistantMessage {
            assert(events[n - 1]->AssistantMessage_context_tokens == 0);
        }
    }
}

/// Whether an event says nothing of whether the turn before it was finished: it is
/// no result and no message, but for a report that arrived.
pub open spec fn says_nothing_of_the_turn(event: SessionEvent) -> bool {
    match event {
        SessionEvent::UserMessage { text, .. } => arrival(text@),
        SessionEvent::ToolResult { .. } => false,
        SessionEvent::AssistantMessage { .. } => false,
        _ => true,
    }
}

/// A turn is broken off where the last that the log says of it is a result, or a
/// message of the model that calls a tool or says why it stopped. It is not where that
/// is any other message.
pub proof fn law_a_turn_is_broken_off(events: Seq<SessionEvent>, i: int, n: int)
    requires
        0 <= i < n <= events.len(),
        !says_nothing_of_the_turn(events[i]),
        forall|a: int| i < a < events.len() ==> says_nothing_of_the_turn(#[trigger] events[a]),
    ensures
        broken_off(events, n) == Some(
            match events[i] {
                SessionEvent::ToolResult { .. } => true,
                SessionEvent::AssistantMessage { content, .. } => exists|k: int|
                    0 <= k < content@.len() && match #[trigger] content@[k] {
                        ContentBlock::ToolCall { .. } => true,
                        ContentBlock::Diagnostic { turn_error, .. } => turn_error,
                        _ => false,
                    },
                _ => false,
            },
        ),
    decreases n,
{
    if n - 1 > i {
        law_a_turn_is_broken_off(events, i, n - 1);
        assert(says_nothing_of_the_turn(events[n - 1]));
    } else if let SessionEvent::AssistantMessage { content, .. } = events[i] {
        assert forall|k: int| 0 <= k < content@.len() implies breaks_off(#[trigger] content@[k])
            == (match content@[k] {
            ContentBlock::ToolCall { .. } => true,
            ContentBlock::Diagnostic { turn_error, .. } => turn_error,
            _ => false,
        }) by {}
    }
}

/// Whether what can be clicked among restored lines is named by its place.
spec fn named_by_place(lines: Seq<ItemView>) -> bool {
    forall|m: int| 0 <= m < lines.len() ==> #[trigger] own_name(lines[m], m)
}

/// Whether a thought or a report that stands at `m` has a name of its own: what it is,
/// and where it stands.
pub open spec fn own_name(l: ItemView, m: int) -> bool {
    match l {
        ItemView::Thought { id, .. } => id == "thought:restored:"@ + dec(m as nat),
        ItemView::Task { id, .. } => id == "note:restored:"@ + dec(m as nat),
        ItemView::Job { id, .. } => id == "note:restored:"@ + dec(m as nat),
        ItemView::Note { id, .. } => id == "note:restored:"@ + dec(m as nat),
        _ => true,
    }
}

proof fn lemma_named_blocks(
    lines: Seq<ItemView>,
    content: Seq<ContentBlock>,
    n: int,
    message: Seq<char>,
)
    requires
        named_by_place(lines),
        0 <= n <= content.len(),
    ensures
        named_by_place(after_blocks(lines, content, n, message, false)),
    decreases n,
{
    reveal_strlit("thought");
    reveal_strlit(":restored:");
    reveal_strlit("thought:restored:");
    if n > 0 {
        lemma_named_blocks(lines, content, n - 1, message);
        let before = after_blocks(lines, content, n - 1, message, false);
        let after = after_blocks(lines, content, n, message, false);
        assert("thought"@ + ":restored:"@ =~= "thought:restored:"@);
        assert forall|m: int| 0 <= m < after.len() implies #[trigger] own_name(after[m], m) by {
            if m < before.len() {
                assert(own_name(before[m], m));
            }
        }
    }
}

proof fn lemma_named_replay(events: Seq<SessionEvent>, n: int)
    requires
        0 <= n <= events.len(),
    ensures
        named_by_place(replay(Seq::empty(), events, 0, n, false)),
    decreases n,
{
    reveal_strlit("note");
    reveal_strlit(":restored:");
    reveal_strlit("note:restored:");
    if n > 0 {
        lemma_named_replay(events, n - 1);
        let before = replay(Seq::empty(), events, 0, n - 1, false);
        let after = replay(Seq::empty(), events, 0, n, false);
        assert("note"@ + ":restored:"@ =~= "note:restored:"@);
        match events[n - 1] {
            SessionEvent::AssistantMessage { id, content, .. } => {
                lemma_named_blocks(before, content@, content@.len() as int, id@);
            },
            SessionEvent::ToolResult { tool_use_id, .. } => {
                lemma_rfind(before, before.len() as int, is_unsettled(tool_use_id@));
                assert forall|m: int| 0 <= m < after.len() implies #[trigger] own_name(
                    after[m],
                    m,
                ) by {
                    assert(own_name(before[m], m));
                }
            },
            _ => {
                assert forall|m: int| 0 <= m < after.len() implies #[trigger] own_name(
                    after[m],
                    m,
                ) by {
                    if m < before.len() {
                        assert(own_name(before[m], m));
                    }
                }
            },
        }
    }
}

/// What can be clicked in a restored session is named by what it is and where it
/// stands, so that no two have one name.
pub proof fn law_what_can_be_clicked_has_a_name_of_its_own(
    events: Seq<SessionEvent>,
    pending: Option<Seq<char>>,
    liveness: Liveness,
    extent: Extent,
    m: int,
)
    requires
        forall|a: int| 0 <= a < events.len() ==> !((#[trigger] events[a]) is Compaction),
        0 <= m < restored(events, pending, None, liveness, extent).lines.len(),
    ensures
        own_name(restored(events, pending, None, liveness, extent).lines[m], m),
{
    lemma_named_replay(events, events.len() as int);
    lemma_whole_log(events, pending, liveness, extent);
    let whole = replay(Seq::empty(), events, 0, events.len() as int, false);
    assert(own_name(whole[m], m));
}

/// The notes that were recalled for a prompt are counted below it.
pub proof fn law_recalled_notes_are_counted(
    events: Seq<SessionEvent>,
    pending: Option<Seq<char>>,
    liveness: Liveness,
    extent: Extent,
    i: int,
)
    requires
        0 <= i < events.len(),
        events[i] is MemoryRecall,
        forall|a: int| 0 <= a < events.len() ==> !((#[trigger] events[a]) is Compaction),
    ensures
        ({
            let lines = restored(events, pending, None, liveness, extent).lines;
            let count = events[i]->MemoryRecall_ids@.len();
            exists|m: int|
                0 <= m < lines.len() && #[trigger] lines[m] == ItemView::System(
                    if count == 1 {
                        "memory: 1 note recalled for this prompt"@
                    } else {
                        "memory: "@ + dec(count) + " notes recalled for this prompt"@
                    },
                )
        }),
{
    let n = events.len() as int;
    let m = replay(Seq::empty(), events, 0, i, false).len() as int;
    let after = replay(Seq::empty(), events, 0, i + 1, false);
    let end = replay(Seq::empty(), events, 0, n, false);
    lemma_replay(Seq::empty(), events, 0, i + 1, n, false, Seq::empty());
    lemma_whole_log(events, pending, liveness, extent);
    assert(after[m] is System);
    assert(end[m] == after[m]);
    assert(restored(events, pending, None, liveness, extent).lines[m] == end[m]);
}

/// In the timeline of an agent the words that it was sent are its parent's.
pub proof fn law_an_agent_is_told_by_its_parent(lines: Seq<ItemView>, event: SessionEvent)
    requires
        is_words(event),
    ensures
        after_event(lines, event, true) == lines.push(
            ItemView::Incoming(event->UserMessage_text@ + event->UserMessage_markers@),
        ),
        after_event(lines, event, false) == lines.push(
            ItemView::User(event->UserMessage_text@ + event->UserMessage_markers@),
        ),
{
    lemma_words_are_no_report(event->UserMessage_text@);
}

/// Calls that follow one another in a message are of one group, and a call behind
/// anything else begins another.
pub proof fn law_calls_in_a_row_are_of_one_group(content: Seq<ContentBlock>, k: int)
    requires
        0 <= k < content.len(),
        content[k] is ToolCall,
    ensures
        k > 0 && content[k - 1] is ToolCall ==> call_runs(content, k + 1).0 == call_runs(
            content,
            k,
        ).0,
        k > 0 && !(content[k - 1] is ToolCall) ==> call_runs(content, k + 1).0 == call_runs(
            content,
            k,
        ).0 + 1,
        k == 0 ==> call_runs(content, k + 1).0 == 1,
{
    reveal_with_fuel(call_runs, 3);
}

} // verus!
