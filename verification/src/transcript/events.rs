//! Loop events applied to a transcript model. The session's own transcript and
//! the timeline below an agent's row take the same edits. Each edit says the
//! lowest line whose rendering it changed.

use vstd::prelude::*;
use crate::chars::{
    byte_len, cat2, cat3, dec, decimal, group_views, law_tail_is_bounded, lemma_byte_len_concat,
    longer_than, own, same, tail, tail_str, views,
};
use crate::format::{bounded_detail, detail, kept_detail, kept_result_detail};
use crate::transcript::model::{
    copy_diff, copy_opt, lemma_tool_view, opt_text, DiffLine, DiffView, ItemView, KindView, Line_,
    ToolKind, ToolProgress, ToolRow, ToolState, ToolView,
};

verus! {

broadcast use {group_views, lemma_tool_view};

/// The last of the first `n` lines that `p` holds of, or -1.
pub open spec fn rfind(lines: Seq<ItemView>, n: int, p: spec_fn(ItemView) -> bool) -> int
    decreases n,
{
    if n <= 0 {
        -1
    } else if p(lines[n - 1]) {
        n - 1
    } else {
        rfind(lines, n - 1, p)
    }
}

/// An index that was found, or -1.
pub open spec fn found(r: Option<usize>) -> int {
    match r {
        Some(i) => i as int,
        None => -1,
    }
}

pub open spec fn is_tool(id: Seq<char>) -> spec_fn(ItemView) -> bool {
    |l: ItemView| l is Tool && l->Tool_0.id == id
}

pub open spec fn is_running(id: Seq<char>) -> spec_fn(ItemView) -> bool {
    |l: ItemView| l is Tool && l->Tool_0.id == id && l->Tool_0.state == ToolState::Running
}

pub open spec fn is_open_state(state: ToolState) -> bool {
    state == ToolState::Running || state == ToolState::Complete
}

pub open spec fn is_unsettled(id: Seq<char>) -> spec_fn(ItemView) -> bool {
    |l: ItemView| l is Tool && l->Tool_0.id == id && is_open_state(l->Tool_0.state)
}

pub open spec fn is_open_thought(l: ItemView) -> bool {
    l is Thought && !l->Thought_complete
}

/// The lines with the row at `i` exchanged for `t`; unchanged where there is none.
pub open spec fn with_row(lines: Seq<ItemView>, i: int, t: ToolView) -> Seq<ItemView> {
    if i < 0 {
        lines
    } else {
        lines.update(i, ItemView::Tool(t))
    }
}

pub proof fn lemma_rfind(lines: Seq<ItemView>, n: int, p: spec_fn(ItemView) -> bool)
    requires
        0 <= n <= lines.len(),
    ensures
        -1 <= rfind(lines, n, p) < n,
        rfind(lines, n, p) >= 0 ==> p(lines[rfind(lines, n, p)]),
        forall|i: int| rfind(lines, n, p) < i < n ==> !p(#[trigger] lines[i]),
    decreases n,
{
    if n > 0 && !p(lines[n - 1]) {
        lemma_rfind(lines, n - 1, p);
    }
}

/// The newest row with this call id. Ids repeat over a long transcript, and an
/// event is about the row that is still live.
pub fn newest_tool_index(lines: &Vec<Line_>, id: &str) -> (r: Option<usize>)
    ensures
        found(r) == rfind(views(lines@), lines@.len() as int, is_tool(id@)),
        r matches Some(i) ==> i < lines@.len() && views(lines@)[i as int] is Tool,
{
    let ghost p = is_tool(id@);
    let mut n: usize = lines.len();
    while n > 0
        invariant
            n <= lines.len(),
            p == is_tool(id@),
            rfind(views(lines@), lines@.len() as int, p) == rfind(views(lines@), n as int, p),
        decreases n,
    {
        assert(views(lines@)[n - 1] == lines@[n - 1]@);
        if let Line_::Tool(row) = &lines[n - 1] {
            if same(row.id.as_str(), id) {
                return Some(n - 1);
            }
        }
        n -= 1;
    }
    None
}

/// The newest row with this call id that still runs.
pub fn newest_running_tool_index(lines: &Vec<Line_>, id: &str) -> (r: Option<usize>)
    ensures
        found(r) == rfind(views(lines@), lines@.len() as int, is_running(id@)),
        r matches Some(i) ==> i < lines@.len() && views(lines@)[i as int] is Tool,
{
    let ghost p = is_running(id@);
    let mut n: usize = lines.len();
    while n > 0
        invariant
            n <= lines.len(),
            p == is_running(id@),
            rfind(views(lines@), lines@.len() as int, p) == rfind(views(lines@), n as int, p),
        decreases n,
    {
        assert(views(lines@)[n - 1] == lines@[n - 1]@);
        if let Line_::Tool(row) = &lines[n - 1] {
            if same(row.id.as_str(), id) && row.state == ToolState::Running {
                return Some(n - 1);
            }
        }
        n -= 1;
    }
    None
}

/// The text behind a user's words: the words, then the markers of what is
/// attached to them.
pub fn user_text_with_images(text: &str, markers: &str) -> (r: String)
    ensures
        r@ == text@ + markers@,
{
    cat2(text, markers)
}

/// The last reply grown by `text`, or a new one.
pub open spec fn text_delta(lines: Seq<ItemView>, text: Seq<char>) -> Seq<ItemView> {
    if lines.len() > 0 && lines.last() is Assistant {
        lines.update(lines.len() - 1, ItemView::Assistant(lines.last()->Assistant_0 + text))
    } else {
        lines.push(ItemView::Assistant(text))
    }
}

pub fn append_text_delta(lines: &mut Vec<Line_>, text: &str) -> (r: usize)
    ensures
        views(final(lines)@) == text_delta(views(old(lines)@), text@),
        r + 1 == final(lines)@.len(),
{
    let n: usize = lines.len();
    if n > 0 {
        assert(views(lines@).last() == lines@[n - 1]@);
        if let Line_::Assistant(current) = &mut lines[n - 1] {
            current.push_str(text);
            return n - 1;
        }
    }
    lines.push(Line_::Assistant(own(text)));
    lines.len() - 1
}

/// The bytes of a thought that are kept while it grows.
pub const MAX_THOUGHT_CHARS: usize = 65536;

/// A thought grown by `delta`: a thought too long keeps its end.
pub open spec fn thought_tail(text: Seq<char>, delta: Seq<char>) -> Seq<char> {
    let whole = text + delta;
    if byte_len(whole) > MAX_THOUGHT_CHARS {
        "…"@ + tail(whole, MAX_THOUGHT_CHARS as nat)
    } else {
        whole
    }
}

/// However long a model reasons, what is kept of it is bounded.
pub proof fn law_thoughts_are_bounded(text: Seq<char>, delta: Seq<char>)
    ensures
        byte_len(thought_tail(text, delta)) <= MAX_THOUGHT_CHARS + byte_len("…"@),
{
    let whole = text + delta;
    law_tail_is_bounded(whole, MAX_THOUGHT_CHARS as nat);
    lemma_byte_len_concat("…"@, tail(whole, MAX_THOUGHT_CHARS as nat));
}

pub fn append_thought_tail(text: &mut String, delta: &str)
    ensures
        final(text)@ == thought_tail(old(text)@, delta@),
{
    text.push_str(delta);
    if longer_than(text.as_str(), MAX_THOUGHT_CHARS) {
        *text = cat2("…", tail_str(text.as_str(), MAX_THOUGHT_CHARS).as_str());
    }
}

/// The open thought grown by `delta`, or a new one under `id`.
pub open spec fn thought_delta(lines: Seq<ItemView>, delta: Seq<char>, id: Seq<char>) -> Seq<
    ItemView,
> {
    if lines.len() > 0 && is_open_thought(lines.last()) {
        lines.update(
            lines.len() - 1,
            ItemView::Thought {
                id: lines.last()->Thought_id,
                text: thought_tail(lines.last()->Thought_text, delta),
                complete: false,
                expanded: lines.last()->Thought_expanded,
            },
        )
    } else {
        lines.push(
            ItemView::Thought {
                id,
                text: thought_tail(Seq::empty(), delta),
                complete: false,
                expanded: false,
            },
        )
    }
}

pub fn append_thought_delta(lines: &mut Vec<Line_>, delta: &str, id: String) -> (r: usize)
    ensures
        views(final(lines)@) == thought_delta(views(old(lines)@), delta@, id@),
        r + 1 == final(lines)@.len(),
{
    let n: usize = lines.len();
    if n > 0 {
        assert(views(lines@).last() == lines@[n - 1]@);
        if let Line_::Thought { text, complete: false, .. } = &mut lines[n - 1] {
            append_thought_tail(text, delta);
            return n - 1;
        }
    }
    let mut text: String = String::new();
    append_thought_tail(&mut text, delta);
    lines.push(Line_::Thought { id, text, complete: false, expanded: false });
    lines.len() - 1
}

/// A sign that reasoning is under way, without what it says.
pub open spec fn placeholder_thought(lines: Seq<ItemView>, title: Seq<char>) -> Seq<ItemView> {
    if lines.len() > 0 && is_open_thought(lines.last()) {
        lines
    } else {
        lines.push(
            ItemView::Thought { id: Seq::empty(), text: title, complete: false, expanded: false },
        )
    }
}

pub fn open_placeholder_thought(lines: &mut Vec<Line_>, title: &str) -> (r: usize)
    ensures
        views(final(lines)@) == placeholder_thought(views(old(lines)@), title@),
        r + 1 == final(lines)@.len(),
{
    let n: usize = lines.len();
    if n > 0 {
        assert(views(lines@).last() == lines@[n - 1]@);
        if let Line_::Thought { complete: false, .. } = &lines[n - 1] {
            return n - 1;
        }
    }
    lines.push(
        Line_::Thought { id: String::new(), text: own(title), complete: false, expanded: false },
    );
    lines.len() - 1
}

/// The newest open thought closed.
pub open spec fn thought_completed(lines: Seq<ItemView>) -> Seq<ItemView> {
    let i = rfind(lines, lines.len() as int, |l: ItemView| is_open_thought(l));
    if i < 0 {
        lines
    } else {
        lines.update(
            i,
            ItemView::Thought {
                id: lines[i]->Thought_id,
                text: lines[i]->Thought_text,
                complete: true,
                expanded: lines[i]->Thought_expanded,
            },
        )
    }
}

pub fn complete_open_thought(lines: &mut Vec<Line_>) -> (r: Option<usize>)
    ensures
        views(final(lines)@) == thought_completed(views(old(lines)@)),
        found(r) == rfind(
            views(old(lines)@),
            old(lines)@.len() as int,
            |l: ItemView| is_open_thought(l),
        ),
{
    let ghost p = |l: ItemView| is_open_thought(l);
    let mut n: usize = lines.len();
    while n > 0
        invariant
            n <= lines.len(),
            lines@ == old(lines)@,
            p == (|l: ItemView| is_open_thought(l)),
            rfind(views(lines@), lines@.len() as int, p) == rfind(views(lines@), n as int, p),
        decreases n,
    {
        assert(views(lines@)[n - 1] == lines@[n - 1]@);
        if let Line_::Thought { complete, .. } = &mut lines[n - 1] {
            if !*complete {
                *complete = true;
                return Some(n - 1);
            }
        }
        assert(lines@ =~= old(lines)@);
        n -= 1;
    }
    None
}

/// A fresh running row.
pub open spec fn fresh_row(id: Seq<char>, group_id: Seq<char>, name: Seq<char>) -> ToolView {
    ToolView {
        id,
        group_id,
        name,
        kind: KindView::Tool,
        arguments: Seq::empty(),
        argument_detail: Seq::empty(),
        diff: Seq::empty(),
        tail: Seq::empty(),
        result: None,
        state: ToolState::Running,
        progress: ToolProgress::Idle,
        expanded: false,
        full: false,
        child_lines: Seq::empty(),
        child_group: 0,
        child_running: false,
        child_session_id: None,
    }
}

pub fn new_tool_row(id: &str, group_id: String, name: &str) -> (r: ToolRow)
    ensures
        r@ == fresh_row(id@, group_id@, name@),
{
    ToolRow {
        id: own(id),
        group_id,
        name: own(name),
        kind: ToolKind::Tool,
        arguments: String::new(),
        argument_detail: String::new(),
        diff: Vec::new(),
        tail: String::new(),
        result: None,
        state: ToolState::Running,
        progress: ToolProgress::Idle,
        expanded: false,
        full: false,
        child_lines: Vec::new(),
        child_group: 0,
        child_running: false,
        child_session_id: None,
    }
}

pub fn push_tool_row(lines: &mut Vec<Line_>, id: &str, group_id: String, name: &str) -> (r: usize)
    ensures
        views(final(lines)@) == views(old(lines)@).push(
            ItemView::Tool(fresh_row(id@, group_id@, name@)),
        ),
        r + 1 == final(lines)@.len(),
{
    lines.push(Line_::Tool(new_tool_row(id, group_id, name)));
    lines.len() - 1
}

/// Where the newest row with this id is.
pub open spec fn newest(lines: Seq<ItemView>, id: Seq<char>) -> int {
    rfind(lines, lines.len() as int, is_tool(id))
}

/// Where the newest running row with this id is.
pub open spec fn newest_running(lines: Seq<ItemView>, id: Seq<char>) -> int {
    rfind(lines, lines.len() as int, is_running(id))
}

/// Where the newest row with this id is that has not been settled.
pub open spec fn newest_unsettled(lines: Seq<ItemView>, id: Seq<char>) -> int {
    rfind(lines, lines.len() as int, is_unsettled(id))
}

pub open spec fn arguments_set(lines: Seq<ItemView>, id: Seq<char>, arguments: Seq<char>) -> Seq<
    ItemView,
> {
    let i = newest(lines, id);
    with_row(lines, i, ToolView { arguments, ..lines[i]->Tool_0 })
}

pub fn set_tool_arguments(lines: &mut Vec<Line_>, id: &str, arguments: &str) -> (r: Option<usize>)
    ensures
        views(final(lines)@) == arguments_set(views(old(lines)@), id@, arguments@),
        found(r) == newest(views(old(lines)@), id@),
{
    let index: usize = match newest_tool_index(lines, id) {
        Some(index) => index,
        None => return None,
    };
    assert(views(lines@)[index as int] == lines@[index as int]@);
    if let Line_::Tool(row) = &mut lines[index] {
        row.arguments = own(arguments);
    }
    Some(index)
}

/// Bytes still arriving are the least that a row can say: a call that is queued
/// or executing says that.
pub open spec fn takes_input_progress(lines: Seq<ItemView>, i: int) -> bool {
    i >= 0 && (lines[i]->Tool_0.progress is Idle || lines[i]->Tool_0.progress is Receiving)
}

pub open spec fn input_progress(
    lines: Seq<ItemView>,
    id: Seq<char>,
    received_bytes: u64,
    last_data: u64,
) -> Seq<ItemView> {
    let i = newest_running(lines, id);
    if takes_input_progress(lines, i) {
        with_row(
            lines,
            i,
            ToolView {
                progress: ToolProgress::Receiving { received_bytes, last_data },
                ..lines[i]->Tool_0
            },
        )
    } else {
        lines
    }
}

pub fn note_tool_input_progress(
    lines: &mut Vec<Line_>,
    id: &str,
    received_bytes: u64,
    last_data: u64,
) -> (r: Option<usize>)
    ensures
        views(final(lines)@) == input_progress(
            views(old(lines)@),
            id@,
            received_bytes,
            last_data,
        ),
        found(r) == (if takes_input_progress(
            views(old(lines)@),
            newest_running(views(old(lines)@), id@),
        ) {
            newest_running(views(old(lines)@), id@)
        } else {
            -1
        }),
{
    let index: usize = match newest_running_tool_index(lines, id) {
        Some(index) => index,
        None => return None,
    };
    assert(views(lines@)[index as int] == lines@[index as int]@);
    if let Line_::Tool(row) = &mut lines[index] {
        match row.progress {
            ToolProgress::Queued | ToolProgress::Executing { .. } => {
                assert(lines@ =~= old(lines)@);
                return None;
            },
            _ => {
                row.progress = ToolProgress::Receiving { received_bytes, last_data };
            },
        }
    }
    Some(index)
}

pub open spec fn input_completed(
    lines: Seq<ItemView>,
    id: Seq<char>,
    arguments: Seq<char>,
    diff: Seq<DiffView>,
) -> Seq<ItemView> {
    let i = newest_running(lines, id);
    with_row(
        lines,
        i,
        ToolView {
            progress: ToolProgress::Queued,
            argument_detail: detail(arguments),
            diff,
            ..lines[i]->Tool_0
        },
    )
}

/// The call's arguments are whole. `diff` is what they change in a file, where
/// the tool writes one.
pub fn complete_tool_input(
    lines: &mut Vec<Line_>,
    id: &str,
    arguments: &str,
    diff: &Vec<DiffLine>,
) -> (r: Option<usize>)
    ensures
        views(final(lines)@) == input_completed(
            views(old(lines)@),
            id@,
            arguments@,
            views(diff@),
        ),
        found(r) == newest_running(views(old(lines)@), id@),
{
    let index: usize = match newest_running_tool_index(lines, id) {
        Some(index) => index,
        None => return None,
    };
    assert(views(lines@)[index as int] == lines@[index as int]@);
    if let Line_::Tool(row) = &mut lines[index] {
        row.progress = ToolProgress::Queued;
        row.argument_detail = bounded_detail(arguments);
        row.diff = copy_diff(diff);
    }
    Some(index)
}

pub open spec fn subagent_configured(
    lines: Seq<ItemView>,
    id: Seq<char>,
    agent: Seq<char>,
    model: Option<Seq<char>>,
    description: Seq<char>,
) -> Seq<ItemView> {
    let i = newest(lines, id);
    with_row(
        lines,
        i,
        ToolView {
            kind: KindView::Agent { name: agent, model },
            arguments: description,
            ..lines[i]->Tool_0
        },
    )
}

pub fn configure_subagent_row(
    lines: &mut Vec<Line_>,
    id: &str,
    agent: &str,
    model: &Option<String>,
    description: &str,
) -> (r: Option<usize>)
    ensures
        views(final(lines)@) == subagent_configured(
            views(old(lines)@),
            id@,
            agent@,
            opt_text(*model),
            description@,
        ),
        found(r) == newest(views(old(lines)@), id@),
{
    let index: usize = match newest_tool_index(lines, id) {
        Some(index) => index,
        None => return None,
    };
    assert(views(lines@)[index as int] == lines@[index as int]@);
    if let Line_::Tool(row) = &mut lines[index] {
        row.kind = ToolKind::Agent { name: own(agent), model: copy_opt(model) };
        row.arguments = own(description);
    }
    Some(index)
}

pub open spec fn execution_started(
    lines: Seq<ItemView>,
    id: Seq<char>,
    received_bytes: u64,
    started: u64,
) -> Seq<ItemView> {
    let i = newest_running(lines, id);
    with_row(
        lines,
        i,
        ToolView {
            progress: ToolProgress::Executing { received_bytes, started },
            ..lines[i]->Tool_0
        },
    )
}

pub fn start_tool_execution(
    lines: &mut Vec<Line_>,
    id: &str,
    received_bytes: u64,
    started: u64,
) -> (r: Option<usize>)
    ensures
        views(final(lines)@) == execution_started(
            views(old(lines)@),
            id@,
            received_bytes,
            started,
        ),
        found(r) == newest_running(views(old(lines)@), id@),
{
    let index: usize = match newest_running_tool_index(lines, id) {
        Some(index) => index,
        None => return None,
    };
    assert(views(lines@)[index as int] == lines@[index as int]@);
    if let Line_::Tool(row) = &mut lines[index] {
        row.progress = ToolProgress::Executing { received_bytes, started };
    }
    Some(index)
}

pub open spec fn execution_completed(lines: Seq<ItemView>, id: Seq<char>) -> Seq<ItemView> {
    let i = newest_running(lines, id);
    with_row(
        lines,
        i,
        ToolView {
            state: ToolState::Complete,
            progress: ToolProgress::Idle,
            ..lines[i]->Tool_0
        },
    )
}

pub fn complete_tool_execution(lines: &mut Vec<Line_>, id: &str) -> (r: Option<usize>)
    ensures
        views(final(lines)@) == execution_completed(views(old(lines)@), id@),
        found(r) == newest_running(views(old(lines)@), id@),
{
    let index: usize = match newest_running_tool_index(lines, id) {
        Some(index) => index,
        None => return None,
    };
    assert(views(lines@)[index as int] == lines@[index as int]@);
    if let Line_::Tool(row) = &mut lines[index] {
        row.state = ToolState::Complete;
        row.progress = ToolProgress::Idle;
    }
    Some(index)
}

pub open spec fn tail_set(lines: Seq<ItemView>, id: Seq<char>, tail: Seq<char>) -> Seq<ItemView> {
    let i = newest_running(lines, id);
    with_row(lines, i, ToolView { tail, ..lines[i]->Tool_0 })
}

pub fn set_tool_tail(lines: &mut Vec<Line_>, id: &str, tail: &str) -> (r: Option<usize>)
    ensures
        views(final(lines)@) == tail_set(views(old(lines)@), id@, tail@),
        found(r) == newest_running(views(old(lines)@), id@),
{
    let index: usize = match newest_running_tool_index(lines, id) {
        Some(index) => index,
        None => return None,
    };
    assert(views(lines@)[index as int] == lines@[index as int]@);
    if let Line_::Tool(row) = &mut lines[index] {
        row.tail = own(tail);
    }
    Some(index)
}

/// A row with its result.
pub open spec fn settled_row(
    t: ToolView,
    is_error: bool,
    result: Seq<char>,
    child_session_id: Option<Seq<char>>,
) -> ToolView {
    ToolView {
        state: if is_error {
            ToolState::Failed
        } else {
            ToolState::Succeeded
        },
        progress: ToolProgress::Idle,
        result: Some(kept_detail(result)),
        child_session_id,
        ..t
    }
}

pub open spec fn tool_finished(
    lines: Seq<ItemView>,
    id: Seq<char>,
    is_error: bool,
    result: Seq<char>,
    child_session_id: Option<Seq<char>>,
) -> Seq<ItemView> {
    let i = newest_unsettled(lines, id);
    with_row(lines, i, settled_row(lines[i]->Tool_0, is_error, result, child_session_id))
}

/// Settle the newest row of this call that is still open. `None` says that the
/// result belongs to no row there is.
pub fn finish_tool_row(
    lines: &mut Vec<Line_>,
    id: &str,
    is_error: bool,
    result: &str,
    child_session_id: &Option<String>,
) -> (r: Option<usize>)
    ensures
        views(final(lines)@) == tool_finished(
            views(old(lines)@),
            id@,
            is_error,
            result@,
            opt_text(*child_session_id),
        ),
        found(r) == newest_unsettled(views(old(lines)@), id@),
{
    let ghost p = is_unsettled(id@);
    let mut n: usize = lines.len();
    while n > 0
        invariant
            n <= lines.len(),
            lines@ == old(lines)@,
            p == is_unsettled(id@),
            rfind(views(lines@), lines@.len() as int, p) == rfind(views(lines@), n as int, p),
        decreases n,
    {
        assert(views(lines@)[n - 1] == lines@[n - 1]@);
        if let Line_::Tool(row) = &mut lines[n - 1] {
            if same(row.id.as_str(), id) && (row.state == ToolState::Running || row.state
                == ToolState::Complete) {
                row.state = if is_error {
                    ToolState::Failed
                } else {
                    ToolState::Succeeded
                };
                row.progress = ToolProgress::Idle;
                row.result = Some(kept_result_detail(result));
                row.child_session_id = copy_opt(child_session_id);
                return Some(n - 1);
            }
        }
        assert(lines@ =~= old(lines)@);
        n -= 1;
    }
    None
}

/// The lines without the thoughts that were still open.
pub open spec fn without_open_thoughts(lines: Seq<ItemView>) -> Seq<ItemView>
    decreases lines.len(),
{
    if lines.len() == 0 {
        lines
    } else {
        let front = without_open_thoughts(lines.drop_last());
        if is_open_thought(lines.last()) {
            front
        } else {
            front.push(lines.last())
        }
    }
}

/// The first of the lines from `i` on that is an open thought, or the length.
pub open spec fn first_open_thought(lines: Seq<ItemView>, i: int) -> int
    decreases lines.len() - i,
{
    if i < 0 || i >= lines.len() || is_open_thought(lines[i]) {
        i
    } else {
        first_open_thought(lines, i + 1)
    }
}

/// Thoughts that will never finish go: what arrived of them is a fragment.
pub fn prune_incomplete_thoughts(lines: &mut Vec<Line_>) -> (r: Option<usize>)
    ensures
        views(final(lines)@) == without_open_thoughts(views(old(lines)@)),
        ({
            let first = first_open_thought(views(old(lines)@), 0);
            if first < old(lines)@.len() {
                r == Some(first as usize)
            } else {
                r is None
            }
        }),
{
    let ghost all = views(lines@);
    let ghost mut seen: int = 0;
    let mut first: Option<usize> = None;
    let mut i: usize = 0;
    assert(all.take(0) =~= Seq::empty());
    assert(views(lines@) =~= without_open_thoughts(all.take(0)) + all.skip(0));
    while i < lines.len()
        invariant
            0 <= i <= lines@.len(),
            i <= seen <= all.len(),
            lines@.len() - i == all.len() - seen,
            i == without_open_thoughts(all.take(seen)).len(),
            views(lines@) == without_open_thoughts(all.take(seen)) + all.skip(seen),
            first is None ==> i == seen && first_open_thought(all, 0) == first_open_thought(
                all,
                seen,
            ),
            first matches Some(k) ==> k < all.len() && first_open_thought(all, 0) == k,
        decreases lines@.len() - i,
    {
        let ghost done = without_open_thoughts(all.take(seen));
        assert(all.take(seen + 1).drop_last() =~= all.take(seen));
        assert(views(lines@)[i as int] == lines@[i as int]@);
        assert(lines@[i as int]@ == all[seen]);
        let open: bool = match &lines[i] {
            Line_::Thought { complete, .. } => !*complete,
            _ => false,
        };
        let ghost before = lines@;
        if open {
            if first.is_none() {
                first = Some(i);
            }
            lines.remove(i);
            assert(views(lines@) =~= done + all.skip(seen + 1)) by {
                assert(lines@ =~= before.take(i as int) + before.skip(i + 1));
                assert(views(before.take(i as int)) =~= views(before).take(i as int));
                assert(views(before.skip(i + 1)) =~= views(before).skip(i + 1));
                assert(views(before).take(i as int) =~= done);
                assert(views(before).skip(i + 1) =~= all.skip(seen + 1));
            }
        } else {
            i += 1;
            assert(views(lines@) =~= done.push(all[seen]) + all.skip(seen + 1));
        }
        proof {
            seen = seen + 1;
        }
    }
    assert(all.take(seen) =~= all);
    assert(views(lines@) =~= without_open_thoughts(all));
    first
}

/// What the agent's loop reports. Times are milliseconds on one clock.
#[derive(Debug)]
pub enum LoopEvent {
    TurnStarted,
    /// A message that reached the agent, with the markers of what is attached.
    Steered { text: String, markers: String },
    TextDelta(String),
    ThinkingDelta(String),
    ReasoningSummaryDelta(String),
    ReasoningSummaryCompleted,
    ToolStarted { id: String, name: String },
    ToolArguments { id: String, arguments: String },
    ToolInputProgress { id: String, received_bytes: u64, last_data: u64 },
    /// The arguments are whole; `diff` is what they change in a file.
    ToolInputComplete { id: String, arguments: String, diff: Vec<DiffLine> },
    SubagentConfigured {
        id: String,
        description: String,
        agent: String,
        model: Option<String>,
    },
    ToolExecutionStarted { id: String, received_bytes: u64, started: u64 },
    ToolExecutionCompleted { id: String },
    ToolOutputTail { id: String, tail: String },
    ToolFinished {
        id: String,
        is_error: bool,
        result: String,
        child_session_id: Option<String>,
    },
    StepComplete,
    ProviderRetry,
    Compacted,
    TurnDone { completed: bool },
}

/// The line with every tool in it that had not been settled failed.
pub open spec fn failed_item(l: ItemView) -> ItemView
    decreases l,
{
    match l {
        ItemView::Tool(t) => ItemView::Tool(
            ToolView {
                state: if is_open_state(t.state) {
                    ToolState::Failed
                } else {
                    t.state
                },
                child_lines: failed_items(t.child_lines),
                ..t
            },
        ),
        _ => l,
    }
}

pub open spec fn failed_items(lines: Seq<ItemView>) -> Seq<ItemView>
    decreases lines,
{
    Seq::new(
        lines.len(),
        |i: int|
            if 0 <= i < lines.len() {
                failed_item(lines[i])
            } else {
                arbitrary()
            },
    )
}

fn mark_running_tool_failed(line: &mut Line_)
    ensures
        final(line)@ == failed_item(old(line)@),
    decreases *old(line),
{
    if let Line_::Tool(row) = line {
        if row.state == ToolState::Running || row.state == ToolState::Complete {
            row.state = ToolState::Failed;
        }
        mark_running_tools_failed(&mut row.child_lines);
    }
}

/// What was running when a turn broke off has failed, however deep it is.
pub fn mark_running_tools_failed(lines: &mut Vec<Line_>)
    ensures
        views(final(lines)@) == failed_items(views(old(lines)@)),
    decreases *old(lines),
{
    let ghost all = views(lines@);
    let n: usize = lines.len();
    let mut i: usize = 0;
    while i < n
        invariant
            i <= n,
            n == lines@.len(),
            n == old(lines)@.len(),
            all == views(old(lines)@),
            forall|k: int| i <= k < n ==> lines@[k] == old(lines)@[k],
            forall|k: int| 0 <= k < i ==> (#[trigger] lines@[k])@ == failed_item(all[k]),
        decreases n - i,
    {
        assert(decreases_to!(*old(lines) => old(lines)@[i as int]));
        mark_running_tool_failed(&mut lines[i]);
        i += 1;
    }
    assert(views(lines@) =~= failed_items(all));
}

/// The group counter and the lines of an agent's timeline after an event.
pub open spec fn child_event(
    lines: Seq<ItemView>,
    group: u64,
    scope: Seq<char>,
    event: LoopEvent,
) -> (Seq<ItemView>, u64) {
    match event {
        LoopEvent::Steered { text, markers } => (
            lines.push(ItemView::Incoming(text@ + markers@)),
            group,
        ),
        LoopEvent::TextDelta(text) => (text_delta(lines, text@), group),
        LoopEvent::ThinkingDelta(_) => (placeholder_thought(lines, "reasoning"@), group),
        LoopEvent::ReasoningSummaryDelta(summary) => (
            thought_delta(lines, summary@, Seq::empty()),
            group,
        ),
        LoopEvent::ReasoningSummaryCompleted => (thought_completed(lines), group),
        LoopEvent::ToolStarted { id, name } => (
            lines.push(
                ItemView::Tool(fresh_row(id@, scope + ":"@ + dec(group as nat), name@)),
            ),
            group,
        ),
        LoopEvent::ToolArguments { id, arguments } => (
            arguments_set(lines, id@, arguments@),
            group,
        ),
        LoopEvent::ToolInputProgress { id, received_bytes, last_data } => (
            input_progress(lines, id@, received_bytes, last_data),
            group,
        ),
        LoopEvent::ToolInputComplete { id, arguments, diff } => (
            input_completed(lines, id@, arguments@, views(diff@)),
            group,
        ),
        LoopEvent::SubagentConfigured { id, description, agent, model } => (
            subagent_configured(lines, id@, agent@, opt_text(model), description@),
            group,
        ),
        LoopEvent::ToolExecutionStarted { id, received_bytes, started } => (
            execution_started(lines, id@, received_bytes, started),
            group,
        ),
        LoopEvent::ToolExecutionCompleted { id } => (execution_completed(lines, id@), group),
        LoopEvent::ToolOutputTail { id, tail } => (tail_set(lines, id@, tail@), group),
        LoopEvent::ToolFinished { id, is_error, result, child_session_id } => (
            tool_finished(lines, id@, is_error, result@, opt_text(child_session_id)),
            group,
        ),
        LoopEvent::StepComplete => (
            lines,
            if group < u64::MAX {
                (group + 1) as u64
            } else {
                group
            },
        ),
        LoopEvent::TurnDone { completed } => (
            if completed {
                without_open_thoughts(lines)
            } else {
                failed_items(without_open_thoughts(lines))
            },
            group,
        ),
        LoopEvent::TurnStarted | LoopEvent::ProviderRetry | LoopEvent::Compacted => (lines, group),
    }
}

/// Fold one event of an agent into its timeline. `scope` names the call that
/// started the agent; groups of its calls are numbered within it.
pub fn apply_child_loop_event(
    lines: &mut Vec<Line_>,
    group: &mut u64,
    scope: &str,
    event: &LoopEvent,
)
    ensures
        (views(final(lines)@), *final(group)) == child_event(
            views(old(lines)@),
            *old(group),
            scope@,
            *event,
        ),
{
    match event {
        LoopEvent::Steered { text, markers } => {
            lines.push(Line_::Incoming(user_text_with_images(text.as_str(), markers.as_str())));
        },
        LoopEvent::TextDelta(text) => {
            append_text_delta(lines, text.as_str());
        },
        LoopEvent::ThinkingDelta(_) => {
            open_placeholder_thought(lines, "reasoning");
        },
        LoopEvent::ReasoningSummaryDelta(summary) => {
            append_thought_delta(lines, summary.as_str(), String::new());
        },
        LoopEvent::ReasoningSummaryCompleted => {
            complete_open_thought(lines);
        },
        LoopEvent::ToolStarted { id, name } => {
            let group_id: String = cat3(scope, ":", decimal(*group).as_str());
            push_tool_row(lines, id.as_str(), group_id, name.as_str());
        },
        LoopEvent::ToolArguments { id, arguments } => {
            set_tool_arguments(lines, id.as_str(), arguments.as_str());
        },
        LoopEvent::ToolInputProgress { id, received_bytes, last_data } => {
            note_tool_input_progress(lines, id.as_str(), *received_bytes, *last_data);
        },
        LoopEvent::ToolInputComplete { id, arguments, diff } => {
            complete_tool_input(lines, id.as_str(), arguments.as_str(), diff);
        },
        LoopEvent::SubagentConfigured { id, description, agent, model } => {
            configure_subagent_row(lines, id.as_str(), agent.as_str(), model, description.as_str());
        },
        LoopEvent::ToolExecutionStarted { id, received_bytes, started } => {
            start_tool_execution(lines, id.as_str(), *received_bytes, *started);
        },
        LoopEvent::ToolExecutionCompleted { id } => {
            complete_tool_execution(lines, id.as_str());
        },
        LoopEvent::ToolOutputTail { id, tail } => {
            set_tool_tail(lines, id.as_str(), tail.as_str());
        },
        LoopEvent::ToolFinished { id, is_error, result, child_session_id } => {
            finish_tool_row(lines, id.as_str(), *is_error, result.as_str(), child_session_id);
        },
        LoopEvent::StepComplete => {
            *group = group.saturating_add(1);
        },
        LoopEvent::TurnDone { completed } => {
            prune_incomplete_thoughts(lines);
            if !*completed {
                mark_running_tools_failed(lines);
            }
        },
        LoopEvent::TurnStarted | LoopEvent::ProviderRetry | LoopEvent::Compacted => {},
    }
}

/// A result never reaches a row that was settled before, and the row that it
/// settles is settled by it, once.
pub proof fn law_a_settled_row_stays_settled(
    lines: Seq<ItemView>,
    id: Seq<char>,
    is_error: bool,
    result: Seq<char>,
    child_session_id: Option<Seq<char>>,
    k: int,
)
    requires
        0 <= k < lines.len(),
    ensures
        ({
            let after = tool_finished(lines, id, is_error, result, child_session_id);
            let i = newest_unsettled(lines, id);
            &&& after.len() == lines.len()
            &&& lines[k] is Tool && !is_open_state(lines[k]->Tool_0.state) ==> after[k] == lines[k]
            &&& i >= 0 ==> after[i] is Tool && !is_open_state(after[i]->Tool_0.state)
            &&& i < 0 ==> after == lines
        }),
{
    lemma_rfind(lines, lines.len() as int, is_unsettled(id));
}

/// Whatever a running agent reports touches one line of its timeline, or adds
/// one; the others stay as they are.
pub proof fn law_an_event_touches_one_line(
    lines: Seq<ItemView>,
    group: u64,
    scope: Seq<char>,
    event: LoopEvent,
)
    requires
        !(event is TurnDone),
    ensures
        ({
            let after = child_event(lines, group, scope, event).0;
            &&& lines.len() <= after.len() <= lines.len() + 1
            &&& exists|i: int|
                #![trigger after[i]]
                0 <= i <= lines.len() && forall|k: int|
                    0 <= k < lines.len() && k != i ==> after[k] == #[trigger] lines[k]
        }),
{
    let n = lines.len() as int;
    let after = child_event(lines, group, scope, event).0;
    let i: int = match event {
        LoopEvent::ReasoningSummaryCompleted => {
            let p = |l: ItemView| is_open_thought(l);
            lemma_rfind(lines, n, p);
            rfind(lines, n, p)
        },
        LoopEvent::ToolArguments { id, .. } => {
            lemma_rfind(lines, n, is_tool(id@));
            newest(lines, id@)
        },
        LoopEvent::SubagentConfigured { id, .. } => {
            lemma_rfind(lines, n, is_tool(id@));
            newest(lines, id@)
        },
        LoopEvent::ToolInputProgress { id, .. } => {
            lemma_rfind(lines, n, is_running(id@));
            newest_running(lines, id@)
        },
        LoopEvent::ToolInputComplete { id, .. } => {
            lemma_rfind(lines, n, is_running(id@));
            newest_running(lines, id@)
        },
        LoopEvent::ToolExecutionStarted { id, .. } => {
            lemma_rfind(lines, n, is_running(id@));
            newest_running(lines, id@)
        },
        LoopEvent::ToolExecutionCompleted { id } => {
            lemma_rfind(lines, n, is_running(id@));
            newest_running(lines, id@)
        },
        LoopEvent::ToolOutputTail { id, .. } => {
            lemma_rfind(lines, n, is_running(id@));
            newest_running(lines, id@)
        },
        LoopEvent::ToolFinished { id, .. } => {
            lemma_rfind(lines, n, is_unsettled(id@));
            newest_unsettled(lines, id@)
        },
        _ => n - 1,
    };
    let witness = if i < 0 {
        0
    } else {
        i
    };
    assert(forall|k: int|
        0 <= k < lines.len() && k != witness ==> after[k] == #[trigger] lines[k]);
    assert(0 <= witness <= lines.len());
    let _ = after[witness];
}

/// Pruning takes the open thoughts and nothing else, in their order.
pub proof fn law_pruning_takes_open_thoughts_alone(lines: Seq<ItemView>)
    ensures
        without_open_thoughts(lines) == lines.filter(|l: ItemView| !is_open_thought(l)),
        forall|k: int|
            0 <= k < without_open_thoughts(lines).len() ==> !is_open_thought(
                #[trigger] without_open_thoughts(lines)[k],
            ),
    decreases lines.len(),
{
    reveal(Seq::filter);
    if lines.len() > 0 {
        law_pruning_takes_open_thoughts_alone(lines.drop_last());
    }
}

/// Whether nothing in a line, however deep, is still open.
pub open spec fn nothing_runs(l: ItemView) -> bool
    decreases l,
{
    match l {
        ItemView::Tool(t) => !is_open_state(t.state) && nothing_runs_in(t.child_lines),
        _ => true,
    }
}

pub open spec fn nothing_runs_in(lines: Seq<ItemView>) -> bool
    decreases lines,
{
    forall|i: int| 0 <= i < lines.len() ==> nothing_runs(#[trigger] lines[i])
}

proof fn lemma_failed_item_runs_nothing(l: ItemView)
    ensures
        nothing_runs(failed_item(l)),
    decreases l,
{
    match l {
        ItemView::Tool(t) => {
            law_a_broken_turn_leaves_nothing_running(t.child_lines);
        },
        _ => {},
    }
}

/// After a turn broke off nothing is left running, in the transcript or in any
/// timeline below it.
pub proof fn law_a_broken_turn_leaves_nothing_running(lines: Seq<ItemView>)
    ensures
        nothing_runs_in(failed_items(lines)),
    decreases lines,
{
    assert forall|i: int| 0 <= i < failed_items(lines).len() implies nothing_runs(
        #[trigger] failed_items(lines)[i],
    ) by {
        assert(decreases_to!(lines => lines[i]));
        lemma_failed_item_runs_nothing(lines[i]);
    }
}

} // verus!
