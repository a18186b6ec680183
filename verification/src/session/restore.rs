//! A log replayed into the transcript it left, and the turns that can still be
//! resumed.

use vstd::prelude::*;
use crate::chars::{cat2, cat3, dec, decimal, group_views, own, same, views};
use crate::session::event::{
    no_usage, ContentBlock, SessionEvent, SessionLog, ToolInput, Usage,
};
use crate::session::notice::{
    arrival, is_an_arrival, job_notice, task_notice, task_notification_display,
    tool_notification_display,
};
use crate::transcript::events::{
    finish_tool_row, fresh_row, new_tool_row, text_delta, tool_finished,
};
use crate::transcript::model::{
    copy_diff, copy_opt, lemma_tool_view, opt_text, ItemView, KindView, Line_, ToolKind, ToolRow,
    ToolState, ToolView,
};

verus! {

broadcast use {group_views, lemma_tool_view};

/// Whether anything drives the session that is restored.
#[derive(Clone, Copy, PartialEq, Eq, Structural, Debug)]
pub enum Liveness {
    /// Nothing does: what was running died.
    Settled,
    /// A turn is in flight: open rows settle from the live stream.
    Running,
}

/// How much of a log is shown.
#[derive(Clone, Copy, PartialEq, Eq, Structural, Debug)]
pub enum Extent {
    /// From the newest compaction, with its summary at the top.
    Compacted,
    /// Every event, and no summary.
    Whole,
}

pub open spec fn sat_add(a: u64, b: u64) -> u64 {
    if a + b <= u64::MAX {
        (a + b) as u64
    } else {
        u64::MAX
    }
}

/// Two counts of tokens in one.
pub open spec fn usage_sum(a: Usage, b: Usage) -> Usage {
    Usage {
        input_tokens: sat_add(a.input_tokens, b.input_tokens),
        output_tokens: sat_add(a.output_tokens, b.output_tokens),
        cache_read_input_tokens: sat_add(a.cache_read_input_tokens, b.cache_read_input_tokens),
        cache_creation_input_tokens: sat_add(
            a.cache_creation_input_tokens,
            b.cache_creation_input_tokens,
        ),
    }
}

pub fn add_usage(total: &mut Usage, usage: &Usage)
    ensures
        *final(total) == usage_sum(*old(total), *usage),
{
    total.input_tokens = total.input_tokens.saturating_add(usage.input_tokens);
    total.output_tokens = total.output_tokens.saturating_add(usage.output_tokens);
    total.cache_read_input_tokens = total.cache_read_input_tokens.saturating_add(
        usage.cache_read_input_tokens,
    );
    total.cache_creation_input_tokens = total.cache_creation_input_tokens.saturating_add(
        usage.cache_creation_input_tokens,
    );
}

/// Fold a step into the totals. A step without a price leaves the whole without
/// one; tokens go on counting.
pub fn accrue_usage(total: &mut Usage, priced: &mut bool, has_price: bool, usage: &Usage)
    ensures
        *final(total) == usage_sum(*old(total), *usage),
        *final(priced) == (*old(priced) && has_price),
{
    add_usage(total, usage);
    if !has_price {
        *priced = false;
    }
}

/// The tokens of the first `n` events, and whether every step has a price.
pub open spec fn spend_upto(events: Seq<SessionEvent>, n: int) -> (Usage, bool)
    decreases n,
{
    if n <= 0 || n > events.len() {
        (no_usage(), true)
    } else {
        let before = spend_upto(events, n - 1);
        match events[n - 1] {
            SessionEvent::AssistantMessage { usage, priced, .. } => (
                usage_sum(before.0, usage),
                before.1 && priced,
            ),
            _ => before,
        }
    }
}

/// What `events[from..to]` spent.
fn spend(events: &Vec<SessionEvent>, from: usize, to: usize) -> (r: (Usage, bool))
    requires
        from <= to <= events@.len(),
    ensures
        r == spend_upto(events@.subrange(from as int, to as int), to - from),
{
    let ghost part = events@.subrange(from as int, to as int);
    let mut usage: Usage = Usage::none();
    let mut priced: bool = true;
    let mut i: usize = from;
    while i < to
        invariant
            from <= i <= to <= events@.len(),
            part == events@.subrange(from as int, to as int),
            (usage, priced) == spend_upto(part, i - from),
        decreases to - i,
    {
        assert(part[i - from] == events@[i as int]);
        if let SessionEvent::AssistantMessage { usage: step, priced: has_price, .. } = &events[i] {
            accrue_usage(&mut usage, &mut priced, *has_price, step);
        }
        i += 1;
    }
    (usage, priced)
}

/// A session's spend over its whole log, however its turns were driven.
pub fn session_own_spend(log: &SessionLog) -> (r: (Usage, bool))
    ensures
        r == spend_upto(log.events@, log.events@.len() as int),
{
    assert(log.events@.subrange(0, log.events@.len() as int) =~= log.events@);
    spend(&log.events, 0, log.events.len())
}

/// How many notes the model was handed after a prompt.
pub open spec fn recall_text(count: nat) -> Seq<char> {
    if count == 1 {
        "memory: 1 note recalled for this prompt"@
    } else {
        "memory: "@ + dec(count) + " notes recalled for this prompt"@
    }
}

pub fn memory_recall_display(count: usize) -> (r: String)
    ensures
        r@ == recall_text(count as nat),
{
    if count == 1 {
        own("memory: 1 note recalled for this prompt")
    } else {
        cat3("memory: ", decimal(count as u64).as_str(), " notes recalled for this prompt")
    }
}

/// Whether a block shows that its turn did not finish: it says why it stopped,
/// or it calls a tool.
pub open spec fn breaks_off(block: ContentBlock) -> bool {
    match block {
        ContentBlock::Diagnostic { turn_error, .. } => turn_error,
        ContentBlock::ToolCall { .. } => true,
        _ => false,
    }
}

/// What the end of the first `n` events says of the last turn: whether it was
/// broken off, or nothing where no event says. A message that somebody typed
/// means the session moved on; a report that arrived does not.
pub open spec fn broken_off(events: Seq<SessionEvent>, n: int) -> Option<bool>
    decreases n,
{
    if n <= 0 || n > events.len() {
        None
    } else {
        match events[n - 1] {
            SessionEvent::UserMessage { text, .. } => if arrival(text@) {
                broken_off(events, n - 1)
            } else {
                Some(false)
            },
            SessionEvent::ToolResult { .. } => Some(true),
            SessionEvent::AssistantMessage { content, .. } => Some(
                exists|i: int| 0 <= i < content@.len() && breaks_off(#[trigger] content@[i]),
            ),
            _ => broken_off(events, n - 1),
        }
    }
}

/// Whether the log ends on a turn that never finished.
pub fn ends_mid_turn(events: &Vec<SessionEvent>) -> (r: bool)
    ensures
        r == (broken_off(events@, events@.len() as int) == Some(true)),
{
    let mut n: usize = events.len();
    while n > 0
        invariant
            n <= events@.len(),
            broken_off(events@, events@.len() as int) == broken_off(events@, n as int),
        decreases n,
    {
        match &events[n - 1] {
            SessionEvent::UserMessage { text, .. } => {
                if !is_an_arrival(text.as_str()) {
                    return false;
                }
            },
            SessionEvent::ToolResult { .. } => {
                return true;
            },
            SessionEvent::AssistantMessage { content, .. } => {
                return any_breaks_off(content);
            },
            _ => {},
        }
        n -= 1;
    }
    false
}

fn any_breaks_off(content: &Vec<ContentBlock>) -> (r: bool)
    ensures
        r == (exists|i: int| 0 <= i < content@.len() && breaks_off(#[trigger] content@[i])),
{
    let mut i: usize = 0;
    while i < content.len()
        invariant
            i <= content@.len(),
            forall|k: int| 0 <= k < i ==> !breaks_off(#[trigger] content@[k]),
        decreases content@.len() - i,
    {
        let broken: bool = match &content[i] {
            ContentBlock::Diagnostic { turn_error, .. } => *turn_error,
            ContentBlock::ToolCall { .. } => true,
            _ => false,
        };
        if broken {
            assert(breaks_off(content@[i as int]));
            return true;
        }
        i += 1;
    }
    false
}

/// What a click names on a restored line. Lines in an agent's timeline cannot be
/// expanded.
pub open spec fn line_id(nested: bool, prefix: Seq<char>, index: nat) -> Seq<char> {
    if nested {
        Seq::empty()
    } else {
        prefix + ":restored:"@ + dec(index)
    }
}

pub fn restored_line_id(nested: bool, prefix: &str, index: usize) -> (r: String)
    ensures
        r@ == line_id(nested, prefix@, index as nat),
{
    if nested {
        String::new()
    } else {
        cat3(prefix, ":restored:", decimal(index as u64).as_str())
    }
}

/// The kind of a call and what it shows as its arguments: a task names its
/// agent.
pub open spec fn call_kind(name: Seq<char>, input: ToolInput) -> (KindView, Seq<char>) {
    if name == "task"@ {
        match input.task {
            Some(task) => (
                KindView::Agent { name: task.agent@, model: opt_text(task.model) },
                task.description@,
            ),
            None => (KindView::Agent { name: "subagent"@, model: None }, input.summary@),
        }
    } else {
        (KindView::Tool, input.summary@)
    }
}

/// The row of a call as the log knows it.
pub open spec fn logged_row(
    id: Seq<char>,
    group_id: Seq<char>,
    name: Seq<char>,
    input: ToolInput,
) -> ToolView {
    let kind = call_kind(name, input);
    ToolView {
        kind: kind.0,
        arguments: kind.1,
        argument_detail: input.detail@,
        diff: views(input.diff@),
        ..fresh_row(id, group_id, name)
    }
}

fn row_of_call(id: &str, group_id: String, name: &str, input: &ToolInput) -> (r: ToolRow)
    ensures
        r@ == logged_row(id@, group_id@, name@, *input),
{
    let mut row: ToolRow = new_tool_row(id, group_id, name);
    if same(name, "task") {
        match &input.task {
            Some(task) => {
                row.kind = ToolKind::Agent {
                    name: own(task.agent.as_str()),
                    model: copy_opt(&task.model),
                };
                row.arguments = own(task.description.as_str());
            },
            None => {
                row.kind = ToolKind::Agent { name: own("subagent"), model: None };
                row.arguments = own(input.summary.as_str());
            },
        }
    } else {
        row.arguments = own(input.summary.as_str());
    }
    row.argument_detail = own(input.detail.as_str());
    row.diff = copy_diff(&input.diff);
    row
}

/// How many runs of calls the first `n` blocks begin, and whether the last of
/// them is under way.
pub open spec fn call_runs(content: Seq<ContentBlock>, n: int) -> (nat, bool)
    decreases n,
{
    if n <= 0 || n > content.len() {
        (0, false)
    } else {
        let before = call_runs(content, n - 1);
        if content[n - 1] is ToolCall {
            (
                if before.1 {
                    before.0
                } else {
                    before.0 + 1
                },
                true,
            )
        } else {
            (before.0, false)
        }
    }
}

/// A finished thought of a replay.
pub open spec fn past_thought(nested: bool, text: Seq<char>, index: nat) -> ItemView {
    ItemView::Thought {
        id: line_id(nested, "thought"@, index),
        text,
        complete: true,
        expanded: false,
    }
}

/// The lines after a block of a message; `run` numbers the run of calls.
pub open spec fn after_block(
    lines: Seq<ItemView>,
    block: ContentBlock,
    message: Seq<char>,
    run: nat,
    nested: bool,
) -> Seq<ItemView> {
    match block {
        ContentBlock::Text { text } => text_delta(lines, text@),
        ContentBlock::ReasoningSummary { text, completed } => if completed {
            lines.push(past_thought(nested, text@, lines.len()))
        } else {
            lines
        },
        ContentBlock::ToolCall { id, name, input } => lines.push(
            ItemView::Tool(logged_row(id@, message + ":"@ + dec(run), name@, input)),
        ),
        ContentBlock::Diagnostic { text, turn_error } => if turn_error {
            lines.push(ItemView::System(text@))
        } else {
            lines.push(past_thought(nested, text@, lines.len()))
        },
        ContentBlock::Thinking { text } => lines.push(past_thought(nested, text@, lines.len())),
        ContentBlock::Image | ContentBlock::Reasoning | ContentBlock::ToolResult => lines,
    }
}

/// The lines after the first `n` blocks of a message.
pub open spec fn after_blocks(
    lines: Seq<ItemView>,
    content: Seq<ContentBlock>,
    n: int,
    message: Seq<char>,
    nested: bool,
) -> Seq<ItemView>
    decreases n,
{
    if n <= 0 || n > content.len() {
        lines
    } else {
        after_block(
            after_blocks(lines, content, n - 1, message, nested),
            content[n - 1],
            message,
            call_runs(content, n).0,
            nested,
        )
    }
}

/// The line of a user's message: a report, or words. In an agent's timeline they
/// are its parent's.
pub open spec fn message_line(text: Seq<char>, markers: Seq<char>, nested: bool, index: nat) -> ItemView {
    match task_notice(text) {
        Some(shown) => ItemView::Task {
            id: line_id(nested, "note"@, index),
            text: shown,
            expanded: false,
        },
        None => match job_notice(text) {
            Some(shown) => ItemView::Job {
                id: line_id(nested, "note"@, index),
                text: shown,
                expanded: false,
            },
            None => if nested {
                ItemView::Incoming(text + markers)
            } else {
                ItemView::User(text + markers)
            },
        },
    }
}

/// The model that was switched to, with its variant.
pub open spec fn selection_text(model: Seq<char>, variant: Option<Seq<char>>) -> Seq<char> {
    match variant {
        Some(variant) => model + "@"@ + variant,
        None => model,
    }
}

/// The lines after an event. A result settles the row of its call, where that is
/// among the lines, and is shown without what the call's input kept secret.
pub open spec fn after_event(lines: Seq<ItemView>, event: SessionEvent, nested: bool) -> Seq<
    ItemView,
> {
    match event {
        SessionEvent::UserMessage { text, markers, .. } => lines.push(
            message_line(text@, markers@, nested, lines.len()),
        ),
        SessionEvent::AssistantMessage { id, content, .. } => after_blocks(
            lines,
            content@,
            content@.len() as int,
            id@,
            nested,
        ),
        SessionEvent::ToolResult {
            tool_use_id,
            redacted,
            is_error,
            markers,
            child_session_id,
            ..
        } => tool_finished(
            lines,
            tool_use_id@,
            is_error,
            redacted@ + markers@,
            opt_text(child_session_id),
        ),
        SessionEvent::ModelChange { model, variant, .. } => lines.push(
            ItemView::System("switched to "@ + selection_text(model@, opt_text(variant))),
        ),
        SessionEvent::TurnEnded { detail, .. } => lines.push(ItemView::System(detail@)),
        SessionEvent::MemoryRecall { ids, .. } => lines.push(
            ItemView::System(recall_text(ids@.len())),
        ),
        _ => lines,
    }
}

/// The lines that `events[from..n]` leave behind `start`.
pub open spec fn replay(
    start: Seq<ItemView>,
    events: Seq<SessionEvent>,
    from: int,
    n: int,
    nested: bool,
) -> Seq<ItemView>
    decreases n,
{
    if n <= from || n <= 0 || n > events.len() {
        start
    } else {
        after_event(replay(start, events, from, n - 1, nested), events[n - 1], nested)
    }
}

/// The first invocation from `i` on that the call `call` made, or the length.
pub open spec fn invocation_from(events: Seq<SessionEvent>, i: int, call: Seq<char>) -> int
    decreases events.len() - i,
{
    if i < 0 || i >= events.len() {
        i
    } else if events[i] is SubagentInvocation
        && events[i]->SubagentInvocation_parent_tool_call_id@ == call {
        i
    } else {
        invocation_from(events, i + 1, call)
    }
}

/// The next invocation from `i` on, or the length.
pub open spec fn next_invocation(events: Seq<SessionEvent>, i: int) -> int
    decreases events.len() - i,
{
    if i < 0 || i >= events.len() || events[i] is SubagentInvocation {
        i
    } else {
        next_invocation(events, i + 1)
    }
}

/// Where the events of a view begin and end: the whole log, or the turn that a
/// call started. An unknown call has none.
pub open spec fn view_bounds(events: Seq<SessionEvent>, parent: Option<Seq<char>>) -> Option<
    (int, int),
> {
    match parent {
        None => Some((0, events.len() as int)),
        Some(call) => {
            let start = invocation_from(events, 0, call);
            if start < events.len() {
                Some((start + 1, next_invocation(events, start + 1)))
            } else {
                None
            }
        },
    }
}

/// The first event that the compactions among `events[from..n]` keep, and the
/// summary of the newest. What a compaction keeps is counted over the whole log.
pub open spec fn compacted_upto(events: Seq<SessionEvent>, from: int, n: int) -> (
    int,
    Option<Seq<char>>,
)
    decreases n,
{
    if n <= from || n <= 0 || n > events.len() {
        (from, None)
    } else {
        let before = compacted_upto(events, from, n - 1);
        match events[n - 1] {
            SessionEvent::Compaction { kept_from, summary, .. } => {
                let kept = if kept_from < from {
                    from
                } else if kept_from > n - 1 {
                    n - 1
                } else {
                    kept_from as int
                };
                (
                    if kept > before.0 {
                        kept
                    } else {
                        before.0
                    },
                    Some(summary@),
                )
            },
            _ => before,
        }
    }
}

/// The usage of the last message among `events[from..n]` with a context.
pub open spec fn latest_usage_of(events: Seq<SessionEvent>, from: int, n: int) -> Option<Usage>
    decreases n,
{
    if n <= from || n <= 0 || n > events.len() {
        None
    } else {
        match events[n - 1] {
            SessionEvent::AssistantMessage { usage, context_tokens, .. } => if context_tokens > 0 {
                Some(usage)
            } else {
                latest_usage_of(events, from, n - 1)
            },
            _ => latest_usage_of(events, from, n - 1),
        }
    }
}

/// The line with its call failed where it still ran, unless it is the question
/// that the session waits on.
pub open spec fn swept(l: ItemView, pending: Option<Seq<char>>) -> ItemView {
    match l {
        ItemView::Tool(t) => if t.state == ToolState::Running && pending != Some(t.id) {
            ItemView::Tool(ToolView { state: ToolState::Failed, ..t })
        } else {
            l
        },
        _ => l,
    }
}

/// What a log restores to. Totals span the whole log, whatever is shown of it.
#[derive(Debug)]
pub struct RestoredSessionView {
    pub lines: Vec<Line_>,
    pub latest_usage: Option<Usage>,
    pub total_usage: Usage,
    /// Whether every step has a price.
    pub total_priced: bool,
    /// What the agents of the session spent.
    pub task_usage: Usage,
    pub task_priced: bool,
    /// Whether the last turn was broken off and can be resumed.
    pub resume_offer: bool,
    /// How many events of the whole log come before these lines.
    pub history_before: usize,
}

#[verifier::ext_equal]
pub struct RestoredView {
    pub lines: Seq<ItemView>,
    pub latest_usage: Option<Usage>,
    pub total_usage: Usage,
    pub total_priced: bool,
    pub task_usage: Usage,
    pub task_priced: bool,
    pub resume_offer: bool,
    pub history_before: nat,
}

impl View for RestoredSessionView {
    type V = RestoredView;

    open spec fn view(&self) -> RestoredView {
        RestoredView {
            lines: views(self.lines@),
            latest_usage: self.latest_usage,
            total_usage: self.total_usage,
            total_priced: self.total_priced,
            task_usage: self.task_usage,
            task_priced: self.task_priced,
            resume_offer: self.resume_offer,
            history_before: self.history_before as nat,
        }
    }
}

/// The lines that `events[from..to]` leave.
pub open spec fn restored_lines(
    events: Seq<SessionEvent>,
    from: int,
    to: int,
    nested: bool,
    pending: Option<Seq<char>>,
    liveness: Liveness,
    extent: Extent,
) -> Seq<ItemView> {
    let cut = if extent == Extent::Compacted {
        compacted_upto(events, from, to)
    } else {
        (from, None)
    };
    let lead = match cut.1 {
        Some(summary) => seq![
            ItemView::Note {
                id: line_id(nested, "note"@, 0),
                text: "transcript compacted\n"@ + summary,
                expanded: false,
            },
        ],
        None => Seq::empty(),
    };
    let replayed = replay(lead, events, cut.0, to, nested);
    if liveness == Liveness::Settled {
        replayed.map_values(|l: ItemView| swept(l, pending))
    } else {
        replayed
    }
}

/// What a log, or the turn that `parent` started in it, restores to.
pub open spec fn restored(
    events: Seq<SessionEvent>,
    pending: Option<Seq<char>>,
    parent: Option<Seq<char>>,
    liveness: Liveness,
    extent: Extent,
) -> RestoredView {
    match view_bounds(events, parent) {
        None => RestoredView {
            lines: Seq::empty(),
            latest_usage: None,
            total_usage: no_usage(),
            total_priced: true,
            task_usage: no_usage(),
            task_priced: true,
            resume_offer: false,
            history_before: 0,
        },
        Some((from, to)) => {
            let spent = spend_upto(events.subrange(from, to), to - from);
            RestoredView {
                lines: restored_lines(
                    events,
                    from,
                    to,
                    parent is Some,
                    pending,
                    liveness,
                    extent,
                ),
                latest_usage: latest_usage_of(events, from, to),
                total_usage: spent.0,
                total_priced: spent.1,
                task_usage: no_usage(),
                task_priced: true,
                resume_offer: false,
                history_before: 0,
            }
        },
    }
}

/// A replay under way.
struct Replay {
    lines: Vec<Line_>,
}

impl View for Replay {
    type V = Seq<ItemView>;

    closed spec fn view(&self) -> Seq<ItemView> {
        views(self.lines@)
    }
}

impl Replay {
    fn push_thought(&mut self, text: &str, nested: bool)
        ensures
            final(self)@ == old(self)@.push(past_thought(nested, text@, old(self)@.len())),
    {
        let id: String = restored_line_id(nested, "thought", self.lines.len());
        self.lines.push(Line_::Thought { id, text: own(text), complete: true, expanded: false });
    }

    fn block(&mut self, block: &ContentBlock, message: &str, run: usize, nested: bool)
        ensures
            final(self)@ == after_block(old(self)@, *block, message@, run as nat, nested),
    {
        match block {
            ContentBlock::Text { text } => {
                crate::transcript::events::append_text_delta(&mut self.lines, text.as_str());
            },
            ContentBlock::ReasoningSummary { text, completed } => {
                if *completed {
                    self.push_thought(text.as_str(), nested);
                }
            },
            ContentBlock::ToolCall { id, name, input } => {
                let group: String = cat3(message, ":", decimal(run as u64).as_str());
                self.lines.push(
                    Line_::Tool(row_of_call(id.as_str(), group, name.as_str(), input)),
                );
            },
            ContentBlock::Diagnostic { text, turn_error } => {
                if *turn_error {
                    self.lines.push(Line_::System(own(text.as_str())));
                } else {
                    self.push_thought(text.as_str(), nested);
                }
            },
            ContentBlock::Thinking { text } => {
                self.push_thought(text.as_str(), nested);
            },
            ContentBlock::Image | ContentBlock::Reasoning | ContentBlock::ToolResult => {},
        }
    }

    fn blocks(&mut self, content: &Vec<ContentBlock>, message: &str, nested: bool)
        ensures
            final(self)@ == after_blocks(
                old(self)@,
                content@,
                content@.len() as int,
                message@,
                nested,
            ),
    {
        let mut run: usize = 0;
        let mut running: bool = false;
        let mut i: usize = 0;
        while i < content.len()
            invariant
                i <= content@.len(),
                run <= i,
                (run as nat, running) == call_runs(content@, i as int),
                self@ == after_blocks(old(self)@, content@, i as int, message@, nested),
            decreases content@.len() - i,
        {
            let call: bool = match &content[i] {
                ContentBlock::ToolCall { .. } => true,
                _ => false,
            };
            if call && !running {
                run += 1;
            }
            running = call;
            assert((run as nat, running) == call_runs(content@, i + 1));
            self.block(&content[i], message, run, nested);
            i += 1;
        }
    }

    fn message(&mut self, text: &str, markers: &str, nested: bool)
        ensures
            final(self)@ == old(self)@.push(
                message_line(text@, markers@, nested, old(self)@.len()),
            ),
    {
        let index: usize = self.lines.len();
        match task_notification_display(text) {
            Some(shown) => {
                let id: String = restored_line_id(nested, "note", index);
                self.lines.push(Line_::Task { id, text: shown, expanded: false });
            },
            None => match tool_notification_display(text) {
                Some(shown) => {
                    let id: String = restored_line_id(nested, "note", index);
                    self.lines.push(Line_::Job { id, text: shown, expanded: false });
                },
                None => {
                    let said: String = cat2(text, markers);
                    self.lines.push(
                        if nested {
                            Line_::Incoming(said)
                        } else {
                            Line_::User(said)
                        },
                    );
                },
            },
        }
    }

    fn event(&mut self, event: &SessionEvent, nested: bool)
        ensures
            final(self)@ == after_event(old(self)@, *event, nested),
    {
        match event {
            SessionEvent::UserMessage { text, markers, .. } => {
                self.message(text.as_str(), markers.as_str(), nested);
            },
            SessionEvent::AssistantMessage { id, content, .. } => {
                self.blocks(content, id.as_str(), nested);
            },
            SessionEvent::ToolResult {
                tool_use_id,
                redacted,
                is_error,
                markers,
                child_session_id,
                ..
            } => {
                finish_tool_row(
                    &mut self.lines,
                    tool_use_id.as_str(),
                    *is_error,
                    cat2(redacted.as_str(), markers.as_str()).as_str(),
                    child_session_id,
                );
            },
            SessionEvent::ModelChange { model, variant, .. } => {
                let selection: String = match variant {
                    Some(variant) => cat3(model.as_str(), "@", variant.as_str()),
                    None => own(model.as_str()),
                };
                self.lines.push(Line_::System(cat2("switched to ", selection.as_str())));
            },
            SessionEvent::TurnEnded { detail, .. } => {
                self.lines.push(Line_::System(own(detail.as_str())));
            },
            SessionEvent::MemoryRecall { ids, .. } => {
                self.lines.push(Line_::System(memory_recall_display(ids.len())));
            },
            _ => {},
        }
    }
}

proof fn lemma_invocation_from(events: Seq<SessionEvent>, i: int, call: Seq<char>)
    requires
        0 <= i <= events.len(),
    ensures
        i <= invocation_from(events, i, call) <= events.len(),
    decreases events.len() - i,
{
    if i < events.len() && !(events[i] is SubagentInvocation
        && events[i]->SubagentInvocation_parent_tool_call_id@ == call) {
        lemma_invocation_from(events, i + 1, call);
    }
}

pub proof fn lemma_next_invocation(events: Seq<SessionEvent>, i: int)
    requires
        0 <= i <= events.len(),
    ensures
        i <= next_invocation(events, i) <= events.len(),
    decreases events.len() - i,
{
    if i < events.len() && !(events[i] is SubagentInvocation) {
        lemma_next_invocation(events, i + 1);
    }
}

proof fn lemma_compacted(events: Seq<SessionEvent>, from: int, n: int)
    requires
        0 <= from <= n <= events.len(),
    ensures
        from <= compacted_upto(events, from, n).0 <= n,
    decreases n,
{
    if n > from {
        lemma_compacted(events, from, n - 1);
    }
}

/// The first invocation that the call made.
pub fn invocation_at(events: &Vec<SessionEvent>, call: &str) -> (r: Option<usize>)
    ensures
        match r {
            Some(i) => i == invocation_from(events@, 0, call@) && i < events@.len(),
            None => invocation_from(events@, 0, call@) >= events@.len(),
        },
{
    let mut i: usize = 0;
    while i < events.len()
        invariant
            i <= events@.len(),
            invocation_from(events@, 0, call@) == invocation_from(events@, i as int, call@),
        decreases events@.len() - i,
    {
        if let SessionEvent::SubagentInvocation { parent_tool_call_id, .. } = &events[i] {
            if same(parent_tool_call_id.as_str(), call) {
                return Some(i);
            }
        }
        i += 1;
    }
    None
}

/// Where the turn that began before `from` ends.
pub fn invocation_end(events: &Vec<SessionEvent>, from: usize) -> (r: usize)
    requires
        from <= events@.len(),
    ensures
        r == next_invocation(events@, from as int),
        from <= r <= events@.len(),
{
    let mut i: usize = from;
    while i < events.len()
        invariant
            from <= i <= events@.len(),
            next_invocation(events@, from as int) == next_invocation(events@, i as int),
        decreases events@.len() - i,
    {
        if let SessionEvent::SubagentInvocation { .. } = &events[i] {
            return i;
        }
        i += 1;
    }
    i
}

/// Where a view's events begin and end.
fn bounds(events: &Vec<SessionEvent>, parent: Option<&str>) -> (r: Option<(usize, usize)>)
    ensures
        match r {
            Some((from, to)) => view_bounds(events@, parent_view(parent)) == Some(
                (from as int, to as int),
            ) && from <= to <= events@.len(),
            None => view_bounds(events@, parent_view(parent)) is None,
        },
{
    match parent {
        None => Some((0, events.len())),
        Some(call) => match invocation_at(events, call) {
            Some(start) => {
                let n: usize = events.len();
                assert(start + 1 <= n);
                Some((start + 1, invocation_end(events, start + 1)))
            },
            None => None,
        },
    }
}

pub open spec fn parent_view(p: Option<&str>) -> Option<Seq<char>> {
    match p {
        Some(p) => Some(p@),
        None => None,
    }
}

/// What the compactions keep, and the newest summary.
fn compaction_cut(events: &Vec<SessionEvent>, from: usize, to: usize) -> (r: (usize, Option<String>))
    requires
        from <= to <= events@.len(),
    ensures
        (r.0 as int, opt_text(r.1)) == compacted_upto(events@, from as int, to as int),
        from <= r.0 <= to,
{
    let mut cut: usize = from;
    let mut newest: Option<usize> = None;
    let mut i: usize = from;
    while i < to
        invariant
            from <= i <= to <= events@.len(),
            cut == compacted_upto(events@, from as int, i as int).0,
            from <= cut <= i,
            match newest {
                Some(k) => k < i && events@[k as int] is Compaction && compacted_upto(
                    events@,
                    from as int,
                    i as int,
                ).1 == Some(events@[k as int]->Compaction_summary@),
                None => compacted_upto(events@, from as int, i as int).1 is None,
            },
        decreases to - i,
    {
        if let SessionEvent::Compaction { kept_from, .. } = &events[i] {
            let kept: usize = if *kept_from < from {
                from
            } else if *kept_from > i {
                i
            } else {
                *kept_from
            };
            if kept > cut {
                cut = kept;
            }
            newest = Some(i);
        }
        i += 1;
    }
    let summary: Option<String> = match newest {
        Some(k) => match &events[k] {
            SessionEvent::Compaction { summary, .. } => Some(own(summary.as_str())),
            _ => None,
        },
        None => None,
    };
    (cut, summary)
}

fn latest_usage(events: &Vec<SessionEvent>, from: usize, to: usize) -> (r: Option<Usage>)
    requires
        from <= to <= events@.len(),
    ensures
        r == latest_usage_of(events@, from as int, to as int),
{
    let mut n: usize = to;
    while n > from
        invariant
            from <= n <= to <= events@.len(),
            latest_usage_of(events@, from as int, to as int) == latest_usage_of(
                events@,
                from as int,
                n as int,
            ),
        decreases n,
    {
        if let SessionEvent::AssistantMessage { usage, context_tokens, .. } = &events[n - 1] {
            if *context_tokens > 0 {
                return Some(*usage);
            }
        }
        n -= 1;
    }
    None
}

/// Fail what still runs, but for the question that is waited on.
fn sweep(lines: &mut Vec<Line_>, pending: Option<&str>)
    ensures
        views(final(lines)@) == views(old(lines)@).map_values(
            |l: ItemView| swept(l, parent_view(pending)),
        ),
{
    let ghost all = views(lines@);
    let n: usize = lines.len();
    let mut i: usize = 0;
    while i < n
        invariant
            i <= n,
            n == lines@.len(),
            n == all.len(),
            all == views(old(lines)@),
            forall|k: int| i <= k < n ==> (#[trigger] lines@[k])@ == all[k],
            forall|k: int|
                0 <= k < i ==> (#[trigger] lines@[k])@ == swept(all[k], parent_view(pending)),
        decreases n - i,
    {
        let ghost before = lines@;
        assert(lines@[i as int]@ == all[i as int]);
        if let Line_::Tool(row) = &mut lines[i] {
            let waited: bool = match pending {
                Some(id) => same(id, row.id.as_str()),
                None => false,
            };
            if row.state == ToolState::Running && !waited {
                row.state = ToolState::Failed;
            }
        }
        assert(forall|k: int| 0 <= k < n && k != i ==> lines@[k] == before[k]);
        i += 1;
    }
    assert(views(lines@) =~= all.map_values(|l: ItemView| swept(l, parent_view(pending))));
}

fn lines_restored(
    events: &Vec<SessionEvent>,
    from: usize,
    to: usize,
    nested: bool,
    pending: Option<&str>,
    liveness: Liveness,
    extent: Extent,
) -> (r: Vec<Line_>)
    requires
        from <= to <= events@.len(),
    ensures
        views(r@) == restored_lines(
            events@,
            from as int,
            to as int,
            nested,
            parent_view(pending),
            liveness,
            extent,
        ),
{
    let (cut, summary) = if extent == Extent::Compacted {
        compaction_cut(events, from, to)
    } else {
        (from, None)
    };
    let mut state: Replay = Replay { lines: Vec::new() };
    if let Some(summary) = &summary {
        state.lines.push(
            Line_::Note {
                id: restored_line_id(nested, "note", 0),
                text: cat2("transcript compacted\n", summary.as_str()),
                expanded: false,
            },
        );
    }
    let ghost start = state@;
    let ghost lead = match opt_text(summary) {
        Some(summary) => seq![
            ItemView::Note {
                id: line_id(nested, "note"@, 0),
                text: "transcript compacted\n"@ + summary,
                expanded: false,
            },
        ],
        None => Seq::empty(),
    };
    assert(start =~= lead);
    let mut i: usize = cut;
    while i < to
        invariant
            cut <= i <= to <= events@.len(),
            state@ == replay(start, events@, cut as int, i as int, nested),
        decreases to - i,
    {
        state.event(&events[i], nested);
        i += 1;
    }
    let mut lines: Vec<Line_> = state.lines;
    if liveness == Liveness::Settled {
        sweep(&mut lines, pending);
    }
    lines
}

/// What a log, or the turn that `parent_tool_call_id` started in it, restores
/// to, shown to this extent.
pub fn restored_session_invocation_view_in(
    all_events: &Vec<SessionEvent>,
    pending_question_id: Option<&str>,
    parent_tool_call_id: Option<&str>,
    liveness: Liveness,
    extent: Extent,
) -> (r: RestoredSessionView)
    ensures
        r@ == restored(
            all_events@,
            parent_view(pending_question_id),
            parent_view(parent_tool_call_id),
            liveness,
            extent,
        ),
{
    match bounds(all_events, parent_tool_call_id) {
        None => RestoredSessionView {
            lines: Vec::new(),
            latest_usage: None,
            total_usage: Usage::none(),
            total_priced: true,
            task_usage: Usage::none(),
            task_priced: true,
            resume_offer: false,
            history_before: 0,
        },
        Some((from, to)) => {
            let (usage, priced) = spend(all_events, from, to);
            RestoredSessionView {
                lines: lines_restored(
                    all_events,
                    from,
                    to,
                    parent_tool_call_id.is_some(),
                    pending_question_id,
                    liveness,
                    extent,
                ),
                latest_usage: latest_usage(all_events, from, to),
                total_usage: usage,
                total_priced: priced,
                task_usage: Usage::none(),
                task_priced: true,
                resume_offer: false,
                history_before: 0,
            }
        },
    }
}

/// The same from the newest compaction on.
pub fn restored_session_invocation_view(
    all_events: &Vec<SessionEvent>,
    pending_question_id: Option<&str>,
    parent_tool_call_id: Option<&str>,
    liveness: Liveness,
) -> (r: RestoredSessionView)
    ensures
        r@ == restored(
            all_events@,
            parent_view(pending_question_id),
            parent_view(parent_tool_call_id),
            liveness,
            Extent::Compacted,
        ),
{
    restored_session_invocation_view_in(
        all_events,
        pending_question_id,
        parent_tool_call_id,
        liveness,
        Extent::Compacted,
    )
}

/// The lines that a log renders to, and nothing else.
pub fn replayed_lines(events: &Vec<SessionEvent>) -> (r: Vec<Line_>)
    ensures
        views(r@) == restored(events@, None, None, Liveness::Settled, Extent::Compacted).lines,
{
    restored_session_invocation_view(events, None, None, Liveness::Settled).lines
}

/// The lines of a whole log: every turn, and no summary.
pub fn whole_log_lines(events: &Vec<SessionEvent>) -> (r: Vec<Line_>)
    ensures
        views(r@) == restored(events@, None, None, Liveness::Settled, Extent::Whole).lines,
{
    restored_session_invocation_view_in(events, None, None, Liveness::Settled, Extent::Whole).lines
}

/// Adding up is the same in any grouping, also where a total is at its limit.
pub proof fn lemma_usage_sum(a: Usage, b: Usage, c: Usage)
    ensures
        usage_sum(usage_sum(a, b), c) == usage_sum(a, usage_sum(b, c)),
        usage_sum(a, no_usage()) == a,
        usage_sum(no_usage(), a) == a,
{
}

/// What a log spent is what its parts spent, and it has a price where both have.
pub proof fn law_spend_adds_up(a: Seq<SessionEvent>, b: Seq<SessionEvent>, n: int)
    requires
        0 <= n <= b.len(),
    ensures
        ({
            let front = spend_upto(a, a.len() as int);
            let back = spend_upto(b, n);
            spend_upto(a + b, a.len() + n) == (usage_sum(front.0, back.0), front.1 && back.1)
        }),
    decreases n,
{
    let front = spend_upto(a, a.len() as int);
    if n == 0 {
        lemma_spend_prefix(a, b, a.len() as int);
        lemma_usage_sum(front.0, no_usage(), no_usage());
    } else {
        law_spend_adds_up(a, b, n - 1);
        assert((a + b)[a.len() + n - 1] == b[n - 1]);
        if let SessionEvent::AssistantMessage { usage, .. } = b[n - 1] {
            lemma_usage_sum(front.0, spend_upto(b, n - 1).0, usage);
        }
    }
}

proof fn lemma_spend_prefix(a: Seq<SessionEvent>, b: Seq<SessionEvent>, n: int)
    requires
        0 <= n <= a.len(),
    ensures
        spend_upto(a + b, n) == spend_upto(a, n),
    decreases n,
{
    if n > 0 {
        lemma_spend_prefix(a, b, n - 1);
        assert((a + b)[n - 1] == a[n - 1]);
    }
}

/// Whether something drives the session changes one thing of what it restores to:
/// with nothing driving it, no call is left running but the question that it
/// waits on.
pub proof fn law_liveness_decides_open_rows_alone(
    events: Seq<SessionEvent>,
    pending: Option<Seq<char>>,
    parent: Option<Seq<char>>,
    extent: Extent,
    k: int,
)
    requires
        0 <= k < restored(events, pending, parent, Liveness::Running, extent).lines.len(),
    ensures
        ({
            let settled = restored(events, pending, parent, Liveness::Settled, extent);
            let running = restored(events, pending, parent, Liveness::Running, extent);
            &&& settled == (RestoredView { lines: settled.lines, ..running })
            &&& settled.lines.len() == running.lines.len()
            &&& settled.lines[k] == swept(running.lines[k], pending)
            &&& settled.lines[k] is Tool && settled.lines[k]->Tool_0.state == ToolState::Running
                ==> pending == Some(settled.lines[k]->Tool_0.id)
        }),
{
}

proof fn lemma_nothing_compacted(events: Seq<SessionEvent>, from: int, n: int)
    requires
        forall|i: int| from <= i < n ==> !((#[trigger] events[i]) is Compaction),
    ensures
        compacted_upto(events, from, n) == (from, None::<Seq<char>>),
    decreases n,
{
    if from < n && 0 < n <= events.len() {
        lemma_nothing_compacted(events, from, n - 1);
    }
}

/// Of a log that was never compacted the whole is shown either way.
pub proof fn law_without_compactions_the_whole_is_shown(
    events: Seq<SessionEvent>,
    pending: Option<Seq<char>>,
    parent: Option<Seq<char>>,
    liveness: Liveness,
)
    requires
        forall|i: int| 0 <= i < events.len() ==> !((#[trigger] events[i]) is Compaction),
    ensures
        restored(events, pending, parent, liveness, Extent::Compacted) == restored(
            events,
            pending,
            parent,
            liveness,
            Extent::Whole,
        ),
{
    if let Some((from, to)) = view_bounds(events, parent) {
        if let Some(call) = parent {
            lemma_invocation_from(events, 0, call);
            lemma_next_invocation(events, from);
        }
        lemma_nothing_compacted(events, from, to);
    }
}

/// Totals are those of the whole log, whether what a compaction folded away is
/// shown or not.
pub proof fn law_totals_span_the_log(
    events: Seq<SessionEvent>,
    pending: Option<Seq<char>>,
    liveness: Liveness,
    extent: Extent,
)
    ensures
        ({
            let r = restored(events, pending, None, liveness, extent);
            (r.total_usage, r.total_priced) == spend_upto(events, events.len() as int)
        }),
{
    assert(events.subrange(0, events.len() as int) =~= events);
}

} // verus!
