//! Session events as the wire sees them. One event in, one object out, in the
//! order of the log, so that an index into the log is an index into what is sent.
//!
//! Every object carries a `type` and a `ts`. An optional value is present as
//! null, never left out.

use vstd::prelude::*;
use crate::chars::{
    byte_len, cat2, group_views, lines, longer_than, own, same, split_lines, views,
};
use crate::format::{bound, bounded, cut_mark, MAX_DETAIL_CHARS};
use crate::serve::json::{
    entries, entry_from, group_json, no_entries, object, put, text_or_null, value_at, Json, JsonView,
};
use crate::serve::stamp::{stamp, stamped};
use crate::session::event::{
    ContentBlock, ImageContent, Moment, SessionEvent, ToolInput, Usage,
};
use crate::session::notice::{
    job_notice, task_notice, task_notification_display, tool_notification_display,
};
use crate::session::restore::{
    accrue_usage, invocation_at, invocation_end, invocation_from, spend_upto, view_bounds,
};
use crate::transcript::model::{opt_text, DiffKind, DiffLine, DiffView};
use crate::transcript::rows::has_text;
use crate::words::{ends, search, split_once, strip_suffix};

verus! {

broadcast use {group_views, group_json};

/// The tool that asks the reader.
pub const QUESTION_TOOL_NAME: &'static str = "question";

/// The bytes of a new file that are sent as a diff.
pub const MAX_WRITE_DIFF_BYTES: usize = 262144;

// ---- Which calls stand open ----

/// Whether a message makes the call `id`.
pub open spec fn makes_call(event: SessionEvent, id: Seq<char>) -> bool {
    event matches SessionEvent::AssistantMessage { content, .. } && exists|j: int|
        0 <= j < content@.len() && #[trigger] is_call(content@[j], id)
}

pub open spec fn is_call(block: ContentBlock, id: Seq<char>) -> bool {
    block matches ContentBlock::ToolCall { id: of, .. } && of@ == id
}

/// Whether an event answers the call `id`.
pub open spec fn answers(event: SessionEvent, id: Seq<char>) -> bool {
    event matches SessionEvent::ToolResult { tool_use_id, .. } && tool_use_id@ == id
}

/// Whether a session makes a call that nothing in it answers.
pub open spec fn unanswered(events: Seq<SessionEvent>, id: Seq<char>) -> bool {
    &&& exists|i: int| 0 <= i < events.len() && #[trigger] makes_call(events[i], id)
    &&& !is_answered(events, id)
}

pub open spec fn is_answered(events: Seq<SessionEvent>, id: Seq<char>) -> bool {
    exists|i: int| 0 <= i < events.len() && #[trigger] answers(events[i], id)
}

/// Whether a block asks the reader under the call `id`.
pub open spec fn is_question(block: ContentBlock, id: Seq<char>) -> bool {
    block matches ContentBlock::ToolCall { id: of, name, .. } && of@ == id && name@
        == QUESTION_TOOL_NAME@
}

pub open spec fn asks(event: SessionEvent, id: Seq<char>) -> bool {
    event matches SessionEvent::AssistantMessage { content, .. } && exists|j: int|
        0 <= j < content@.len() && #[trigger] is_question(content@[j], id)
}

/// Whether a session waits on its reader: the call is a question, and nothing
/// else stands open.
pub open spec fn waits_for(events: Seq<SessionEvent>, id: Seq<char>) -> bool {
    &&& unanswered(events, id)
    &&& forall|other: Seq<char>| #[trigger] unanswered(events, other) ==> other == id
    &&& exists|i: int| 0 <= i < events.len() && #[trigger] asks(events[i], id)
}

/// What a call's row says: that it runs, that it never will be answered, or
/// nothing, where its result speaks for itself.
pub open spec fn call_state(events: Seq<SessionEvent>, live: bool, id: Seq<char>) -> JsonView {
    if !unanswered(events, id) {
        JsonView::Null
    } else if live || waits_for(events, id) {
        JsonView::Text("running"@)
    } else {
        JsonView::Text("failed"@)
    }
}

/// How the calls of a session stand.
#[derive(Debug)]
pub struct Standing {
    pub unanswered: Vec<String>,
    pub waiting: Option<String>,
    pub live: bool,
}

impl Standing {
    /// Whether this is how the calls of these events stand.
    pub open spec fn of(self, events: Seq<SessionEvent>, live: bool) -> bool {
        &&& self.live == live
        &&& forall|id: Seq<char>|
            #![trigger unanswered(events, id)]
            views(self.unanswered@).contains(id) <==> unanswered(events, id)
        &&& match self.waiting {
            Some(id) => waits_for(events, id@),
            None => forall|id: Seq<char>| !#[trigger] waits_for(events, id),
        }
    }
}

/// What an event on its own, or a session as a whole, says of a call.
pub enum Outlook {
    Alone,
    Whole { events: Seq<SessionEvent>, live: bool },
}

pub open spec fn state_in(outlook: Outlook, id: Seq<char>) -> JsonView {
    match outlook {
        Outlook::Alone => JsonView::Text("running"@),
        Outlook::Whole { events, live } => call_state(events, live, id),
    }
}

pub open spec fn outlook_of(standing: Option<&Standing>, outlook: Outlook) -> bool {
    match (standing, outlook) {
        (None, Outlook::Alone) => true,
        (Some(standing), Outlook::Whole { events, live }) => standing.of(events, live),
        _ => false,
    }
}

fn answered_in(events: &[SessionEvent], id: &str) -> (r: bool)
    ensures
        r == is_answered(events@, id@),
{
    let mut i: usize = 0;
    while i < events.len()
        invariant
            i <= events@.len(),
            forall|k: int| 0 <= k < i ==> !#[trigger] answers(events@[k], id@),
        decreases events@.len() - i,
    {
        if let SessionEvent::ToolResult { tool_use_id, .. } = &events[i] {
            if same(tool_use_id.as_str(), id) {
                assert(answers(events@[i as int], id@));
                return true;
            }
        }
        i += 1;
    }
    false
}

/// The calls that nothing in these events answers, each once.
pub fn unanswered_calls(events: &[SessionEvent]) -> (r: Vec<String>)
    ensures
        forall|id: Seq<char>|
            #![trigger unanswered(events@, id)]
            views(r@).contains(id) <==> unanswered(events@, id),
        views(r@).no_duplicates(),
{
    let mut r: Vec<String> = Vec::new();
    let mut i: usize = 0;
    while i < events.len()
        invariant
            i <= events@.len(),
            views(r@).no_duplicates(),
            forall|id: Seq<char>| #[trigger]
                views(r@).contains(id) <==> (exists|k: int|
                    0 <= k < i && #[trigger] makes_call(events@[k], id)) && !is_answered(
                    events@,
                    id,
                ),
        decreases events@.len() - i,
    {
        let ghost before = views(r@);
        if let SessionEvent::AssistantMessage { content, .. } = &events[i] {
            let mut j: usize = 0;
            while j < content.len()
                invariant
                    i < events@.len(),
                    j <= content@.len(),
                    events@[i as int] is AssistantMessage,
                    events@[i as int]->AssistantMessage_content == *content,
                    views(r@).no_duplicates(),
                    forall|id: Seq<char>| #[trigger]
                        before.contains(id) ==> !is_answered(events@, id),
                    forall|id: Seq<char>| #[trigger]
                        views(r@).contains(id) <==> before.contains(id) || (exists|k: int|
                            0 <= k < j && #[trigger] is_call(content@[k], id)) && !is_answered(
                            events@,
                            id,
                        ),
                decreases content@.len() - j,
            {
                let ghost so_far = views(r@);
                if let ContentBlock::ToolCall { id, .. } = &content[j] {
                    assert(is_call(content@[j as int], id@));
                    if !has_text(&r, id.as_str()) && !answered_in(events, id.as_str()) {
                        r.push(own(id.as_str()));
                        assert(views(r@) == so_far.push(id@));
                        assert(views(r@)[so_far.len() as int] == id@);
                    }
                    assert forall|other: Seq<char>| #[trigger]
                        views(r@).contains(other) <==> so_far.contains(other) || (other == id@
                            && !is_answered(events@, other)) by {
                        if so_far.contains(other) {
                            let k = choose|k: int| 0 <= k < so_far.len() && so_far[k] == other;
                            assert(views(r@)[k] == other);
                        }
                        if views(r@).contains(other) && !so_far.contains(other) {
                            let k = choose|k: int|
                                0 <= k < views(r@).len() && views(r@)[k] == other;
                            assert(k == so_far.len());
                        }
                    }
                }
                let ghost was = j;
                j += 1;
                assert forall|id: Seq<char>|
                    (exists|k: int| 0 <= k < j && #[trigger] is_call(content@[k], id)) <==> (
                    exists|k: int| 0 <= k < was && #[trigger] is_call(content@[k], id)) || is_call(
                        content@[was as int],
                        id,
                    ) by {}
            }
            assert forall|id: Seq<char>| (exists|k: int|
                0 <= k < content@.len() && #[trigger] is_call(content@[k], id)) <==> makes_call(
                events@[i as int],
                id,
            ) by {}
        }
        let ghost was = i;
        i += 1;
        assert forall|id: Seq<char>| #[trigger]
            views(r@).contains(id) <==> (exists|k: int|
                0 <= k < i && #[trigger] makes_call(events@[k], id)) && !is_answered(
                events@,
                id,
            ) by {
            assert(before.contains(id) || !before.contains(id));
            assert((exists|k: int| 0 <= k < i && #[trigger] makes_call(events@[k], id)) <==> (
            exists|k: int| 0 <= k < was && #[trigger] makes_call(events@[k], id)) || makes_call(
                events@[was as int],
                id,
            ));
        }
    }
    r
}

fn asks_in(events: &[SessionEvent], only: &str) -> (r: bool)
    ensures
        r == exists|i: int| 0 <= i < events@.len() && #[trigger] asks(events@[i], only@),
{
    let mut i: usize = 0;
    while i < events.len()
        invariant
            i <= events@.len(),
            forall|k: int| 0 <= k < i ==> !#[trigger] asks(events@[k], only@),
        decreases events@.len() - i,
    {
        if let SessionEvent::AssistantMessage { content, .. } = &events[i] {
            let mut j: usize = 0;
            while j < content.len()
                invariant
                    i < events@.len(),
                    j <= content@.len(),
                    events@[i as int] is AssistantMessage,
                    events@[i as int]->AssistantMessage_content == *content,
                    forall|k: int| 0 <= k < j ==> !#[trigger] is_question(content@[k], only@),
                decreases content@.len() - j,
            {
                if let ContentBlock::ToolCall { id, name, .. } = &content[j] {
                    if same(id.as_str(), only) && same(name.as_str(), QUESTION_TOOL_NAME) {
                        assert(is_question(content@[j as int], only@));
                        assert(asks(events@[i as int], only@));
                        return true;
                    }
                }
                j += 1;
            }
        }
        i += 1;
    }
    false
}

/// The question that a session waits on, given its open calls.
fn sole_pending_question(events: &[SessionEvent], unanswered_ids: &Vec<String>) -> (r: Option<
    String,
>)
    requires
        forall|id: Seq<char>|
            #![trigger unanswered(events@, id)]
            views(unanswered_ids@).contains(id) <==> unanswered(events@, id),
        views(unanswered_ids@).no_duplicates(),
    ensures
        match r {
            Some(id) => waits_for(events@, id@),
            None => forall|id: Seq<char>| !#[trigger] waits_for(events@, id),
        },
{
    let ghost ids = views(unanswered_ids@);
    assert(ids.len() == unanswered_ids@.len());
    if unanswered_ids.len() != 1 {
        assert forall|id: Seq<char>| !#[trigger] waits_for(events@, id) by {
            if waits_for(events@, id) {
                assert(unanswered(events@, id));
                let k = choose|k: int| 0 <= k < ids.len() && ids[k] == id;
                let other: int = if k == 0 {
                    1
                } else {
                    0
                };
                assert(ids.contains(ids[other]));
                assert(unanswered(events@, ids[other]));
            }
        }
        return None;
    }
    let only: &str = unanswered_ids[0].as_str();
    assert(ids[0] == only@);
    assert(ids.contains(only@));
    assert(unanswered(events@, only@));
    assert forall|other: Seq<char>| #[trigger] unanswered(events@, other) implies other
        == only@ by {
        assert(ids.contains(other));
    }
    if asks_in(events, only) {
        Some(own(only))
    } else {
        None
    }
}

/// How the calls of these events stand.
pub fn standing(events: &[SessionEvent], live: bool) -> (r: Standing)
    ensures
        r.of(events@, live),
{
    let open: Vec<String> = unanswered_calls(events);
    let waiting: Option<String> = sole_pending_question(events, &open);
    Standing { unanswered: open, waiting, live }
}

fn state(standing: Option<&Standing>, id: &str, Ghost(outlook): Ghost<Outlook>) -> (r: Json)
    requires
        outlook_of(standing, outlook),
    ensures
        r@ == state_in(outlook, id@),
{
    match standing {
        None => Json::text("running"),
        Some(standing) => {
            proof {
                let events = outlook->events;
                assert(views(standing.unanswered@).contains(id@) <==> unanswered(events, id@));
                assert(waits_for(events, id@) || !waits_for(events, id@));
            }
            if !has_text(&standing.unanswered, id) {
                Json::Null
            } else {
                let waits: bool = match &standing.waiting {
                    Some(waiting) => same(waiting.as_str(), id),
                    None => false,
                };
                if standing.live || waits {
                    Json::text("running")
                } else {
                    Json::text("failed")
                }
            }
        },
    }
}

// ---- The parts of an object ----

/// The tokens of a step.
pub open spec fn usage_json(usage: Usage) -> Seq<(Seq<char>, JsonView)> {
    Seq::empty()
        .push(("input"@, JsonView::Number(usage.input_tokens)))
        .push(("output"@, JsonView::Number(usage.output_tokens)))
        .push(("cache_read"@, JsonView::Number(usage.cache_read_input_tokens)))
        .push(("cache_creation"@, JsonView::Number(usage.cache_creation_input_tokens)))
}

fn usage_entries(usage: &Usage) -> (r: Vec<(String, Json)>)
    ensures
        entries(r@) == usage_json(*usage),
{
    let mut o: Vec<(String, Json)> = no_entries();
    put(&mut o, "input", Json::Number(usage.input_tokens));
    put(&mut o, "output", Json::Number(usage.output_tokens));
    put(&mut o, "cache_read", Json::Number(usage.cache_read_input_tokens));
    put(&mut o, "cache_creation", Json::Number(usage.cache_creation_input_tokens));
    o
}

pub fn project_usage(usage: &Usage) -> (r: Json)
    ensures
        r@ == JsonView::Object(usage_json(*usage)),
{
    Json::Object(usage_entries(usage))
}

/// What an image route needs to serve an image: its index, its type and its size.
pub open spec fn descriptor(n: u64, image: ImageContent) -> JsonView {
    JsonView::Object(
        Seq::empty()
            .push(("n"@, JsonView::Number(n)))
            .push(("media_type"@, JsonView::Text(image.media_type@)))
            .push(("bytes"@, JsonView::Number(image.bytes))),
    )
}

pub open spec fn descriptors(images: Seq<ImageContent>) -> JsonView {
    JsonView::Array(Seq::new(images.len(), |n: int| descriptor(n as u64, images[n])))
}

pub fn image_descriptors(images: &Vec<ImageContent>) -> (r: Json)
    ensures
        r@ == descriptors(images@),
{
    let mut r: Vec<Json> = Vec::new();
    let mut n: usize = 0;
    while n < images.len()
        invariant
            n <= images@.len(),
            views(r@) == Seq::new(n as nat, |n: int| descriptor(n as u64, images@[n])),
        decreases images@.len() - n,
    {
        let mut o: Vec<(String, Json)> = no_entries();
        put(&mut o, "n", Json::Number(n as u64));
        put(&mut o, "media_type", Json::text(images[n].media_type.as_str()));
        put(&mut o, "bytes", Json::Number(images[n].bytes));
        let ghost before = views(r@);
        r.push(object(o));
        n += 1;
        assert(views(r@) =~= Seq::new(n as nat, |n: int| descriptor(n as u64, images@[n])));
    }
    Json::Array(r)
}

/// Whether a text that was bounded is one that was cut.
pub open spec fn cut(bounded: Seq<char>) -> bool {
    ends(bounded, cut_mark()) && bounded.len() == MAX_DETAIL_CHARS
}

pub fn was_truncated(bounded: &str) -> (r: bool)
    ensures
        r == cut(bounded@),
{
    strip_suffix(bounded, "\n… output truncated").is_some() && bounded.unicode_len()
        == MAX_DETAIL_CHARS
}

pub open spec fn diff_json(line: DiffView) -> JsonView {
    JsonView::Object(
        Seq::empty()
            .push((
                "kind"@,
                JsonView::Text(
                    match line.kind {
                        DiffKind::Added => "add"@,
                        DiffKind::Removed => "del"@,
                        DiffKind::Context => "ctx"@,
                    },
                ),
            ))
            .push(("text"@, JsonView::Text(line.text))),
    )
}

pub fn diff_line(line: &DiffLine) -> (r: Json)
    ensures
        r@ == diff_json(line@),
{
    let kind: &str = match line.kind {
        DiffKind::Added => "add",
        DiffKind::Removed => "del",
        DiffKind::Context => "ctx",
    };
    let mut o: Vec<(String, Json)> = no_entries();
    put(&mut o, "kind", Json::text(kind));
    put(&mut o, "text", Json::text(line.text.as_str()));
    object(o)
}

/// A new file's lines, each an addition. One that is too large has none.
pub open spec fn written(content: Option<Seq<char>>) -> Seq<DiffView> {
    match content {
        Some(content) => if byte_len(content) <= MAX_WRITE_DIFF_BYTES {
            lines(content).map_values(
                |text: Seq<char>| DiffView { kind: DiffKind::Added, text },
            )
        } else {
            Seq::empty()
        },
        None => Seq::empty(),
    }
}

pub fn written_lines(input: &ToolInput) -> (r: Vec<DiffLine>)
    ensures
        views(r@) == written(opt_text(input.content)),
{
    let mut r: Vec<DiffLine> = Vec::new();
    if let Some(content) = &input.content {
        if !longer_than(content.as_str(), MAX_WRITE_DIFF_BYTES) {
            let texts: Vec<String> = split_lines(content.as_str());
            let ghost all = written(opt_text(input.content));
            assert(views(texts@) == lines(content@));
            let mut i: usize = 0;
            while i < texts.len()
                invariant
                    i <= texts@.len(),
                    texts@.len() == all.len(),
                    forall|k: int|
                        0 <= k < all.len() ==> all[k] == (DiffView {
                            kind: DiffKind::Added,
                            text: #[trigger] texts@[k]@,
                        }),
                    views(r@) == all.take(i as int),
                decreases texts@.len() - i,
            {
                r.push(DiffLine { kind: DiffKind::Added, text: own(texts[i].as_str()) });
                assert(texts@[i as int]@ == all[i as int].text);
                i += 1;
                assert(views(r@) =~= all.take(i as int));
            }
            assert(all.take(i as int) =~= all);
        }
    }
    r
}

/// What a call changes in a file, as it is drawn: a new file is nothing but
/// additions. A call without such lines has no diff.
pub open spec fn diff_of(name: Seq<char>, input: ToolInput) -> JsonView {
    let changed = if name == "write"@ {
        written(opt_text(input.content))
    } else {
        views(input.diff@)
    };
    if changed.len() == 0 {
        JsonView::Null
    } else {
        JsonView::Array(changed.map_values(|line: DiffView| diff_json(line)))
    }
}

fn diff_array(changed: &Vec<DiffLine>) -> (r: Json)
    ensures
        r@ == (if changed@.len() == 0 {
            JsonView::Null
        } else {
            JsonView::Array(views(changed@).map_values(|line: DiffView| diff_json(line)))
        }),
{
    if changed.len() == 0 {
        return Json::Null;
    }
    let ghost all = views(changed@).map_values(|line: DiffView| diff_json(line));
    let mut r: Vec<Json> = Vec::new();
    let mut i: usize = 0;
    while i < changed.len()
        invariant
            i <= changed@.len(),
            all == views(changed@).map_values(|line: DiffView| diff_json(line)),
            views(r@) == all.take(i as int),
        decreases changed@.len() - i,
    {
        r.push(diff_line(&changed[i]));
        i += 1;
        assert(views(r@) =~= all.take(i as int));
    }
    assert(all.take(i as int) =~= all);
    Json::Array(r)
}

pub fn tool_diff(name: &str, input: &ToolInput) -> (r: Json)
    ensures
        r@ == diff_of(name@, *input),
{
    if same(name, "write") {
        diff_array(&written_lines(input))
    } else {
        diff_array(&input.diff)
    }
}

/// The agent that a call starts, and what the call shows in one line.
pub open spec fn agent_and_summary(name: Seq<char>, input: ToolInput) -> (JsonView, Seq<char>) {
    if name == "task"@ {
        match input.task {
            Some(task) => (
                JsonView::Object(
                    Seq::empty()
                        .push(("name"@, JsonView::Text(task.agent@)))
                        .push(("model"@, text_or_null(opt_text(task.model)))),
                ),
                task.description@,
            ),
            None => (
                JsonView::Object(
                    Seq::empty()
                        .push(("name"@, JsonView::Text("subagent"@)))
                        .push(("model"@, JsonView::Null)),
                ),
                input.summary@,
            ),
        }
    } else {
        (JsonView::Null, input.summary@)
    }
}

/// A call as a row.
pub open spec fn call_json(
    id: Seq<char>,
    name: Seq<char>,
    input: ToolInput,
    outlook: Outlook,
) -> JsonView {
    let shown = agent_and_summary(name, input);
    JsonView::Object(
        Seq::empty()
            .push(("type"@, JsonView::Text("tool_call"@)))
            .push(("id"@, JsonView::Text(id)))
            .push(("name"@, JsonView::Text(name)))
            .push(("summary"@, JsonView::Text(shown.1)))
            .push(("detail"@, JsonView::Text(input.detail@)))
            .push(("agent"@, shown.0))
            .push(("state"@, state_in(outlook, id)))
            .push(("diff"@, diff_of(name, input))),
    )
}

fn agent_entry(name: &str, input: &ToolInput) -> (r: Json)
    ensures
        r@ == agent_and_summary(name@, *input).0,
{
    if !same(name, "task") {
        return Json::Null;
    }
    let mut o: Vec<(String, Json)> = no_entries();
    match &input.task {
        Some(task) => {
            put(&mut o, "name", Json::text(task.agent.as_str()));
            put(&mut o, "model", Json::optional(&task.model));
        },
        None => {
            put(&mut o, "name", Json::text("subagent"));
            put(&mut o, "model", Json::Null);
        },
    }
    object(o)
}

fn call_entry(
    id: &str,
    name: &str,
    input: &ToolInput,
    standing: Option<&Standing>,
    Ghost(outlook): Ghost<Outlook>,
) -> (r: Json)
    requires
        outlook_of(standing, outlook),
    ensures
        r@ == call_json(id@, name@, *input, outlook),
{
    let summary: &str = match &input.task {
        Some(task) => if same(name, "task") {
            task.description.as_str()
        } else {
            input.summary.as_str()
        },
        None => input.summary.as_str(),
    };
    let mut o: Vec<(String, Json)> = no_entries();
    put(&mut o, "type", Json::text("tool_call"));
    put(&mut o, "id", Json::text(id));
    put(&mut o, "name", Json::text(name));
    put(&mut o, "summary", Json::text(summary));
    put(&mut o, "detail", Json::text(input.detail.as_str()));
    put(&mut o, "agent", agent_entry(name, input));
    put(&mut o, "state", state(standing, id, Ghost(outlook)));
    put(&mut o, "diff", tool_diff(name, input));
    object(o)
}

/// A call as a row, as its own event knows it: nothing has answered it.
pub fn project_tool_call(id: &str, name: &str, input: &ToolInput) -> (r: Json)
    ensures
        r@ == call_json(id@, name@, *input, Outlook::Alone),
{
    call_entry(id, name, input, None, Ghost(Outlook::Alone))
}

/// A text under its type.
pub open spec fn tagged(tag: Seq<char>, text: Seq<char>) -> JsonView {
    JsonView::Object(Seq::empty()
        .push(("type"@, JsonView::Text(tag)))
        .push(("text"@, JsonView::Text(text))))
}

fn tagged_text(tag: &str, text: &str) -> (r: Json)
    ensures
        r@ == tagged(tag@, text@),
{
    let mut o: Vec<(String, Json)> = no_entries();
    put(&mut o, "type", Json::text(tag));
    put(&mut o, "text", Json::text(text));
    object(o)
}

/// What is shown of a block: text, a finished summary of reasoning, a call, and
/// why a turn stopped. Nothing else leaves the process.
pub open spec fn block_json(block: ContentBlock, outlook: Outlook) -> Option<JsonView> {
    match block {
        ContentBlock::Text { text } => Some(tagged("text"@, text@)),
        ContentBlock::ReasoningSummary { text, completed } => if completed {
            Some(tagged("reasoning_summary"@, text@))
        } else {
            None
        },
        ContentBlock::ToolCall { id, name, input } => Some(
            call_json(id@, name@, input, outlook),
        ),
        ContentBlock::Diagnostic { text, turn_error } => if turn_error {
            Some(tagged("diagnostic"@, text@))
        } else {
            None
        },
        _ => None,
    }
}

/// What is shown of the first `n` blocks.
pub open spec fn blocks_json(content: Seq<ContentBlock>, n: int, outlook: Outlook) -> Seq<JsonView>
    decreases n,
{
    if n <= 0 || n > content.len() {
        Seq::empty()
    } else {
        let before = blocks_json(content, n - 1, outlook);
        match block_json(content[n - 1], outlook) {
            Some(shown) => before.push(shown),
            None => before,
        }
    }
}

fn block_entry(
    block: &ContentBlock,
    standing: Option<&Standing>,
    Ghost(outlook): Ghost<Outlook>,
) -> (r: Option<Json>)
    requires
        outlook_of(standing, outlook),
    ensures
        match r {
            Some(j) => block_json(*block, outlook) == Some(j@),
            None => block_json(*block, outlook) is None,
        },
{
    match block {
        ContentBlock::Text { text } => Some(tagged_text("text", text.as_str())),
        ContentBlock::ReasoningSummary { text, completed } => if *completed {
            Some(tagged_text("reasoning_summary", text.as_str()))
        } else {
            None
        },
        ContentBlock::ToolCall { id, name, input } => Some(
            call_entry(id.as_str(), name.as_str(), input, standing, Ghost(outlook)),
        ),
        ContentBlock::Diagnostic { text, turn_error } => if *turn_error {
            Some(tagged_text("diagnostic", text.as_str()))
        } else {
            None
        },
        _ => None,
    }
}

/// What is shown of a block, as its own event knows it.
pub fn project_block(block: &ContentBlock) -> (r: Option<Json>)
    ensures
        match r {
            Some(j) => block_json(*block, Outlook::Alone) == Some(j@),
            None => block_json(*block, Outlook::Alone) is None,
        },
{
    block_entry(block, None, Ghost(Outlook::Alone))
}

fn content_entry(
    content: &Vec<ContentBlock>,
    standing: Option<&Standing>,
    Ghost(outlook): Ghost<Outlook>,
) -> (r: Json)
    requires
        outlook_of(standing, outlook),
    ensures
        r@ == JsonView::Array(blocks_json(content@, content@.len() as int, outlook)),
{
    let mut r: Vec<Json> = Vec::new();
    let mut i: usize = 0;
    while i < content.len()
        invariant
            i <= content@.len(),
            outlook_of(standing, outlook),
            views(r@) == blocks_json(content@, i as int, outlook),
        decreases content@.len() - i,
    {
        if let Some(shown) = block_entry(&content[i], standing, Ghost(outlook)) {
            r.push(shown);
        }
        i += 1;
    }
    Json::Array(r)
}

/// A report of background work, parted into its headline and what is behind it.
pub open spec fn notice_json(text: Seq<char>) -> JsonView {
    let parsed = match task_notice(text) {
        Some(shown) => Some(("task"@, shown)),
        None => match job_notice(text) {
            Some(shown) => Some(("job"@, shown)),
            None => None,
        },
    };
    match parsed {
        Some((kind, shown)) => {
            let at = search(shown, "\n"@, 0);
            JsonView::Object(
                Seq::empty()
                    .push(("kind"@, JsonView::Text(kind)))
                    .push((
                        "headline"@,
                        JsonView::Text(
                            if at >= 0 {
                                shown.take(at)
                            } else {
                                shown
                            },
                        ),
                    ))
                    .push((
                        "body"@,
                        JsonView::Text(
                            if at >= 0 {
                                shown.skip(at + "\n"@.len())
                            } else {
                                ""@
                            },
                        ),
                    )),
            )
        },
        None => JsonView::Null,
    }
}

pub fn notification(text: &str) -> (r: Json)
    ensures
        r@ == notice_json(text@),
{
    let kind: &str;
    let shown: String;
    match task_notification_display(text) {
        Some(task) => {
            kind = "task";
            shown = task;
        },
        None => match tool_notification_display(text) {
            Some(job) => {
                kind = "job";
                shown = job;
            },
            None => return Json::Null,
        },
    }
    let mut o: Vec<(String, Json)> = no_entries();
    put(&mut o, "kind", Json::text(kind));
    match split_once(shown.as_str(), "\n") {
        Some((headline, body)) => {
            put(&mut o, "headline", Json::Text(headline));
            put(&mut o, "body", Json::Text(body));
        },
        None => {
            put(&mut o, "headline", Json::Text(shown));
            put(&mut o, "body", Json::text(""));
        },
    }
    object(o)
}

// ---- Events ----

/// An event of one type with one id, and nothing more.
pub open spec fn bare_json(tag: Seq<char>, id: Seq<char>, ts: Moment) -> JsonView {
    JsonView::Object(
        Seq::empty()
            .push(("type"@, JsonView::Text(tag)))
            .push(("id"@, JsonView::Text(id)))
            .push(("ts"@, stamped(ts))),
    )
}

fn bare(tag: &str, id: &str, ts: &Moment) -> (r: Json)
    ensures
        r@ == bare_json(tag@, id@, *ts),
{
    let mut o: Vec<(String, Json)> = no_entries();
    put(&mut o, "type", Json::text(tag));
    put(&mut o, "id", Json::text(id));
    put(&mut o, "ts", stamp(ts));
    object(o)
}

/// An event of one type with one id and one value of its own.
pub open spec fn single_json(
    tag: Seq<char>,
    id: Seq<char>,
    key: Seq<char>,
    value: JsonView,
    ts: Moment,
) -> JsonView {
    JsonView::Object(
        Seq::empty()
            .push(("type"@, JsonView::Text(tag)))
            .push(("id"@, JsonView::Text(id)))
            .push((key, value))
            .push(("ts"@, stamped(ts))),
    )
}

fn single(tag: &str, id: &str, key: &str, value: Json, ts: &Moment) -> (r: Json)
    ensures
        r@ == single_json(tag@, id@, key@, value@, *ts),
{
    let mut o: Vec<(String, Json)> = no_entries();
    put(&mut o, "type", Json::text(tag));
    put(&mut o, "id", Json::text(id));
    put(&mut o, key, value);
    put(&mut o, "ts", stamp(ts));
    object(o)
}

pub open spec fn limit_json(limit: Option<u64>) -> JsonView {
    match limit {
        Some(n) => JsonView::Number(n),
        None => JsonView::Null,
    }
}

pub fn limit_entry(limit: Option<u64>) -> (r: Json)
    ensures
        r@ == limit_json(limit),
{
    match limit {
        Some(n) => Json::Number(n),
        None => Json::Null,
    }
}

fn text_list(texts: &Vec<String>) -> (r: Json)
    ensures
        r@ == texts_json(views(texts@)),
{
    let ghost all = views(texts@).map_values(|text: Seq<char>| JsonView::Text(text));
    let mut r: Vec<Json> = Vec::new();
    let mut i: usize = 0;
    while i < texts.len()
        invariant
            i <= texts@.len(),
            all == views(texts@).map_values(|text: Seq<char>| JsonView::Text(text)),
            views(r@) == all.take(i as int),
        decreases texts@.len() - i,
    {
        r.push(Json::text(texts[i].as_str()));
        i += 1;
        assert(views(r@) =~= all.take(i as int));
    }
    assert(all.take(i as int) =~= all);
    Json::Array(r)
}

pub open spec fn texts_json(texts: Seq<Seq<char>>) -> JsonView {
    JsonView::Array(texts.map_values(|text: Seq<char>| JsonView::Text(text)))
}

/// One event as the wire sees it. A tool's result is bounded with its markers.
pub open spec fn event_json(event: SessionEvent, outlook: Outlook) -> JsonView {
    match event {
        SessionEvent::Meta { meta, ts } => JsonView::Object(
            Seq::empty()
                .push(("type"@, JsonView::Text("meta"@)))
                .push(("session_id"@, JsonView::Text(meta.session_id@)))
                .push(("parent_id"@, text_or_null(opt_text(meta.parent_id))))
                .push(("agent"@, JsonView::Text(meta.agent@)))
                .push(("model"@, JsonView::Text(meta.model@)))
                .push(("cwd"@, text_or_null(opt_text(meta.cwd))))
                .push(("context_limit"@, limit_json(meta.context_limit)))
                .push(("ts"@, stamped(ts))),
        ),
        SessionEvent::UserMessage { id, text, markers, images, ts } => JsonView::Object(
            Seq::empty()
                .push(("type"@, JsonView::Text("user_message"@)))
                .push(("id"@, JsonView::Text(id@)))
                .push(("text"@, JsonView::Text(text@ + markers@)))
                .push(("images"@, descriptors(images@)))
                .push(("notification"@, notice_json(text@)))
                .push(("ts"@, stamped(ts))),
        ),
        SessionEvent::SubagentInvocation { id, parent_tool_call_id, ts } => single_json(
            "subagent_invocation"@,
            id@,
            "parent_tool_call_id"@,
            JsonView::Text(parent_tool_call_id@),
            ts,
        ),
        SessionEvent::AssistantMessage {
            id,
            model,
            content,
            usage,
            context_tokens: _,
            priced: _,
            stop_reason,
            ts,
        } => JsonView::Object(
            Seq::empty()
                .push(("type"@, JsonView::Text("assistant_message"@)))
                .push(("id"@, JsonView::Text(id@)))
                .push(("model"@, JsonView::Text(model@)))
                .push(("stop_reason"@, JsonView::Text(stop_reason@)))
                .push(("usage"@, JsonView::Object(usage_json(usage))))
                .push((
                    "content"@,
                    JsonView::Array(blocks_json(content@, content@.len() as int, outlook)),
                ))
                .push(("ts"@, stamped(ts))),
        ),
        SessionEvent::ToolResult {
            id,
            tool_use_id,
            content,
            redacted: _,
            is_error,
            markers,
            images,
            child_session_id,
            ts,
        } => {
            let text = bounded(content@ + markers@, MAX_DETAIL_CHARS as nat);
            JsonView::Object(
                Seq::empty()
                    .push(("type"@, JsonView::Text("tool_result"@)))
                    .push(("id"@, JsonView::Text(id@)))
                    .push(("tool_use_id"@, JsonView::Text(tool_use_id@)))
                    .push(("is_error"@, JsonView::Bool(is_error)))
                    .push(("truncated"@, JsonView::Bool(cut(text))))
                    .push(("text"@, JsonView::Text(text)))
                    .push(("images"@, descriptors(images@)))
                    .push(("child_session_id"@, text_or_null(opt_text(child_session_id))))
                    .push(("ts"@, stamped(ts))),
            )
        },
        SessionEvent::Checkpoint { id, ts } => bare_json("checkpoint"@, id@, ts),
        SessionEvent::ModelChange { id, model, variant, ts } => JsonView::Object(
            Seq::empty()
                .push(("type"@, JsonView::Text("model_change"@)))
                .push(("id"@, JsonView::Text(id@)))
                .push(("model"@, JsonView::Text(model@)))
                .push(("variant"@, text_or_null(opt_text(variant))))
                .push(("ts"@, stamped(ts))),
        ),
        SessionEvent::Compaction { id, summary, kept_from, ts } => JsonView::Object(
            Seq::empty()
                .push(("type"@, JsonView::Text("compaction"@)))
                .push(("id"@, JsonView::Text(id@)))
                .push(("summary"@, JsonView::Text(summary@)))
                .push(("kept_from"@, JsonView::Number(kept_from as u64)))
                .push(("ts"@, stamped(ts))),
        ),
        SessionEvent::Topic { id, text, ts } => single_json(
            "topic"@,
            id@,
            "text"@,
            JsonView::Text(text@),
            ts,
        ),
        SessionEvent::Rewind { id, to, ts } => single_json(
            "rewind"@,
            id@,
            "to"@,
            JsonView::Number(to as u64),
            ts,
        ),
        SessionEvent::ImageCutoff { id, ts } => bare_json("image_cutoff"@, id@, ts),
        SessionEvent::TurnEnded { id, detail, ts } => single_json(
            "turn_ended"@,
            id@,
            "detail"@,
            JsonView::Text(detail@),
            ts,
        ),
        SessionEvent::TurnFinished { id, ts } => bare_json("turn_finished"@, id@, ts),
        SessionEvent::MemoryRecall { id, ids, ts } => single_json(
            "memory_recall"@,
            id@,
            "ids"@,
            texts_json(views(ids@)),
            ts,
        ),
    }
}

fn result_entry(
    id: &str,
    tool_use_id: &str,
    is_error: bool,
    text: String,
    images: &Vec<ImageContent>,
    child: &Option<String>,
    ts: &Moment,
) -> (r: Json)
    ensures
        r@ == JsonView::Object(
            Seq::empty()
                .push(("type"@, JsonView::Text("tool_result"@)))
                .push(("id"@, JsonView::Text(id@)))
                .push(("tool_use_id"@, JsonView::Text(tool_use_id@)))
                .push(("is_error"@, JsonView::Bool(is_error)))
                .push(("truncated"@, JsonView::Bool(cut(text@))))
                .push(("text"@, JsonView::Text(text@)))
                .push(("images"@, descriptors(images@)))
                .push(("child_session_id"@, text_or_null(opt_text(*child))))
                .push(("ts"@, stamped(*ts))),
        ),
{
    let mut o: Vec<(String, Json)> = no_entries();
    put(&mut o, "type", Json::text("tool_result"));
    put(&mut o, "id", Json::text(id));
    put(&mut o, "tool_use_id", Json::text(tool_use_id));
    put(&mut o, "is_error", Json::Bool(is_error));
    put(&mut o, "truncated", Json::Bool(was_truncated(text.as_str())));
    put(&mut o, "text", Json::Text(text));
    put(&mut o, "images", image_descriptors(images));
    put(&mut o, "child_session_id", Json::optional(child));
    put(&mut o, "ts", stamp(ts));
    object(o)
}

fn event_entry(
    event: &SessionEvent,
    standing: Option<&Standing>,
    Ghost(outlook): Ghost<Outlook>,
) -> (r: Json)
    requires
        outlook_of(standing, outlook),
    ensures
        r@ == event_json(*event, outlook),
{
    let mut o: Vec<(String, Json)> = no_entries();
    match event {
        SessionEvent::Meta { meta, ts } => {
            put(&mut o, "type", Json::text("meta"));
            put(&mut o, "session_id", Json::text(meta.session_id.as_str()));
            put(&mut o, "parent_id", Json::optional(&meta.parent_id));
            put(&mut o, "agent", Json::text(meta.agent.as_str()));
            put(&mut o, "model", Json::text(meta.model.as_str()));
            put(&mut o, "cwd", Json::optional(&meta.cwd));
            put(&mut o, "context_limit", limit_entry(meta.context_limit));
            put(&mut o, "ts", stamp(ts));
        },
        SessionEvent::UserMessage { id, text, markers, images, ts } => {
            put(&mut o, "type", Json::text("user_message"));
            put(&mut o, "id", Json::text(id.as_str()));
            put(&mut o, "text", Json::Text(cat2(text.as_str(), markers.as_str())));
            put(&mut o, "images", image_descriptors(images));
            put(&mut o, "notification", notification(text.as_str()));
            put(&mut o, "ts", stamp(ts));
        },
        SessionEvent::SubagentInvocation { id, parent_tool_call_id, ts } => {
            return single(
                "subagent_invocation",
                id.as_str(),
                "parent_tool_call_id",
                Json::text(parent_tool_call_id.as_str()),
                ts,
            );
        },
        SessionEvent::AssistantMessage { id, model, content, usage, stop_reason, ts, .. } => {
            put(&mut o, "type", Json::text("assistant_message"));
            put(&mut o, "id", Json::text(id.as_str()));
            put(&mut o, "model", Json::text(model.as_str()));
            put(&mut o, "stop_reason", Json::text(stop_reason.as_str()));
            put(&mut o, "usage", project_usage(usage));
            put(&mut o, "content", content_entry(content, standing, Ghost(outlook)));
            put(&mut o, "ts", stamp(ts));
        },
        SessionEvent::ToolResult {
            id,
            tool_use_id,
            content,
            is_error,
            markers,
            images,
            child_session_id,
            ts,
            ..
        } => {
            let whole: String = cat2(content.as_str(), markers.as_str());
            return result_entry(
                id.as_str(),
                tool_use_id.as_str(),
                *is_error,
                bound(whole.as_str(), MAX_DETAIL_CHARS),
                images,
                child_session_id,
                ts,
            );
        },
        SessionEvent::Checkpoint { id, ts } => {
            return bare("checkpoint", id.as_str(), ts);
        },
        SessionEvent::ModelChange { id, model, variant, ts } => {
            put(&mut o, "type", Json::text("model_change"));
            put(&mut o, "id", Json::text(id.as_str()));
            put(&mut o, "model", Json::text(model.as_str()));
            put(&mut o, "variant", Json::optional(variant));
            put(&mut o, "ts", stamp(ts));
        },
        SessionEvent::Compaction { id, summary, kept_from, ts } => {
            put(&mut o, "type", Json::text("compaction"));
            put(&mut o, "id", Json::text(id.as_str()));
            put(&mut o, "summary", Json::text(summary.as_str()));
            put(&mut o, "kept_from", Json::Number(*kept_from as u64));
            put(&mut o, "ts", stamp(ts));
        },
        SessionEvent::Topic { id, text, ts } => {
            return single("topic", id.as_str(), "text", Json::text(text.as_str()), ts);
        },
        SessionEvent::Rewind { id, to, ts } => {
            return single("rewind", id.as_str(), "to", Json::Number(*to as u64), ts);
        },
        SessionEvent::ImageCutoff { id, ts } => {
            return bare("image_cutoff", id.as_str(), ts);
        },
        SessionEvent::TurnEnded { id, detail, ts } => {
            return single("turn_ended", id.as_str(), "detail", Json::text(detail.as_str()), ts);
        },
        SessionEvent::TurnFinished { id, ts } => {
            return bare("turn_finished", id.as_str(), ts);
        },
        SessionEvent::MemoryRecall { id, ids, ts } => {
            return single("memory_recall", id.as_str(), "ids", text_list(ids), ts);
        },
    }
    object(o)
}

/// One event as the wire sees it, on its own: a call that just landed runs.
pub fn project_event(event: &SessionEvent) -> (r: Json)
    ensures
        r@ == event_json(*event, Outlook::Alone),
{
    event_entry(event, None, Ghost(Outlook::Alone))
}

/// A page of a session, with the state of every call settled against the whole
/// session. `live` says whether something is running it.
pub fn project_page(view: &[SessionEvent], page: &[SessionEvent], live: bool) -> (r: Vec<Json>)
    ensures
        views(r@) == Seq::new(
            page@.len(),
            |i: int| event_json(page@[i], Outlook::Whole { events: view@, live }),
        ),
{
    let standing: Standing = self::standing(view, live);
    let ghost outlook = Outlook::Whole { events: view@, live };
    let mut r: Vec<Json> = Vec::new();
    let mut i: usize = 0;
    while i < page.len()
        invariant
            i <= page@.len(),
            outlook_of(Some(&standing), outlook),
            views(r@) == Seq::new(i as nat, |i: int| event_json(page@[i], outlook)),
        decreases page@.len() - i,
    {
        r.push(event_entry(&page[i], Some(&standing), Ghost(outlook)));
        i += 1;
        assert(views(r@) =~= Seq::new(i as nat, |i: int| event_json(page@[i], outlook)));
    }
    r
}

/// What a session as a whole says of a call: one that was answered says nothing,
/// one that something still runs runs, and of an idle session only the question
/// that it waits on does. A session waits on one question at most.
pub proof fn law_calls_are_settled_by_the_whole_session(
    events: Seq<SessionEvent>,
    live: bool,
    id: Seq<char>,
    other: Seq<char>,
)
    ensures
        is_answered(events, id) ==> call_state(events, live, id) is Null,
        unanswered(events, id) && live ==> call_state(events, live, id) == JsonView::Text(
            "running"@,
        ),
        unanswered(events, id) && !live && !waits_for(events, id) ==> call_state(
            events,
            live,
            id,
        ) == JsonView::Text("failed"@),
        waits_for(events, id) && unanswered(events, other) ==> other == id,
{
}

/// Thinking, opaque reasoning, half a summary, and what a result repeats never
/// leave the process.
pub proof fn law_private_blocks_stay(block: ContentBlock, outlook: Outlook)
    requires
        match block {
            ContentBlock::Text { .. } => false,
            ContentBlock::ToolCall { .. } => false,
            ContentBlock::ReasoningSummary { completed, .. } => !completed,
            ContentBlock::Diagnostic { turn_error, .. } => !turn_error,
            _ => true,
        },
    ensures
        block_json(block, outlook) is None,
{
}

/// A picture travels as what it is and how large it is: two that agree in that
/// cannot be told apart, whatever they show.
pub proof fn law_pictures_are_only_described(a: Seq<ImageContent>, b: Seq<ImageContent>)
    requires
        a.len() == b.len(),
        forall|n: int|
            0 <= n < a.len() ==> (#[trigger] a[n]).media_type@ == b[n].media_type@ && a[n].bytes
                == b[n].bytes,
    ensures
        descriptors(a) == descriptors(b),
{
    assert(descriptors(a)->Array_0 =~= descriptors(b)->Array_0);
}

/// Every event has a type.
pub proof fn law_every_event_has_a_type(event: SessionEvent, outlook: Outlook)
    ensures
        value_at(event_json(event, outlook), "type"@) is Some,
        value_at(event_json(event, outlook), "type"@)->0 is Text,
{
    let o = event_json(event, outlook)->Object_0;
    assert(o[0].0 == "type"@);
    assert(entry_from(o, 0, "type"@) == 0);
}

// ---- One turn of an agent ----

/// The events of the turn that a call started, without the invocation itself.
pub open spec fn turn_of(events: Seq<SessionEvent>, call: Seq<char>) -> Seq<SessionEvent> {
    match view_bounds(events, Some(call)) {
        Some((from, to)) => events.subrange(from, to),
        None => Seq::empty(),
    }
}

pub fn invocation_slice<'a>(events: &'a Vec<SessionEvent>, parent_tool_call_id: &str) -> (r: &'a [
    SessionEvent
])
    ensures
        r@ == turn_of(events@, parent_tool_call_id@),
{
    match invocation_at(events, parent_tool_call_id) {
        Some(start) => {
            let n: usize = events.len();
            assert(start + 1 <= n);
            let end: usize = invocation_end(events, start + 1);
            vstd::slice::slice_subrange(events.as_slice(), start + 1, end)
        },
        None => {
            assert(events@.subrange(0, 0) =~= Seq::empty());
            vstd::slice::slice_subrange(events.as_slice(), 0, 0)
        },
    }
}

/// Whether a log holds the invocation that a call started.
pub fn has_invocation(events: &Vec<SessionEvent>, parent_tool_call_id: &str) -> (r: bool)
    ensures
        r == (invocation_from(events@, 0, parent_tool_call_id@) < events@.len()),
{
    invocation_at(events, parent_tool_call_id).is_some()
}

// ---- Totals ----

/// The model that the newest switch before `n` chose.
pub open spec fn switched_to(events: Seq<SessionEvent>, n: int) -> Option<Seq<char>>
    decreases n,
{
    if n <= 0 || n > events.len() {
        None
    } else {
        match events[n - 1] {
            SessionEvent::ModelChange { model, .. } => Some(model@),
            _ => switched_to(events, n - 1),
        }
    }
}

/// The model of the first head from `i` on.
pub open spec fn opened_with(events: Seq<SessionEvent>, i: int) -> Option<Seq<char>>
    decreases events.len() - i,
{
    if i < 0 || i >= events.len() {
        None
    } else {
        match events[i] {
            SessionEvent::Meta { meta, .. } => Some(meta.model@),
            _ => opened_with(events, i + 1),
        }
    }
}

/// The model that a session bills against: what it switched to last, or else the
/// one it opened with.
pub open spec fn billed_model(events: Seq<SessionEvent>) -> Seq<char> {
    match switched_to(events, events.len() as int) {
        Some(model) => model,
        None => match opened_with(events, 0) {
            Some(model) => model,
            None => ""@,
        },
    }
}

pub fn effective_model(events: &Vec<SessionEvent>) -> (r: String)
    ensures
        r@ == billed_model(events@),
{
    let mut n: usize = events.len();
    while n > 0
        invariant
            n <= events@.len(),
            switched_to(events@, events@.len() as int) == switched_to(events@, n as int),
        decreases n,
    {
        if let SessionEvent::ModelChange { model, .. } = &events[n - 1] {
            return own(model.as_str());
        }
        n -= 1;
    }
    let mut i: usize = 0;
    while i < events.len()
        invariant
            i <= events@.len(),
            switched_to(events@, events@.len() as int) is None,
            opened_with(events@, 0) == opened_with(events@, i as int),
        decreases events@.len() - i,
    {
        if let SessionEvent::Meta { meta, .. } = &events[i] {
            return own(meta.model.as_str());
        }
        i += 1;
    }
    own("")
}

/// The totals of a session. Where a step has no price, a model that a plan pays
/// for says so.
pub open spec fn totals_json(events: Seq<SessionEvent>, plan_billed: bool) -> JsonView {
    let spent = spend_upto(events, events.len() as int);
    JsonView::Object(
        if !spent.1 && plan_billed {
            usage_json(spent.0).push(("plan"@, JsonView::Bool(true)))
        } else {
            usage_json(spent.0)
        },
    )
}

/// The totals of a session, and whether every step has a price. `plan_billed`
/// says whether a plan pays for the model that the session bills against.
pub fn usage_totals(events: &[SessionEvent], plan_billed: bool) -> (r: (Json, bool))
    ensures
        r.0@ == totals_json(events@, plan_billed),
        r.1 == spend_upto(events@, events@.len() as int).1,
{
    let mut total: Usage = Usage::none();
    let mut priced: bool = true;
    let mut i: usize = 0;
    while i < events.len()
        invariant
            i <= events@.len(),
            (total, priced) == spend_upto(events@, i as int),
        decreases events@.len() - i,
    {
        if let SessionEvent::AssistantMessage { usage, priced: has_price, .. } = &events[i] {
            accrue_usage(&mut total, &mut priced, *has_price, usage);
        }
        i += 1;
    }
    let mut o: Vec<(String, Json)> = usage_entries(&total);
    if !priced && plan_billed {
        put(&mut o, "plan", Json::Bool(true));
    }
    (object(o), priced)
}

// ---- A running turn ----

/// One line of a running turn's scratch.
#[derive(Clone, Debug)]
pub enum LiveDelta {
    TurnStarted { turn: String, step: u64 },
    TextDelta { text: String },
    ThinkingDelta { text: String },
    ThinkingBreak,
    ToolStarted { id: String, name: String, summary: String },
    ToolFinished { id: String, ok: bool },
}

pub open spec fn delta_json(delta: LiveDelta) -> JsonView {
    match delta {
        LiveDelta::TurnStarted { turn, step } => JsonView::Object(
            Seq::empty()
                .push(("type"@, JsonView::Text("turn_started"@)))
                .push(("turn"@, JsonView::Text(turn@)))
                .push(("step"@, JsonView::Number(step))),
        ),
        LiveDelta::TextDelta { text } => tagged("text_delta"@, text@),
        LiveDelta::ThinkingDelta { text } => tagged("thinking_delta"@, text@),
        LiveDelta::ThinkingBreak => JsonView::Object(
            Seq::empty()
                .push(("type"@, JsonView::Text("thinking_break"@))),
        ),
        LiveDelta::ToolStarted { id, name, summary } => JsonView::Object(
            Seq::empty()
                .push(("type"@, JsonView::Text("tool_started"@)))
                .push(("id"@, JsonView::Text(id@)))
                .push(("name"@, JsonView::Text(name@)))
                .push(("summary"@, JsonView::Text(summary@))),
        ),
        LiveDelta::ToolFinished { id, ok } => JsonView::Object(
            Seq::empty()
                .push(("type"@, JsonView::Text("tool_finished"@)))
                .push(("id"@, JsonView::Text(id@)))
                .push(("ok"@, JsonView::Bool(ok))),
        ),
    }
}

pub fn project_live_delta(delta: &LiveDelta) -> (r: Json)
    ensures
        r@ == delta_json(*delta),
{
    let mut o: Vec<(String, Json)> = no_entries();
    match delta {
        LiveDelta::TurnStarted { turn, step } => {
            put(&mut o, "type", Json::text("turn_started"));
            put(&mut o, "turn", Json::text(turn.as_str()));
            put(&mut o, "step", Json::Number(*step));
        },
        LiveDelta::TextDelta { text } => {
            return tagged_text("text_delta", text.as_str());
        },
        LiveDelta::ThinkingDelta { text } => {
            return tagged_text("thinking_delta", text.as_str());
        },
        LiveDelta::ThinkingBreak => {
            put(&mut o, "type", Json::text("thinking_break"));
        },
        LiveDelta::ToolStarted { id, name, summary } => {
            put(&mut o, "type", Json::text("tool_started"));
            put(&mut o, "id", Json::text(id.as_str()));
            put(&mut o, "name", Json::text(name.as_str()));
            put(&mut o, "summary", Json::text(summary.as_str()));
        },
        LiveDelta::ToolFinished { id, ok } => {
            put(&mut o, "type", Json::text("tool_finished"));
            put(&mut o, "id", Json::text(id.as_str()));
            put(&mut o, "ok", Json::Bool(*ok));
        },
    }
    object(o)
}

/// What retires a streaming row: the step was committed, or the turn ended.
pub open spec fn reset_json() -> JsonView {
    JsonView::Object(Seq::empty()
        .push(("type"@, JsonView::Text("reset"@))))
}

pub fn live_reset() -> (r: Json)
    ensures
        r@ == reset_json(),
{
    let mut o: Vec<(String, Json)> = no_entries();
    put(&mut o, "type", Json::text("reset"));
    object(o)
}

} // verus!
