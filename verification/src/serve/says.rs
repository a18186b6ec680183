//! What the objects on the wire say, read by their keys.

use vstd::prelude::*;
use crate::chars::{byte_len, law_a_line_ends_at_its_line_feed, lines, views};
use crate::format::{bounded, cut_mark, MAX_DETAIL_CHARS};
use crate::serve::json::{entry_from, lemma_entry, value_at, JsonView};
use crate::serve::listing::{summary_json, EntryView, LiveState};
use crate::serve::stamp::stamped;
use crate::serve::view::{
    answers, asks, billed_model, block_json, blocks_json, call_state, delta_json, descriptors,
    diff_json, diff_of, event_json, is_answered, is_call, is_question, makes_call, notice_json,
    switched_to, totals_json, turn_of, unanswered, usage_json, waits_for, LiveDelta, Outlook,
    MAX_WRITE_DIFF_BYTES,
};
use crate::serve::page::{page_json, result_from, rows_json};
use crate::session::answers::calls_at;
use crate::session::event::{ContentBlock, ImageContent, SessionEvent, ToolInput, Usage};
use crate::session::notice::{job_notice, task_notice};
use crate::session::restore::{invocation_from, next_invocation, spend_upto, view_bounds};
use crate::transcript::model::{opt_text, DiffKind, DiffView};
use crate::words::{ends, search, stands_at};

verus! {

/// An event travels as it is: under its type, with its id, its time and every part of
/// it that is told, none of them changed and none of them exchanged for another.
pub proof fn law_an_event_travels_as_it_is(event: SessionEvent, outlook: Outlook)
    ensures
        ({
            let o = event_json(event, outlook);
            match event {
                SessionEvent::Meta { meta, ts } => {
                    &&& value_at(o, "type"@) == Some(JsonView::Text("meta"@))
                    &&& value_at(o, "session_id"@) == Some(JsonView::Text(meta.session_id@))
                    &&& value_at(o, "parent_id"@) == Some((match meta.parent_id {
                    Some(parent) => JsonView::Text(parent@),
                    None => JsonView::Null,
                }))
                    &&& value_at(o, "agent"@) == Some(JsonView::Text(meta.agent@))
                    &&& value_at(o, "model"@) == Some(JsonView::Text(meta.model@))
                    &&& value_at(o, "cwd"@) == Some((match meta.cwd {
                    Some(cwd) => JsonView::Text(cwd@),
                    None => JsonView::Null,
                }))
                    &&& value_at(o, "context_limit"@) == Some((match meta.context_limit {
                    Some(limit) => JsonView::Number(limit),
                    None => JsonView::Null,
                }))
                    &&& value_at(o, "ts"@) == Some(stamped(ts))
                },
                SessionEvent::UserMessage { id, text, markers, ts, .. } => {
                    &&& value_at(o, "type"@) == Some(JsonView::Text("user_message"@))
                    &&& value_at(o, "id"@) == Some(JsonView::Text(id@))
                    &&& value_at(o, "text"@) == Some(JsonView::Text(text@ + markers@))
                    &&& value_at(o, "ts"@) == Some(stamped(ts))
                },
                SessionEvent::SubagentInvocation { id, parent_tool_call_id, ts } => {
                    &&& value_at(o, "type"@) == Some(JsonView::Text("subagent_invocation"@))
                    &&& value_at(o, "id"@) == Some(JsonView::Text(id@))
                    &&& value_at(o, "parent_tool_call_id"@) == Some(JsonView::Text(parent_tool_call_id@))
                    &&& value_at(o, "ts"@) == Some(stamped(ts))
                },
                SessionEvent::AssistantMessage { id, model, stop_reason, ts, .. } => {
                    &&& value_at(o, "type"@) == Some(JsonView::Text("assistant_message"@))
                    &&& value_at(o, "id"@) == Some(JsonView::Text(id@))
                    &&& value_at(o, "model"@) == Some(JsonView::Text(model@))
                    &&& value_at(o, "stop_reason"@) == Some(JsonView::Text(stop_reason@))
                    &&& value_at(o, "ts"@) == Some(stamped(ts))
                },
                SessionEvent::ToolResult { id, tool_use_id, is_error, child_session_id, ts, .. } => {
                    &&& value_at(o, "type"@) == Some(JsonView::Text("tool_result"@))
                    &&& value_at(o, "id"@) == Some(JsonView::Text(id@))
                    &&& value_at(o, "tool_use_id"@) == Some(JsonView::Text(tool_use_id@))
                    &&& value_at(o, "is_error"@) == Some(JsonView::Bool(is_error))
                    &&& value_at(o, "child_session_id"@) == Some((match child_session_id {
                    Some(session) => JsonView::Text(session@),
                    None => JsonView::Null,
                }))
                    &&& value_at(o, "ts"@) == Some(stamped(ts))
                },
                SessionEvent::Checkpoint { id, ts } => {
                    &&& value_at(o, "type"@) == Some(JsonView::Text("checkpoint"@))
                    &&& value_at(o, "id"@) == Some(JsonView::Text(id@))
                    &&& value_at(o, "ts"@) == Some(stamped(ts))
                },
                SessionEvent::ModelChange { id, model, variant, ts } => {
                    &&& value_at(o, "type"@) == Some(JsonView::Text("model_change"@))
                    &&& value_at(o, "id"@) == Some(JsonView::Text(id@))
                    &&& value_at(o, "model"@) == Some(JsonView::Text(model@))
                    &&& value_at(o, "variant"@) == Some((match variant {
                    Some(variant) => JsonView::Text(variant@),
                    None => JsonView::Null,
                }))
                    &&& value_at(o, "ts"@) == Some(stamped(ts))
                },
                SessionEvent::Compaction { id, summary, kept_from, ts } => {
                    &&& value_at(o, "type"@) == Some(JsonView::Text("compaction"@))
                    &&& value_at(o, "id"@) == Some(JsonView::Text(id@))
                    &&& value_at(o, "summary"@) == Some(JsonView::Text(summary@))
                    &&& value_at(o, "kept_from"@) == Some(JsonView::Number(kept_from as u64))
                    &&& value_at(o, "ts"@) == Some(stamped(ts))
                },
                SessionEvent::Topic { id, text, ts } => {
                    &&& value_at(o, "type"@) == Some(JsonView::Text("topic"@))
                    &&& value_at(o, "id"@) == Some(JsonView::Text(id@))
                    &&& value_at(o, "text"@) == Some(JsonView::Text(text@))
                    &&& value_at(o, "ts"@) == Some(stamped(ts))
                },
                SessionEvent::Rewind { id, to, ts } => {
                    &&& value_at(o, "type"@) == Some(JsonView::Text("rewind"@))
                    &&& value_at(o, "id"@) == Some(JsonView::Text(id@))
                    &&& value_at(o, "to"@) == Some(JsonView::Number(to as u64))
                    &&& value_at(o, "ts"@) == Some(stamped(ts))
                },
                SessionEvent::ImageCutoff { id, ts } => {
                    &&& value_at(o, "type"@) == Some(JsonView::Text("image_cutoff"@))
                    &&& value_at(o, "id"@) == Some(JsonView::Text(id@))
                    &&& value_at(o, "ts"@) == Some(stamped(ts))
                },
                SessionEvent::TurnEnded { id, detail, ts } => {
                    &&& value_at(o, "type"@) == Some(JsonView::Text("turn_ended"@))
                    &&& value_at(o, "id"@) == Some(JsonView::Text(id@))
                    &&& value_at(o, "detail"@) == Some(JsonView::Text(detail@))
                    &&& value_at(o, "ts"@) == Some(stamped(ts))
                },
                SessionEvent::TurnFinished { id, ts } => {
                    &&& value_at(o, "type"@) == Some(JsonView::Text("turn_finished"@))
                    &&& value_at(o, "id"@) == Some(JsonView::Text(id@))
                    &&& value_at(o, "ts"@) == Some(stamped(ts))
                },
                SessionEvent::MemoryRecall { id, ids, ts } => {
                    &&& value_at(o, "type"@) == Some(JsonView::Text("memory_recall"@))
                    &&& value_at(o, "id"@) == Some(JsonView::Text(id@))
                    &&& value_at(o, "ts"@) == Some(stamped(ts))
                },
            }
        }),
{
    let o = event_json(event, outlook)->Object_0;
    match event {
        SessionEvent::Meta { .. } => {
            reveal_strlit("type");
            reveal_strlit("session_id");
            reveal_strlit("parent_id");
            reveal_strlit("agent");
            reveal_strlit("model");
            reveal_strlit("cwd");
            reveal_strlit("context_limit");
            reveal_strlit("ts");
            assert("agent"@[0] != "model"@[0]);
            assert(o[0].0 == "type"@);
            assert(o[1].0 == "session_id"@);
            assert(o[2].0 == "parent_id"@);
            assert(o[3].0 == "agent"@);
            assert(o[4].0 == "model"@);
            assert(o[5].0 == "cwd"@);
            assert(o[6].0 == "context_limit"@);
            assert(o[7].0 == "ts"@);
            lemma_entry(o, 0, 0, "type"@);
            lemma_entry(o, 0, 1, "session_id"@);
            lemma_entry(o, 0, 2, "parent_id"@);
            lemma_entry(o, 0, 3, "agent"@);
            lemma_entry(o, 0, 4, "model"@);
            lemma_entry(o, 0, 5, "cwd"@);
            lemma_entry(o, 0, 6, "context_limit"@);
            lemma_entry(o, 0, 7, "ts"@);
        },
        SessionEvent::UserMessage { .. } => {
            reveal_strlit("type");
            reveal_strlit("id");
            reveal_strlit("text");
            reveal_strlit("images");
            reveal_strlit("notification");
            reveal_strlit("ts");
            assert("type"@[1] != "text"@[1]);
            assert("id"@[0] != "ts"@[0]);
            assert(o[0].0 == "type"@);
            assert(o[1].0 == "id"@);
            assert(o[2].0 == "text"@);
            assert(o[3].0 == "images"@);
            assert(o[4].0 == "notification"@);
            assert(o[5].0 == "ts"@);
            lemma_entry(o, 0, 0, "type"@);
            lemma_entry(o, 0, 1, "id"@);
            lemma_entry(o, 0, 2, "text"@);
            lemma_entry(o, 0, 5, "ts"@);
        },
        SessionEvent::SubagentInvocation { .. } => {
            reveal_strlit("type");
            reveal_strlit("id");
            reveal_strlit("parent_tool_call_id");
            reveal_strlit("ts");
            assert("id"@[0] != "ts"@[0]);
            assert(o[0].0 == "type"@);
            assert(o[1].0 == "id"@);
            assert(o[2].0 == "parent_tool_call_id"@);
            assert(o[3].0 == "ts"@);
            lemma_entry(o, 0, 0, "type"@);
            lemma_entry(o, 0, 1, "id"@);
            lemma_entry(o, 0, 2, "parent_tool_call_id"@);
            lemma_entry(o, 0, 3, "ts"@);
        },
        SessionEvent::AssistantMessage { .. } => {
            reveal_strlit("type");
            reveal_strlit("id");
            reveal_strlit("model");
            reveal_strlit("stop_reason");
            reveal_strlit("usage");
            reveal_strlit("content");
            reveal_strlit("ts");
            assert("id"@[0] != "ts"@[0]);
            assert("model"@[0] != "usage"@[0]);
            assert(o[0].0 == "type"@);
            assert(o[1].0 == "id"@);
            assert(o[2].0 == "model"@);
            assert(o[3].0 == "stop_reason"@);
            assert(o[4].0 == "usage"@);
            assert(o[5].0 == "content"@);
            assert(o[6].0 == "ts"@);
            lemma_entry(o, 0, 0, "type"@);
            lemma_entry(o, 0, 1, "id"@);
            lemma_entry(o, 0, 2, "model"@);
            lemma_entry(o, 0, 3, "stop_reason"@);
            lemma_entry(o, 0, 6, "ts"@);
        },
        SessionEvent::ToolResult { .. } => {
            reveal_strlit("type");
            reveal_strlit("id");
            reveal_strlit("tool_use_id");
            reveal_strlit("is_error");
            reveal_strlit("truncated");
            reveal_strlit("text");
            reveal_strlit("images");
            reveal_strlit("child_session_id");
            reveal_strlit("ts");
            assert("type"@[1] != "text"@[1]);
            assert("id"@[0] != "ts"@[0]);
            assert(o[0].0 == "type"@);
            assert(o[1].0 == "id"@);
            assert(o[2].0 == "tool_use_id"@);
            assert(o[3].0 == "is_error"@);
            assert(o[4].0 == "truncated"@);
            assert(o[5].0 == "text"@);
            assert(o[6].0 == "images"@);
            assert(o[7].0 == "child_session_id"@);
            assert(o[8].0 == "ts"@);
            lemma_entry(o, 0, 0, "type"@);
            lemma_entry(o, 0, 1, "id"@);
            lemma_entry(o, 0, 2, "tool_use_id"@);
            lemma_entry(o, 0, 3, "is_error"@);
            lemma_entry(o, 0, 7, "child_session_id"@);
            lemma_entry(o, 0, 8, "ts"@);
        },
        SessionEvent::Checkpoint { .. } => {
            reveal_strlit("type");
            reveal_strlit("id");
            reveal_strlit("ts");
            assert("id"@[0] != "ts"@[0]);
            assert(o[0].0 == "type"@);
            assert(o[1].0 == "id"@);
            assert(o[2].0 == "ts"@);
            lemma_entry(o, 0, 0, "type"@);
            lemma_entry(o, 0, 1, "id"@);
            lemma_entry(o, 0, 2, "ts"@);
        },
        SessionEvent::ModelChange { .. } => {
            reveal_strlit("type");
            reveal_strlit("id");
            reveal_strlit("model");
            reveal_strlit("variant");
            reveal_strlit("ts");
            assert("id"@[0] != "ts"@[0]);
            assert(o[0].0 == "type"@);
            assert(o[1].0 == "id"@);
            assert(o[2].0 == "model"@);
            assert(o[3].0 == "variant"@);
            assert(o[4].0 == "ts"@);
            lemma_entry(o, 0, 0, "type"@);
            lemma_entry(o, 0, 1, "id"@);
            lemma_entry(o, 0, 2, "model"@);
            lemma_entry(o, 0, 3, "variant"@);
            lemma_entry(o, 0, 4, "ts"@);
        },
        SessionEvent::Compaction { .. } => {
            reveal_strlit("type");
            reveal_strlit("id");
            reveal_strlit("summary");
            reveal_strlit("kept_from");
            reveal_strlit("ts");
            assert("id"@[0] != "ts"@[0]);
            assert(o[0].0 == "type"@);
            assert(o[1].0 == "id"@);
            assert(o[2].0 == "summary"@);
            assert(o[3].0 == "kept_from"@);
            assert(o[4].0 == "ts"@);
            lemma_entry(o, 0, 0, "type"@);
            lemma_entry(o, 0, 1, "id"@);
            lemma_entry(o, 0, 2, "summary"@);
            lemma_entry(o, 0, 3, "kept_from"@);
            lemma_entry(o, 0, 4, "ts"@);
        },
        SessionEvent::Topic { .. } => {
            reveal_strlit("type");
            reveal_strlit("id");
            reveal_strlit("text");
            reveal_strlit("ts");
            assert("type"@[1] != "text"@[1]);
            assert("id"@[0] != "ts"@[0]);
            assert(o[0].0 == "type"@);
            assert(o[1].0 == "id"@);
            assert(o[2].0 == "text"@);
            assert(o[3].0 == "ts"@);
            lemma_entry(o, 0, 0, "type"@);
            lemma_entry(o, 0, 1, "id"@);
            lemma_entry(o, 0, 2, "text"@);
            lemma_entry(o, 0, 3, "ts"@);
        },
        SessionEvent::Rewind { .. } => {
            reveal_strlit("type");
            reveal_strlit("id");
            reveal_strlit("to");
            reveal_strlit("ts");
            assert("id"@[0] != "to"@[0]);
            assert("id"@[0] != "ts"@[0]);
            assert("to"@[1] != "ts"@[1]);
            assert(o[0].0 == "type"@);
            assert(o[1].0 == "id"@);
            assert(o[2].0 == "to"@);
            assert(o[3].0 == "ts"@);
            lemma_entry(o, 0, 0, "type"@);
            lemma_entry(o, 0, 1, "id"@);
            lemma_entry(o, 0, 2, "to"@);
            lemma_entry(o, 0, 3, "ts"@);
        },
        SessionEvent::ImageCutoff { .. } => {
            reveal_strlit("type");
            reveal_strlit("id");
            reveal_strlit("ts");
            assert("id"@[0] != "ts"@[0]);
            assert(o[0].0 == "type"@);
            assert(o[1].0 == "id"@);
            assert(o[2].0 == "ts"@);
            lemma_entry(o, 0, 0, "type"@);
            lemma_entry(o, 0, 1, "id"@);
            lemma_entry(o, 0, 2, "ts"@);
        },
        SessionEvent::TurnEnded { .. } => {
            reveal_strlit("type");
            reveal_strlit("id");
            reveal_strlit("detail");
            reveal_strlit("ts");
            assert("id"@[0] != "ts"@[0]);
            assert(o[0].0 == "type"@);
            assert(o[1].0 == "id"@);
            assert(o[2].0 == "detail"@);
            assert(o[3].0 == "ts"@);
            lemma_entry(o, 0, 0, "type"@);
            lemma_entry(o, 0, 1, "id"@);
            lemma_entry(o, 0, 2, "detail"@);
            lemma_entry(o, 0, 3, "ts"@);
        },
        SessionEvent::TurnFinished { .. } => {
            reveal_strlit("type");
            reveal_strlit("id");
            reveal_strlit("ts");
            assert("id"@[0] != "ts"@[0]);
            assert(o[0].0 == "type"@);
            assert(o[1].0 == "id"@);
            assert(o[2].0 == "ts"@);
            lemma_entry(o, 0, 0, "type"@);
            lemma_entry(o, 0, 1, "id"@);
            lemma_entry(o, 0, 2, "ts"@);
        },
        SessionEvent::MemoryRecall { .. } => {
            reveal_strlit("type");
            reveal_strlit("id");
            reveal_strlit("ids");
            reveal_strlit("ts");
            assert("id"@[0] != "ts"@[0]);
            assert(o[0].0 == "type"@);
            assert(o[1].0 == "id"@);
            assert(o[2].0 == "ids"@);
            assert(o[3].0 == "ts"@);
            lemma_entry(o, 0, 0, "type"@);
            lemma_entry(o, 0, 1, "id"@);
            lemma_entry(o, 0, 3, "ts"@);
        },
    }
}

/// A result travels with its text and its markers where they fit, and says that
/// nothing was cut; where they do not, it says that it was cut, and what it has of
/// the text is its beginning.
pub proof fn law_a_result_travels_with_its_text(event: SessionEvent, outlook: Outlook)
    requires
        event is ToolResult,
    ensures
        ({
            let whole = event->ToolResult_content@ + event->ToolResult_markers@;
            let o = event_json(event, outlook);
            let max = MAX_DETAIL_CHARS;
            &&& value_at(o, "text"@) is Some
            &&& value_at(o, "text"@)->0 is Text
            &&& whole.len() < max ==> value_at(o, "text"@) == Some(JsonView::Text(whole))
                && value_at(o, "truncated"@) == Some(JsonView::Bool(false))
            &&& whole.len() > max ==> {
                let shown = value_at(o, "text"@)->0->Text_0;
                &&& value_at(o, "truncated"@) == Some(JsonView::Bool(true))
                &&& shown.len() == max
                &&& forall|i: int| 0 <= i < max - 19 ==> #[trigger] shown[i] == whole[i]
            }
        }),
{
    let o = event_json(event, outlook)->Object_0;
    reveal_strlit("type");
    reveal_strlit("id");
    reveal_strlit("tool_use_id");
    reveal_strlit("is_error");
    reveal_strlit("truncated");
    reveal_strlit("text");
    reveal_strlit("images");
    reveal_strlit("child_session_id");
    reveal_strlit("ts");
    assert("type"@[1] != "text"@[1]);
    assert("id"@[0] != "ts"@[0]);
    assert(o[0].0 == "type"@);
    assert(o[1].0 == "id"@);
    assert(o[2].0 == "tool_use_id"@);
    assert(o[3].0 == "is_error"@);
    assert(o[4].0 == "truncated"@);
    assert(o[5].0 == "text"@);
    assert(o[6].0 == "images"@);
    assert(o[7].0 == "child_session_id"@);
    assert(o[8].0 == "ts"@);
    lemma_entry(o, 0, 4, "truncated"@);
    lemma_entry(o, 0, 5, "text"@);
    reveal_strlit("\n… output truncated");
    let whole = event->ToolResult_content@ + event->ToolResult_markers@;
    let max = MAX_DETAIL_CHARS as nat;
    let shown = bounded(whole, max);
    if whole.len() > max {
        let n = max - cut_mark().len();
        assert(shown.subrange(shown.len() - cut_mark().len(), shown.len() as int) =~= cut_mark());
        assert(ends(shown, cut_mark()));
        assert(n == max - 19);
    }
}

/// A block of a message travels under its type with its text; a call with its name,
/// its input in one line and in full, and the agent that it starts, if any.
pub proof fn law_a_block_travels_as_it_is(block: ContentBlock, outlook: Outlook)
    ensures
        match block {
            ContentBlock::Text { text } => block_json(block, outlook) matches Some(o)
                && value_at(o, "type"@) == Some(JsonView::Text("text"@)) && value_at(o, "text"@)
                == Some(JsonView::Text(text@)),
            ContentBlock::ReasoningSummary { text, completed } => completed ==> (block_json(
                block,
                outlook,
            ) matches Some(o) && value_at(o, "type"@) == Some(
                JsonView::Text("reasoning_summary"@),
            ) && value_at(o, "text"@) == Some(JsonView::Text(text@))),
            ContentBlock::Diagnostic { text, turn_error } => turn_error ==> (block_json(
                block,
                outlook,
            ) matches Some(o) && value_at(o, "type"@) == Some(JsonView::Text("diagnostic"@))
                && value_at(o, "text"@) == Some(JsonView::Text(text@))),
            ContentBlock::ToolCall { id, name, input } => block_json(block, outlook) matches Some(
                o,
            ) && {
                &&& value_at(o, "type"@) == Some(JsonView::Text("tool_call"@))
                &&& value_at(o, "id"@) == Some(JsonView::Text(id@))
                &&& value_at(o, "name"@) == Some(JsonView::Text(name@))
                &&& value_at(o, "detail"@) == Some(JsonView::Text(input.detail@))
                &&& value_at(o, "diff"@) is Some
                &&& name@ != "task"@ ==> {
                    &&& value_at(o, "summary"@) == Some(JsonView::Text(input.summary@))
                    &&& value_at(o, "agent"@) == Some(JsonView::Null)
                }
                &&& name@ == "task"@ && input.task is Some ==> {
                    let task = input.task->0;
                    &&& value_at(o, "summary"@) == Some(JsonView::Text(task.description@))
                    &&& value_at(o, "agent"@) matches Some(agent)
                    &&& value_at(agent, "name"@) == Some(JsonView::Text(task.agent@))
                    &&& value_at(agent, "model"@) == Some(match task.model {
                        Some(model) => JsonView::Text(model@),
                        None => JsonView::Null,
                    })
                }
                &&& value_at(o, "state"@) == Some(match outlook {
                    Outlook::Alone => JsonView::Text("running"@),
                    Outlook::Whole { events, live } => call_state(events, live, id@),
                })
            },
            _ => true,
        },
{
    match block {
        ContentBlock::ToolCall { id, name, input } => {
            let o = block_json(block, outlook)->0->Object_0;
            reveal_strlit("type");
            reveal_strlit("id");
            reveal_strlit("name");
            reveal_strlit("summary");
            reveal_strlit("detail");
            reveal_strlit("agent");
            reveal_strlit("state");
            reveal_strlit("diff");
            assert("type"@[0] != "name"@[0]);
            assert("type"@[0] != "diff"@[0]);
            assert("name"@[0] != "diff"@[0]);
            assert("agent"@[0] != "state"@[0]);
            assert(o[0].0 == "type"@);
            assert(o[1].0 == "id"@);
            assert(o[2].0 == "name"@);
            assert(o[3].0 == "summary"@);
            assert(o[4].0 == "detail"@);
            assert(o[5].0 == "agent"@);
            assert(o[6].0 == "state"@);
            assert(o[7].0 == "diff"@);
            lemma_entry(o, 0, 0, "type"@);
            lemma_entry(o, 0, 1, "id"@);
            lemma_entry(o, 0, 2, "name"@);
            lemma_entry(o, 0, 3, "summary"@);
            lemma_entry(o, 0, 4, "detail"@);
            lemma_entry(o, 0, 5, "agent"@);
            lemma_entry(o, 0, 6, "state"@);
            lemma_entry(o, 0, 7, "diff"@);
            if name@ == "task"@ && input.task is Some {
                let agent = o[5].1->Object_0;
                reveal_strlit("name");
                reveal_strlit("model");
                assert(agent[0].0 == "name"@);
                assert(agent[1].0 == "model"@);
                lemma_entry(agent, 0, 0, "name"@);
                lemma_entry(agent, 0, 1, "model"@);
            }
        },
        ContentBlock::Text { .. } => {
            let o = block_json(block, outlook)->0->Object_0;
            reveal_strlit("type");
            reveal_strlit("text");
            assert("type"@[1] != "text"@[1]);
            assert(o[0].0 == "type"@);
            assert(o[1].0 == "text"@);
            lemma_entry(o, 0, 0, "type"@);
            lemma_entry(o, 0, 1, "text"@);
        },
        ContentBlock::ReasoningSummary { completed, .. } => {
            if completed {
                let o = block_json(block, outlook)->0->Object_0;
                reveal_strlit("type");
                reveal_strlit("text");
                assert("type"@[1] != "text"@[1]);
                assert(o[0].0 == "type"@);
                assert(o[1].0 == "text"@);
                lemma_entry(o, 0, 0, "type"@);
                lemma_entry(o, 0, 1, "text"@);
            }
        },
        ContentBlock::Diagnostic { turn_error, .. } => {
            if turn_error {
                let o = block_json(block, outlook)->0->Object_0;
                reveal_strlit("type");
                reveal_strlit("text");
                assert("type"@[1] != "text"@[1]);
                assert(o[0].0 == "type"@);
                assert(o[1].0 == "text"@);
                lemma_entry(o, 0, 0, "type"@);
                lemma_entry(o, 0, 1, "text"@);
            }
        },
        _ => {},
    }
}

/// The blocks of a message travel in order: a message with one more block has what
/// the shorter one has, and what is shown of that block behind it.
pub proof fn law_blocks_travel_in_order(
    shorter: SessionEvent,
    longer: SessionEvent,
    block: ContentBlock,
    outlook: Outlook,
)
    requires
        shorter is AssistantMessage,
        longer is AssistantMessage,
        longer->AssistantMessage_content@ == shorter->AssistantMessage_content@.push(block),
    ensures
        ({
            let a = value_at(event_json(shorter, outlook), "content"@);
            let b = value_at(event_json(longer, outlook), "content"@);
            &&& a is Some
            &&& a->0 is Array
            &&& b == Some(
                JsonView::Array(
                    match block_json(block, outlook) {
                        Some(shown) => a->0->Array_0.push(shown),
                        None => a->0->Array_0,
                    },
                ),
            )
            &&& shorter->AssistantMessage_content@.len() == 0 ==> a->0->Array_0.len() == 0
        }),
{
    let few = shorter->AssistantMessage_content@;
    let more = longer->AssistantMessage_content@;
    lemma_blocks_prefix(few, more, few.len() as int, outlook);
    let o = event_json(shorter, outlook)->Object_0;
    let p = event_json(longer, outlook)->Object_0;
    reveal_strlit("type");
    reveal_strlit("id");
    reveal_strlit("model");
    reveal_strlit("stop_reason");
    reveal_strlit("usage");
    reveal_strlit("content");
    reveal_strlit("ts");
    assert("id"@[0] != "ts"@[0]);
    assert("model"@[0] != "usage"@[0]);
    assert(o[0].0 == "type"@);
    assert(o[1].0 == "id"@);
    assert(o[2].0 == "model"@);
    assert(o[3].0 == "stop_reason"@);
    assert(o[4].0 == "usage"@);
    assert(o[5].0 == "content"@);
    assert(o[6].0 == "ts"@);
    lemma_entry(o, 0, 5, "content"@);
    assert forall|k: int| 0 <= k < 7 implies (#[trigger] p[k]).0 == o[k].0 by {}
    lemma_entry(p, 0, 5, "content"@);
}

proof fn lemma_blocks_prefix(
    few: Seq<ContentBlock>,
    more: Seq<ContentBlock>,
    n: int,
    outlook: Outlook,
)
    requires
        0 <= n <= few.len() <= more.len(),
        forall|i: int| 0 <= i < few.len() ==> more[i] == #[trigger] few[i],
    ensures
        blocks_json(few, n, outlook) == blocks_json(more, n, outlook),
    decreases n,
{
    if n > 0 {
        lemma_blocks_prefix(few, more, n - 1, outlook);
        assert(more[n - 1] == few[n - 1]);
    }
}

/// A line of a diff travels under its kind with its text.
pub proof fn law_a_diff_line_travels_under_its_kind(line: DiffView)
    ensures
        value_at(diff_json(line), "text"@) == Some(JsonView::Text(line.text)),
        value_at(diff_json(line), "kind"@) == Some(
            JsonView::Text(
                match line.kind {
                    DiffKind::Added => "add"@,
                    DiffKind::Removed => "del"@,
                    DiffKind::Context => "ctx"@,
                },
            ),
        ),
{
    let o = diff_json(line)->Object_0;
    reveal_strlit("kind");
    reveal_strlit("text");
    assert("kind"@[0] != "text"@[0]);
    assert(o[0].0 == "kind"@);
    assert(o[1].0 == "text"@);
    lemma_entry(o, 0, 0, "kind"@);
    lemma_entry(o, 0, 1, "text"@);
}

/// What a call other than a write changes travels line by line, and a call that
/// changes nothing has no diff.
pub proof fn law_a_diff_travels_line_by_line(name: Seq<char>, input: ToolInput)
    requires
        name != "write"@,
    ensures
        input.diff@.len() == 0 ==> diff_of(name, input) is Null,
        input.diff@.len() > 0 ==> {
            &&& diff_of(name, input) is Array
            &&& diff_of(name, input)->Array_0.len() == input.diff@.len()
            &&& forall|i: int|
                0 <= i < input.diff@.len() ==> #[trigger] diff_of(name, input)->Array_0[i]
                    == diff_json(input.diff@[i]@)
        },
{
    assert(views(input.diff@).len() == input.diff@.len());
    assert forall|i: int| 0 <= i < input.diff@.len() implies views(input.diff@)[i]
        == #[trigger] input.diff@[i]@ by {}
}

/// Tokens travel under what they were spent on.
pub proof fn law_tokens_travel_under_their_names(usage: Usage)
    ensures
        ({
            let o = JsonView::Object(usage_json(usage));
            &&& value_at(o, "input"@) == Some(JsonView::Number(usage.input_tokens))
            &&& value_at(o, "output"@) == Some(JsonView::Number(usage.output_tokens))
            &&& value_at(o, "cache_read"@) == Some(
                JsonView::Number(usage.cache_read_input_tokens),
            )
            &&& value_at(o, "cache_creation"@) == Some(
                JsonView::Number(usage.cache_creation_input_tokens),
            )
        }),
{
    let o = usage_json(usage);
    reveal_strlit("input");
    reveal_strlit("output");
    reveal_strlit("cache_read");
    reveal_strlit("cache_creation");
    assert(o[0].0 == "input"@);
    assert(o[1].0 == "output"@);
    assert(o[2].0 == "cache_read"@);
    assert(o[3].0 == "cache_creation"@);
    lemma_entry(o, 0, 0, "input"@);
    lemma_entry(o, 0, 1, "output"@);
    lemma_entry(o, 0, 2, "cache_read"@);
    lemma_entry(o, 0, 3, "cache_creation"@);
}

/// A session's totals are the sums of its steps, and say that a plan pays exactly
/// where a step has no price and a plan does pay.
pub proof fn law_totals_say_what_was_spent(events: Seq<SessionEvent>, plan_billed: bool)
    ensures
        ({
            let o = totals_json(events, plan_billed);
            let spent = spend_upto(events, events.len() as int);
            &&& value_at(o, "input"@) == Some(JsonView::Number(spent.0.input_tokens))
            &&& value_at(o, "output"@) == Some(JsonView::Number(spent.0.output_tokens))
            &&& value_at(o, "cache_read"@) == Some(
                JsonView::Number(spent.0.cache_read_input_tokens),
            )
            &&& value_at(o, "cache_creation"@) == Some(
                JsonView::Number(spent.0.cache_creation_input_tokens),
            )
            &&& plan_billed && !spent.1 <==> value_at(o, "plan"@) == Some(JsonView::Bool(true))
        }),
{
    let o = totals_json(events, plan_billed)->Object_0;
    reveal_strlit("input");
    reveal_strlit("output");
    reveal_strlit("cache_read");
    reveal_strlit("cache_creation");
    assert(o[0].0 == "input"@);
    assert(o[1].0 == "output"@);
    assert(o[2].0 == "cache_read"@);
    assert(o[3].0 == "cache_creation"@);
    lemma_entry(o, 0, 0, "input"@);
    lemma_entry(o, 0, 1, "output"@);
    lemma_entry(o, 0, 2, "cache_read"@);
    lemma_entry(o, 0, 3, "cache_creation"@);
    reveal_strlit("plan");
    if o.len() == 5 {
        assert(o[4].0 == "plan"@);
        lemma_entry(o, 0, 4, "plan"@);
    } else {
        lemma_no_entry(o, 0, "plan"@);
    }
}

proof fn lemma_no_entry(o: Seq<(Seq<char>, JsonView)>, from: int, key: Seq<char>)
    requires
        0 <= from <= o.len(),
        forall|k: int| from <= k < o.len() ==> (#[trigger] o[k]).0 != key,
    ensures
        entry_from(o, from, key) == o.len(),
    decreases o.len() - from,
{
    if from < o.len() {
        lemma_no_entry(o, from + 1, key);
    }
}

/// What a running step streams travels as it is.
pub proof fn law_a_delta_travels_as_it_is(delta: LiveDelta)
    ensures
        ({
            let o = delta_json(delta);
            match delta {
                LiveDelta::TurnStarted { turn, step } => {
                    &&& value_at(o, "type"@) == Some(JsonView::Text("turn_started"@))
                    &&& value_at(o, "turn"@) == Some(JsonView::Text(turn@))
                    &&& value_at(o, "step"@) == Some(JsonView::Number(step))
                },
                LiveDelta::TextDelta { text } => {
                    &&& value_at(o, "type"@) == Some(JsonView::Text("text_delta"@))
                    &&& value_at(o, "text"@) == Some(JsonView::Text(text@))
                },
                LiveDelta::ThinkingDelta { text } => {
                    &&& value_at(o, "type"@) == Some(JsonView::Text("thinking_delta"@))
                    &&& value_at(o, "text"@) == Some(JsonView::Text(text@))
                },
                LiveDelta::ThinkingBreak => value_at(o, "type"@) == Some(
                    JsonView::Text("thinking_break"@),
                ),
                LiveDelta::ToolStarted { id, name, summary } => {
                    &&& value_at(o, "type"@) == Some(JsonView::Text("tool_started"@))
                    &&& value_at(o, "id"@) == Some(JsonView::Text(id@))
                    &&& value_at(o, "name"@) == Some(JsonView::Text(name@))
                    &&& value_at(o, "summary"@) == Some(JsonView::Text(summary@))
                },
                LiveDelta::ToolFinished { id, ok } => {
                    &&& value_at(o, "type"@) == Some(JsonView::Text("tool_finished"@))
                    &&& value_at(o, "id"@) == Some(JsonView::Text(id@))
                    &&& value_at(o, "ok"@) == Some(JsonView::Bool(ok))
                },
            }
        }),
{
    let o = delta_json(delta)->Object_0;
    match delta {
        LiveDelta::TurnStarted { .. } => {
            reveal_strlit("type");
            reveal_strlit("turn");
            reveal_strlit("step");
            assert("type"@[1] != "turn"@[1]);
            assert("type"@[0] != "step"@[0]);
            assert("turn"@[0] != "step"@[0]);
            assert(o[0].0 == "type"@);
            assert(o[1].0 == "turn"@);
            assert(o[2].0 == "step"@);
            lemma_entry(o, 0, 0, "type"@);
            lemma_entry(o, 0, 1, "turn"@);
            lemma_entry(o, 0, 2, "step"@);
        },
        LiveDelta::TextDelta { .. } | LiveDelta::ThinkingDelta { .. } => {
            reveal_strlit("type");
            reveal_strlit("text");
            assert("type"@[1] != "text"@[1]);
            assert(o[0].0 == "type"@);
            assert(o[1].0 == "text"@);
            lemma_entry(o, 0, 0, "type"@);
            lemma_entry(o, 0, 1, "text"@);
        },
        LiveDelta::ThinkingBreak => {
            reveal_strlit("type");
            assert(o[0].0 == "type"@);
            lemma_entry(o, 0, 0, "type"@);
        },
        LiveDelta::ToolStarted { .. } => {
            reveal_strlit("type");
            reveal_strlit("id");
            reveal_strlit("name");
            reveal_strlit("summary");
            assert("type"@[0] != "name"@[0]);
            assert(o[0].0 == "type"@);
            assert(o[1].0 == "id"@);
            assert(o[2].0 == "name"@);
            assert(o[3].0 == "summary"@);
            lemma_entry(o, 0, 0, "type"@);
            lemma_entry(o, 0, 1, "id"@);
            lemma_entry(o, 0, 2, "name"@);
            lemma_entry(o, 0, 3, "summary"@);
        },
        LiveDelta::ToolFinished { .. } => {
            reveal_strlit("type");
            reveal_strlit("id");
            reveal_strlit("ok");
            assert("id"@[0] != "ok"@[0]);
            assert(o[0].0 == "type"@);
            assert(o[1].0 == "id"@);
            assert(o[2].0 == "ok"@);
            lemma_entry(o, 0, 0, "type"@);
            lemma_entry(o, 0, 1, "id"@);
            lemma_entry(o, 0, 2, "ok"@);
        },
    }
}

/// A row of the listing says of the session what its head says, how it stands, and
/// whether this server runs its turn.
pub proof fn law_a_listed_session_says_what_it_is(entry: EntryView, driven: bool)
    ensures
        ({
            let o = summary_json(entry, driven);
            &&& value_at(o, "driven"@) == Some(JsonView::Bool(driven))
            &&& value_at(o, "id"@) == Some(JsonView::Text(entry.head.id))
            &&& value_at(o, "title"@) == Some(match entry.head.title {
                Some(title) => JsonView::Text(title),
                None => JsonView::Null,
            })
            &&& value_at(o, "cwd"@) == Some(match entry.head.meta.cwd {
                Some(cwd) => JsonView::Text(cwd),
                None => JsonView::Null,
            })
            &&& value_at(o, "agent"@) == Some(JsonView::Text(entry.head.meta.agent))
            &&& value_at(o, "model"@) == Some(JsonView::Text(entry.head.meta.model))
            &&& value_at(o, "parent_id"@) == Some(match entry.head.meta.parent_id {
                Some(parent) => JsonView::Text(parent),
                None => JsonView::Null,
            })
            &&& value_at(o, "modified"@) == Some(stamped(entry.head.modified))
            &&& value_at(o, "state"@) == Some(
                JsonView::Text(
                    match entry.state {
                        LiveState::Idle => "idle"@,
                        LiveState::Working => "working"@,
                        LiveState::Stalled => "stalled"@,
                    },
                ),
            )
            &&& value_at(o, "activity"@) == Some(match entry.activity {
                Some(activity) => JsonView::Text(activity),
                None => JsonView::Null,
            })
        }),
{
    let o = summary_json(entry, driven)->Object_0;
    reveal_strlit("driven");
    reveal_strlit("id");
    reveal_strlit("title");
    reveal_strlit("cwd");
    reveal_strlit("agent");
    reveal_strlit("model");
    reveal_strlit("context_limit");
    reveal_strlit("parent_id");
    reveal_strlit("modified");
    reveal_strlit("state");
    reveal_strlit("activity");
    assert("title"@[0] != "agent"@[0]);
    assert("title"@[0] != "model"@[0]);
    assert("title"@[0] != "state"@[0]);
    assert("agent"@[0] != "model"@[0]);
    assert("agent"@[0] != "state"@[0]);
    assert("model"@[0] != "state"@[0]);
    assert("modified"@[0] != "activity"@[0]);
    assert(o[0].0 == "driven"@);
    assert(o[1].0 == "id"@);
    assert(o[2].0 == "title"@);
    assert(o[3].0 == "cwd"@);
    assert(o[4].0 == "agent"@);
    assert(o[5].0 == "model"@);
    assert(o[6].0 == "context_limit"@);
    assert(o[7].0 == "parent_id"@);
    assert(o[8].0 == "modified"@);
    assert(o[9].0 == "state"@);
    assert(o[10].0 == "activity"@);
    lemma_entry(o, 0, 0, "driven"@);
    lemma_entry(o, 0, 1, "id"@);
    lemma_entry(o, 0, 2, "title"@);
    lemma_entry(o, 0, 3, "cwd"@);
    lemma_entry(o, 0, 4, "agent"@);
    lemma_entry(o, 0, 5, "model"@);
    lemma_entry(o, 0, 6, "context_limit"@);
    lemma_entry(o, 0, 7, "parent_id"@);
    lemma_entry(o, 0, 8, "modified"@);
    lemma_entry(o, 0, 9, "state"@);
    lemma_entry(o, 0, 10, "activity"@);
}

/// Pictures are described one by one: each by its place, its type and its size.
pub proof fn law_each_picture_is_described(images: Seq<ImageContent>, n: int)
    requires
        0 <= n < images.len() <= usize::MAX,
    ensures
        descriptors(images) is Array,
        descriptors(images)->Array_0.len() == images.len(),
        ({
            let o = descriptors(images)->Array_0[n];
            &&& value_at(o, "n"@) == Some(JsonView::Number(n as u64))
            &&& value_at(o, "media_type"@) == Some(JsonView::Text(images[n].media_type@))
            &&& value_at(o, "bytes"@) == Some(JsonView::Number(images[n].bytes))
        }),
{
    let o = descriptors(images)->Array_0[n]->Object_0;
    reveal_strlit("n");
    reveal_strlit("media_type");
    reveal_strlit("bytes");
    assert(o[0].0 == "n"@);
    assert(o[1].0 == "media_type"@);
    assert(o[2].0 == "bytes"@);
    lemma_entry(o, 0, 0, "n"@);
    lemma_entry(o, 0, 1, "media_type"@);
    lemma_entry(o, 0, 2, "bytes"@);
}

/// Of a call that the session answers a row says nothing, its result speaks. Of one
/// that it makes and does not answer a row says that it runs while something runs
/// the session, and else that it failed, unless it asks the reader. A question that
/// alone stands open waits.
pub proof fn law_a_row_says_how_its_call_stands(
    events: Seq<SessionEvent>,
    live: bool,
    c: Seq<char>,
    i: int,
    k: int,
)
    requires
        0 <= i < events.len(),
        calls_at(events[i], k, c),
    ensures
        (exists|j: int|
            0 <= j < events.len() && (#[trigger] events[j]) is ToolResult
                && events[j]->ToolResult_tool_use_id@ == c) ==> call_state(
            events,
            live,
            c,
        ) is Null,
        (forall|j: int|
            0 <= j < events.len() && (#[trigger] events[j]) is ToolResult
                ==> events[j]->ToolResult_tool_use_id@ != c) ==> {
            &&& live ==> call_state(events, live, c) == JsonView::Text("running"@)
            &&& !live && (forall|a: int, b: int|
                0 <= a < events.len() && #[trigger] calls_at(events[a], b, c)
                    ==> events[a]->AssistantMessage_content@[b]->ToolCall_name@ != "question"@)
                ==> call_state(events, live, c) == JsonView::Text("failed"@)
            &&& (forall|a: int, b: int, other: Seq<char>|
                0 <= a < events.len() && #[trigger] calls_at(events[a], b, other) ==> other == c)
                && events[i]->AssistantMessage_content@[k]->ToolCall_name@ == "question"@
                ==> call_state(events, live, c) == JsonView::Text("running"@)
        },
{
    let block = events[i]->AssistantMessage_content@[k];
    assert(is_call(block, c));
    assert(makes_call(events[i], c));
    if exists|j: int|
        0 <= j < events.len() && (#[trigger] events[j]) is ToolResult
            && events[j]->ToolResult_tool_use_id@ == c {
        let j = choose|j: int|
            0 <= j < events.len() && (#[trigger] events[j]) is ToolResult
                && events[j]->ToolResult_tool_use_id@ == c;
        assert(answers(events[j], c));
    } else {
        assert(!is_answered(events, c)) by {
            if is_answered(events, c) {
                let j = choose|j: int| 0 <= j < events.len() && #[trigger] answers(events[j], c);
                assert(events[j] is ToolResult);
            }
        }
        assert(unanswered(events, c));
        if !live && (forall|a: int, b: int|
            0 <= a < events.len() && #[trigger] calls_at(events[a], b, c)
                ==> events[a]->AssistantMessage_content@[b]->ToolCall_name@ != "question"@) {
            assert(!waits_for(events, c)) by {
                if waits_for(events, c) {
                    let a = choose|a: int| 0 <= a < events.len() && #[trigger] asks(events[a], c);
                    let content = events[a]->AssistantMessage_content@;
                    let b = choose|b: int|
                        0 <= b < content.len() && #[trigger] is_question(content[b], c);
                    assert(calls_at(events[a], b, c));
                }
            }
        }
        if (forall|a: int, b: int, other: Seq<char>|
            0 <= a < events.len() && #[trigger] calls_at(events[a], b, other) ==> other == c)
            && events[i]->AssistantMessage_content@[k]->ToolCall_name@ == "question"@ {
            assert(is_question(block, c));
            assert(asks(events[i], c));
            assert forall|other: Seq<char>| #[trigger] unanswered(events, other) implies other
                == c by {
                let a = choose|a: int|
                    0 <= a < events.len() && #[trigger] makes_call(events[a], other);
                let content = events[a]->AssistantMessage_content@;
                let b = choose|b: int|
                    0 <= b < content.len() && #[trigger] is_call(content[b], other);
                assert(calls_at(events[a], b, other));
            }
            assert(waits_for(events, c));
        }
    }
}

/// The whole result of a call is the content of the first result that the session
/// recorded for it, and there is none exactly where it recorded none.
pub proof fn law_a_whole_result_is_the_recorded_one(
    events: Seq<SessionEvent>,
    i: int,
    c: Seq<char>,
)
    requires
        0 <= i,
    ensures
        match result_from(events, i, c) {
            Some(text) => exists|j: int|
                {
                    &&& i <= j < events.len()
                    &&& (#[trigger] events[j]) is ToolResult
                    &&& events[j]->ToolResult_tool_use_id@ == c
                    &&& events[j]->ToolResult_content@ == text
                    &&& forall|a: int|
                        i <= a < j && (#[trigger] events[a]) is ToolResult
                            ==> events[a]->ToolResult_tool_use_id@ != c
                },
            None => forall|a: int|
                i <= a < events.len() && (#[trigger] events[a]) is ToolResult
                    ==> events[a]->ToolResult_tool_use_id@ != c,
        },
    decreases events.len() - i,
{
    if i < events.len() {
        if events[i] is ToolResult && events[i]->ToolResult_tool_use_id@ == c {
            assert(events[i] is ToolResult);
        } else {
            law_a_whole_result_is_the_recorded_one(events, i + 1, c);
            if result_from(events, i + 1, c) is Some {
                let text = result_from(events, i + 1, c)->0;
                let j = choose|j: int|
                    {
                        &&& i + 1 <= j < events.len()
                        &&& (#[trigger] events[j]) is ToolResult
                        &&& events[j]->ToolResult_tool_use_id@ == c
                        &&& events[j]->ToolResult_content@ == text
                        &&& forall|a: int|
                            i + 1 <= a < j && (#[trigger] events[a]) is ToolResult
                                ==> events[a]->ToolResult_tool_use_id@ != c
                    };
                assert(events[j] is ToolResult);
            }
        }
    }
}

/// The turn that a call started is what lies between the invocation that names the
/// call, the first one, and the next invocation of any.
pub proof fn law_a_turn_lies_between_invocations(
    events: Seq<SessionEvent>,
    c: Seq<char>,
    s: int,
    e: int,
)
    requires
        0 <= s < e <= events.len(),
        events[s] is SubagentInvocation,
        events[s]->SubagentInvocation_parent_tool_call_id@ == c,
        forall|a: int|
            0 <= a < s && (#[trigger] events[a]) is SubagentInvocation
                ==> events[a]->SubagentInvocation_parent_tool_call_id@ != c,
        forall|a: int| s < a < e ==> !((#[trigger] events[a]) is SubagentInvocation),
        e == events.len() || events[e] is SubagentInvocation,
    ensures
        turn_of(events, c) == events.subrange(s + 1, e),
        view_bounds(events, Some(c)) == Some((s + 1, e)),
{
    lemma_first_invocation(events, 0, c, s);
    lemma_next(events, s + 1, e);
}

proof fn lemma_first_invocation(events: Seq<SessionEvent>, i: int, c: Seq<char>, s: int)
    requires
        0 <= i <= s < events.len(),
        events[s] is SubagentInvocation,
        events[s]->SubagentInvocation_parent_tool_call_id@ == c,
        forall|a: int|
            0 <= a < s && (#[trigger] events[a]) is SubagentInvocation
                ==> events[a]->SubagentInvocation_parent_tool_call_id@ != c,
    ensures
        invocation_from(events, i, c) == s,
    decreases s - i,
{
    if i < s {
        lemma_first_invocation(events, i + 1, c, s);
    }
}

proof fn lemma_next(events: Seq<SessionEvent>, i: int, e: int)
    requires
        0 <= i <= e <= events.len(),
        forall|a: int| i <= a < e ==> !((#[trigger] events[a]) is SubagentInvocation),
        e == events.len() || events[e] is SubagentInvocation,
    ensures
        next_invocation(events, i) == e,
    decreases e - i,
{
    if i < e {
        lemma_next(events, i + 1, e);
    }
}

/// A session bills against the model that it switched to last.
pub proof fn law_the_last_switch_is_billed(events: Seq<SessionEvent>, i: int)
    requires
        0 <= i < events.len(),
        events[i] is ModelChange,
        forall|a: int| i < a < events.len() ==> !((#[trigger] events[a]) is ModelChange),
    ensures
        billed_model(events) == events[i]->ModelChange_model@,
{
    lemma_switched(events, i, events.len() as int);
}

proof fn lemma_switched(events: Seq<SessionEvent>, i: int, n: int)
    requires
        0 <= i < n <= events.len(),
        events[i] is ModelChange,
        forall|a: int| i < a < events.len() ==> !((#[trigger] events[a]) is ModelChange),
    ensures
        switched_to(events, n) == Some(events[i]->ModelChange_model@),
    decreases n,
{
    if n - 1 > i {
        assert(!(events[n - 1] is ModelChange));
        lemma_switched(events, i, n - 1);
    }
}

/// What hangs on an event travels with it: the pictures of a message and whether it is
/// a report, the tokens and the blocks of what the model said, the pictures of a
/// result, and which notes were recalled.
pub proof fn law_what_hangs_on_an_event_travels(event: SessionEvent, outlook: Outlook)
    ensures
        ({
            let o = event_json(event, outlook);
            match event {
                SessionEvent::UserMessage { text, images, .. } => {
                    &&& value_at(o, "images"@) == Some(descriptors(images@))
                    &&& value_at(o, "notification"@) == Some(notice_json(text@))
                },
                SessionEvent::AssistantMessage { usage, content, .. } => {
                    &&& value_at(o, "usage"@) == Some(JsonView::Object(usage_json(usage)))
                    &&& value_at(o, "content"@) == Some(
                        JsonView::Array(blocks_json(content@, content@.len() as int, outlook)),
                    )
                },
                SessionEvent::ToolResult { images, .. } => value_at(o, "images"@) == Some(
                    descriptors(images@),
                ),
                SessionEvent::MemoryRecall { ids, .. } => {
                    let told = value_at(o, "ids"@);
                    &&& told is Some
                    &&& told->0 is Array
                    &&& told->0->Array_0.len() == ids@.len()
                    &&& forall|i: int|
                        0 <= i < ids@.len() ==> #[trigger] told->0->Array_0[i] == JsonView::Text(
                            ids@[i]@,
                        )
                },
                _ => true,
            }
        }),
{
    let o = event_json(event, outlook)->Object_0;
    match event {
        SessionEvent::UserMessage { .. } => {
            reveal_strlit("type");
            reveal_strlit("id");
            reveal_strlit("text");
            reveal_strlit("images");
            reveal_strlit("notification");
            reveal_strlit("ts");
            assert("type"@[1] != "text"@[1]);
            assert("id"@[0] != "ts"@[0]);
            assert(o[0].0 == "type"@);
            assert(o[1].0 == "id"@);
            assert(o[2].0 == "text"@);
            assert(o[3].0 == "images"@);
            assert(o[4].0 == "notification"@);
            assert(o[5].0 == "ts"@);
            lemma_entry(o, 0, 3, "images"@);
            lemma_entry(o, 0, 4, "notification"@);
        },
        SessionEvent::AssistantMessage { .. } => {
            reveal_strlit("type");
            reveal_strlit("id");
            reveal_strlit("model");
            reveal_strlit("stop_reason");
            reveal_strlit("usage");
            reveal_strlit("content");
            reveal_strlit("ts");
            assert("id"@[0] != "ts"@[0]);
            assert("model"@[0] != "usage"@[0]);
            assert(o[0].0 == "type"@);
            assert(o[1].0 == "id"@);
            assert(o[2].0 == "model"@);
            assert(o[3].0 == "stop_reason"@);
            assert(o[4].0 == "usage"@);
            assert(o[5].0 == "content"@);
            assert(o[6].0 == "ts"@);
            lemma_entry(o, 0, 4, "usage"@);
            lemma_entry(o, 0, 5, "content"@);
        },
        SessionEvent::ToolResult { .. } => {
            reveal_strlit("type");
            reveal_strlit("id");
            reveal_strlit("tool_use_id");
            reveal_strlit("is_error");
            reveal_strlit("truncated");
            reveal_strlit("text");
            reveal_strlit("images");
            reveal_strlit("child_session_id");
            reveal_strlit("ts");
            assert("type"@[1] != "text"@[1]);
            assert("id"@[0] != "ts"@[0]);
            assert(o[0].0 == "type"@);
            assert(o[1].0 == "id"@);
            assert(o[2].0 == "tool_use_id"@);
            assert(o[3].0 == "is_error"@);
            assert(o[4].0 == "truncated"@);
            assert(o[5].0 == "text"@);
            assert(o[6].0 == "images"@);
            assert(o[7].0 == "child_session_id"@);
            assert(o[8].0 == "ts"@);
            lemma_entry(o, 0, 6, "images"@);
        },
        SessionEvent::MemoryRecall { .. } => {
            reveal_strlit("type");
            reveal_strlit("id");
            reveal_strlit("ids");
            reveal_strlit("ts");
            assert("id"@[0] != "ts"@[0]);
            assert(o[0].0 == "type"@);
            assert(o[1].0 == "id"@);
            assert(o[2].0 == "ids"@);
            assert(o[3].0 == "ts"@);
            lemma_entry(o, 0, 2, "ids"@);
        },
        _ => {},
    }
}

proof fn lemma_first_feed(s: Seq<char>, feed: Seq<char>, i: int, at: int)
    requires
        0 <= i <= at < s.len(),
        feed == seq!['\n'],
        s[at] == '\n',
        forall|k: int| i <= k < at ==> s[k] != '\n',
    ensures
        search(s, feed, i) == at,
    decreases at - i,
{
    if stands_at(s, feed, i) {
        assert(s.subrange(i, i + 1)[0] == feed[0]);
    }
    if i < at {
        lemma_first_feed(s, feed, i + 1, at);
    } else {
        assert(s.subrange(i, i + 1) =~= feed);
    }
}

/// A message that is no report has no notification. A report is told as what it is,
/// its first line as the headline and the rest as the body.
pub proof fn law_a_report_travels_in_two_parts(text: Seq<char>, head: Seq<char>, body: Seq<char>)
    requires
        forall|i: int| 0 <= i < head.len() ==> head[i] != '\n',
    ensures
        task_notice(text) is None && job_notice(text) is None ==> notice_json(text) is Null,
        task_notice(text) == Some(head + seq!['\n'] + body) ==> {
            &&& value_at(notice_json(text), "kind"@) == Some(JsonView::Text("task"@))
            &&& value_at(notice_json(text), "headline"@) == Some(JsonView::Text(head))
            &&& value_at(notice_json(text), "body"@) == Some(JsonView::Text(body))
        },
        task_notice(text) is None && job_notice(text) == Some(head + seq!['\n'] + body) ==> {
            &&& value_at(notice_json(text), "kind"@) == Some(JsonView::Text("job"@))
            &&& value_at(notice_json(text), "headline"@) == Some(JsonView::Text(head))
            &&& value_at(notice_json(text), "body"@) == Some(JsonView::Text(body))
        },
{
    let shown = head + seq!['\n'] + body;
    reveal_strlit("\n");
    assert("\n"@ =~= seq!['\n']);
    lemma_first_feed(shown, "\n"@, 0, head.len() as int);
    assert(shown.take(head.len() as int) =~= head);
    assert(shown.skip(head.len() as int + 1) =~= body);
    if notice_json(text) is Object {
        let o = notice_json(text)->Object_0;
        reveal_strlit("kind");
        reveal_strlit("headline");
        reveal_strlit("body");
        assert("kind"@[0] != "body"@[0]);
        assert(o[0].0 == "kind"@);
        assert(o[1].0 == "headline"@);
        assert(o[2].0 == "body"@);
        lemma_entry(o, 0, 0, "kind"@);
        lemma_entry(o, 0, 1, "headline"@);
        lemma_entry(o, 0, 2, "body"@);
    }
}

/// What a call writes to a file is drawn as lines that are added, each as it is.
pub proof fn law_what_is_written_is_added(input: ToolInput, a: Seq<char>, b: Seq<char>)
    requires
        opt_text(input.content) == Some(a + seq!['\n'] + b),
        byte_len(a + seq!['\n'] + b) <= MAX_WRITE_DIFF_BYTES,
        b.len() > 0,
        forall|i: int| 0 <= i < a.len() ==> a[i] != '\n' && a[i] != '\r',
        forall|i: int| 0 <= i < b.len() ==> b[i] != '\n' && b[i] != '\r',
    ensures
        diff_of("write"@, input) == JsonView::Array(
            seq![
                diff_json(DiffView { kind: DiffKind::Added, text: a }),
                diff_json(DiffView { kind: DiffKind::Added, text: b }),
            ],
        ),
{
    law_a_line_ends_at_its_line_feed(a, b);
    law_a_line_ends_at_its_line_feed(b, a);
    assert(lines(a + seq!['\n'] + b) =~= seq![a, b]);
    assert(diff_of("write"@, input)->Array_0 =~= seq![
        diff_json(DiffView { kind: DiffKind::Added, text: a }),
        diff_json(DiffView { kind: DiffKind::Added, text: b }),
    ]);
}

/// A page says which session it is of, and what that session spent, and a listing has
/// its rows in their order.
pub proof fn law_a_page_says_whose_it_is(
    id: Seq<char>,
    session: Option<(EntryView, bool)>,
    view: Seq<SessionEvent>,
    live: bool,
    bounds: (nat, nat),
    line: u64,
    plan_billed: bool,
    rows: Seq<(EntryView, bool)>,
)
    ensures
        ({
            let page = page_json(id, session, view, live, bounds, line, plan_billed);
            &&& value_at(page, "id"@) == Some(JsonView::Text(id))
            &&& value_at(page, "line"@) == Some(JsonView::Number(line))
            &&& value_at(page, "usage"@) == Some(totals_json(view, plan_billed))
            &&& value_at(page, "session"@) == Some(
                match session {
                    Some((entry, driven)) => summary_json(entry, driven),
                    None => JsonView::Null,
                },
            )
            &&& rows_json(rows) is Array
            &&& rows_json(rows)->Array_0.len() == rows.len()
            &&& forall|i: int|
                0 <= i < rows.len() ==> #[trigger] rows_json(rows)->Array_0[i] == summary_json(
                    rows[i].0,
                    rows[i].1,
                )
        }),
{
    let o = page_json(id, session, view, live, bounds, line, plan_billed)->Object_0;
    reveal_strlit("id");
    reveal_strlit("session");
    reveal_strlit("events");
    reveal_strlit("cursor");
    reveal_strlit("has_more");
    reveal_strlit("count");
    reveal_strlit("line");
    reveal_strlit("usage");
    assert("events"@[0] != "cursor"@[0]);
    assert("count"@[0] != "usage"@[0]);
    assert(o[0].0 == "id"@);
    assert(o[1].0 == "session"@);
    assert(o[2].0 == "events"@);
    assert(o[3].0 == "cursor"@);
    assert(o[4].0 == "has_more"@);
    assert(o[5].0 == "count"@);
    assert(o[6].0 == "line"@);
    assert(o[7].0 == "usage"@);
    lemma_entry(o, 0, 0, "id"@);
    lemma_entry(o, 0, 1, "session"@);
    lemma_entry(o, 0, 6, "line"@);
    lemma_entry(o, 0, 7, "usage"@);
}

} // verus!
