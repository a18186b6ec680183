//! What a session's log holds, one event after the other.

use vstd::prelude::*;
use crate::transcript::model::DiffLine;

verus! {

/// A point in time: whole seconds since 1970 in UTC, and nanoseconds.
#[derive(Clone, Copy, PartialEq, Eq, Structural, Debug)]
pub struct Moment {
    pub seconds: i64,
    pub nanos: u32,
}

/// The tokens of one step.
#[derive(Clone, Copy, PartialEq, Eq, Structural, Debug)]
pub struct Usage {
    pub input_tokens: u64,
    pub output_tokens: u64,
    pub cache_read_input_tokens: u64,
    pub cache_creation_input_tokens: u64,
}

/// No tokens.
pub open spec fn no_usage() -> Usage {
    Usage {
        input_tokens: 0,
        output_tokens: 0,
        cache_read_input_tokens: 0,
        cache_creation_input_tokens: 0,
    }
}

impl Usage {
    pub fn none() -> (r: Usage)
        ensures
            r == no_usage(),
    {
        Usage {
            input_tokens: 0,
            output_tokens: 0,
            cache_read_input_tokens: 0,
            cache_creation_input_tokens: 0,
        }
    }
}

/// An image that travels with a message: its type, its payload in base64, and how
/// many bytes that decodes to.
#[derive(Clone, Debug)]
pub struct ImageContent {
    pub media_type: String,
    pub data: String,
    pub bytes: u64,
}

/// What a task call asks for.
#[derive(Clone, Debug)]
pub struct TaskInput {
    pub description: String,
    pub agent: String,
    pub model: Option<String>,
}

/// A call's input as it is shown: what it asks of an agent where it is a task,
/// its summary, its pretty form, what it changes in a file, and the content it
/// would write. Secrets have been taken out of all but the last.
#[derive(Clone, Debug)]
pub struct ToolInput {
    pub task: Option<TaskInput>,
    pub summary: String,
    pub detail: String,
    pub diff: Vec<DiffLine>,
    pub content: Option<String>,
}

#[derive(Clone, Debug)]
pub enum ContentBlock {
    Text { text: String },
    Image,
    Thinking { text: String },
    Reasoning,
    ReasoningSummary { text: String, completed: bool },
    /// Why a turn stopped, or thinking that is kept locally.
    Diagnostic { text: String, turn_error: bool },
    ToolCall { id: String, name: String, input: ToolInput },
    ToolResult,
}

#[derive(Clone, Debug)]
pub struct SessionMeta {
    pub session_id: String,
    pub parent_id: Option<String>,
    pub agent: String,
    pub model: String,
    pub cwd: Option<String>,
    /// The most input that the model takes, where that is known.
    pub context_limit: Option<u64>,
}

#[derive(Clone, Debug)]
pub enum SessionEvent {
    Meta { meta: SessionMeta, ts: Moment },
    SubagentInvocation { id: String, parent_tool_call_id: String, ts: Moment },
    UserMessage {
        id: String,
        text: String,
        /// The marker lines of what is attached.
        markers: String,
        images: Vec<ImageContent>,
        ts: Moment,
    },
    AssistantMessage {
        id: String,
        model: String,
        content: Vec<ContentBlock>,
        usage: Usage,
        /// The tokens of the context behind this message.
        context_tokens: u64,
        /// Whether the model has a published price.
        priced: bool,
        stop_reason: String,
        ts: Moment,
    },
    ToolResult {
        id: String,
        tool_use_id: String,
        content: String,
        /// The content with the secrets of its call's input taken out.
        redacted: String,
        is_error: bool,
        /// The marker lines of the images in the result.
        markers: String,
        images: Vec<ImageContent>,
        child_session_id: Option<String>,
        ts: Moment,
    },
    Checkpoint { id: String, ts: Moment },
    ModelChange { id: String, model: String, variant: Option<String>, ts: Moment },
    Compaction { id: String, summary: String, kept_from: usize, ts: Moment },
    Topic { id: String, text: String, ts: Moment },
    Rewind { id: String, to: usize, ts: Moment },
    ImageCutoff { id: String, ts: Moment },
    TurnEnded { id: String, detail: String, ts: Moment },
    TurnFinished { id: String, ts: Moment },
    MemoryRecall { id: String, ids: Vec<String>, ts: Moment },
}

/// A session as it was read: its head and its log, the question it waits on, and
/// how many events of the whole log come before these.
#[derive(Debug)]
pub struct SessionLog {
    pub id: String,
    pub meta: Option<SessionMeta>,
    pub events: Vec<SessionEvent>,
    pub pending_question: Option<String>,
    pub event_base: usize,
}

} // verus!
