//! The transcript model: user turns, assistant text, thoughts, tool calls and
//! the activity of the agents they started.

use vstd::prelude::*;
use crate::chars::{group_views, own, views};

verus! {

broadcast use group_views;

/// The view of an optional string.
pub open spec fn opt_text(o: Option<String>) -> Option<Seq<char>> {
    match o {
        Some(s) => Some(s@),
        None => None,
    }
}

pub fn copy_opt(o: &Option<String>) -> (r: Option<String>)
    ensures
        opt_text(r) == opt_text(*o),
{
    match o {
        Some(s) => Some(own(s.as_str())),
        None => None,
    }
}

#[derive(Clone, Copy, PartialEq, Eq, Structural, Debug)]
pub enum ToolState {
    Running,
    Complete,
    Succeeded,
    Failed,
}

#[derive(PartialEq, Eq, Debug)]
pub enum ToolKind {
    Tool,
    Agent {
        name: String,
        /// The model that the call asks for, where it asks for one.
        model: Option<String>,
    },
}

pub enum KindView {
    Tool,
    Agent { name: Seq<char>, model: Option<Seq<char>> },
}

impl View for ToolKind {
    type V = KindView;

    open spec fn view(&self) -> KindView {
        match *self {
            ToolKind::Tool => KindView::Tool,
            ToolKind::Agent { name, model } => KindView::Agent {
                name: name@,
                model: opt_text(model),
            },
        }
    }
}

impl ToolKind {
    pub fn copy(&self) -> (r: ToolKind)
        ensures
            r@ == self@,
    {
        match self {
            ToolKind::Tool => ToolKind::Tool,
            ToolKind::Agent { name, model } => ToolKind::Agent {
                name: own(name.as_str()),
                model: copy_opt(model),
            },
        }
    }
}

/// How far a call has come. Times are milliseconds on one clock.
#[derive(Clone, Copy, PartialEq, Eq, Structural, Debug)]
pub enum ToolProgress {
    Idle,
    Receiving { received_bytes: u64, last_data: u64 },
    Queued,
    Executing { received_bytes: u64, started: u64 },
}

#[derive(Clone, Copy, PartialEq, Eq, Structural, Debug)]
pub enum DiffKind {
    Added,
    Removed,
    Context,
}

#[derive(Clone, PartialEq, Eq, Debug)]
pub struct DiffLine {
    pub kind: DiffKind,
    pub text: String,
}

#[verifier::ext_equal]
pub struct DiffView {
    pub kind: DiffKind,
    pub text: Seq<char>,
}

impl View for DiffLine {
    type V = DiffView;

    open spec fn view(&self) -> DiffView {
        DiffView { kind: self.kind, text: self.text@ }
    }
}

pub fn copy_diff(diff: &Vec<DiffLine>) -> (r: Vec<DiffLine>)
    ensures
        views(r@) == views(diff@),
{
    let mut r: Vec<DiffLine> = Vec::new();
    let mut i: usize = 0;
    while i < diff.len()
        invariant
            i <= diff.len(),
            views(r@) == views(diff@).take(i as int),
        decreases diff.len() - i,
    {
        r.push(DiffLine { kind: diff[i].kind, text: own(diff[i].text.as_str()) });
        i += 1;
        assert(views(r@) =~= views(diff@).take(i as int));
    }
    assert(views(r@) =~= views(diff@));
    r
}

/// A tool call and what it brought.
#[derive(PartialEq, Eq, Debug)]
pub struct ToolRow {
    pub id: String,
    pub group_id: String,
    pub name: String,
    pub kind: ToolKind,
    pub arguments: String,
    pub argument_detail: String,
    pub diff: Vec<DiffLine>,
    /// The last of the output while the tool runs.
    pub tail: String,
    pub result: Option<String>,
    pub state: ToolState,
    pub progress: ToolProgress,
    pub expanded: bool,
    pub full: bool,
    pub child_lines: Vec<Line_>,
    pub child_group: u64,
    pub child_running: bool,
    pub child_session_id: Option<String>,
}

/// A line of the transcript.
#[derive(PartialEq, Eq, Debug)]
pub enum Line_ {
    User(String),
    /// What an agent was told by the session that started it.
    Incoming(String),
    Task { id: String, text: String, expanded: bool },
    Job { id: String, text: String, expanded: bool },
    Note { id: String, text: String, expanded: bool },
    Assistant(String),
    Thought {
        /// What a click names; empty where the thought cannot be expanded.
        id: String,
        text: String,
        complete: bool,
        expanded: bool,
    },
    Tool(ToolRow),
    System(String),
}

#[verifier::ext_equal]
pub struct ToolView {
    pub id: Seq<char>,
    pub group_id: Seq<char>,
    pub name: Seq<char>,
    pub kind: KindView,
    pub arguments: Seq<char>,
    pub argument_detail: Seq<char>,
    pub diff: Seq<DiffView>,
    pub tail: Seq<char>,
    pub result: Option<Seq<char>>,
    pub state: ToolState,
    pub progress: ToolProgress,
    pub expanded: bool,
    pub full: bool,
    pub child_lines: Seq<ItemView>,
    pub child_group: u64,
    pub child_running: bool,
    pub child_session_id: Option<Seq<char>>,
}

#[verifier::ext_equal]
pub enum ItemView {
    User(Seq<char>),
    Incoming(Seq<char>),
    Task { id: Seq<char>, text: Seq<char>, expanded: bool },
    Job { id: Seq<char>, text: Seq<char>, expanded: bool },
    Note { id: Seq<char>, text: Seq<char>, expanded: bool },
    Assistant(Seq<char>),
    Thought { id: Seq<char>, text: Seq<char>, complete: bool, expanded: bool },
    Tool(ToolView),
    System(Seq<char>),
}

/// The view of a line, down to the timelines of its agents.
pub open spec fn item_view(l: Line_) -> ItemView
    decreases l,
{
    match l {
        Line_::User(text) => ItemView::User(text@),
        Line_::Incoming(text) => ItemView::Incoming(text@),
        Line_::Task { id, text, expanded } => ItemView::Task { id: id@, text: text@, expanded },
        Line_::Job { id, text, expanded } => ItemView::Job { id: id@, text: text@, expanded },
        Line_::Note { id, text, expanded } => ItemView::Note { id: id@, text: text@, expanded },
        Line_::Assistant(text) => ItemView::Assistant(text@),
        Line_::Thought { id, text, complete, expanded } => ItemView::Thought {
            id: id@,
            text: text@,
            complete,
            expanded,
        },
        Line_::Tool(t) => ItemView::Tool(
            ToolView {
                id: t.id@,
                group_id: t.group_id@,
                name: t.name@,
                kind: t.kind@,
                arguments: t.arguments@,
                argument_detail: t.argument_detail@,
                diff: views(t.diff@),
                tail: t.tail@,
                result: opt_text(t.result),
                state: t.state,
                progress: t.progress,
                expanded: t.expanded,
                full: t.full,
                child_lines: Seq::new(
                    t.child_lines@.len(),
                    |i: int|
                        if 0 <= i < t.child_lines@.len() {
                            item_view(t.child_lines@[i])
                        } else {
                            arbitrary()
                        },
                ),
                child_group: t.child_group,
                child_running: t.child_running,
                child_session_id: opt_text(t.child_session_id),
            },
        ),
        Line_::System(text) => ItemView::System(text@),
    }
}

impl View for Line_ {
    type V = ItemView;

    open spec fn view(&self) -> ItemView {
        item_view(*self)
    }
}

impl View for ToolRow {
    type V = ToolView;

    open spec fn view(&self) -> ToolView {
        ToolView {
            id: self.id@,
            group_id: self.group_id@,
            name: self.name@,
            kind: self.kind@,
            arguments: self.arguments@,
            argument_detail: self.argument_detail@,
            diff: views(self.diff@),
            tail: self.tail@,
            result: opt_text(self.result),
            state: self.state,
            progress: self.progress,
            expanded: self.expanded,
            full: self.full,
            child_lines: views(self.child_lines@),
            child_group: self.child_group,
            child_running: self.child_running,
            child_session_id: opt_text(self.child_session_id),
        }
    }
}

pub broadcast proof fn lemma_tool_view(t: ToolRow)
    ensures
        #[trigger] item_view(Line_::Tool(t)) == ItemView::Tool(t@),
{
    let v = item_view(Line_::Tool(t))->Tool_0;
    assert(v.child_lines =~= views(t.child_lines@));
}

/// How deep agents are nested below a line.
pub open spec fn depth(l: ItemView) -> nat
    decreases l,
{
    match l {
        ItemView::Tool(t) => 1 + depths(t.child_lines),
        _ => 0,
    }
}

/// The depth of the deepest of these lines.
pub open spec fn depths(lines: Seq<ItemView>) -> nat
    decreases lines,
{
    if lines.len() == 0 {
        0
    } else {
        let rest = depths(lines.drop_last());
        let last = depth(lines[lines.len() - 1]);
        if last > rest {
            last
        } else {
            rest
        }
    }
}

pub proof fn lemma_depths(lines: Seq<ItemView>, i: int)
    requires
        0 <= i < lines.len(),
    ensures
        depth(lines[i]) <= depths(lines),
    decreases lines.len(),
{
    if i < lines.len() - 1 {
        lemma_depths(lines.drop_last(), i);
    }
}

/// The depth of lines is bounded by a bound on each of them.
pub proof fn lemma_depths_bound(lines: Seq<ItemView>, bound: nat)
    requires
        forall|i: int| 0 <= i < lines.len() ==> depth(#[trigger] lines[i]) <= bound,
    ensures
        depths(lines) <= bound,
    decreases lines.len(),
{
    if lines.len() > 0 {
        let front = lines.drop_last();
        assert forall|i: int| 0 <= i < front.len() implies depth(#[trigger] front[i]) <= bound by {
            assert(front[i] == lines[i]);
        }
        lemma_depths_bound(front, bound);
        assert(depth(lines[lines.len() - 1]) <= bound);
    }
}

impl ToolRow {
    pub fn copy(&self) -> (r: ToolRow)
        ensures
            r@ == self@,
        decreases self,
    {
        let child_lines: Vec<Line_> = copy_lines(&self.child_lines);
        ToolRow {
            id: own(self.id.as_str()),
            group_id: own(self.group_id.as_str()),
            name: own(self.name.as_str()),
            kind: self.kind.copy(),
            arguments: own(self.arguments.as_str()),
            argument_detail: own(self.argument_detail.as_str()),
            diff: copy_diff(&self.diff),
            tail: own(self.tail.as_str()),
            result: copy_opt(&self.result),
            state: self.state,
            progress: self.progress,
            expanded: self.expanded,
            full: self.full,
            child_lines,
            child_group: self.child_group,
            child_running: self.child_running,
            child_session_id: copy_opt(&self.child_session_id),
        }
    }
}

pub fn copy_lines(lines: &Vec<Line_>) -> (r: Vec<Line_>)
    ensures
        views(r@) == views(lines@),
    decreases lines,
{
    let mut r: Vec<Line_> = Vec::new();
    let mut i: usize = 0;
    while i < lines.len()
        invariant
            i <= lines.len(),
            views(r@) == views(lines@).take(i as int),
        decreases lines.len() - i,
    {
        assert(decreases_to!(lines => lines@[i as int]));
        r.push(lines[i].copy());
        i += 1;
        assert(views(r@) =~= views(lines@).take(i as int));
    }
    assert(views(r@) =~= views(lines@));
    r
}

impl Line_ {
    pub fn copy(&self) -> (r: Line_)
        ensures
            r@ == self@,
        decreases self,
    {
        broadcast use lemma_tool_view;

        match self {
            Line_::User(text) => Line_::User(own(text.as_str())),
            Line_::Incoming(text) => Line_::Incoming(own(text.as_str())),
            Line_::Task { id, text, expanded } => Line_::Task {
                id: own(id.as_str()),
                text: own(text.as_str()),
                expanded: *expanded,
            },
            Line_::Job { id, text, expanded } => Line_::Job {
                id: own(id.as_str()),
                text: own(text.as_str()),
                expanded: *expanded,
            },
            Line_::Note { id, text, expanded } => Line_::Note {
                id: own(id.as_str()),
                text: own(text.as_str()),
                expanded: *expanded,
            },
            Line_::Assistant(text) => Line_::Assistant(own(text.as_str())),
            Line_::Thought { id, text, complete, expanded } => Line_::Thought {
                id: own(id.as_str()),
                text: own(text.as_str()),
                complete: *complete,
                expanded: *expanded,
            },
            Line_::Tool(row) => Line_::Tool(row.copy()),
            Line_::System(text) => Line_::System(own(text.as_str())),
        }
    }
}

} // verus!
