//! How an entry becomes rows: a line, or a run of calls shown as one group that
//! can be unfolded, down to the timelines of agents.

use vstd::prelude::*;
use crate::chars::{
    byte_len, cat2, cat3, count_bytes, group_views, join, law_tail_is_bounded, lines, longer_than,
    own, rep, repeat, same, split_lines, tail, tail_str, views,
};
use crate::format::join_strings;
use crate::style::{fg, line, span, Line, LineView, Span, SpanView, Style};
use crate::theme::BORDER;
use crate::transcript::details::{append_spans, copy_target, RowView, TranscriptRow};
use crate::transcript::events::is_open_state;
use crate::transcript::model::{
    depth, depths, lemma_depths, lemma_depths_bound, lemma_tool_view, ItemView, Line_, ToolKind,
    ToolState, ToolView,
};
use crate::transcript::tool_line::less;
use crate::words::trimmed;

verus! {

broadcast use {group_views, lemma_tool_view};

/// A run of calls shown as one.
#[derive(Debug)]
pub struct Group {
    pub id: String,
    pub expanded: bool,
    /// Whether the run follows a thought, and is shown as its child.
    pub child: bool,
}

/// One unit of the transcript: a line, or a run of adjacent calls.
#[derive(Debug)]
pub struct TranscriptEntry {
    pub start: usize,
    pub end: usize,
    pub group: Option<Group>,
}

pub struct GroupView {
    pub id: Seq<char>,
    pub expanded: bool,
    pub child: bool,
}

pub open spec fn group_view(g: Option<Group>) -> Option<GroupView> {
    match g {
        Some(g) => Some(GroupView { id: g.id@, expanded: g.expanded, child: g.child }),
        None => None,
    }
}

#[verifier::ext_equal]
pub struct EntryView {
    pub start: int,
    pub end: int,
    pub group: Option<GroupView>,
}

impl View for TranscriptEntry {
    type V = EntryView;

    open spec fn view(&self) -> EntryView {
        EntryView {
            start: self.start as int,
            end: self.end as int,
            group: group_view(self.group),
        }
    }
}

impl TranscriptEntry {
    pub fn is_child(&self) -> (r: bool)
        ensures
            r == entry_is_child(self@),
    {
        match &self.group {
            Some(group) => group.child,
            None => false,
        }
    }
}

pub open spec fn entry_is_child(e: EntryView) -> bool {
    match e.group {
        Some(group) => group.child,
        None => false,
    }
}

/// The entry lies within the lines, and a lone line is one line.
pub open spec fn entry_fits(e: EntryView, lines: Seq<ItemView>) -> bool {
    0 <= e.start < e.end <= lines.len() && (e.group is None ==> e.end == e.start + 1)
}

pub open spec fn is_plain_tool(l: ItemView) -> bool {
    l is Tool && l->Tool_0.kind is Tool
}

/// Where the run of plain calls from `i` on ends.
pub open spec fn run_end(lines: Seq<ItemView>, i: int) -> int
    decreases lines.len() - i,
{
    if 0 <= i < lines.len() && is_plain_tool(lines[i]) {
        run_end(lines, i + 1)
    } else {
        i
    }
}

/// What a group is named by: the group and the first of its calls.
pub open spec fn group_name(t: ToolView) -> Seq<char> {
    t.group_id + ":"@ + t.id
}

/// The entry that begins at `start`. Adjacent plain calls are one group, any
/// other line is an entry of its own.
pub open spec fn entry_at(
    lines: Seq<ItemView>,
    expanded_groups: Seq<Seq<char>>,
    start: int,
) -> EntryView {
    if is_plain_tool(lines[start]) {
        let id = group_name(lines[start]->Tool_0);
        EntryView {
            start,
            end: run_end(lines, start),
            group: Some(
                GroupView {
                    id,
                    expanded: expanded_groups.contains(id),
                    child: start > 0 && lines[start - 1] is Thought,
                },
            ),
        }
    } else {
        EntryView { start, end: start + 1, group: None }
    }
}

/// The entries of the lines from `from` on.
pub open spec fn entries_from(
    lines: Seq<ItemView>,
    expanded_groups: Seq<Seq<char>>,
    from: int,
) -> Seq<EntryView>
    decreases lines.len() - from,
    when 0 <= from
    via entries_from_decreases
{
    if from >= lines.len() {
        Seq::empty()
    } else {
        let entry = entry_at(lines, expanded_groups, from);
        seq![entry] + entries_from(lines, expanded_groups, entry.end)
    }
}

#[via_fn]
proof fn entries_from_decreases(
    lines: Seq<ItemView>,
    expanded_groups: Seq<Seq<char>>,
    from: int,
) {
    if from < lines.len() {
        lemma_run_end(lines, from);
    }
}

pub proof fn lemma_run_end(lines: Seq<ItemView>, i: int)
    requires
        0 <= i <= lines.len(),
    ensures
        i <= run_end(lines, i) <= lines.len(),
        i < lines.len() && is_plain_tool(lines[i]) ==> i < run_end(lines, i),
        run_end(lines, i) < lines.len() ==> !is_plain_tool(lines[run_end(lines, i)]),
        forall|k: int| i <= k < run_end(lines, i) ==> is_plain_tool(#[trigger] lines[k]),
    decreases lines.len() - i,
{
    if i < lines.len() && is_plain_tool(lines[i]) {
        lemma_run_end(lines, i + 1);
    }
}

fn is_plain(line: &Line_) -> (r: bool)
    ensures
        r == is_plain_tool(line@),
{
    match line {
        Line_::Tool(row) => match &row.kind {
            ToolKind::Tool => true,
            ToolKind::Agent { .. } => false,
        },
        _ => false,
    }
}

/// Whether a text is one of the strings.
pub fn has_text(texts: &Vec<String>, text: &str) -> (r: bool)
    ensures
        r == views(texts@).contains(text@),
{
    let mut i: usize = 0;
    while i < texts.len()
        invariant
            i <= texts@.len(),
            forall|k: int| 0 <= k < i ==> views(texts@)[k] != text@,
        decreases texts@.len() - i,
    {
        assert(views(texts@)[i as int] == texts@[i as int]@);
        if same(texts[i].as_str(), text) {
            return true;
        }
        i += 1;
    }
    false
}

pub fn transcript_entry_at(lines: &Vec<Line_>, expanded_groups: &Vec<String>, start: usize) -> (r:
    TranscriptEntry)
    requires
        start < lines@.len(),
    ensures
        r@ == entry_at(views(lines@), views(expanded_groups@), start as int),
        entry_fits(r@, views(lines@)),
{
    let ghost all = views(lines@);
    let n: usize = lines.len();
    assert(start < n);
    assert(all[start as int] == lines@[start as int]@);
    proof {
        lemma_run_end(all, start as int);
    }
    if let Line_::Tool(row) = &lines[start] {
        if is_plain(&lines[start]) {
            let mut end: usize = start;
            while end < lines.len() && is_plain(&lines[end])
                invariant
                    start <= end <= lines@.len(),
                    all == views(lines@),
                    run_end(all, start as int) == run_end(all, end as int),
                decreases lines@.len() - end,
            {
                assert(all[end as int] == lines@[end as int]@);
                end += 1;
            }
            proof {
                if end < lines.len() {
                    assert(all[end as int] == lines@[end as int]@);
                }
            }
            let id: String = cat3(row.group_id.as_str(), ":", row.id.as_str());
            let expanded: bool = has_text(expanded_groups, id.as_str());
            let child: bool = if start > 0 {
                assert(all[start - 1] == lines@[start - 1]@);
                match &lines[start - 1] {
                    Line_::Thought { .. } => true,
                    _ => false,
                }
            } else {
                false
            };
            return TranscriptEntry { start, end, group: Some(Group { id, expanded, child }) };
        }
    }
    TranscriptEntry { start, end: start + 1, group: None }
}

pub fn transcript_entries(lines: &Vec<Line_>, expanded_groups: &Vec<String>) -> (r: Vec<
    TranscriptEntry,
>)
    ensures
        views(r@) == entries_from(views(lines@), views(expanded_groups@), 0),
        forall|i: int| 0 <= i < r@.len() ==> entry_fits((#[trigger] r@[i])@, views(lines@)),
{
    let ghost all = views(lines@);
    let ghost open = views(expanded_groups@);
    let mut r: Vec<TranscriptEntry> = Vec::new();
    let mut index: usize = 0;
    assert(views(r@) + entries_from(all, open, 0) =~= entries_from(all, open, 0));
    while index < lines.len()
        invariant
            index <= lines@.len(),
            all == views(lines@),
            open == views(expanded_groups@),
            views(r@) + entries_from(all, open, index as int) == entries_from(all, open, 0),
            forall|i: int| 0 <= i < r@.len() ==> entry_fits((#[trigger] r@[i])@, all),
        decreases lines@.len() - index,
    {
        let entry: TranscriptEntry = transcript_entry_at(lines, expanded_groups, index);
        let next: usize = entry.end;
        let ghost done = views(r@);
        r.push(entry);
        assert(views(r@) + entries_from(all, open, next as int) =~= done + entries_from(
            all,
            open,
            index as int,
        ));
        index = next;
    }
    assert(views(r@) =~= entries_from(all, open, 0));
    r
}

/// Whether a line moves while the model rests: a call that is not settled, or
/// whose agent still works.
pub open spec fn is_active(l: ItemView) -> bool {
    l is Tool && (is_open_state(l->Tool_0.state) || l->Tool_0.child_running)
}

pub fn tool_is_active(line: &Line_) -> (r: bool)
    ensures
        r == is_active(line@),
{
    match line {
        Line_::Tool(row) => row.state == ToolState::Running || row.state == ToolState::Complete
            || row.child_running,
        _ => false,
    }
}

/// How many of the lines `from..to` are active.
pub open spec fn active_count(lines: Seq<ItemView>, from: int, to: int) -> nat
    decreases to - from,
{
    if from >= to {
        0
    } else {
        active_count(lines, from, to - 1) + (if is_active(lines[to - 1]) {
            1nat
        } else {
            0
        })
    }
}

/// How many of the calls `from..to` failed.
pub open spec fn failed_count(lines: Seq<ItemView>, from: int, to: int) -> nat
    decreases to - from,
{
    if from >= to {
        0
    } else {
        failed_count(lines, from, to - 1) + (if lines[to - 1] is Tool && lines[to - 1]->Tool_0.state
            == ToolState::Failed {
            1nat
        } else {
            0
        })
    }
}

/// Whether something in the entry moves while the model rests.
pub open spec fn entry_animated(lines: Seq<ItemView>, e: EntryView) -> bool {
    active_count(lines, e.start, e.end) > 0
}

pub fn count_active(lines: &Vec<Line_>, from: usize, to: usize) -> (r: usize)
    requires
        from <= to <= lines@.len(),
    ensures
        r == active_count(views(lines@), from as int, to as int),
{
    let mut n: usize = 0;
    let mut i: usize = from;
    while i < to
        invariant
            from <= i <= to <= lines@.len(),
            n == active_count(views(lines@), from as int, i as int),
            n <= i - from,
        decreases to - i,
    {
        assert(views(lines@)[i as int] == lines@[i as int]@);
        if tool_is_active(&lines[i]) {
            n += 1;
        }
        i += 1;
    }
    n
}

pub fn count_failed(lines: &Vec<Line_>, from: usize, to: usize) -> (r: usize)
    requires
        from <= to <= lines@.len(),
    ensures
        r == failed_count(views(lines@), from as int, to as int),
{
    let mut n: usize = 0;
    let mut i: usize = from;
    while i < to
        invariant
            from <= i <= to <= lines@.len(),
            n == failed_count(views(lines@), from as int, i as int),
            n <= i - from,
        decreases to - i,
    {
        assert(views(lines@)[i as int] == lines@[i as int]@);
        if let Line_::Tool(row) = &lines[i] {
            if row.state == ToolState::Failed {
                n += 1;
            }
        }
        i += 1;
    }
    n
}

pub fn transcript_entry_animated(lines: &Vec<Line_>, entry: &TranscriptEntry) -> (r: bool)
    requires
        entry_fits(entry@, views(lines@)),
    ensures
        r == entry_animated(views(lines@), entry@),
{
    count_active(lines, entry.start, entry.end) > 0
}

/// The branch drawn in the last columns of an indent.
pub open spec fn branch_prefix(indent: nat, branch: Seq<char>) -> Seq<char> {
    if indent < 2 {
        rep(' ', indent)
    } else {
        rep(' ', (indent - 2) as nat) + branch
    }
}

pub fn hierarchy_prefix(indent: usize, branch: &str) -> (r: String)
    ensures
        r@ == branch_prefix(indent as nat, branch@),
{
    if indent < 2 {
        repeat(' ', indent)
    } else {
        cat2(repeat(' ', indent - 2).as_str(), branch)
    }
}

/// The spans behind a branch.
pub open spec fn behind_branch(indent: nat, branch: Seq<char>, spans: Seq<SpanView>) -> LineView {
    line(seq![span(branch_prefix(indent, branch), fg(BORDER))] + spans)
}

fn put_behind_branch(indent: usize, branch: &str, spans: &Vec<Span>) -> (r: Line)
    ensures
        r@ == behind_branch(indent as nat, branch@, views(spans@)),
{
    let mut out: Vec<Span> = Vec::new();
    out.push(Span { content: hierarchy_prefix(indent, branch), style: Style::fg(BORDER) });
    append_spans(&mut out, spans);
    assert(views(out@) =~= behind_branch(indent as nat, branch@, views(spans@)).spans);
    Line::of(out)
}

/// A row moved behind a branch.
pub open spec fn indented(row: RowView, indent: nat, branch: Seq<char>) -> RowView {
    RowView { line: behind_branch(indent, branch, row.line.spans), target: row.target }
}

pub fn indent_transcript_row(row: &TranscriptRow, indent: usize, branch: &str) -> (r: TranscriptRow)
    ensures
        r@ == indented(row@, indent as nat, branch@),
{
    TranscriptRow {
        line: put_behind_branch(indent, branch, &row.line.spans),
        target: copy_target(&row.target),
    }
}

/// How many characters a preview keeps, in bytes.
pub const PREVIEW_CHARS: usize = 240;

/// How many lines a preview keeps.
pub const PREVIEW_LINES: usize = 2;

/// The lines that are not blank.
pub open spec fn said_lines(parts: Seq<Seq<char>>) -> Seq<Seq<char>>
    decreases parts.len(),
{
    if parts.len() == 0 {
        Seq::empty()
    } else if trimmed(parts.last()).len() == 0 {
        said_lines(parts.drop_last())
    } else {
        said_lines(parts.drop_last()).push(parts.last())
    }
}

/// The end of a reply under way: its last lines, marked where something comes
/// before them.
pub open spec fn reply_preview(text: Seq<char>) -> Seq<char> {
    let said = said_lines(lines(text));
    let start = less(said.len(), PREVIEW_LINES as nat);
    let kept = tail(join(said.skip(start as int), "\n"@), PREVIEW_CHARS as nat);
    if start > 0 || byte_len(kept) < byte_len(trimmed(text)) {
        "… "@ + kept
    } else {
        kept
    }
}

pub fn preview_tail(text: &str) -> (r: String)
    ensures
        r@ == reply_preview(text@),
{
    let parts: Vec<String> = split_lines(text);
    let ghost all = lines(text@);
    assert(views(parts@).len() == parts@.len());
    let mut said: Vec<String> = Vec::new();
    let mut i: usize = 0;
    assert(all.take(0) =~= Seq::empty());
    while i < parts.len()
        invariant
            i <= parts@.len(),
            all == views(parts@),
            views(said@) == said_lines(all.take(i as int)),
        decreases parts@.len() - i,
    {
        assert(all.take(i + 1).drop_last() =~= all.take(i as int));
        assert(all[i as int] == parts@[i as int]@);
        if !crate::words::trim(parts[i].as_str()).as_str().is_empty() {
            said.push(own(parts[i].as_str()));
        }
        i += 1;
    }
    assert(all.take(i as int) =~= all);
    let start: usize = said.len().saturating_sub(PREVIEW_LINES);
    let mut kept: Vec<String> = Vec::new();
    let ghost whole = views(said@);
    assert(whole.len() == said@.len());
    let mut k: usize = start;
    while k < said.len()
        invariant
            start <= k <= said@.len(),
            whole == views(said@),
            views(kept@) == whole.subrange(start as int, k as int),
        decreases said@.len() - k,
    {
        kept.push(own(said[k].as_str()));
        k += 1;
        assert(views(kept@) =~= whole.subrange(start as int, k as int));
    }
    assert(views(kept@) =~= whole.skip(start as int));
    let end: String = tail_str(join_strings(&kept, "\n").as_str(), PREVIEW_CHARS);
    proof {
        law_tail_is_bounded(join(whole.skip(start as int), "\n"@), PREVIEW_CHARS as nat);
    }
    let shorter: bool = longer_than(
        crate::words::trim(text).as_str(),
        count_bytes(end.as_str()),
    );
    if start > 0 || shorter {
        cat2("… ", end.as_str())
    } else {
        end
    }
}

/// The last line of the first `n` that is a thought, or -1.
pub open spec fn last_thought(lines: Seq<ItemView>, n: int) -> int
    decreases n,
{
    if n <= 0 || n > lines.len() {
        -1
    } else if lines[n - 1] is Thought {
        n - 1
    } else {
        last_thought(lines, n - 1)
    }
}

/// What a folded agent shows of what it is saying or thinking.
pub open spec fn preview_lead(lines: Seq<ItemView>) -> Seq<ItemView> {
    if lines.len() > 0 && lines.last() is Assistant {
        seq![ItemView::Assistant(reply_preview(lines.last()->Assistant_0))]
    } else {
        let i = last_thought(lines, lines.len() as int);
        if i >= 0 {
            seq![lines[i]]
        } else {
            Seq::empty()
        }
    }
}

/// The active lines among the first `n`.
pub open spec fn active_upto(lines: Seq<ItemView>, n: int) -> Seq<ItemView>
    decreases n,
{
    if n <= 0 || n > lines.len() {
        Seq::empty()
    } else if is_active(lines[n - 1]) {
        active_upto(lines, n - 1).push(lines[n - 1])
    } else {
        active_upto(lines, n - 1)
    }
}

/// What a folded agent shows: what it says or thinks, and the calls under way.
pub open spec fn live_preview(lines: Seq<ItemView>) -> Seq<ItemView> {
    let shown = preview_lead(lines) + active_upto(lines, lines.len() as int);
    if shown.len() == 0 {
        seq![ItemView::System("thinking…"@)]
    } else {
        shown
    }
}

proof fn lemma_last_thought(lines: Seq<ItemView>, n: int)
    requires
        0 <= n <= lines.len(),
    ensures
        -1 <= last_thought(lines, n) < n,
        last_thought(lines, n) >= 0 ==> lines[last_thought(lines, n)] is Thought,
    decreases n,
{
    if n > 0 && !(lines[n - 1] is Thought) {
        lemma_last_thought(lines, n - 1);
    }
}

proof fn lemma_active_upto_depth(lines: Seq<ItemView>, n: int)
    requires
        0 <= n <= lines.len(),
    ensures
        forall|i: int|
            0 <= i < active_upto(lines, n).len() ==> depth(#[trigger] active_upto(lines, n)[i])
                <= depths(lines),
    decreases n,
{
    if n > 0 {
        lemma_active_upto_depth(lines, n - 1);
        lemma_depths(lines, n - 1);
        let before = active_upto(lines, n - 1);
        let now = active_upto(lines, n);
        assert forall|i: int| 0 <= i < now.len() implies depth(#[trigger] now[i]) <= depths(
            lines,
        ) by {
            if i < before.len() {
                assert(now[i] == before[i]);
            }
        }
    }
}

/// A preview goes no deeper than the timeline it is taken from.
pub proof fn lemma_preview_depth(lines: Seq<ItemView>)
    ensures
        depths(live_preview(lines)) <= depths(lines),
{
    let n = lines.len() as int;
    lemma_last_thought(lines, n);
    lemma_active_upto_depth(lines, n);
    let lead = preview_lead(lines);
    let live = active_upto(lines, n);
    let shown = live_preview(lines);
    assert forall|i: int| 0 <= i < shown.len() implies depth(#[trigger] shown[i]) <= depths(
        lines,
    ) by {
        if lead.len() + live.len() > 0 {
            if i >= lead.len() {
                assert(shown[i] == live[i - lead.len()]);
            } else {
                assert(shown[i] == lead[i]);
            }
        }
    }
    lemma_depths_bound(shown, depths(lines));
}

pub fn agent_live_preview(lines: &Vec<Line_>) -> (r: Vec<Line_>)
    ensures
        views(r@) == live_preview(views(lines@)),
{
    let ghost all = views(lines@);
    let n: usize = lines.len();
    let mut r: Vec<Line_> = Vec::new();
    let mut spoken: bool = false;
    if n > 0 {
        assert(all.last() == lines@[n - 1]@);
        if let Line_::Assistant(text) = &lines[n - 1] {
            r.push(Line_::Assistant(preview_tail(text.as_str())));
            spoken = true;
        }
    }
    if !spoken {
        let mut k: usize = n;
        let mut sought: bool = true;
        while k > 0 && sought
            invariant
                k <= n,
                n == lines@.len(),
                all == views(lines@),
                sought ==> last_thought(all, n as int) == last_thought(all, k as int) && views(r@)
                    == Seq::<ItemView>::empty(),
                !sought ==> 0 <= last_thought(all, n as int) < n && views(r@) == seq![
                    all[last_thought(all, n as int)],
                ],
            decreases k,
        {
            assert(all[k - 1] == lines@[k - 1]@);
            if let Line_::Thought { .. } = &lines[k - 1] {
                r.push(lines[k - 1].copy());
                sought = false;
                assert(views(r@) =~= seq![all[k - 1]]);
            }
            k -= 1;
        }
    }
    let ghost lead = preview_lead(all);
    assert(views(r@) =~= lead);
    let mut i: usize = 0;
    assert(views(r@) =~= lead + active_upto(all, 0));
    while i < n
        invariant
            i <= n,
            n == lines@.len(),
            all == views(lines@),
            views(r@) == lead + active_upto(all, i as int),
        decreases n - i,
    {
        assert(all[i as int] == lines@[i as int]@);
        let ghost before = active_upto(all, i as int);
        if tool_is_active(&lines[i]) {
            r.push(lines[i].copy());
            assert(views(r@) =~= lead + before.push(all[i as int]));
        }
        i += 1;
    }
    assert(views(r@).len() == r@.len());
    if r.len() == 0 {
        r.push(Line_::System(own("thinking…")));
        assert(views(r@) =~= seq![ItemView::System("thinking…"@)]);
    }
    r
}

} // verus!
