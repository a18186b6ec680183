//! The pages that rendering asks for: which replies, as Markdown of which width.
//!
//! A reply is shown as the page that was made of it. What a transcript asks for is
//! listed here, down to the timelines of agents and their previews, so that the
//! pages can be made before it is rendered.

use vstd::prelude::*;
use crate::chars::{group_views, own, views};
use crate::transcript::lines::{
    find_page, has_page, rendered, reply_columns, Page, PageView, SceneView,
};
use crate::transcript::model::{
    depth, depths, lemma_depths, lemma_tool_view, ItemView, Line_, ToolRow, ToolView,
};
use crate::transcript::render::{
    call_rows, calls_visible, child_indent, child_rows, children_shown, entry_rows_of, group_indent,
    group_rows, indent_of_children, item_rows, lemma_visible_depth, remembered, shown_children,
    shows_children, timeline, visible_calls, widest_name, ChildRowMemo, MemoView,
};
use crate::transcript::rows::{
    agent_live_preview, entry_at, entry_fits, lemma_preview_depth, lemma_run_end,
    transcript_entry_at, EntryView, TranscriptEntry,
};
use crate::transcript::tool_line::{less, min};

verus! {

broadcast use {group_views, lemma_tool_view};

/// A page that is asked for: the text, and the columns that it is laid out in.
#[derive(Debug, PartialEq, Eq)]
pub struct PageAsk {
    pub text: String,
    pub width: usize,
}

#[verifier::ext_equal]
pub struct AskView {
    pub text: Seq<char>,
    pub width: nat,
}

impl View for PageAsk {
    type V = AskView;

    open spec fn view(&self) -> AskView {
        AskView { text: self.text@, width: self.width as nat }
    }
}

/// Whether every page that is asked for is there.
pub open spec fn prepared(pages: Seq<PageView>, asks: Seq<AskView>) -> bool {
    forall|i: int|
        0 <= i < asks.len() ==> has_page(
            pages,
            (#[trigger] asks[i]).text,
            asks[i].width,
        )
}

/// What a line asks for: a reply asks for its page.
pub open spec fn line_asks(l: ItemView, width: nat) -> Seq<AskView> {
    match l {
        ItemView::Assistant(text) => seq![AskView { text, width: reply_columns(width) }],
        _ => Seq::empty(),
    }
}

/// What the timeline below a call asks for.
pub open spec fn child_asks(t: ToolView, groups: Seq<Seq<char>>, width: nat, indent: nat) -> Seq<
    AskView,
>
    decreases depth(ItemView::Tool(t)), 1nat, 0nat,
{
    proof {
        lemma_preview_depth(t.child_lines);
    }
    timeline_asks(shown_children(t), groups, less(width, child_indent(width, indent)), 0)
}

/// What a call asks for: only the timeline of its agent, where it is shown.
pub open spec fn call_asks(t: ToolView, groups: Seq<Seq<char>>, width: nat, indent: nat) -> Seq<
    AskView,
>
    decreases depth(ItemView::Tool(t)), 2nat, 0nat,
{
    if shows_children(t) {
        child_asks(t, groups, width, min(indent, width))
    } else {
        Seq::empty()
    }
}

/// What the calls of a group from `k` on ask for.
pub open spec fn group_asks(
    calls: Seq<ItemView>,
    k: int,
    groups: Seq<Seq<char>>,
    width: nat,
    indent: nat,
) -> Seq<AskView>
    decreases depths(calls), 3nat, calls.len() - k,
{
    if k < 0 || k >= calls.len() {
        Seq::empty()
    } else {
        proof {
            lemma_depths(calls, k);
        }
        let here = match calls[k] {
            ItemView::Tool(t) => call_asks(t, groups, width, indent),
            _ => Seq::empty(),
        };
        here + group_asks(calls, k + 1, groups, width, indent)
    }
}

/// What an entry of the lines asks for.
pub open spec fn entry_asks(
    lines: Seq<ItemView>,
    e: EntryView,
    groups: Seq<Seq<char>>,
    width: nat,
    nested: bool,
) -> Seq<AskView>
    decreases depths(lines), 4nat, 0nat,
{
    if !entry_fits(e, lines) {
        Seq::empty()
    } else {
        match e.group {
            None => match lines[e.start] {
                ItemView::Tool(t) => {
                    proof {
                        lemma_depths(lines, e.start);
                    }
                    call_asks(t, groups, width, 0)
                },
                _ => line_asks(lines[e.start], width),
            },
            Some(group) => {
                proof {
                    lemma_visible_depth(lines, e.start, e.end, group.expanded);
                }
                let calls = visible_calls(lines, e.start, e.end, group.expanded);
                let indent = if width >= 64 {
                    group_indent(group.child, width, nested) + 2
                } else {
                    0
                };
                group_asks(calls, 0, groups, width, indent)
            },
        }
    }
}

/// What the entries of a timeline from line `from` on ask for.
pub open spec fn timeline_asks(
    lines: Seq<ItemView>,
    groups: Seq<Seq<char>>,
    width: nat,
    from: int,
) -> Seq<AskView>
    decreases depths(lines), 5nat, lines.len() - from,
{
    if from < 0 || from >= lines.len() {
        Seq::empty()
    } else {
        proof {
            lemma_run_end(lines, from);
        }
        let e = entry_at(lines, groups, from);
        entry_asks(lines, e, groups, width, true) + timeline_asks(lines, groups, width, e.end)
    }
}

/// What an entry asks for whose timelines may be remembered.
pub open spec fn memo_asks(
    lines: Seq<ItemView>,
    e: EntryView,
    groups: Seq<Seq<char>>,
    width: nat,
    memo: MemoView,
) -> Seq<AskView> {
    if entry_fits(e, lines) && e.group is None && lines[e.start] is Tool && shows_children(
        lines[e.start]->Tool_0,
    ) && memo.reuse && remembered(memo.rows, lines[e.start]->Tool_0.id) is Some {
        Seq::empty()
    } else {
        entry_asks(lines, e, groups, width, false)
    }
}

/// What the entries from line `from` on ask for when they are rendered afresh.
pub open spec fn asks_from(
    lines: Seq<ItemView>,
    groups: Seq<Seq<char>>,
    width: nat,
    from: int,
) -> Seq<AskView>
    decreases lines.len() - from,
    when 0 <= from
    via asks_from_decreases
{
    if from >= lines.len() {
        Seq::empty()
    } else {
        let e = entry_at(lines, groups, from);
        entry_asks(lines, e, groups, width, false) + asks_from(lines, groups, width, e.end)
    }
}

#[via_fn]
proof fn asks_from_decreases(
    lines: Seq<ItemView>,
    groups: Seq<Seq<char>>,
    width: nat,
    from: int,
) {
    if from < lines.len() {
        lemma_run_end(lines, from);
    }
}

/// What is asked for twice over is there where both parts of it are.
pub proof fn lemma_prepared_both(pages: Seq<PageView>, a: Seq<AskView>, b: Seq<AskView>)
    ensures
        prepared(pages, a + b) <==> prepared(pages, a) && prepared(pages, b),
{
    let both = a + b;
    if prepared(pages, both) {
        assert forall|i: int| 0 <= i < a.len() implies has_page(
            pages,
            (#[trigger] a[i]).text,
            a[i].width,
        ) by {
            assert(both[i] == a[i]);
        }
        assert forall|i: int| 0 <= i < b.len() implies has_page(
            pages,
            (#[trigger] b[i]).text,
            b[i].width,
        ) by {
            assert(both[a.len() + i] == b[i]);
        }
    }
    if prepared(pages, a) && prepared(pages, b) {
        assert forall|i: int| 0 <= i < both.len() implies has_page(
            pages,
            (#[trigger] both[i]).text,
            both[i].width,
        ) by {
            if i < a.len() {
                assert(both[i] == a[i]);
            } else {
                assert(both[i] == b[i - a.len()]);
            }
        }
    }
}

/// The asks among the first `n` that no page answers.
pub open spec fn missing_upto(pages: Seq<PageView>, asks: Seq<AskView>, n: int) -> Seq<AskView>
    decreases n,
{
    if n <= 0 || n > asks.len() {
        Seq::empty()
    } else {
        let before = missing_upto(pages, asks, n - 1);
        if has_page(pages, asks[n - 1].text, asks[n - 1].width) {
            before
        } else {
            before.push(asks[n - 1])
        }
    }
}

proof fn lemma_missing(pages: Seq<PageView>, asks: Seq<AskView>, n: int)
    requires
        0 <= n <= asks.len(),
    ensures
        missing_upto(pages, asks, n).len() == 0 <==> forall|i: int|
            0 <= i < n ==> has_page(pages, (#[trigger] asks[i]).text, asks[i].width),
    decreases n,
{
    if n > 0 {
        lemma_missing(pages, asks, n - 1);
        let last = asks[n - 1];
        if missing_upto(pages, asks, n).len() == 0 {
            assert(has_page(pages, last.text, last.width));
        }
    }
}

/// The pages that are asked for and are not there. Where there is none, everything
/// is prepared.
pub fn missing_pages(pages: &Vec<Page>, asks: &Vec<PageAsk>) -> (r: Vec<PageAsk>)
    ensures
        views(r@) == missing_upto(views(pages@), views(asks@), asks@.len() as int),
        r@.len() == 0 <==> prepared(views(pages@), views(asks@)),
{
    let ghost all = views(asks@);
    assert(all.len() == asks@.len());
    let mut r: Vec<PageAsk> = Vec::new();
    let mut i: usize = 0;
    while i < asks.len()
        invariant
            i <= asks@.len(),
            all == views(asks@),
            all.len() == asks@.len(),
            views(r@) == missing_upto(views(pages@), all, i as int),
        decreases asks@.len() - i,
    {
        assert(all[i as int] == asks@[i as int]@);
        if find_page(pages, asks[i].text.as_str(), asks[i].width).is_none() {
            r.push(PageAsk { text: own(asks[i].text.as_str()), width: asks[i].width });
        }
        i += 1;
    }
    proof {
        lemma_missing(views(pages@), all, all.len() as int);
        assert(views(r@).len() == r@.len());
    }
    r
}

/// Move what is asked for behind `out`.
pub fn append_asks(out: &mut Vec<PageAsk>, more: Vec<PageAsk>)
    ensures
        views(final(out)@) == views(old(out)@) + views(more@),
{
    let mut more: Vec<PageAsk> = more;
    out.append(&mut more);
}

/// The pages that a line asks for.
pub fn line_pages(l: &Line_, width: u16) -> (r: Vec<PageAsk>)
    ensures
        views(r@) == line_asks(l@, width as nat),
{
    let mut r: Vec<PageAsk> = Vec::new();
    if let Line_::Assistant(text) = l {
        let room: usize = (width as usize).saturating_sub(2);
        let label: usize = if room < 5 {
            room
        } else {
            5
        };
        r.push(PageAsk { text: own(text.as_str()), width: (width as usize).saturating_sub(label) });
    }
    assert(views(r@) =~= line_asks(l@, width as nat));
    r
}

fn child_pages(row: &ToolRow, groups: &Vec<String>, width: u16, indent: usize) -> (r: Vec<PageAsk>)
    requires
        indent <= width,
    ensures
        views(r@) == child_asks(row@, views(groups@), width as nat, indent as nat),
    decreases depth(ItemView::Tool(row@)), 1nat, 0nat,
{
    let inner: u16 = width.saturating_sub(indent_of_children(width, indent));
    proof {
        lemma_preview_depth(row@.child_lines);
    }
    if row.expanded {
        timeline_pages(&row.child_lines, groups, inner)
    } else {
        let preview: Vec<Line_> = agent_live_preview(&row.child_lines);
        timeline_pages(&preview, groups, inner)
    }
}

/// The pages that a call asks for, `indent` columns from the left.
pub fn call_pages(row: &ToolRow, groups: &Vec<String>, width: u16, indent: usize) -> (r: Vec<
    PageAsk,
>)
    ensures
        views(r@) == call_asks(row@, views(groups@), width as nat, indent as nat),
    decreases depth(ItemView::Tool(row@)), 2nat, 0nat,
{
    let indent: usize = if indent <= width as usize {
        indent
    } else {
        width as usize
    };
    if children_shown(row) {
        child_pages(row, groups, width, indent)
    } else {
        Vec::new()
    }
}

fn group_pages(
    lines: &Vec<Line_>,
    calls: &Vec<usize>,
    Ghost(shown): Ghost<Seq<ItemView>>,
    groups: &Vec<String>,
    width: u16,
    indent: usize,
) -> (r: Vec<PageAsk>)
    requires
        calls@.len() == shown.len(),
        depths(shown) <= depths(views(lines@)),
        forall|k: int|
            0 <= k < calls@.len() ==> (#[trigger] calls@[k]) < lines@.len()
                && lines@[calls@[k] as int]@ == shown[k],
    ensures
        views(r@) == group_asks(shown, 0, views(groups@), width as nat, indent as nat),
    decreases depths(views(lines@)), 3nat, 0nat,
{
    let ghost want = group_asks(shown, 0, views(groups@), width as nat, indent as nat);
    let mut r: Vec<PageAsk> = Vec::new();
    let mut k: usize = 0;
    assert(views(r@) + want =~= want);
    while k < calls.len()
        invariant
            k <= calls@.len(),
            calls@.len() == shown.len(),
            depths(shown) <= depths(views(lines@)),
            forall|k: int|
                0 <= k < calls@.len() ==> (#[trigger] calls@[k]) < lines@.len()
                    && lines@[calls@[k] as int]@ == shown[k],
            views(r@) + group_asks(shown, k as int, views(groups@), width as nat, indent as nat)
                == want,
        decreases calls@.len() - k,
    {
        let i: usize = calls[k];
        assert(lines@[i as int]@ == shown[k as int]);
        proof {
            lemma_depths(shown, k as int);
        }
        let ghost done = views(r@);
        let ghost rest = group_asks(shown, k + 1, views(groups@), width as nat, indent as nat);
        if let Line_::Tool(row) = &lines[i] {
            let more: Vec<PageAsk> = call_pages(row, groups, width, indent);
            let ghost new = views(more@);
            append_asks(&mut r, more);
            assert(views(r@) + rest =~= done + (new + rest));
        } else {
            assert(Seq::<AskView>::empty() + rest =~= rest);
        }
        k += 1;
    }
    assert(views(r@) + Seq::<AskView>::empty() =~= views(r@));
    r
}

/// The pages that an entry asks for.
pub fn entry_pages(
    lines: &Vec<Line_>,
    entry: &TranscriptEntry,
    groups: &Vec<String>,
    width: u16,
    nested: bool,
) -> (r: Vec<PageAsk>)
    requires
        entry_fits(entry@, views(lines@)),
    ensures
        views(r@) == entry_asks(views(lines@), entry@, views(groups@), width as nat, nested),
    decreases depths(views(lines@)), 4nat, 0nat,
{
    let ghost all = views(lines@);
    match &entry.group {
        Some(group) => {
            let ghost shown = visible_calls(
                all,
                entry.start as int,
                entry.end as int,
                group.expanded,
            );
            proof {
                lemma_visible_depth(all, entry.start as int, entry.end as int, group.expanded);
            }
            let calls: Vec<usize> = calls_visible(lines, entry.start, entry.end, group.expanded);
            let indent: usize = if width >= 64 {
                if group.child && !nested {
                    4
                } else {
                    2
                }
            } else {
                0
            };
            group_pages(lines, &calls, Ghost(shown), groups, width, indent)
        },
        None => {
            assert(all[entry.start as int] == lines@[entry.start as int]@);
            proof {
                lemma_depths(all, entry.start as int);
            }
            match &lines[entry.start] {
                Line_::Tool(row) => call_pages(row, groups, width, 0),
                _ => line_pages(&lines[entry.start], width),
            }
        },
    }
}

fn timeline_pages(lines: &Vec<Line_>, groups: &Vec<String>, width: u16) -> (r: Vec<PageAsk>)
    ensures
        views(r@) == timeline_asks(views(lines@), views(groups@), width as nat, 0),
    decreases depths(views(lines@)), 5nat, 0nat,
{
    let ghost all = views(lines@);
    let ghost want = timeline_asks(all, views(groups@), width as nat, 0);
    let mut r: Vec<PageAsk> = Vec::new();
    let mut from: usize = 0;
    assert(views(r@) + want =~= want);
    while from < lines.len()
        invariant
            from <= lines@.len(),
            all == views(lines@),
            want == timeline_asks(all, views(groups@), width as nat, 0),
            views(r@) + timeline_asks(all, views(groups@), width as nat, from as int) == want,
        decreases lines@.len() - from,
    {
        let e: TranscriptEntry = transcript_entry_at(lines, groups, from);
        let more: Vec<PageAsk> = entry_pages(lines, &e, groups, width, true);
        let ghost new = views(more@);
        let ghost done = views(r@);
        let ghost rest = timeline_asks(all, views(groups@), width as nat, e.end as int);
        append_asks(&mut r, more);
        assert(views(r@) + rest =~= done + (new + rest));
        from = e.end;
    }
    assert(views(r@) + Seq::<AskView>::empty() =~= views(r@));
    r
}

/// The pages that an entry asks for whose timelines may be remembered.
pub fn memo_pages(
    lines: &Vec<Line_>,
    entry: &TranscriptEntry,
    groups: &Vec<String>,
    width: u16,
    children: &ChildRowMemo,
    reuse: bool,
) -> (r: Vec<PageAsk>)
    requires
        entry_fits(entry@, views(lines@)),
    ensures
        views(r@) == memo_asks(
            views(lines@),
            entry@,
            views(groups@),
            width as nat,
            (MemoView { reuse, ..children@ }),
        ),
{
    assert(views(lines@)[entry.start as int] == lines@[entry.start as int]@);
    if reuse && entry.group.is_none() {
        if let Line_::Tool(row) = &lines[entry.start] {
            if children_shown(row) && children.remembers(row.id.as_str()) {
                return Vec::new();
            }
        }
    }
    entry_pages(lines, entry, groups, width, false)
}

/// The pages that the entries from line `from` on ask for when they are rendered
/// afresh.
pub fn pages_from(lines: &Vec<Line_>, groups: &Vec<String>, width: u16, from: usize) -> (r: Vec<
    PageAsk,
>)
    ensures
        views(r@) == asks_from(views(lines@), views(groups@), width as nat, from as int),
{
    let ghost all = views(lines@);
    assert(all.len() == lines@.len());
    let ghost want = asks_from(all, views(groups@), width as nat, from as int);
    let mut r: Vec<PageAsk> = Vec::new();
    let mut at: usize = from;
    assert(views(r@) + want =~= want);
    while at < lines.len()
        invariant
            at <= lines@.len() || at == from,
            all == views(lines@),
            all.len() == lines@.len(),
            views(r@) + asks_from(all, views(groups@), width as nat, at as int) == want,
        decreases lines@.len() - at,
    {
        let e: TranscriptEntry = transcript_entry_at(lines, groups, at);
        let more: Vec<PageAsk> = entry_pages(lines, &e, groups, width, false);
        let ghost new = views(more@);
        let ghost done = views(r@);
        let ghost rest = asks_from(all, views(groups@), width as nat, e.end as int);
        append_asks(&mut r, more);
        assert(views(r@) + rest =~= done + (new + rest));
        at = e.end;
    }
    assert(views(r@) + Seq::<AskView>::empty() =~= views(r@));
    r
}

// ---- Nothing else is read ----

/// Whether two scenes differ at most in pages that are not asked for.
pub open spec fn same_pages(a: SceneView, b: SceneView, asks: Seq<AskView>) -> bool {
    &&& a.expanded_groups == b.expanded_groups
    &&& a.now == b.now
    &&& a.activity_started == b.activity_started
    &&& forall|i: int|
        0 <= i < asks.len() ==> rendered(a.pages, (#[trigger] asks[i]).text, asks[i].width)
            == rendered(b.pages, asks[i].text, asks[i].width)
}

proof fn lemma_same_both(a: SceneView, b: SceneView, front: Seq<AskView>, back: Seq<AskView>)
    requires
        same_pages(a, b, front + back),
    ensures
        same_pages(a, b, front),
        same_pages(a, b, back),
{
    let both = front + back;
    assert forall|i: int| 0 <= i < front.len() implies rendered(
        a.pages,
        (#[trigger] front[i]).text,
        front[i].width,
    ) == rendered(b.pages, front[i].text, front[i].width) by {
        assert(both[i] == front[i]);
    }
    assert forall|i: int| 0 <= i < back.len() implies rendered(
        a.pages,
        (#[trigger] back[i]).text,
        back[i].width,
    ) == rendered(b.pages, back[i].text, back[i].width) by {
        assert(both[front.len() + i] == back[i]);
    }
}

proof fn lemma_child_same(t: ToolView, a: SceneView, b: SceneView, width: nat, indent: nat)
    requires
        same_pages(a, b, child_asks(t, a.expanded_groups, width, indent)),
    ensures
        child_rows(t, a, width, indent) == child_rows(t, b, width, indent),
    decreases depth(ItemView::Tool(t)), 1nat, 0nat,
{
    lemma_preview_depth(t.child_lines);
    let below = child_indent(width, indent);
    lemma_timeline_same(shown_children(t), a, b, less(width, below), below, 0);
}

proof fn lemma_call_same(
    t: ToolView,
    a: SceneView,
    b: SceneView,
    width: nat,
    indent: nat,
    branch: Option<Seq<char>>,
    name_column: nat,
)
    requires
        same_pages(a, b, call_asks(t, a.expanded_groups, width, indent)),
    ensures
        call_rows(t, a, width, indent, branch, name_column) == call_rows(
            t,
            b,
            width,
            indent,
            branch,
            name_column,
        ),
    decreases depth(ItemView::Tool(t)), 2nat, 0nat,
{
    if shows_children(t) {
        lemma_child_same(t, a, b, width, min(indent, width));
    }
}

proof fn lemma_group_same(
    calls: Seq<ItemView>,
    k: int,
    a: SceneView,
    b: SceneView,
    width: nat,
    indent: nat,
    name_column: nat,
)
    requires
        same_pages(a, b, group_asks(calls, k, a.expanded_groups, width, indent)),
    ensures
        group_rows(calls, k, a, width, indent, name_column) == group_rows(
            calls,
            k,
            b,
            width,
            indent,
            name_column,
        ),
    decreases depths(calls), 3nat, calls.len() - k,
{
    if 0 <= k < calls.len() {
        lemma_depths(calls, k);
        let rest = group_asks(calls, k + 1, a.expanded_groups, width, indent);
        let here = match calls[k] {
            ItemView::Tool(t) => call_asks(t, a.expanded_groups, width, indent),
            _ => Seq::empty(),
        };
        lemma_same_both(a, b, here, rest);
        lemma_group_same(calls, k + 1, a, b, width, indent, name_column);
        if let ItemView::Tool(t) = calls[k] {
            let branch = if width >= 64 {
                Some(
                    if k + 1 == calls.len() {
                        "└─"@
                    } else {
                        "├─"@
                    },
                )
            } else {
                None
            };
            lemma_call_same(t, a, b, width, indent, branch, name_column);
        }
    }
}

/// The rows of an entry depend on no page but those that it asks for.
pub proof fn law_rows_depend_on_the_pages_asked_for(
    lines: Seq<ItemView>,
    e: EntryView,
    a: SceneView,
    b: SceneView,
    width: nat,
    nested: bool,
)
    requires
        same_pages(a, b, entry_asks(lines, e, a.expanded_groups, width, nested)),
    ensures
        entry_rows_of(lines, e, a, width, nested) == entry_rows_of(lines, e, b, width, nested),
    decreases depths(lines), 4nat, 0nat,
{
    if entry_fits(e, lines) {
        match e.group {
            None => match lines[e.start] {
                ItemView::Tool(t) => {
                    lemma_depths(lines, e.start);
                    lemma_call_same(t, a, b, width, 0, None, 0);
                },
                ItemView::Assistant(text) => {
                    let asks = line_asks(lines[e.start], width);
                    assert(asks[0] == AskView { text, width: reply_columns(width) });
                    assert(item_rows(lines[e.start], a, width) == item_rows(
                        lines[e.start],
                        b,
                        width,
                    ));
                },
                _ => {},
            },
            Some(group) => {
                lemma_visible_depth(lines, e.start, e.end, group.expanded);
                let calls = visible_calls(lines, e.start, e.end, group.expanded);
                let indent = if width >= 64 {
                    group_indent(group.child, width, nested) + 2
                } else {
                    0
                };
                lemma_group_same(calls, 0, a, b, width, indent, widest_name(calls));
            },
        }
    }
}

proof fn lemma_timeline_same(
    lines: Seq<ItemView>,
    a: SceneView,
    b: SceneView,
    width: nat,
    indent: nat,
    from: int,
)
    requires
        same_pages(a, b, timeline_asks(lines, a.expanded_groups, width, from)),
    ensures
        timeline(lines, a, width, indent, from) == timeline(lines, b, width, indent, from),
    decreases depths(lines), 5nat, lines.len() - from,
{
    if 0 <= from < lines.len() {
        lemma_run_end(lines, from);
        let e = entry_at(lines, a.expanded_groups, from);
        lemma_same_both(
            a,
            b,
            entry_asks(lines, e, a.expanded_groups, width, true),
            timeline_asks(lines, a.expanded_groups, width, e.end),
        );
        law_rows_depend_on_the_pages_asked_for(lines, e, a, b, width, true);
        lemma_timeline_same(lines, a, b, width, indent, e.end);
    }
}

} // verus!
