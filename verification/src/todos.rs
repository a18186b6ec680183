//! The todo panel: the items that fit, around the one that must stay in sight.

use std::ops::Range;
use vstd::prelude::*;
use crate::chars::{cat2, cat4, dec, decimal, group_views, join, own, rep, repeat, views};
use crate::columns::{
    counted, law_a_truncation_is_within_its_columns, law_wrapped_lines_are_within_their_columns,
    lemma_cells_of_counted, lemma_within_blanks, lemma_within_ellipsis, lemma_within_join,
    lemma_within_merged, lemma_within_more, lemma_within_text, within,
};
use crate::format::{join_strings, safe, safe_text};
use crate::measure::{text_width, width};
use crate::style::{
    bold, fg, line, line_width, plain, span, spans_width, Line, LineView, Span, Style,
};
use crate::text::{
    cells_of, cells_width, lemma_row_end, merged, row_end, styled_graphemes, styled_line,
    truncate_display, truncated, wrap_styled_line, wrapped, Cell, StyledGrapheme, Truncation,
};
use crate::theme::{MUTED, PRIMARY, RUNNING, SECONDARY, SUCCESS};
use crate::transcript::details::append_spans;
use crate::transcript::tool_line::less;
use crate::words::{contains, holds, split_words, words};

verus! {

broadcast use group_views;

#[derive(Clone, Copy, PartialEq, Eq, Structural, Debug)]
pub enum Status {
    Pending,
    InProgress,
    Completed,
}

#[derive(Debug)]
pub struct TodoItem {
    pub content: String,
    pub status: Status,
}

#[verifier::ext_equal]
pub struct TodoView {
    pub content: Seq<char>,
    pub status: Status,
}

impl View for TodoItem {
    type V = TodoView;

    open spec fn view(&self) -> TodoView {
        TodoView { content: self.content@, status: self.status }
    }
}

#[derive(Debug)]
pub struct TodoList {
    pub items: Vec<TodoItem>,
}

// ---- Which items ----

/// The first item from `i` on with this status, or the length.
pub open spec fn first_of(items: Seq<TodoView>, i: int, status: Status) -> int
    decreases items.len() - i,
{
    if i < 0 || i >= items.len() || items[i].status == status {
        i
    } else {
        first_of(items, i + 1, status)
    }
}

/// The last item before `n` with this status, or -1.
pub open spec fn last_of(items: Seq<TodoView>, n: int, status: Status) -> int
    decreases n,
{
    if n <= 0 || n > items.len() {
        -1
    } else if items[n - 1].status == status {
        n - 1
    } else {
        last_of(items, n - 1, status)
    }
}

/// The item that must stay in sight: work in progress, else the next to start,
/// else what was completed last.
pub open spec fn anchor_of(items: Seq<TodoView>) -> int {
    let n = items.len() as int;
    if first_of(items, 0, Status::InProgress) < n {
        first_of(items, 0, Status::InProgress)
    } else if first_of(items, 0, Status::Pending) < n {
        first_of(items, 0, Status::Pending)
    } else if last_of(items, n, Status::Completed) >= 0 {
        last_of(items, n, Status::Completed)
    } else {
        0
    }
}

fn first(list: &TodoList, status: Status) -> (r: Option<usize>)
    ensures
        match r {
            Some(i) => i == first_of(views(list.items@), 0, status) && i < list.items@.len(),
            None => first_of(views(list.items@), 0, status) >= list.items@.len(),
        },
{
    let ghost all = views(list.items@);
    let mut i: usize = 0;
    while i < list.items.len()
        invariant
            i <= list.items@.len(),
            all == views(list.items@),
            first_of(all, 0, status) == first_of(all, i as int, status),
        decreases list.items@.len() - i,
    {
        assert(all[i as int] == list.items@[i as int]@);
        if list.items[i].status == status {
            return Some(i);
        }
        i += 1;
    }
    None
}

pub fn anchor_index(list: &TodoList) -> (r: usize)
    ensures
        r == anchor_of(views(list.items@)),
        list.items@.len() > 0 ==> r < list.items@.len(),
{
    let ghost all = views(list.items@);
    assert(all.len() == list.items@.len());
    if let Some(i) = first(list, Status::InProgress) {
        return i;
    }
    if let Some(i) = first(list, Status::Pending) {
        return i;
    }
    let mut n: usize = list.items.len();
    while n > 0
        invariant
            n <= list.items@.len(),
            all == views(list.items@),
            all.len() == list.items@.len(),
            first_of(all, 0, Status::InProgress) >= all.len(),
            first_of(all, 0, Status::Pending) >= all.len(),
            last_of(all, all.len() as int, Status::Completed) == last_of(
                all,
                n as int,
                Status::Completed,
            ),
        decreases n,
    {
        assert(all[n - 1] == list.items@[n - 1]@);
        if list.items[n - 1].status == Status::Completed {
            return n - 1;
        }
        n -= 1;
    }
    0
}

/// The run of at most `cap` items that begins with the anchor, or earlier where
/// the anchor is near the end.
pub open spec fn window_of(items: Seq<TodoView>, cap: nat) -> (int, int) {
    let n = items.len() as int;
    let size = if cap < n {
        cap as int
    } else {
        n
    };
    if size == 0 {
        (0, 0)
    } else {
        let end = if anchor_of(items) + size < n {
            anchor_of(items) + size
        } else {
            n
        };
        (end - size, end)
    }
}

pub fn visible_todo_window(list: &TodoList, cap: usize) -> (r: Range<usize>)
    ensures
        (r.start as int, r.end as int) == window_of(views(list.items@), cap as nat),
        r.start <= r.end <= list.items@.len(),
{
    let n: usize = list.items.len();
    assert(views(list.items@).len() == n);
    let size: usize = if cap < n {
        cap
    } else {
        n
    };
    if size == 0 {
        return 0..0;
    }
    let anchor: usize = anchor_index(list);
    let end: usize = if size < n - anchor {
        anchor + size
    } else {
        n
    };
    end - size..end
}

proof fn lemma_anchor(items: Seq<TodoView>)
    requires
        items.len() > 0,
    ensures
        0 <= anchor_of(items) < items.len(),
{
    lemma_first(items, 0, Status::InProgress);
    lemma_first(items, 0, Status::Pending);
    lemma_last(items, items.len() as int, Status::Completed);
}

proof fn lemma_first(items: Seq<TodoView>, i: int, status: Status)
    requires
        0 <= i,
    ensures
        i <= first_of(items, i, status),
    decreases items.len() - i,
{
    if i < items.len() && items[i].status != status {
        lemma_first(items, i + 1, status);
    }
}

proof fn lemma_last(items: Seq<TodoView>, n: int, status: Status)
    requires
        0 <= n <= items.len(),
    ensures
        -1 <= last_of(items, n, status) < n || n == 0,
    decreases n,
{
    if n > 0 && items[n - 1].status != status {
        lemma_last(items, n - 1, status);
    }
}

/// The window holds the anchor, is as long as it may be, and lies in the list.
pub proof fn law_the_window_holds_the_anchor(items: Seq<TodoView>, cap: nat)
    ensures
        ({
            let (start, end) = window_of(items, cap);
            &&& 0 <= start <= end <= items.len()
            &&& end - start == (if cap < items.len() {
                cap
            } else {
                items.len()
            })
            &&& cap > 0 && items.len() > 0 ==> start <= anchor_of(items) < end
        }),
{
    if items.len() > 0 {
        lemma_anchor(items);
    }
}

/// The items to draw, which of them must stay in sight, and how many there are
/// besides.
#[derive(Debug)]
pub struct TodoRenderSnapshot {
    pub items: Vec<TodoItem>,
    pub anchor: usize,
    pub hidden: usize,
}

impl TodoRenderSnapshot {
    /// All the items can be counted.
    pub open spec fn wf(self) -> bool {
        self.items@.len() + self.hidden <= usize::MAX
    }
}

pub fn todo_render_snapshot(list: &TodoList, cap: usize) -> (r: TodoRenderSnapshot)
    ensures
        ({
            let all = views(list.items@);
            let (start, end) = window_of(all, cap as nat);
            &&& views(r.items@) == all.subrange(start, end)
            &&& r.anchor == less(anchor_of(all) as nat, start as nat)
            &&& r.hidden == all.len() - (end - start)
        }),
        r.wf(),
{
    let ghost all = views(list.items@);
    let n: usize = list.items.len();
    assert(all.len() == n);
    let window: Range<usize> = visible_todo_window(list, cap);
    let start: usize = window.start;
    let end: usize = window.end;
    let mut items: Vec<TodoItem> = Vec::new();
    let mut i: usize = start;
    while i < end
        invariant
            start <= i <= end <= list.items@.len(),
            all == views(list.items@),
            views(items@) == all.subrange(start as int, i as int),
        decreases end - i,
    {
        assert(all[i as int] == list.items@[i as int]@);
        items.push(
            TodoItem {
                content: own(list.items[i].content.as_str()),
                status: list.items[i].status,
            },
        );
        i += 1;
        assert(views(items@) =~= all.subrange(start as int, i as int));
    }
    assert(views(items@).len() == items@.len());
    let anchor: usize = anchor_index(list).saturating_sub(start);
    TodoRenderSnapshot { items, anchor, hidden: n - (end - start) }
}

// ---- How an item looks ----

pub open spec fn marker_of(status: Status) -> Seq<char> {
    match status {
        Status::Completed => "✓ "@,
        Status::InProgress => "▸ "@,
        Status::Pending => "○ "@,
    }
}

pub open spec fn marker_style_of(status: Status) -> Style {
    match status {
        Status::Completed => fg(SUCCESS),
        Status::InProgress => fg(RUNNING),
        Status::Pending => fg(MUTED),
    }
}

pub open spec fn content_style_of(status: Status) -> Style {
    match status {
        Status::InProgress => bold(fg(PRIMARY)),
        _ => fg(SECONDARY),
    }
}

/// The content in one line.
pub open spec fn content_of(item: TodoView) -> Seq<char> {
    safe(join(words(item.content), " "@))
}

/// An item as the rows it needs: a marker, and the content wrapped beside it.
pub open spec fn item_rows(item: TodoView, width: nat) -> Seq<LineView> {
    let marker = truncated(marker_of(item.status), width, Truncation::Right);
    let columns = text_width(marker);
    let rows = wrapped(
        line(seq![span(content_of(item), content_style_of(item.status))]),
        less(width, columns),
    );
    Seq::new(
        rows.len(),
        |i: int|
            line(
                seq![
                    if i == 0 {
                        span(marker, marker_style_of(item.status))
                    } else {
                        span(rep(' ', columns), plain())
                    },
                ] + rows[i].spans,
            ),
    )
}

fn marker(status: Status) -> (r: &'static str)
    ensures
        r@ == marker_of(status),
{
    match status {
        Status::Completed => "✓ ",
        Status::InProgress => "▸ ",
        Status::Pending => "○ ",
    }
}

fn marker_style(status: Status) -> (r: Style)
    ensures
        r == marker_style_of(status),
{
    match status {
        Status::Completed => Style::fg(SUCCESS),
        Status::InProgress => Style::fg(RUNNING),
        Status::Pending => Style::fg(MUTED),
    }
}

fn content_style(status: Status) -> (r: Style)
    ensures
        r == content_style_of(status),
{
    match status {
        Status::InProgress => Style::fg(PRIMARY).bold(),
        _ => Style::fg(SECONDARY),
    }
}

fn one_line(item: &TodoItem) -> (r: String)
    ensures
        r@ == content_of(item@),
{
    let parts: Vec<String> = split_words(item.content.as_str());
    safe_text(join_strings(&parts, " ").as_str())
}

pub fn todo_item_lines(item: &TodoItem, columns: u16) -> (r: Vec<Line>)
    ensures
        views(r@) == item_rows(item@, columns as nat),
{
    let mark: String = truncate_display(
        marker(item.status),
        columns as usize,
        Truncation::Right,
    );
    let taken: usize = width(mark.as_str());
    let remaining: usize = (columns as usize).saturating_sub(taken);
    let body: Line = Line::one(one_line(item).as_str(), content_style(item.status));
    let wrapped_rows: Vec<Line> = wrap_styled_line(&body, remaining);
    let style: Style = marker_style(item.status);
    let ghost rows = views(wrapped_rows@);
    let ghost want = item_rows(item@, columns as nat);
    assert(rows == wrapped(
        line(seq![span(content_of(item@), content_style_of(item@.status))]),
        remaining as nat,
    ));
    let mut out: Vec<Line> = Vec::new();
    let mut i: usize = 0;
    while i < wrapped_rows.len()
        invariant
            i <= wrapped_rows@.len(),
            rows == views(wrapped_rows@),
            style == marker_style_of(item@.status),
            taken == text_width(mark@),
            want.len() == rows.len(),
            forall|k: int|
                0 <= k < want.len() ==> #[trigger] want[k] == line(
                    seq![
                        if k == 0 {
                            span(mark@, marker_style_of(item@.status))
                        } else {
                            span(rep(' ', taken as nat), plain())
                        },
                    ] + rows[k].spans,
                ),
            views(out@) == want.take(i as int),
        decreases wrapped_rows@.len() - i,
    {
        assert(rows[i as int] == wrapped_rows@[i as int]@);
        let prefix: Span = if i == 0 {
            Span::styled(mark.as_str(), style)
        } else {
            Span::raw(repeat(' ', taken).as_str())
        };
        let ghost head = prefix@;
        let mut spans: Vec<Span> = Vec::new();
        spans.push(prefix);
        assert(views(spans@) =~= seq![head]);
        append_spans(&mut spans, &wrapped_rows[i].spans);
        let row: Line = Line::of(spans);
        assert(row@ == want[i as int]);
        out.push(row);
        i += 1;
        assert(views(out@) =~= want.take(i as int));
    }
    assert(want.take(i as int) =~= want);
    out
}

// ---- How many fit ----

/// The costs of `from..to`, added up.
pub open spec fn cost(costs: Seq<usize>, from: int, to: int) -> nat
    decreases to - from,
{
    if from < 0 || to > costs.len() || from >= to {
        0
    } else {
        cost(costs, from, to - 1) + costs[to - 1] as nat
    }
}

/// Where a run of this cost that ends before `end` ends when it has grown.
pub open spec fn grown(costs: Seq<usize>, end: int, used: nat, height: nat) -> int
    decreases costs.len() - end,
{
    if 0 <= end < costs.len() && used + costs[end] <= height {
        grown(costs, end + 1, used + costs[end] as nat, height)
    } else {
        end
    }
}

/// Where a run of this cost that begins at `start` begins when it has grown.
pub open spec fn grown_back(costs: Seq<usize>, start: int, used: nat, height: nat) -> int
    decreases start,
{
    if 0 < start <= costs.len() && used + costs[start - 1] <= height {
        grown_back(costs, start - 1, used + costs[start - 1] as nat, height)
    } else {
        start
    }
}

/// The run that fits and holds the anchor, grown forward and then backward. It
/// is empty where not even the anchor fits.
pub open spec fn run_of(costs: Seq<usize>, anchor: int, height: nat) -> (int, int) {
    if costs.len() == 0 || costs[anchor] > height {
        (anchor, anchor)
    } else {
        let end = grown(costs, anchor + 1, costs[anchor] as nat, height);
        (grown_back(costs, anchor, cost(costs, anchor, end), height), end)
    }
}

proof fn lemma_grown(costs: Seq<usize>, from: int, end: int, height: nat)
    requires
        0 <= from <= end <= costs.len(),
        cost(costs, from, end) <= height,
    ensures
        ({
            let to = grown(costs, end, cost(costs, from, end), height);
            &&& end <= to <= costs.len()
            &&& cost(costs, from, to) <= height
            &&& to < costs.len() ==> cost(costs, from, to) + costs[to] > height
        }),
    decreases costs.len() - end,
{
    if end < costs.len() && cost(costs, from, end) + costs[end] <= height {
        assert(cost(costs, from, end + 1) == cost(costs, from, end) + costs[end] as nat);
        lemma_grown(costs, from, end + 1, height);
    }
}

proof fn lemma_cost_front(costs: Seq<usize>, from: int, to: int)
    requires
        0 < from <= to <= costs.len(),
    ensures
        cost(costs, from - 1, to) == costs[from - 1] as nat + cost(costs, from, to),
    decreases to - from,
{
    if from < to {
        lemma_cost_front(costs, from, to - 1);
    } else {
        assert(cost(costs, from - 1, from - 1) == 0);
        assert(cost(costs, from - 1, from) == cost(costs, from - 1, from - 1) + costs[from
            - 1] as nat);
    }
}

proof fn lemma_grown_back(costs: Seq<usize>, start: int, end: int, height: nat)
    requires
        0 <= start <= end <= costs.len(),
        cost(costs, start, end) <= height,
    ensures
        ({
            let from = grown_back(costs, start, cost(costs, start, end), height);
            &&& 0 <= from <= start
            &&& cost(costs, from, end) <= height
            &&& from > 0 ==> cost(costs, from, end) + costs[from - 1] > height
        }),
    decreases start,
{
    if start > 0 {
        lemma_cost_front(costs, start, end);
        if cost(costs, start, end) + costs[start - 1] <= height {
            lemma_grown_back(costs, start - 1, end, height);
        }
    }
}

/// The run holds the anchor and fits, and neither neighbour would fit besides. It
/// is empty only where the anchor alone does not fit.
pub proof fn law_the_fitting_run_fits(costs: Seq<usize>, anchor: int, height: nat)
    requires
        0 <= anchor < costs.len(),
    ensures
        ({
            let (start, end) = run_of(costs, anchor, height);
            &&& 0 <= start <= anchor <= end <= costs.len()
            &&& costs[anchor] > height <==> start == end
            &&& costs[anchor] <= height ==> {
                &&& anchor < end
                &&& cost(costs, start, end) <= height
                &&& start > 0 ==> cost(costs, start, end) + costs[start - 1] > height
                &&& end < costs.len() ==> cost(costs, start, end) + costs[end] > height
            }
        }),
{
    if costs[anchor] <= height {
        assert(cost(costs, anchor, anchor) == 0);
        assert(cost(costs, anchor, anchor + 1) == costs[anchor] as nat);
        lemma_grown(costs, anchor, anchor + 1, height);
        let end = grown(costs, anchor + 1, costs[anchor] as nat, height);
        lemma_grown_back(costs, anchor, end, height);
        let start = grown_back(costs, anchor, cost(costs, anchor, end), height);
        lemma_cost_grows(costs, start, anchor, end);
    }
}

/// A longer run costs at least as much.
proof fn lemma_cost_grows(costs: Seq<usize>, start: int, from: int, to: int)
    requires
        0 <= start <= from <= to <= costs.len(),
    ensures
        cost(costs, start, to) >= cost(costs, from, to),
    decreases from - start,
{
    if start < from {
        lemma_cost_front(costs, from, to);
        lemma_cost_grows(costs, start, from - 1, to);
    }
}

pub fn fitting_run(costs: &[usize], anchor: usize, height: usize) -> (r: Range<usize>)
    requires
        costs@.len() > 0 ==> anchor < costs@.len(),
    ensures
        (r.start as int, r.end as int) == run_of(costs@, anchor as int, height as nat),
        costs@.len() > 0 ==> r.start <= anchor <= r.end <= costs@.len(),
{
    if costs.len() == 0 || costs[anchor] > height {
        return anchor..anchor;
    }
    assert(cost(costs@, anchor as int, anchor as int) == 0);
    let mut used: usize = costs[anchor];
    let mut end: usize = anchor + 1;
    while end < costs.len() && costs[end] <= height - used
        invariant
            anchor < end <= costs@.len(),
            used <= height,
            used == cost(costs@, anchor as int, end as int),
            grown(costs@, anchor + 1, costs@[anchor as int] as nat, height as nat) == grown(
                costs@,
                end as int,
                used as nat,
                height as nat,
            ),
        decreases costs@.len() - end,
    {
        used += costs[end];
        end += 1;
    }
    let mut start: usize = anchor;
    let ghost whole = used;
    while start > 0 && costs[start - 1] <= height - used
        invariant
            start <= anchor < end <= costs@.len(),
            used <= height,
            grown_back(costs@, anchor as int, whole as nat, height as nat) == grown_back(
                costs@,
                start as int,
                used as nat,
                height as nat,
            ),
        decreases start,
    {
        used += costs[start - 1];
        start -= 1;
    }
    start..end
}

// ---- The panel ----

/// A line with a note at its end. What is cut for the note's sake says so, unless
/// the note does.
pub open spec fn noted(l: LineView, width: nat, note: Seq<char>) -> LineView {
    let shown = truncated(note, width, Truncation::Right);
    let cells = cells_of(l.spans);
    let available = less(width, text_width(shown));
    let end = row_end(cells, 0, 0, available);
    let shortened = end < cells.len() && !holds(shown, "…"@) && available > 0;
    if shortened {
        let kept = row_end(cells, 0, 0, (available - 1) as nat);
        line(
            merged(cells.take(kept)).push(span("…"@, fg(MUTED))).push(span(shown, fg(MUTED))),
        )
    } else {
        line(merged(cells.take(end)).push(span(shown, fg(MUTED))))
    }
}

fn fitting_cells(cells: &Vec<StyledGrapheme>, available: usize) -> (r: usize)
    ensures
        r == row_end(views(cells@), 0, 0, available as nat),
        r <= cells@.len(),
{
    let ghost all = views(cells@);
    let mut end: usize = 0;
    let mut used: usize = 0;
    while end < cells.len() && cells[end].width <= available - used
        invariant
            end <= cells@.len(),
            used <= available,
            all == views(cells@),
            row_end(all, 0, 0, available as nat) == row_end(
                all,
                end as int,
                used as nat,
                available as nat,
            ),
        decreases cells@.len() - end,
    {
        assert(all[end as int] == cells@[end as int]@);
        used += cells[end].width;
        end += 1;
    }
    proof {
        assert(all.len() == cells@.len());
        if end < cells@.len() {
            assert(all[end as int] == cells@[end as int]@);
        }
    }
    end
}

fn append_todo_note(l: &Line, columns: usize, note: &str) -> (r: Line)
    ensures
        r@ == noted(l@, columns as nat, note@),
{
    let shown: String = truncate_display(note, columns, Truncation::Right);
    let cells: Vec<StyledGrapheme> = styled_graphemes(l);
    let ghost all = views(cells@);
    assert(all.len() == cells@.len());
    let available: usize = columns.saturating_sub(width(shown.as_str()));
    let end: usize = fitting_cells(&cells, available);
    let shortened: bool = end < cells.len() && !contains(shown.as_str(), "…") && available > 0;
    let kept: usize = if shortened {
        fitting_cells(&cells, available - 1)
    } else {
        end
    };
    assert(all.subrange(0, kept as int) =~= all.take(kept as int));
    let mut line: Line = styled_line(&cells, 0, kept);
    if shortened {
        line.spans.push(Span::styled("…", Style::fg(MUTED)));
    }
    line.spans.push(Span::styled(shown.as_str(), Style::fg(MUTED)));
    line
}

/// The rows of the items `from..to`.
pub open spec fn rows_of(items: Seq<TodoView>, width: nat, from: int, to: int) -> Seq<LineView>
    decreases to - from,
{
    if from < 0 || to > items.len() || from >= to {
        Seq::empty()
    } else {
        rows_of(items, width, from, to - 1) + item_rows(items[to - 1], width)
    }
}

/// How many rows each item needs.
pub open spec fn costs_of(items: Seq<TodoView>, width: nat) -> Seq<usize> {
    Seq::new(items.len(), |i: int| item_rows(items[i], width).len() as usize)
}

/// The way to see the rest, where there is room to say it.
pub open spec fn hint(width: nat) -> Seq<char> {
    if width >= 30 {
        " · ^T"@
    } else {
        ""@
    }
}

/// What is said of the items that are not shown.
pub open spec fn note_of(partial: bool, hidden: nat, width: nat) -> Seq<char> {
    if partial && hidden == 0 {
        "…"@ + hint(width)
    } else if partial {
        "… · +"@ + dec(hidden) + " hidden"@ + hint(width)
    } else {
        "+"@ + dec(hidden) + " hidden"@ + hint(width)
    }
}

/// The rows shown: those of the run that fits, or the first ones of the anchor.
/// With them, how many items they belong to and whether one is cut.
pub open spec fn rows_shown(items: Seq<TodoView>, anchor: int, width: nat, height: nat) -> (
    Seq<LineView>,
    nat,
    bool,
) {
    let (start, end) = run_of(costs_of(items, width), anchor, height);
    if start == end {
        let rows = item_rows(items[anchor], width);
        (
            if rows.len() > height {
                rows.take(height as int)
            } else {
                rows
            },
            1,
            rows.len() > height,
        )
    } else {
        (rows_of(items, width, start, end), (end - start) as nat, false)
    }
}

/// The panel: the rows that fit, and how much is hidden, in a row of its own or
/// at the end of the last one.
pub open spec fn panel(
    items: Seq<TodoView>,
    anchor: nat,
    hidden: nat,
    width: nat,
    height: nat,
) -> Seq<LineView> {
    if width == 0 || height == 0 {
        Seq::empty()
    } else if items.len() == 0 {
        seq![line(seq![span("— no todos"@, fg(MUTED))])]
    } else {
        let kept = if anchor < items.len() {
            anchor as int
        } else {
            items.len() - 1
        };
        let (rows, shown, partial) = rows_shown(items, kept, width, height);
        let unseen = hidden + less(items.len(), shown);
        if !partial && unseen == 0 {
            rows
        } else if rows.len() < height {
            rows.push(
                line(
                    seq![
                        span(
                            truncated(note_of(partial, unseen, width), width, Truncation::Right),
                            fg(MUTED),
                        ),
                    ],
                ),
            )
        } else {
            rows.drop_last().push(
                noted(rows.last(), width, " · "@ + note_of(partial, unseen, width)),
            )
        }
    }
}

fn note(partial: bool, hidden: usize, columns: u16) -> (r: String)
    ensures
        r@ == note_of(partial, hidden as nat, columns as nat),
{
    let hint: &str = if columns >= 30 {
        " · ^T"
    } else {
        ""
    };
    if partial && hidden == 0 {
        cat2("…", hint)
    } else {
        let count: String = decimal(hidden as u64);
        if partial {
            cat4("… · +", count.as_str(), " hidden", hint)
        } else {
            cat4("+", count.as_str(), " hidden", hint)
        }
    }
}

/// The rows of the items, one by one, and how many there are of each.
fn render_items(items: &Vec<TodoItem>, columns: u16) -> (r: (Vec<Vec<Line>>, Vec<usize>))
    ensures
        r.0@.len() == items@.len(),
        forall|i: int|
            0 <= i < items@.len() ==> views((#[trigger] r.0@[i])@) == item_rows(
                items@[i]@,
                columns as nat,
            ),
        r.1@ == costs_of(views(items@), columns as nat),
{
    let ghost all = views(items@);
    let ghost want = costs_of(all, columns as nat);
    let mut rendered: Vec<Vec<Line>> = Vec::new();
    let mut costs: Vec<usize> = Vec::new();
    let mut i: usize = 0;
    while i < items.len()
        invariant
            i <= items@.len(),
            all == views(items@),
            want == costs_of(all, columns as nat),
            rendered@.len() == i,
            forall|k: int|
                0 <= k < i ==> views((#[trigger] rendered@[k])@) == item_rows(
                    items@[k]@,
                    columns as nat,
                ),
            costs@ == want.take(i as int),
        decreases items@.len() - i,
    {
        assert(all[i as int] == items@[i as int]@);
        let rows: Vec<Line> = todo_item_lines(&items[i], columns);
        assert(views(rows@).len() == rows@.len());
        costs.push(rows.len());
        rendered.push(rows);
        i += 1;
        assert(costs@ =~= want.take(i as int));
    }
    assert(want.take(i as int) =~= want);
    (rendered, costs)
}

/// Copies of the first `n` lines, behind `out`.
fn push_copies(out: &mut Vec<Line>, lines: &Vec<Line>, n: usize)
    requires
        n <= lines@.len(),
    ensures
        views(final(out)@) == views(old(out)@) + views(lines@).take(n as int),
{
    let ghost before = views(out@);
    let mut i: usize = 0;
    assert(before + views(lines@).take(0) =~= before);
    while i < n
        invariant
            i <= n <= lines@.len(),
            views(out@) == before + views(lines@).take(i as int),
        decreases n - i,
    {
        out.push(lines[i].copy());
        assert(views(lines@)[i as int] == lines@[i as int]@);
        i += 1;
        assert(views(out@) =~= before + views(lines@).take(i as int));
    }
}

proof fn lemma_rows_are_costs(items: Seq<TodoView>, width: nat, from: int, to: int)
    requires
        0 <= from <= to <= items.len(),
        forall|i: int|
            0 <= i < items.len() ==> #[trigger] item_rows(items[i], width).len() <= usize::MAX,
    ensures
        rows_of(items, width, from, to).len() == cost(costs_of(items, width), from, to),
    decreases to - from,
{
    if from < to {
        lemma_rows_are_costs(items, width, from, to - 1);
        assert(item_rows(items[to - 1], width).len() <= usize::MAX);
    }
}

/// The panel never has more rows than there is room for.
pub proof fn law_the_panel_fits(
    items: Seq<TodoView>,
    anchor: nat,
    hidden: nat,
    width: nat,
    height: nat,
)
    requires
        forall|i: int|
            0 <= i < items.len() ==> #[trigger] item_rows(items[i], width).len() <= usize::MAX,
    ensures
        panel(items, anchor, hidden, width, height).len() <= height,
{
    if width > 0 && height > 0 && items.len() > 0 {
        let kept = if anchor < items.len() {
            anchor as int
        } else {
            items.len() - 1
        };
        let costs = costs_of(items, width);
        law_the_fitting_run_fits(costs, kept, height);
        let (start, end) = run_of(costs, kept, height);
        lemma_rows_are_costs(items, width, start, end);
    }
}

proof fn lemma_item_rows_within(item: TodoView, width: nat, i: int)
    requires
        width < usize::MAX,
        0 <= i < item_rows(item, width).len(),
    ensures
        within(item_rows(item, width)[i].spans, width),
{
    let mark = truncated(marker_of(item.status), width, Truncation::Right);
    let taken = text_width(mark);
    let body = line(seq![span(content_of(item), content_style_of(item.status))]);
    let remaining = less(width, taken);
    let style = marker_style_of(item.status);
    let row = wrapped(body, remaining)[i].spans;
    law_wrapped_lines_are_within_their_columns(body, remaining, i);
    if taken > width {
        law_a_truncation_is_within_its_columns(marker_of(item.status), width, style);
        lemma_within_join(seq![span(mark, style)], row, width, 0);
    } else {
        lemma_within_text(mark, style);
        lemma_within_blanks(taken, plain());
        lemma_within_join(seq![span(mark, style)], row, taken, remaining);
        lemma_within_join(seq![span(rep(' ', taken), plain())], row, taken, remaining);
    }
}

proof fn lemma_rows_of_within(items: Seq<TodoView>, width: nat, from: int, to: int, i: int)
    requires
        width < usize::MAX,
        0 <= i < rows_of(items, width, from, to).len(),
    ensures
        within(rows_of(items, width, from, to)[i].spans, width),
    decreases to - from,
{
    let before = rows_of(items, width, from, to - 1);
    if i < before.len() {
        lemma_rows_of_within(items, width, from, to - 1, i);
    } else {
        lemma_item_rows_within(items[to - 1], width, i - before.len());
    }
}

proof fn lemma_noted_within(l: LineView, width: nat, note: Seq<char>)
    ensures
        within(noted(l, width, note).spans, width),
{
    let shown = truncated(note, width, Truncation::Right);
    let taken = text_width(shown);
    let cells = cells_of(l.spans);
    let available = less(width, taken);
    let tail = seq![span(shown, fg(MUTED))];
    let room: nat = if taken > width {
        law_a_truncation_is_within_its_columns(note, width, fg(MUTED));
        width
    } else {
        lemma_within_text(shown, fg(MUTED));
        taken
    };
    let end = row_end(cells, 0, 0, available);
    lemma_cells_of_counted(l.spans);
    if end < cells.len() && !holds(shown, "…"@) && available > 0 {
        let kept = row_end(cells, 0, 0, (available - 1) as nat);
        lemma_front_within(cells, (available - 1) as nat);
        let head = merged(cells.take(kept));
        let cut = seq![span("…"@, fg(MUTED))];
        lemma_within_ellipsis(fg(MUTED));
        lemma_within_join(head, cut, (available - 1) as nat, 1);
        lemma_within_join(head + cut, tail, available, room);
        assert(noted(l, width, note).spans =~= head + cut + tail);
    } else {
        lemma_front_within(cells, available);
        let head = merged(cells.take(end));
        lemma_within_join(head, tail, available, room);
        assert(noted(l, width, note).spans =~= head + tail);
    }
}

/// The leading cells that fit count for no more columns than there are.
proof fn lemma_front_within(cells: Seq<Cell>, width: nat)
    requires
        counted(cells),
    ensures
        within(merged(cells.take(row_end(cells, 0, 0, width))), width),
{
    let end = row_end(cells, 0, 0, width);
    lemma_row_end(cells, 0, 0, width);
    let front = cells.take(end);
    assert(cells.subrange(0, end) =~= front);
    assert forall|i: int| 0 <= i < front.len() implies ({
        let c = #[trigger] front[i];
        c.width == text_width(c.text) || c.width == 1 && (c.text == "…"@ || c.text == " "@)
    }) by {
        assert(front[i] == cells[i]);
    }
    lemma_within_merged(front);
    lemma_within_more(merged(front), cells_width(front), width);
}

/// No row of the panel counts for more columns than there are. What stands for an
/// empty list is never cut, so it must fit.
pub proof fn law_the_panel_is_within_its_columns(
    items: Seq<TodoView>,
    anchor: nat,
    hidden: nat,
    width: nat,
    height: nat,
    i: int,
)
    requires
        width < usize::MAX,
        0 <= i < panel(items, anchor, hidden, width, height).len(),
        items.len() == 0 ==> text_width("— no todos"@) <= width,
    ensures
        within(panel(items, anchor, hidden, width, height)[i].spans, width),
{
    if items.len() == 0 {
        let words = "— no todos"@;
        lemma_within_text(words, fg(MUTED));
        lemma_within_more(seq![span(words, fg(MUTED))], text_width(words), width);
    } else {
        let kept = if anchor < items.len() {
            anchor as int
        } else {
            items.len() - 1
        };
        let (start, end) = run_of(costs_of(items, width), kept, height);
        let (rows, shown, partial) = rows_shown(items, kept, width, height);
        let unseen = hidden + less(items.len(), shown);
        let note = note_of(partial, unseen, width);
        law_a_truncation_is_within_its_columns(note, width, fg(MUTED));
        lemma_noted_within(rows.last(), width, " · "@ + note);
        if i < rows.len() {
            if start == end {
                lemma_item_rows_within(items[kept], width, i);
            } else {
                lemma_rows_of_within(items, width, start, end, i);
            }
        }
    }
}

pub fn render_todo_sidebar_snapshot(snapshot: &TodoRenderSnapshot, columns: u16, height: u16) -> (r:
    Vec<Line>)
    requires
        snapshot.wf(),
    ensures
        views(r@) == panel(
            views(snapshot.items@),
            snapshot.anchor as nat,
            snapshot.hidden as nat,
            columns as nat,
            height as nat,
        ),
{
    let ghost items = views(snapshot.items@);
    assert(items.len() == snapshot.items@.len());
    let mut output: Vec<Line> = Vec::new();
    if columns == 0 || height == 0 {
        return output;
    }
    if snapshot.items.len() == 0 {
        output.push(Line::one("— no todos", Style::fg(MUTED)));
        assert(views(output@) =~= seq![line(seq![span("— no todos"@, fg(MUTED))])]);
        return output;
    }
    let (rendered, costs) = render_items(&snapshot.items, columns);
    let n: usize = rendered.len();
    let high: usize = height as usize;
    let anchor: usize = if snapshot.anchor < n {
        snapshot.anchor
    } else {
        n - 1
    };
    let run: Range<usize> = fitting_run(costs.as_slice(), anchor, high);
    let start: usize = run.start;
    let end: usize = run.end;
    let mut shown: usize = end - start;
    let mut partial: bool = false;
    let mut i: usize = start;
    while i < end
        invariant
            start <= i <= end <= n,
            n == rendered@.len(),
            n == snapshot.items@.len(),
            items == views(snapshot.items@),
            forall|k: int|
                0 <= k < n ==> views((#[trigger] rendered@[k])@) == item_rows(
                    snapshot.items@[k]@,
                    columns as nat,
                ),
            views(output@) == rows_of(items, columns as nat, start as int, i as int),
        decreases end - i,
    {
        assert(items[i as int] == snapshot.items@[i as int]@);
        let all: usize = rendered[i].len();
        push_copies(&mut output, &rendered[i], all);
        assert(views(rendered@[i as int]@).take(all as int) =~= views(rendered@[i as int]@));
        i += 1;
    }
    if shown == 0 {
        assert(items[anchor as int] == snapshot.items@[anchor as int]@);
        let all: usize = rendered[anchor].len();
        let ghost rows = views(rendered@[anchor as int]@);
        assert(rows.len() == all);
        let some: usize = if all > high {
            high
        } else {
            all
        };
        push_copies(&mut output, &rendered[anchor], some);
        assert(views(output@) =~= rows.take(some as int));
        assert(all <= high ==> rows.take(some as int) =~= rows);
        partial = all > high;
        shown = 1;
    }
    let ghost kept = rows_shown(items, anchor as int, columns as nat, height as nat);
    assert(views(output@) == kept.0 && shown == kept.1 && partial == kept.2);
    let hidden: usize = snapshot.hidden + n.saturating_sub(shown);
    if !partial && hidden == 0 {
        return output;
    }
    let message: String = note(partial, hidden, columns);
    assert(views(output@).len() == output@.len());
    if output.len() < high {
        let ghost before = views(output@);
        let fitted: String = truncate_display(
            message.as_str(),
            columns as usize,
            Truncation::Right,
        );
        output.push(Line::one(fitted.as_str(), Style::fg(MUTED)));
    } else {
        let ghost before = views(output@);
        let last: Option<Line> = output.pop();
        if let Some(last) = last {
            let tail: String = cat2(" · ", message.as_str());
            assert(views(output@) =~= before.drop_last());
            output.push(append_todo_note(&last, columns as usize, tail.as_str()));
        }
    }
    output
}

// ---- In one line ----

/// The item in sight, in one line.
pub open spec fn summary_of(item: TodoView, hidden: nat, width: nat) -> LineView {
    let suffix = if hidden > 0 {
        " · +"@ + dec(hidden)
    } else {
        Seq::empty()
    };
    let fixed = text_width("todos "@) + text_width(marker_of(item.status)) + text_width(suffix);
    let content = truncated(content_of(item), less(width, fixed), Truncation::Right);
    line(
        seq![
            span(
                truncated(
                    "todos "@ + marker_of(item.status) + content + suffix,
                    width,
                    Truncation::Right,
                ),
                marker_style_of(item.status),
            ),
        ],
    )
}

/// The item in sight, in one line, counts for no more columns than there are.
pub proof fn law_the_summary_is_within_its_columns(item: TodoView, hidden: nat, width: nat)
    ensures
        within(summary_of(item, hidden, width).spans, width),
{
    let suffix = if hidden > 0 {
        " · +"@ + dec(hidden)
    } else {
        Seq::empty()
    };
    let fixed = text_width("todos "@) + text_width(marker_of(item.status)) + text_width(suffix);
    let content = truncated(content_of(item), less(width, fixed), Truncation::Right);
    law_a_truncation_is_within_its_columns(
        "todos "@ + marker_of(item.status) + content + suffix,
        width,
        marker_style_of(item.status),
    );
}

pub fn todo_summary(snapshot: &TodoRenderSnapshot, columns: u16) -> (r: Option<Line>)
    ensures
        match r {
            Some(l) => columns > 0 && snapshot.anchor < snapshot.items@.len() && l@ == summary_of(
                snapshot.items@[snapshot.anchor as int]@,
                snapshot.hidden as nat,
                columns as nat,
            ),
            None => columns == 0 || snapshot.anchor >= snapshot.items@.len(),
        },
{
    if snapshot.anchor >= snapshot.items.len() || columns == 0 {
        return None;
    }
    let item: &TodoItem = &snapshot.items[snapshot.anchor];
    let suffix: String = if snapshot.hidden > 0 {
        cat2(" · +", decimal(snapshot.hidden as u64).as_str())
    } else {
        String::new()
    };
    let mark: &str = marker(item.status);
    let room: usize = (columns as usize).saturating_sub(width("todos ")).saturating_sub(
        width(mark),
    ).saturating_sub(width(suffix.as_str()));
    let content: String = truncate_display(one_line(item).as_str(), room, Truncation::Right);
    let text: String = cat4("todos ", mark, content.as_str(), suffix.as_str());
    let fitted: String = truncate_display(text.as_str(), columns as usize, Truncation::Right);
    Some(Line::one(fitted.as_str(), marker_style(item.status)))
}

proof fn lemma_first_found(items: Seq<TodoView>, i: int, at: int, status: Status)
    requires
        0 <= i <= at <= items.len(),
        at < items.len() ==> items[at].status == status,
        forall|k: int| i <= k < at ==> (#[trigger] items[k]).status != status,
    ensures
        first_of(items, i, status) == at,
    decreases at - i,
{
    if i < at {
        assert(items[i].status != status);
        lemma_first_found(items, i + 1, at, status);
    }
}

proof fn lemma_last_found(items: Seq<TodoView>, n: int, at: int, status: Status)
    requires
        0 <= at < n <= items.len(),
        items[at].status == status,
        forall|k: int| at < k < n ==> (#[trigger] items[k]).status != status,
    ensures
        last_of(items, n, status) == at,
    decreases n,
{
    if at < n - 1 {
        assert(items[n - 1].status != status);
        lemma_last_found(items, n - 1, at, status);
    }
}

/// What must stay in sight is the first item in progress; where none is, the first that
/// is still to do; where all are done, the last.
pub proof fn law_what_is_worked_on_stays_in_sight(items: Seq<TodoView>, at: int)
    requires
        0 <= at < items.len(),
    ensures
        items[at].status == Status::InProgress && (forall|k: int|
            0 <= k < at ==> (#[trigger] items[k]).status != Status::InProgress) ==> anchor_of(items)
            == at,
        items[at].status == Status::Pending && (forall|k: int|
            0 <= k < items.len() ==> (#[trigger] items[k]).status != Status::InProgress) && (
        forall|k: int| 0 <= k < at ==> (#[trigger] items[k]).status != Status::Pending)
            ==> anchor_of(items) == at,
        at == items.len() - 1 && (forall|k: int|
            0 <= k < items.len() ==> (#[trigger] items[k]).status == Status::Completed)
            ==> anchor_of(items) == at,
{
    let n = items.len() as int;
    if items[at].status == Status::InProgress && (forall|k: int|
        0 <= k < at ==> (#[trigger] items[k]).status != Status::InProgress) {
        lemma_first_found(items, 0, at, Status::InProgress);
    }
    if items[at].status == Status::Pending && (forall|k: int|
        0 <= k < items.len() ==> (#[trigger] items[k]).status != Status::InProgress) && (
    forall|k: int| 0 <= k < at ==> (#[trigger] items[k]).status != Status::Pending) {
        lemma_first_found(items, 0, n, Status::InProgress);
        lemma_first_found(items, 0, at, Status::Pending);
    }
    if at == n - 1 && (forall|k: int|
        0 <= k < items.len() ==> (#[trigger] items[k]).status == Status::Completed) {
        lemma_first_found(items, 0, n, Status::InProgress);
        lemma_first_found(items, 0, n, Status::Pending);
        lemma_last_found(items, n, at, Status::Completed);
    }
}

/// An item shows how it stands by a sign and its colour, and its content beside it: the
/// one in progress stands out.
pub proof fn law_an_item_shows_how_it_stands(item: TodoView, width: nat)
    requires
        text_width(marker_of(item.status)) < width,
        text_width(content_of(item)) <= width - text_width(marker_of(item.status)),
        width <= usize::MAX,
    ensures
        ({
            let rows = item_rows(item, width);
            let sign = rows[0].spans[0];
            let said = rows[0].spans[1];
            &&& rows.len() == 1
            &&& rows[0].spans.len() == 2
            &&& said.content == content_of(item)
            &&& match item.status {
                Status::Completed => sign.content == seq!['✓', ' '] && sign.style.fg == Some(
                    SUCCESS,
                ) && said.style.fg == Some(SECONDARY) && !said.style.modifier.bold,
                Status::InProgress => sign.content == seq!['▸', ' '] && sign.style.fg == Some(
                    RUNNING,
                ) && said.style.fg == Some(PRIMARY) && said.style.modifier.bold,
                Status::Pending => sign.content == seq!['○', ' '] && sign.style.fg == Some(MUTED)
                    && said.style.fg == Some(SECONDARY) && !said.style.modifier.bold,
            }
        }),
{
    reveal_strlit("✓ ");
    reveal_strlit("▸ ");
    reveal_strlit("○ ");
    assert("✓ "@ =~= seq!['✓', ' ']);
    assert("▸ "@ =~= seq!['▸', ' ']);
    assert("○ "@ =~= seq!['○', ' ']);
    let spans = seq![span(content_of(item), content_style_of(item.status))];
    assert(spans.drop_last() =~= Seq::empty());
    assert(spans_width(spans.drop_last()) == 0);
    assert(line_width(line(spans)) == text_width(content_of(item)));
}

/// What is not shown is counted.
pub proof fn law_what_is_hidden_is_counted(hidden: nat, width: nat)
    ensures
        width < 30 ==> note_of(false, hidden, width) == seq!['+'] + dec(hidden) + seq![
            ' ',
            'h',
            'i',
            'd',
            'd',
            'e',
            'n',
        ],
        width >= 30 ==> note_of(false, hidden, width) == seq!['+'] + dec(hidden) + seq![
            ' ',
            'h',
            'i',
            'd',
            'd',
            'e',
            'n',
            ' ',
            '·',
            ' ',
            '^',
            'T',
        ],
{
    reveal_strlit("+");
    reveal_strlit(" hidden");
    reveal_strlit(" · ^T");
    reveal_strlit("");
    assert(note_of(false, hidden, width) =~= (if width < 30 {
        seq!['+'] + dec(hidden) + seq![' ', 'h', 'i', 'd', 'd', 'e', 'n']
    } else {
        seq!['+'] + dec(hidden) + seq![
            ' ',
            'h',
            'i',
            'd',
            'd',
            'e',
            'n',
            ' ',
            '·',
            ' ',
            '^',
            'T',
        ]
    }));
}

} // verus!
