//! Text measurement, truncation, wrapping and value formatting.

use vstd::prelude::*;
use crate::chars::{
    all_white, byte_len, cat2, cat3, char_len, concat, find_char, find_from, from_range,
    group_views, is_blank, own, same, to_chars, views,
};
use crate::measure::{clusters, graphemes, text_width, width};
use crate::style::{
    blank, line, line_width, span, spans_text, Line, LineView, Span, SpanView, Style,
};
use crate::theme::CODE;

verus! {

broadcast use group_views;

/// One grapheme cluster, the style it is painted in and its columns.
#[derive(Debug)]
pub struct StyledGrapheme {
    pub text: String,
    pub style: Style,
    pub width: usize,
}

#[verifier::ext_equal]
pub struct Cell {
    pub text: Seq<char>,
    pub style: Style,
    pub width: nat,
}

impl View for StyledGrapheme {
    type V = Cell;

    open spec fn view(&self) -> Cell {
        Cell { text: self.text@, style: self.style, width: self.width as nat }
    }
}

/// The clusters of one span.
pub open spec fn span_cells(s: SpanView) -> Seq<Cell> {
    clusters(s.content).map_values(
        |g: Seq<char>| Cell { text: g, style: s.style, width: text_width(g) },
    )
}

/// The clusters of the spans, in order.
pub open spec fn cells_of(spans: Seq<SpanView>) -> Seq<Cell>
    decreases spans.len(),
{
    if spans.len() == 0 {
        Seq::empty()
    } else {
        cells_of(spans.drop_last()) + span_cells(spans.last())
    }
}

/// A cluster too wide for any row of `width` columns gives way to an ellipsis.
pub open spec fn clamp(c: Cell, width: nat) -> Cell {
    if c.width > width {
        Cell { text: "…"@, style: c.style, width: 1 }
    } else {
        c
    }
}

/// The clusters of the spans as rows of `width` columns take them.
pub open spec fn clamped(spans: Seq<SpanView>, width: nat) -> Seq<Cell> {
    cells_of(spans).map_values(|c: Cell| clamp(c, width))
}

/// The columns of the cells, added up.
pub open spec fn cells_width(cells: Seq<Cell>) -> nat
    decreases cells.len(),
{
    if cells.len() == 0 {
        0
    } else {
        cells_width(cells.drop_last()) + cells.last().width
    }
}

/// The text of the cells.
pub open spec fn cells_text(cells: Seq<Cell>) -> Seq<char>
    decreases cells.len(),
{
    if cells.len() == 0 {
        Seq::empty()
    } else {
        cells_text(cells.drop_last()) + cells.last().text
    }
}

/// The cells as spans, with neighbours of one style in one span.
pub open spec fn merged(cells: Seq<Cell>) -> Seq<SpanView>
    decreases cells.len(),
{
    if cells.len() == 0 {
        Seq::empty()
    } else {
        let before = merged(cells.drop_last());
        let cell = cells.last();
        if before.len() > 0 && before.last().style == cell.style {
            before.drop_last().push(span(before.last().content + cell.text, cell.style))
        } else {
            before.push(span(cell.text, cell.style))
        }
    }
}

/// Each row of cells as a line.
pub open spec fn rows(cells: Seq<Seq<Cell>>) -> Seq<LineView> {
    cells.map_values(|row: Seq<Cell>| line(merged(row)))
}

/// Cut into rows at the last cell that fits, wherever that is.
pub open spec fn hard_rows(cells: Seq<Cell>, width: nat) -> Seq<Seq<Cell>>
    decreases cells.len(),
{
    if cells.len() == 0 {
        Seq::empty()
    } else {
        let before = hard_rows(cells.drop_last(), width);
        let cell = cells.last();
        if before.len() > 0 && cells_width(before.last()) + cell.width <= width {
            before.drop_last().push(before.last().push(cell))
        } else {
            before.push(seq![cell])
        }
    }
}

/// Where a row that starts at `start` is full, `used` columns being taken up
/// to `end`.
pub open spec fn row_end(cells: Seq<Cell>, end: int, used: nat, width: nat) -> int
    decreases cells.len() - end,
{
    if 0 <= end < cells.len() && used + cells[end].width <= width {
        row_end(cells, end + 1, used + cells[end].width, width)
    } else {
        end
    }
}

/// The first cell at or after `from` that is not white space, before `to`.
pub open spec fn content_from(cells: Seq<Cell>, from: int, to: int) -> int
    decreases to - from,
{
    if 0 <= from < to && all_white(cells[from].text) {
        content_from(cells, from + 1, to)
    } else {
        from
    }
}

/// The last white cell from `from` on and before `to`, or `from - 1`.
pub open spec fn last_white(cells: Seq<Cell>, from: int, to: int) -> int
    decreases to - from,
{
    if from < to {
        if all_white(cells[to - 1].text) {
            to - 1
        } else {
            last_white(cells, from, to - 1)
        }
    } else {
        from - 1
    }
}

/// The row that starts at `start`: where it ends, and where the next one starts.
/// It breaks at white space where there is some behind the first word, and the
/// white space at a break belongs to neither row.
pub open spec fn wrap_step(cells: Seq<Cell>, start: int, width: nat) -> (int, int) {
    let end = row_end(cells, start, 0, width);
    let len = cells.len() as int;
    if end >= len {
        (len, len)
    } else if end <= start {
        (start + 1, start + 1)
    } else if all_white(cells[end].text) {
        (end, content_from(cells, end + 1, len))
    } else {
        let first = content_from(cells, start, end);
        let gap = last_white(cells, first, end);
        if first < end && gap >= first {
            (gap, content_from(cells, gap + 1, len))
        } else {
            (end, end)
        }
    }
}

/// The rows of the cells from `start` on, broken at words.
pub open spec fn wrap_rows(cells: Seq<Cell>, start: int, width: nat) -> Seq<Seq<Cell>>
    decreases cells.len() - start,
    when 0 <= start
    via wrap_rows_decreases
{
    if start >= cells.len() {
        Seq::empty()
    } else {
        let step = wrap_step(cells, start, width);
        seq![cells.subrange(start, step.0)] + wrap_rows(cells, step.1, width)
    }
}

#[via_fn]
proof fn wrap_rows_decreases(cells: Seq<Cell>, start: int, width: nat) {
    if start < cells.len() {
        lemma_wrap_step(cells, start, width);
    }
}

/// A line cut into rows of `width` columns, word by word where it can be.
pub open spec fn wrapped(l: LineView, width: nat) -> Seq<LineView> {
    if width == 0 {
        seq![blank()]
    } else if line_width(l) <= width {
        seq![l]
    } else {
        let cells = clamped(l.spans, width);
        if cells.len() == 0 {
            seq![blank()]
        } else {
            rows(wrap_rows(cells, 0, width))
        }
    }
}

/// A line cut into rows of `width` columns wherever they are full.
pub open spec fn hard_wrapped(l: LineView, width: nat) -> Seq<LineView> {
    if width == 0 {
        seq![blank()]
    } else if line_width(l) <= width {
        seq![l]
    } else {
        rows(hard_rows(clamped(l.spans, width), width))
    }
}

/// A code line starts with a gutter in the code colour.
pub open spec fn preformatted(l: LineView) -> bool {
    l.spans.len() > 0 && l.spans[0].content == "│ "@ && l.spans[0].style.fg == Some(CODE)
}

pub proof fn lemma_row_end(cells: Seq<Cell>, end: int, used: nat, width: nat)
    requires
        0 <= end <= cells.len(),
    ensures
        end <= row_end(cells, end, used, width) <= cells.len(),
        used <= width ==> used + cells_width(
            cells.subrange(end, row_end(cells, end, used, width)),
        ) <= width,
        row_end(cells, end, used, width) == end <==> end == cells.len() || used + cells[end].width
            > width,
    decreases cells.len() - end,
{
    let stop = row_end(cells, end, used, width);
    if end < cells.len() && used + cells[end].width <= width {
        lemma_row_end(cells, end + 1, used + cells[end].width, width);
        lemma_cells_width_front(cells.subrange(end, stop));
        assert(cells.subrange(end, stop).drop_first() =~= cells.subrange(end + 1, stop));
    }
}

pub proof fn lemma_cells_width_front(cells: Seq<Cell>)
    requires
        cells.len() > 0,
    ensures
        cells_width(cells) == cells[0].width + cells_width(cells.drop_first()),
    decreases cells.len(),
{
    if cells.len() == 1 {
        assert(cells.drop_last() =~= Seq::empty());
        assert(cells.drop_first() =~= Seq::empty());
        assert(cells_width(cells.drop_last()) == 0);
    } else {
        lemma_cells_width_front(cells.drop_last());
        assert(cells.drop_last().drop_first() =~= cells.drop_first().drop_last());
    }
}

proof fn lemma_cells_width_split(cells: Seq<Cell>, i: int)
    requires
        0 <= i <= cells.len(),
    ensures
        cells_width(cells) == cells_width(cells.take(i)) + cells_width(cells.skip(i)),
    decreases cells.len(),
{
    if i == cells.len() {
        assert(cells.take(i) =~= cells);
        assert(cells.skip(i) =~= Seq::empty());
    } else {
        lemma_cells_width_split(cells.drop_last(), i);
        assert(cells.drop_last().take(i) =~= cells.take(i));
        assert(cells.drop_last().skip(i) =~= cells.skip(i).drop_last());
    }
}

proof fn lemma_content_from(cells: Seq<Cell>, from: int, to: int)
    requires
        0 <= from <= to,
    ensures
        from <= content_from(cells, from, to) <= to,
        content_from(cells, from, to) < to ==> !all_white(
            cells[content_from(cells, from, to)].text,
        ),
        forall|i: int|
            from <= i < content_from(cells, from, to) ==> all_white((#[trigger] cells[i]).text),
    decreases to - from,
{
    if from < to && all_white(cells[from].text) {
        lemma_content_from(cells, from + 1, to);
    }
}

proof fn lemma_last_white(cells: Seq<Cell>, from: int, to: int)
    requires
        0 <= from <= to,
    ensures
        from - 1 <= last_white(cells, from, to) < to || from == to,
        last_white(cells, from, to) >= from ==> all_white(cells[last_white(cells, from, to)].text)
            && last_white(cells, from, to) < to,
    decreases to - from,
{
    if from < to && !all_white(cells[to - 1].text) {
        lemma_last_white(cells, from, to - 1);
    }
}

/// A step of the wrap goes forward, and what it skips is white space.
pub proof fn lemma_wrap_step(cells: Seq<Cell>, start: int, width: nat)
    requires
        0 <= start < cells.len(),
    ensures
        ({
            let step = wrap_step(cells, start, width);
            &&& start < step.0 <= step.1 <= cells.len()
            &&& forall|i: int| step.0 <= i < step.1 ==> all_white((#[trigger] cells[i]).text)
            &&& cells_width(cells.subrange(start, step.0)) <= width || step.0 == start + 1
                && cells[start].width > width
        }),
{
    lemma_row_end(cells, start, 0, width);
    let end = row_end(cells, start, 0, width);
    let len = cells.len() as int;
    let step = wrap_step(cells, start, width);
    if end < len && end > start {
        if all_white(cells[end].text) {
            lemma_content_from(cells, end + 1, len);
        } else {
            lemma_content_from(cells, start, end);
            let first = content_from(cells, start, end);
            lemma_last_white(cells, first, end);
            let gap = last_white(cells, first, end);
            if first < end && gap >= first {
                lemma_content_from(cells, gap + 1, len);
                assert(gap > first);
            }
        }
    }
    if end > start {
        let row = cells.subrange(start, end);
        lemma_cells_width_split(row, step.0 - start);
        assert(row.take(step.0 - start) =~= cells.subrange(start, step.0));
    }
}

/// The cells that are not white space.
pub open spec fn ink(cells: Seq<Cell>) -> Seq<Cell> {
    cells.filter(|c: Cell| !all_white(c.text))
}

/// The rows one after the other.
pub open spec fn unrolled(rows: Seq<Seq<Cell>>) -> Seq<Cell>
    decreases rows.len(),
{
    if rows.len() == 0 {
        Seq::empty()
    } else {
        rows[0] + unrolled(rows.drop_first())
    }
}

/// No row of a wrapped line is wider than it may be, and none is empty.
pub proof fn law_wrapped_rows_fit(spans: Seq<SpanView>, width: nat)
    requires
        width > 0,
    ensures
        forall|i: int|
            0 <= i < wrap_rows(clamped(spans, width), 0, width).len() ==> {
                let row = #[trigger] wrap_rows(clamped(spans, width), 0, width)[i];
                row.len() > 0 && cells_width(row) <= width
            },
{
    lemma_wrap_rows_fit(clamped(spans, width), 0, width);
}

proof fn lemma_wrap_rows_fit(cells: Seq<Cell>, start: int, width: nat)
    requires
        0 <= start,
        forall|k: int| 0 <= k < cells.len() ==> (#[trigger] cells[k]).width <= width,
    ensures
        forall|i: int|
            0 <= i < wrap_rows(cells, start, width).len() ==> {
                let row = #[trigger] wrap_rows(cells, start, width)[i];
                row.len() > 0 && cells_width(row) <= width
            },
    decreases cells.len() - start,
{
    if start < cells.len() {
        lemma_wrap_step(cells, start, width);
        let step = wrap_step(cells, start, width);
        lemma_wrap_rows_fit(cells, step.1, width);
        let rest = wrap_rows(cells, step.1, width);
        let all = wrap_rows(cells, start, width);
        assert forall|i: int| 0 <= i < all.len() implies ({
            let row = #[trigger] all[i];
            row.len() > 0 && cells_width(row) <= width
        }) by {
            if i > 0 {
                assert(all[i] == rest[i - 1]);
            }
        }
    }
}

proof fn lemma_row_end_is_full(cells: Seq<Cell>, start: int, end: int, width: nat)
    requires
        0 <= start <= end <= cells.len(),
    ensures
        ({
            let stop = row_end(cells, end, cells_width(cells.subrange(start, end)), width);
            stop < cells.len() ==> cells_width(cells.subrange(start, stop + 1)) > width
        }),
    decreases cells.len() - end,
{
    let used = cells_width(cells.subrange(start, end));
    if end < cells.len() {
        let more = cells.subrange(start, end + 1);
        assert(more.drop_last() =~= cells.subrange(start, end));
        assert(cells_width(more) == used + cells[end].width);
        if used + cells[end].width <= width {
            lemma_row_end_is_full(cells, start, end + 1, width);
        }
    }
}

proof fn lemma_longer_is_wider(cells: Seq<Cell>, start: int, mid: int, end: int)
    requires
        0 <= start <= mid <= end <= cells.len(),
    ensures
        cells_width(cells.subrange(start, mid)) <= cells_width(cells.subrange(start, end)),
{
    let whole = cells.subrange(start, end);
    lemma_cells_width_split(whole, mid - start);
    assert(whole.take(mid - start) =~= cells.subrange(start, mid));
}

/// A row takes every word that fits: with the next word the row would be too wide,
/// `m` being where that word ends.
pub proof fn law_a_row_takes_every_word_that_fits(
    cells: Seq<Cell>,
    start: int,
    width: nat,
    m: int,
)
    requires
        0 <= start < cells.len(),
        wrap_step(cells, start, width).1 < m <= cells.len(),
        m == cells.len() || all_white(cells[m].text),
    ensures
        cells_width(cells.subrange(start, m)) > width,
{
    let end = row_end(cells, start, 0, width);
    let len = cells.len() as int;
    lemma_row_end(cells, start, 0, width);
    assert(cells.subrange(start, start) =~= Seq::empty());
    lemma_row_end_is_full(cells, start, start, width);
    lemma_wrap_step(cells, start, width);
    let step = wrap_step(cells, start, width);
    if end < len && end > start && !all_white(cells[end].text) {
        lemma_content_from(cells, start, end);
        let first = content_from(cells, start, end);
        lemma_last_white(cells, first, end);
        let gap = last_white(cells, first, end);
        if first < end && gap >= first {
            lemma_content_from(cells, gap + 1, len);
            lemma_after_last_white(cells, first, end);
            if gap + 1 < end {
                assert(!all_white(cells[gap + 1].text));
            }
            assert(step.1 <= end);
            if m <= end {
                assert(!all_white(cells[m].text));
            }
        }
    }
    assert(m >= end + 1);
    lemma_longer_is_wider(cells, start, end + 1, m);
}

proof fn lemma_after_last_white(cells: Seq<Cell>, from: int, to: int)
    requires
        0 <= from <= to,
    ensures
        forall|i: int|
            last_white(cells, from, to) < i < to && from <= i ==> !all_white(
                (#[trigger] cells[i]).text,
            ),
    decreases to - from,
{
    if from < to && !all_white(cells[to - 1].text) {
        lemma_after_last_white(cells, from, to - 1);
    }
}

/// A row that the next one follows without a gap holds one word at most.
pub proof fn lemma_broken_word(cells: Seq<Cell>, start: int, width: nat, a: int, b: int)
    requires
        0 <= start < cells.len(),
        start <= a < b < wrap_step(cells, start, width).0,
        wrap_step(cells, start, width).0 == wrap_step(cells, start, width).1,
        wrap_step(cells, start, width).0 < cells.len(),
        !all_white(cells[a].text),
    ensures
        !all_white(cells[b].text),
{
    let end = row_end(cells, start, 0, width);
    let len = cells.len() as int;
    lemma_row_end(cells, start, 0, width);
    if end < len && end > start {
        if all_white(cells[end].text) {
            lemma_content_from(cells, end + 1, len);
        } else {
            let first = content_from(cells, start, end);
            lemma_content_from(cells, start, end);
            lemma_last_white(cells, first, end);
            let gap = last_white(cells, first, end);
            if first < end && gap >= first {
                lemma_content_from(cells, gap + 1, len);
            } else {
                lemma_after_last_white(cells, first, end);
                assert(first <= a);
            }
        }
    }
}

/// Wrapping keeps every cell that is not white space, in order.
pub proof fn law_wrapping_keeps_the_ink(spans: Seq<SpanView>, width: nat)
    ensures
        ink(unrolled(wrap_rows(clamped(spans, width), 0, width))) == ink(clamped(spans, width)),
{
    let cells = clamped(spans, width);
    lemma_wrap_keeps_ink(cells, 0, width);
    assert(cells.skip(0) =~= cells);
}

proof fn lemma_wrap_keeps_ink(cells: Seq<Cell>, start: int, width: nat)
    requires
        0 <= start <= cells.len(),
    ensures
        ink(unrolled(wrap_rows(cells, start, width))) == ink(cells.skip(start)),
    decreases cells.len() - start,
{
    let dark = |c: Cell| !all_white(c.text);
    if start < cells.len() {
        lemma_wrap_step(cells, start, width);
        let step = wrap_step(cells, start, width);
        lemma_wrap_keeps_ink(cells, step.1, width);
        let row = cells.subrange(start, step.0);
        let gap = cells.subrange(step.0, step.1);
        let rest = wrap_rows(cells, step.1, width);
        assert(wrap_rows(cells, start, width).drop_first() =~= rest);
        assert(cells.skip(start) =~= row + (gap + cells.skip(step.1)));
        Seq::filter_distributes_over_add(row, unrolled(rest), dark);
        Seq::filter_distributes_over_add(row, gap + cells.skip(step.1), dark);
        Seq::filter_distributes_over_add(gap, cells.skip(step.1), dark);
        lemma_white_has_no_ink(gap);
        assert(ink(gap) + ink(cells.skip(step.1)) =~= ink(cells.skip(step.1)));
    } else {
        assert(cells.skip(start) =~= Seq::empty());
    }
}

proof fn lemma_white_has_no_ink(cells: Seq<Cell>)
    requires
        forall|i: int| 0 <= i < cells.len() ==> all_white((#[trigger] cells[i]).text),
    ensures
        ink(cells) == Seq::<Cell>::empty(),
    decreases cells.len(),
{
    reveal(Seq::filter);
    if cells.len() > 0 {
        lemma_white_has_no_ink(cells.drop_last());
    }
}

/// Cutting a line hard loses nothing, and no row is wider than it may be.
pub proof fn law_hard_rows_keep_every_cell(spans: Seq<SpanView>, width: nat)
    requires
        width > 0,
    ensures
        unrolled(hard_rows(clamped(spans, width), width)) == clamped(spans, width),
        forall|i: int|
            0 <= i < hard_rows(clamped(spans, width), width).len() ==> {
                let row = #[trigger] hard_rows(clamped(spans, width), width)[i];
                row.len() > 0 && cells_width(row) <= width
            },
{
    lemma_hard_rows(clamped(spans, width), width);
}

proof fn lemma_hard_rows(cells: Seq<Cell>, width: nat)
    requires
        forall|k: int| 0 <= k < cells.len() ==> (#[trigger] cells[k]).width <= width,
    ensures
        unrolled(hard_rows(cells, width)) == cells,
        forall|i: int|
            0 <= i < hard_rows(cells, width).len() ==> {
                let row = #[trigger] hard_rows(cells, width)[i];
                row.len() > 0 && cells_width(row) <= width
            },
    decreases cells.len(),
{
    if cells.len() > 0 {
        let before = hard_rows(cells.drop_last(), width);
        let cell = cells.last();
        lemma_hard_rows(cells.drop_last(), width);
        assert(cells =~= cells.drop_last().push(cell));
        let now = hard_rows(cells, width);
        if before.len() > 0 && cells_width(before.last()) + cell.width <= width {
            let row = before.last().push(cell);
            assert(row.drop_last() =~= before.last());
            lemma_unrolled_push(before.drop_last(), before.last());
            lemma_unrolled_push(before.drop_last(), row);
            assert(before.drop_last().push(before.last()) =~= before);
            assert(unrolled(now) =~= unrolled(before).push(cell));
        } else {
            let row = seq![cell];
            assert(row.drop_last() =~= Seq::empty());
            assert(cells_width(row.drop_last()) == 0);
            lemma_unrolled_push(before, row);
            assert(unrolled(now) =~= unrolled(before).push(cell));
        }
        assert forall|i: int| 0 <= i < now.len() implies ({
            let row = #[trigger] now[i];
            row.len() > 0 && cells_width(row) <= width
        }) by {
            if i < now.len() - 1 {
                assert(now[i] == before[i]);
            }
        }
    }
}

proof fn lemma_unrolled_push(rows: Seq<Seq<Cell>>, row: Seq<Cell>)
    ensures
        unrolled(rows.push(row)) == unrolled(rows) + row,
    decreases rows.len(),
{
    if rows.len() == 0 {
        assert(rows.push(row).drop_first() =~= Seq::empty());
        assert(unrolled(rows.push(row).drop_first()) =~= Seq::empty());
        assert(unrolled(rows.push(row)) =~= unrolled(rows) + row);
    } else {
        lemma_unrolled_push(rows.drop_first(), row);
        assert(rows.push(row).drop_first() =~= rows.drop_first().push(row));
        assert(unrolled(rows.push(row)) =~= unrolled(rows) + row);
    }
}

/// Painting cells as spans keeps their text.
pub proof fn law_merging_keeps_the_text(cells: Seq<Cell>)
    ensures
        spans_text(merged(cells)) == cells_text(cells),
    decreases cells.len(),
{
    if cells.len() > 0 {
        law_merging_keeps_the_text(cells.drop_last());
        let before = merged(cells.drop_last());
        let now = merged(cells);
        let cell = cells.last();
        if before.len() > 0 && before.last().style == cell.style {
            assert(now.drop_last() =~= before.drop_last());
            assert(spans_text(now) =~= spans_text(before) + cell.text);
        } else {
            assert(now.drop_last() =~= before);
        }
    }
}

/// The clusters of a line with their styles and columns.
pub fn styled_graphemes(l: &Line) -> (r: Vec<StyledGrapheme>)
    ensures
        views(r@) == cells_of(l@.spans),
{
    let mut r: Vec<StyledGrapheme> = Vec::new();
    let mut i: usize = 0;
    while i < l.spans.len()
        invariant
            i <= l.spans.len(),
            views(r@) == cells_of(l@.spans.take(i as int)),
        decreases l.spans.len() - i,
    {
        let ghost s = l.spans@[i as int]@;
        let ghost before = views(r@);
        let style: Style = l.spans[i].style;
        let pieces: Vec<String> = graphemes(l.spans[i].content.as_str());
        let mut j: usize = 0;
        while j < pieces.len()
            invariant
                j <= pieces.len(),
                views(pieces@) == clusters(s.content),
                style == s.style,
                views(r@) == before + span_cells(s).take(j as int),
            decreases pieces.len() - j,
        {
            let w: usize = width(pieces[j].as_str());
            assert(views(pieces@)[j as int] == pieces@[j as int]@);
            r.push(StyledGrapheme { text: own(pieces[j].as_str()), style, width: w });
            j += 1;
            assert(views(r@) =~= before + span_cells(s).take(j as int));
        }
        assert(span_cells(s).take(j as int) =~= span_cells(s));
        assert(l@.spans.take(i + 1).drop_last() =~= l@.spans.take(i as int));
        assert(l@.spans.take(i + 1).last() == s);
        i += 1;
    }
    assert(l@.spans.take(i as int) =~= l@.spans);
    r
}

/// The cells `cells[from..to]` as a line.
pub fn styled_line(cells: &Vec<StyledGrapheme>, from: usize, to: usize) -> (r: Line)
    requires
        from <= to <= cells.len(),
    ensures
        r@ == line(merged(views(cells@).subrange(from as int, to as int))),
{
    let mut spans: Vec<Span> = Vec::new();
    let mut i: usize = from;
    let ghost all = views(cells@);
    assert(all.subrange(from as int, from as int) =~= Seq::empty());
    while i < to
        invariant
            from <= i <= to <= cells.len(),
            all == views(cells@),
            views(spans@) == merged(all.subrange(from as int, i as int)),
        decreases to - i,
    {
        let ghost before = views(spans@);
        assert(all.subrange(from as int, i + 1).drop_last() =~= all.subrange(from as int, i as int));
        let cell: &StyledGrapheme = &cells[i];
        let n: usize = spans.len();
        if n > 0 && spans[n - 1].style == cell.style {
            let mut last: Span = spans.pop().unwrap();
            last.content.push_str(cell.text.as_str());
            spans.push(last);
            assert(views(spans@) =~= merged(all.subrange(from as int, i + 1)));
        } else {
            spans.push(Span::styled(cell.text.as_str(), cell.style));
        }
        i += 1;
    }
    Line::of(spans)
}

/// The cells of a line as rows of `width` columns take them.
fn clamped_cells(l: &Line, width: usize) -> (r: Vec<StyledGrapheme>)
    ensures
        views(r@) == clamped(l@.spans, width as nat),
{
    let cells: Vec<StyledGrapheme> = styled_graphemes(l);
    let mut r: Vec<StyledGrapheme> = Vec::new();
    let mut i: usize = 0;
    let ghost want = clamped(l@.spans, width as nat);
    while i < cells.len()
        invariant
            i <= cells.len(),
            views(cells@) == cells_of(l@.spans),
            want == clamped(l@.spans, width as nat),
            views(r@) == want.take(i as int),
        decreases cells.len() - i,
    {
        let cell: &StyledGrapheme = &cells[i];
        assert(views(cells@)[i as int] == cell@);
        if cell.width > width {
            r.push(StyledGrapheme { text: own("…"), style: cell.style, width: 1 });
        } else {
            r.push(
                StyledGrapheme { text: own(cell.text.as_str()), style: cell.style, width: cell.width },
            );
        }
        i += 1;
        assert(views(r@) =~= want.take(i as int));
    }
    assert(views(r@) =~= want);
    r
}

pub fn hard_wrap_styled_line(l: &Line, width: usize) -> (r: Vec<Line>)
    ensures
        views(r@) == hard_wrapped(l@, width as nat),
{
    let mut output: Vec<Line> = Vec::new();
    if width == 0 {
        output.push(Line::blank());
        assert(views(output@) =~= seq![blank()]);
        return output;
    }
    if l.width() <= width {
        output.push(l.copy());
        assert(views(output@) =~= seq![l@]);
        return output;
    }
    let cells: Vec<StyledGrapheme> = clamped_cells(l, width);
    let ghost all = views(cells@);
    let mut start: usize = 0;
    let mut used: usize = 0;
    let mut i: usize = 0;
    assert(all.take(0) =~= Seq::empty());
    assert(rows(Seq::empty()) =~= Seq::empty());
    while i < cells.len()
        invariant
            start <= i <= cells.len(),
            width > 0,
            all == views(cells@),
            forall|k: int| 0 <= k < all.len() ==> (#[trigger] all[k]).width <= width,
            used == cells_width(all.subrange(start as int, i as int)),
            used <= width,
            i == 0 ==> hard_rows(all.take(i as int), width as nat) == Seq::<Seq<Cell>>::empty()
                && start == 0 && views(output@) == Seq::<LineView>::empty(),
            i > 0 ==> start < i && ({
                let done = hard_rows(all.take(i as int), width as nat);
                &&& done.len() > 0
                &&& done.last() == all.subrange(start as int, i as int)
                &&& views(output@) == rows(done.drop_last())
            }),
        decreases cells.len() - i,
    {
        let ghost done = hard_rows(all.take(i as int), width as nat);
        let ghost old_start = start;
        assert(all.take(i + 1).drop_last() =~= all.take(i as int));
        assert(all[i as int] == cells@[i as int]@);
        let w: usize = cells[i].width;
        if start < i && w > width - used {
            output.push(styled_line(&cells, start, i));
            proof {
                assert(rows(done) =~= rows(done.drop_last()).push(line(merged(done.last()))));
                assert(done.push(seq![all[i as int]]).drop_last() =~= done);
            }
            start = i;
            used = 0;
            assert(all.subrange(i as int, i as int) =~= Seq::empty());
        }
        proof {
            let row = all.subrange(start as int, i + 1);
            assert(row.drop_last() =~= all.subrange(start as int, i as int));
            assert(row.last() == all[i as int]);
            assert(cells_width(row.drop_last()) == used);
            assert(cells_width(row) == used + w);
            if start == i {
                assert(row =~= seq![all[i as int]]);
            } else {
                assert(row =~= done.last().push(all[i as int]));
                let next = done.drop_last().push(done.last().push(all[i as int]));
                assert(next.drop_last() =~= done.drop_last());
            }
            if i == 0 {
                let next = Seq::<Seq<Cell>>::empty().push(seq![all[i as int]]);
                assert(next.drop_last() =~= Seq::empty());
            }
        }
        used = used + w;
        i += 1;
    }
    assert(all.take(i as int) =~= all);
    if start < i {
        let ghost done = hard_rows(all, width as nat);
        output.push(styled_line(&cells, start, i));
        assert(rows(done) =~= rows(done.drop_last()).push(line(merged(done.last()))));
    }
    output
}

pub fn wrap_styled_line(l: &Line, width: usize) -> (r: Vec<Line>)
    ensures
        views(r@) == wrapped(l@, width as nat),
{
    let mut output: Vec<Line> = Vec::new();
    if width == 0 {
        output.push(Line::blank());
        assert(views(output@) =~= seq![blank()]);
        return output;
    }
    if l.width() <= width {
        output.push(l.copy());
        assert(views(output@) =~= seq![l@]);
        return output;
    }
    let cells: Vec<StyledGrapheme> = clamped_cells(l, width);
    let ghost all = views(cells@);
    if cells.len() == 0 {
        output.push(Line::blank());
        assert(views(output@) =~= seq![blank()]);
        return output;
    }
    let ghost want = rows(wrap_rows(all, 0, width as nat));
    let mut start: usize = 0;
    assert(views(output@) + rows(wrap_rows(all, start as int, width as nat)) =~= want);
    while start < cells.len()
        invariant
            start <= cells.len(),
            all == views(cells@),
            views(output@) + rows(wrap_rows(all, start as int, width as nat)) == want,
        decreases cells.len() - start,
    {
        proof {
            lemma_wrap_step(all, start as int, width as nat);
        }
        let (end, next) = wrap_row(&cells, start, width);
        let ghost before = views(output@);
        output.push(styled_line(&cells, start, end));
        proof {
            let row = all.subrange(start as int, end as int);
            let rest = wrap_rows(all, next as int, width as nat);
            assert(rows(seq![row] + rest) =~= seq![line(merged(row))] + rows(rest));
            assert(views(output@) + rows(rest) =~= before + (seq![line(merged(row))] + rows(rest)));
        }
        start = next;
    }
    assert(views(output@) =~= want);
    output
}

/// One step of the wrap: where the row ends and where the next one starts.
fn wrap_row(cells: &Vec<StyledGrapheme>, start: usize, width: usize) -> (r: (usize, usize))
    requires
        start < cells.len(),
    ensures
        (r.0 as int, r.1 as int) == wrap_step(views(cells@), start as int, width as nat),
{
    let ghost all = views(cells@);
    proof {
        lemma_row_end(all, start as int, 0, width as nat);
        lemma_wrap_step(all, start as int, width as nat);
    }
    let mut end: usize = start;
    let mut used: usize = 0;
    while end < cells.len() && cells[end].width <= width - used
        invariant
            start <= end <= cells.len(),
            all == views(cells@),
            used <= width,
            row_end(all, end as int, used as nat, width as nat) == row_end(
                all,
                start as int,
                0,
                width as nat,
            ),
        decreases cells.len() - end,
    {
        assert(all[end as int] == cells@[end as int]@);
        used = used + cells[end].width;
        end += 1;
    }
    proof {
        if end < cells.len() {
            assert(all[end as int] == cells@[end as int]@);
        }
    }
    if end == cells.len() {
        return (end, end);
    }
    if end == start {
        return (start + 1, start + 1);
    }
    if is_blank(cells[end].text.as_str()) {
        let next: usize = skip_blank(cells, end + 1, cells.len());
        return (end, next);
    }
    let first: usize = skip_blank(cells, start, end);
    proof {
        lemma_last_white(all, first as int, end as int);
    }
    let mut gap: usize = end;
    while gap > first && !is_blank(cells[gap - 1].text.as_str())
        invariant
            first <= gap <= end < cells.len(),
            all == views(cells@),
            last_white(all, first as int, gap as int) == last_white(all, first as int, end as int),
        decreases gap,
    {
        assert(all[gap - 1] == cells@[gap - 1]@);
        gap -= 1;
    }
    if gap > first {
        assert(all[gap - 1] == cells@[gap - 1]@);
        let next: usize = skip_blank(cells, gap, cells.len());
        return (gap - 1, next);
    }
    (end, end)
}

fn skip_blank(cells: &Vec<StyledGrapheme>, from: usize, to: usize) -> (r: usize)
    requires
        from <= to <= cells.len(),
    ensures
        r == content_from(views(cells@), from as int, to as int),
        from <= r <= to,
{
    let ghost all = views(cells@);
    let mut i: usize = from;
    while i < to && is_blank(cells[i].text.as_str())
        invariant
            from <= i <= to <= cells.len(),
            all == views(cells@),
            content_from(all, from as int, to as int) == content_from(all, i as int, to as int),
        decreases to - i,
    {
        assert(all[i as int] == cells@[i as int]@);
        i += 1;
    }
    proof {
        if i < to {
            assert(all[i as int] == cells@[i as int]@);
        }
    }
    i
}

/// A rendered line cut to the transcript: code keeps its columns, prose breaks
/// at words.
pub fn wrap_markdown_line(l: &Line, width: usize) -> (r: Vec<Line>)
    ensures
        views(r@) == (if preformatted(l@) {
            hard_wrapped(l@, width as nat)
        } else {
            wrapped(l@, width as nat)
        }),
{
    let code: bool = if l.spans.len() > 0 {
        assert(l@.spans[0] == l.spans@[0]@);
        same(l.spans[0].content.as_str(), "│ ") && l.spans[0].style.fg == Some(CODE)
    } else {
        false
    };
    if code {
        hard_wrap_styled_line(l, width)
    } else {
        wrap_styled_line(l, width)
    }
}

/// How many of the leading clusters fit into `budget` columns, `used` of them
/// being taken by the first `i`.
pub open spec fn front_fit(pieces: Seq<Seq<char>>, i: int, used: nat, budget: nat) -> int
    decreases pieces.len() - i,
{
    if 0 <= i < pieces.len() && used + text_width(pieces[i]) <= budget {
        front_fit(pieces, i + 1, used + text_width(pieces[i]), budget)
    } else {
        i
    }
}

/// From which cluster on the trailing ones fit into `budget` columns, `used` of
/// them being taken from `i` on.
pub open spec fn back_fit(pieces: Seq<Seq<char>>, i: int, used: nat, budget: nat) -> int
    decreases i,
{
    if 0 < i <= pieces.len() && used + text_width(pieces[i - 1]) <= budget {
        back_fit(pieces, i - 1, used + text_width(pieces[i - 1]), budget)
    } else {
        i
    }
}

/// The columns of the pieces, added up.
pub open spec fn pieces_width(pieces: Seq<Seq<char>>) -> nat
    decreases pieces.len(),
{
    if pieces.len() == 0 {
        0
    } else {
        text_width(pieces[0]) + pieces_width(pieces.drop_first())
    }
}

/// The longest run of leading clusters of `s` in `budget` columns.
pub open spec fn head_pieces(s: Seq<char>, budget: nat) -> Seq<Seq<char>> {
    clusters(s).take(front_fit(clusters(s), 0, 0, budget))
}

/// The longest run of trailing clusters of `s` in `budget` columns.
pub open spec fn tail_pieces(s: Seq<char>, budget: nat) -> Seq<Seq<char>> {
    clusters(s).skip(back_fit(clusters(s), clusters(s).len() as int, 0, budget))
}

/// Where a text that is too wide loses its surplus.
#[derive(Clone, Copy, PartialEq, Eq, Structural, Debug)]
pub enum Truncation {
    Right,
    Middle,
}

/// The text in at most `max` columns, with an ellipsis for what is left out.
pub open spec fn truncated(s: Seq<char>, max: nat, mode: Truncation) -> Seq<char> {
    if text_width(s) <= max {
        s
    } else if max == 0 {
        Seq::empty()
    } else if max == 1 {
        "…"@
    } else {
        match mode {
            Truncation::Right => concat(head_pieces(s, (max - 1) as nat)) + "…"@,
            Truncation::Middle => {
                let left = (max - 1) as nat / 2;
                let right = (max - 1 - left) as nat;
                concat(head_pieces(s, left)) + "…"@ + concat(tail_pieces(s, right))
            },
        }
    }
}

proof fn lemma_front_fit(pieces: Seq<Seq<char>>, i: int, used: nat, budget: nat)
    requires
        0 <= i <= pieces.len(),
        used <= budget,
    ensures
        i <= front_fit(pieces, i, used, budget) <= pieces.len(),
        used + pieces_width(pieces.subrange(i, front_fit(pieces, i, used, budget))) <= budget,
    decreases pieces.len() - i,
{
    let stop = front_fit(pieces, i, used, budget);
    if i < pieces.len() && used + text_width(pieces[i]) <= budget {
        lemma_front_fit(pieces, i + 1, used + text_width(pieces[i]), budget);
        assert(pieces.subrange(i, stop).drop_first() =~= pieces.subrange(i + 1, stop));
    }
}

proof fn lemma_back_fit(pieces: Seq<Seq<char>>, i: int, used: nat, budget: nat)
    requires
        0 <= i <= pieces.len(),
        used == pieces_width(pieces.skip(i)),
        used <= budget,
    ensures
        0 <= back_fit(pieces, i, used, budget) <= i,
        pieces_width(pieces.skip(back_fit(pieces, i, used, budget))) <= budget,
    decreases i,
{
    if 0 < i && used + text_width(pieces[i - 1]) <= budget {
        assert(pieces.skip(i - 1).drop_first() =~= pieces.skip(i));
        lemma_back_fit(pieces, i - 1, used + text_width(pieces[i - 1]), budget);
    }
}

/// What a truncation keeps of each end fits the columns it was given.
pub proof fn law_truncation_fits(s: Seq<char>, budget: nat)
    ensures
        pieces_width(head_pieces(s, budget)) <= budget,
        pieces_width(tail_pieces(s, budget)) <= budget,
{
    let pieces = clusters(s);
    let n = pieces.len() as int;
    lemma_front_fit(pieces, 0, 0, budget);
    assert(pieces.subrange(0, front_fit(pieces, 0, 0, budget)) =~= head_pieces(s, budget));
    assert(pieces.skip(n) =~= Seq::empty());
    lemma_back_fit(pieces, n, 0, budget);
}

/// The columns that a truncation counts for what it leaves of a text: those of the
/// whole text where it fits, else those of the clusters it keeps and of the
/// ellipsis.
pub open spec fn counted_columns(s: Seq<char>, max: nat, mode: Truncation) -> nat {
    if text_width(s) <= max {
        text_width(s)
    } else if max == 0 {
        0
    } else if max == 1 {
        1
    } else {
        match mode {
            Truncation::Right => pieces_width(head_pieces(s, (max - 1) as nat)) + 1,
            Truncation::Middle => {
                let left = (max - 1) as nat / 2;
                let right = (max - 1 - left) as nat;
                pieces_width(head_pieces(s, left)) + 1 + pieces_width(tail_pieces(s, right))
            },
        }
    }
}

/// A truncation never counts more columns than it was given.
pub proof fn law_truncation_counts_within_its_columns(s: Seq<char>, max: nat, mode: Truncation)
    ensures
        counted_columns(s, max, mode) <= max,
{
    if max > 1 {
        law_truncation_fits(s, (max - 1) as nat);
        let left = (max - 1) as nat / 2;
        law_truncation_fits(s, left);
        law_truncation_fits(s, (max - 1 - left) as nat);
    }
}

proof fn lemma_front_is_full(pieces: Seq<Seq<char>>, i: int, used: nat, budget: nat)
    requires
        0 <= i <= pieces.len(),
    ensures
        ({
            let stop = front_fit(pieces, i, used, budget);
            i <= stop <= pieces.len() && (stop < pieces.len() ==> used + pieces_width(
                pieces.subrange(i, stop + 1),
            ) > budget)
        }),
    decreases pieces.len() - i,
{
    let stop = front_fit(pieces, i, used, budget);
    if i < pieces.len() {
        if used + text_width(pieces[i]) <= budget {
            lemma_front_is_full(pieces, i + 1, used + text_width(pieces[i]), budget);
            if stop < pieces.len() {
                assert(pieces.subrange(i, stop + 1).drop_first() =~= pieces.subrange(
                    i + 1,
                    stop + 1,
                ));
            }
        } else {
            assert(pieces.subrange(i, i + 1).drop_first() =~= Seq::empty());
            assert(pieces_width(pieces.subrange(i, i + 1).drop_first()) == 0);
        }
    }
}

proof fn lemma_back_is_full(pieces: Seq<Seq<char>>, i: int, used: nat, budget: nat)
    requires
        0 <= i <= pieces.len(),
        used == pieces_width(pieces.skip(i)),
    ensures
        ({
            let stop = back_fit(pieces, i, used, budget);
            0 <= stop <= i && (stop > 0 ==> pieces_width(pieces.skip(stop - 1)) > budget)
        }),
    decreases i,
{
    if 0 < i {
        assert(pieces.skip(i - 1).drop_first() =~= pieces.skip(i));
        if used + text_width(pieces[i - 1]) <= budget {
            lemma_back_is_full(pieces, i - 1, used + text_width(pieces[i - 1]), budget);
        }
    }
}

/// Whether the first `h` clusters of `s` are all that fit into `budget` columns.
pub open spec fn as_many_first(s: Seq<char>, h: int, budget: nat) -> bool {
    &&& 0 <= h <= clusters(s).len()
    &&& pieces_width(clusters(s).take(h)) <= budget
    &&& h < clusters(s).len() ==> pieces_width(clusters(s).take(h + 1)) > budget
}

/// Whether the clusters of `s` from `t` on are all that fit into `budget` columns.
pub open spec fn as_many_last(s: Seq<char>, t: int, budget: nat) -> bool {
    &&& 0 <= t <= clusters(s).len()
    &&& pieces_width(clusters(s).skip(t)) <= budget
    &&& t > 0 ==> pieces_width(clusters(s).skip(t - 1)) > budget
}

proof fn lemma_ends_kept(s: Seq<char>, budget: nat)
    ensures
        as_many_first(s, front_fit(clusters(s), 0, 0, budget), budget),
        as_many_last(s, back_fit(clusters(s), clusters(s).len() as int, 0, budget), budget),
{
    let pieces = clusters(s);
    let n = pieces.len() as int;
    law_truncation_fits(s, budget);
    lemma_front_is_full(pieces, 0, 0, budget);
    let h = front_fit(pieces, 0, 0, budget);
    if h < n {
        assert(pieces.subrange(0, h + 1) =~= pieces.take(h + 1));
    }
    assert(pieces.skip(n) =~= Seq::empty());
    lemma_back_is_full(pieces, n, 0, budget);
}

/// A text that fits is shown whole. One that does not keeps as many of its first
/// characters as fit beside the ellipsis, or as many of its first and of its last as
/// fit on either side of it.
pub proof fn law_a_truncation_keeps_what_fits(s: Seq<char>, max: nat)
    ensures
        text_width(s) <= max ==> truncated(s, max, Truncation::Right) == s && truncated(
            s,
            max,
            Truncation::Middle,
        ) == s,
        text_width(s) > max && max == 0 ==> truncated(s, max, Truncation::Right).len() == 0
            && truncated(s, max, Truncation::Middle).len() == 0,
        text_width(s) > max && max == 1 ==> truncated(s, max, Truncation::Right) == seq!['…']
            && truncated(s, max, Truncation::Middle) == seq!['…'],
        text_width(s) > max && max > 1 ==> exists|h: int| {
            &&& #[trigger] as_many_first(s, h, (max - 1) as nat)
            &&& truncated(s, max, Truncation::Right) == concat(clusters(s).take(h)) + seq!['…']
        },
        text_width(s) > max && max > 1 ==> exists|h: int, t: int| {
            &&& #[trigger] as_many_first(s, h, ((max - 1) / 2) as nat)
            &&& #[trigger] as_many_last(s, t, (max / 2) as nat)
            &&& truncated(s, max, Truncation::Middle) == concat(clusters(s).take(h)) + seq!['…']
                + concat(clusters(s).skip(t))
        },
{
    reveal_strlit("…");
    assert("…"@ =~= seq!['…']);
    if text_width(s) > max && max > 1 {
        let pieces = clusters(s);
        let n = pieces.len() as int;
        let left = ((max - 1) / 2) as nat;
        let right = (max / 2) as nat;
        assert(max - 1 - left == right);
        lemma_ends_kept(s, (max - 1) as nat);
        lemma_ends_kept(s, left);
        lemma_ends_kept(s, right);
        let whole = front_fit(pieces, 0, 0, (max - 1) as nat);
        let h = front_fit(pieces, 0, 0, left);
        let t = back_fit(pieces, n, 0, right);
        assert(as_many_first(s, whole, (max - 1) as nat));
        assert(as_many_first(s, h, left));
        assert(as_many_last(s, t, right));
    }
}

/// The pieces `pieces[from..to]` one after the other.
fn concat_pieces(pieces: &Vec<String>, from: usize, to: usize) -> (r: String)
    requires
        from <= to <= pieces.len(),
    ensures
        r@ == concat(views(pieces@).subrange(from as int, to as int)),
{
    let ghost all = views(pieces@);
    let mut r: String = String::new();
    let mut i: usize = from;
    while i < to
        invariant
            from <= i <= to <= pieces.len(),
            all == views(pieces@),
            r@ == concat(all.subrange(from as int, i as int)),
        decreases to - i,
    {
        assert(all.subrange(from as int, i + 1).drop_last() =~= all.subrange(from as int, i as int));
        assert(all[i as int] == pieces@[i as int]@);
        r.push_str(pieces[i].as_str());
        i += 1;
    }
    r
}

/// How many leading pieces fit.
fn fit_front(pieces: &Vec<String>, budget: usize) -> (r: usize)
    ensures
        r == front_fit(views(pieces@), 0, 0, budget as nat),
        r <= pieces.len(),
{
    let ghost all = views(pieces@);
    let mut i: usize = 0;
    let mut used: usize = 0;
    while i < pieces.len()
        invariant
            i <= pieces.len(),
            used <= budget,
            all == views(pieces@),
            front_fit(all, 0, 0, budget as nat) == front_fit(
                all,
                i as int,
                used as nat,
                budget as nat,
            ),
        decreases pieces.len() - i,
    {
        assert(all[i as int] == pieces@[i as int]@);
        let w: usize = width(pieces[i].as_str());
        if w > budget - used {
            return i;
        }
        used = used + w;
        i += 1;
    }
    i
}

/// From where the trailing pieces fit, and their columns.
fn fit_back(pieces: &Vec<String>, budget: usize) -> (r: (usize, usize))
    ensures
        r.0 == back_fit(views(pieces@), pieces@.len() as int, 0, budget as nat),
        r.0 <= pieces.len(),
        r.1 == pieces_width(views(pieces@).skip(r.0 as int)),
        r.1 <= budget,
{
    let ghost all = views(pieces@);
    let mut i: usize = pieces.len();
    let mut used: usize = 0;
    assert(all.skip(i as int) =~= Seq::empty());
    while i > 0
        invariant
            i <= pieces.len(),
            used <= budget,
            all == views(pieces@),
            used == pieces_width(all.skip(i as int)),
            back_fit(all, pieces@.len() as int, 0, budget as nat) == back_fit(
                all,
                i as int,
                used as nat,
                budget as nat,
            ),
        decreases i,
    {
        assert(all[i - 1] == pieces@[i - 1]@);
        assert(all.skip(i - 1).drop_first() =~= all.skip(i as int));
        let w: usize = width(pieces[i - 1].as_str());
        if w > budget - used {
            return (i, used);
        }
        used = used + w;
        i -= 1;
    }
    (i, used)
}

pub fn truncate_display(value: &str, max_width: usize, mode: Truncation) -> (r: String)
    ensures
        r@ == truncated(value@, max_width as nat, mode),
{
    if width(value) <= max_width {
        return own(value);
    }
    if max_width == 0 {
        return String::new();
    }
    if max_width == 1 {
        return own("…");
    }
    let pieces: Vec<String> = graphemes(value);
    let ghost all = clusters(value@);
    match mode {
        Truncation::Right => {
            let n: usize = fit_front(&pieces, max_width - 1);
            assert(all.subrange(0, n as int) =~= all.take(n as int));
            cat2(concat_pieces(&pieces, 0, n).as_str(), "…")
        },
        Truncation::Middle => {
            let left: usize = (max_width - 1) / 2;
            let right: usize = max_width - 1 - left;
            let n: usize = fit_front(&pieces, left);
            let (m, _) = fit_back(&pieces, right);
            assert(all.subrange(0, n as int) =~= all.take(n as int));
            assert(all.subrange(m as int, all.len() as int) =~= all.skip(m as int));
            let head: String = concat_pieces(&pieces, 0, n);
            let tail: String = concat_pieces(&pieces, m, pieces.len());
            cat3(head.as_str(), "…", tail.as_str())
        },
    }
}

/// The character position that a byte offset falls on: the first one with at
/// least that many bytes before it.
pub open spec fn char_at_byte(s: Seq<char>, bytes: nat, from: int) -> int
    decreases s.len() - from,
{
    if 0 <= from < s.len() && byte_len(s.take(from)) < bytes {
        char_at_byte(s, bytes, from + 1)
    } else {
        from
    }
}

/// Behind the last line feed before `at`, or the start.
pub open spec fn line_start(s: Seq<char>, at: int) -> int
    decreases at,
{
    if at <= 0 {
        0
    } else if s[at - 1] == '\n' {
        at
    } else {
        line_start(s, at - 1)
    }
}

/// What a one-line field of `width` columns shows of a value with the cursor at
/// character `at`, and the column of the cursor. The line that holds the cursor
/// is shown; the cluster under the cursor is in view, and as much before it as
/// fits.
pub open spec fn field_view(value: Seq<char>, at: int, width: nat) -> (Seq<char>, nat) {
    if width <= 1 {
        (Seq::empty(), 0)
    } else {
        let max = (width - 1) as nat;
        let start = line_start(value, at);
        let end = find_from(value, '\n', at);
        let before = clusters(value.subrange(start, at));
        let after = clusters(value.subrange(at, end));
        let right = if after.len() == 0 {
            0
        } else if text_width(after[0]) <= max {
            text_width(after[0])
        } else {
            max
        };
        let first = back_fit(before, before.len() as int, 0, (max - right) as nat);
        let from = start + concat(before.take(first)).len();
        (
            concat(head_pieces(value.subrange(from, end), max)),
            pieces_width(before.skip(first)),
        )
    }
}

pub fn text_field_view(value: &str, width: u16) -> (r: (String, u16))
    ensures
        (r.0@, r.1 as nat) == field_view(value@, value@.len() as int, width as nat),
{
    let chars: Vec<char> = to_chars(value);
    let n: usize = chars.len();
    field_view_at(&chars, n, width)
}

/// The field with the cursor at byte `cursor`, or at the end where the value is
/// shorter. The cursor stands between two characters.
pub fn text_field_view_at(value: &str, cursor: usize, width: u16) -> (r: (String, u16))
    requires
        cursor >= byte_len(value@) || exists|k: int|
            0 <= k <= value@.len() && byte_len(#[trigger] value@.take(k)) == cursor,
    ensures
        (r.0@, r.1 as nat) == field_view(
            value@,
            char_at_byte(value@, cursor as nat, 0),
            width as nat,
        ),
{
    let chars: Vec<char> = to_chars(value);
    let mut at: usize = 0;
    let mut bytes: usize = 0;
    assert(value@.take(0) =~= Seq::empty());
    while at < chars.len() && bytes < cursor
        invariant
            at <= chars.len(),
            chars@ == value@,
            bytes == byte_len(value@.take(at as int)) || bytes == usize::MAX && byte_len(
                value@.take(at as int),
            ) >= usize::MAX,
            char_at_byte(value@, cursor as nat, 0) == char_at_byte(
                value@,
                cursor as nat,
                at as int,
            ),
        decreases chars.len() - at,
    {
        assert(value@.take(at + 1).drop_last() =~= value@.take(at as int));
        bytes = bytes.saturating_add(char_len(chars[at]));
        at += 1;
    }
    field_view_at(&chars, at, width)
}

fn field_view_at(value: &Vec<char>, at: usize, width: u16) -> (r: (String, u16))
    requires
        at <= value.len(),
    ensures
        (r.0@, r.1 as nat) == field_view(value@, at as int, width as nat),
{
    if width <= 1 {
        return (String::new(), 0);
    }
    let max: usize = (width - 1) as usize;
    let mut start: usize = at;
    while start > 0 && value[start - 1] != '\n'
        invariant
            start <= at <= value.len(),
            line_start(value@, at as int) == line_start(value@, start as int),
        decreases start,
    {
        start -= 1;
    }
    let end: usize = find_char(value, '\n', at);
    let before: Vec<String> = graphemes(from_range(value, start, at).as_str());
    let after: Vec<String> = graphemes(from_range(value, at, end).as_str());
    let right: usize = if after.len() == 0 {
        0
    } else {
        assert(views(after@)[0] == after@[0]@);
        let w: usize = crate::measure::width(after[0].as_str());
        if w <= max {
            w
        } else {
            max
        }
    };
    let (first, before_width) = fit_back(&before, max - right);
    let ghost all = views(before@);
    let skipped: Vec<char> = to_chars(concat_pieces(&before, 0, first).as_str());
    proof {
        assert(all.subrange(0, first as int) =~= all.take(first as int));
        lemma_concat_split(all, first as int);
        assert(concat(all) == value@.subrange(start as int, at as int));
        assert(concat(all).len() == at - start);
        assert(skipped@ == concat(all.take(first as int)));
    }
    let from: usize = start + skipped.len();
    let pieces: Vec<String> = graphemes(from_range(value, from, end).as_str());
    let shown: usize = fit_front(&pieces, max);
    let ghost rest = views(pieces@);
    assert(rest.subrange(0, shown as int) =~= rest.take(shown as int));
    (concat_pieces(&pieces, 0, shown), before_width as u16)
}

proof fn lemma_concat_split(parts: Seq<Seq<char>>, i: int)
    requires
        0 <= i <= parts.len(),
    ensures
        concat(parts) == concat(parts.take(i)) + concat(parts.skip(i)),
    decreases parts.len(),
{
    if i == parts.len() {
        assert(parts.take(i) =~= parts);
        assert(parts.skip(i) =~= Seq::empty());
        assert(concat(parts) =~= concat(parts.take(i)) + concat(parts.skip(i)));
    } else {
        lemma_concat_split(parts.drop_last(), i);
        assert(parts.drop_last().take(i) =~= parts.take(i));
        assert(parts.drop_last().skip(i) =~= parts.skip(i).drop_last());
        assert(concat(parts) =~= concat(parts.take(i)) + concat(parts.skip(i)));
    }
}

} // verus!
