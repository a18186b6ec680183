//! The columns of a row as they are counted piece by piece.
//!
//! A text is measured as a whole, and what is joined may measure otherwise than its
//! pieces do. What is laid out is therefore counted: each piece by its own columns.

use vstd::prelude::*;
use crate::chars::{concat, rep};
use crate::measure::text_width;
use crate::style::{
    line, line_width, plain, span, spans_text, spans_width, LineView, SpanView, Style,
};
use crate::text::{
    cells_of, cells_text, cells_width, clamped, head_pieces, law_merging_keeps_the_text,
    law_truncation_fits, law_wrapped_rows_fit, lemma_cells_width_front, lemma_wrap_step, merged,
    pieces_width, rows, span_cells, truncated, wrap_rows, wrap_step, wrapped, Cell, Truncation,
};

verus! {

/// Each piece counts for the columns it measures, an ellipsis or a blank for one.
pub open spec fn counted(cells: Seq<Cell>) -> bool {
    forall|i: int|
        0 <= i < cells.len() ==> {
            let c = #[trigger] cells[i];
            c.width == text_width(c.text) || c.width == 1 && (c.text == "…"@ || c.text == " "@)
        }
}

/// Whether the pieces are those of the spans and count for at most `width` columns.
pub open spec fn laid_out(cells: Seq<Cell>, spans: Seq<SpanView>, width: nat) -> bool {
    &&& counted(cells)
    &&& cells_text(cells) == spans_text(spans)
    &&& cells_width(cells) <= width
}

/// Whether the spans, one after the other, count for at most `width` columns.
pub open spec fn within(spans: Seq<SpanView>, width: nat) -> bool {
    exists|cells: Seq<Cell>| laid_out(cells, spans, width)
}

proof fn lemma_cells_join(a: Seq<Cell>, b: Seq<Cell>)
    ensures
        cells_text(a + b) == cells_text(a) + cells_text(b),
        cells_width(a + b) == cells_width(a) + cells_width(b),
    decreases b.len(),
{
    if b.len() == 0 {
        assert(a + b =~= a);
        assert(cells_text(a) + cells_text(b) =~= cells_text(a));
    } else {
        lemma_cells_join(a, b.drop_last());
        assert((a + b).drop_last() =~= a + b.drop_last());
        assert(cells_text(a + b) =~= cells_text(a) + cells_text(b));
    }
}

proof fn lemma_spans_join(a: Seq<SpanView>, b: Seq<SpanView>)
    ensures
        spans_text(a + b) == spans_text(a) + spans_text(b),
    decreases b.len(),
{
    if b.len() == 0 {
        assert(a + b =~= a);
        assert(spans_text(a) + spans_text(b) =~= spans_text(a));
    } else {
        lemma_spans_join(a, b.drop_last());
        assert((a + b).drop_last() =~= a + b.drop_last());
        assert(spans_text(a + b) =~= spans_text(a) + spans_text(b));
    }
}

/// Spans side by side count for the columns of both.
pub proof fn lemma_within_join(a: Seq<SpanView>, b: Seq<SpanView>, m: nat, n: nat)
    requires
        within(a, m),
        within(b, n),
    ensures
        within(a + b, m + n),
{
    let left = choose|cells: Seq<Cell>| laid_out(cells, a, m);
    let right = choose|cells: Seq<Cell>| laid_out(cells, b, n);
    lemma_cells_join(left, right);
    lemma_spans_join(a, b);
    assert(laid_out(left + right, a + b, m + n));
}

pub proof fn lemma_within_more(spans: Seq<SpanView>, m: nat, n: nat)
    requires
        within(spans, m),
        m <= n,
    ensures
        within(spans, n),
{
    let cells = choose|cells: Seq<Cell>| laid_out(cells, spans, m);
    assert(laid_out(cells, spans, n));
}

pub proof fn lemma_within_nothing()
    ensures
        within(Seq::empty(), 0),
{
    assert(laid_out(Seq::empty(), Seq::empty(), 0));
}

/// A span of the cells' text counts for their columns.
proof fn lemma_within_one(cells: Seq<Cell>, style: Style)
    requires
        counted(cells),
    ensures
        within(seq![span(cells_text(cells), style)], cells_width(cells)),
{
    let spans = seq![span(cells_text(cells), style)];
    assert(spans.drop_last() =~= Seq::empty());
    assert(spans_text(spans.drop_last()) =~= Seq::empty());
    assert(spans_text(spans) =~= cells_text(cells));
    assert(laid_out(cells, spans, cells_width(cells)));
}

proof fn lemma_one_cell(c: Cell)
    ensures
        cells_text(seq![c]) == c.text,
        cells_width(seq![c]) == c.width,
{
    assert(seq![c].drop_last() =~= Seq::empty());
    assert(cells_text(seq![c].drop_last()) =~= Seq::empty());
    assert(cells_width(seq![c].drop_last()) == 0);
    assert(cells_text(seq![c]) =~= c.text);
}

/// A text counts for the columns it measures.
pub proof fn lemma_within_text(s: Seq<char>, style: Style)
    ensures
        within(seq![span(s, style)], text_width(s)),
{
    let c = Cell { text: s, style, width: text_width(s) };
    lemma_one_cell(c);
    lemma_within_one(seq![c], style);
}

pub proof fn lemma_within_ellipsis(style: Style)
    ensures
        within(seq![span("…"@, style)], 1),
{
    let c = Cell { text: "…"@, style, width: 1 };
    lemma_one_cell(c);
    lemma_within_one(seq![c], style);
}

/// A run of blanks counts for as many columns.
pub proof fn lemma_within_blanks(n: nat, style: Style)
    ensures
        within(seq![span(rep(' ', n), style)], n),
{
    let cells = Seq::new(n, |i: int| Cell { text: " "@, style, width: 1 });
    lemma_blank_cells(n, style);
    lemma_within_one(cells, style);
}

proof fn lemma_blank_cells(n: nat, style: Style)
    ensures
        ({
            let cells = Seq::new(n, |i: int| Cell { text: " "@, style, width: 1 });
            cells_text(cells) == rep(' ', n) && cells_width(cells) == n
        }),
    decreases n,
{
    reveal_strlit(" ");
    let cells = Seq::new(n, |i: int| Cell { text: " "@, style, width: 1 });
    if n > 0 {
        lemma_blank_cells((n - 1) as nat, style);
        assert(cells.drop_last() =~= Seq::new(
            (n - 1) as nat,
            |i: int| Cell { text: " "@, style, width: 1 },
        ));
    }
    assert(cells_text(cells) =~= rep(' ', n));
}

/// The pieces as cells that count what they measure.
spec fn piece_cells(pieces: Seq<Seq<char>>) -> Seq<Cell> {
    pieces.map_values(|g: Seq<char>| Cell { text: g, style: plain(), width: text_width(g) })
}

proof fn lemma_piece_cells_text(pieces: Seq<Seq<char>>)
    ensures
        cells_text(piece_cells(pieces)) == concat(pieces),
    decreases pieces.len(),
{
    if pieces.len() > 0 {
        lemma_piece_cells_text(pieces.drop_last());
        assert(piece_cells(pieces).drop_last() =~= piece_cells(pieces.drop_last()));
    }
}

proof fn lemma_piece_cells_width(pieces: Seq<Seq<char>>)
    ensures
        cells_width(piece_cells(pieces)) == pieces_width(pieces),
    decreases pieces.len(),
{
    if pieces.len() > 0 {
        lemma_piece_cells_width(pieces.drop_first());
        lemma_cells_width_front(piece_cells(pieces));
        assert(piece_cells(pieces).drop_first() =~= piece_cells(pieces.drop_first()));
    }
}

/// What is left of a text that is cut at its end counts for no more columns than
/// there were.
pub proof fn law_a_truncation_is_within_its_columns(s: Seq<char>, max: nat, style: Style)
    ensures
        within(seq![span(truncated(s, max, Truncation::Right), style)], max),
{
    let shown = truncated(s, max, Truncation::Right);
    if text_width(s) <= max {
        lemma_within_text(s, style);
        lemma_within_more(seq![span(s, style)], text_width(s), max);
    } else if max == 0 {
        lemma_within_one(Seq::empty(), style);
    } else if max == 1 {
        lemma_within_ellipsis(style);
    } else {
        let pieces = head_pieces(s, (max - 1) as nat);
        law_truncation_fits(s, (max - 1) as nat);
        lemma_piece_cells_text(pieces);
        lemma_piece_cells_width(pieces);
        let end = Cell { text: "…"@, style, width: 1 };
        let cells = piece_cells(pieces) + seq![end];
        lemma_one_cell(end);
        lemma_cells_join(piece_cells(pieces), seq![end]);
        lemma_within_one(cells, style);
        lemma_within_more(seq![span(shown, style)], cells_width(cells), max);
    }
}

/// Cells painted as spans count for their own columns.
pub proof fn lemma_within_merged(cells: Seq<Cell>)
    requires
        counted(cells),
    ensures
        within(merged(cells), cells_width(cells)),
{
    law_merging_keeps_the_text(cells);
    assert(laid_out(cells, merged(cells), cells_width(cells)));
}

pub proof fn lemma_cells_of_counted(spans: Seq<SpanView>)
    ensures
        counted(cells_of(spans)),
    decreases spans.len(),
{
    if spans.len() > 0 {
        lemma_cells_of_counted(spans.drop_last());
        let before = cells_of(spans.drop_last());
        let last = span_cells(spans.last());
        assert(counted(last));
        assert forall|i: int| 0 <= i < (before + last).len() implies ({
            let c = #[trigger] (before + last)[i];
            c.width == text_width(c.text) || c.width == 1 && (c.text == "…"@ || c.text == " "@)
        }) by {
            if i < before.len() {
                assert((before + last)[i] == before[i]);
            } else {
                assert((before + last)[i] == last[i - before.len()]);
            }
        }
    }
}

proof fn lemma_wrap_rows_counted(cells: Seq<Cell>, start: int, width: nat)
    requires
        0 <= start,
        counted(cells),
    ensures
        forall|i: int|
            0 <= i < wrap_rows(cells, start, width).len() ==> counted(
                #[trigger] wrap_rows(cells, start, width)[i],
            ),
    decreases cells.len() - start,
{
    if start < cells.len() {
        lemma_wrap_step(cells, start, width);
        let step = wrap_step(cells, start, width);
        lemma_wrap_rows_counted(cells, step.1, width);
        let rest = wrap_rows(cells, step.1, width);
        let all = wrap_rows(cells, start, width);
        assert forall|i: int| 0 <= i < all.len() implies counted(#[trigger] all[i]) by {
            if i > 0 {
                assert(all[i] == rest[i - 1]);
            } else {
                let row = cells.subrange(start, step.0);
                assert(all[0] == row);
                assert forall|k: int| 0 <= k < row.len() implies ({
                    let c = #[trigger] row[k];
                    c.width == text_width(c.text) || c.width == 1 && (c.text == "…"@ || c.text
                        == " "@)
                }) by {
                    assert(row[k] == cells[start + k]);
                }
            }
        }
    }
}

proof fn lemma_within_measured(spans: Seq<SpanView>)
    ensures
        within(spans, spans_width(spans)),
    decreases spans.len(),
{
    if spans.len() == 0 {
        lemma_within_nothing();
        assert(spans =~= Seq::empty());
    } else {
        let last = spans.last();
        lemma_within_measured(spans.drop_last());
        lemma_within_text(last.content, last.style);
        assert(span(last.content, last.style) == last);
        assert(spans =~= spans.drop_last() + seq![last]);
        lemma_within_join(
            spans.drop_last(),
            seq![last],
            spans_width(spans.drop_last()),
            text_width(last.content),
        );
    }
}

/// No row of a wrapped line counts for more columns than there are.
pub proof fn law_wrapped_lines_are_within_their_columns(l: LineView, width: nat, i: int)
    requires
        width < usize::MAX,
        0 <= i < wrapped(l, width).len(),
    ensures
        within(wrapped(l, width)[i].spans, width),
{
    lemma_within_nothing();
    lemma_within_more(Seq::empty(), 0, width);
    if width > 0 && line_width(l) <= width {
        lemma_within_measured(l.spans);
        lemma_within_more(l.spans, spans_width(l.spans), width);
    } else if width > 0 && clamped(l.spans, width).len() > 0 {
        let cells = clamped(l.spans, width);
        let all = wrap_rows(cells, 0, width);
        lemma_cells_of_counted(l.spans);
        assert(counted(cells)) by {
            assert forall|k: int| 0 <= k < cells.len() implies ({
                let c = #[trigger] cells[k];
                c.width == text_width(c.text) || c.width == 1 && (c.text == "…"@ || c.text == " "@)
            }) by {
                let c = cells_of(l.spans)[k];
                assert(c.width <= width ==> cells[k] == c);
            }
        }
        lemma_wrap_rows_counted(cells, 0, width);
        law_wrapped_rows_fit(l.spans, width);
        let row = all[i];
        lemma_within_merged(row);
        lemma_within_more(merged(row), cells_width(row), width);
        assert(rows(all)[i] == line(merged(row)));
    }
}

} // verus!
