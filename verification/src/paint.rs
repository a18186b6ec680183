//! What rows paint: each character with the style that it is shown in.

use vstd::prelude::*;
use crate::chars::{all_white, concat, white_space};
use crate::measure::{clusters, text_width};
use crate::style::{line, line_width, LineView, SpanView, Style};
use crate::text::{
    cells_of, cells_width, clamped, hard_rows, hard_wrapped, ink, law_hard_rows_keep_every_cell,
    law_wrapping_keeps_the_ink, lemma_broken_word, lemma_wrap_step, merged, rows, span_cells,
    unrolled, wrap_rows, wrap_step, wrapped, Cell,
};

verus! {

/// A text in one style.
pub open spec fn in_style(text: Seq<char>, style: Style) -> Seq<(char, Style)> {
    text.map_values(|c: char| (c, style))
}

/// The characters of the spans, each in its style.
pub open spec fn painted(spans: Seq<SpanView>) -> Seq<(char, Style)>
    decreases spans.len(),
{
    if spans.len() == 0 {
        Seq::empty()
    } else {
        painted(spans.drop_last()) + in_style(spans.last().content, spans.last().style)
    }
}

/// The characters of the rows, one row after the other.
pub open spec fn painted_rows(lines: Seq<LineView>) -> Seq<(char, Style)>
    decreases lines.len(),
{
    if lines.len() == 0 {
        Seq::empty()
    } else {
        painted(lines[0].spans) + painted_rows(lines.drop_first())
    }
}

/// The characters of the cells, each in its style.
pub open spec fn painted_cells(cells: Seq<Cell>) -> Seq<(char, Style)>
    decreases cells.len(),
{
    if cells.len() == 0 {
        Seq::empty()
    } else {
        painted_cells(cells.drop_last()) + in_style(cells.last().text, cells.last().style)
    }
}

/// What is not white space of it.
pub open spec fn visible(painted: Seq<(char, Style)>) -> Seq<(char, Style)> {
    painted.filter(|p: (char, Style)| !white_space(p.0))
}

/// Whether the clusters of each span make up its text.
pub open spec fn clustered(spans: Seq<SpanView>) -> bool {
    forall|i: int|
        0 <= i < spans.len() ==> concat(clusters((#[trigger] spans[i]).content))
            == spans[i].content
}

pub proof fn lemma_rows_join(a: Seq<LineView>, b: Seq<LineView>)
    ensures
        painted_rows(a + b) == painted_rows(a) + painted_rows(b),
    decreases a.len(),
{
    if a.len() == 0 {
        assert(a + b =~= b);
        assert(painted_rows(a) + painted_rows(b) =~= painted_rows(b));
    } else {
        lemma_rows_join(a.drop_first(), b);
        assert((a + b).drop_first() =~= a.drop_first() + b);
        assert(painted_rows(a + b) =~= painted_rows(a) + painted_rows(b));
    }
}

pub proof fn lemma_style_joins(a: Seq<char>, b: Seq<char>, style: Style)
    ensures
        in_style(a + b, style) == in_style(a, style) + in_style(b, style),
{
    assert(in_style(a + b, style) =~= in_style(a, style) + in_style(b, style));
}

/// Painting cells as spans keeps each character in the style of its cell.
pub proof fn law_merging_keeps_every_style(cells: Seq<Cell>)
    ensures
        painted(merged(cells)) == painted_cells(cells),
    decreases cells.len(),
{
    if cells.len() > 0 {
        law_merging_keeps_every_style(cells.drop_last());
        let before = merged(cells.drop_last());
        let now = merged(cells);
        let cell = cells.last();
        if before.len() > 0 && before.last().style == cell.style {
            assert(now.drop_last() =~= before.drop_last());
            lemma_style_joins(before.last().content, cell.text, cell.style);
            assert(painted(now) =~= painted(before) + in_style(cell.text, cell.style));
        } else {
            assert(now.drop_last() =~= before);
        }
    }
}

proof fn lemma_cells_join(a: Seq<Cell>, b: Seq<Cell>)
    ensures
        painted_cells(a + b) == painted_cells(a) + painted_cells(b),
    decreases b.len(),
{
    if b.len() == 0 {
        assert(a + b =~= a);
        assert(painted_cells(a) + painted_cells(b) =~= painted_cells(a));
    } else {
        lemma_cells_join(a, b.drop_last());
        assert((a + b).drop_last() =~= a + b.drop_last());
        assert(painted_cells(a + b) =~= painted_cells(a) + painted_cells(b));
    }
}

proof fn lemma_pieces_painted(pieces: Seq<Seq<char>>, style: Style)
    ensures
        painted_cells(
            pieces.map_values(|g: Seq<char>| Cell { text: g, style, width: text_width(g) }),
        ) == in_style(concat(pieces), style),
    decreases pieces.len(),
{
    let cells = pieces.map_values(|g: Seq<char>| Cell { text: g, style, width: text_width(g) });
    if pieces.len() > 0 {
        let front = pieces.drop_last();
        lemma_pieces_painted(front, style);
        assert(cells.drop_last() =~= front.map_values(
            |g: Seq<char>| Cell { text: g, style, width: text_width(g) },
        ));
        lemma_style_joins(concat(front), pieces.last(), style);
    } else {
        assert(in_style(concat(pieces), style) =~= Seq::empty());
    }
}

/// Cutting spans into cells keeps each character in its style.
pub proof fn law_cells_keep_every_style(spans: Seq<SpanView>)
    requires
        clustered(spans),
    ensures
        painted_cells(cells_of(spans)) == painted(spans),
    decreases spans.len(),
{
    if spans.len() > 0 {
        let front = spans.drop_last();
        assert forall|i: int| 0 <= i < front.len() implies concat(
            clusters((#[trigger] front[i]).content),
        ) == front[i].content by {
            assert(front[i] == spans[i]);
        }
        law_cells_keep_every_style(front);
        let last = spans.last();
        assert(concat(clusters(spans[spans.len() - 1].content)) == last.content);
        lemma_pieces_painted(clusters(last.content), last.style);
        lemma_cells_join(cells_of(front), span_cells(last));
    }
}

proof fn lemma_rows_painted(cells: Seq<Seq<Cell>>)
    ensures
        painted_rows(rows(cells)) == painted_cells(unrolled(cells)),
    decreases cells.len(),
{
    if cells.len() > 0 {
        lemma_rows_painted(cells.drop_first());
        law_merging_keeps_every_style(cells[0]);
        assert(rows(cells).drop_first() =~= rows(cells.drop_first()));
        assert(rows(cells)[0] == line(merged(cells[0])));
        lemma_cells_join(cells[0], unrolled(cells.drop_first()));
    } else {
        assert(rows(cells) =~= Seq::empty());
    }
}

pub proof fn lemma_visible_joins(a: Seq<(char, Style)>, b: Seq<(char, Style)>)
    ensures
        visible(a + b) == visible(a) + visible(b),
{
    Seq::filter_distributes_over_add(a, b, |p: (char, Style)| !white_space(p.0));
}

pub proof fn lemma_white_is_invisible(text: Seq<char>, style: Style)
    requires
        all_white(text),
    ensures
        visible(in_style(text, style)).len() == 0,
    decreases text.len(),
{
    reveal(Seq::filter);
    if text.len() > 0 {
        lemma_white_is_invisible(text.drop_last(), style);
        assert(in_style(text, style).drop_last() =~= in_style(text.drop_last(), style));
    }
}

proof fn lemma_ink_is_visible(cells: Seq<Cell>)
    ensures
        visible(painted_cells(cells)) == visible(painted_cells(ink(cells))),
    decreases cells.len(),
{
    reveal(Seq::filter);
    if cells.len() > 0 {
        let front = cells.drop_last();
        let last = cells.last();
        lemma_ink_is_visible(front);
        let shade = in_style(last.text, last.style);
        lemma_visible_joins(painted_cells(front), shade);
        if all_white(last.text) {
            lemma_white_is_invisible(last.text, last.style);
            assert(visible(painted_cells(front)) + visible(shade) =~= visible(
                painted_cells(front),
            ));
            assert(ink(cells) == ink(front));
        } else {
            assert(ink(cells) == ink(front).push(last));
            assert(ink(cells).drop_last() =~= ink(front));
            lemma_visible_joins(painted_cells(ink(front)), shade);
        }
    } else {
        assert(ink(cells) =~= Seq::empty());
    }
}

proof fn lemma_one_row(l: LineView)
    ensures
        painted_rows(seq![l]) == painted(l.spans),
{
    assert(seq![l].drop_first() =~= Seq::empty());
    assert(painted_rows(seq![l].drop_first()) =~= Seq::empty());
    assert(painted_rows(seq![l]) =~= painted(l.spans));
}

proof fn lemma_nothing_clamped(spans: Seq<SpanView>, width: nat)
    requires
        forall|i: int|
            0 <= i < cells_of(spans).len() ==> (#[trigger] cells_of(spans)[i]).width <= width,
    ensures
        clamped(spans, width) == cells_of(spans),
{
    assert(clamped(spans, width) =~= cells_of(spans));
}

/// Wrapping a line loses no character that can be seen and changes no style: read
/// row by row, what is not white space is what it was, in its order, each character
/// in the style it had. Left out are lines with a character wider than a row, which
/// gives way to an ellipsis.
pub proof fn law_wrapping_keeps_what_is_painted(l: LineView, width: nat)
    requires
        width > 0,
        clustered(l.spans),
        forall|i: int|
            0 <= i < cells_of(l.spans).len() ==> (#[trigger] cells_of(l.spans)[i]).width <= width,
    ensures
        visible(painted_rows(wrapped(l, width))) == visible(painted(l.spans)),
{
    let cells = cells_of(l.spans);
    law_cells_keep_every_style(l.spans);
    lemma_nothing_clamped(l.spans, width);
    if line_width(l) <= width {
        lemma_one_row(l);
    } else if cells.len() == 0 {
        lemma_one_row(line(Seq::empty()));
        assert(painted(l.spans) =~= Seq::empty());
    } else {
        let all = wrap_rows(cells, 0, width);
        lemma_rows_painted(all);
        law_wrapping_keeps_the_ink(l.spans, width);
        lemma_ink_is_visible(unrolled(all));
        lemma_ink_is_visible(cells);
    }
}

/// Cutting a line hard loses no character at all and changes no style.
pub proof fn law_hard_wrapping_keeps_what_is_painted(l: LineView, width: nat)
    requires
        width > 0,
        clustered(l.spans),
        forall|i: int|
            0 <= i < cells_of(l.spans).len() ==> (#[trigger] cells_of(l.spans)[i]).width <= width,
    ensures
        painted_rows(hard_wrapped(l, width)) == painted(l.spans),
{
    law_cells_keep_every_style(l.spans);
    lemma_nothing_clamped(l.spans, width);
    if line_width(l) <= width {
        lemma_one_row(l);
    } else {
        lemma_rows_painted(hard_rows(cells_of(l.spans), width));
        law_hard_rows_keep_every_cell(l.spans, width);
    }
}

/// A line that fits is one row: the line itself.
pub proof fn law_a_line_that_fits_is_one_row(l: LineView, width: nat)
    requires
        width > 0,
        line_width(l) <= width,
    ensures
        wrapped(l, width) == seq![l],
        hard_wrapped(l, width) == seq![l],
{
}

/// A character stays as it is where a row can hold it. Where none can, an ellipsis
/// of one column stands for it, in its style.
pub proof fn law_only_what_no_row_holds_gives_way(spans: Seq<SpanView>, width: nat, i: int)
    requires
        0 <= i < cells_of(spans).len(),
    ensures
        clamped(spans, width).len() == cells_of(spans).len(),
        cells_of(spans)[i].width <= width ==> clamped(spans, width)[i] == cells_of(spans)[i],
        cells_of(spans)[i].width > width ==> {
            &&& clamped(spans, width)[i].text == seq!['…']
            &&& clamped(spans, width)[i].width == 1
            &&& clamped(spans, width)[i].style == cells_of(spans)[i].style
        },
{
    reveal_strlit("…");
    assert("…"@ =~= seq!['…']);
}

/// Whether rows are runs of the cells from `start` on: row `i` is what lies between
/// the two places `at[i]`. What lies between two rows is white space, and so is what
/// lies behind the last.
pub open spec fn are_runs(
    rows: Seq<Seq<Cell>>,
    cells: Seq<Cell>,
    start: int,
    at: Seq<(int, int)>,
) -> bool {
    &&& at.len() == rows.len()
    &&& rows.len() > 0 ==> at[0].0 == start
    &&& forall|i: int|
        0 <= i < rows.len() ==> start <= (#[trigger] at[i]).0 < at[i].1 <= cells.len() && rows[i]
            == cells.subrange(at[i].0, at[i].1)
    &&& forall|i: int, k: int|
        #![trigger at[i], cells[k]]
        0 <= i < rows.len() && at[i].1 <= k < (if i + 1 < rows.len() {
            at[i + 1].0
        } else {
            cells.len() as int
        }) ==> all_white(cells[k].text)
    &&& forall|i: int| 0 <= i < rows.len() - 1 ==> (#[trigger] at[i]).1 <= at[i + 1].0
}

/// Whether a word is broken only where it is alone in its row: no white space stands
/// behind the first word of a row that the next one follows without a gap.
pub open spec fn breaks_at_words(cells: Seq<Cell>, at: Seq<(int, int)>) -> bool {
    forall|i: int, a: int, b: int|
        #![trigger at[i], cells[a], cells[b]]
        0 <= i < at.len() - 1 && at[i].1 == at[i + 1].0 && at[i].0 <= a < b < at[i].1
            && !all_white(cells[a].text) ==> !all_white(cells[b].text)
}

proof fn lemma_runs(cells: Seq<Cell>, start: int, width: nat) -> (at: Seq<(int, int)>)
    requires
        0 <= start <= cells.len(),
    ensures
        are_runs(wrap_rows(cells, start, width), cells, start, at),
        breaks_at_words(cells, at),
        start < cells.len() ==> at.len() > 0,
    decreases cells.len() - start,
{
    if start < cells.len() {
        lemma_wrap_step(cells, start, width);
        let step = wrap_step(cells, start, width);
        let rest = lemma_runs(cells, step.1, width);
        let below = wrap_rows(cells, step.1, width);
        let all = wrap_rows(cells, start, width);
        let at = seq![(start, step.0)] + rest;
        assert forall|i: int| 0 <= i < all.len() implies start <= (#[trigger] at[i]).0 < at[i].1
            <= cells.len() && all[i] == cells.subrange(at[i].0, at[i].1) by {
            if i > 0 {
                assert(at[i] == rest[i - 1]);
                assert(all[i] == below[i - 1]);
            }
        }
        assert forall|i: int, k: int|
            #![trigger at[i], cells[k]]
            0 <= i < all.len() && at[i].1 <= k < (if i + 1 < all.len() {
                at[i + 1].0
            } else {
                cells.len() as int
            }) implies all_white(cells[k].text) by {
            if i > 0 {
                assert(at[i] == rest[i - 1]);
                if i + 1 < all.len() {
                    assert(at[i + 1] == rest[i]);
                }
            } else if all.len() > 1 {
                assert(at[1] == rest[0]);
            } else {
                assert(step.1 >= cells.len());
            }
        }
        assert forall|i: int| 0 <= i < all.len() - 1 implies (#[trigger] at[i]).1 <= at[i
            + 1].0 by {
            if i > 0 {
                assert(at[i] == rest[i - 1]);
                assert(at[i + 1] == rest[i]);
            } else {
                assert(at[1] == rest[0]);
            }
        }
        assert forall|i: int, a: int, b: int|
            #![trigger at[i], cells[a], cells[b]]
            0 <= i < at.len() - 1 && at[i].1 == at[i + 1].0 && at[i].0 <= a < b < at[i].1
                && !all_white(cells[a].text) implies !all_white(cells[b].text) by {
            if i > 0 {
                assert(at[i] == rest[i - 1]);
                assert(at[i + 1] == rest[i]);
            } else {
                assert(at[1] == rest[0]);
                lemma_broken_word(cells, start, width, a, b);
            }
        }
        at
    } else {
        Seq::empty()
    }
}

/// Read row by row, a wrapped line is the line: each row is a run of its characters,
/// with the spaces between its words and before them, and only white space is lost,
/// at the breaks. A word is broken only where it is alone in its row.
pub proof fn law_rows_are_runs_of_the_line(l: LineView, width: nat) -> (at: Seq<(int, int)>)
    requires
        0 < width < line_width(l),
        cells_of(l.spans).len() > 0,
        forall|i: int|
            0 <= i < cells_of(l.spans).len() ==> (#[trigger] cells_of(l.spans)[i]).width <= width,
    ensures
        ({
            let cells = cells_of(l.spans);
            let shown = wrapped(l, width);
            &&& at.len() == shown.len()
            &&& at.len() > 0
            &&& at[0].0 == 0
            &&& forall|i: int|
                0 <= i < at.len() ==> 0 <= (#[trigger] at[i]).0 < at[i].1 <= cells.len()
                    && painted(shown[i].spans) == painted_cells(
                    cells.subrange(at[i].0, at[i].1),
                )
            &&& forall|i: int, k: int|
                #![trigger at[i], cells[k]]
                0 <= i < at.len() && at[i].1 <= k < (if i + 1 < at.len() {
                    at[i + 1].0
                } else {
                    cells.len() as int
                }) ==> all_white(cells[k].text)
            &&& forall|i: int| 0 <= i < at.len() - 1 ==> (#[trigger] at[i]).1 <= at[i + 1].0
            &&& breaks_at_words(cells, at)
        }),
{
    let cells = cells_of(l.spans);
    lemma_nothing_clamped(l.spans, width);
    let at = lemma_runs(cells, 0, width);
    let all = wrap_rows(cells, 0, width);
    let shown = wrapped(l, width);
    assert forall|i: int| 0 <= i < at.len() implies 0 <= (#[trigger] at[i]).0 < at[i].1
        <= cells.len() && painted(shown[i].spans) == painted_cells(
        cells.subrange(at[i].0, at[i].1),
    ) by {
        law_merging_keeps_every_style(all[i]);
        assert(shown[i] == line(merged(all[i])));
    }
    at
}

/// A line that is cut hard is cut where a row is full: with the first character of
/// the next row it would be too wide.
pub proof fn law_hard_rows_are_full(cells: Seq<Cell>, width: nat, i: int)
    requires
        0 <= i < hard_rows(cells, width).len() - 1,
    ensures
        hard_rows(cells, width)[i + 1].len() > 0,
        cells_width(hard_rows(cells, width)[i]) + hard_rows(cells, width)[i + 1][0].width > width,
    decreases cells.len(),
{
    if cells.len() > 0 {
        let before = hard_rows(cells.drop_last(), width);
        let now = hard_rows(cells, width);
        if i < before.len() - 1 {
            law_hard_rows_are_full(cells.drop_last(), width, i);
            assert(now[i] == before[i]);
            assert(now[i + 1][0] == before[i + 1][0]);
        } else {
            assert(now.len() == before.len() + 1);
        }
    }
}

} // verus!
