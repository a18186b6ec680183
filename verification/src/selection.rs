//! Selecting text with the mouse, over the cells that the transcript was
//! rendered to. A wide character takes several columns: one cell leads and the
//! others continue it.

use vstd::prelude::*;
use crate::buffer::{sat16, Buffer, CellView, Rect};
use crate::chars::{group_views, join, lemma_views_push, own, same, to_chars, views};
use crate::format::join_strings;
use crate::measure::{text_width, width};
use crate::style::Modifier;
use crate::words::{before, is_char, trim_end_char, trimmed_end};

verus! {

broadcast use group_views;

#[derive(Debug, Clone, Copy, PartialEq, Eq, Structural)]
pub struct SelectionPoint {
    pub row: usize,
    pub column: usize,
}

#[derive(Debug, Clone, Copy, PartialEq, Eq, Structural)]
pub struct TranscriptSelection {
    pub anchor: SelectionPoint,
    pub focus: SelectionPoint,
}

#[derive(Debug, PartialEq, Eq)]
pub enum RenderedCell {
    Character(char),
    Text(String),
    Space,
    Continuation { lead: usize },
}

#[verifier::ext_equal]
pub enum RenderedView {
    Character(char),
    Text(Seq<char>),
    Space,
    Continuation { lead: usize },
}

impl View for RenderedCell {
    type V = RenderedView;

    open spec fn view(&self) -> RenderedView {
        match self {
            RenderedCell::Character(c) => RenderedView::Character(*c),
            RenderedCell::Text(text) => RenderedView::Text(text@),
            RenderedCell::Space => RenderedView::Space,
            RenderedCell::Continuation { lead } => RenderedView::Continuation { lead: *lead },
        }
    }
}

pub type RenderedRow = Vec<RenderedCell>;

/// Whether one point stands before another, or is it, in reading order.
pub open spec fn upto(a: SelectionPoint, b: SelectionPoint) -> bool {
    a.row < b.row || (a.row == b.row && a.column <= b.column)
}

/// The ends of a selection in reading order.
pub open spec fn ends_of(s: TranscriptSelection) -> (SelectionPoint, SelectionPoint) {
    if upto(s.anchor, s.focus) {
        (s.anchor, s.focus)
    } else {
        (s.focus, s.anchor)
    }
}

impl TranscriptSelection {
    pub fn ordered(self) -> (r: (SelectionPoint, SelectionPoint))
        ensures
            r == ends_of(self),
    {
        if self.anchor.row < self.focus.row || (self.anchor.row == self.focus.row
            && self.anchor.column <= self.focus.column) {
            (self.anchor, self.focus)
        } else {
            (self.focus, self.anchor)
        }
    }
}

pub open spec fn clamped(n: int, low: int, high: int) -> int {
    if n < low {
        low
    } else if n > high {
        high
    } else {
        n
    }
}

/// The point of a screen position, counted from the area's corner. One outside
/// the area has none, or the nearest one where positions are clamped.
pub open spec fn point_at(area: Rect, column: int, row: int, clamp: bool) -> Option<(int, int)> {
    if area.width == 0 || area.height == 0 || (!clamp && !area.holds(column, row)) {
        None
    } else {
        Some(
            (
                clamped(row, area.y as int, area.bottom_edge() - 1) - area.y,
                clamped(column, area.x as int, area.right_edge() - 1) - area.x,
            ),
        )
    }
}

pub fn selection_point(area: Rect, column: u16, row: u16, clamp: bool) -> (r: Option<
    SelectionPoint,
>)
    requires
        clamp && area.width > 0 && area.height > 0 ==> area.x < area.right_edge() && area.y
            < area.bottom_edge(),
    ensures
        match r {
            Some(p) => point_at(area, column as int, row as int, clamp) == Some(
                (p.row as int, p.column as int),
            ),
            None => point_at(area, column as int, row as int, clamp) is None,
        },
{
    if area.width == 0 || area.height == 0 {
        return None;
    }
    let right: u16 = area.right();
    let bottom: u16 = area.bottom();
    if !clamp && (column < area.x || column >= right || row < area.y || row >= bottom) {
        return None;
    }
    let x: u16 = if column < area.x {
        area.x
    } else if column > right - 1 {
        right - 1
    } else {
        column
    };
    let y: u16 = if row < area.y {
        area.y
    } else if row > bottom - 1 {
        bottom - 1
    } else {
        row
    };
    Some(SelectionPoint { row: (y - area.y) as usize, column: (x - area.x) as usize })
}

pub open spec fn smaller(a: int, b: int) -> int {
    if a < b {
        a
    } else {
        b
    }
}

/// The first and the last column that a selection takes of a row. A click, which
/// starts and ends on one point, selects nothing.
pub open spec fn columns_of(s: TranscriptSelection, row: int, width: int) -> Option<(int, int)> {
    let (start, end) = ends_of(s);
    if width <= 0 || s.anchor == s.focus || row < start.row || row > end.row {
        None
    } else {
        let first = smaller(
            if row == start.row {
                start.column as int
            } else {
                0
            },
            width - 1,
        );
        let last = smaller(
            if row == end.row {
                end.column as int
            } else {
                width - 1
            },
            width - 1,
        );
        if first <= last {
            Some((first, last))
        } else {
            None
        }
    }
}

pub fn selected_columns(selection: TranscriptSelection, row: usize, width: usize) -> (r: Option<
    (usize, usize),
>)
    ensures
        match r {
            Some((first, last)) => columns_of(selection, row as int, width as int) == Some(
                (first as int, last as int),
            ) && first <= last < width,
            None => columns_of(selection, row as int, width as int) is None,
        },
{
    if width == 0 || selection.anchor == selection.focus {
        return None;
    }
    let (start, end) = selection.ordered();
    if row < start.row || row > end.row {
        return None;
    }
    let from: usize = if row == start.row {
        start.column
    } else {
        0
    };
    let to: usize = if row == end.row {
        end.column
    } else {
        width - 1
    };
    let first: usize = if from < width - 1 {
        from
    } else {
        width - 1
    };
    let last: usize = if to < width - 1 {
        to
    } else {
        width - 1
    };
    if first <= last {
        Some((first, last))
    } else {
        None
    }
}

/// The cell that leads the character of a column.
pub open spec fn lead_of(row: Seq<RenderedView>, at: int) -> int {
    if 0 <= at < row.len() {
        match row[at] {
            RenderedView::Continuation { lead } => lead as int,
            _ => at,
        }
    } else {
        at
    }
}

/// The last column from `at` on that continues the one before it.
pub open spec fn run_end(row: Seq<RenderedView>, at: int) -> int
    decreases row.len() - at,
{
    if 0 <= at && at + 1 < row.len() && row[at + 1] == (RenderedView::Continuation {
        lead: at as usize,
    }) {
        run_end(row, at + 1)
    } else {
        at
    }
}

/// The columns of the whole characters that `first..=last` touches.
pub open spec fn whole_characters(row: Seq<RenderedView>, first: int, last: int) -> (int, int) {
    (lead_of(row, first), run_end(row, lead_of(row, last)))
}

/// No cell continues one beyond the end of every row.
pub open spec fn row_ok(row: Seq<RenderedView>) -> bool {
    forall|i: int|
        0 <= i < row.len() ==> (#[trigger] row[i] matches RenderedView::Continuation { lead }
            ==> lead < usize::MAX)
}

pub open spec fn rows_ok(rows: Seq<RenderedRow>) -> bool {
    forall|i: int| 0 <= i < rows.len() ==> #[trigger] row_ok(views(rows[i]@))
}

fn lead(row: &RenderedRow, at: usize) -> (r: usize)
    ensures
        r == lead_of(views(row@), at as int),
{
    if at < row.len() {
        assert(views(row@)[at as int] == row@[at as int]@);
        if let RenderedCell::Continuation { lead } = &row[at] {
            return *lead;
        }
    }
    at
}

pub fn grapheme_columns(row: &RenderedRow, first: usize, last: usize) -> (r: (usize, usize))
    requires
        row_ok(views(row@)),
        last < usize::MAX,
    ensures
        (r.0 as int, r.1 as int) == whole_characters(views(row@), first as int, last as int),
        r.1 < usize::MAX,
{
    let ghost cells = views(row@);
    let n: usize = row.len();
    let from: usize = lead(row, first);
    let mut to: usize = lead(row, last);
    assert(to < usize::MAX) by {
        assert(cells.len() == row@.len());
        if last < row@.len() {
            assert(cells[last as int] == row@[last as int]@);
        }
    }
    while to + 1 < n
        invariant_except_break
            to < usize::MAX,
            n == row@.len(),
            cells == views(row@),
            run_end(cells, lead_of(cells, last as int)) == run_end(cells, to as int),
        ensures
            to < usize::MAX,
            run_end(cells, lead_of(cells, last as int)) == to,
        decreases n - to,
    {
        assert(cells[to + 1] == row@[to + 1]@);
        let continues: bool = match &row[to + 1] {
            RenderedCell::Continuation { lead } => *lead == to,
            _ => false,
        };
        if !continues {
            break;
        }
        to += 1;
    }
    (from, to)
}

/// What a cell copies as.
pub open spec fn cell_text(cell: RenderedView) -> Seq<char> {
    match cell {
        RenderedView::Character(c) => seq![c],
        RenderedView::Text(text) => text,
        RenderedView::Space => seq![' '],
        RenderedView::Continuation { .. } => Seq::empty(),
    }
}

/// What the columns `from..to` copy as. There is nothing beyond the row.
pub open spec fn cells_text(row: Seq<RenderedView>, from: int, to: int) -> Seq<char>
    decreases to - from,
{
    if from >= to || from < 0 || from >= row.len() {
        Seq::empty()
    } else {
        cell_text(row[from]) + cells_text(row, from + 1, to)
    }
}

/// What a selection copies of a row: whole characters, without the padding at
/// the end.
pub open spec fn row_text(row: Seq<RenderedView>, s: TranscriptSelection, at: int) -> Seq<char> {
    match columns_of(s, at, row.len() as int) {
        Some((first, last)) => {
            let (from, to) = whole_characters(row, first, last);
            trimmed_end(cells_text(row, from, to + 1), is_char(' '))
        },
        None => Seq::empty(),
    }
}

/// What a selection copies of the rows `from..to`.
pub open spec fn row_texts(rows: Seq<RenderedRow>, s: TranscriptSelection, from: int, to: int) -> Seq<
    Seq<char>,
> {
    Seq::new((to - from) as nat, |i: int| row_text(views(rows[from + i]@), s, from + i))
}

/// What a selection copies, row by row.
pub open spec fn copied(rows: Seq<RenderedRow>, s: TranscriptSelection) -> Option<Seq<char>> {
    let (start, end) = ends_of(s);
    let last = smaller(end.row as int, rows.len() - 1);
    if s.anchor == s.focus || rows.len() == 0 || start.row > last {
        None
    } else {
        let text = join(row_texts(rows, s, start.row as int, last + 1), "\n"@);
        if text.len() == 0 {
            None
        } else {
            Some(text)
        }
    }
}

fn copy_row(row: &RenderedRow, selection: TranscriptSelection, at: usize) -> (r: String)
    requires
        row_ok(views(row@)),
    ensures
        r@ == row_text(views(row@), selection, at as int),
{
    let ghost cells = views(row@);
    assert(cells.len() == row@.len());
    match selected_columns(selection, at, row.len()) {
        Some((first, last)) => {
            let (from, to) = grapheme_columns(row, first, last);
            let mut text: String = String::new();
            let mut column: usize = from;
            while column <= to && column < row.len()
                invariant
                    cells == views(row@),
                    to < usize::MAX,
                    text@ + cells_text(cells, column as int, to + 1) == cells_text(
                        cells,
                        from as int,
                        to + 1,
                    ),
                decreases to + 1 - column,
            {
                assert(cells[column as int] == row@[column as int]@);
                let ghost so_far = text@;
                match &row[column] {
                    RenderedCell::Character(c) => {
                        text.push(*c);
                    },
                    RenderedCell::Text(value) => {
                        text.push_str(value.as_str());
                    },
                    RenderedCell::Space => {
                        text.push(' ');
                    },
                    RenderedCell::Continuation { .. } => {},
                }
                assert(text@ =~= so_far + cell_text(cells[column as int]));
                assert(so_far + (cell_text(cells[column as int]) + cells_text(
                    cells,
                    column + 1,
                    to + 1,
                )) =~= text@ + cells_text(cells, column + 1, to + 1));
                column += 1;
            }
            assert(text@ + Seq::empty() =~= text@);
            trim_end_char(text.as_str(), ' ')
        },
        None => String::new(),
    }
}

pub fn selected_transcript_text(rows: &[RenderedRow], selection: TranscriptSelection) -> (r: Option<
    String,
>)
    requires
        rows_ok(rows@),
    ensures
        match r {
            Some(text) => copied(rows@, selection) == Some(text@),
            None => copied(rows@, selection) is None,
        },
{
    if selection.anchor == selection.focus || rows.len() == 0 {
        return None;
    }
    let (start, end) = selection.ordered();
    let n: usize = rows.len();
    let last: usize = if end.row < n - 1 {
        end.row
    } else {
        n - 1
    };
    if start.row > last {
        return None;
    }
    let mut texts: Vec<String> = Vec::new();
    let mut row: usize = start.row;
    while row <= last
        invariant
            start.row <= row <= last + 1 <= n,
            n == rows@.len(),
            rows_ok(rows@),
            views(texts@) == row_texts(rows@, selection, start.row as int, row as int),
        decreases last + 1 - row,
    {
        assert(row_ok(views(rows@[row as int]@)));
        texts.push(copy_row(&rows[row], selection, row));
        row += 1;
        assert(views(texts@) =~= row_texts(rows@, selection, start.row as int, row as int));
    }
    let text: String = join_strings(&texts, "\n");
    if text.as_str().is_empty() {
        None
    } else {
        Some(text)
    }
}

/// A row of the screen, where there is one.
pub open spec fn row_at(rows: Seq<RenderedRow>, row: int) -> Option<Seq<RenderedView>> {
    if 0 <= row < rows.len() {
        Some(views(rows[row]@))
    } else {
        None
    }
}

/// Whether the rows that a selection spans show what they showed.
pub open spec fn unchanged(
    previous: Seq<RenderedRow>,
    current: Seq<RenderedRow>,
    s: TranscriptSelection,
) -> bool {
    forall|row: int|
        ends_of(s).0.row <= row <= ends_of(s).1.row ==> #[trigger] row_at(previous, row) == row_at(
            current,
            row,
        )
}

fn same_cell(a: &RenderedCell, b: &RenderedCell) -> (r: bool)
    ensures
        r == (a@ == b@),
{
    match (a, b) {
        (RenderedCell::Character(x), RenderedCell::Character(y)) => *x == *y,
        (RenderedCell::Text(x), RenderedCell::Text(y)) => same(x.as_str(), y.as_str()),
        (RenderedCell::Space, RenderedCell::Space) => true,
        (RenderedCell::Continuation { lead: x }, RenderedCell::Continuation { lead: y }) => *x
            == *y,
        _ => false,
    }
}

fn same_row(a: &RenderedRow, b: &RenderedRow) -> (r: bool)
    ensures
        r == (views(a@) == views(b@)),
{
    assert(views(a@).len() == a@.len() && views(b@).len() == b@.len());
    if a.len() != b.len() {
        return false;
    }
    let mut i: usize = 0;
    while i < a.len()
        invariant
            i <= a@.len(),
            a@.len() == b@.len(),
            forall|k: int| 0 <= k < i ==> views(a@)[k] == views(b@)[k],
        decreases a@.len() - i,
    {
        assert(views(a@)[i as int] == a@[i as int]@ && views(b@)[i as int] == b@[i as int]@);
        if !same_cell(&a[i], &b[i]) {
            return false;
        }
        i += 1;
    }
    assert(views(a@) =~= views(b@));
    true
}

pub fn selected_rows_unchanged(
    previous: &[RenderedRow],
    current: &[RenderedRow],
    selection: TranscriptSelection,
) -> (r: bool)
    ensures
        r == unchanged(previous@, current@, selection),
{
    let (start, end) = selection.ordered();
    let mut row: usize = start.row;
    while row <= end.row && (row < previous.len() || row < current.len())
        invariant
            start == ends_of(selection).0,
            end == ends_of(selection).1,
            start.row <= row,
            forall|k: int|
                start.row <= k < row ==> #[trigger] row_at(previous@, k) == row_at(current@, k),
        decreases (if row <= end.row {
            end.row + 1 - row
        } else {
            0
        }),
    {
        let same: bool = if row < previous.len() && row < current.len() {
            same_row(&previous[row], &current[row])
        } else {
            false
        };
        if !same {
            assert(row_at(previous@, row as int) != row_at(current@, row as int));
            return false;
        }
        row += 1;
    }
    true
}

/// What a place of a screen shows. There is a space where it has no cell.
pub open spec fn symbol_at(buffer: Buffer, column: int, row: int) -> Seq<char> {
    let i = buffer.index_at(column, row);
    if 0 <= i < buffer.content@.len() {
        buffer.content@[i].symbol@
    } else {
        " "@
    }
}

/// The columns that a symbol takes before the right edge.
pub open spec fn symbol_width(symbol: Seq<char>, column: int, right: int) -> int {
    smaller(
        if text_width(symbol) < 1 {
            1
        } else {
            text_width(symbol) as int
        },
        right - column,
    )
}

/// What leads the cells of a symbol.
pub open spec fn leading(symbol: Seq<char>) -> RenderedView {
    if symbol.len() == 1 {
        RenderedView::Character(symbol[0])
    } else {
        RenderedView::Text(symbol)
    }
}

/// The cells of a row from `column` on, behind those that were read.
pub open spec fn cells_from(
    buffer: Buffer,
    row: int,
    right: int,
    column: int,
    read: Seq<RenderedView>,
) -> Seq<RenderedView>
    decreases right - column,
{
    if column >= right {
        read
    } else {
        let symbol = symbol_at(buffer, column, row);
        if symbol == " "@ {
            cells_from(buffer, row, right, column + 1, read.push(RenderedView::Space))
        } else {
            let width = symbol_width(symbol, column, right);
            cells_from(
                buffer,
                row,
                right,
                column + width,
                read.push(leading(symbol)) + Seq::new(
                    (width - 1) as nat,
                    |i: int| RenderedView::Continuation { lead: read.len() as usize },
                ),
            )
        }
    }
}

fn push_symbol(rendered: &mut RenderedRow, symbol: &str, width: usize)
    requires
        width >= 1,
    ensures
        views(final(rendered)@) == views(old(rendered)@).push(leading(symbol@)) + Seq::new(
            (width - 1) as nat,
            |i: int| RenderedView::Continuation { lead: old(rendered)@.len() as usize },
        ),
{
    let ghost before = views(rendered@);
    let lead: usize = rendered.len();
    let chars: Vec<char> = to_chars(symbol);
    let head: RenderedCell = if chars.len() == 1 {
        RenderedCell::Character(chars[0])
    } else {
        RenderedCell::Text(own(symbol))
    };
    assert(head@ == leading(symbol@));
    proof {
        lemma_views_push(rendered@, head);
    }
    rendered.push(head);
    let ghost led = views(rendered@);
    let mut i: usize = 1;
    while i < width
        invariant
            1 <= i <= width,
            views(rendered@) == led + Seq::new(
                (i - 1) as nat,
                |k: int| RenderedView::Continuation { lead },
            ),
        decreases width - i,
    {
        let ghost so_far = views(rendered@);
        rendered.push(RenderedCell::Continuation { lead });
        i += 1;
        assert(views(rendered@) =~= led + Seq::new(
            (i - 1) as nat,
            |k: int| RenderedView::Continuation { lead },
        ));
    }
    assert(lead == old(rendered)@.len() as usize);
    assert(views(rendered@) =~= led + Seq::new(
        (width - 1) as nat,
        |i: int| RenderedView::Continuation { lead: old(rendered)@.len() as usize },
    ));
}

fn row_cells(buffer: &Buffer, area: Rect, row: u16) -> (r: RenderedRow)
    requires
        buffer.wf(),
    ensures
        views(r@) == cells_from(
            *buffer,
            row as int,
            area.right_edge(),
            area.x as int,
            Seq::empty(),
        ),
{
    let mut rendered: RenderedRow = Vec::new();
    let right: u16 = area.right();
    let mut column: u16 = area.x;
    let ghost whole = cells_from(*buffer, row as int, right as int, area.x as int, Seq::empty());
    assert(views(rendered@) =~= Seq::empty());
    while column < right
        invariant
            buffer.wf(),
            whole == cells_from(
                *buffer,
                row as int,
                right as int,
                column as int,
                views(rendered@),
            ),
        decreases right - column,
    {
        proof {
            buffer.lemma_index_at(column as int, row as int);
        }
        let symbol: &str = match buffer.index_of(column, row) {
            Some(i) => buffer.content[i].symbol.as_str(),
            None => " ",
        };
        assert(symbol@ == symbol_at(*buffer, column as int, row as int));
        if same(symbol, " ") {
            rendered.push(RenderedCell::Space);
            column += 1;
            continue ;
        }
        let wide: usize = width(symbol);
        let left: usize = (right - column) as usize;
        let cells: usize = if wide < 1 {
            1
        } else if wide < left {
            wide
        } else {
            left
        };
        push_symbol(&mut rendered, symbol, cells);
        column = column + cells as u16;
    }
    rendered
}

/// The cells of an area, as they were rendered.
pub fn transcript_cells(buffer: &Buffer, area: Rect) -> (r: Vec<RenderedRow>)
    requires
        buffer.wf(),
    ensures
        r@.len() == (if area.bottom_edge() > area.y {
            area.bottom_edge() - area.y
        } else {
            0
        }),
        forall|i: int|
            0 <= i < r@.len() ==> views(#[trigger] r@[i]@) == cells_from(
                *buffer,
                area.y + i,
                area.right_edge(),
                area.x as int,
                Seq::empty(),
            ),
{
    let mut rows: Vec<RenderedRow> = Vec::new();
    let bottom: u16 = area.bottom();
    let mut row: u16 = area.y;
    while row < bottom
        invariant
            buffer.wf(),
            area.y <= row,
            row <= bottom || row == area.y,
            rows@.len() == row - area.y,
            forall|i: int|
                0 <= i < rows@.len() ==> views(#[trigger] rows@[i]@) == cells_from(
                    *buffer,
                    area.y + i,
                    area.right_edge(),
                    area.x as int,
                    Seq::empty(),
                ),
        decreases (if row < bottom {
            bottom - row
        } else {
            0
        }),
    {
        let cells: RenderedRow = row_cells(buffer, area, row);
        rows.push(cells);
        row += 1;
    }
    rows
}

/// A cell in reverse video.
pub open spec fn reversed(cell: CellView) -> CellView {
    CellView { modifier: Modifier { reversed: true, ..cell.modifier }, ..cell }
}

/// Whether a selection takes this column of this row.
pub open spec fn takes(rows: Seq<RenderedRow>, s: TranscriptSelection, row: int, column: int) -> bool {
    0 <= row < rows.len() && match columns_of(s, row, rows[row]@.len() as int) {
        Some((first, last)) => {
            let (from, to) = whole_characters(views(rows[row]@), first, last);
            from <= column <= to
        },
        None => false,
    }
}

/// Whether the cell that stands at `i` shows this column of this row.
pub open spec fn shows(buffer: Buffer, area: Rect, row: int, column: int, i: int) -> bool {
    buffer.index_at(
        sat16(area.x as int, (column as usize) as u16 as int),
        sat16(area.y as int, row),
    ) == i
}

/// Whether the cell that stands at `i` is selected by one of the first rows, or
/// by one of the first columns of the next.
pub open spec fn marked(
    buffer: Buffer,
    area: Rect,
    rows: Seq<RenderedRow>,
    s: TranscriptSelection,
    upto_row: int,
    upto_column: int,
    i: int,
) -> bool {
    exists|row: int, column: int|
        #![trigger takes(rows, s, row, column)]
        (row < upto_row || (row == upto_row && column < upto_column)) && takes(
            rows,
            s,
            row,
            column,
        ) && shows(buffer, area, row, column, i)
}

/// Paint what is selected in reverse video.
pub fn highlight_transcript_selection(
    buffer: &mut Buffer,
    area: Rect,
    selection: TranscriptSelection,
    rows: &[RenderedRow],
)
    requires
        old(buffer).wf(),
        rows_ok(rows@),
    ensures
        final(buffer).wf(),
        final(buffer).area == old(buffer).area,
        final(buffer).content@.len() == old(buffer).content@.len(),
        forall|i: int|
            0 <= i < old(buffer).content@.len() ==> (#[trigger] final(buffer).content@[i])@ == (
            if marked(*old(buffer), area, rows@, selection, area.height as int, 0, i) {
                reversed(old(buffer).content@[i]@)
            } else {
                old(buffer).content@[i]@
            }),
{
    let ghost before = *buffer;
    let n: usize = area.height as usize;
    let mut row: usize = 0;
    while row < n && row < rows.len()
        invariant
            n == area.height,
            row <= n,
            rows_ok(rows@),
            before.wf(),
            buffer.area == before.area,
            buffer.content@.len() == before.content@.len(),
            forall|i: int|
                0 <= i < before.content@.len() ==> (#[trigger] buffer.content@[i])@ == (if marked(
                    before,
                    area,
                    rows@,
                    selection,
                    row as int,
                    0,
                    i,
                ) {
                    reversed(before.content@[i]@)
                } else {
                    before.content@[i]@
                }),
        decreases n - row,
    {
        assert(row_ok(views(rows@[row as int]@)));
        if let Some((first, last)) = selected_columns(selection, row, rows[row].len()) {
            let (from, to) = grapheme_columns(&rows[row], first, last);
            proof {
                lemma_row_begins(before, area, rows@, selection, row as int, from as int, to as int);
            }
            let mut column: usize = from;
            while column <= to
                invariant
                    n == area.height,
                    row < n,
                    row < rows@.len(),
                    to < usize::MAX,
                    from <= column,
                    before.wf(),
                    buffer.area == before.area,
                    buffer.content@.len() == before.content@.len(),
                    forall|c: int|
                        takes(rows@, selection, row as int, c) <==> from <= c <= to,
                    forall|i: int|
                        0 <= i < before.content@.len() ==> (#[trigger] buffer.content@[i])@ == (
                        if marked(
                            before,
                            area,
                            rows@,
                            selection,
                            row as int,
                            column as int,
                            i,
                        ) {
                            reversed(before.content@[i]@)
                        } else {
                            before.content@[i]@
                        }),
                decreases to + 1 - column,
            {
                #[verifier::truncate]
                let across: u16 = column as u16;
                let x: u16 = area.x.saturating_add(across);
                let y: u16 = area.y.saturating_add(row as u16);
                proof {
                    before.lemma_index_at(x as int, y as int);
                    lemma_next_column(
                        before,
                        area,
                        rows@,
                        selection,
                        row as int,
                        column as int,
                    );
                }
                if let Some(at) = buffer.index_of(x, y) {
                    let ghost cells = buffer.content@;
                    let mut lit: Modifier = buffer.content[at].modifier;
                    lit.reversed = true;
                    buffer.content[at].modifier = lit;
                    assert(forall|k: int|
                        0 <= k < cells.len() && k != at ==> buffer.content@[k] == cells[k]);
                }
                column += 1;
            }
            proof {
                lemma_row_ends(before, area, rows@, selection, row as int, column as int);
            }
        } else {
            proof {
                lemma_row_ends(before, area, rows@, selection, row as int, 0);
            }
        }
        row += 1;
    }
    proof {
        assert forall|i: int|
            marked(before, area, rows@, selection, row as int, 0, i) <==> marked(
                before,
                area,
                rows@,
                selection,
                n as int,
                0,
                i,
            ) by {
            if marked(before, area, rows@, selection, n as int, 0, i) {
                let (r, c) = choose|r: int, c: int|
                    #![trigger takes(rows@, selection, r, c)]
                    (r < n || (r == n && c < 0)) && takes(rows@, selection, r, c) && shows(
                        before,
                        area,
                        r,
                        c,
                        i,
                    );
                lemma_columns_are_counts(rows@, selection, r, c);
                assert(takes(rows@, selection, r, c));
            }
            if marked(before, area, rows@, selection, row as int, 0, i) {
                let (r, c) = choose|r: int, c: int|
                    #![trigger takes(rows@, selection, r, c)]
                    (r < row || (r == row && c < 0)) && takes(rows@, selection, r, c) && shows(
                        before,
                        area,
                        r,
                        c,
                        i,
                    );
                lemma_columns_are_counts(rows@, selection, r, c);
                assert(takes(rows@, selection, r, c));
            }
        }
    }
}

proof fn lemma_columns_are_counts(
    rows: Seq<RenderedRow>,
    s: TranscriptSelection,
    row: int,
    column: int,
)
    requires
        takes(rows, s, row, column),
    ensures
        column >= 0,
{
}

/// No column before `from` of a row is selected.
proof fn lemma_row_begins(
    buffer: Buffer,
    area: Rect,
    rows: Seq<RenderedRow>,
    s: TranscriptSelection,
    row: int,
    from: int,
    to: int,
)
    requires
        forall|c: int| takes(rows, s, row, c) <==> from <= c <= to,
        from >= 0,
    ensures
        forall|i: int|
            marked(buffer, area, rows, s, row, 0, i) <==> marked(
                buffer,
                area,
                rows,
                s,
                row,
                from,
                i,
            ),
{
    assert forall|i: int|
        marked(buffer, area, rows, s, row, 0, i) <==> marked(
            buffer,
            area,
            rows,
            s,
            row,
            from,
            i,
        ) by {
        if marked(buffer, area, rows, s, row, from, i) {
            let (r, c) = choose|r: int, c: int|
                #![trigger takes(rows, s, r, c)]
                (r < row || (r == row && c < from)) && takes(rows, s, r, c) && shows(
                    buffer,
                    area,
                    r,
                    c,
                    i,
                );
            assert(takes(rows, s, r, c));
        }
        if marked(buffer, area, rows, s, row, 0, i) {
            let (r, c) = choose|r: int, c: int|
                #![trigger takes(rows, s, r, c)]
                (r < row || (r == row && c < 0)) && takes(rows, s, r, c) && shows(
                    buffer,
                    area,
                    r,
                    c,
                    i,
                );
            assert(takes(rows, s, r, c));
        }
    }
}

/// One more column marks the cell that shows it.
proof fn lemma_next_column(
    buffer: Buffer,
    area: Rect,
    rows: Seq<RenderedRow>,
    s: TranscriptSelection,
    row: int,
    column: int,
)
    requires
        takes(rows, s, row, column),
    ensures
        forall|i: int| #[trigger]
            marked(buffer, area, rows, s, row, column + 1, i) <==> (marked(
                buffer,
                area,
                rows,
                s,
                row,
                column,
                i,
            ) || shows(buffer, area, row, column, i)),
{
    assert forall|i: int| #[trigger]
        marked(buffer, area, rows, s, row, column + 1, i) <==> (marked(
            buffer,
            area,
            rows,
            s,
            row,
            column,
            i,
        ) || shows(buffer, area, row, column, i)) by {
        if marked(buffer, area, rows, s, row, column + 1, i) {
            let (r, c) = choose|r: int, c: int|
                #![trigger takes(rows, s, r, c)]
                (r < row || (r == row && c < column + 1)) && takes(rows, s, r, c) && shows(
                    buffer,
                    area,
                    r,
                    c,
                    i,
                );
            assert(takes(rows, s, r, c));
        }
        if marked(buffer, area, rows, s, row, column, i) {
            let (r, c) = choose|r: int, c: int|
                #![trigger takes(rows, s, r, c)]
                (r < row || (r == row && c < column)) && takes(rows, s, r, c) && shows(
                    buffer,
                    area,
                    r,
                    c,
                    i,
                );
            assert(takes(rows, s, r, c));
        }
    }
}

/// A row whose selected columns were all seen is done.
proof fn lemma_row_ends(
    buffer: Buffer,
    area: Rect,
    rows: Seq<RenderedRow>,
    s: TranscriptSelection,
    row: int,
    column: int,
)
    requires
        forall|c: int| #[trigger] takes(rows, s, row, c) ==> c < column,
    ensures
        forall|i: int| #[trigger]
            marked(buffer, area, rows, s, row + 1, 0, i) <==> marked(
                buffer,
                area,
                rows,
                s,
                row,
                column,
                i,
            ),
{
    assert forall|i: int| #[trigger]
        marked(buffer, area, rows, s, row + 1, 0, i) <==> marked(
            buffer,
            area,
            rows,
            s,
            row,
            column,
            i,
        ) by {
        if marked(buffer, area, rows, s, row + 1, 0, i) {
            let (r, c) = choose|r: int, c: int|
                #![trigger takes(rows, s, r, c)]
                (r < row + 1 || (r == row + 1 && c < 0)) && takes(rows, s, r, c) && shows(
                    buffer,
                    area,
                    r,
                    c,
                    i,
                );
            lemma_columns_are_counts(rows, s, r, c);
            assert(takes(rows, s, r, c));
        }
        if marked(buffer, area, rows, s, row, column, i) {
            let (r, c) = choose|r: int, c: int|
                #![trigger takes(rows, s, r, c)]
                (r < row || (r == row && c < column)) && takes(rows, s, r, c) && shows(
                    buffer,
                    area,
                    r,
                    c,
                    i,
                );
            assert(takes(rows, s, r, c));
        }
    }
}

/// It does not matter from which end a selection was drawn.
pub proof fn law_selection_has_no_direction(
    rows: Seq<RenderedRow>,
    a: SelectionPoint,
    b: SelectionPoint,
)
    ensures
        copied(rows, TranscriptSelection { anchor: a, focus: b }) == copied(
            rows,
            TranscriptSelection { anchor: b, focus: a },
        ),
{
    let s = TranscriptSelection { anchor: a, focus: b };
    let t = TranscriptSelection { anchor: b, focus: a };
    assert(ends_of(s) == ends_of(t));
    let (start, end) = ends_of(s);
    let last = smaller(end.row as int, rows.len() - 1);
    assert(row_texts(rows, s, start.row as int, last + 1) =~= row_texts(
        rows,
        t,
        start.row as int,
        last + 1,
    ));
}

/// A click copies nothing.
pub proof fn law_a_click_copies_nothing(rows: Seq<RenderedRow>, at: SelectionPoint)
    ensures
        copied(rows, TranscriptSelection { anchor: at, focus: at }) is None,
{
}

/// The text that was copied, or none.
pub open spec fn text_or_none(text: Option<Seq<char>>) -> Seq<char> {
    match text {
        Some(text) => text,
        None => Seq::empty(),
    }
}

/// The columns `a..=b` of row `at`.
pub open spec fn in_one_row(at: usize, a: usize, b: usize) -> TranscriptSelection {
    TranscriptSelection {
        anchor: SelectionPoint { row: at, column: a },
        focus: SelectionPoint { row: at, column: b },
    }
}

proof fn lemma_before_blanks(s: Seq<char>, n: int)
    requires
        0 <= n <= s.len(),
    ensures
        ({
            let k = before(s, n, is_char(' '));
            &&& 0 <= k <= n
            &&& k > 0 ==> s[k - 1] != ' '
            &&& forall|i: int| k <= i < n ==> s[i] == ' '
        }),
    decreases n,
{
    if n > 0 && s[n - 1] == ' ' {
        lemma_before_blanks(s, n - 1);
    }
}

proof fn lemma_one_row(rows: Seq<RenderedRow>, at: usize, a: usize, b: usize)
    requires
        at < rows.len(),
        a < b,
    ensures
        text_or_none(copied(rows, in_one_row(at, a, b))) == row_text(
            views(rows[at as int]@),
            in_one_row(at, a, b),
            at as int,
        ),
        copied(rows, in_one_row(at, a, b)) matches Some(text) ==> text.len() > 0,
{
    let s = in_one_row(at, a, b);
    let texts = row_texts(rows, s, at as int, at + 1);
    assert(texts.len() == 1);
    let text = join(texts, "\n"@);
    assert(text == texts[0]);
    if text.len() == 0 {
        assert(text =~= Seq::empty());
    }
}

proof fn lemma_plain_cells(row: Seq<RenderedView>, from: int, to: int)
    requires
        0 <= from <= to <= row.len(),
        forall|k: int|
            from <= k < to ==> #[trigger] row[k] is Character || row[k] is Space,
    ensures
        cells_text(row, from, to).len() == to - from,
        forall|k: int|
            0 <= k < to - from ==> (row[from + k] is Space ==> #[trigger] cells_text(
                row,
                from,
                to,
            )[k] == ' ') && (row[from + k] matches RenderedView::Character(c) ==> cells_text(
                row,
                from,
                to,
            )[k] == c),
    decreases to - from,
{
    if from < to {
        lemma_plain_cells(row, from + 1, to);
        let rest = cells_text(row, from + 1, to);
        let all = cells_text(row, from, to);
        assert(cell_text(row[from]).len() == 1);
        assert forall|k: int| 0 <= k < to - from implies (row[from + k] is Space
            ==> #[trigger] all[k] == ' ') && (row[from + k] matches RenderedView::Character(c)
            ==> all[k] == c) by {
            if k > 0 {
                assert(all[k] == rest[k - 1]);
            }
        }
    }
}

/// Where every column shows one character or a blank, what is copied of the
/// columns `a..=b` is what they show, column by column, a blank as a space; only
/// blanks at the end are left out, and where there is nothing but blanks nothing is
/// copied.
pub proof fn law_what_is_shown_is_copied(rows: Seq<RenderedRow>, at: usize, a: usize, b: usize)
    requires
        at < rows.len(),
        a < b < rows[at as int]@.len(),
        forall|k: int|
            a <= k <= b ==> (#[trigger] rows[at as int]@[k]) is Character
                || rows[at as int]@[k] is Space,
    ensures
        ({
            let row = rows[at as int]@;
            let text = text_or_none(copied(rows, in_one_row(at, a, b)));
            &&& text.len() <= b - a + 1
            &&& forall|k: int|
                0 <= k < text.len() ==> match row[a + k] {
                    RenderedCell::Character(c) => #[trigger] text[k] == c,
                    _ => text[k] == ' ',
                }
            &&& forall|k: int|
                a + text.len() <= k <= b ==> (#[trigger] row[k]) is Space || row[k]
                    == RenderedCell::Character(' ')
            &&& text.len() > 0 ==> text.last() != ' '
            &&& text.len() > 0 <==> copied(rows, in_one_row(at, a, b)) is Some
        }),
{
    let row = rows[at as int]@;
    let cells = views(row);
    let s = in_one_row(at, a, b);
    lemma_one_row(rows, at, a, b);
    assert forall|k: int| a <= k <= b implies (#[trigger] cells[k]) is Character
        || cells[k] is Space by {
        assert(cells[k] == row[k]@);
    }
    assert(cells[b as int] == row[b as int]@);
    assert(cells[a as int] == row[a as int]@);
    let end = run_end(cells, b as int);
    if b + 1 < cells.len() && cells[b + 1] == (RenderedView::Continuation { lead: b }) {
        lemma_continued_adds_nothing(cells, a as int, b as int);
    } else {
        assert(end == b);
    }
    let whole = cells_text(cells, a as int, b + 1);
    assert(cells_text(cells, a as int, end + 1) == whole);
    lemma_plain_cells(cells, a as int, b + 1);
    lemma_before_blanks(whole, whole.len() as int);
    let text = trimmed_end(whole, is_char(' '));
    assert(row_text(cells, s, at as int) == text);
    assert forall|k: int| 0 <= k < text.len() implies match row[a + k] {
        RenderedCell::Character(c) => #[trigger] text[k] == c,
        _ => text[k] == ' ',
    } by {
        assert(text[k] == whole[k]);
        assert(cells[a + k] == row[a + k]@);
        assert(row[a + k] is Character || row[a + k] is Space);
    }
    assert forall|k: int| a + text.len() <= k <= b implies (#[trigger] row[k]) is Space || row[k]
        == RenderedCell::Character(' ') by {
        assert(whole[k - a] == ' ');
        assert(cells[a + (k - a)] == row[k]@);
    }
    if text.len() > 0 {
        assert(text.last() == whole[text.len() - 1]);
    }
}

/// The cells that continue a character add nothing to what is copied.
proof fn lemma_continued_adds_nothing(row: Seq<RenderedView>, from: int, at: int)
    requires
        0 <= from <= at < row.len(),
    ensures
        at <= run_end(row, at) < row.len(),
        cells_text(row, from, run_end(row, at) + 1) == cells_text(row, from, at + 1),
    decreases row.len() - at,
{
    if at + 1 < row.len() && row[at + 1] == (RenderedView::Continuation { lead: at as usize }) {
        lemma_continued_adds_nothing(row, from, at + 1);
        lemma_cells_split(row, from, at + 1, at + 2);
        assert(cells_text(row, at + 2, at + 2) =~= Seq::empty());
        assert(cells_text(row, at + 1, at + 2) =~= cell_text(row[at + 1]) + cells_text(row, at + 2, at + 2));
        assert(cells_text(row, from, at + 2) =~= cells_text(row, from, at + 1));
    }
}

proof fn lemma_cells_split(row: Seq<RenderedView>, from: int, mid: int, to: int)
    requires
        0 <= from <= mid <= to <= row.len(),
    ensures
        cells_text(row, from, to) == cells_text(row, from, mid) + cells_text(row, mid, to),
    decreases mid - from,
{
    if from < mid {
        lemma_cells_split(row, from + 1, mid, to);
        assert(cells_text(row, from, to) =~= cells_text(row, from, mid) + cells_text(row, mid, to));
    } else {
        assert(cells_text(row, from, to) =~= cells_text(row, from, mid) + cells_text(row, mid, to));
    }
}

/// A selection that begins one column earlier copies what that column shows in
/// front of the rest: its character, its text where that has several characters,
/// and a space where it is blank.
pub proof fn law_each_column_adds_what_it_shows(
    rows: Seq<RenderedRow>,
    at: usize,
    a: usize,
    b: usize,
)
    requires
        at < rows.len(),
        a + 1 < b < rows[at as int]@.len(),
        !(rows[at as int]@[a as int] is Continuation),
        !(rows[at as int]@[a + 1] is Continuation),
        lead_of(views(rows[at as int]@), b as int) > a,
        lead_of(views(rows[at as int]@), b as int) < rows[at as int]@.len(),
        text_or_none(copied(rows, in_one_row(at, (a + 1) as usize, b))).len() > 0,
    ensures
        text_or_none(copied(rows, in_one_row(at, a, b))) == (match rows[at as int]@[a as int] {
            RenderedCell::Character(c) => seq![c],
            RenderedCell::Text(text) => text@,
            _ => seq![' '],
        }) + text_or_none(copied(rows, in_one_row(at, (a + 1) as usize, b))),
{
    let row = rows[at as int]@;
    let cells = views(row);
    let next = (a + 1) as usize;
    lemma_one_row(rows, at, a, b);
    lemma_one_row(rows, at, next, b);
    assert(cells[a as int] == row[a as int]@);
    assert(cells[next as int] == row[next as int]@);
    let lead = lead_of(cells, b as int);
    let end = run_end(cells, lead);
    lemma_continued_adds_nothing(cells, a as int, lead);
    let rest = cells_text(cells, next as int, end + 1);
    let all = cells_text(cells, a as int, end + 1);
    let here = cell_text(cells[a as int]);
    assert(all == here + rest);
    lemma_before_blanks(rest, rest.len() as int);
    lemma_before_blanks(all, all.len() as int);
    let n = before(rest, rest.len() as int, is_char(' '));
    let m = before(all, all.len() as int, is_char(' '));
    assert(all[here.len() + n - 1] == rest[n - 1]);
    assert(m == here.len() + n) by {
        if m > here.len() + n {
            assert(all[m - 1] == rest[m - 1 - here.len()]);
        }
    }
    assert(all.take(m) =~= here + rest.take(n));
}

/// A wide character is copied whole, whichever of its columns the selection begins
/// or ends on.
pub proof fn law_wide_characters_are_copied_whole(
    rows: Seq<RenderedRow>,
    at: usize,
    a: usize,
    b: usize,
    lead: usize,
)
    requires
        at < rows.len(),
        a < b < rows[at as int]@.len(),
        lead < rows[at as int]@.len(),
        !(rows[at as int]@[lead as int] is Continuation),
    ensures
        rows[at as int]@[a as int] == (RenderedCell::Continuation { lead }) && lead < a ==> copied(
            rows,
            in_one_row(at, a, b),
        ) == copied(rows, in_one_row(at, lead, b)),
        rows[at as int]@[b as int] == (RenderedCell::Continuation { lead }) && a < lead < b
            ==> copied(rows, in_one_row(at, a, b)) == copied(rows, in_one_row(at, a, lead)),
{
    let row = rows[at as int]@;
    let cells = views(row);
    assert(cells[a as int] == row[a as int]@);
    assert(cells[b as int] == row[b as int]@);
    assert(cells[lead as int] == row[lead as int]@);
    if row[a as int] == (RenderedCell::Continuation { lead }) && lead < a {
        assert(row_texts(rows, in_one_row(at, a, b), at as int, at + 1) =~= row_texts(
            rows,
            in_one_row(at, lead, b),
            at as int,
            at + 1,
        ));
    }
    if row[b as int] == (RenderedCell::Continuation { lead }) && a < lead < b {
        assert(row_texts(rows, in_one_row(at, a, b), at as int, at + 1) =~= row_texts(
            rows,
            in_one_row(at, a, lead),
            at as int,
            at + 1,
        ));
    }
}

proof fn lemma_join_two(a: Seq<Seq<char>>, b: Seq<Seq<char>>, sep: Seq<char>)
    requires
        a.len() > 0,
        b.len() > 0,
    ensures
        join(a + b, sep) == join(a, sep) + sep + join(b, sep),
    decreases b.len(),
{
    assert((a + b).drop_last() =~= a + b.drop_last());
    assert((a + b).last() == b.last());
    if b.len() == 1 {
        assert((a + b).drop_last() =~= a);
    } else {
        lemma_join_two(a, b.drop_last(), sep);
        assert(join(a + b, sep) =~= join(a, sep) + sep + join(b, sep));
    }
}

/// Rows are copied one below the other: a selection over several rows copies what
/// the upper ones copy to their end, a line feed, and what the lower ones copy from
/// their beginning.
pub proof fn law_rows_are_copied_line_by_line(
    rows: Seq<RenderedRow>,
    start: SelectionPoint,
    end: SelectionPoint,
    mid: usize,
)
    requires
        start.row <= mid < end.row < rows.len(),
        start.row < mid || start.column < usize::MAX,
        mid + 1 < end.row || end.column > 0,
    ensures
        ({
            let whole = TranscriptSelection { anchor: start, focus: end };
            let upper = TranscriptSelection {
                anchor: start,
                focus: SelectionPoint { row: mid, column: usize::MAX },
            };
            let lower = TranscriptSelection {
                anchor: SelectionPoint { row: (mid + 1) as usize, column: 0 },
                focus: end,
            };
            copied(rows, whole) == Some(
                text_or_none(copied(rows, upper)) + seq!['\n'] + text_or_none(
                    copied(rows, lower),
                ),
            )
        }),
{
    reveal_strlit("\n");
    assert("\n"@ =~= seq!['\n']);
    let whole = TranscriptSelection { anchor: start, focus: end };
    let upper = TranscriptSelection {
        anchor: start,
        focus: SelectionPoint { row: mid, column: usize::MAX },
    };
    let lower = TranscriptSelection {
        anchor: SelectionPoint { row: (mid + 1) as usize, column: 0 },
        focus: end,
    };
    let a = row_texts(rows, upper, start.row as int, mid + 1);
    let b = row_texts(rows, lower, mid + 1, end.row + 1);
    let all = row_texts(rows, whole, start.row as int, end.row + 1);
    assert forall|k: int| start.row <= k <= end.row implies #[trigger] row_text(
        views(rows[k]@),
        whole,
        k,
    ) == row_text(
        views(rows[k]@),
        if k <= mid {
            upper
        } else {
            lower
        },
        k,
    ) by {
        let width = views(rows[k]@).len() as int;
        assert(rows[k].len() == width);
        if k <= mid {
            assert(columns_of(whole, k, width) == columns_of(upper, k, width));
        } else {
            assert(columns_of(whole, k, width) == columns_of(lower, k, width));
        }
    }
    assert(all =~= a + b);
    lemma_join_two(a, b, "\n"@);
    assert(join(a, "\n"@).len() == 0 ==> join(a, "\n"@) =~= Seq::empty());
    assert(join(b, "\n"@).len() == 0 ==> join(b, "\n"@) =~= Seq::empty());
}

/// Beyond the end of a row there is nothing to copy: a selection that reaches there
/// ends with the last column of the row, and one that starts there copies that column.
pub proof fn law_beyond_the_row_there_is_nothing(
    rows: Seq<RenderedRow>,
    at: usize,
    a: usize,
    b: usize,
)
    requires
        at < rows.len(),
        0 < rows[at as int]@.len() <= b,
        a < b,
    ensures
        ({
            let last = (rows[at as int]@.len() - 1) as usize;
            &&& a < last ==> copied(rows, in_one_row(at, a, b)) == copied(
                rows,
                in_one_row(at, a, last),
            )
            &&& a >= last ==> match rows[at as int]@[last as int] {
                RenderedCell::Character(c) => c != ' ' ==> copied(rows, in_one_row(at, a, b))
                    == Some(seq![c]),
                RenderedCell::Space => copied(rows, in_one_row(at, a, b)) is None,
                _ => true,
            }
        }),
{
    let row = rows[at as int]@;
    let cells = views(row);
    let n = rows[at as int].len();
    assert(cells.len() == n);
    let last = (n - 1) as usize;
    lemma_one_row(rows, at, a, b);
    assert(cells[last as int] == row[last as int]@);
    if a < last {
        lemma_one_row(rows, at, a, last);
        assert(columns_of(in_one_row(at, a, b), at as int, n as int) == columns_of(
            in_one_row(at, a, last),
            at as int,
            n as int,
        ));
    } else {
        assert(columns_of(in_one_row(at, a, b), at as int, n as int) == Some(
            (last as int, last as int),
        ));
        let whole = cells_text(cells, last as int, n as int);
        assert(cells_text(cells, n as int, n as int) =~= Seq::empty());
        match row[last as int] {
            RenderedCell::Character(c) => {
                assert(whole =~= seq![c]);
                lemma_before_blanks(whole, 1);
                if c != ' ' {
                    assert(trimmed_end(whole, is_char(' ')) =~= seq![c]);
                }
            },
            RenderedCell::Space => {
                assert(whole =~= seq![' ']);
                lemma_before_blanks(whole, 1);
                assert(trimmed_end(whole, is_char(' ')) =~= Seq::empty());
            },
            _ => {},
        }
    }
}

/// A selection ends with the column that it was drawn to, also where that is the
/// first of its row.
pub proof fn law_the_first_column_of_the_last_row_is_copied(
    rows: Seq<RenderedRow>,
    start: SelectionPoint,
    row: usize,
    c: char,
)
    requires
        start.row + 1 == row < rows.len(),
        start.column < usize::MAX,
        rows[row as int]@.len() > 0,
        rows[row as int]@[0] == RenderedCell::Character(c),
        c != ' ',
    ensures
        copied(
            rows,
            TranscriptSelection { anchor: start, focus: SelectionPoint { row, column: 0 } },
        ) == Some(
            text_or_none(
                copied(
                    rows,
                    TranscriptSelection {
                        anchor: start,
                        focus: SelectionPoint { row: start.row, column: usize::MAX },
                    },
                ),
            ) + seq!['\n', c],
        ),
{
    reveal_strlit("\n");
    let whole = TranscriptSelection { anchor: start, focus: SelectionPoint { row, column: 0 } };
    let upper = TranscriptSelection {
        anchor: start,
        focus: SelectionPoint { row: start.row, column: usize::MAX },
    };
    let cells = views(rows[row as int]@);
    assert(cells[0] == rows[row as int]@[0]@);
    let all = row_texts(rows, whole, start.row as int, row + 1);
    let first = row_text(views(rows[start.row as int]@), whole, start.row as int);
    let width = rows[start.row as int].len() as int;
    assert(columns_of(whole, start.row as int, width) == columns_of(
        upper,
        start.row as int,
        width,
    ));
    lemma_continued_adds_nothing(cells, 0, 0);
    let text = cells_text(cells, 0, 1);
    assert(cells_text(cells, 1, 1) =~= Seq::empty());
    assert(text =~= seq![c]);
    lemma_before_blanks(text, 1);
    assert(trimmed_end(text, is_char(' ')) =~= seq![c]);
    assert(all =~= seq![first, seq![c]]);
    assert(all.drop_last() =~= seq![first]);
    assert(join(seq![first], "\n"@) == first);
    assert(join(all, "\n"@) =~= first + seq!['\n', c]);
    let above = row_texts(rows, upper, start.row as int, start.row + 1);
    assert(above =~= seq![first]);
    assert(join(above, "\n"@) == first);
    if first.len() == 0 {
        assert(first =~= Seq::empty());
    }
}

proof fn lemma_read_stays(
    buffer: Buffer,
    row: int,
    right: int,
    column: int,
    read: Seq<RenderedView>,
)
    requires
        column <= right,
    ensures
        ({
            let cells = cells_from(buffer, row, right, column, read);
            &&& cells.len() == read.len() + right - column
            &&& cells.take(read.len() as int) == read
        }),
    decreases right - column,
{
    let cells = cells_from(buffer, row, right, column, read);
    if column < right {
        let symbol = symbol_at(buffer, column, row);
        let width = symbol_width(symbol, column, right);
        let next = if symbol == " "@ {
            read.push(RenderedView::Space)
        } else {
            read.push(leading(symbol)) + Seq::new(
                (width - 1) as nat,
                |i: int| RenderedView::Continuation { lead: read.len() as usize },
            )
        };
        let step = if symbol == " "@ {
            1
        } else {
            width
        };
        lemma_read_stays(buffer, row, right, column + step, next);
        assert(cells.take(read.len() as int) =~= cells.take(next.len() as int).take(
            read.len() as int,
        ));
        assert(next.take(read.len() as int) =~= read);
    } else {
        assert(cells.take(read.len() as int) =~= read);
    }
}

/// A row of the screen is read column by column: a blank as a space, a symbol of one
/// character as that character, any other as its text. The further columns of a wide
/// symbol continue the first of them. Each column of the row is read once.
pub proof fn law_a_row_is_read_as_it_is_shown(
    buffer: Buffer,
    row: int,
    right: int,
    column: int,
    read: Seq<RenderedView>,
)
    requires
        column < right,
    ensures
        ({
            let cells = cells_from(buffer, row, right, column, read);
            let n = read.len() as int;
            let symbol = symbol_at(buffer, column, row);
            &&& cells.len() == n + right - column
            &&& cells.take(n) == read
            &&& symbol == seq![' '] ==> cells[n] is Space
            &&& symbol.len() == 1 && symbol[0] != ' ' ==> cells[n] == RenderedView::Character(
                symbol[0],
            )
            &&& symbol.len() != 1 ==> cells[n] == RenderedView::Text(symbol)
            &&& symbol != seq![' '] ==> forall|k: int|
                0 < k < text_width(symbol) && column + k < right ==> #[trigger] cells[n + k] == (
                RenderedView::Continuation { lead: n as usize })
        }),
{
    reveal_strlit(" ");
    assert(" "@ =~= seq![' ']);
    lemma_read_stays(buffer, row, right, column, read);
    let cells = cells_from(buffer, row, right, column, read);
    let n = read.len() as int;
    let symbol = symbol_at(buffer, column, row);
    if symbol == " "@ {
        let next = read.push(RenderedView::Space);
        lemma_read_stays(buffer, row, right, column + 1, next);
        assert(cells.take(next.len() as int)[n] == cells[n]);
    } else {
        if symbol.len() == 1 && symbol[0] == ' ' {
            assert(symbol =~= " "@);
        }
        let width = symbol_width(symbol, column, right);
        let next = read.push(leading(symbol)) + Seq::new(
            (width - 1) as nat,
            |i: int| RenderedView::Continuation { lead: read.len() as usize },
        );
        lemma_read_stays(buffer, row, right, column + width, next);
        assert(cells.take(next.len() as int)[n] == cells[n]);
        assert forall|k: int| 0 < k < text_width(symbol) && column + k < right implies
            #[trigger] cells[n + k] == (RenderedView::Continuation { lead: n as usize }) by {
            assert(cells.take(next.len() as int)[n + k] == cells[n + k]);
        }
    }
}

/// A place of the area is counted from the area's corner. A place outside has no
/// point, or that of the nearest place inside where the drag has left the area.
pub proof fn law_a_point_is_counted_from_the_corner(area: Rect, column: int, row: int)
    requires
        0 < area.width,
        0 < area.height,
        area.x + area.width <= u16::MAX,
        area.y + area.height <= u16::MAX,
    ensures
        area.x <= column < area.x + area.width && area.y <= row < area.y + area.height ==> {
            &&& point_at(area, column, row, true) == Some((row - area.y, column - area.x))
            &&& point_at(area, column, row, false) == Some((row - area.y, column - area.x))
        },
        !(area.x <= column < area.x + area.width && area.y <= row < area.y + area.height)
            ==> point_at(area, column, row, false) is None,
        ({
            let p = point_at(area, column, row, true)->0;
            &&& point_at(area, column, row, true) is Some
            &&& column < area.x ==> p.1 == 0
            &&& row < area.y ==> p.0 == 0
            &&& column >= area.x + area.width ==> p.1 == area.width - 1
            &&& row >= area.y + area.height ==> p.0 == area.height - 1
        }),
{
}

/// What is selected in a row of single columns is those columns and no others, and it
/// is told apart by reverse video alone.
pub proof fn law_what_is_selected_is_reversed(
    rows: Seq<RenderedRow>,
    at: usize,
    a: usize,
    b: usize,
    row: int,
    column: int,
    cell: CellView,
)
    requires
        at < rows.len(),
        a < b < rows[at as int]@.len(),
        forall|k: int|
            0 <= k < rows[at as int]@.len() ==> !((#[trigger] rows[at as int]@[k]) is Continuation),
    ensures
        takes(rows, in_one_row(at, a, b), row, column) <==> row == at && a <= column <= b,
        reversed(cell).modifier.reversed,
        reversed(cell).symbol == cell.symbol,
        reversed(cell).fg == cell.fg,
        reversed(cell).bg == cell.bg,
        reversed(cell).modifier.bold == cell.modifier.bold,
        reversed(cell).modifier.dim == cell.modifier.dim,
        reversed(cell).modifier.italic == cell.modifier.italic,
        reversed(cell).modifier.underlined == cell.modifier.underlined,
        reversed(cell).modifier.crossed_out == cell.modifier.crossed_out,
{
    let cells = views(rows[at as int]@);
    assert(cells.len() == rows[at as int]@.len());
    assert forall|k: int| 0 <= k < cells.len() implies !((
    #[trigger] cells[k]) is Continuation) by {
        assert(cells[k] == rows[at as int]@[k]@);
    }
    assert(run_end(cells, b as int) == b);
}

/// Where the rows that a selection spans show what they showed, it copies what it
/// copied, as long as the screen has as many rows.
pub proof fn law_unchanged_rows_copy_the_same(
    previous: Seq<RenderedRow>,
    current: Seq<RenderedRow>,
    s: TranscriptSelection,
)
    requires
        unchanged(previous, current, s),
        previous.len() == current.len(),
    ensures
        copied(previous, s) == copied(current, s),
{
    let (start, end) = ends_of(s);
    let last = smaller(end.row as int, previous.len() - 1);
    if s.anchor != s.focus && previous.len() > 0 && start.row <= last {
        assert forall|k: int| start.row <= k <= last implies views((#[trigger] previous[k])@)
            == views(current[k]@) by {
            assert(row_at(previous, k) == row_at(current, k));
        }
        assert(row_texts(previous, s, start.row as int, last + 1) =~= row_texts(
            current,
            s,
            start.row as int,
            last + 1,
        ));
    }
}

} // verus!
