//! Areas of the screen and the cells painted on them.

use vstd::prelude::*;
use crate::chars::group_views;
use crate::style::{Color, Modifier};

verus! {

broadcast use group_views;

/// An area of cells.
#[derive(Clone, Copy, PartialEq, Eq, Structural, Debug)]
pub struct Rect {
    pub x: u16,
    pub y: u16,
    pub width: u16,
    pub height: u16,
}

/// `a + b` on 16 bits, as far as it goes.
pub open spec fn sat16(a: int, b: int) -> int {
    if a + b <= u16::MAX {
        a + b
    } else {
        u16::MAX as int
    }
}

impl Rect {
    /// The first column to the right of the area.
    pub open spec fn right_edge(self) -> int {
        sat16(self.x as int, self.width as int)
    }

    /// The first row below the area.
    pub open spec fn bottom_edge(self) -> int {
        sat16(self.y as int, self.height as int)
    }

    /// Whether a cell lies in the area.
    pub open spec fn holds(self, column: int, row: int) -> bool {
        self.x <= column < self.right_edge() && self.y <= row < self.bottom_edge()
    }

    /// The area of these places, as far as there are any.
    pub open spec fn at(x: u16, y: u16, width: int, height: int) -> Rect {
        Rect {
            x,
            y,
            width: (sat16(x as int, width) - x) as u16,
            height: (sat16(y as int, height) - y) as u16,
        }
    }

    pub fn new(x: u16, y: u16, width: u16, height: u16) -> (r: Rect)
        ensures
            r == Rect::at(x, y, width as int, height as int),
    {
        Rect {
            x,
            y,
            width: x.saturating_add(width) - x,
            height: y.saturating_add(height) - y,
        }
    }

    pub fn right(&self) -> (r: u16)
        ensures
            r == self.right_edge(),
    {
        self.x.saturating_add(self.width)
    }

    pub fn bottom(&self) -> (r: u16)
        ensures
            r == self.bottom_edge(),
    {
        self.y.saturating_add(self.height)
    }
}

/// What one cell of the screen shows.
#[derive(Debug)]
pub struct BufferCell {
    pub symbol: String,
    pub fg: Color,
    pub bg: Color,
    pub modifier: Modifier,
}

#[verifier::ext_equal]
pub struct CellView {
    pub symbol: Seq<char>,
    pub fg: Color,
    pub bg: Color,
    pub modifier: Modifier,
}

impl View for BufferCell {
    type V = CellView;

    open spec fn view(&self) -> CellView {
        CellView { symbol: self.symbol@, fg: self.fg, bg: self.bg, modifier: self.modifier }
    }
}

/// The cells of an area, row by row.
#[derive(Debug)]
pub struct Buffer {
    pub area: Rect,
    pub content: Vec<BufferCell>,
}

impl Buffer {
    /// There is a cell for every place of the area.
    pub open spec fn wf(self) -> bool {
        self.content@.len() == self.area.width * self.area.height
    }

    /// Where the cell of a place stands in the content, or -1 outside the area.
    pub open spec fn index_at(self, column: int, row: int) -> int {
        if self.area.holds(column, row) {
            (row - self.area.y) * self.area.width + (column - self.area.x)
        } else {
            -1
        }
    }

    pub proof fn lemma_index_at(self, column: int, row: int)
        requires
            self.wf(),
        ensures
            self.index_at(column, row) < self.content@.len(),
            self.area.holds(column, row) ==> self.index_at(column, row) >= 0,
    {
        let w = self.area.width as int;
        let h = self.area.height as int;
        let y = row - self.area.y;
        let x = column - self.area.x;
        if self.area.holds(column, row) {
            assert(0 <= y * w && y * w + x < w * h) by (nonlinear_arith)
                requires
                    0 <= y < h,
                    0 <= x < w,
            ;
        } else {
            assert(w * h >= 0) by (nonlinear_arith)
                requires
                    w >= 0,
                    h >= 0,
            ;
        }
    }

    /// Where the cell of a place stands in the content.
    pub fn index_of(&self, column: u16, row: u16) -> (r: Option<usize>)
        requires
            self.wf(),
        ensures
            match r {
                Some(i) => i == self.index_at(column as int, row as int) && i < self.content@.len(),
                None => self.index_at(column as int, row as int) == -1,
            },
    {
        let area: Rect = self.area;
        if column < area.x || column >= area.right() || row < area.y || row >= area.bottom() {
            return None;
        }
        proof {
            self.lemma_index_at(column as int, row as int);
        }
        let y: usize = (row - area.y) as usize;
        let x: usize = (column - area.x) as usize;
        let w: usize = area.width as usize;
        let n: usize = self.content.len();
        assert(y * w + x < n);
        assert(0 <= y * w) by (nonlinear_arith)
            requires
                y >= 0,
                w >= 0,
        ;
        Some(y * w + x)
    }
}

} // verus!
