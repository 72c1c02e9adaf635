//! The drawing surface that the layout engine writes into: a rectangular grid
//! of character cells, each with a style. Writes are clipped at the grid's
//! edges, so no operation can touch a coordinate outside it.

use vstd::math::min;
use vstd::prelude::*;
use vstd::string::StrSliceExecFns;

verus! {

/// A rectangular drawing area, measured in character cells.
#[derive(Debug, PartialEq, Eq, Structural, Clone, Copy)]
pub struct Area {
    pub width: u16,
    pub height: u16,
}

/// How a cell is drawn.
#[derive(Debug, PartialEq, Eq, Structural, Clone, Copy)]
pub enum CellStyle {
    Plain,
    Bold,
    Dim,
}

/// One character cell of the grid.
#[derive(Debug, PartialEq, Eq, Structural, Clone, Copy)]
pub struct ScreenCell {
    pub ch: char,
    pub style: CellStyle,
}

/// The cell an untouched grid is filled with.
pub open spec fn spec_blank_cell() -> ScreenCell {
    ScreenCell { ch: ' ', style: CellStyle::Plain }
}

proof fn lemma_grid_index(w: int, h: int, x: int, y: int)
    by (nonlinear_arith)
    requires
        0 <= x < w,
        0 <= y < h,
        w <= 65535,
        h <= 65535,
    ensures
        0 <= y * w + x < w * h,
        y * w + x < 4294967295,
        0 <= y * w,
{
}

proof fn lemma_grid_index_inj(w: int, x1: int, y1: int, x2: int, y2: int)
    by (nonlinear_arith)
    requires
        0 <= x1 < w,
        0 <= x2 < w,
        0 <= y1,
        0 <= y2,
        y1 * w + x1 == y2 * w + x2,
    ensures
        x1 == x2,
        y1 == y2,
{
}

/// A grid of `width * height` cells, stored row-major.
pub struct ScreenBuffer {
    pub width: u16,
    pub height: u16,
    pub cells: Vec<ScreenCell>,
}

impl ScreenBuffer {
    /// The cell count matches the dimensions.
    pub open spec fn wf(&self) -> bool {
        self.cells@.len() == self.width as int * self.height as int
    }

    /// The cell at column `x`, row `y`.
    pub open spec fn cell(&self, x: int, y: int) -> ScreenCell {
        self.cells@[y * self.width as int + x]
    }

    /// A fresh grid of blank cells.
    pub fn new(width: u16, height: u16) -> (r: Self)
        ensures
            r.wf(),
            r.width == width,
            r.height == height,
            forall|cx: int, cy: int|
                0 <= cx < width && 0 <= cy < height ==> r.cell(cx, cy) == spec_blank_cell(),
    {
        proof {
            assert((width as int) * (height as int) <= 65535 * 65535) by (nonlinear_arith)
                requires
                    width <= 65535,
                    height <= 65535,
            ;
        }
        let total: usize = (width as usize) * (height as usize);
        let mut cells: Vec<ScreenCell> = Vec::new();
        while cells.len() < total
            invariant
                cells@.len() <= total,
                forall|j: int| 0 <= j < cells@.len() ==> cells@[j] == spec_blank_cell(),
            decreases total - cells@.len(),
        {
            cells.push(ScreenCell { ch: ' ', style: CellStyle::Plain });
        }
        let r = Self { width, height, cells };
        proof {
            assert forall|cx: int, cy: int|
                0 <= cx < width && 0 <= cy < height implies r.cell(cx, cy) == spec_blank_cell() by {
                lemma_grid_index(width as int, height as int, cx, cy);
            }
        }
        r
    }

    /// Reads one cell.
    pub fn get(&self, x: u16, y: u16) -> (r: ScreenCell)
        requires
            self.wf(),
            x < self.width,
            y < self.height,
        ensures
            r == self.cell(x as int, y as int),
    {
        proof {
            lemma_grid_index(self.width as int, self.height as int, x as int, y as int);
        }
        let i: usize = (y as usize) * (self.width as usize) + (x as usize);
        self.cells[i]
    }

    /// Writes one cell; a coordinate outside the grid writes nothing.
    pub fn set_cell(&mut self, x: u16, y: u16, c: ScreenCell)
        requires
            old(self).wf(),
        ensures
            final(self).wf(),
            final(self).width == old(self).width,
            final(self).height == old(self).height,
            forall|cx: int, cy: int|
                0 <= cx < old(self).width && 0 <= cy < old(self).height ==> final(self).cell(
                    cx,
                    cy,
                ) == (if cx == x as int && cy == y as int {
                    c
                } else {
                    old(self).cell(cx, cy)
                }),
    {
        let ghost w = self.width as int;
        let ghost h = self.height as int;
        let ghost before = *self;
        if x < self.width && y < self.height {
            proof {
                lemma_grid_index(w, h, x as int, y as int);
            }
            let i: usize = (y as usize) * (self.width as usize) + (x as usize);
            self.cells[i] = c;
        }
        proof {
            assert forall|cx: int, cy: int|
                0 <= cx < w && 0 <= cy < h implies final(self).cell(cx, cy) == (if cx == x as int
                && cy == y as int {
                c
            } else {
                before.cell(cx, cy)
            }) by {
                lemma_grid_index(w, h, cx, cy);
                if x < self.width && y < self.height && cy * w + cx == (y as int) * w + (x as int) {
                    lemma_grid_index_inj(w, cx, cy, x as int, y as int);
                }
            }
        }
    }
}

/// How many cells a text write starting at `(x, y)` fills: the text's length,
/// cut down by the caller's limit and by the grid's right edge, and zero when
/// the start lies outside the grid.
pub open spec fn spec_write_len(s: Seq<char>, lim: int, x: int, y: int, w: int, h: int) -> int {
    if 0 <= x < w && 0 <= y < h {
        min(min(s.len() as int, lim), w - x)
    } else {
        0
    }
}

impl ScreenBuffer {
    /// Writes `s` left-to-right starting at `(x, y)`, at most `limit` cells,
    /// clipped at the grid's right edge; every other cell keeps its value.
    pub fn set_text(&mut self, x: u16, y: u16, s: &str, limit: u16, style: CellStyle)
        requires
            old(self).wf(),
        ensures
            final(self).wf(),
            final(self).width == old(self).width,
            final(self).height == old(self).height,
            forall|cx: int, cy: int|
                0 <= cx < old(self).width && 0 <= cy < old(self).height ==> final(self).cell(
                    cx,
                    cy,
                ) == (if cy == y as int && x as int <= cx < x as int + spec_write_len(
                    s@,
                    limit as int,
                    x as int,
                    y as int,
                    old(self).width as int,
                    old(self).height as int,
                ) {
                    (ScreenCell { ch: s@[cx - x as int], style })
                } else {
                    old(self).cell(cx, cy)
                }),
    {
        let ghost before = *self;
        let ghost n = spec_write_len(
            s@,
            limit as int,
            x as int,
            y as int,
            self.width as int,
            self.height as int,
        );
        if x >= self.width || y >= self.height {
            return ;
        }
        let len: usize = s.unicode_len();
        let mut stop: usize = len;
        if (limit as usize) < stop {
            stop = limit as usize;
        }
        if ((self.width - x) as usize) < stop {
            stop = (self.width - x) as usize;
        }
        assert(stop == n);
        let mut i: usize = 0;
        while i < stop
            invariant
                self.wf(),
                self.width == before.width,
                self.height == before.height,
                x < self.width,
                y < self.height,
                0 <= i <= stop,
                stop == n,
                n <= s@.len(),
                x + n <= self.width,
                forall|cx: int, cy: int|
                    0 <= cx < self.width && 0 <= cy < self.height ==> self.cell(cx, cy) == (if cy
                        == y as int && x as int <= cx < x as int + i {
                        (ScreenCell { ch: s@[cx - x as int], style })
                    } else {
                        before.cell(cx, cy)
                    }),
            decreases stop - i,
        {
            let c = s.get_char(i);
            self.set_cell(x + (i as u16), y, ScreenCell { ch: c, style });
            i = i + 1;
        }
    }

    /// As `set_text`, for a text held as a vector of characters.
    pub fn set_chars(&mut self, x: u16, y: u16, s: &Vec<char>, limit: u16, style: CellStyle)
        requires
            old(self).wf(),
        ensures
            final(self).wf(),
            final(self).width == old(self).width,
            final(self).height == old(self).height,
            forall|cx: int, cy: int|
                0 <= cx < old(self).width && 0 <= cy < old(self).height ==> final(self).cell(
                    cx,
                    cy,
                ) == (if cy == y as int && x as int <= cx < x as int + spec_write_len(
                    s@,
                    limit as int,
                    x as int,
                    y as int,
                    old(self).width as int,
                    old(self).height as int,
                ) {
                    (ScreenCell { ch: s@[cx - x as int], style })
                } else {
                    old(self).cell(cx, cy)
                }),
    {
        let ghost before = *self;
        let ghost n = spec_write_len(
            s@,
            limit as int,
            x as int,
            y as int,
            self.width as int,
            self.height as int,
        );
        if x >= self.width || y >= self.height {
            return ;
        }
        let len: usize = s.len();
        let mut stop: usize = len;
        if (limit as usize) < stop {
            stop = limit as usize;
        }
        if ((self.width - x) as usize) < stop {
            stop = (self.width - x) as usize;
        }
        assert(stop == n);
        let mut i: usize = 0;
        while i < stop
            invariant
                self.wf(),
                self.width == before.width,
                self.height == before.height,
                x < self.width,
                y < self.height,
                0 <= i <= stop,
                stop == n,
                n <= s@.len(),
                x + n <= self.width,
                forall|cx: int, cy: int|
                    0 <= cx < self.width && 0 <= cy < self.height ==> self.cell(cx, cy) == (if cy
                        == y as int && x as int <= cx < x as int + i {
                        (ScreenCell { ch: s@[cx - x as int], style })
                    } else {
                        before.cell(cx, cy)
                    }),
            decreases stop - i,
        {
            let c = s[i];
            self.set_cell(x + (i as u16), y, ScreenCell { ch: c, style });
            i = i + 1;
        }
    }
}

} // verus!
