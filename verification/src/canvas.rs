//! The cell grid: a width × height array of cells with bounds-checked
//! accessors, resize, and whole-grid snapshot support. The grid owns its
//! cells and holds no history.

use vstd::prelude::*;

use crate::cell::{empty_cell, Cell};

verus! {

/// Default grid width for a fresh interactive canvas.
pub const CANVAS_WIDTH: usize = 32;

/// Default grid height for a fresh interactive canvas.
pub const CANVAS_HEIGHT: usize = 32;

/// Smallest accepted grid dimension.
pub const MIN_DIMENSION: usize = 8;

/// Largest accepted grid dimension.
pub const MAX_DIMENSION: usize = 128;

/// The mathematical model of a grid: a sequence of rows of cells.
pub open spec fn grid_wf(g: Seq<Seq<Cell>>, w: int, h: int) -> bool {
    &&& g.len() == h
    &&& forall|y: int| 0 <= y < h ==> (#[trigger] g[y]).len() == w
}

/// The cell at (x, y); bounds are the caller's concern.
pub open spec fn grid_get(g: Seq<Seq<Cell>>, x: int, y: int) -> Cell {
    g[y][x]
}

/// Whether (x, y) lies inside the grid.
pub open spec fn grid_in_bounds(g: Seq<Seq<Cell>>, x: int, y: int) -> bool {
    0 <= y < g.len() && 0 <= x < g[y].len()
}

/// The grid after a bounds-checked write: out-of-range writes change nothing.
pub open spec fn grid_set(g: Seq<Seq<Cell>>, x: int, y: int, c: Cell) -> Seq<Seq<Cell>> {
    if grid_in_bounds(g, x, y) {
        g.update(y, g[y].update(x, c))
    } else {
        g
    }
}

/// A w × h grid of empty cells.
pub open spec fn empty_grid(w: int, h: int) -> Seq<Seq<Cell>> {
    Seq::new(h as nat, |y: int| Seq::new(w as nat, |x: int| empty_cell()))
}

/// A w × h grid keeping the overlap with `g` and defaulting the rest to empty.
pub open spec fn resized_grid(g: Seq<Seq<Cell>>, w: int, h: int) -> Seq<Seq<Cell>> {
    Seq::new(
        h as nat,
        |y: int|
            Seq::new(
                w as nat,
                |x: int|
                    if grid_in_bounds(g, x, y) {
                        g[y][x]
                    } else {
                        empty_cell()
                    },
            ),
    )
}

/// The model of a vector of rows.
pub open spec fn rows_view(rows: Seq<Vec<Cell>>) -> Seq<Seq<Cell>> {
    Seq::new(rows.len(), |y: int| rows[y]@)
}

/// A row of `w` empty cells.
fn empty_row(w: usize) -> (r: Vec<Cell>)
    ensures
        r@ == Seq::new(w as nat, |x: int| empty_cell()),
{
    let mut r: Vec<Cell> = Vec::new();
    let mut i: usize = 0;
    while i < w
        invariant
            i <= w,
            r@ =~= Seq::new(i as nat, |x: int| empty_cell()),
        decreases w - i,
    {
        r.push(Cell::empty());
        i = i + 1;
        proof {
            assert(r@ =~= Seq::new(i as nat, |x: int| empty_cell()));
        }
    }
    r
}

/// `h` rows of `w` empty cells each.
fn empty_rows(w: usize, h: usize) -> (rows: Vec<Vec<Cell>>)
    ensures
        rows_view(rows@) =~= empty_grid(w as int, h as int),
{
    let mut rows: Vec<Vec<Cell>> = Vec::new();
    let mut y: usize = 0;
    while y < h
        invariant
            y <= h,
            rows@.len() == y,
            forall|j: int| 0 <= j < y ==> (#[trigger] rows@[j])@ =~= Seq::new(
                w as nat,
                |x: int| empty_cell(),
            ),
        decreases h - y,
    {
        rows.push(empty_row(w));
        y = y + 1;
    }
    rows
}

/// A cell-for-cell copy of a vector of rows.
pub fn copy_rows(rows: &Vec<Vec<Cell>>) -> (out: Vec<Vec<Cell>>)
    ensures
        rows_view(out@) =~= rows_view(rows@),
{
    let mut out: Vec<Vec<Cell>> = Vec::new();
    let mut y: usize = 0;
    while y < rows.len()
        invariant
            y <= rows@.len(),
            out@.len() == y,
            forall|j: int| 0 <= j < y ==> (#[trigger] out@[j])@ == rows@[j]@,
        decreases rows@.len() - y,
    {
        let mut row: Vec<Cell> = Vec::new();
        let mut x: usize = 0;
        while x < rows[y].len()
            invariant
                0 <= y < rows@.len(),
                x <= rows@[y as int]@.len(),
                row@ =~= rows@[y as int]@.subrange(0, x as int),
            decreases rows@[y as int]@.len() - x,
        {
            row.push(rows[y][x]);
            x = x + 1;
        }
        proof {
            assert(row@ =~= rows@[y as int]@);
        }
        out.push(row);
        y = y + 1;
    }
    out
}

/// The drawing surface.
#[derive(Clone)]
pub struct Canvas {
    pub width: usize,
    pub height: usize,
    pub cells: Vec<Vec<Cell>>,
}

impl View for Canvas {
    type V = Seq<Seq<Cell>>;

    open spec fn view(&self) -> Seq<Seq<Cell>> {
        rows_view(self.cells@)
    }
}

impl Canvas {
    /// A canvas is valid when its backing rows match its stated dimensions.
    pub open spec fn wf(&self) -> bool {
        grid_wf(self@, self.width as int, self.height as int)
    }

    /// A fresh default-sized canvas of empty cells.
    pub fn new() -> (c: Canvas)
        ensures
            c.wf(),
            c.width == CANVAS_WIDTH,
            c.height == CANVAS_HEIGHT,
            c@ == empty_grid(CANVAS_WIDTH as int, CANVAS_HEIGHT as int),
    {
        Canvas::new_with_size(CANVAS_WIDTH, CANVAS_HEIGHT)
    }

    /// A w × h canvas of empty cells.
    pub fn new_with_size(w: usize, h: usize) -> (c: Canvas)
        ensures
            c.wf(),
            c.width == w,
            c.height == h,
            c@ == empty_grid(w as int, h as int),
    {
        let cells = empty_rows(w, h);
        let c = Canvas { width: w, height: h, cells };
        proof {
            assert(c@ =~= empty_grid(w as int, h as int));
        }
        c
    }

    /// The cell at (x, y), or `None` out of range.
    pub fn get(&self, x: usize, y: usize) -> (r: Option<Cell>)
        requires
            self.wf(),
        ensures
            r == if x < self.width && y < self.height {
                Some(grid_get(self@, x as int, y as int))
            } else {
                Option::<Cell>::None
            },
    {
        if x < self.width && y < self.height {
            Some(self.cells[y][x])
        } else {
            None
        }
    }

    /// Write the cell at (x, y); out-of-range writes are silent no-ops.
    pub fn set(&mut self, x: usize, y: usize, cell: Cell)
        requires
            old(self).wf(),
        ensures
            final(self).wf(),
            final(self).width == old(self).width,
            final(self).height == old(self).height,
            final(self)@ == grid_set(old(self)@, x as int, y as int, cell),
    {
        if x < self.width && y < self.height {
            proof {
                assert(self@[y as int].len() == self.width as int);
                assert(self@[y as int] == self.cells@[y as int]@);
            }
            let row: &mut Vec<Cell> = &mut self.cells[y];
            row.set(x, cell);
        }
        proof {
            assert(final(self)@ =~= grid_set(old(self)@, x as int, y as int, cell));
        }
    }

    /// Reset every cell to empty, keeping the dimensions.
    pub fn clear(&mut self)
        requires
            old(self).wf(),
        ensures
            final(self).wf(),
            final(self).width == old(self).width,
            final(self).height == old(self).height,
            final(self)@ == empty_grid(old(self).width as int, old(self).height as int),
    {
        self.cells = empty_rows(self.width, self.height);
        proof {
            assert(final(self)@ =~= empty_grid(old(self).width as int, old(self).height as int));
        }
    }

    /// Replace the backing array, keeping cells that fit in the overlap and
    /// defaulting new area to empty cells.
    pub fn resize(&mut self, w: usize, h: usize)
        requires
            old(self).wf(),
        ensures
            final(self).wf(),
            final(self).width == w,
            final(self).height == h,
            final(self)@ == resized_grid(old(self)@, w as int, h as int),
    {
        let ghost g0 = self@;
        let mut rows: Vec<Vec<Cell>> = Vec::new();
        let mut y: usize = 0;
        while y < h
            invariant
                y <= h,
                rows@.len() == y,
                self == old(self),
                self.wf(),
                g0 == self@,
                forall|j: int| 0 <= j < y ==> (#[trigger] rows@[j])@ =~= resized_grid(
                    g0,
                    w as int,
                    h as int,
                )[j],
            decreases h - y,
        {
            let mut row: Vec<Cell> = Vec::new();
            let mut x: usize = 0;
            while x < w
                invariant
                    x <= w,
                    y < h,
                    self == old(self),
                    self.wf(),
                    g0 == self@,
                    row@.len() == x,
                    forall|i: int| 0 <= i < x ==> #[trigger] row@[i] == resized_grid(
                        g0,
                        w as int,
                        h as int,
                    )[y as int][i],
                decreases w - x,
            {
                let c = if x < self.width && y < self.height {
                    self.cells[y][x]
                } else {
                    Cell::empty()
                };
                row.push(c);
                x = x + 1;
            }
            proof {
                assert(row@ =~= resized_grid(g0, w as int, h as int)[y as int]);
            }
            rows.push(row);
            y = y + 1;
        }
        self.cells = rows;
        self.width = w;
        self.height = h;
        proof {
            assert(final(self)@ =~= resized_grid(g0, w as int, h as int));
        }
    }

    /// Replace the grid wholesale with stored rows and dimensions, as a
    /// snapshot restore does.
    pub fn replace(&mut self, cells: Vec<Vec<Cell>>, w: usize, h: usize)
        requires
            grid_wf(rows_view(cells@), w as int, h as int),
        ensures
            final(self).wf(),
            final(self).width == w,
            final(self).height == h,
            final(self)@ == rows_view(cells@),
    {
        self.cells = cells;
        self.width = w;
        self.height = h;
    }

    /// A cell-for-cell copy of the grid contents.
    pub fn cells(&self) -> (out: Vec<Vec<Cell>>)
        ensures
            rows_view(out@) == self@,
    {
        copy_rows(&self.cells)
    }
}

} // verus!
