//! Canvas statistics: integer counts over the grid. The front-end turns
//! them into ratios and reports.

use vstd::prelude::*;

use crate::canvas::{grid_get, Canvas};
use crate::cell::{empty_cell, Cell};

verus! {

/// The number of non-empty cells in one row, from column `x` on.
pub open spec fn row_non_empty(row: Seq<Cell>, x: int) -> int
    decreases row.len() - x,
{
    if x < 0 || x >= row.len() {
        0
    } else {
        (if row[x] == empty_cell() {
            0int
        } else {
            1int
        }) + row_non_empty(row, x + 1)
    }
}

/// The number of non-empty cells in the grid, from row `y` on.
pub open spec fn grid_non_empty(g: Seq<Seq<Cell>>, y: int) -> int
    decreases g.len() - y,
{
    if y < 0 || y >= g.len() {
        0
    } else {
        row_non_empty(g[y], 0) + grid_non_empty(g, y + 1)
    }
}

/// Count the cells that differ from the empty cell.
pub fn count_non_empty(canvas: &Canvas) -> (n: usize)
    requires
        canvas.wf(),
        canvas.width * canvas.height <= usize::MAX,
    ensures
        n == grid_non_empty(canvas@, 0),
{
    let ghost g = canvas@;
    let mut n: usize = 0;
    let mut y: usize = 0;
    while y < canvas.height
        invariant
            canvas.wf(),
            g == canvas@,
            y <= canvas.height,
            canvas.width * canvas.height <= usize::MAX,
            n + grid_non_empty(g, y as int) == grid_non_empty(g, 0),
            n <= y * canvas.width,
        decreases canvas.height - y,
    {
        let mut x: usize = 0;
        let ghost row_start = n as int;
        while x < canvas.width
            invariant
                canvas.wf(),
                g == canvas@,
                y < canvas.height,
                x <= canvas.width,
                canvas.width * canvas.height <= usize::MAX,
                row_start <= y * canvas.width,
                n - row_start + row_non_empty(g[y as int], x as int) == row_non_empty(
                    g[y as int],
                    0,
                ),
                n <= row_start + x,
            decreases canvas.width - x,
        {
            proof {
                assert(y * canvas.width + canvas.width <= canvas.height * canvas.width)
                    by (nonlinear_arith)
                    requires
                        y + 1 <= canvas.height,
                        canvas.width >= 0,
                ;
                assert(canvas.height * canvas.width == canvas.width * canvas.height)
                    by (nonlinear_arith);
            }
            match canvas.get(x, y) {
                Some(cell) => {
                    if !cell.is_empty() {
                        n = n + 1;
                    }
                },
                None => {
                    proof {
                        assert(false);
                    }
                },
            }
            x = x + 1;
        }
        proof {
            assert(y * canvas.width + canvas.width == (y + 1) * canvas.width) by (nonlinear_arith);
        }
        y = y + 1;
    }
    n
}

/// The number of cells in one row equal to their left-right mirror, from
/// column `x` on.
pub open spec fn row_h_matches(row: Seq<Cell>, w: int, x: int) -> int
    decreases w - x,
{
    if x < 0 || x >= w {
        0
    } else {
        (if row[x] == row[w - 1 - x] {
            1int
        } else {
            0int
        }) + row_h_matches(row, w, x + 1)
    }
}

/// The number of cells equal to their left-right mirror, from row `y` on.
pub open spec fn grid_h_matches(g: Seq<Seq<Cell>>, w: int, y: int) -> int
    decreases g.len() - y,
{
    if y < 0 || y >= g.len() {
        0
    } else {
        row_h_matches(g[y], w, 0) + grid_h_matches(g, w, y + 1)
    }
}

/// The number of cells in one row equal to their top-bottom mirror, from
/// column `x` on.
pub open spec fn row_v_matches(g: Seq<Seq<Cell>>, w: int, h: int, y: int, x: int) -> int
    decreases w - x,
{
    if x < 0 || x >= w {
        0
    } else {
        (if grid_get(g, x, y) == grid_get(g, x, h - 1 - y) {
            1int
        } else {
            0int
        }) + row_v_matches(g, w, h, y, x + 1)
    }
}

/// The number of cells equal to their top-bottom mirror, from row `y` on.
pub open spec fn grid_v_matches(g: Seq<Seq<Cell>>, w: int, h: int, y: int) -> int
    decreases h - y,
{
    if y < 0 || y >= h {
        0
    } else {
        row_v_matches(g, w, h, y, 0) + grid_v_matches(g, w, h, y + 1)
    }
}

/// Count the cells that equal their mirror across the vertical center
/// axis and across the horizontal center axis. Empty pairs count as
/// matching; the front-end divides by the cell total for a score.
pub fn symmetry_match_counts(canvas: &Canvas) -> (r: (usize, usize))
    requires
        canvas.wf(),
        canvas.width * canvas.height <= usize::MAX,
    ensures
        r.0 == grid_h_matches(canvas@, canvas.width as int, 0),
        r.1 == grid_v_matches(canvas@, canvas.width as int, canvas.height as int, 0),
{
    let w = canvas.width;
    let h = canvas.height;
    let ghost g = canvas@;
    let mut h_matches: usize = 0;
    let mut v_matches: usize = 0;
    let mut y: usize = 0;
    while y < h
        invariant
            canvas.wf(),
            g == canvas@,
            w == canvas.width,
            h == canvas.height,
            y <= h,
            w * h <= usize::MAX,
            h_matches + grid_h_matches(g, w as int, y as int) == grid_h_matches(g, w as int, 0),
            v_matches + grid_v_matches(g, w as int, h as int, y as int) == grid_v_matches(
                g,
                w as int,
                h as int,
                0,
            ),
            h_matches <= y * w,
            v_matches <= y * w,
        decreases h - y,
    {
        let mut x: usize = 0;
        let ghost hrow_start = h_matches as int;
        let ghost vrow_start = v_matches as int;
        while x < w
            invariant
                canvas.wf(),
                g == canvas@,
                w == canvas.width,
                h == canvas.height,
                y < h,
                x <= w,
                w * h <= usize::MAX,
                hrow_start <= y * w,
                vrow_start <= y * w,
                h_matches - hrow_start + row_h_matches(g[y as int], w as int, x as int)
                    == row_h_matches(g[y as int], w as int, 0),
                v_matches - vrow_start + row_v_matches(g, w as int, h as int, y as int, x as int)
                    == row_v_matches(g, w as int, h as int, y as int, 0),
                h_matches <= hrow_start + x,
                v_matches <= vrow_start + x,
            decreases w - x,
        {
            proof {
                assert(y * w + w <= h * w) by (nonlinear_arith)
                    requires
                        y + 1 <= h,
                        w >= 0,
                ;
                assert(h * w == w * h) by (nonlinear_arith);
            }
            let a = canvas.get(x, y);
            let bh = canvas.get(w - 1 - x, y);
            let bv = canvas.get(x, h - 1 - y);
            match (a, bh, bv) {
                (Some(ca), Some(ch2), Some(cv)) => {
                    if ca == ch2 {
                        h_matches = h_matches + 1;
                    }
                    if ca == cv {
                        v_matches = v_matches + 1;
                    }
                },
                _ => {
                    proof {
                        assert(false);
                    }
                },
            }
            x = x + 1;
        }
        proof {
            assert(y * w + w == (y + 1) * w) by (nonlinear_arith);
        }
        y = y + 1;
    }
    (h_matches, v_matches)
}

} // verus!
