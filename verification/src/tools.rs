//! The drawing algorithms: pure functions from a read-only grid and
//! parameters to a mutation list. No tool ever writes to the grid itself.

use vstd::prelude::*;

use crate::canvas::{grid_get, grid_in_bounds, Canvas};
use crate::cell::{empty_cell, Cell, Rgb};
use crate::history::CellMutation;

verus! {

/// The tools a front-end can select.
#[derive(Clone, Copy, PartialEq, Eq, Structural, Debug)]
pub enum ToolKind {
    Pencil,
    Eraser,
    Line,
    Rectangle,
    Fill,
    Eyedropper,
}

impl ToolKind {
    pub fn name(self) -> (r: &'static str)
        ensures
            r@ == match self {
                ToolKind::Pencil => "Pencil"@,
                ToolKind::Eraser => "Eraser"@,
                ToolKind::Line => "Line"@,
                ToolKind::Rectangle => "Rect"@,
                ToolKind::Fill => "Fill"@,
                ToolKind::Eyedropper => "Pick"@,
            },
    {
        match self {
            ToolKind::Pencil => "Pencil",
            ToolKind::Eraser => "Eraser",
            ToolKind::Line => "Line",
            ToolKind::Rectangle => "Rect",
            ToolKind::Fill => "Fill",
            ToolKind::Eyedropper => "Pick",
        }
    }

    pub fn icon(self) -> (r: &'static str)
        ensures
            r@ == match self {
                ToolKind::Pencil => "\u{270F}"@,
                ToolKind::Eraser => "\u{25FB}"@,
                ToolKind::Line => "\u{2571}"@,
                ToolKind::Rectangle => "\u{25AD}"@,
                ToolKind::Fill => "\u{25C9}"@,
                ToolKind::Eyedropper => "\u{25C8}"@,
            },
    {
        match self {
            ToolKind::Pencil => "\u{270F}",
            ToolKind::Eraser => "\u{25FB}",
            ToolKind::Line => "\u{2571}",
            ToolKind::Rectangle => "\u{25AD}",
            ToolKind::Fill => "\u{25C9}",
            ToolKind::Eyedropper => "\u{25C8}",
        }
    }

    pub fn key(self) -> (r: &'static str)
        ensures
            r@ == match self {
                ToolKind::Pencil => "P"@,
                ToolKind::Eraser => "E"@,
                ToolKind::Line => "L"@,
                ToolKind::Rectangle => "R"@,
                ToolKind::Fill => "F"@,
                ToolKind::Eyedropper => "I"@,
            },
    {
        match self {
            ToolKind::Pencil => "P",
            ToolKind::Eraser => "E",
            ToolKind::Line => "L",
            ToolKind::Rectangle => "R",
            ToolKind::Fill => "F",
            ToolKind::Eyedropper => "I",
        }
    }

    /// Every tool, in toolbar order.
    pub fn all() -> (r: Vec<ToolKind>)
        ensures
            r@ == seq![
                ToolKind::Pencil,
                ToolKind::Eraser,
                ToolKind::Line,
                ToolKind::Rectangle,
                ToolKind::Fill,
                ToolKind::Eyedropper,
            ],
    {
        let mut r: Vec<ToolKind> = Vec::new();
        r.push(ToolKind::Pencil);
        r.push(ToolKind::Eraser);
        r.push(ToolKind::Line);
        r.push(ToolKind::Rectangle);
        r.push(ToolKind::Fill);
        r.push(ToolKind::Eyedropper);
        proof {
            assert(r@ =~= seq![
                ToolKind::Pencil,
                ToolKind::Eraser,
                ToolKind::Line,
                ToolKind::Rectangle,
                ToolKind::Fill,
                ToolKind::Eyedropper,
            ]);
        }
        r
    }
}

/// Two-click tool progress for line and rectangle.
#[derive(Clone, Debug)]
pub enum ToolState {
    Idle,
    LineStart { x: usize, y: usize },
    RectStart { x: usize, y: usize },
}

/// The mutations for writing `new` at one coordinate: one mutation when the
/// coordinate is in bounds and the cell would actually change, else none.
pub open spec fn mutation_for(g: Seq<Seq<Cell>>, x: usize, y: usize, new: Cell) -> Seq<
    CellMutation,
> {
    if grid_in_bounds(g, x as int, y as int) && grid_get(g, x as int, y as int) != new {
        seq![CellMutation { x, y, old: grid_get(g, x as int, y as int), new }]
    } else {
        Seq::empty()
    }
}

/// The mutations for writing `new` over a sequence of coordinates, in order,
/// skipping out-of-bounds coordinates and cells already equal to `new`.
pub open spec fn muts_for_points(
    g: Seq<Seq<Cell>>,
    pts: Seq<(usize, usize)>,
    new: Cell,
) -> Seq<CellMutation>
    decreases pts.len(),
{
    if pts.len() == 0 {
        Seq::empty()
    } else {
        mutation_for(g, pts[0].0, pts[0].1, new) + muts_for_points(g, pts.drop_first(), new)
    }
}

proof fn lemma_muts_for_points_concat(
    g: Seq<Seq<Cell>>,
    a: Seq<(usize, usize)>,
    b: Seq<(usize, usize)>,
    new: Cell,
)
    ensures
        muts_for_points(g, a + b, new) == muts_for_points(g, a, new) + muts_for_points(g, b, new),
    decreases a.len(),
{
    if a.len() == 0 {
        assert(a + b =~= b);
        assert(muts_for_points(g, a, new) + muts_for_points(g, b, new) =~= muts_for_points(
            g,
            b,
            new,
        ));
    } else {
        assert((a + b)[0] == a[0]);
        assert((a + b).drop_first() =~= a.drop_first() + b);
        lemma_muts_for_points_concat(g, a.drop_first(), b, new);
        assert(muts_for_points(g, a + b, new) == mutation_for(g, a[0].0, a[0].1, new)
            + (muts_for_points(g, a.drop_first(), new) + muts_for_points(g, b, new)));
        assert(mutation_for(g, a[0].0, a[0].1, new) + (muts_for_points(g, a.drop_first(), new)
            + muts_for_points(g, b, new)) =~= (mutation_for(g, a[0].0, a[0].1, new)
            + muts_for_points(g, a.drop_first(), new)) + muts_for_points(g, b, new));
    }
}

proof fn lemma_muts_for_points_push(
    g: Seq<Seq<Cell>>,
    pts: Seq<(usize, usize)>,
    p: (usize, usize),
    new: Cell,
)
    ensures
        muts_for_points(g, pts.push(p), new) == muts_for_points(g, pts, new) + mutation_for(
            g,
            p.0,
            p.1,
            new,
        ),
{
    assert(pts.push(p) =~= pts + seq![p]);
    lemma_muts_for_points_concat(g, pts, seq![p], new);
    lemma_muts_for_points_single(g, p, new);
}

proof fn lemma_muts_for_points_single(g: Seq<Seq<Cell>>, p: (usize, usize), new: Cell)
    ensures
        muts_for_points(g, seq![p], new) == mutation_for(g, p.0, p.1, new),
{
    assert(seq![p].drop_first() =~= Seq::<(usize, usize)>::empty());
    assert(muts_for_points(g, Seq::<(usize, usize)>::empty(), new) == Seq::<
        CellMutation,
    >::empty());
    assert(muts_for_points(g, seq![p], new) == mutation_for(g, p.0, p.1, new) + Seq::<
        CellMutation,
    >::empty());
    assert(mutation_for(g, p.0, p.1, new) + Seq::<CellMutation>::empty() =~= mutation_for(
        g,
        p.0,
        p.1,
        new,
    ));
}

/// Place a single cell (pencil): one mutation when (x, y) is in bounds and
/// the new cell differs from the current one, else nothing.
pub fn pencil(
    canvas: &Canvas,
    x: usize,
    y: usize,
    ch: char,
    fg: Option<Rgb>,
    bg: Option<Rgb>,
) -> (r: Vec<CellMutation>)
    requires
        canvas.wf(),
    ensures
        r@ == mutation_for(canvas@, x, y, Cell { ch, fg, bg }),
{
    let new = Cell { ch, fg, bg };
    let mut r: Vec<CellMutation> = Vec::new();
    match canvas.get(x, y) {
        Some(old) => {
            if !(old == new) {
                r.push(CellMutation { x, y, old, new });
            }
        },
        None => {},
    }
    proof {
        assert(r@ =~= mutation_for(canvas@, x, y, Cell { ch, fg, bg }));
    }
    r
}

/// Erase a cell: like the pencil, but the target is the empty cell.
pub fn eraser(canvas: &Canvas, x: usize, y: usize) -> (r: Vec<CellMutation>)
    requires
        canvas.wf(),
    ensures
        r@ == mutation_for(canvas@, x, y, empty_cell()),
{
    let new = Cell::empty();
    let mut r: Vec<CellMutation> = Vec::new();
    match canvas.get(x, y) {
        Some(old) => {
            if !(old == new) {
                r.push(CellMutation { x, y, old, new });
            }
        },
        None => {},
    }
    proof {
        assert(r@ =~= mutation_for(canvas@, x, y, empty_cell()));
    }
    r
}

/// Pick the sampled cell's colors and glyph, or nothing out of bounds.
/// A pure read: it produces no mutations.
pub fn eyedropper(canvas: &Canvas, x: usize, y: usize) -> (r: Option<
    (Option<Rgb>, Option<Rgb>, char),
>)
    requires
        canvas.wf(),
    ensures
        r == if x < canvas.width && y < canvas.height {
            let c = grid_get(canvas@, x as int, y as int);
            Some((c.fg, c.bg, c.ch))
        } else {
            Option::<(Option<Rgb>, Option<Rgb>, char)>::None
        },
{
    match canvas.get(x, y) {
        Some(cell) => Some((cell.fg, cell.bg, cell.ch)),
        None => None,
    }
}

/// Coordinate cap for line drawing, far above any grid dimension; it keeps
/// the error term of the integer line walk well inside `i64`.
pub const MAX_LINE_COORD: usize = 0x4000_0000;

/// A state of the integer line walk is valid when the step signs point at
/// the endpoint, the remaining distances fit the original deltas, the
/// coordinates fit `usize`, and the error term carries the exact relation
/// between progress made along the two axes.
pub open spec fn bres_valid(
    x: int,
    y: int,
    x1: int,
    y1: int,
    err: int,
    adx: int,
    ady: int,
    sx: int,
    sy: int,
) -> bool {
    &&& (sx == 1 || sx == -1)
    &&& (sy == 1 || sy == -1)
    &&& 0 <= adx <= MAX_LINE_COORD
    &&& 0 <= ady <= MAX_LINE_COORD
    &&& 0 <= x <= usize::MAX
    &&& 0 <= y <= usize::MAX
    &&& 0 <= x1 <= usize::MAX
    &&& 0 <= y1 <= usize::MAX
    &&& 0 <= (x1 - x) * sx <= adx
    &&& 0 <= (y1 - y) * sy <= ady
    &&& err == adx * (1 + ady - (y1 - y) * sy) - ady * (1 + adx - (x1 - x) * sx)
}

/// When the walk stands on the endpoint column but not the endpoint row,
/// the error term forbids a horizontal step.
proof fn lemma_bres_no_x_overshoot(
    x: int,
    y: int,
    x1: int,
    y1: int,
    err: int,
    adx: int,
    ady: int,
    sx: int,
    sy: int,
)
    requires
        bres_valid(x, y, x1, y1, err, adx, ady, sx, sy),
        (x1 - x) * sx == 0,
        (y1 - y) * sy > 0,
    ensures
        2 * err < -ady,
{
    let dyr = (y1 - y) * sy;
    assert(2 * err < -ady) by (nonlinear_arith)
        requires
            err == adx * (1 + ady - dyr) - ady * (1 + adx),
            1 <= dyr <= ady,
            adx >= 0,
    ;
}

/// When the walk stands on the endpoint row but not the endpoint column,
/// the error term forbids a vertical step.
proof fn lemma_bres_no_y_overshoot(
    x: int,
    y: int,
    x1: int,
    y1: int,
    err: int,
    adx: int,
    ady: int,
    sx: int,
    sy: int,
)
    requires
        bres_valid(x, y, x1, y1, err, adx, ady, sx, sy),
        (y1 - y) * sy == 0,
        (x1 - x) * sx > 0,
    ensures
        2 * err > adx,
{
    let dxr = (x1 - x) * sx;
    assert(2 * err > adx) by (nonlinear_arith)
        requires
            err == adx * (1 + ady) - ady * (1 + adx - dxr),
            1 <= dxr <= adx,
            ady >= 0,
    ;
}

/// One iteration of the walk, short of the endpoint, makes at least one
/// step, stays valid, never oversteps, and strictly shrinks the remaining
/// distance.
proof fn lemma_bres_step(
    x: int,
    y: int,
    x1: int,
    y1: int,
    err: int,
    adx: int,
    ady: int,
    sx: int,
    sy: int,
)
    requires
        bres_valid(x, y, x1, y1, err, adx, ady, sx, sy),
        !(x == x1 && y == y1),
    ensures
        ({
            let stepx = 2 * err >= -ady;
            let stepy = 2 * err <= adx;
            let nx = if stepx {
                x + sx
            } else {
                x
            };
            let ny = if stepy {
                y + sy
            } else {
                y
            };
            let nerr = err + (if stepx {
                -ady
            } else {
                0int
            }) + (if stepy {
                adx
            } else {
                0int
            });
            &&& (stepx || stepy)
            &&& bres_valid(nx, ny, x1, y1, nerr, adx, ady, sx, sy)
            &&& 0 <= (x1 - nx) * sx + (y1 - ny) * sy < (x1 - x) * sx + (y1 - y) * sy
        }),
{
    let dxr = (x1 - x) * sx;
    let dyr = (y1 - y) * sy;
    assert(dxr > 0 || dyr > 0) by {
        if dxr == 0 && dyr == 0 {
            assert((x1 - x) * sx == 0 && sx * sx == 1 ==> x1 == x) by (nonlinear_arith);
            assert((y1 - y) * sy == 0 && sy * sy == 1 ==> y1 == y) by (nonlinear_arith);
        }
    }
    let stepx = 2 * err >= -ady;
    let stepy = 2 * err <= adx;
    if stepx {
        if dxr == 0 {
            lemma_bres_no_x_overshoot(x, y, x1, y1, err, adx, ady, sx, sy);
            assert(false);
        }
        assert((x1 - (x + sx)) * sx == dxr - 1) by (nonlinear_arith)
            requires
                (x1 - x) * sx == dxr,
                sx == 1 || sx == -1,
        ;
    }
    if stepy {
        if dyr == 0 {
            lemma_bres_no_y_overshoot(x, y, x1, y1, err, adx, ady, sx, sy);
            assert(false);
        }
        assert((y1 - (y + sy)) * sy == dyr - 1) by (nonlinear_arith)
            requires
                (y1 - y) * sy == dyr,
                sy == 1 || sy == -1,
        ;
    }
    let ndxr = if stepx {
        dxr - 1
    } else {
        dxr
    };
    let ndyr = if stepy {
        dyr - 1
    } else {
        dyr
    };
    let nerr = err + (if stepx {
        -ady
    } else {
        0int
    }) + (if stepy {
        adx
    } else {
        0int
    });
    assert(nerr == adx * (1 + ady - ndyr) - ady * (1 + adx - ndxr)) by (nonlinear_arith)
        requires
            err == adx * (1 + ady - dyr) - ady * (1 + adx - dxr),
            nerr == err + (if stepx {
                -ady
            } else {
                0int
            }) + (if stepy {
                adx
            } else {
                0int
            }),
            ndxr == (if stepx {
                dxr - 1
            } else {
                dxr
            }),
            ndyr == (if stepy {
                dyr - 1
            } else {
                dyr
            }),
    ;
    if stepx {
        assert(0 <= x + sx <= usize::MAX) by {
            if sx == 1 {
                assert(dxr > 0 ==> x < x1) by (nonlinear_arith)
                    requires
                        dxr == (x1 - x) * 1,
                        dxr == (x1 - x) * sx,
                        sx == 1,
                ;
            } else {
                assert(dxr > 0 ==> x > x1) by (nonlinear_arith)
                    requires
                        dxr == (x1 - x) * sx,
                        sx == -1,
                ;
            }
        }
    }
    if stepy {
        assert(0 <= y + sy <= usize::MAX) by {
            if sy == 1 {
                assert(dyr > 0 ==> y < y1) by (nonlinear_arith)
                    requires
                        dyr == (y1 - y) * sy,
                        sy == 1,
                ;
            } else {
                assert(dyr > 0 ==> y > y1) by (nonlinear_arith)
                    requires
                        dyr == (y1 - y) * sy,
                        sy == -1,
                ;
            }
        }
    }
}

/// The error term of a valid walk state stays far inside `i64`.
proof fn lemma_bres_err_bound(
    x: int,
    y: int,
    x1: int,
    y1: int,
    err: int,
    adx: int,
    ady: int,
    sx: int,
    sy: int,
)
    requires
        bres_valid(x, y, x1, y1, err, adx, ady, sx, sy),
    ensures
        -0x2000_0000_0000_0000 < err < 0x2000_0000_0000_0000,
{
    let dxr = (x1 - x) * sx;
    let dyr = (y1 - y) * sy;
    assert(-0x2000_0000_0000_0000 < err < 0x2000_0000_0000_0000) by (nonlinear_arith)
        requires
            err == adx * (1 + ady - dyr) - ady * (1 + adx - dxr),
            0 <= dxr <= adx,
            0 <= dyr <= ady,
            0 <= adx <= 0x4000_0000,
            0 <= ady <= 0x4000_0000,
    ;
}

/// The exact coordinate sequence of the integer line walk from (x, y) to
/// (x1, y1), both endpoints included.
pub open spec fn bres_steps(
    x: int,
    y: int,
    x1: int,
    y1: int,
    err: int,
    adx: int,
    ady: int,
    sx: int,
    sy: int,
) -> Seq<(usize, usize)>
    decreases (x1 - x) * sx + (y1 - y) * sy,
    when bres_valid(x, y, x1, y1, err, adx, ady, sx, sy)
    via bres_steps_dec
{
    let pt = (x as usize, y as usize);
    if x == x1 && y == y1 {
        seq![pt]
    } else {
        let stepx = 2 * err >= -ady;
        let stepy = 2 * err <= adx;
        let nx = if stepx {
            x + sx
        } else {
            x
        };
        let ny = if stepy {
            y + sy
        } else {
            y
        };
        let nerr = err + (if stepx {
            -ady
        } else {
            0int
        }) + (if stepy {
            adx
        } else {
            0int
        });
        seq![pt] + bres_steps(nx, ny, x1, y1, nerr, adx, ady, sx, sy)
    }
}

#[via_fn]
proof fn bres_steps_dec(
    x: int,
    y: int,
    x1: int,
    y1: int,
    err: int,
    adx: int,
    ady: int,
    sx: int,
    sy: int,
) {
    if !(x == x1 && y == y1) {
        lemma_bres_step(x, y, x1, y1, err, adx, ady, sx, sy);
    }
}

/// The coordinates of the raw integer walk from (x0, y0) to (x1, y1). The
/// walk's rounding is not symmetric under swapping the endpoints, so it is
/// only ever run in the canonical endpoint order.
pub open spec fn walk_points(x0: usize, y0: usize, x1: usize, y1: usize) -> Seq<(usize, usize)> {
    let adx = if x1 >= x0 {
        x1 - x0
    } else {
        x0 - x1
    };
    let ady = if y1 >= y0 {
        y1 - y0
    } else {
        y0 - y1
    };
    let sx: int = if x0 < x1 {
        1
    } else {
        -1
    };
    let sy: int = if y0 < y1 {
        1
    } else {
        -1
    };
    bres_steps(x0 as int, y0 as int, x1 as int, y1 as int, adx - ady, adx, ady, sx, sy)
}

/// Whether (x0, y0) comes no later than (x1, y1) in the canonical endpoint
/// order: by row, then by column.
pub open spec fn endpoints_ordered(x0: usize, y0: usize, x1: usize, y1: usize) -> bool {
    y0 < y1 || (y0 == y1 && x0 <= x1)
}

/// The coordinates a line between two points covers, start first. The walk
/// always runs between the endpoints in canonical order and is reversed
/// when the caller drew the other way, so the covered cells do not depend
/// on the direction of traversal.
pub open spec fn bresenham_points(x0: usize, y0: usize, x1: usize, y1: usize) -> Seq<
    (usize, usize),
> {
    if endpoints_ordered(x0, y0, x1, y1) {
        walk_points(x0, y0, x1, y1)
    } else {
        walk_points(x1, y1, x0, y0).reverse()
    }
}

/// The initial walk state of any line within the coordinate cap is valid.
proof fn lemma_bres_init(x0: usize, y0: usize, x1: usize, y1: usize)
    requires
        x0 <= MAX_LINE_COORD,
        y0 <= MAX_LINE_COORD,
        x1 <= MAX_LINE_COORD,
        y1 <= MAX_LINE_COORD,
    ensures
        ({
            let adx = if x1 >= x0 {
                x1 - x0
            } else {
                x0 - x1
            };
            let ady = if y1 >= y0 {
                y1 - y0
            } else {
                y0 - y1
            };
            let sx: int = if x0 < x1 {
                1
            } else {
                -1
            };
            let sy: int = if y0 < y1 {
                1
            } else {
                -1
            };
            bres_valid(
                x0 as int,
                y0 as int,
                x1 as int,
                y1 as int,
                adx - ady,
                adx,
                ady,
                sx,
                sy,
            )
        }),
{
    let adx: int = if x1 >= x0 {
        x1 - x0
    } else {
        x0 - x1
    };
    let ady: int = if y1 >= y0 {
        y1 - y0
    } else {
        y0 - y1
    };
    let sx: int = if x0 < x1 {
        1
    } else {
        -1
    };
    let sy: int = if y0 < y1 {
        1
    } else {
        -1
    };
    let dxr = (x1 - x0) * sx;
    let dyr = (y1 - y0) * sy;
    assert(dxr == adx && dyr == ady) by (nonlinear_arith)
        requires
            dxr == (x1 - x0) * sx,
            dyr == (y1 - y0) * sy,
            adx == (if x1 >= x0 {
                x1 - x0
            } else {
                x0 - x1
            }),
            ady == (if y1 >= y0 {
                y1 - y0
            } else {
                y0 - y1
            }),
            sx == (if x0 < x1 {
                1int
            } else {
                -1int
            }),
            sy == (if y0 < y1 {
                1int
            } else {
                -1int
            }),
            0 <= x0,
            0 <= y0,
            0 <= x1,
            0 <= y1,
    ;
    assert(adx - ady == adx * (1 + ady - dyr) - ady * (1 + adx - dxr)) by (nonlinear_arith)
        requires
            dxr == adx,
            dyr == ady,
    ;
}

/// The walk begins at its start state's point and ends at the endpoint.
proof fn lemma_bres_steps_endpoints(
    x: int,
    y: int,
    x1: int,
    y1: int,
    err: int,
    adx: int,
    ady: int,
    sx: int,
    sy: int,
)
    requires
        bres_valid(x, y, x1, y1, err, adx, ady, sx, sy),
    ensures
        bres_steps(x, y, x1, y1, err, adx, ady, sx, sy).len() > 0,
        bres_steps(x, y, x1, y1, err, adx, ady, sx, sy).first() == (x as usize, y as usize),
        bres_steps(x, y, x1, y1, err, adx, ady, sx, sy).last() == (x1 as usize, y1 as usize),
    decreases (x1 - x) * sx + (y1 - y) * sy,
{
    if !(x == x1 && y == y1) {
        lemma_bres_step(x, y, x1, y1, err, adx, ady, sx, sy);
        let stepx = 2 * err >= -ady;
        let stepy = 2 * err <= adx;
        let nx = if stepx {
            x + sx
        } else {
            x
        };
        let ny = if stepy {
            y + sy
        } else {
            y
        };
        let nerr = err + (if stepx {
            -ady
        } else {
            0int
        }) + (if stepy {
            adx
        } else {
            0int
        });
        lemma_bres_steps_endpoints(nx, ny, x1, y1, nerr, adx, ady, sx, sy);
    }
}

/// The raw walk begins at its start point and ends at its endpoint.
proof fn lemma_walk_endpoints(x0: usize, y0: usize, x1: usize, y1: usize)
    requires
        x0 <= MAX_LINE_COORD,
        y0 <= MAX_LINE_COORD,
        x1 <= MAX_LINE_COORD,
        y1 <= MAX_LINE_COORD,
    ensures
        walk_points(x0, y0, x1, y1).len() > 0,
        walk_points(x0, y0, x1, y1).first() == (x0, y0),
        walk_points(x0, y0, x1, y1).last() == (x1, y1),
{
    lemma_bres_init(x0, y0, x1, y1);
    let adx = if x1 >= x0 {
        x1 - x0
    } else {
        x0 - x1
    };
    let ady = if y1 >= y0 {
        y1 - y0
    } else {
        y0 - y1
    };
    let sx: int = if x0 < x1 {
        1
    } else {
        -1
    };
    let sy: int = if y0 < y1 {
        1
    } else {
        -1
    };
    lemma_bres_steps_endpoints(
        x0 as int,
        y0 as int,
        x1 as int,
        y1 as int,
        adx - ady,
        adx,
        ady,
        sx,
        sy,
    );
}

/// **Line endpoint inclusion**: `bresenham_line(x0, y0, x1, y1)` always
/// includes both endpoints in its covered-cell sequence — the start as its
/// first point and the end as its last — whatever the slope or direction.
pub proof fn lemma_line_endpoints(x0: usize, y0: usize, x1: usize, y1: usize)
    requires
        x0 <= MAX_LINE_COORD,
        y0 <= MAX_LINE_COORD,
        x1 <= MAX_LINE_COORD,
        y1 <= MAX_LINE_COORD,
    ensures
        bresenham_points(x0, y0, x1, y1).len() > 0,
        bresenham_points(x0, y0, x1, y1).first() == (x0, y0),
        bresenham_points(x0, y0, x1, y1).last() == (x1, y1),
{
    if endpoints_ordered(x0, y0, x1, y1) {
        lemma_walk_endpoints(x0, y0, x1, y1);
    } else {
        lemma_walk_endpoints(x1, y1, x0, y0);
        let w = walk_points(x1, y1, x0, y0);
        let r = w.reverse();
        assert(r.len() == w.len());
        assert(r[0] == w[w.len() - 1]);
        assert(r[r.len() - 1] == w[0]);
    }
}

/// The walk's length: with the error term in the regime the initial state
/// establishes, the dominant axis steps on every iteration, so the walk
/// takes exactly one point per unit of the longer remaining distance.
proof fn lemma_bres_steps_len(
    x: int,
    y: int,
    x1: int,
    y1: int,
    err: int,
    adx: int,
    ady: int,
    sx: int,
    sy: int,
)
    requires
        bres_valid(x, y, x1, y1, err, adx, ady, sx, sy),
        adx >= ady ==> (x1 - x) * sx >= (y1 - y) * sy,
        ady > adx ==> (y1 - y) * sy >= (x1 - x) * sx,
        adx >= ady && adx > 0 ==> 2 * err > -ady,
        ady > adx ==> 2 * err < adx,
    ensures
        bres_steps(x, y, x1, y1, err, adx, ady, sx, sy).len() == 1 + (if adx >= ady {
            (x1 - x) * sx
        } else {
            (y1 - y) * sy
        }),
    decreases (x1 - x) * sx + (y1 - y) * sy,
{
    let dxr = (x1 - x) * sx;
    let dyr = (y1 - y) * sy;
    if x == x1 && y == y1 {
        assert(dxr == 0 && dyr == 0) by (nonlinear_arith)
            requires
                dxr == (x1 - x) * sx,
                dyr == (y1 - y) * sy,
                x == x1,
                y == y1,
        ;
    } else {
        lemma_bres_step(x, y, x1, y1, err, adx, ady, sx, sy);
        let stepx = 2 * err >= -ady;
        let stepy = 2 * err <= adx;
        let nx = if stepx {
            x + sx
        } else {
            x
        };
        let ny = if stepy {
            y + sy
        } else {
            y
        };
        let nerr = err + (if stepx {
            -ady
        } else {
            0int
        }) + (if stepy {
            adx
        } else {
            0int
        });
        let ndxr = (x1 - nx) * sx;
        let ndyr = (y1 - ny) * sy;
        assert(ndxr == (if stepx {
            dxr - 1
        } else {
            dxr
        }) && ndyr == (if stepy {
            dyr - 1
        } else {
            dyr
        })) by (nonlinear_arith)
            requires
                dxr == (x1 - x) * sx,
                dyr == (y1 - y) * sy,
                ndxr == (x1 - nx) * sx,
                ndyr == (y1 - ny) * sy,
                nx == (if stepx {
                    x + sx
                } else {
                    x
                }),
                ny == (if stepy {
                    y + sy
                } else {
                    y
                }),
                sx == 1 || sx == -1,
                sy == 1 || sy == -1,
        ;
        // the error term determines itself from the remaining distances
        assert(err == (adx - ady) + ady * dxr - adx * dyr) by (nonlinear_arith)
            requires
                err == adx * (1 + ady - dyr) - ady * (1 + adx - dxr),
                dxr == (x1 - x) * sx,
                dyr == (y1 - y) * sy,
        ;
        if adx >= ady {
            // the horizontal axis dominates: it steps now, and at equal
            // remainders the vertical axis steps along with it
            assert(stepx);
            if dxr == dyr {
                assert(2 * err <= adx) by (nonlinear_arith)
                    requires
                        err == (adx - ady) + ady * dxr - adx * dyr,
                        dxr == dyr,
                        dxr >= 1,
                        adx >= ady,
                        adx >= 0,
                ;
                assert(stepy);
            }
            assert(adx >= ady ==> ndxr >= ndyr);
            assert(adx > 0 ==> 2 * nerr > -ady) by (nonlinear_arith)
                requires
                    adx >= ady >= 0,
                    2 * err > -ady || adx == 0,
                    stepx,
                    stepy ==> 2 * err <= adx,
                    !stepy ==> 2 * err > adx,
                    nerr == err + (if stepx {
                        -ady
                    } else {
                        0int
                    }) + (if stepy {
                        adx
                    } else {
                        0int
                    }),
                    adx > 0 ==> 2 * err > -ady,
            ;
            lemma_bres_steps_len(nx, ny, x1, y1, nerr, adx, ady, sx, sy);
        } else {
            // the vertical axis dominates, symmetrically
            assert(stepy);
            if dxr == dyr {
                assert(2 * err >= -ady) by (nonlinear_arith)
                    requires
                        err == (adx - ady) + ady * dxr - adx * dyr,
                        dxr == dyr,
                        dyr >= 1,
                        ady > adx,
                        ady >= 0,
                ;
                assert(stepx);
            }
            assert(ady > adx ==> ndyr >= ndxr);
            assert(2 * nerr < adx) by (nonlinear_arith)
                requires
                    ady > adx >= 0,
                    2 * err < adx,
                    stepy,
                    stepx ==> 2 * err >= -ady,
                    !stepx ==> 2 * err < -ady,
                    nerr == err + (if stepx {
                        -ady
                    } else {
                        0int
                    }) + (if stepy {
                        adx
                    } else {
                        0int
                    }),
            ;
            lemma_bres_steps_len(nx, ny, x1, y1, nerr, adx, ady, sx, sy);
        }
    }
}

/// **Line length**: a line covers exactly one more cell than the longer of
/// its two coordinate distances, whatever the slope or direction.
pub proof fn lemma_line_length(x0: usize, y0: usize, x1: usize, y1: usize)
    requires
        x0 <= MAX_LINE_COORD,
        y0 <= MAX_LINE_COORD,
        x1 <= MAX_LINE_COORD,
        y1 <= MAX_LINE_COORD,
    ensures
        ({
            let dx: int = if x1 >= x0 {
                x1 - x0
            } else {
                x0 - x1
            };
            let dy: int = if y1 >= y0 {
                y1 - y0
            } else {
                y0 - y1
            };
            bresenham_points(x0, y0, x1, y1).len() == 1 + (if dx >= dy {
                dx
            } else {
                dy
            })
        }),
{
    lemma_walk_length(x0, y0, x1, y1);
    if !endpoints_ordered(x0, y0, x1, y1) {
        lemma_walk_length(x1, y1, x0, y0);
    }
}

/// The raw walk's length, from the initial state.
proof fn lemma_walk_length(x0: usize, y0: usize, x1: usize, y1: usize)
    requires
        x0 <= MAX_LINE_COORD,
        y0 <= MAX_LINE_COORD,
        x1 <= MAX_LINE_COORD,
        y1 <= MAX_LINE_COORD,
    ensures
        ({
            let dx: int = if x1 >= x0 {
                x1 - x0
            } else {
                x0 - x1
            };
            let dy: int = if y1 >= y0 {
                y1 - y0
            } else {
                y0 - y1
            };
            walk_points(x0, y0, x1, y1).len() == 1 + (if dx >= dy {
                dx
            } else {
                dy
            })
        }),
{
    lemma_bres_init(x0, y0, x1, y1);
    let adx: int = if x1 >= x0 {
        x1 - x0
    } else {
        x0 - x1
    };
    let ady: int = if y1 >= y0 {
        y1 - y0
    } else {
        y0 - y1
    };
    let sx: int = if x0 < x1 {
        1
    } else {
        -1
    };
    let sy: int = if y0 < y1 {
        1
    } else {
        -1
    };
    let err = adx - ady;
    assert((x1 - x0) * sx == adx && (y1 - y0) * sy == ady) by (nonlinear_arith)
        requires
            adx == (if x1 >= x0 {
                x1 - x0
            } else {
                x0 - x1
            }),
            ady == (if y1 >= y0 {
                y1 - y0
            } else {
                y0 - y1
            }),
            sx == (if x0 < x1 {
                1int
            } else {
                -1int
            }),
            sy == (if y0 < y1 {
                1int
            } else {
                -1int
            }),
    ;
    lemma_bres_steps_len(x0 as int, y0 as int, x1 as int, y1 as int, err, adx, ady, sx, sy);
}

/// The walk's shape: every point stays between the current position and
/// the endpoint on both axes, and consecutive points differ by exactly one
/// step of at most one unit per axis.
#[verifier::rlimit(100)]
proof fn lemma_bres_steps_shape(
    x: int,
    y: int,
    x1: int,
    y1: int,
    err: int,
    adx: int,
    ady: int,
    sx: int,
    sy: int,
)
    requires
        bres_valid(x, y, x1, y1, err, adx, ady, sx, sy),
    ensures
        ({
            let pts = bres_steps(x, y, x1, y1, err, adx, ady, sx, sy);
            &&& forall|i: int|
                0 <= i < pts.len() ==> ({
                    let p = #[trigger] pts[i];
                    &&& (sx == 1 ==> x <= p.0 as int <= x1)
                    &&& (sx == -1 ==> x1 <= p.0 as int <= x)
                    &&& (sy == 1 ==> y <= p.1 as int <= y1)
                    &&& (sy == -1 ==> y1 <= p.1 as int <= y)
                })
            &&& forall|i: int|
                0 <= i < pts.len() - 1 ==> ({
                    let a = #[trigger] pts[i];
                    let b = pts[i + 1];
                    &&& (b.0 as int == a.0 as int || b.0 as int == a.0 as int + sx)
                    &&& (b.1 as int == a.1 as int || b.1 as int == a.1 as int + sy)
                    &&& !(b.0 == a.0 && b.1 == a.1)
                })
        }),
    decreases (x1 - x) * sx + (y1 - y) * sy,
{
    let pts = bres_steps(x, y, x1, y1, err, adx, ady, sx, sy);
    assert((sx == 1 ==> x <= x1) && (sx == -1 ==> x1 <= x) && (sy == 1 ==> y <= y1) && (sy == -1
        ==> y1 <= y)) by (nonlinear_arith)
        requires
            (x1 - x) * sx >= 0,
            (y1 - y) * sy >= 0,
            sx == 1 || sx == -1,
            sy == 1 || sy == -1,
    ;
    if !(x == x1 && y == y1) {
        lemma_bres_step(x, y, x1, y1, err, adx, ady, sx, sy);
        let stepx = 2 * err >= -ady;
        let stepy = 2 * err <= adx;
        let nx = if stepx {
            x + sx
        } else {
            x
        };
        let ny = if stepy {
            y + sy
        } else {
            y
        };
        let nerr = err + (if stepx {
            -ady
        } else {
            0int
        }) + (if stepy {
            adx
        } else {
            0int
        });
        lemma_bres_steps_shape(nx, ny, x1, y1, nerr, adx, ady, sx, sy);
        let rest = bres_steps(nx, ny, x1, y1, nerr, adx, ady, sx, sy);
        lemma_bres_steps_endpoints(nx, ny, x1, y1, nerr, adx, ady, sx, sy);
        assert(pts == seq![(x as usize, y as usize)] + rest);
        assert(forall|i: int| 1 <= i < pts.len() ==> #[trigger] pts[i] == rest[i - 1]);
        assert(pts[1] == rest[0] && rest[0] == (nx as usize, ny as usize));
        assert((sx == 1 ==> x <= nx) && (sx == -1 ==> nx <= x) && (sy == 1 ==> y <= ny) && (sy
            == -1 ==> ny <= y));
    }
}

/// **Line step shape**: consecutive covered cells of a line never repeat
/// and differ by at most one in each axis, each coordinate moving only
/// toward the endpoint — so both coordinates run monotonically from start
/// to end — and every covered cell lies in the endpoints' bounding box.
pub proof fn lemma_line_steps(x0: usize, y0: usize, x1: usize, y1: usize)
    requires
        x0 <= MAX_LINE_COORD,
        y0 <= MAX_LINE_COORD,
        x1 <= MAX_LINE_COORD,
        y1 <= MAX_LINE_COORD,
    ensures
        ({
            let pts = bresenham_points(x0, y0, x1, y1);
            &&& forall|i: int|
                0 <= i < pts.len() ==> ({
                    let p = #[trigger] pts[i];
                    &&& (if x0 <= x1 {
                        x0 <= p.0 <= x1
                    } else {
                        x1 <= p.0 <= x0
                    })
                    &&& (if y0 <= y1 {
                        y0 <= p.1 <= y1
                    } else {
                        y1 <= p.1 <= y0
                    })
                })
            &&& forall|i: int|
                0 <= i < pts.len() - 1 ==> ({
                    let a = #[trigger] pts[i];
                    let b = pts[i + 1];
                    &&& (b.0 == a.0 || (x0 < x1 && b.0 == a.0 + 1) || (x1 < x0 && a.0 == b.0
                        + 1))
                    &&& (b.1 == a.1 || (y0 < y1 && b.1 == a.1 + 1) || (y1 < y0 && a.1 == b.1
                        + 1))
                    &&& !(b.0 == a.0 && b.1 == a.1)
                })
        }),
{
    if endpoints_ordered(x0, y0, x1, y1) {
        lemma_walk_shape_public(x0, y0, x1, y1);
    } else {
        lemma_walk_shape_public(x1, y1, x0, y0);
        let w = walk_points(x1, y1, x0, y0);
        let pts = bresenham_points(x0, y0, x1, y1);
        assert(pts == w.reverse());
        assert(forall|i: int| 0 <= i < pts.len() ==> #[trigger] pts[i] == w[w.len() - 1 - i]);
        assert forall|i: int| 0 <= i < pts.len() - 1 implies ({
            let a = #[trigger] pts[i];
            let b = pts[i + 1];
            &&& (b.0 == a.0 || (x0 < x1 && b.0 == a.0 + 1) || (x1 < x0 && a.0 == b.0 + 1))
            &&& (b.1 == a.1 || (y0 < y1 && b.1 == a.1 + 1) || (y1 < y0 && a.1 == b.1 + 1))
            &&& !(b.0 == a.0 && b.1 == a.1)
        }) by {
            let j = w.len() - 2 - i;
            assert(pts[i] == w[j + 1] && pts[i + 1] == w[j]);
        }
    }
}

/// The walk's shape, restated over the call's own endpoint order.
proof fn lemma_walk_shape_public(x0: usize, y0: usize, x1: usize, y1: usize)
    requires
        x0 <= MAX_LINE_COORD,
        y0 <= MAX_LINE_COORD,
        x1 <= MAX_LINE_COORD,
        y1 <= MAX_LINE_COORD,
    ensures
        ({
            let pts = walk_points(x0, y0, x1, y1);
            &&& forall|i: int|
                0 <= i < pts.len() ==> ({
                    let p = #[trigger] pts[i];
                    &&& (if x0 <= x1 {
                        x0 <= p.0 <= x1
                    } else {
                        x1 <= p.0 <= x0
                    })
                    &&& (if y0 <= y1 {
                        y0 <= p.1 <= y1
                    } else {
                        y1 <= p.1 <= y0
                    })
                })
            &&& forall|i: int|
                0 <= i < pts.len() - 1 ==> ({
                    let a = #[trigger] pts[i];
                    let b = pts[i + 1];
                    &&& (b.0 == a.0 || (x0 < x1 && b.0 == a.0 + 1) || (x1 < x0 && a.0 == b.0
                        + 1))
                    &&& (b.1 == a.1 || (y0 < y1 && b.1 == a.1 + 1) || (y1 < y0 && a.1 == b.1
                        + 1))
                    &&& !(b.0 == a.0 && b.1 == a.1)
                })
        }),
{
    lemma_bres_init(x0, y0, x1, y1);
    let adx: int = if x1 >= x0 {
        x1 - x0
    } else {
        x0 - x1
    };
    let ady: int = if y1 >= y0 {
        y1 - y0
    } else {
        y0 - y1
    };
    let sx: int = if x0 < x1 {
        1
    } else {
        -1
    };
    let sy: int = if y0 < y1 {
        1
    } else {
        -1
    };
    lemma_bres_steps_shape(x0 as int, y0 as int, x1 as int, y1 as int, adx - ady, adx, ady, sx, sy);
}

/// A sequence and its reverse hold exactly the same elements.
proof fn lemma_reverse_contains(s: Seq<(usize, usize)>, p: (usize, usize))
    ensures
        s.contains(p) <==> s.reverse().contains(p),
{
    if s.contains(p) {
        let i = choose|i: int| 0 <= i < s.len() && s[i] == p;
        assert(s.reverse()[s.len() - 1 - i] == p);
    }
    if s.reverse().contains(p) {
        let i = choose|i: int| 0 <= i < s.reverse().len() && s.reverse()[i] == p;
        assert(s[s.len() - 1 - i] == p);
    }
}

/// **Line direction independence**: the walk from A to B is exactly the
/// reverse of the walk from B to A, so a line covers the same cell set
/// regardless of the direction of traversal.
pub proof fn lemma_line_direction_symmetry(x0: usize, y0: usize, x1: usize, y1: usize)
    requires
        x0 <= MAX_LINE_COORD,
        y0 <= MAX_LINE_COORD,
        x1 <= MAX_LINE_COORD,
        y1 <= MAX_LINE_COORD,
    ensures
        bresenham_points(x1, y1, x0, y0) == bresenham_points(x0, y0, x1, y1).reverse(),
        forall|p: (usize, usize)|
            bresenham_points(x0, y0, x1, y1).contains(p) <==> bresenham_points(
                x1,
                y1,
                x0,
                y0,
            ).contains(p),
{
    if x0 == x1 && y0 == y1 {
        lemma_walk_endpoints(x0, y0, x1, y1);
        let w = walk_points(x0, y0, x1, y1);
        lemma_bres_init(x0, y0, x1, y1);
        assert(w == seq![(x0, y0)]);
        assert(w.reverse() =~= w);
    } else if endpoints_ordered(x0, y0, x1, y1) {
        assert(!endpoints_ordered(x1, y1, x0, y0));
        assert(bresenham_points(x1, y1, x0, y0) == walk_points(x0, y0, x1, y1).reverse());
    } else {
        assert(endpoints_ordered(x1, y1, x0, y0));
        let w = walk_points(x1, y1, x0, y0);
        assert(w.reverse().reverse() =~= w);
    }
    assert forall|p: (usize, usize)|
        bresenham_points(x0, y0, x1, y1).contains(p) <==> bresenham_points(
            x1,
            y1,
            x0,
            y0,
        ).contains(p) by {
        lemma_reverse_contains(bresenham_points(x0, y0, x1, y1), p);
    }
}

/// Run the raw integer walk from (x0, y0) to (x1, y1).
fn walk_line(x0: usize, y0: usize, x1: usize, y1: usize) -> (pts: Vec<(usize, usize)>)
    requires
        x0 <= MAX_LINE_COORD,
        y0 <= MAX_LINE_COORD,
        x1 <= MAX_LINE_COORD,
        y1 <= MAX_LINE_COORD,
    ensures
        pts@ == walk_points(x0, y0, x1, y1),
{
    let ghost all = walk_points(x0, y0, x1, y1);
    let mut pts: Vec<(usize, usize)> = Vec::new();
    let mut x: i64 = x0 as i64;
    let mut y: i64 = y0 as i64;
    let tx: i64 = x1 as i64;
    let ty: i64 = y1 as i64;
    let adx: i64 = if tx >= x {
        tx - x
    } else {
        x - tx
    };
    let ady: i64 = if ty >= y {
        ty - y
    } else {
        y - ty
    };
    let sx: i64 = if x < tx {
        1
    } else {
        -1
    };
    let sy: i64 = if y < ty {
        1
    } else {
        -1
    };
    let mut err: i64 = adx - ady;
    proof {
        lemma_bres_init(x0, y0, x1, y1);
    }
    loop
        invariant_except_break
            tx == x1 as int,
            ty == y1 as int,
            adx == (if x1 >= x0 {
                x1 - x0
            } else {
                x0 - x1
            }),
            ady == (if y1 >= y0 {
                y1 - y0
            } else {
                y0 - y1
            }),
            bres_valid(
                x as int,
                y as int,
                tx as int,
                ty as int,
                err as int,
                adx as int,
                ady as int,
                sx as int,
                sy as int,
            ),
            all == pts@ + bres_steps(
                x as int,
                y as int,
                tx as int,
                ty as int,
                err as int,
                adx as int,
                ady as int,
                sx as int,
                sy as int,
            ),
        ensures
            pts@ == all,
        decreases (tx - x) * sx + (ty - y) * sy,
    {
        let ghost rest = bres_steps(
            x as int,
            y as int,
            tx as int,
            ty as int,
            err as int,
            adx as int,
            ady as int,
            sx as int,
            sy as int,
        );
        let ghost prev = pts@;
        pts.push((x as usize, y as usize));
        if x == tx && y == ty {
            proof {
                assert(rest == seq![(x as usize, y as usize)]);
                assert(pts@ =~= prev + rest);
            }
            break ;
        }
        proof {
            lemma_bres_step(
                x as int,
                y as int,
                tx as int,
                ty as int,
                err as int,
                adx as int,
                ady as int,
                sx as int,
                sy as int,
            );
        }
        let ghost ox = x as int;
        let ghost oy = y as int;
        let ghost oerr = err as int;
        proof {
            lemma_bres_err_bound(
                x as int,
                y as int,
                tx as int,
                ty as int,
                err as int,
                adx as int,
                ady as int,
                sx as int,
                sy as int,
            );
        }
        let e2: i64 = 2 * err;
        if e2 >= -ady {
            err = err - ady;
            x = x + sx;
        }
        if e2 <= adx {
            err = err + adx;
            y = y + sy;
        }
        proof {
            let nrest = bres_steps(
                x as int,
                y as int,
                tx as int,
                ty as int,
                err as int,
                adx as int,
                ady as int,
                sx as int,
                sy as int,
            );
            assert(rest == seq![(ox as usize, oy as usize)] + nrest);
            assert(prev + rest =~= pts@ + nrest);
        }
    }
    pts
}

/// A copy of the points in reverse order.
fn reversed_points(v: &Vec<(usize, usize)>) -> (r: Vec<(usize, usize)>)
    ensures
        r@ == v@.reverse(),
{
    let mut r: Vec<(usize, usize)> = Vec::new();
    let mut i: usize = v.len();
    while i > 0
        invariant
            i <= v@.len(),
            r@.len() == v@.len() - i,
            forall|j: int| 0 <= j < r@.len() ==> #[trigger] r@[j] == v@[v@.len() - 1 - j],
        decreases i,
    {
        i = i - 1;
        r.push(v[i]);
    }
    proof {
        assert(r@ =~= v@.reverse());
    }
    r
}

/// The coordinates a line between two coordinates covers, start first. The
/// walk is normalized to a canonical endpoint order, so drawing in either
/// direction covers exactly the same cells, in opposite order.
pub fn bresenham_line(x0: usize, y0: usize, x1: usize, y1: usize) -> (pts: Vec<(usize, usize)>)
    requires
        x0 <= MAX_LINE_COORD,
        y0 <= MAX_LINE_COORD,
        x1 <= MAX_LINE_COORD,
        y1 <= MAX_LINE_COORD,
    ensures
        pts@ == bresenham_points(x0, y0, x1, y1),
{
    if y0 < y1 || (y0 == y1 && x0 <= x1) {
        walk_line(x0, y0, x1, y1)
    } else {
        let w = walk_line(x1, y1, x0, y0);
        reversed_points(&w)
    }
}

/// Draw a line from (x0, y0) to (x1, y1): one mutation per covered cell
/// that lies in bounds and differs from the target cell, in walk order.
pub fn line(
    canvas: &Canvas,
    x0: usize,
    y0: usize,
    x1: usize,
    y1: usize,
    ch: char,
    fg: Option<Rgb>,
    bg: Option<Rgb>,
) -> (r: Vec<CellMutation>)
    requires
        canvas.wf(),
        x0 <= MAX_LINE_COORD,
        y0 <= MAX_LINE_COORD,
        x1 <= MAX_LINE_COORD,
        y1 <= MAX_LINE_COORD,
    ensures
        r@ == muts_for_points(canvas@, bresenham_points(x0, y0, x1, y1), Cell { ch, fg, bg }),
{
    let points = bresenham_line(x0, y0, x1, y1);
    let new = Cell { ch, fg, bg };
    let ghost g = canvas@;
    let mut r: Vec<CellMutation> = Vec::new();
    let mut i: usize = 0;
    proof {
        assert(points@.take(0) =~= Seq::<(usize, usize)>::empty());
    }
    while i < points.len()
        invariant
            canvas.wf(),
            g == canvas@,
            i <= points@.len(),
            points@ == bresenham_points(x0, y0, x1, y1),
            r@ == muts_for_points(g, points@.take(i as int), new),
        decreases points@.len() - i,
    {
        let (x, y) = points[i];
        let ghost prev = r@;
        match canvas.get(x, y) {
            Some(old) => {
                if !(old == new) {
                    r.push(CellMutation { x, y, old, new });
                }
            },
            None => {},
        }
        proof {
            assert(r@ =~= prev + mutation_for(g, x, y, new));
            lemma_muts_for_points_push(g, points@.take(i as int), (x, y), new);
            assert(points@.take(i as int).push((x, y)) =~= points@.take(i + 1));
        }
        i = i + 1;
    }
    proof {
        assert(points@.take(points@.len() as int) =~= points@);
    }
    r
}

/// The rectangle coordinates covered in one row, left to right: every cell
/// in filled mode, border cells only in outline mode.
pub open spec fn rect_row_points(
    x: int,
    y: int,
    x0: int,
    x1: int,
    y0: int,
    y1: int,
    filled: bool,
) -> Seq<(usize, usize)>
    decreases x1 + 1 - x,
{
    if x > x1 {
        Seq::empty()
    } else {
        let here: Seq<(usize, usize)> = if filled || x == x0 || x == x1 || y == y0 || y == y1 {
            seq![(x as usize, y as usize)]
        } else {
            Seq::empty()
        };
        here + rect_row_points(x + 1, y, x0, x1, y0, y1, filled)
    }
}

/// The rectangle coordinates covered from row `y` down, in row-major order.
pub open spec fn rect_points_from(
    y: int,
    x0: int,
    x1: int,
    y0: int,
    y1: int,
    filled: bool,
) -> Seq<(usize, usize)>
    decreases y1 + 1 - y,
{
    if y > y1 {
        Seq::empty()
    } else {
        rect_row_points(x0, y, x0, x1, y0, y1, filled) + rect_points_from(
            y + 1,
            x0,
            x1,
            y0,
            y1,
            filled,
        )
    }
}

/// All coordinates a rectangle between two corners covers, after corner
/// normalization, in row-major order.
pub open spec fn rect_points(
    xa: usize,
    ya: usize,
    xb: usize,
    yb: usize,
    filled: bool,
) -> Seq<(usize, usize)> {
    let x0 = if xa <= xb { xa as int } else { xb as int };
    let x1 = if xa <= xb { xb as int } else { xa as int };
    let y0 = if ya <= yb { ya as int } else { yb as int };
    let y1 = if ya <= yb { yb as int } else { ya as int };
    rect_points_from(y0, x0, x1, y0, y1, filled)
}

/// Draw a rectangle between (x0, y0) and (x1, y1): border cells only in
/// outline mode, every covered cell in filled mode; cells already equal to
/// the target and out-of-bounds cells are skipped.
pub fn rectangle(
    canvas: &Canvas,
    x0: usize,
    y0: usize,
    x1: usize,
    y1: usize,
    ch: char,
    fg: Option<Rgb>,
    bg: Option<Rgb>,
    filled: bool,
) -> (r: Vec<CellMutation>)
    requires
        canvas.wf(),
        x0 < usize::MAX,
        x1 < usize::MAX,
        y0 < usize::MAX,
        y1 < usize::MAX,
    ensures
        r@ == muts_for_points(
            canvas@,
            rect_points(x0, y0, x1, y1, filled),
            Cell { ch, fg, bg },
        ),
{
    let min_x = if x0 <= x1 { x0 } else { x1 };
    let max_x = if x0 <= x1 { x1 } else { x0 };
    let min_y = if y0 <= y1 { y0 } else { y1 };
    let max_y = if y0 <= y1 { y1 } else { y0 };
    let new = Cell { ch, fg, bg };
    let ghost g = canvas@;
    let ghost all = muts_for_points(g, rect_points(x0, y0, x1, y1, filled), new);
    let mut r: Vec<CellMutation> = Vec::new();

    let mut y = min_y;
    while y <= max_y
        invariant
            canvas.wf(),
            g == canvas@,
            min_x <= max_x < usize::MAX,
            min_y <= y <= max_y + 1,
            min_y <= max_y < usize::MAX,
            all == muts_for_points(g, rect_points(x0, y0, x1, y1, filled), new),
            all == r@ + muts_for_points(
                g,
                rect_points_from(
                    y as int,
                    min_x as int,
                    max_x as int,
                    min_y as int,
                    max_y as int,
                    filled,
                ),
                new,
            ),
        decreases max_y + 1 - y,
    {
        let ghost row_rest = rect_points_from(
            y + 1,
            min_x as int,
            max_x as int,
            min_y as int,
            max_y as int,
            filled,
        );
        let mut x = min_x;
        while x <= max_x
            invariant
                canvas.wf(),
                g == canvas@,
                min_x <= x <= max_x + 1,
                min_y <= y <= max_y,
                min_y <= max_y < usize::MAX,
                max_x < usize::MAX,
                row_rest == rect_points_from(
                    y + 1,
                    min_x as int,
                    max_x as int,
                    min_y as int,
                    max_y as int,
                    filled,
                ),
                all == r@ + muts_for_points(
                    g,
                    rect_row_points(
                        x as int,
                        y as int,
                        min_x as int,
                        max_x as int,
                        min_y as int,
                        max_y as int,
                        filled,
                    ) + row_rest,
                    new,
                ),
            decreases max_x + 1 - x,
        {
            let ghost rowpts = rect_row_points(
                x as int,
                y as int,
                min_x as int,
                max_x as int,
                min_y as int,
                max_y as int,
                filled,
            );
            let ghost nextpts = rect_row_points(
                x + 1,
                y as int,
                min_x as int,
                max_x as int,
                min_y as int,
                max_y as int,
                filled,
            );
            let is_border = x == min_x || x == max_x || y == min_y || y == max_y;
            if filled || is_border {
                proof {
                    assert(rowpts == seq![(x, y)] + nextpts);
                    lemma_muts_for_points_concat(g, seq![(x, y)], nextpts + row_rest, new);
                    assert((seq![(x, y)] + nextpts) + row_rest =~= seq![(x, y)] + (nextpts
                        + row_rest));
                    lemma_muts_for_points_single(g, (x, y), new);
                }
                let ghost prev = r@;
                match canvas.get(x, y) {
                    Some(old) => {
                        if !(old == new) {
                            r.push(CellMutation { x, y, old, new });
                        }
                    },
                    None => {},
                }
                proof {
                    assert(r@ =~= prev + mutation_for(g, x, y, new));
                    assert(prev + mutation_for(g, x, y, new) + muts_for_points(
                        g,
                        nextpts + row_rest,
                        new,
                    ) =~= prev + (mutation_for(g, x, y, new) + muts_for_points(
                        g,
                        nextpts + row_rest,
                        new,
                    )));
                }
            } else {
                proof {
                    assert(rowpts == Seq::<(usize, usize)>::empty() + nextpts);
                    assert(Seq::<(usize, usize)>::empty() + nextpts =~= nextpts);
                }
            }
            x = x + 1;
        }
        proof {
            assert(rect_row_points(
                max_x + 1,
                y as int,
                min_x as int,
                max_x as int,
                min_y as int,
                max_y as int,
                filled,
            ) == Seq::<(usize, usize)>::empty());
            assert(Seq::<(usize, usize)>::empty() + row_rest =~= row_rest);
        }
        y = y + 1;
    }
    proof {
        assert(rect_points_from(
            max_y + 1,
            min_x as int,
            max_x as int,
            min_y as int,
            max_y as int,
            filled,
        ) == Seq::<(usize, usize)>::empty());
        assert(all == r@ + muts_for_points(g, Seq::<(usize, usize)>::empty(), new));
        assert(r@ + Seq::<CellMutation>::empty() =~= r@);
    }
    r
}


/// Every mutation a point list produces lies inside the grid.
pub proof fn lemma_muts_for_points_bounds(
    g: Seq<Seq<Cell>>,
    pts: Seq<(usize, usize)>,
    new: Cell,
    w: int,
    h: int,
)
    requires
        crate::canvas::grid_wf(g, w, h),
    ensures
        forall|i: int|
            0 <= i < muts_for_points(g, pts, new).len() ==> ((#[trigger] muts_for_points(
                g,
                pts,
                new,
            )[i]).x as int) < w && (muts_for_points(g, pts, new)[i].y as int) < h,
    decreases pts.len(),
{
    if pts.len() > 0 {
        lemma_muts_for_points_bounds(g, pts.drop_first(), new, w, h);
        let head = mutation_for(g, pts[0].0, pts[0].1, new);
        let rest = muts_for_points(g, pts.drop_first(), new);
        assert(forall|i: int|
            0 <= i < muts_for_points(g, pts, new).len() ==> #[trigger] muts_for_points(
                g,
                pts,
                new,
            )[i] == (if i < head.len() {
                head[i]
            } else {
                rest[i - head.len()]
            }));
    }
}

/// Two coordinates are 4-connected neighbors.
pub open spec fn adjacent(a: (usize, usize), b: (usize, usize)) -> bool {
    ||| (a.0 == b.0 && (a.1 + 1 == b.1 || b.1 + 1 == a.1))
    ||| (a.1 == b.1 && (a.0 + 1 == b.0 || b.0 + 1 == a.0))
}

/// A path of target-colored, in-bounds cells, each step 4-connected.
pub open spec fn path_ok(g: Seq<Seq<Cell>>, t: Cell, p: Seq<(usize, usize)>) -> bool {
    &&& forall|i: int|
        0 <= i < p.len() ==> grid_in_bounds(g, (#[trigger] p[i]).0 as int, p[i].1 as int)
            && grid_get(g, p[i].0 as int, p[i].1 as int) == t
    &&& forall|i: int| 0 <= i < p.len() - 1 ==> adjacent(#[trigger] p[i], p[i + 1])
}

/// A coordinate is reachable from the seed when a 4-connected path of
/// target-colored cells joins them.
pub open spec fn reachable(
    g: Seq<Seq<Cell>>,
    sx: usize,
    sy: usize,
    t: Cell,
    c: (usize, usize),
) -> bool {
    exists|p: Seq<(usize, usize)>|
        p.len() > 0 && p.first() == (sx, sy) && p.last() == c && path_ok(g, t, p)
}

/// Whether some mutation in the list targets coordinate (x, y).
pub open spec fn has_coord(r: Seq<CellMutation>, x: usize, y: usize) -> bool {
    exists|i: int| 0 <= i < r.len() && (#[trigger] r[i]).x == x && r[i].y == y
}

/// No two mutations in the list target the same coordinate.
pub open spec fn distinct_coords(r: Seq<CellMutation>) -> bool {
    forall|i: int, j: int|
        0 <= i < j < r.len() ==> !((#[trigger] r[i]).x == (#[trigger] r[j]).x && r[i].y == r[j].y)
}

/// Reachability extends across one 4-connected step onto another
/// target-colored, in-bounds cell.
proof fn lemma_reachable_step(
    g: Seq<Seq<Cell>>,
    sx: usize,
    sy: usize,
    t: Cell,
    c: (usize, usize),
    e: (usize, usize),
)
    requires
        reachable(g, sx, sy, t, c),
        adjacent(c, e),
        grid_in_bounds(g, e.0 as int, e.1 as int),
        grid_get(g, e.0 as int, e.1 as int) == t,
    ensures
        reachable(g, sx, sy, t, e),
{
    let p = choose|p: Seq<(usize, usize)>|
        p.len() > 0 && p.first() == (sx, sy) && p.last() == c && path_ok(g, t, p);
    let p2 = p.push(e);
    assert(path_ok(g, t, p2)) by {
        assert(forall|i: int| 0 <= i < p.len() ==> p2[i] == #[trigger] p[i]);
        assert(p2[p2.len() - 1] == e);
        assert(p2[p2.len() - 2] == p.last());
    }
    assert(p2.len() > 0 && p2.first() == (sx, sy) && p2.last() == e);
}

/// The seed of a fill is reachable from itself.
proof fn lemma_reachable_seed(g: Seq<Seq<Cell>>, sx: usize, sy: usize, t: Cell)
    requires
        grid_in_bounds(g, sx as int, sy as int),
        grid_get(g, sx as int, sy as int) == t,
    ensures
        reachable(g, sx, sy, t, (sx, sy)),
{
    let p: Seq<(usize, usize)> = seq![(sx, sy)];
    assert(p.len() > 0 && p.first() == (sx, sy) && p.last() == (sx, sy) && path_ok(g, t, p));
}

/// The model of the visited bitmap: one bit per grid cell.
pub open spec fn bmap_wf(b: Seq<Vec<bool>>, w: int, h: int) -> bool {
    &&& b.len() == h
    &&& forall|y: int| 0 <= y < h ==> (#[trigger] b[y])@.len() == w
}

/// The bit at (x, y).
pub open spec fn bval(b: Seq<Vec<bool>>, x: int, y: int) -> bool {
    b[y]@[x]
}

/// Whether the stack holds the coordinate.
pub open spec fn in_stack(st: Seq<(usize, usize)>, c: (usize, usize)) -> bool {
    exists|k: int| 0 <= k < st.len() && st[k] == c
}

/// Whether the coordinate borders some visited cell.
pub open spec fn borders_visited(vis: Seq<Vec<bool>>, w: int, h: int, c: (usize, usize)) -> bool {
    exists|v: (usize, usize)|
        (v.0 as int) < w && (v.1 as int) < h && bval(vis, v.0 as int, v.1 as int)
            && #[trigger] adjacent(v, c)
}

/// A target-colored cell that the fill still owes to its work stack: it is
/// unvisited, and it is the seed or borders a visited cell.
pub open spec fn frontier_owed(
    g: Seq<Seq<Cell>>,
    vis: Seq<Vec<bool>>,
    w: int,
    h: int,
    sx: usize,
    sy: usize,
    t: Cell,
    c: (usize, usize),
) -> bool {
    &&& (c.0 as int) < w
    &&& (c.1 as int) < h
    &&& grid_get(g, c.0 as int, c.1 as int) == t
    &&& !bval(vis, c.0 as int, c.1 as int)
    &&& (c == (sx, sy) || borders_visited(vis, w, h, c))
}

proof fn lemma_in_stack_push(st: Seq<(usize, usize)>, c: (usize, usize), e: (usize, usize))
    requires
        in_stack(st, c),
    ensures
        in_stack(st.push(e), c),
{
    let k = choose|k: int| 0 <= k < st.len() && st[k] == c;
    assert(st.push(e)[k] == c);
}

/// The count of unset bits in one row.
pub open spec fn row_falses(r: Seq<bool>) -> int
    decreases r.len(),
{
    if r.len() == 0 {
        0
    } else {
        (if r[0] {
            0int
        } else {
            1int
        }) + row_falses(r.drop_first())
    }
}

/// The count of unset bits in the bitmap.
pub open spec fn bmap_falses(b: Seq<Vec<bool>>) -> int
    decreases b.len(),
{
    if b.len() == 0 {
        0
    } else {
        row_falses(b[0]@) + bmap_falses(b.drop_first())
    }
}

proof fn lemma_row_falses_nonneg(r: Seq<bool>)
    ensures
        row_falses(r) >= 0,
    decreases r.len(),
{
    if r.len() > 0 {
        lemma_row_falses_nonneg(r.drop_first());
    }
}

proof fn lemma_bmap_falses_nonneg(b: Seq<Vec<bool>>)
    ensures
        bmap_falses(b) >= 0,
    decreases b.len(),
{
    if b.len() > 0 {
        lemma_row_falses_nonneg(b[0]@);
        lemma_bmap_falses_nonneg(b.drop_first());
    }
}

proof fn lemma_row_falses_update(r: Seq<bool>, x: int)
    requires
        0 <= x < r.len(),
        !r[x],
    ensures
        row_falses(r.update(x, true)) == row_falses(r) - 1,
    decreases r.len(),
{
    let r2 = r.update(x, true);
    if x == 0 {
        assert(r2.drop_first() =~= r.drop_first());
    } else {
        assert(r2[0] == r[0]);
        assert(r2.drop_first() =~= r.drop_first().update(x - 1, true));
        lemma_row_falses_update(r.drop_first(), x - 1);
    }
}

proof fn lemma_bmap_falses_update(b: Seq<Vec<bool>>, b2: Seq<Vec<bool>>, x: int, y: int)
    requires
        0 <= y < b.len(),
        0 <= x < b[y]@.len(),
        !b[y]@[x],
        b2.len() == b.len(),
        forall|j: int| 0 <= j < b.len() && j != y ==> #[trigger] b2[j] == b[j],
        b2[y]@ == b[y]@.update(x, true),
    ensures
        bmap_falses(b2) == bmap_falses(b) - 1,
    decreases b.len(),
{
    if y == 0 {
        lemma_row_falses_update(b[0]@, x);
        assert(b2.drop_first() =~= b.drop_first());
    } else {
        assert(b2[0] == b[0]);
        assert(forall|j: int|
            0 <= j < b.drop_first().len() && j != y - 1 ==> #[trigger] b2.drop_first()[j]
                == b.drop_first()[j]);
        assert(b2.drop_first()[y - 1]@ == b.drop_first()[y - 1]@.update(x, true));
        lemma_bmap_falses_update(b.drop_first(), b2.drop_first(), x, y - 1);
    }
}

/// A visited set that holds the seed and owes nothing to the stack contains
/// the endpoint of every target-colored path out of the seed.
proof fn lemma_closed_visited_covers(
    g: Seq<Seq<Cell>>,
    b: Seq<Vec<bool>>,
    w: int,
    h: int,
    sx: usize,
    sy: usize,
    t: Cell,
    p: Seq<(usize, usize)>,
)
    requires
        crate::canvas::grid_wf(g, w, h),
        bmap_wf(b, w, h),
        grid_in_bounds(g, sx as int, sy as int),
        bval(b, sx as int, sy as int),
        forall|c: (usize, usize)| !#[trigger] frontier_owed(g, b, w, h, sx, sy, t, c),
        p.len() > 0,
        p.first() == (sx, sy),
        path_ok(g, t, p),
    ensures
        bval(b, p.last().0 as int, p.last().1 as int),
    decreases p.len(),
{
    if p.len() == 1 {
        assert(p.last() == (sx, sy));
    } else {
        let q = p.drop_last();
        assert(q.first() == p.first());
        assert(forall|i: int| 0 <= i < q.len() ==> #[trigger] q[i] == p[i]);
        assert(path_ok(g, t, q));
        lemma_closed_visited_covers(g, b, w, h, sx, sy, t, q);
        let v = q.last();
        let c = p.last();
        assert(v == p[p.len() - 2] && c == p[p.len() - 1]);
        assert(adjacent(v, c));
        if !bval(b, c.0 as int, c.1 as int) {
            assert(borders_visited(b, w, h, c));
            assert(frontier_owed(g, b, w, h, sx, sy, t, c));
            assert(false);
        }
    }
}


/// All invariants the fill loop maintains over the grid, the visited
/// bitmap, the mutation list, and the work stack.
pub open spec fn fill_inv(
    g: Seq<Seq<Cell>>,
    w: int,
    h: int,
    sx: usize,
    sy: usize,
    t: Cell,
    n: Cell,
    vis: Seq<Vec<bool>>,
    r: Seq<CellMutation>,
    st: Seq<(usize, usize)>,
) -> bool {
    &&& bmap_wf(vis, w, h)
    &&& forall|x: int, y: int|
        0 <= x < w && 0 <= y < h && #[trigger] bval(vis, x, y) ==> grid_get(g, x, y) == t
            && reachable(g, sx, sy, t, (x as usize, y as usize))
    &&& forall|i: int|
        0 <= i < r.len() ==> (#[trigger] r[i]).x < w && r[i].y < h && r[i].old == t && r[i].old
            == grid_get(g, r[i].x as int, r[i].y as int) && r[i].new == n && bval(
            vis,
            r[i].x as int,
            r[i].y as int,
        )
    &&& forall|x: int, y: int|
        0 <= x < w && 0 <= y < h && #[trigger] bval(vis, x, y) ==> has_coord(
            r,
            x as usize,
            y as usize,
        )
    &&& distinct_coords(r)
    &&& forall|k: int|
        0 <= k < st.len() ==> (#[trigger] st[k]) == (sx, sy) || borders_visited(vis, w, h, st[k])
    &&& forall|c: (usize, usize)|
        #[trigger] frontier_owed(g, vis, w, h, sx, sy, t, c) ==> in_stack(st, c)
}

/// Popping a coordinate that fails the fill's checks preserves every
/// invariant: nothing was owed to that stack slot.
proof fn lemma_fill_skip(
    g: Seq<Seq<Cell>>,
    w: int,
    h: int,
    sx: usize,
    sy: usize,
    t: Cell,
    n: Cell,
    vis: Seq<Vec<bool>>,
    r: Seq<CellMutation>,
    pre_st: Seq<(usize, usize)>,
    p: (usize, usize),
)
    requires
        fill_inv(g, w, h, sx, sy, t, n, vis, r, pre_st),
        pre_st.len() > 0,
        pre_st.last() == p,
        !((p.0 as int) < w && (p.1 as int) < h && grid_get(g, p.0 as int, p.1 as int) == t
            && !bval(vis, p.0 as int, p.1 as int)),
    ensures
        fill_inv(g, w, h, sx, sy, t, n, vis, r, pre_st.drop_last()),
{
    let st = pre_st.drop_last();
    assert(forall|k: int| 0 <= k < st.len() ==> #[trigger] st[k] == pre_st[k]);
    assert forall|c: (usize, usize)|
        #[trigger] frontier_owed(g, vis, w, h, sx, sy, t, c) implies in_stack(st, c) by {
        assert(in_stack(pre_st, c));
        let k = choose|k: int| 0 <= k < pre_st.len() && pre_st[k] == c;
        if k == pre_st.len() - 1 {
            assert(c == p);
            assert(false);
        } else {
            assert(st[k] == pre_st[k]);
        }
    }
}

/// After processing a cell: the extended stack still holds only the seed
/// and neighbors of visited cells, and still owes every frontier cell.
proof fn lemma_fill_process_stack(
    g: Seq<Seq<Cell>>,
    w: int,
    h: int,
    sx: usize,
    sy: usize,
    t: Cell,
    vis_old: Seq<Vec<bool>>,
    vis_new: Seq<Vec<bool>>,
    full: Seq<(usize, usize)>,
    fin: Seq<(usize, usize)>,
    p: (usize, usize),
)
    requires
        (p.0 as int) < w,
        (p.1 as int) < h,
        full.len() > 0,
        full.last() == p,
        forall|xx: int, yy: int|
            0 <= xx < w && 0 <= yy < h ==> #[trigger] bval(vis_new, xx, yy) == (bval(
                vis_old,
                xx,
                yy,
            ) || (xx == p.0 && yy == p.1)),
        bval(vis_new, p.0 as int, p.1 as int),
        forall|k: int|
            0 <= k < full.len() ==> (#[trigger] full[k]) == (sx, sy) || borders_visited(
                vis_old,
                w,
                h,
                full[k],
            ),
        forall|c: (usize, usize)|
            #[trigger] frontier_owed(g, vis_old, w, h, sx, sy, t, c) ==> in_stack(full, c),
        fin.len() >= full.len() - 1,
        forall|k: int| 0 <= k < full.len() - 1 ==> #[trigger] fin[k] == full[k],
        forall|k: int| full.len() - 1 <= k < fin.len() ==> adjacent(p, #[trigger] fin[k]),
        p.0 > 0 ==> in_stack(fin, ((p.0 - 1) as usize, p.1)),
        (p.0 + 1) < w ==> in_stack(fin, ((p.0 + 1) as usize, p.1)),
        p.1 > 0 ==> in_stack(fin, (p.0, (p.1 - 1) as usize)),
        (p.1 + 1) < h ==> in_stack(fin, (p.0, (p.1 + 1) as usize)),
    ensures
        forall|k: int|
            0 <= k < fin.len() ==> (#[trigger] fin[k]) == (sx, sy) || borders_visited(
                vis_new,
                w,
                h,
                fin[k],
            ),
        forall|c: (usize, usize)|
            #[trigger] frontier_owed(g, vis_new, w, h, sx, sy, t, c) ==> in_stack(fin, c),
{
    assert forall|k: int|
        0 <= k < fin.len() implies (#[trigger] fin[k]) == (sx, sy) || borders_visited(
        vis_new,
        w,
        h,
        fin[k],
    ) by {
        let e = fin[k];
        if k < full.len() - 1 {
            assert(full[k] == e);
            if e != (sx, sy) {
                assert(borders_visited(vis_old, w, h, e));
                let v = choose|v: (usize, usize)|
                    (v.0 as int) < w && (v.1 as int) < h && bval(vis_old, v.0 as int, v.1 as int)
                        && #[trigger] adjacent(v, e);
                assert(bval(vis_new, v.0 as int, v.1 as int));
                assert(borders_visited(vis_new, w, h, e));
            }
        } else {
            assert(adjacent(p, e));
            assert(borders_visited(vis_new, w, h, e));
        }
    }
    assert forall|c: (usize, usize)|
        #[trigger] frontier_owed(g, vis_new, w, h, sx, sy, t, c) implies in_stack(fin, c) by {
        if c == (sx, sy) || borders_visited(vis_old, w, h, c) {
            assert(frontier_owed(g, vis_old, w, h, sx, sy, t, c));
            assert(in_stack(full, c));
            let k = choose|k: int| 0 <= k < full.len() && full[k] == c;
            if k == full.len() - 1 {
                assert(c == p);
                assert(bval(vis_new, c.0 as int, c.1 as int));
                assert(false);
            } else {
                assert(fin[k] == full[k]);
                assert(in_stack(fin, c));
            }
        } else {
            let v = choose|v: (usize, usize)|
                (v.0 as int) < w && (v.1 as int) < h && bval(vis_new, v.0 as int, v.1 as int)
                    && #[trigger] adjacent(v, c);
            assert(v == p) by {
                if v != p {
                    assert(bval(vis_old, v.0 as int, v.1 as int));
                    assert(borders_visited(vis_old, w, h, c));
                }
            }
            assert(adjacent(p, c));
            if c.0 == p.0 && c.1 == p.1 + 1 {
                assert(in_stack(fin, c));
            } else if c.0 == p.0 && c.1 + 1 == p.1 {
                assert(in_stack(fin, c));
            } else if c.1 == p.1 && c.0 == p.0 + 1 {
                assert(in_stack(fin, c));
            } else {
                assert(c.1 == p.1 && c.0 + 1 == p.0);
                assert(in_stack(fin, c));
            }
        }
    }
}

/// Process one coordinate of the fill: mark it visited, record its
/// mutation, and queue its 4-connected neighbors.
#[verifier::rlimit(100)]
fn fill_process(
    canvas: &Canvas,
    visited: &mut Vec<Vec<bool>>,
    r: &mut Vec<CellMutation>,
    stack: &mut Vec<(usize, usize)>,
    x: usize,
    y: usize,
    cell: Cell,
    target: Cell,
    new: Cell,
    start_x: usize,
    start_y: usize,
)
    requires
        canvas.wf(),
        start_x < canvas.width,
        start_y < canvas.height,
        target == grid_get(canvas@, start_x as int, start_y as int),
        x < canvas.width,
        y < canvas.height,
        cell == grid_get(canvas@, x as int, y as int),
        cell == target,
        !bval(old(visited)@, x as int, y as int),
        (x, y) == (start_x, start_y) || borders_visited(
            old(visited)@,
            canvas.width as int,
            canvas.height as int,
            (x, y),
        ),
        fill_inv(
            canvas@,
            canvas.width as int,
            canvas.height as int,
            start_x,
            start_y,
            target,
            new,
            old(visited)@,
            old(r)@,
            old(stack)@.push((x, y)),
        ),
    ensures
        fill_inv(
            canvas@,
            canvas.width as int,
            canvas.height as int,
            start_x,
            start_y,
            target,
            new,
            final(visited)@,
            final(r)@,
            final(stack)@,
        ),
        bmap_falses(final(visited)@) == bmap_falses(old(visited)@) - 1,
{
    let w = canvas.width;
    let h = canvas.height;
    let ghost g = canvas@;
    let ghost pre_vis = visited@;
    let ghost old_r = r@;
    let p = (x, y);
    proof {
        if p == (start_x, start_y) {
            lemma_reachable_seed(g, start_x, start_y, target);
        } else {
            let v = choose|v: (usize, usize)|
                (v.0 as int) < w && (v.1 as int) < h && bval(pre_vis, v.0 as int, v.1 as int)
                    && #[trigger] adjacent(v, p);
            lemma_reachable_step(g, start_x, start_y, target, v, p);
        }
        assert(reachable(g, start_x, start_y, target, p));
        assert(visited@[y as int]@.len() == w);
    }
    let row: &mut Vec<bool> = &mut visited[y];
    row.set(x, true);
    proof {
        assert(forall|xx: int, yy: int|
            0 <= xx < w && 0 <= yy < h ==> #[trigger] bval(visited@, xx, yy) == (bval(
                pre_vis,
                xx,
                yy,
            ) || (xx == x && yy == y)));
        lemma_bmap_falses_update(pre_vis, visited@, x as int, y as int);
    }
    r.push(CellMutation { x, y, old: cell, new });
    proof {
        assert(r@[r@.len() - 1].x == x && r@[r@.len() - 1].y == y);
        assert(has_coord(r@, x, y));
        assert(forall|i: int| 0 <= i < old_r.len() ==> r@[i] == #[trigger] old_r[i]);
        assert forall|xx: int, yy: int|
            0 <= xx < w && 0 <= yy < h && #[trigger] bval(visited@, xx, yy) implies has_coord(
            r@,
            xx as usize,
            yy as usize,
        ) by {
            if bval(pre_vis, xx, yy) {
                let i = choose|i: int|
                    0 <= i < old_r.len() && (#[trigger] old_r[i]).x == xx as usize && old_r[i].y
                        == yy as usize;
                assert(r@[i].x == xx as usize && r@[i].y == yy as usize);
            } else {
                assert(xx == x && yy == y);
            }
        }
    }
    let ghost base = stack@;
    let ghost full = stack@.push(p);
    if x > 0 {
        stack.push((x - 1, y));
        proof {
            assert(stack@[stack@.len() - 1] == ((x - 1) as usize, y));
            assert(in_stack(stack@, ((x - 1) as usize, y)));
            assert(adjacent(p, ((x - 1) as usize, y)));
            assert(forall|k: int|
                base.len() <= k < stack@.len() ==> adjacent(p, #[trigger] stack@[k]));
        }
    }
    if x + 1 < w {
        let ghost before = stack@;
        stack.push((x + 1, y));
        proof {
            assert(stack@[stack@.len() - 1] == ((x + 1) as usize, y));
            assert(in_stack(stack@, ((x + 1) as usize, y)));
            assert(adjacent(p, ((x + 1) as usize, y)));
            if x > 0 {
                lemma_in_stack_push(before, ((x - 1) as usize, y), ((x + 1) as usize, y));
            }
            assert(forall|k: int|
                base.len() <= k < stack@.len() ==> adjacent(p, #[trigger] stack@[k]));
        }
    }
    if y > 0 {
        let ghost before = stack@;
        stack.push((x, y - 1));
        proof {
            assert(stack@[stack@.len() - 1] == (x, (y - 1) as usize));
            assert(in_stack(stack@, (x, (y - 1) as usize)));
            assert(adjacent(p, (x, (y - 1) as usize)));
            if x > 0 {
                lemma_in_stack_push(before, ((x - 1) as usize, y), (x, (y - 1) as usize));
            }
            if x + 1 < w {
                lemma_in_stack_push(before, ((x + 1) as usize, y), (x, (y - 1) as usize));
            }
            assert(forall|k: int|
                base.len() <= k < stack@.len() ==> adjacent(p, #[trigger] stack@[k]));
        }
    }
    if y + 1 < h {
        let ghost before = stack@;
        stack.push((x, y + 1));
        proof {
            assert(stack@[stack@.len() - 1] == (x, (y + 1) as usize));
            assert(in_stack(stack@, (x, (y + 1) as usize)));
            assert(adjacent(p, (x, (y + 1) as usize)));
            if x > 0 {
                lemma_in_stack_push(before, ((x - 1) as usize, y), (x, (y + 1) as usize));
            }
            if x + 1 < w {
                lemma_in_stack_push(before, ((x + 1) as usize, y), (x, (y + 1) as usize));
            }
            if y > 0 {
                lemma_in_stack_push(before, (x, (y - 1) as usize), (x, (y + 1) as usize));
            }
            assert(forall|k: int|
                base.len() <= k < stack@.len() ==> adjacent(p, #[trigger] stack@[k]));
        }
    }
    proof {
        assert(forall|k: int| 0 <= k < base.len() ==> #[trigger] stack@[k] == base[k]);
        assert(forall|k: int| 0 <= k < full.len() - 1 ==> #[trigger] stack@[k] == full[k]);
        assert(forall|k: int|
            full.len() - 1 <= k < stack@.len() ==> adjacent(p, #[trigger] stack@[k]));
        lemma_fill_process_stack(
            g,
            w as int,
            h as int,
            start_x,
            start_y,
            target,
            pre_vis,
            visited@,
            full,
            stack@,
            p,
        );
    }
}

/// Iterative flood fill from (start_x, start_y): the seed's cell is the
/// target to replace, and the whole 4-connected region of that value is
/// rewritten to the new cell. The list holds exactly one mutation for each
/// reachable coordinate; an out-of-bounds seed, or a target already equal
/// to the replacement, yields no mutations.
#[verifier::rlimit(60)]
pub fn flood_fill(
    canvas: &Canvas,
    start_x: usize,
    start_y: usize,
    ch: char,
    fg: Option<Rgb>,
    bg: Option<Rgb>,
) -> (r: Vec<CellMutation>)
    requires
        canvas.wf(),
    ensures
        ({
            let g = canvas@;
            let n = Cell { ch, fg, bg };
            if !(start_x < canvas.width && start_y < canvas.height) {
                r@ == Seq::<CellMutation>::empty()
            } else {
                let t = grid_get(g, start_x as int, start_y as int);
                if t == n {
                    r@ == Seq::<CellMutation>::empty()
                } else {
                    &&& forall|i: int|
                        0 <= i < r@.len() ==> grid_in_bounds(
                            g,
                            (#[trigger] r@[i]).x as int,
                            r@[i].y as int,
                        ) && r@[i].old == t && r@[i].old == grid_get(
                            g,
                            r@[i].x as int,
                            r@[i].y as int,
                        ) && r@[i].new == n
                    &&& distinct_coords(r@)
                    &&& forall|x: usize, y: usize|
                        #[trigger] has_coord(r@, x, y) <==> reachable(
                            g,
                            start_x,
                            start_y,
                            t,
                            (x, y),
                        )
                }
            }
        }),
{
    let w = canvas.width;
    let h = canvas.height;
    let new = Cell { ch, fg, bg };
    let ghost g = canvas@;
    let mut r: Vec<CellMutation> = Vec::new();

    let target = match canvas.get(start_x, start_y) {
        Some(cell) => cell,
        None => {
            proof {
                assert(r@ =~= Seq::<CellMutation>::empty());
            }
            return r;
        },
    };
    if target == new {
        proof {
            assert(r@ =~= Seq::<CellMutation>::empty());
        }
        return r;
    }

    let mut visited: Vec<Vec<bool>> = Vec::new();
    let mut yy: usize = 0;
    while yy < h
        invariant
            yy <= h,
            visited@.len() == yy,
            forall|j: int| 0 <= j < yy ==> (#[trigger] visited@[j])@ =~= Seq::new(
                w as nat,
                |i: int| false,
            ),
        decreases h - yy,
    {
        let mut row: Vec<bool> = Vec::new();
        let mut xx: usize = 0;
        while xx < w
            invariant
                xx <= w,
                row@ =~= Seq::new(xx as nat, |i: int| false),
            decreases w - xx,
        {
            row.push(false);
            xx = xx + 1;
            proof {
                assert(row@ =~= Seq::new(xx as nat, |i: int| false));
            }
        }
        visited.push(row);
        yy = yy + 1;
    }

    let mut stack: Vec<(usize, usize)> = Vec::new();
    stack.push((start_x, start_y));

    proof {
        assert(forall|x: int, y: int|
            0 <= x < w && 0 <= y < h ==> !#[trigger] bval(visited@, x, y));
        assert(stack@[0] == (start_x, start_y));
        assert forall|c: (usize, usize)|
            #[trigger] frontier_owed(g, visited@, w as int, h as int, start_x, start_y, target, c)
            implies in_stack(stack@, c) by {
            if c != (start_x, start_y) {
                let v = choose|v: (usize, usize)|
                    (v.0 as int) < w && (v.1 as int) < h && bval(visited@, v.0 as int, v.1 as int)
                        && #[trigger] adjacent(v, c);
                assert(false);
            }
        }
        assert(fill_inv(g, w as int, h as int, start_x, start_y, target, new, visited@, r@, stack@));
    }

    loop
        invariant_except_break
            canvas.wf(),
            g == canvas@,
            w == canvas.width,
            h == canvas.height,
            start_x < w,
            start_y < h,
            target == grid_get(g, start_x as int, start_y as int),
            target != new,
            new == (Cell { ch, fg, bg }),
            fill_inv(g, w as int, h as int, start_x, start_y, target, new, visited@, r@, stack@),
        ensures
            stack@.len() == 0,
            g == canvas@,
            fill_inv(g, w as int, h as int, start_x, start_y, target, new, visited@, r@, stack@),
        decreases bmap_falses(visited@), stack@.len(),
    {
        let ghost pre_stack = stack@;
        let popped = stack.pop();
        match popped {
            None => {
                break ;
            },
            Some(p) => {
                let (x, y) = p;
                proof {
                    assert(pre_stack.last() == p);
                }
                let mut skip = true;
                if x < w && y < h {
                    proof {
                        assert(visited@[y as int]@.len() == w);
                    }
                    if !visited[y][x] {
                        match canvas.get(x, y) {
                            Some(cell) => {
                                if cell == target {
                                    skip = false;
                                    proof {
                                        assert(pre_stack[pre_stack.len() - 1] == p);
                                        assert(p == (start_x, start_y) || borders_visited(
                                            visited@,
                                            w as int,
                                            h as int,
                                            p,
                                        ));
                                        assert(stack@.push(p) =~= pre_stack);
                                        assert(stack@.push(p) == pre_stack);
                                    }
                                    fill_process(
                                        canvas,
                                        &mut visited,
                                        &mut r,
                                        &mut stack,
                                        x,
                                        y,
                                        cell,
                                        target,
                                        new,
                                        start_x,
                                        start_y,
                                    );
                                }
                            },
                            None => {},
                        }
                    }
                }
                if skip {
                    proof {
                        lemma_fill_skip(
                            g,
                            w as int,
                            h as int,
                            start_x,
                            start_y,
                            target,
                            new,
                            visited@,
                            r@,
                            pre_stack,
                            p,
                        );
                    }
                }
                proof {
                    lemma_bmap_falses_nonneg(visited@);
                }
            },
        }
    }
    proof {
        assert forall|x: usize, y: usize| #[trigger]
            has_coord(r@, x, y) <==> reachable(g, start_x, start_y, target, (x, y)) by {
            if has_coord(r@, x, y) {
                let i = choose|i: int|
                    0 <= i < r@.len() && (#[trigger] r@[i]).x == x && r@[i].y == y;
                assert(bval(visited@, x as int, y as int));
                assert(reachable(g, start_x, start_y, target, (x, y)));
            }
            if reachable(g, start_x, start_y, target, (x, y)) {
                let p = choose|p: Seq<(usize, usize)>|
                    p.len() > 0 && p.first() == (start_x, start_y) && p.last() == (x, y)
                        && path_ok(g, target, p);
                assert forall|c: (usize, usize)|
                    !#[trigger] frontier_owed(
                        g,
                        visited@,
                        w as int,
                        h as int,
                        start_x,
                        start_y,
                        target,
                        c,
                    ) by {
                    if frontier_owed(g, visited@, w as int, h as int, start_x, start_y, target, c) {
                        assert(in_stack(stack@, c));
                        let k = choose|k: int| 0 <= k < stack@.len() && stack@[k] == c;
                        assert(false);
                    }
                }
                assert(bval(visited@, start_x as int, start_y as int)) by {
                    if !bval(visited@, start_x as int, start_y as int) {
                        assert(frontier_owed(
                            g,
                            visited@,
                            w as int,
                            h as int,
                            start_x,
                            start_y,
                            target,
                            (start_x, start_y),
                        ));
                        assert(false);
                    }
                }
                lemma_closed_visited_covers(
                    g,
                    visited@,
                    w as int,
                    h as int,
                    start_x,
                    start_y,
                    target,
                    p,
                );
                assert(bval(visited@, x as int, y as int));
                assert(has_coord(r@, x, y));
            }
        }
    }
    r
}


/// **Flood fill boundary**: every cell a fill can reach holds the target
/// value, so a fill started inside a region enclosed by differently-colored
/// border cells never modifies the border or anything beyond it.
pub proof fn lemma_flood_fill_boundary(
    g: Seq<Seq<Cell>>,
    sx: usize,
    sy: usize,
    t: Cell,
    c: (usize, usize),
)
    requires
        reachable(g, sx, sy, t, c),
    ensures
        grid_in_bounds(g, c.0 as int, c.1 as int),
        grid_get(g, c.0 as int, c.1 as int) == t,
{
    let p = choose|p: Seq<(usize, usize)>|
        p.len() > 0 && p.first() == (sx, sy) && p.last() == c && path_ok(g, t, p);
    assert(p[p.len() - 1] == c);
}

} // verus!
