//! Axis-mirrored drawing: expands a mutation list across the grid's mirror
//! axes, de-duplicating coordinates and re-sampling every `old` value from
//! the live grid. Expansion must run before any mutation is applied.

use vstd::prelude::*;

use crate::canvas::{grid_get, grid_in_bounds, Canvas};
use crate::cell::Cell;
use crate::history::{muts_consistent, CellMutation};
use crate::tools::has_coord;

verus! {

/// Which mirror axes are active.
#[derive(Clone, Copy, PartialEq, Eq, Structural, Debug)]
pub enum SymmetryMode {
    Off,
    Horizontal,
    Vertical,
    Quad,
}

/// The mirror coordinates of one coordinate under a mode, in emission
/// order: the original first, then its reflections.
pub open spec fn mirrors(x: usize, y: usize, mode: SymmetryMode, w: int, h: int) -> Seq<
    (usize, usize),
> {
    let mx = (w - 1 - x) as usize;
    let my = (h - 1 - y) as usize;
    match mode {
        SymmetryMode::Off => seq![(x, y)],
        SymmetryMode::Horizontal => seq![(x, y), (mx, y)],
        SymmetryMode::Vertical => seq![(x, y), (x, my)],
        SymmetryMode::Quad => seq![(x, y), (mx, y), (x, my), (mx, my)],
    }
}

/// A coordinate paired with the cell to write there.
pub open spec fn pair_seq(coords: Seq<(usize, usize)>, n: Cell) -> Seq<((usize, usize), Cell)> {
    coords.map_values(|c: (usize, usize)| (c, n))
}

/// The flat sequence of (mirror coordinate, new cell) pairs of a mutation
/// list, in emission order.
pub open spec fn mutation_pairs(
    ms: Seq<CellMutation>,
    mode: SymmetryMode,
    w: int,
    h: int,
) -> Seq<((usize, usize), Cell)>
    decreases ms.len(),
{
    if ms.len() == 0 {
        Seq::empty()
    } else {
        pair_seq(mirrors(ms[0].x, ms[0].y, mode, w, h), ms[0].new) + mutation_pairs(
            ms.drop_first(),
            mode,
            w,
            h,
        )
    }
}

/// Fold the pairs into a mutation list: each first occurrence of a
/// coordinate emits one mutation whose `old` value is re-sampled from the
/// live grid; repeated coordinates are dropped.
pub open spec fn expand_rec(
    g: Seq<Seq<Cell>>,
    pairs: Seq<((usize, usize), Cell)>,
    acc: Seq<CellMutation>,
) -> Seq<CellMutation>
    decreases pairs.len(),
{
    if pairs.len() == 0 {
        acc
    } else {
        let c = pairs[0].0;
        let n = pairs[0].1;
        if has_coord(acc, c.0, c.1) {
            expand_rec(g, pairs.drop_first(), acc)
        } else {
            expand_rec(
                g,
                pairs.drop_first(),
                acc.push(
                    CellMutation {
                        x: c.0,
                        y: c.1,
                        old: grid_get(g, c.0 as int, c.1 as int),
                        new: n,
                    },
                ),
            )
        }
    }
}

/// The full expansion of a mutation list under a mode against a grid.
pub open spec fn expand_spec(
    g: Seq<Seq<Cell>>,
    ms: Seq<CellMutation>,
    mode: SymmetryMode,
    w: int,
    h: int,
) -> Seq<CellMutation> {
    expand_rec(g, mutation_pairs(ms, mode, w, h), Seq::empty())
}

proof fn lemma_expand_rec_concat(
    g: Seq<Seq<Cell>>,
    a: Seq<((usize, usize), Cell)>,
    b: Seq<((usize, usize), Cell)>,
    acc: Seq<CellMutation>,
)
    ensures
        expand_rec(g, a + b, acc) == expand_rec(g, b, expand_rec(g, a, acc)),
    decreases a.len(),
{
    if a.len() == 0 {
        assert(a + b =~= b);
    } else {
        assert((a + b)[0] == a[0]);
        assert((a + b).drop_first() =~= a.drop_first() + b);
        let c = a[0].0;
        let n = a[0].1;
        if has_coord(acc, c.0, c.1) {
            lemma_expand_rec_concat(g, a.drop_first(), b, acc);
        } else {
            lemma_expand_rec_concat(
                g,
                a.drop_first(),
                b,
                acc.push(
                    CellMutation {
                        x: c.0,
                        y: c.1,
                        old: grid_get(g, c.0 as int, c.1 as int),
                        new: n,
                    },
                ),
            );
        }
    }
}

/// Whether some mutation in the list targets coordinate (x, y).
fn contains_coord(r: &Vec<CellMutation>, x: usize, y: usize) -> (found: bool)
    ensures
        found == has_coord(r@, x, y),
{
    let mut i: usize = 0;
    while i < r.len()
        invariant
            i <= r@.len(),
            forall|j: int| 0 <= j < i ==> !((#[trigger] r@[j]).x == x && r@[j].y == y),
        decreases r@.len() - i,
    {
        if r[i].x == x && r[i].y == y {
            return true;
        }
        i = i + 1;
    }
    false
}

/// Expand a mutation list across the axes a mode enables. Each input
/// mutation yields up to four coordinates, the original included;
/// coordinates are de-duplicated in emission order, and every emitted
/// mutation's `old` value is re-sampled from the live grid, never copied
/// from the source mutation.
pub fn expand_symmetry(canvas: &Canvas, mutations: &Vec<CellMutation>, mode: SymmetryMode) -> (r:
    Vec<CellMutation>)
    requires
        canvas.wf(),
        forall|i: int|
            0 <= i < mutations@.len() ==> (#[trigger] mutations@[i]).x < canvas.width
                && mutations@[i].y < canvas.height,
    ensures
        r@ == expand_spec(canvas@, mutations@, mode, canvas.width as int, canvas.height as int),
{
    let w = canvas.width;
    let h = canvas.height;
    let ghost g = canvas@;
    let ghost all = expand_spec(g, mutations@, mode, w as int, h as int);
    let mut r: Vec<CellMutation> = Vec::new();
    proof {
        assert(r@ =~= Seq::<CellMutation>::empty());
        assert(mutations@.skip(0) =~= mutations@);
    }
    let mut i: usize = 0;
    while i < mutations.len()
        invariant
            canvas.wf(),
            g == canvas@,
            w == canvas.width,
            h == canvas.height,
            i <= mutations@.len(),
            forall|k: int|
                0 <= k < mutations@.len() ==> (#[trigger] mutations@[k]).x < w && mutations@[k].y
                    < h,
            all == expand_spec(g, mutations@, mode, w as int, h as int),
            all == expand_rec(g, mutation_pairs(mutations@.skip(i as int), mode, w as int, h as int), r@),
        decreases mutations@.len() - i,
    {
        let m = mutations[i];
        let mut coords: Vec<(usize, usize)> = Vec::new();
        coords.push((m.x, m.y));
        match mode {
            SymmetryMode::Off => {},
            SymmetryMode::Horizontal => {
                coords.push((w - 1 - m.x, m.y));
            },
            SymmetryMode::Vertical => {
                coords.push((m.x, h - 1 - m.y));
            },
            SymmetryMode::Quad => {
                coords.push((w - 1 - m.x, m.y));
                coords.push((m.x, h - 1 - m.y));
                coords.push((w - 1 - m.x, h - 1 - m.y));
            },
        }
        proof {
            assert(coords@ =~= mirrors(m.x, m.y, mode, w as int, h as int));
            assert(forall|k: int|
                0 <= k < coords@.len() ==> ((#[trigger] coords@[k]).0 as int) < w && (
                coords@[k].1 as int) < h);
            assert(mutations@.skip(i as int)[0] == m);
            assert(mutations@.skip(i as int).drop_first() =~= mutations@.skip(i + 1));
            lemma_expand_rec_concat(
                g,
                pair_seq(mirrors(m.x, m.y, mode, w as int, h as int), m.new),
                mutation_pairs(mutations@.skip(i + 1), mode, w as int, h as int),
                r@,
            );
        }
        let ghost pairs = pair_seq(mirrors(m.x, m.y, mode, w as int, h as int), m.new);
        let mut j: usize = 0;
        proof {
            assert(pairs.skip(0) =~= pairs);
        }
        while j < coords.len()
            invariant
                canvas.wf(),
                g == canvas@,
                w == canvas.width,
                h == canvas.height,
                j <= coords@.len(),
                coords@ == mirrors(m.x, m.y, mode, w as int, h as int),
                forall|k: int|
                    0 <= k < coords@.len() ==> ((#[trigger] coords@[k]).0 as int) < w && (
                    coords@[k].1 as int) < h,
                pairs == pair_seq(coords@, m.new),
                expand_rec(
                    g,
                    mutation_pairs(mutations@.skip(i + 1), mode, w as int, h as int),
                    expand_rec(g, pairs.skip(j as int), r@),
                ) == all,
            decreases coords@.len() - j,
        {
            let (cx, cy) = coords[j];
            let ghost before = r@;
            proof {
                assert(coords@[j as int] == (cx, cy));
                assert(cx < w && cy < h);
                assert(pairs.skip(j as int)[0] == ((cx, cy), m.new));
                assert(pairs.skip(j as int).drop_first() =~= pairs.skip(j + 1));
            }
            let dup = contains_coord(&r, cx, cy);
            if !dup {
                match canvas.get(cx, cy) {
                    Some(old) => {
                        r.push(CellMutation { x: cx, y: cy, old, new: m.new });
                    },
                    None => {
                        proof {
                            assert(false);
                        }
                    },
                }
            }
            proof {
                assert(expand_rec(g, pairs.skip(j + 1), r@) == expand_rec(
                    g,
                    pairs.skip(j as int),
                    before,
                ));
            }
            j = j + 1;
        }
        proof {
            assert(pairs.skip(coords@.len() as int) =~= Seq::<((usize, usize), Cell)>::empty());
        }
        i = i + 1;
    }
    proof {
        assert(mutations@.skip(mutations@.len() as int) =~= Seq::<CellMutation>::empty());
    }
    r
}

/// Every expanded list is consistent with the grid it was expanded
/// against: coordinates are in bounds and de-duplicated, and each `old`
/// value is the grid's own cell. Together with the inversion law, this is
/// why a mirrored action still undoes exactly.
pub proof fn lemma_expand_consistent(
    g: Seq<Seq<Cell>>,
    ms: Seq<CellMutation>,
    mode: SymmetryMode,
    w: int,
    h: int,
)
    requires
        crate::canvas::grid_wf(g, w, h),
        w >= 1,
        h >= 1,
        forall|i: int| 0 <= i < ms.len() ==> (#[trigger] ms[i]).x < w && ms[i].y < h,
    ensures
        muts_consistent(g, expand_spec(g, ms, mode, w, h)),
{
    lemma_pairs_in_bounds(ms, mode, w, h);
    lemma_expand_rec_consistent(g, mutation_pairs(ms, mode, w, h), Seq::empty(), w, h);
}

/// All mirror coordinates of in-bounds mutations are in bounds.
proof fn lemma_pairs_in_bounds(ms: Seq<CellMutation>, mode: SymmetryMode, w: int, h: int)
    requires
        w >= 1,
        h >= 1,
        forall|i: int| 0 <= i < ms.len() ==> (#[trigger] ms[i]).x < w && ms[i].y < h,
    ensures
        forall|k: int|
            0 <= k < mutation_pairs(ms, mode, w, h).len() ==> ((#[trigger] mutation_pairs(
                ms,
                mode,
                w,
                h,
            )[k]).0.0 as int) < w && (mutation_pairs(ms, mode, w, h)[k].0.1 as int) < h,
    decreases ms.len(),
{
    if ms.len() > 0 {
        assert(forall|i: int|
            0 <= i < ms.drop_first().len() ==> (#[trigger] ms.drop_first()[i]).x < w
                && ms.drop_first()[i].y < h);
        lemma_pairs_in_bounds(ms.drop_first(), mode, w, h);
        let head = pair_seq(mirrors(ms[0].x, ms[0].y, mode, w, h), ms[0].new);
        assert(forall|k: int|
            0 <= k < head.len() ==> ((#[trigger] head[k]).0.0 as int) < w && (head[k].0.1 as int)
                < h);
        assert(forall|k: int|
            0 <= k < mutation_pairs(ms, mode, w, h).len() ==> #[trigger] mutation_pairs(
                ms,
                mode,
                w,
                h,
            )[k] == if k < head.len() {
                head[k]
            } else {
                mutation_pairs(ms.drop_first(), mode, w, h)[k - head.len()]
            });
    }
}

proof fn lemma_expand_rec_consistent(
    g: Seq<Seq<Cell>>,
    pairs: Seq<((usize, usize), Cell)>,
    acc: Seq<CellMutation>,
    w: int,
    h: int,
)
    requires
        crate::canvas::grid_wf(g, w, h),
        forall|k: int|
            0 <= k < pairs.len() ==> ((#[trigger] pairs[k]).0.0 as int) < w && (pairs[k].0.1
                as int) < h,
        muts_consistent(g, acc),
        forall|i: int| 0 <= i < acc.len() ==> (#[trigger] acc[i]).x < w && acc[i].y < h,
    ensures
        muts_consistent(g, expand_rec(g, pairs, acc)),
    decreases pairs.len(),
{
    if pairs.len() > 0 {
        let c = pairs[0].0;
        let n = pairs[0].1;
        if has_coord(acc, c.0, c.1) {
            lemma_expand_rec_consistent(g, pairs.drop_first(), acc, w, h);
        } else {
            let m = CellMutation { x: c.0, y: c.1, old: grid_get(g, c.0 as int, c.1 as int), new: n };
            let acc2 = acc.push(m);
            assert(muts_consistent(g, acc2)) by {
                assert(forall|i: int| 0 <= i < acc.len() ==> acc2[i] == #[trigger] acc[i]);
                assert(acc2[acc2.len() - 1] == m);
                assert forall|i: int, j: int|
                    0 <= i < j < acc2.len() implies !((#[trigger] acc2[i]).x
                    == (#[trigger] acc2[j]).x && acc2[i].y == acc2[j].y) by {
                    if j == acc2.len() - 1 {
                        if acc2[i].x == m.x && acc2[i].y == m.y {
                            assert(has_coord(acc, c.0, c.1));
                            assert(false);
                        }
                    }
                }
            }
            lemma_expand_rec_consistent(g, pairs.drop_first(), acc2, w, h);
        }
    }
}

} // verus!
