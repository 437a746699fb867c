//! Export of the canvas to plain representations. The terminal escape
//! rendering lives with the front-end; the plain-text form, one glyph per
//! cell with one line per row, is built here.

use vstd::prelude::*;

use crate::canvas::Canvas;
use crate::cell::{push_char, Cell};

verus! {

/// Color depth of an export.
#[derive(Clone, Copy, PartialEq, Eq, Structural, Debug)]
pub enum ColorFormat {
    TrueColor,
    Color256,
    Color16,
}

/// The plain-text form of one row: each cell's glyph in order.
pub open spec fn row_text(row: Seq<Cell>) -> Seq<char>
    decreases row.len(),
{
    if row.len() == 0 {
        Seq::empty()
    } else {
        seq![row[0].ch] + row_text(row.drop_first())
    }
}

/// The plain-text form of a grid: each row's glyphs followed by a newline.
pub open spec fn grid_text(g: Seq<Seq<Cell>>) -> Seq<char>
    decreases g.len(),
{
    if g.len() == 0 {
        Seq::empty()
    } else {
        row_text(g[0]) + seq!['\n'] + grid_text(g.drop_first())
    }
}

/// Render the canvas as plain text: one character per cell, one line per
/// row, colors discarded.
pub fn to_plain_text(canvas: &Canvas) -> (out: String)
    requires
        canvas.wf(),
    ensures
        out@ == grid_text(canvas@),
{
    let mut out = String::new();
    let ghost g = canvas@;
    let mut y: usize = 0;
    proof {
        assert(out@ =~= Seq::<char>::empty());
        assert(g.skip(0) =~= g);
    }
    while y < canvas.height
        invariant
            canvas.wf(),
            g == canvas@,
            y <= canvas.height,
            grid_text(g) == out@ + grid_text(g.skip(y as int)),
        decreases canvas.height - y,
    {
        let ghost row = g[y as int];
        let ghost rest = g.skip(y as int);
        proof {
            assert(rest[0] == row);
            assert(rest.drop_first() =~= g.skip(y + 1));
        }
        let mut x: usize = 0;
        let ghost row_start = out@;
        while x < canvas.width
            invariant
                canvas.wf(),
                g == canvas@,
                y < canvas.height,
                x <= canvas.width,
                row == g[y as int],
                out@ == row_start + row_text(row.take(x as int)),
            decreases canvas.width - x,
        {
            match canvas.get(x, y) {
                Some(cell) => {
                    push_char(&mut out, cell.ch);
                    proof {
                        lemma_row_text_push(row.take(x as int), row[x as int]);
                        assert(row.take(x + 1) =~= row.take(x as int).push(row[x as int]));
                        assert(out@ =~= row_start + row_text(row.take(x + 1)));
                    }
                },
                None => {
                    proof {
                        assert(false);
                    }
                },
            }
            x = x + 1;
        }
        push_char(&mut out, '\n');
        proof {
            assert(row.take(canvas.width as int) =~= row);
            assert(out@ =~= row_start + (row_text(row) + seq!['\n']));
            assert(grid_text(rest) == row_text(row) + seq!['\n'] + grid_text(g.skip(y + 1)));
            assert(row_start + (row_text(row) + seq!['\n']) + grid_text(g.skip(y + 1)) =~= row_start
                + grid_text(rest));
        }
        y = y + 1;
    }
    proof {
        assert(g.skip(g.len() as int) =~= Seq::<Seq<Cell>>::empty());
        assert(out@ + Seq::<char>::empty() =~= out@);
    }
    out
}

proof fn lemma_row_text_push(row: Seq<Cell>, c: Cell)
    ensures
        row_text(row.push(c)) == row_text(row) + seq![c.ch],
    decreases row.len(),
{
    if row.len() == 0 {
        assert(row.push(c)[0] == c);
        assert(row.push(c).drop_first() =~= Seq::<Cell>::empty());
        assert(row_text(Seq::<Cell>::empty()) == Seq::<char>::empty());
        assert(row_text(row.push(c)) == seq![c.ch] + Seq::<char>::empty());
        assert(seq![c.ch] + Seq::<char>::empty() =~= seq![c.ch]);
        assert(row_text(row) + seq![c.ch] =~= seq![c.ch]);
    } else {
        assert(row.push(c)[0] == row[0]);
        assert(row.push(c).drop_first() =~= row.drop_first().push(c));
        lemma_row_text_push(row.drop_first(), c);
        assert(row_text(row.push(c)) == seq![row[0].ch] + (row_text(row.drop_first())
            + seq![c.ch]));
        assert(seq![row[0].ch] + (row_text(row.drop_first()) + seq![c.ch]) =~= (seq![row[0].ch]
            + row_text(row.drop_first())) + seq![c.ch]);
    }
}

} // verus!
