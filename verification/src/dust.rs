//! The dust layer: motes lit by a beam show up over blank cells and flare arms.

use vstd::prelude::*;
use crate::cell::{GridCell, Rgb, index_of, cell_index};
use crate::flare::{H_ARM, V_ARM};

verus! {

/// A dust mote as the grid sees it in one frame: the cell it falls on,
/// whether a beam lights it enough to be seen, and how it is drawn.
pub struct DustMote {
    pub px: usize,
    pub py: usize,
    pub lit: bool,
    pub glyph: char,
    pub fg: Rgb,
}

/// Dust shows over a blank cell or a flare arm, never over a star or another mote.
pub open spec fn dust_may_cover(ch: char) -> bool {
    ch == ' ' || ch == H_ARM || ch == V_ARM
}

/// Grid `g` after mote `m` is drawn: a lit mote inside the `cols` by `rows`
/// field whose cell may be covered takes that cell's glyph and colour
/// (background and boldness stay); otherwise nothing changes.
pub open spec fn paint_dust(g: Seq<GridCell>, cols: nat, rows: nat, m: DustMote) -> Seq<GridCell> {
    let k = index_of(cols, m.px as nat, m.py as nat) as int;
    if m.px < cols && m.py < rows && m.lit && dust_may_cover(g[k].ch) {
        g.update(k, GridCell { ch: m.glyph, fg: m.fg, bg: g[k].bg, bold: g[k].bold })
    } else {
        g
    }
}

/// Grid `g` after the motes are drawn one after another, in order.
pub open spec fn dust_layer(g: Seq<GridCell>, cols: nat, rows: nat, motes: Seq<DustMote>) -> Seq<GridCell>
    decreases motes.len(),
{
    if motes.len() == 0 {
        g
    } else {
        paint_dust(dust_layer(g, cols, rows, motes.drop_last()), cols, rows, motes.last())
    }
}

/// Draws the dust layer (see `paint_dust`), one mote after another.
pub fn draw_dust(grid: &mut Vec<GridCell>, cols: usize, rows: usize, motes: &Vec<DustMote>)
    requires
        rows * cols <= old(grid)@.len(),
    ensures
        final(grid)@ == dust_layer(old(grid)@, cols as nat, rows as nat, motes@),
        final(grid)@.len() == old(grid)@.len(),
{
    let ghost g0 = grid@;
    let n = grid.len();
    let mut i: usize = 0;
    while i < motes.len()
        invariant
            i <= motes@.len(),
            rows * cols <= n,
            grid@.len() == n,
            grid@ == dust_layer(g0, cols as nat, rows as nat, motes@.take(i as int)),
        decreases motes@.len() - i,
    {
        let m = &motes[i];
        if m.px < cols && m.py < rows && m.lit {
            let k = cell_index(cols, rows, m.px, m.py);
            let cur = grid[k];
            if cur.ch == ' ' || cur.ch == H_ARM || cur.ch == V_ARM {
                grid.set(k, GridCell { ch: m.glyph, fg: m.fg, bg: cur.bg, bold: cur.bold });
            }
        }
        proof {
            assert(motes@.take(i + 1).drop_last() =~= motes@.take(i as int));
        }
        i += 1;
    }
    assert(motes@.take(motes@.len() as int) =~= motes@);
}

} // verus!
