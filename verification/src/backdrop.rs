//! The volumetric backdrop: every cell of the field cleared to a blank whose
//! background shows the light of the beams there.

use vstd::prelude::*;
use crate::cell::{GridCell, Rgb, black};

verus! {

/// The blank backdrop cell with background `shade`.
pub open spec fn backdrop_cell(shade: Rgb) -> GridCell {
    GridCell { ch: ' ', fg: black(), bg: shade, bold: false }
}

/// Grid `g` with its first `rows * cols` cells (the field, row after row)
/// replaced by blank cells shaded with `shades`; the cells past the field stay.
pub open spec fn backdrop_layer(g: Seq<GridCell>, cols: nat, rows: nat, shades: Seq<Rgb>) -> Seq<GridCell> {
    Seq::new(g.len(), |k: int| if k < rows * cols { backdrop_cell(shades[k]) } else { g[k] })
}

/// Clears the field to blank cells with black glyph colour, no boldness, and
/// the beam light of each cell (`shades`, row after row) as its background.
pub fn draw_spotlight(grid: &mut Vec<GridCell>, cols: usize, rows: usize, shades: &Vec<Rgb>)
    requires
        rows * cols <= old(grid)@.len(),
        shades@.len() == rows * cols,
    ensures
        final(grid)@ == backdrop_layer(old(grid)@, cols as nat, rows as nat, shades@),
        final(grid)@.len() == old(grid)@.len(),
{
    let ghost g0 = grid@;
    let area = shades.len();
    let mut k: usize = 0;
    while k < area
        invariant
            area == rows * cols,
            area == shades@.len(),
            k <= area,
            grid@.len() == g0.len(),
            rows * cols <= g0.len(),
            forall|j: int| 0 <= j < grid@.len() ==> #[trigger] grid@[j] == (if j < k { backdrop_cell(shades@[j]) } else { g0[j] }),
        decreases area - k,
    {
        grid.set(k, GridCell { ch: ' ', fg: Rgb { r: 0, g: 0, b: 0 }, bg: shades[k], bold: false });
        k += 1;
    }
    assert(grid@ =~= backdrop_layer(g0, cols as nat, rows as nat, shades@));
}

} // verus!
