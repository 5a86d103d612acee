//! The star layer: each star drawn at its cell, the most excited ones with a
//! lens flare.

use vstd::prelude::*;
use crate::cell::{GridCell, Rgb, index_of, lemma_index_of, cell_index};
use crate::flare::{FlareArms, is_flare_selection, select_flares, flare_painted, paint_flare};

verus! {

/// A star as the grid sees it in one frame: the cell it falls on, how it is
/// drawn there, how excited it is (as an ordered key), and its flare arms.
pub struct StarSprite {
    pub sx: usize,
    pub sy: usize,
    pub glyph: char,
    pub fg: Rgb,
    pub bold: bool,
    pub flare_key: u32,
    pub arms: FlareArms,
}

/// Every star carries one flare colour for each distance its arms reach.
pub open spec fn sprites_well_formed(stars: Seq<StarSprite>) -> bool {
    forall|i: int| 0 <= i < stars.len() ==> (#[trigger] stars[i]).arms.well_formed()
}

/// The excitation keys of the stars, in star order.
pub open spec fn flare_keys(stars: Seq<StarSprite>) -> Seq<u32> {
    stars.map_values(|s: StarSprite| s.flare_key)
}

/// Grid `g` after star `s` is drawn: when the star's cell is inside the
/// `cols` by `rows` field, the cell takes the star's glyph, colour and
/// boldness (keeping its background) and, if the star flares, its flare is
/// painted; a star outside the field changes nothing.
pub open spec fn paint_star(g: Seq<GridCell>, cols: nat, rows: nat, s: StarSprite, flares: bool) -> Seq<GridCell> {
    if s.sx < cols && s.sy < rows {
        let k = index_of(cols, s.sx as nat, s.sy as nat) as int;
        let g1 = g.update(k, GridCell { ch: s.glyph, fg: s.fg, bg: g[k].bg, bold: s.bold });
        if flares {
            flare_painted(g1, cols, rows, s.sx as nat, s.sy as nat, s.arms)
        } else {
            g1
        }
    } else {
        g
    }
}

/// Grid `g` after the stars are drawn one after another, in order, those whose
/// position is listed in `flaring` with their flare.
pub open spec fn star_layer(g: Seq<GridCell>, cols: nat, rows: nat, stars: Seq<StarSprite>, flaring: Seq<usize>) -> Seq<GridCell>
    decreases stars.len(),
{
    if stars.len() == 0 {
        g
    } else {
        let n = (stars.len() - 1) as int;
        paint_star(star_layer(g, cols, rows, stars.drop_last(), flaring), cols, rows, stars[n], flaring.contains(n as usize))
    }
}

fn contains_index(v: &Vec<usize>, x: usize) -> (found: bool)
    ensures
        found == v@.contains(x),
{
    let mut i: usize = 0;
    while i < v.len()
        invariant
            i <= v@.len(),
            forall|j: int| 0 <= j < i ==> v@[j] != x,
        decreases v@.len() - i,
    {
        if v[i] == x {
            return true;
        }
        i += 1;
    }
    false
}

/// Draws star `s` on the grid (see `paint_star`).
pub fn draw_one_star(grid: &mut Vec<GridCell>, cols: usize, rows: usize, s: &StarSprite, flares: bool)
    requires
        rows * cols <= old(grid)@.len(),
        s.arms.well_formed(),
    ensures
        final(grid)@ == paint_star(old(grid)@, cols as nat, rows as nat, *s, flares),
        final(grid)@.len() == old(grid)@.len(),
{
    let _n = grid.len();
    if s.sx < cols && s.sy < rows {
        let k = cell_index(cols, rows, s.sx, s.sy);
        let bg = grid[k].bg;
        grid.set(k, GridCell { ch: s.glyph, fg: s.fg, bg, bold: s.bold });
        if flares {
            paint_flare(grid, cols, rows, s.sx, s.sy, &s.arms);
        }
    }
}

/// Draws the star layer: picks the flaring stars (the most excited ones whose
/// key is above `flare_threshold`, at most four), then draws every star in
/// order, with its flare when it was picked.
pub fn draw_star(grid: &mut Vec<GridCell>, cols: usize, rows: usize, stars: &Vec<StarSprite>, flare_threshold: u32)
    requires
        rows * cols <= old(grid)@.len(),
        sprites_well_formed(stars@),
    ensures
        exists|flaring: Seq<usize>|
            is_flare_selection(flare_keys(stars@), flare_threshold, flaring)
                && final(grid)@ == star_layer(old(grid)@, cols as nat, rows as nat, stars@, flaring),
        final(grid)@.len() == old(grid)@.len(),
{
    let ghost g0 = grid@;
    let mut keys: Vec<u32> = Vec::new();
    let mut i: usize = 0;
    while i < stars.len()
        invariant
            i <= stars@.len(),
            keys@ == flare_keys(stars@).take(i as int),
        decreases stars@.len() - i,
    {
        keys.push(stars[i].flare_key);
        i += 1;
        proof {
            assert(keys@ =~= flare_keys(stars@).take(i as int));
        }
    }
    assert(keys@ =~= flare_keys(stars@));
    let flaring = select_flares(&keys, flare_threshold);
    let mut j: usize = 0;
    while j < stars.len()
        invariant
            j <= stars@.len(),
            rows * cols <= grid@.len(),
            grid@.len() == g0.len(),
            sprites_well_formed(stars@),
            grid@ == star_layer(g0, cols as nat, rows as nat, stars@.take(j as int), flaring@),
        decreases stars@.len() - j,
    {
        let f = contains_index(&flaring, j);
        draw_one_star(grid, cols, rows, &stars[j], f);
        proof {
            assert(stars@.take(j + 1).drop_last() =~= stars@.take(j as int));
        }
        j += 1;
    }
    assert(stars@.take(stars@.len() as int) =~= stars@);
}

/// A star inside the field shows on its own cell, whether it flares or not:
/// the star's glyph, in the star's colour and boldness, over the cell's old
/// background; every cell the star's drawing changes is its own cell or lies
/// in its row or column.
pub proof fn lemma_star_shows_on_its_cell(g: Seq<GridCell>, cols: nat, rows: nat, s: StarSprite, flares: bool)
    requires
        rows * cols <= g.len(),
        s.sx < cols,
        s.sy < rows,
    ensures
        ({
            let k = index_of(cols, s.sx as nat, s.sy as nat) as int;
            let c = paint_star(g, cols, rows, s, flares)[k];
            &&& c.ch == s.glyph
            &&& c.fg == s.fg
            &&& c.bold == s.bold
            &&& c.bg == g[k].bg
        }),
        paint_star(g, cols, rows, s, flares).len() == g.len(),
{
    let k = index_of(cols, s.sx as nat, s.sy as nat) as int;
    lemma_index_of(cols, rows, s.sx as nat, s.sy as nat);
    let g1 = g.update(k, GridCell { ch: s.glyph, fg: s.fg, bg: g[k].bg, bold: s.bold });
    assert(g1[k] == GridCell { ch: s.glyph, fg: s.fg, bg: g[k].bg, bold: s.bold });
    if flares {
        let g2 = flare_painted(g1, cols, rows, s.sx as nat, s.sy as nat, s.arms);
        assert(g2[k] == g1[k]);
    }
}

} // verus!
