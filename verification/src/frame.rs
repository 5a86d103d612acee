//! A whole frame: backdrop, stars, dust and logo, drawn in that order.

use vstd::prelude::*;
use crate::cell::{GridCell, Rgb, index_of, lemma_index_of, lemma_index_distinct};
use crate::backdrop::{backdrop_layer, draw_spotlight};
use crate::stars::{StarSprite, sprites_well_formed, flare_keys, star_layer, draw_star};
use crate::dust::{DustMote, dust_layer, dust_may_cover, draw_dust, paint_dust};
use crate::logo::{
    LogoStamp, LogoGlyph, logo_layer, paint_stamp, draw_logo_layer, logo_layout, reads_before,
    lemma_logo_inside_field, lemma_logo_in_reading_order,
};
use crate::flare::{is_flare_selection, flare_painted};

verus! {

/// Everything one frame draws, already projected onto the field: the backdrop
/// shade of every cell (row after row), whether twinkling stars are on
/// (`twinkle == 1`), the stars and the key above which a star may flare, the
/// dust motes, and the logo glyphs with their colours.
pub struct FrameLayers {
    pub shades: Vec<Rgb>,
    pub twinkle: u32,
    pub stars: Vec<StarSprite>,
    pub flare_threshold: u32,
    pub motes: Vec<DustMote>,
    pub logo: Vec<LogoStamp>,
}

impl FrameLayers {
    /// One shade per cell of a `cols` by `rows` field, and one flare colour
    /// per arm distance for every star.
    pub open spec fn well_formed(&self, cols: nat, rows: nat) -> bool {
        &&& self.shades@.len() == rows * cols
        &&& sprites_well_formed(self.stars@)
    }
}

/// Grid `g` after a frame is drawn with the stars listed in `flaring` flaring:
/// the backdrop first, then the stars (only when twinkling stars are on), then
/// the dust, and the logo last, on top of everything.
pub open spec fn frame_with(g: Seq<GridCell>, cols: nat, rows: nat, layers: FrameLayers, flaring: Seq<usize>) -> Seq<GridCell> {
    let g1 = backdrop_layer(g, cols, rows, layers.shades@);
    let g2 = if layers.twinkle == 1 {
        star_layer(g1, cols, rows, layers.stars@, flaring)
    } else {
        g1
    };
    let g3 = dust_layer(g2, cols, rows, layers.motes@);
    logo_layer(g3, cols, rows, layers.logo@)
}

/// Draws one frame of the scene onto the grid (a `cols` by `rows` field laid
/// out row after row at its start): backdrop, stars with their flares when
/// twinkling stars are on, dust, and the logo on top.
pub fn draw_impl(grid: &mut Vec<GridCell>, cols: usize, rows: usize, layers: &FrameLayers)
    requires
        rows * cols <= old(grid)@.len(),
        layers.well_formed(cols as nat, rows as nat),
    ensures
        layers.twinkle == 1 ==> exists|flaring: Seq<usize>|
            is_flare_selection(flare_keys(layers.stars@), layers.flare_threshold, flaring)
                && final(grid)@ == frame_with(old(grid)@, cols as nat, rows as nat, *layers, flaring),
        layers.twinkle != 1 ==> final(grid)@ == frame_with(old(grid)@, cols as nat, rows as nat, *layers, Seq::empty()),
{
    let ghost g0 = grid@;
    draw_spotlight(grid, cols, rows, &layers.shades);
    let ghost g1 = grid@;
    assert(g1.len() == g0.len());
    if layers.twinkle == 1 {
        draw_star(grid, cols, rows, &layers.stars, layers.flare_threshold);
        let ghost flaring = choose|flaring: Seq<usize>|
            is_flare_selection(flare_keys(layers.stars@), layers.flare_threshold, flaring)
                && grid@ == star_layer(g1, cols as nat, rows as nat, layers.stars@, flaring);
        proof {
            lemma_star_layer_len(g1, cols as nat, rows as nat, layers.stars@, flaring);
        }
        draw_dust(grid, cols, rows, &layers.motes);
        draw_logo_layer(grid, cols, rows, &layers.logo);
        assert(is_flare_selection(flare_keys(layers.stars@), layers.flare_threshold, flaring)
            && grid@ == frame_with(g0, cols as nat, rows as nat, *layers, flaring));
    } else {
        draw_dust(grid, cols, rows, &layers.motes);
        draw_logo_layer(grid, cols, rows, &layers.logo);
    }
}

// ----------------------------------------------------------------------------
// Laws of a frame
// ----------------------------------------------------------------------------

proof fn lemma_star_layer_len(g: Seq<GridCell>, cols: nat, rows: nat, stars: Seq<StarSprite>, flaring: Seq<usize>)
    requires
        rows * cols <= g.len(),
    ensures
        star_layer(g, cols, rows, stars, flaring).len() == g.len(),
    decreases stars.len(),
{
    if stars.len() > 0 {
        lemma_star_layer_len(g, cols, rows, stars.drop_last(), flaring);
        let s = stars.last();
        if s.sx < cols && s.sy < rows {
            lemma_index_of(cols, rows, s.sx as nat, s.sy as nat);
        }
    }
}

/// The star layer leaves every cell past the field as it was.
pub proof fn lemma_star_layer_keeps_outside(
    g: Seq<GridCell>,
    cols: nat,
    rows: nat,
    stars: Seq<StarSprite>,
    flaring: Seq<usize>,
    k: int,
)
    requires
        rows * cols <= k < g.len(),
    ensures
        star_layer(g, cols, rows, stars, flaring)[k] == g[k],
        star_layer(g, cols, rows, stars, flaring).len() == g.len(),
    decreases stars.len(),
{
    lemma_star_layer_len(g, cols, rows, stars, flaring);
    if stars.len() > 0 {
        let prev = star_layer(g, cols, rows, stars.drop_last(), flaring);
        lemma_star_layer_keeps_outside(g, cols, rows, stars.drop_last(), flaring, k);
        let s = stars.last();
        if s.sx < cols && s.sy < rows {
            lemma_index_of(cols, rows, s.sx as nat, s.sy as nat);
        }
    }
}

/// The dust layer leaves every cell past the field as it was.
pub proof fn lemma_dust_layer_keeps_outside(g: Seq<GridCell>, cols: nat, rows: nat, motes: Seq<DustMote>, k: int)
    requires
        rows * cols <= g.len(),
        rows * cols <= k < g.len(),
    ensures
        dust_layer(g, cols, rows, motes)[k] == g[k],
        dust_layer(g, cols, rows, motes).len() == g.len(),
    decreases motes.len(),
{
    if motes.len() > 0 {
        lemma_dust_layer_keeps_outside(g, cols, rows, motes.drop_last(), k);
        let m = motes.last();
        if m.px < cols && m.py < rows {
            lemma_index_of(cols, rows, m.px as nat, m.py as nat);
        }
    }
}

/// The logo layer leaves every cell past the field as it was.
pub proof fn lemma_logo_layer_keeps_outside(g: Seq<GridCell>, cols: nat, rows: nat, stamps: Seq<LogoStamp>, k: int)
    requires
        rows * cols <= g.len(),
        rows * cols <= k < g.len(),
    ensures
        logo_layer(g, cols, rows, stamps)[k] == g[k],
        logo_layer(g, cols, rows, stamps).len() == g.len(),
    decreases stamps.len(),
{
    if stamps.len() > 0 {
        lemma_logo_layer_keeps_outside(g, cols, rows, stamps.drop_last(), k);
        let s = stamps.last();
        if s.x < cols && s.y < rows {
            lemma_index_of(cols, rows, s.x as nat, s.y as nat);
        }
    }
}

/// Drawing a frame never touches the cells of the grid past the field.
pub proof fn lemma_frame_keeps_outside(
    g: Seq<GridCell>,
    cols: nat,
    rows: nat,
    layers: FrameLayers,
    flaring: Seq<usize>,
    k: int,
)
    requires
        rows * cols <= k < g.len(),
    ensures
        frame_with(g, cols, rows, layers, flaring)[k] == g[k],
        frame_with(g, cols, rows, layers, flaring).len() == g.len(),
{
    let g1 = backdrop_layer(g, cols, rows, layers.shades@);
    let g2 = if layers.twinkle == 1 {
        star_layer(g1, cols, rows, layers.stars@, flaring)
    } else {
        g1
    };
    lemma_star_layer_keeps_outside(g1, cols, rows, layers.stars@, flaring, k);
    let g3 = dust_layer(g2, cols, rows, layers.motes@);
    lemma_dust_layer_keeps_outside(g2, cols, rows, layers.motes@, k);
    lemma_logo_layer_keeps_outside(g3, cols, rows, layers.logo@, k);
}

/// Dust never covers a cell that shows something other than a blank or a
/// flare arm: stars stay visible under the dust.
pub proof fn lemma_dust_spares_glyphs(g: Seq<GridCell>, cols: nat, rows: nat, motes: Seq<DustMote>, k: int)
    requires
        rows * cols <= g.len(),
        0 <= k < g.len(),
        !dust_may_cover(g[k].ch),
    ensures
        dust_layer(g, cols, rows, motes)[k] == g[k],
        dust_layer(g, cols, rows, motes).len() == g.len(),
    decreases motes.len(),
{
    if motes.len() > 0 {
        lemma_dust_spares_glyphs(g, cols, rows, motes.drop_last(), k);
        let m = motes.last();
        if m.px < cols && m.py < rows {
            lemma_index_of(cols, rows, m.px as nat, m.py as nat);
        }
    }
}

/// Stamps whose cells are inside the field and pairwise different.
pub open spec fn stamps_apart(cols: nat, rows: nat, stamps: Seq<LogoStamp>) -> bool {
    &&& forall|i: int| 0 <= i < stamps.len() ==> (#[trigger] stamps[i]).x < cols && stamps[i].y < rows
    &&& forall|i: int, j: int|
        0 <= i < j < stamps.len() ==> (#[trigger] stamps[i]).x != (#[trigger] stamps[j]).x || stamps[i].y != stamps[j].y
}

/// The logo is drawn on top: after the logo layer, the cell of every stamp
/// shows that stamp's glyph, colour and boldness over the background it had.
pub proof fn lemma_logo_on_top(g: Seq<GridCell>, cols: nat, rows: nat, stamps: Seq<LogoStamp>, i: int)
    requires
        rows * cols <= g.len(),
        stamps_apart(cols, rows, stamps),
        0 <= i < stamps.len(),
    ensures
        ({
            let s = stamps[i];
            let k = index_of(cols, s.x as nat, s.y as nat) as int;
            logo_layer(g, cols, rows, stamps)[k] == GridCell { ch: s.ch, fg: s.fg, bg: g[k].bg, bold: s.bold }
        }),
    decreases stamps.len(),
{
    let s = stamps[i];
    let k = index_of(cols, s.x as nat, s.y as nat) as int;
    lemma_index_of(cols, rows, s.x as nat, s.y as nat);
    let n = stamps.len() - 1;
    let prev = stamps.drop_last();
    lemma_logo_layer_len(g, cols, rows, prev);
    if i < n {
        assert(stamps_apart(cols, rows, prev)) by {
            assert forall|a: int, b: int| 0 <= a < b < prev.len() implies (#[trigger] prev[a]).x != (#[trigger] prev[b]).x
                || prev[a].y != prev[b].y by {
                assert(prev[a] == stamps[a] && prev[b] == stamps[b]);
            }
        }
        assert(prev[i] == s);
        lemma_logo_on_top(g, cols, rows, prev, i);
        let t = stamps.last();
        assert(t == stamps[n]);
        let kt = index_of(cols, t.x as nat, t.y as nat) as int;
        lemma_index_of(cols, rows, t.x as nat, t.y as nat);
        assert(kt != k) by {
            assert(s.x != t.x || s.y != t.y);
        }
    } else {
        lemma_logo_layer_keeps_bg(g, cols, rows, prev, k);
    }
}

proof fn lemma_logo_layer_len(g: Seq<GridCell>, cols: nat, rows: nat, stamps: Seq<LogoStamp>)
    requires
        rows * cols <= g.len(),
    ensures
        logo_layer(g, cols, rows, stamps).len() == g.len(),
    decreases stamps.len(),
{
    if stamps.len() > 0 {
        lemma_logo_layer_len(g, cols, rows, stamps.drop_last());
        let s = stamps.last();
        if s.x < cols && s.y < rows {
            lemma_index_of(cols, rows, s.x as nat, s.y as nat);
        }
    }
}

/// The logo layer never changes a background colour.
pub proof fn lemma_logo_layer_keeps_bg(g: Seq<GridCell>, cols: nat, rows: nat, stamps: Seq<LogoStamp>, k: int)
    requires
        rows * cols <= g.len(),
        0 <= k < g.len(),
    ensures
        logo_layer(g, cols, rows, stamps)[k].bg == g[k].bg,
        logo_layer(g, cols, rows, stamps).len() == g.len(),
    decreases stamps.len(),
{
    if stamps.len() > 0 {
        lemma_logo_layer_keeps_bg(g, cols, rows, stamps.drop_last(), k);
        let s = stamps.last();
        if s.x < cols && s.y < rows {
            lemma_index_of(cols, rows, s.x as nat, s.y as nat);
            let prev = logo_layer(g, cols, rows, stamps.drop_last());
            let ks = index_of(cols, s.x as nat, s.y as nat) as int;
            assert(paint_stamp(prev, cols, rows, s) == prev.update(ks, GridCell { ch: s.ch, fg: s.fg, bg: prev[ks].bg, bold: s.bold }));
        }
    }
}

/// Stamps that follow a logo layout one for one: same cells, same glyphs.
pub open spec fn stamps_follow(stamps: Seq<LogoStamp>, layout: Seq<LogoGlyph>) -> bool {
    &&& stamps.len() == layout.len()
    &&& forall|i: int| 0 <= i < stamps.len() ==> {
        &&& (#[trigger] stamps[i]).x == layout[i].x
        &&& stamps[i].y == layout[i].y
        &&& stamps[i].ch == layout[i].ch
    }
}

/// Every glyph of the centred logo shows in the drawn frame, on top of the
/// beams, stars and dust, with the colour and boldness it was stamped with.
pub proof fn lemma_logo_shows_in_frame(
    g: Seq<GridCell>,
    cols: nat,
    rows: nat,
    layers: FrameLayers,
    flaring: Seq<usize>,
    lines: Seq<Seq<char>>,
    i: int,
)
    requires
        rows * cols <= g.len(),
        cols <= usize::MAX,
        rows <= usize::MAX,
        stamps_follow(layers.logo@, logo_layout(lines, cols, rows)),
        0 <= i < layers.logo@.len(),
    ensures
        ({
            let s = layers.logo@[i];
            let k = index_of(cols, s.x as nat, s.y as nat) as int;
            let cell = frame_with(g, cols, rows, layers, flaring)[k];
            &&& cell.ch == logo_layout(lines, cols, rows)[i].ch
            &&& cell.fg == s.fg
            &&& cell.bold == s.bold
        }),
{
    let layout = logo_layout(lines, cols, rows);
    let stamps = layers.logo@;
    lemma_logo_inside_field(lines, cols, rows);
    lemma_logo_in_reading_order(lines, cols, rows);
    assert(stamps_apart(cols, rows, stamps)) by {
        assert forall|a: int| 0 <= a < stamps.len() implies (#[trigger] stamps[a]).x < cols && stamps[a].y < rows by {
            let l = layout[a];
        }
        assert forall|a: int, b: int| 0 <= a < b < stamps.len() implies (#[trigger] stamps[a]).x != (#[trigger] stamps[b]).x
            || stamps[a].y != stamps[b].y by {
            assert(reads_before(layout[a], layout[b]));
        }
    }
    let g1 = backdrop_layer(g, cols, rows, layers.shades@);
    let g2 = if layers.twinkle == 1 {
        star_layer(g1, cols, rows, layers.stars@, flaring)
    } else {
        g1
    };
    lemma_star_layer_len(g1, cols, rows, layers.stars@, flaring);
    let g3 = dust_layer(g2, cols, rows, layers.motes@);
    lemma_dust_layer_len(g2, cols, rows, layers.motes@);
    lemma_logo_on_top(g3, cols, rows, stamps, i);
}

proof fn lemma_dust_layer_len(g: Seq<GridCell>, cols: nat, rows: nat, motes: Seq<DustMote>)
    requires
        rows * cols <= g.len(),
    ensures
        dust_layer(g, cols, rows, motes).len() == g.len(),
    decreases motes.len(),
{
    if motes.len() > 0 {
        lemma_dust_layer_len(g, cols, rows, motes.drop_last());
        let m = motes.last();
        if m.px < cols && m.py < rows {
            lemma_index_of(cols, rows, m.px as nat, m.py as nat);
        }
    }
}

/// Every cell of the `cols` by `rows` field shows a character other than NUL.
pub open spec fn field_drawn(g: Seq<GridCell>, cols: nat, rows: nat) -> bool {
    forall|k: int| 0 <= k < rows * cols ==> (#[trigger] g[k]).ch != '\0'
}

/// None of the frame's stars, motes and logo glyphs is the NUL character.
pub open spec fn glyphs_visible(layers: FrameLayers) -> bool {
    &&& forall|i: int| 0 <= i < layers.stars@.len() ==> (#[trigger] layers.stars@[i]).glyph != '\0'
    &&& forall|i: int| 0 <= i < layers.motes@.len() ==> (#[trigger] layers.motes@[i]).glyph != '\0'
    &&& forall|i: int| 0 <= i < layers.logo@.len() ==> (#[trigger] layers.logo@[i]).ch != '\0'
}

/// A drawn frame leaves no cell of the field empty: the backdrop covers the
/// whole field, and stars, flares, dust and logo only ever put visible glyphs
/// over it.
pub proof fn lemma_frame_covers_field(
    g: Seq<GridCell>,
    cols: nat,
    rows: nat,
    layers: FrameLayers,
    flaring: Seq<usize>,
)
    requires
        rows * cols <= g.len(),
        layers.well_formed(cols, rows),
        glyphs_visible(layers),
    ensures
        field_drawn(frame_with(g, cols, rows, layers, flaring), cols, rows),
{
    let g1 = backdrop_layer(g, cols, rows, layers.shades@);
    assert(field_drawn(g1, cols, rows));
    let g2 = if layers.twinkle == 1 {
        star_layer(g1, cols, rows, layers.stars@, flaring)
    } else {
        g1
    };
    lemma_star_layer_len(g1, cols, rows, layers.stars@, flaring);
    lemma_star_layer_keeps_drawn(g1, cols, rows, layers.stars@, flaring);
    let g3 = dust_layer(g2, cols, rows, layers.motes@);
    lemma_dust_layer_len(g2, cols, rows, layers.motes@);
    lemma_dust_layer_keeps_drawn(g2, cols, rows, layers.motes@);
    lemma_logo_layer_keeps_drawn(g3, cols, rows, layers.logo@);
}

proof fn lemma_star_layer_keeps_drawn(g: Seq<GridCell>, cols: nat, rows: nat, stars: Seq<StarSprite>, flaring: Seq<usize>)
    requires
        rows * cols <= g.len(),
        field_drawn(g, cols, rows),
        forall|i: int| 0 <= i < stars.len() ==> (#[trigger] stars[i]).glyph != '\0',
    ensures
        field_drawn(star_layer(g, cols, rows, stars, flaring), cols, rows),
    decreases stars.len(),
{
    if stars.len() > 0 {
        let prev_stars = stars.drop_last();
        assert forall|i: int| 0 <= i < prev_stars.len() implies (#[trigger] prev_stars[i]).glyph != '\0' by {
            assert(prev_stars[i] == stars[i]);
        }
        lemma_star_layer_keeps_drawn(g, cols, rows, prev_stars, flaring);
        lemma_star_layer_len(g, cols, rows, prev_stars, flaring);
        let prev = star_layer(g, cols, rows, prev_stars, flaring);
        let s = stars.last();
        assert(s == stars[stars.len() - 1]);
        if s.sx < cols && s.sy < rows {
            lemma_index_of(cols, rows, s.sx as nat, s.sy as nat);
            let k = index_of(cols, s.sx as nat, s.sy as nat) as int;
            let g1 = prev.update(k, GridCell { ch: s.glyph, fg: s.fg, bg: prev[k].bg, bold: s.bold });
            assert(field_drawn(g1, cols, rows));
            let g2 = flare_painted(g1, cols, rows, s.sx as nat, s.sy as nat, s.arms);
            assert(field_drawn(g2, cols, rows));
        }
    }
}

proof fn lemma_dust_layer_keeps_drawn(g: Seq<GridCell>, cols: nat, rows: nat, motes: Seq<DustMote>)
    requires
        rows * cols <= g.len(),
        field_drawn(g, cols, rows),
        forall|i: int| 0 <= i < motes.len() ==> (#[trigger] motes[i]).glyph != '\0',
    ensures
        field_drawn(dust_layer(g, cols, rows, motes), cols, rows),
    decreases motes.len(),
{
    if motes.len() > 0 {
        let prev_motes = motes.drop_last();
        assert forall|i: int| 0 <= i < prev_motes.len() implies (#[trigger] prev_motes[i]).glyph != '\0' by {
            assert(prev_motes[i] == motes[i]);
        }
        lemma_dust_layer_keeps_drawn(g, cols, rows, prev_motes);
        lemma_dust_layer_len(g, cols, rows, prev_motes);
        let m = motes.last();
        assert(m == motes[motes.len() - 1]);
        if m.px < cols && m.py < rows {
            lemma_index_of(cols, rows, m.px as nat, m.py as nat);
        }
    }
}

proof fn lemma_logo_layer_keeps_drawn(g: Seq<GridCell>, cols: nat, rows: nat, stamps: Seq<LogoStamp>)
    requires
        rows * cols <= g.len(),
        field_drawn(g, cols, rows),
        forall|i: int| 0 <= i < stamps.len() ==> (#[trigger] stamps[i]).ch != '\0',
    ensures
        field_drawn(logo_layer(g, cols, rows, stamps), cols, rows),
    decreases stamps.len(),
{
    if stamps.len() > 0 {
        let prev_stamps = stamps.drop_last();
        assert forall|i: int| 0 <= i < prev_stamps.len() implies (#[trigger] prev_stamps[i]).ch != '\0' by {
            assert(prev_stamps[i] == stamps[i]);
        }
        lemma_logo_layer_keeps_drawn(g, cols, rows, prev_stamps);
        lemma_logo_layer_len(g, cols, rows, prev_stamps);
        let s = stamps.last();
        assert(s == stamps[stamps.len() - 1]);
        if s.x < cols && s.y < rows {
            lemma_index_of(cols, rows, s.x as nat, s.y as nat);
        }
    }
}

/// A dust layer leaves alone every cell of the field on which no mote falls.
pub proof fn lemma_dust_layer_keeps_cell(g: Seq<GridCell>, cols: nat, rows: nat, motes: Seq<DustMote>, x: nat, y: nat)
    requires
        rows * cols <= g.len(),
        x < cols,
        y < rows,
        forall|j: int| 0 <= j < motes.len() ==> !((#[trigger] motes[j]).px == x && motes[j].py == y),
    ensures
        dust_layer(g, cols, rows, motes)[index_of(cols, x, y) as int] == g[index_of(cols, x, y) as int],
        dust_layer(g, cols, rows, motes).len() == g.len(),
    decreases motes.len(),
{
    lemma_index_of(cols, rows, x, y);
    if motes.len() > 0 {
        let prev = motes.drop_last();
        assert forall|j: int| 0 <= j < prev.len() implies !((#[trigger] prev[j]).px == x && prev[j].py == y) by {
            assert(prev[j] == motes[j]);
        }
        lemma_dust_layer_keeps_cell(g, cols, rows, prev, x, y);
        lemma_dust_layer_len(g, cols, rows, prev);
        let m = motes.last();
        assert(m == motes[motes.len() - 1]);
        let before = dust_layer(g, cols, rows, prev);
        assert(dust_layer(g, cols, rows, motes) == paint_dust(before, cols, rows, m));
        if m.px < cols && m.py < rows {
            lemma_index_distinct(cols, rows, m.px as nat, m.py as nat, x, y);
            lemma_index_of(cols, rows, m.px as nat, m.py as nat);
        }
    }
}

/// A lit mote inside the field whose cell holds a blank or a flare arm, and on
/// whose cell no other mote falls, shows there after the dust layer: the
/// mote's glyph in the mote's colour, over the cell's background and boldness.
pub proof fn lemma_dust_mote_shows(g: Seq<GridCell>, cols: nat, rows: nat, motes: Seq<DustMote>, i: int)
    requires
        rows * cols <= g.len(),
        0 <= i < motes.len(),
        motes[i].px < cols,
        motes[i].py < rows,
        motes[i].lit,
        dust_may_cover(g[index_of(cols, motes[i].px as nat, motes[i].py as nat) as int].ch),
        forall|j: int| 0 <= j < motes.len() && j != i ==> !((#[trigger] motes[j]).px == motes[i].px && motes[j].py == motes[i].py),
    ensures
        ({
            let m = motes[i];
            let k = index_of(cols, m.px as nat, m.py as nat) as int;
            let c = dust_layer(g, cols, rows, motes)[k];
            &&& c.ch == m.glyph
            &&& c.fg == m.fg
            &&& c.bg == g[k].bg
            &&& c.bold == g[k].bold
        }),
    decreases motes.len(),
{
    let m = motes[i];
    let x = m.px as nat;
    let y = m.py as nat;
    let k = index_of(cols, x, y) as int;
    lemma_index_of(cols, rows, x, y);
    let n = motes.len() - 1;
    let prev = motes.drop_last();
    lemma_dust_layer_len(g, cols, rows, prev);
    if i == n {
        assert forall|j: int| 0 <= j < prev.len() implies !((#[trigger] prev[j]).px == x && prev[j].py == y) by {
            assert(prev[j] == motes[j]);
        }
        lemma_dust_layer_keeps_cell(g, cols, rows, prev, x, y);
        assert(motes.last() == m);
        let before = dust_layer(g, cols, rows, prev);
        assert(dust_layer(g, cols, rows, motes) == paint_dust(before, cols, rows, m));
        assert(before[k] == g[k]);
    } else {
        assert(prev[i] == m);
        assert forall|j: int| 0 <= j < prev.len() && j != i implies !((#[trigger] prev[j]).px == x && prev[j].py == y) by {
            assert(prev[j] == motes[j]);
        }
        lemma_dust_mote_shows(g, cols, rows, prev, i);
        let t = motes.last();
        assert(t == motes[n]);
        let before = dust_layer(g, cols, rows, prev);
        assert(dust_layer(g, cols, rows, motes) == paint_dust(before, cols, rows, t));
        if t.px < cols && t.py < rows {
            lemma_index_distinct(cols, rows, t.px as nat, t.py as nat, x, y);
            lemma_index_of(cols, rows, t.px as nat, t.py as nat);
        }
    }
}

/// A logo layer leaves alone every cell of the field on which no stamp falls.
pub proof fn lemma_logo_layer_keeps_cell(g: Seq<GridCell>, cols: nat, rows: nat, stamps: Seq<LogoStamp>, x: nat, y: nat)
    requires
        rows * cols <= g.len(),
        x < cols,
        y < rows,
        forall|j: int| 0 <= j < stamps.len() ==> !((#[trigger] stamps[j]).x == x && stamps[j].y == y),
    ensures
        logo_layer(g, cols, rows, stamps)[index_of(cols, x, y) as int] == g[index_of(cols, x, y) as int],
    decreases stamps.len(),
{
    lemma_index_of(cols, rows, x, y);
    if stamps.len() > 0 {
        let prev = stamps.drop_last();
        assert forall|j: int| 0 <= j < prev.len() implies !((#[trigger] prev[j]).x == x && prev[j].y == y) by {
            assert(prev[j] == stamps[j]);
        }
        lemma_logo_layer_keeps_cell(g, cols, rows, prev, x, y);
        lemma_logo_layer_len(g, cols, rows, prev);
        let s = stamps.last();
        assert(s == stamps[stamps.len() - 1]);
        let before = logo_layer(g, cols, rows, prev);
        assert(logo_layer(g, cols, rows, stamps) == paint_stamp(before, cols, rows, s));
        if s.x < cols && s.y < rows {
            lemma_index_distinct(cols, rows, s.x as nat, s.y as nat, x, y);
            lemma_index_of(cols, rows, s.x as nat, s.y as nat);
        }
    }
}

/// Dust is drawn whatever the twinkle setting. With no star drawn (twinkling
/// stars off, or no stars), a lit mote inside the field, alone on its cell and
/// under no logo glyph, shows in the drawn frame: its glyph in its colour, over
/// the backdrop shade of that cell, not bold.
pub proof fn lemma_dust_shows_without_stars(
    g: Seq<GridCell>,
    cols: nat,
    rows: nat,
    layers: FrameLayers,
    flaring: Seq<usize>,
    i: int,
)
    requires
        rows * cols <= g.len(),
        layers.well_formed(cols, rows),
        layers.twinkle != 1 || layers.stars@.len() == 0,
        0 <= i < layers.motes@.len(),
        layers.motes@[i].px < cols,
        layers.motes@[i].py < rows,
        layers.motes@[i].lit,
        forall|j: int| 0 <= j < layers.motes@.len() && j != i ==> !((#[trigger] layers.motes@[j]).px == layers.motes@[i].px
            && layers.motes@[j].py == layers.motes@[i].py),
        forall|j: int| 0 <= j < layers.logo@.len() ==> !((#[trigger] layers.logo@[j]).x == layers.motes@[i].px
            && layers.logo@[j].y == layers.motes@[i].py),
    ensures
        ({
            let m = layers.motes@[i];
            let k = index_of(cols, m.px as nat, m.py as nat) as int;
            let c = frame_with(g, cols, rows, layers, flaring)[k];
            &&& c.ch == m.glyph
            &&& c.fg == m.fg
            &&& c.bg == layers.shades@[k]
            &&& !c.bold
        }),
{
    let m = layers.motes@[i];
    let x = m.px as nat;
    let y = m.py as nat;
    let k = index_of(cols, x, y) as int;
    lemma_index_of(cols, rows, x, y);
    let g1 = backdrop_layer(g, cols, rows, layers.shades@);
    assert(g1[k].ch == ' ' && g1[k].bg == layers.shades@[k] && !g1[k].bold);
    if layers.stars@.len() == 0 {
        assert(star_layer(g1, cols, rows, layers.stars@, flaring) == g1);
    }
    lemma_dust_mote_shows(g1, cols, rows, layers.motes@, i);
    let g3 = dust_layer(g1, cols, rows, layers.motes@);
    lemma_dust_layer_len(g1, cols, rows, layers.motes@);
    lemma_logo_layer_keeps_cell(g3, cols, rows, layers.logo@, x, y);
}

} // verus!
