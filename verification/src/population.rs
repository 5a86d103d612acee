//! Sizes of the star field and of the dust cloud, and how a population is
//! brought to its target size.

use vstd::prelude::*;

verus! {

/// Fewest stars (and fewest dust motes) that a field of any size holds.
pub const MIN_POPULATION: usize = 30;

/// Most stars that a field holds.
pub const MAX_STARS: usize = 200;

/// Most dust motes that a field holds.
pub const MAX_PARTICLES: usize = 150;

/// Terminal cells per star.
pub const CELLS_PER_STAR: usize = 16;

/// Terminal cells per dust mote.
pub const CELLS_PER_PARTICLE: usize = 12;

/// `v` held to the range `lo..=hi`.
pub open spec fn clamp_spec(v: int, lo: int, hi: int) -> int {
    if v < lo {
        lo
    } else if v > hi {
        hi
    } else {
        v
    }
}

/// Number of stars in a field of `cols` by `rows` cells before the quality and
/// battery scaling: one star per sixteen cells, held between 30 and 200, or no
/// stars at all when twinkling stars are switched off (`twinkle != 1`).
pub open spec fn star_capacity_spec(cols: nat, rows: nat, twinkle: u32) -> nat {
    if twinkle == 1 {
        clamp_spec(((cols * rows) / (CELLS_PER_STAR as nat)) as int, MIN_POPULATION as int, MAX_STARS as int) as nat
    } else {
        0
    }
}

/// Number of dust motes in a field of `cols` by `rows` cells before the quality
/// and battery scaling: one mote per twelve cells, held between 30 and 150.
pub open spec fn particle_capacity_spec(cols: nat, rows: nat) -> nat {
    clamp_spec(((cols * rows) / (CELLS_PER_PARTICLE as nat)) as int, MIN_POPULATION as int, MAX_PARTICLES as int) as nat
}

/// Unscaled star count of a `cols` by `rows` field.
pub fn star_capacity(cols: usize, rows: usize, twinkle: u32) -> (n: usize)
    requires
        cols * rows <= usize::MAX,
    ensures
        n == star_capacity_spec(cols as nat, rows as nat, twinkle),
{
    if twinkle == 1 {
        let area = cols * rows;
        let per = area / CELLS_PER_STAR;
        if per < MIN_POPULATION {
            MIN_POPULATION
        } else if per > MAX_STARS {
            MAX_STARS
        } else {
            per
        }
    } else {
        0
    }
}

/// Unscaled dust mote count of a `cols` by `rows` field.
pub fn particle_capacity(cols: usize, rows: usize) -> (n: usize)
    requires
        cols * rows <= usize::MAX,
    ensures
        n == particle_capacity_spec(cols as nat, rows as nat),
{
    let area = cols * rows;
    let per = area / CELLS_PER_PARTICLE;
    if per < MIN_POPULATION {
        MIN_POPULATION
    } else if per > MAX_PARTICLES {
        MAX_PARTICLES
    } else {
        per
    }
}

/// Glyph given to the star that is created at position `index` of the star field.
pub open spec fn star_glyph_spec(index: nat) -> char {
    if index % 8 == 0 {
        '\u{2726}'
    } else if index % 3 == 0 {
        '\u{2022}'
    } else {
        '.'
    }
}

/// Chooses the glyph of a newly created star from its position in the star field:
/// every eighth star is a four-pointed star, every third of the rest a bullet,
/// and the others a dot.
pub fn star_glyph(index: usize) -> (ch: char)
    ensures
        ch == star_glyph_spec(index as nat),
{
    if index % 8 == 0 {
        '\u{2726}'
    } else if index % 3 == 0 {
        '\u{2022}'
    } else {
        '.'
    }
}

/// Brings a population towards `target` members: when it is larger, the members
/// past `target` are dropped and the first `target` kept in order; when it is
/// not larger, nothing changes. Returns how many new members must still be
/// appended for the population to have exactly `target` members.
pub fn fit_population<T>(items: &mut Vec<T>, target: usize) -> (missing: usize)
    ensures
        old(items)@.len() > target ==> final(items)@ == old(items)@.take(target as int),
        old(items)@.len() <= target ==> final(items)@ == old(items)@,
        final(items)@.len() + missing == target,
{
    if items.len() > target {
        items.truncate(target);
    }
    target - items.len()
}

/// The field size that the populations were last laid out for.
pub struct Viewport {
    pub last_cols: usize,
    pub last_rows: usize,
}

/// A field of `cols` by `rows` differs from the one `vp` last saw, so the
/// populations must be laid out afresh.
pub open spec fn needs_relayout(vp: Viewport, cols: usize, rows: usize) -> bool {
    vp.last_cols != cols || vp.last_rows != rows
}

impl Viewport {
    /// A viewport that has seen no field yet (zero by zero).
    pub fn new() -> (vp: Viewport)
        ensures
            vp.last_cols == 0,
            vp.last_rows == 0,
    {
        Viewport { last_cols: 0, last_rows: 0 }
    }

    /// Records that the field is now `cols` by `rows`. When that differs from
    /// the size last seen, both populations are emptied (to be laid out afresh)
    /// and `true` is returned; otherwise nothing changes and `false` is returned.
    pub fn sync<S, P>(&mut self, cols: usize, rows: usize, stars: &mut Vec<S>, particles: &mut Vec<P>) -> (resized: bool)
        ensures
            resized == needs_relayout(*old(self), cols, rows),
            final(self).last_cols == cols,
            final(self).last_rows == rows,
            !needs_relayout(*final(self), cols, rows),
            resized ==> final(stars)@.len() == 0 && final(particles)@.len() == 0,
            !resized ==> final(stars)@ == old(stars)@ && final(particles)@ == old(particles)@,
    {
        if cols != self.last_cols || rows != self.last_rows {
            stars.clear();
            particles.clear();
            self.last_cols = cols;
            self.last_rows = rows;
            true
        } else {
            false
        }
    }
}

/// With twinkling stars on, a field holds between 30 and 200 stars, and
/// always between 30 and 150 dust motes.
pub proof fn lemma_capacity_bounds(cols: nat, rows: nat, twinkle: u32)
    ensures
        twinkle == 1 ==> MIN_POPULATION <= star_capacity_spec(cols, rows, twinkle) <= MAX_STARS,
        twinkle != 1 ==> star_capacity_spec(cols, rows, twinkle) == 0,
        MIN_POPULATION <= particle_capacity_spec(cols, rows) <= MAX_PARTICLES,
{
}

/// A larger field never holds fewer stars or dust motes.
pub proof fn lemma_capacity_grows_with_area(c1: nat, r1: nat, c2: nat, r2: nat, twinkle: u32)
    requires
        c1 * r1 <= c2 * r2,
    ensures
        star_capacity_spec(c1, r1, twinkle) <= star_capacity_spec(c2, r2, twinkle),
        particle_capacity_spec(c1, r1) <= particle_capacity_spec(c2, r2),
{
    vstd::arithmetic::div_mod::lemma_div_is_ordered((c1 * r1) as int, (c2 * r2) as int, CELLS_PER_STAR as int);
    vstd::arithmetic::div_mod::lemma_div_is_ordered((c1 * r1) as int, (c2 * r2) as int, CELLS_PER_PARTICLE as int);
}

} // verus!
