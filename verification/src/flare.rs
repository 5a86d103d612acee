//! Lens flares: which stars flare, how bright a flare is at each distance,
//! and how a flare is painted onto the grid.

use vstd::prelude::*;
use crate::cell::{GridCell, Rgb, index_of, lemma_index_of, lemma_position_split, cell_index};

verus! {

/// Most stars that flare in one frame.
pub const MAX_FLARES: usize = 4;

/// A horizontal flare arm reaches up to `H_REACH - 1` cells from the star.
pub const H_REACH: usize = 12;

/// A vertical flare arm reaches up to `V_REACH - 1` cells from the star.
pub const V_REACH: usize = 5;

/// Brightness lost per cell along a horizontal arm.
pub const H_FADE_STEP: usize = 110 / 12;

/// Brightness lost per cell along a vertical arm.
pub const V_FADE_STEP: usize = 80 / 5;

/// A flare cell is painted only when its brightness is above this.
pub const FADE_FLOOR: u8 = 10;

/// Glyph of a horizontal flare arm.
pub const H_ARM: char = '\u{2500}';

/// Glyph of a vertical flare arm.
pub const V_ARM: char = '\u{2502}';

// ----------------------------------------------------------------------------
// Choosing the flaring stars
// ----------------------------------------------------------------------------

/// Star `a` comes before star `b` in the flare ranking: it is more excited, or
/// as excited and earlier in the star list.
pub open spec fn ranks_before(keys: Seq<u32>, a: int, b: int) -> bool {
    keys[a] > keys[b] || (keys[a] == keys[b] && a < b)
}

/// Star `i` is excited enough to flare.
pub open spec fn is_candidate(keys: Seq<u32>, threshold: u32, i: int) -> bool {
    0 <= i < keys.len() && keys[i] > threshold
}

/// `chosen` lists the flaring stars: the (at most four) highest-ranked stars
/// whose excitation key is above `threshold`, best first.
pub open spec fn is_flare_selection(keys: Seq<u32>, threshold: u32, chosen: Seq<usize>) -> bool {
    &&& chosen.len() <= MAX_FLARES
    &&& forall|k: int| 0 <= k < chosen.len() ==> is_candidate(keys, threshold, #[trigger] chosen[k] as int)
    &&& forall|a: int, b: int|
        0 <= a < b < chosen.len() ==> ranks_before(keys, #[trigger] chosen[a] as int, #[trigger] chosen[b] as int)
    &&& forall|c: int, k: int|
        #[trigger] is_candidate(keys, threshold, c) && !chosen.contains(c as usize) && 0 <= k < chosen.len()
            ==> ranks_before(keys, #[trigger] chosen[k] as int, c)
    &&& chosen.len() < MAX_FLARES ==> forall|c: int|
        is_candidate(keys, threshold, c) ==> #[trigger] chosen.contains(c as usize)
}

/// Picks the stars that flare this frame from their excitation keys (one per
/// star, ordered as the excitation itself): those with a key above `threshold`,
/// most excited first, ties in star order, at most four of them.
pub fn select_flares(keys: &Vec<u32>, threshold: u32) -> (chosen: Vec<usize>)
    ensures
        is_flare_selection(keys@, threshold, chosen@),
{
    let n = keys.len();
    let mut chosen: Vec<usize> = Vec::new();
    let mut round: usize = 0;
    while round < MAX_FLARES
        invariant
            n == keys@.len(),
            chosen@.len() == round,
            round <= MAX_FLARES,
            forall|k: int| 0 <= k < chosen@.len() ==> is_candidate(keys@, threshold, #[trigger] chosen@[k] as int),
            forall|a: int, b: int|
                0 <= a < b < chosen@.len() ==> ranks_before(keys@, #[trigger] chosen@[a] as int, #[trigger] chosen@[b] as int),
            forall|c: int, k: int|
                #[trigger] is_candidate(keys@, threshold, c) && !chosen@.contains(c as usize) && 0 <= k < chosen@.len()
                    ==> ranks_before(keys@, #[trigger] chosen@[k] as int, c),
        ensures
            is_flare_selection(keys@, threshold, chosen@),
        decreases MAX_FLARES - round,
    {
        // Find the best candidate that ranks after every star chosen so far.
        let mut best: Option<usize> = None;
        let mut i: usize = 0;
        while i < n
            invariant
                n == keys@.len(),
                i <= n,
                chosen@.len() == round,
                round < MAX_FLARES,
                forall|k: int| 0 <= k < chosen@.len() ==> is_candidate(keys@, threshold, #[trigger] chosen@[k] as int),
                forall|a: int, b: int|
                    0 <= a < b < chosen@.len() ==> ranks_before(keys@, #[trigger] chosen@[a] as int, #[trigger] chosen@[b] as int),
                forall|c: int, k: int|
                    #[trigger] is_candidate(keys@, threshold, c) && !chosen@.contains(c as usize) && 0 <= k < chosen@.len()
                        ==> ranks_before(keys@, #[trigger] chosen@[k] as int, c),
                best matches Some(b) ==> {
                    &&& b < i
                    &&& is_candidate(keys@, threshold, b as int)
                    &&& !chosen@.contains(b)
                },
                forall|j: int|
                    0 <= j < i && is_candidate(keys@, threshold, j) && !chosen@.contains(j as usize)
                        ==> (best matches Some(b) && (b == j || ranks_before(keys@, b as int, j))),
            decreases n - i,
        {
            if keys[i] > threshold {
                let eligible = if chosen.len() == 0 {
                    true
                } else {
                    let last = chosen[chosen.len() - 1];
                    keys[last] > keys[i] || (keys[last] == keys[i] && last < i)
                };
                proof {
                    // Among candidates, ranking after the last chosen star is
                    // the same as not having been chosen.
                    if chosen@.len() > 0 {
                        let last = chosen@.last();
                        if chosen@.contains(i) {
                            let k = choose|k: int| 0 <= k < chosen@.len() && chosen@[k] == i;
                            if k < chosen@.len() - 1 {
                                assert(ranks_before(keys@, chosen@[k] as int, chosen@[chosen@.len() - 1] as int));
                            }
                            assert(!eligible);
                        } else {
                            assert(is_candidate(keys@, threshold, i as int));
                            assert(ranks_before(keys@, chosen@[chosen@.len() - 1] as int, i as int));
                            assert(eligible);
                        }
                    } else {
                        assert(!chosen@.contains(i));
                    }
                }
                if eligible {
                    match best {
                        None => {
                            best = Some(i);
                        },
                        Some(b) => {
                            if keys[i] > keys[b] {
                                best = Some(i);
                            }
                        },
                    }
                }
            }
            i += 1;
        }
        match best {
            None => {
                assert forall|c: int| is_candidate(keys@, threshold, c) implies #[trigger] chosen@.contains(c as usize) by {
                    if !chosen@.contains(c as usize) {
                        assert(0 <= c < i);
                    }
                }
                return chosen;
            },
            Some(b) => {
                let ghost prev = chosen@;
                chosen.push(b);
                proof {
                    assert(chosen@ == prev.push(b));
                    assert forall|a: int, bb: int|
                        0 <= a < bb < chosen@.len() implies ranks_before(keys@, #[trigger] chosen@[a] as int, #[trigger] chosen@[bb] as int) by {
                        if bb == chosen@.len() - 1 {
                            assert(chosen@[a] == prev[a]);
                            assert(prev.contains(prev[a]));
                        }
                    }
                    assert forall|c: int, k: int|
                        #[trigger] is_candidate(keys@, threshold, c) && !chosen@.contains(c as usize) && 0 <= k < chosen@.len()
                            implies ranks_before(keys@, #[trigger] chosen@[k] as int, c) by {
                        assert(!prev.contains(c as usize)) by {
                            if prev.contains(c as usize) {
                                let j = choose|j: int| 0 <= j < prev.len() && prev[j] == c as usize;
                                assert(chosen@[j] == c as usize);
                            }
                        }
                        assert(chosen@[chosen@.len() - 1] == b);
                        assert(c != b);
                        if k == chosen@.len() - 1 {
                            assert(0 <= c < i);
                        } else {
                            assert(chosen@[k] == prev[k]);
                        }
                    }
                }
            },
        }
        round += 1;
    }
    chosen
}

/// Two lists that both meet the flare selection rule are the same list: the
/// rule fixes which stars flare and in what order.
pub proof fn lemma_flare_selection_unique(keys: Seq<u32>, threshold: u32, r1: Seq<usize>, r2: Seq<usize>)
    requires
        is_flare_selection(keys, threshold, r1),
        is_flare_selection(keys, threshold, r2),
    ensures
        r1 == r2,
{
    let m = if r1.len() < r2.len() { r1.len() } else { r2.len() };
    assert forall|k: int| 0 <= k < m implies r1[k] == r2[k] by {
        lemma_selection_prefix_agrees(keys, threshold, r1, r2, k);
    }
    if r1.len() < r2.len() {
        let c = r2[r1.len() as int];
        assert(is_candidate(keys, threshold, c as int));
        assert(r1.contains(c));
        let j = choose|j: int| 0 <= j < r1.len() && r1[j] == c;
        assert(r2[j] == r1[j]);
        assert(ranks_before(keys, r2[j] as int, r2[r1.len() as int] as int));
        assert(false);
    } else if r2.len() < r1.len() {
        let c = r1[r2.len() as int];
        assert(is_candidate(keys, threshold, c as int));
        assert(r2.contains(c));
        let j = choose|j: int| 0 <= j < r2.len() && r2[j] == c;
        assert(r2[j] == r1[j]);
        assert(ranks_before(keys, r1[j] as int, r1[r2.len() as int] as int));
        assert(false);
    }
    assert(r1 =~= r2);
}

proof fn lemma_selection_prefix_agrees(keys: Seq<u32>, threshold: u32, r1: Seq<usize>, r2: Seq<usize>, k: int)
    requires
        is_flare_selection(keys, threshold, r1),
        is_flare_selection(keys, threshold, r2),
        0 <= k < r1.len(),
        k < r2.len(),
    ensures
        r1[k] == r2[k],
    decreases k,
{
    if k > 0 {
        lemma_selection_prefix_agrees(keys, threshold, r1, r2, k - 1);
    }
    assert forall|j: int| 0 <= j < k implies r1[j] == r2[j] by {
        lemma_selection_prefix_agrees(keys, threshold, r1, r2, j);
    }
    let x = r1[k];
    let y = r2[k];
    if x != y {
        if ranks_before(keys, x as int, y as int) {
            // x must appear in r2, and it cannot appear anywhere there.
            if r2.contains(x) {
                let j = choose|j: int| 0 <= j < r2.len() && r2[j] == x;
                if j < k {
                    assert(r1[j] == x);
                    assert(ranks_before(keys, r1[j] as int, r1[k] as int));
                } else if j > k {
                    assert(ranks_before(keys, r2[k] as int, r2[j] as int));
                }
            } else {
                assert(ranks_before(keys, r2[k] as int, x as int));
            }
        } else {
            if r1.contains(y) {
                let j = choose|j: int| 0 <= j < r1.len() && r1[j] == y;
                if j < k {
                    assert(r2[j] == y);
                    assert(ranks_before(keys, r2[j] as int, r2[k] as int));
                } else if j > k {
                    assert(ranks_before(keys, r1[k] as int, r1[j] as int));
                }
            } else {
                assert(ranks_before(keys, r1[k] as int, y as int));
            }
        }
    }
}

// ----------------------------------------------------------------------------
// Flare brightness
// ----------------------------------------------------------------------------

/// Distance between two positions on a line.
pub open spec fn abs_diff(a: int, b: int) -> int {
    if a >= b {
        a - b
    } else {
        b - a
    }
}

/// Brightness `dist` cells out along an arm that starts at `alpha` and loses
/// `step` per cell, never below zero.
pub open spec fn fade_spec(alpha: u8, step: nat, dist: nat) -> int {
    if alpha >= step * dist {
        alpha - step * dist
    } else {
        0
    }
}

/// Brightness of a horizontal flare arm `dx` cells from the star.
pub fn horizontal_fade(alpha: u8, dx: usize) -> (f: u8)
    requires
        1 <= dx < H_REACH,
    ensures
        f == fade_spec(alpha, H_FADE_STEP as nat, dx as nat),
{
    let loss: u8 = (dx * H_FADE_STEP) as u8;
    if alpha >= loss {
        alpha - loss
    } else {
        0
    }
}

/// Brightness of a vertical flare arm `dy` cells from the star.
pub fn vertical_fade(alpha: u8, dy: usize) -> (f: u8)
    requires
        1 <= dy < V_REACH,
    ensures
        f == fade_spec(alpha, V_FADE_STEP as nat, dy as nat),
{
    let loss: u8 = (dy * V_FADE_STEP) as u8;
    if alpha >= loss {
        alpha - loss
    } else {
        0
    }
}

/// A flare arm never brightens as it gets further from its star.
pub proof fn lemma_fade_decreases(alpha: u8, step: nat, d1: nat, d2: nat)
    requires
        d1 <= d2,
    ensures
        fade_spec(alpha, step, d2) <= fade_spec(alpha, step, d1),
{
    assert(step * d1 <= step * d2) by (nonlinear_arith)
        requires
            d1 <= d2,
    ;
}

// ----------------------------------------------------------------------------
// Painting a flare
// ----------------------------------------------------------------------------

/// The two arms of a star's flare: their starting brightness and, for each
/// distance from the star (one cell out first), the colour painted there.
pub struct FlareArms {
    pub h_alpha: u8,
    pub v_alpha: u8,
    pub h_colors: Vec<Rgb>,
    pub v_colors: Vec<Rgb>,
}

impl FlareArms {
    /// There is one colour for every distance that an arm reaches.
    pub open spec fn well_formed(&self) -> bool {
        &&& self.h_colors@.len() == H_REACH - 1
        &&& self.v_colors@.len() == V_REACH - 1
    }
}

/// Cell `k` of grid `g` (`cols` by `rows`) once the arms of the flare of the
/// star at (`sx`, `sy`) that are shorter than `h_reach` and `v_reach` have been
/// painted. A cell of the star's row is covered by the horizontal arm, and one
/// of its column by the vertical arm, when it is close enough, the arm is still
/// brighter than the floor there, and the cell is blank or already shows that
/// arm; the glyph and colour change, the background and boldness stay.
pub open spec fn flare_cell(
    g: Seq<GridCell>,
    cols: nat,
    rows: nat,
    sx: nat,
    sy: nat,
    arms: FlareArms,
    h_reach: nat,
    v_reach: nat,
    k: int,
) -> GridCell {
    let c = g[k];
    let x = k % (cols as int);
    let y = k / (cols as int);
    let hd = abs_diff(x, sx as int);
    let vd = abs_diff(y, sy as int);
    if k < rows * cols && y == sy && x != sx && hd < h_reach
        && fade_spec(arms.h_alpha, H_FADE_STEP as nat, hd as nat) > FADE_FLOOR && (c.ch == ' ' || c.ch == H_ARM) {
        GridCell { ch: H_ARM, fg: arms.h_colors@[hd - 1], bg: c.bg, bold: c.bold }
    } else if k < rows * cols && x == sx && y != sy && vd < v_reach
        && fade_spec(arms.v_alpha, V_FADE_STEP as nat, vd as nat) > FADE_FLOOR && (c.ch == ' ' || c.ch == V_ARM) {
        GridCell { ch: V_ARM, fg: arms.v_colors@[vd - 1], bg: c.bg, bold: c.bold }
    } else {
        c
    }
}

/// Grid `g` with the whole flare of the star at (`sx`, `sy`) painted on it.
pub open spec fn flare_painted(g: Seq<GridCell>, cols: nat, rows: nat, sx: nat, sy: nat, arms: FlareArms) -> Seq<GridCell> {
    Seq::new(g.len(), |k: int| flare_cell(g, cols, rows, sx, sy, arms, H_REACH as nat, V_REACH as nat, k))
}

/// Paints the lens flare of the star at (`sx`, `sy`): a horizontal arm of up to
/// eleven cells each side and a vertical arm of up to four cells above and
/// below, each painted only over blank cells or cells that already show it.
pub fn paint_flare(grid: &mut Vec<GridCell>, cols: usize, rows: usize, sx: usize, sy: usize, arms: &FlareArms)
    requires
        sx < cols,
        sy < rows,
        rows * cols <= old(grid)@.len(),
        arms.well_formed(),
    ensures
        final(grid)@ == flare_painted(old(grid)@, cols as nat, rows as nat, sx as nat, sy as nat, *arms),
{
    let ghost g0 = grid@;
    let ghost c = cols as nat;
    let ghost r = rows as nat;
    let n = grid.len();
    let mut dx: usize = 1;
    while dx < H_REACH
        invariant
            1 <= dx <= H_REACH,
            sx < cols,
            sy < rows,
            c == cols,
            r == rows,
            rows * cols <= g0.len(),
            g0.len() == n,
            arms.well_formed(),
            grid@.len() == g0.len(),
            forall|k: int| 0 <= k < grid@.len() ==> #[trigger] grid@[k] == flare_cell(g0, c, r, sx as nat, sy as nat, *arms, dx as nat, 1, k),
        decreases H_REACH - dx,
    {
        let fade = horizontal_fade(arms.h_alpha, dx);
        let ghost before = grid@;
        let ghost mut right: int = -1;
        let ghost mut left: int = -1;
        if fade > FADE_FLOOR {
            if dx < cols - sx {
                let k = cell_index(cols, rows, sx + dx, sy);
                proof {
                    lemma_index_of(c, r, (sx + dx) as nat, sy as nat);
                    right = k as int;
                }
                let cur = grid[k];
                if cur.ch == ' ' || cur.ch == H_ARM {
                    grid.set(k, GridCell { ch: H_ARM, fg: arms.h_colors[dx - 1], bg: cur.bg, bold: cur.bold });
                }
            }
            if sx >= dx {
                let k = cell_index(cols, rows, sx - dx, sy);
                proof {
                    lemma_index_of(c, r, (sx - dx) as nat, sy as nat);
                    left = k as int;
                }
                let cur = grid[k];
                if cur.ch == ' ' || cur.ch == H_ARM {
                    grid.set(k, GridCell { ch: H_ARM, fg: arms.h_colors[dx - 1], bg: cur.bg, bold: cur.bold });
                }
            }
        }
        proof {
            assert forall|k: int| 0 <= k < grid@.len() implies #[trigger] grid@[k] == flare_cell(
                g0, c, r, sx as nat, sy as nat, *arms, (dx + 1) as nat, 1, k) by {
                assert(before[k] == flare_cell(g0, c, r, sx as nat, sy as nat, *arms, dx as nat, 1, k));
                if k < r * c {
                    lemma_position_split(c, r, k);
                    let x = k % (c as int);
                    let y = k / (c as int);
                    if y == sy && x == sx + dx && fade > FADE_FLOOR {
                        assert(k == right);
                    } else if y == sy && x + dx == sx && fade > FADE_FLOOR {
                        assert(k == left);
                    }
                }
            }
        }
        dx += 1;
    }
    let mut dy: usize = 1;
    while dy < V_REACH
        invariant
            1 <= dy <= V_REACH,
            sx < cols,
            sy < rows,
            c == cols,
            r == rows,
            rows * cols <= g0.len(),
            g0.len() == n,
            arms.well_formed(),
            grid@.len() == g0.len(),
            forall|k: int| 0 <= k < grid@.len() ==> #[trigger] grid@[k] == flare_cell(g0, c, r, sx as nat, sy as nat, *arms, H_REACH as nat, dy as nat, k),
        decreases V_REACH - dy,
    {
        let fade = vertical_fade(arms.v_alpha, dy);
        let ghost before = grid@;
        let ghost mut below: int = -1;
        let ghost mut above: int = -1;
        if fade > FADE_FLOOR {
            if dy < rows - sy {
                let k = cell_index(cols, rows, sx, sy + dy);
                proof {
                    lemma_index_of(c, r, sx as nat, (sy + dy) as nat);
                    below = k as int;
                }
                let cur = grid[k];
                if cur.ch == ' ' || cur.ch == V_ARM {
                    grid.set(k, GridCell { ch: V_ARM, fg: arms.v_colors[dy - 1], bg: cur.bg, bold: cur.bold });
                }
            }
            if sy >= dy {
                let k = cell_index(cols, rows, sx, sy - dy);
                proof {
                    lemma_index_of(c, r, sx as nat, (sy - dy) as nat);
                    above = k as int;
                }
                let cur = grid[k];
                if cur.ch == ' ' || cur.ch == V_ARM {
                    grid.set(k, GridCell { ch: V_ARM, fg: arms.v_colors[dy - 1], bg: cur.bg, bold: cur.bold });
                }
            }
        }
        proof {
            assert forall|k: int| 0 <= k < grid@.len() implies #[trigger] grid@[k] == flare_cell(
                g0, c, r, sx as nat, sy as nat, *arms, H_REACH as nat, (dy + 1) as nat, k) by {
                assert(before[k] == flare_cell(g0, c, r, sx as nat, sy as nat, *arms, H_REACH as nat, dy as nat, k));
                if k < r * c {
                    lemma_position_split(c, r, k);
                    let x = k % (c as int);
                    let y = k / (c as int);
                    if x == sx && y == sy + dy && fade > FADE_FLOOR {
                        assert(k == below);
                    } else if x == sx && y + dy == sy && fade > FADE_FLOOR {
                        assert(k == above);
                    }
                }
            }
        }
        dy += 1;
    }
    assert(grid@ =~= flare_painted(g0, c, r, sx as nat, sy as nat, *arms));
}

/// Painting the same flare a second time changes nothing.
pub proof fn lemma_flare_idempotent(g: Seq<GridCell>, cols: nat, rows: nat, sx: nat, sy: nat, arms: FlareArms)
    requires
        sx < cols,
        sy < rows,
        arms.well_formed(),
    ensures
        flare_painted(flare_painted(g, cols, rows, sx, sy, arms), cols, rows, sx, sy, arms)
            == flare_painted(g, cols, rows, sx, sy, arms),
{
    let g1 = flare_painted(g, cols, rows, sx, sy, arms);
    let g2 = flare_painted(g1, cols, rows, sx, sy, arms);
    assert forall|k: int| 0 <= k < g1.len() implies #[trigger] g2[k] == g1[k] by {
        assert(g1[k] == flare_cell(g, cols, rows, sx, sy, arms, H_REACH as nat, V_REACH as nat, k));
    }
    assert(g2 =~= g1);
}

/// A flare changes only cells of its star's row or column, and only cells
/// that were blank or already showed a flare arm.
pub proof fn lemma_flare_changes_only_free_cross_cells(
    g: Seq<GridCell>,
    cols: nat,
    rows: nat,
    sx: nat,
    sy: nat,
    arms: FlareArms,
    k: int,
)
    requires
        sx < cols,
        sy < rows,
        0 <= k < g.len(),
        flare_painted(g, cols, rows, sx, sy, arms)[k] != g[k],
    ensures
        k % (cols as int) == sx || k / (cols as int) == sy,
        g[k].ch == ' ' || g[k].ch == H_ARM || g[k].ch == V_ARM,
        k < rows * cols,
{
}

/// The horizontal arm is the same on both sides of its star: a blank or arm
/// cell of the star's row at distance `d` (one to eleven cells, left or right)
/// where the arm is still brighter than the floor becomes an arm cell in the
/// arm colour for distance `d`, keeping its background and boldness; where the
/// arm has faded to the floor, the cell is left as it was.
pub proof fn lemma_horizontal_arm_cell(
    g: Seq<GridCell>,
    cols: nat,
    rows: nat,
    sx: nat,
    sy: nat,
    arms: FlareArms,
    x: nat,
)
    requires
        rows * cols <= g.len(),
        sx < cols,
        sy < rows,
        x < cols,
        x != sx,
        abs_diff(x as int, sx as int) < H_REACH,
        arms.well_formed(),
    ensures
        ({
            let k = index_of(cols, x, sy) as int;
            let d = abs_diff(x as int, sx as int);
            let c = g[k];
            let r = flare_painted(g, cols, rows, sx, sy, arms)[k];
            &&& (c.ch == ' ' || c.ch == H_ARM) && fade_spec(arms.h_alpha, H_FADE_STEP as nat, d as nat) > FADE_FLOOR
                ==> r == GridCell { ch: H_ARM, fg: arms.h_colors@[d - 1], bg: c.bg, bold: c.bold }
            &&& !((c.ch == ' ' || c.ch == H_ARM) && fade_spec(arms.h_alpha, H_FADE_STEP as nat, d as nat) > FADE_FLOOR)
                ==> r == c
        }),
{
    lemma_index_of(cols, rows, x, sy);
}

/// The vertical arm is the same above and below its star: a blank or arm cell
/// of the star's column at distance `d` (one to four rows, up or down) where
/// the arm is still brighter than the floor becomes an arm cell in the arm
/// colour for distance `d`, keeping its background and boldness; where the arm
/// has faded to the floor, the cell is left as it was.
pub proof fn lemma_vertical_arm_cell(
    g: Seq<GridCell>,
    cols: nat,
    rows: nat,
    sx: nat,
    sy: nat,
    arms: FlareArms,
    y: nat,
)
    requires
        rows * cols <= g.len(),
        sx < cols,
        sy < rows,
        y < rows,
        y != sy,
        abs_diff(y as int, sy as int) < V_REACH,
        arms.well_formed(),
    ensures
        ({
            let k = index_of(cols, sx, y) as int;
            let d = abs_diff(y as int, sy as int);
            let c = g[k];
            let r = flare_painted(g, cols, rows, sx, sy, arms)[k];
            &&& (c.ch == ' ' || c.ch == V_ARM) && fade_spec(arms.v_alpha, V_FADE_STEP as nat, d as nat) > FADE_FLOOR
                ==> r == GridCell { ch: V_ARM, fg: arms.v_colors@[d - 1], bg: c.bg, bold: c.bold }
            &&& !((c.ch == ' ' || c.ch == V_ARM) && fade_spec(arms.v_alpha, V_FADE_STEP as nat, d as nat) > FADE_FLOOR)
                ==> r == c
        }),
{
    lemma_index_of(cols, rows, sx, y);
}

} // verus!
