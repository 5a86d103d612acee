//! Terminal cells and the row-major layout of a field of them.

use vstd::prelude::*;

verus! {

/// A colour as red, green and blue intensities.
#[derive(Clone, Copy, PartialEq, Eq, Debug, Structural)]
pub struct Rgb {
    pub r: u8,
    pub g: u8,
    pub b: u8,
}

/// Black.
pub open spec fn black() -> Rgb {
    Rgb { r: 0, g: 0, b: 0 }
}

impl Rgb {
    /// The colour with the given red, green and blue intensities.
    pub fn new(r: u8, g: u8, b: u8) -> (c: Rgb)
        ensures
            c == (Rgb { r, g, b }),
    {
        Rgb { r, g, b }
    }
}

/// One character cell of the terminal: glyph, foreground and background
/// colour, and whether the glyph is drawn bold.
#[derive(Clone, Copy, PartialEq, Eq, Debug, Structural)]
pub struct GridCell {
    pub ch: char,
    pub fg: Rgb,
    pub bg: Rgb,
    pub bold: bool,
}

/// The cell that a fresh grid is filled with: the NUL character, black on black.
pub open spec fn empty_cell() -> GridCell {
    GridCell { ch: '\0', fg: black(), bg: black(), bold: false }
}

impl Default for GridCell {
    fn default() -> (c: GridCell)
        ensures
            c == empty_cell(),
    {
        GridCell { ch: '\0', fg: Rgb { r: 0, g: 0, b: 0 }, bg: Rgb { r: 0, g: 0, b: 0 }, bold: false }
    }
}

/// Position of the cell in column `x` and row `y` of a field `cols` wide.
pub open spec fn index_of(cols: nat, x: nat, y: nat) -> nat {
    y * cols + x
}

/// The cell in column `x` and row `y` of a `cols` by `rows` field lies inside
/// the field, and its position gives back its column and row.
pub proof fn lemma_index_of(cols: nat, rows: nat, x: nat, y: nat)
    requires
        x < cols,
        y < rows,
    ensures
        index_of(cols, x, y) < rows * cols,
        (index_of(cols, x, y) as int) / (cols as int) == y,
        (index_of(cols, x, y) as int) % (cols as int) == x,
{
    assert(y * cols + x < rows * cols) by (nonlinear_arith)
        requires
            x < cols,
            y < rows,
    {
        assert(y * cols + x < y * cols + cols);
        assert(y * cols + cols == (y + 1) * cols);
        assert((y + 1) * cols <= rows * cols);
    }
    vstd::arithmetic::div_mod::lemma_fundamental_div_mod_converse(
        (y * cols + x) as int,
        cols as int,
        y as int,
        x as int,
    );
}

/// A position below `rows * cols` is the position of its own column
/// (`k % cols`) and row (`k / cols`), and that row is below `rows`.
pub proof fn lemma_position_split(cols: nat, rows: nat, k: int)
    requires
        cols > 0,
        0 <= k < rows * cols,
    ensures
        0 <= k % (cols as int) < cols,
        0 <= k / (cols as int) < rows,
        k == (k / (cols as int)) * (cols as int) + k % (cols as int),
{
    vstd::arithmetic::div_mod::lemma_fundamental_div_mod(k, cols as int);
    let q = k / (cols as int);
    let r = k % (cols as int);
    assert(0 <= r < cols);
    assert(q < rows) by (nonlinear_arith)
        requires
            k == cols * q + r,
            0 <= r,
            k < rows * cols,
            cols > 0,
    {
        if q >= rows {
            assert(cols * q >= cols * rows);
        }
    }
    assert(q >= 0) by (nonlinear_arith)
        requires
            k == cols * q + r,
            r < cols,
            k >= 0,
            cols > 0,
    {
        if q < 0 {
            assert(cols * q <= -cols);
        }
    }
    assert(k == q * (cols as int) + r) by (nonlinear_arith)
        requires
            k == cols * q + r,
    ;
}

/// Position of the cell in column `x` and row `y` of a `cols` by `rows` field.
pub fn cell_index(cols: usize, rows: usize, x: usize, y: usize) -> (k: usize)
    requires
        x < cols,
        y < rows,
        rows * cols <= usize::MAX,
    ensures
        k == index_of(cols as nat, x as nat, y as nat),
        k < rows * cols,
{
    proof {
        lemma_index_of(cols as nat, rows as nat, x as nat, y as nat);
    }
    y * cols + x
}

/// Different cells of a `cols` by `rows` field have different positions.
pub proof fn lemma_index_distinct(cols: nat, rows: nat, x1: nat, y1: nat, x2: nat, y2: nat)
    requires
        x1 < cols,
        y1 < rows,
        x2 < cols,
        y2 < rows,
        x1 != x2 || y1 != y2,
    ensures
        index_of(cols, x1, y1) != index_of(cols, x2, y2),
{
    lemma_index_of(cols, rows, x1, y1);
    lemma_index_of(cols, rows, x2, y2);
}

} // verus!
