//! The logo overlay: where the glyphs of the centred logo block land, and how
//! they are stamped onto the grid.

use vstd::prelude::*;
use crate::cell::{GridCell, Rgb, index_of, cell_index};

verus! {

/// One visible glyph of the logo and the field cell it lands on.
#[derive(Clone, Copy, PartialEq, Eq, Debug, Structural)]
pub struct LogoGlyph {
    pub x: usize,
    pub y: usize,
    pub ch: char,
}

/// The logo glyph `ch` in column `x` and row `y`.
pub open spec fn glyph_at(x: nat, y: nat, ch: char) -> LogoGlyph {
    LogoGlyph { x: x as usize, y: y as usize, ch }
}

/// Width of the logo block: the length of its longest line (zero for no lines).
pub open spec fn block_width(lines: Seq<Seq<char>>) -> nat
    decreases lines.len(),
{
    if lines.len() == 0 {
        0
    } else {
        let w = block_width(lines.drop_last());
        if lines.last().len() > w {
            lines.last().len()
        } else {
            w
        }
    }
}

/// Offset that centres something `extent` long in `room`: half the slack,
/// rounded down, or zero when it does not fit.
pub open spec fn centre_offset(extent: nat, room: nat) -> nat {
    if room >= extent {
        ((room - extent) as nat) / 2
    } else {
        0
    }
}

/// The visible glyphs among the first `n` characters of a logo line drawn from
/// column `x0` on row `y`, left to right: every character other than a space
/// whose column is inside a field `cols` wide.
pub open spec fn line_glyphs(line: Seq<char>, n: nat, x0: nat, y: nat, cols: nat) -> Seq<LogoGlyph>
    decreases n,
{
    if n == 0 {
        Seq::empty()
    } else {
        let c = (n - 1) as nat;
        let rest = line_glyphs(line, c, x0, y, cols);
        if x0 + c < cols && line[c as int] != ' ' {
            rest.push(glyph_at(x0 + c, y, line[c as int]))
        } else {
            rest
        }
    }
}

/// The visible glyphs of the first `n` logo lines drawn from (`x0`, `y0`), row
/// after row; rows at or below the field's last row show nothing.
pub open spec fn block_glyphs(lines: Seq<Seq<char>>, n: nat, x0: nat, y0: nat, cols: nat, rows: nat) -> Seq<LogoGlyph>
    decreases n,
{
    if n == 0 {
        Seq::empty()
    } else {
        let r = (n - 1) as nat;
        let rest = block_glyphs(lines, r, x0, y0, cols, rows);
        if y0 + r < rows {
            rest + line_glyphs(lines[r as int], lines[r as int].len(), x0, y0 + r, cols)
        } else {
            rest
        }
    }
}

/// The visible glyphs of the logo block centred in a `cols` by `rows` field.
pub open spec fn logo_layout(lines: Seq<Seq<char>>, cols: nat, rows: nat) -> Seq<LogoGlyph> {
    block_glyphs(
        lines,
        lines.len(),
        centre_offset(block_width(lines), cols),
        centre_offset(lines.len(), rows),
        cols,
        rows,
    )
}

/// The logo lines as sequences of characters.
pub open spec fn lines_view(lines: Seq<Vec<char>>) -> Seq<Seq<char>> {
    lines.map_values(|l: Vec<char>| l@)
}

fn block_width_of(lines: &Vec<Vec<char>>) -> (w: usize)
    ensures
        w == block_width(lines_view(lines@)),
{
    let mut w: usize = 0;
    let mut i: usize = 0;
    while i < lines.len()
        invariant
            i <= lines@.len(),
            w == block_width(lines_view(lines@.take(i as int))),
        decreases lines@.len() - i,
    {
        proof {
            assert(lines_view(lines@.take(i + 1)).drop_last() =~= lines_view(lines@.take(i as int)));
        }
        if lines[i].len() > w {
            w = lines[i].len();
        }
        i += 1;
    }
    assert(lines@.take(lines@.len() as int) =~= lines@);
    w
}

/// Lays out the logo block centred in a `cols` by `rows` field: the block is
/// as wide as its longest line and as tall as its line count, its top-left
/// corner sits at half the horizontal and half the vertical slack (zero when it
/// does not fit), and every non-space character whose cell is inside the field
/// is listed, row after row, left to right.
pub fn logo_placements(lines: &Vec<Vec<char>>, cols: usize, rows: usize) -> (glyphs: Vec<LogoGlyph>)
    ensures
        glyphs@ == logo_layout(lines_view(lines@), cols as nat, rows as nat),
{
    let ghost ls = lines_view(lines@);
    let width = block_width_of(lines);
    let height = lines.len();
    let x0 = if cols >= width { (cols - width) / 2 } else { 0 };
    let y0 = if rows >= height { (rows - height) / 2 } else { 0 };
    let mut out: Vec<LogoGlyph> = Vec::new();
    let mut r: usize = 0;
    while r < height
        invariant
            height == lines@.len(),
            ls == lines_view(lines@),
            x0 <= cols,
            y0 <= rows,
            x0 == centre_offset(block_width(ls), cols as nat),
            y0 == centre_offset(ls.len(), rows as nat),
            r <= height,
            out@ == block_glyphs(ls, r as nat, x0 as nat, y0 as nat, cols as nat, rows as nat),
        decreases height - r,
    {
        if r < rows - y0 {
            let line = &lines[r];
            assert(line@ == ls[r as int]);
            let ghost base = out@;
            let mut c: usize = 0;
            while c < line.len()
                invariant
                    x0 <= cols,
                    y0 + r < rows,
                    c <= line@.len(),
                    out@ == base + line_glyphs(line@, c as nat, x0 as nat, (y0 + r) as nat, cols as nat),
                decreases line@.len() - c,
            {
                let ch = line[c];
                let ghost prev = line_glyphs(line@, c as nat, x0 as nat, (y0 + r) as nat, cols as nat);
                let ghost next = line_glyphs(line@, (c + 1) as nat, x0 as nat, (y0 + r) as nat, cols as nat);
                if c < cols - x0 && ch != ' ' {
                    let g = LogoGlyph { x: x0 + c, y: y0 + r, ch };
                    out.push(g);
                    proof {
                        assert(next == prev.push(g));
                        assert(out@ =~= base + next);
                    }
                } else {
                    proof {
                        assert(next == prev);
                    }
                }
                c += 1;
            }
        }
        r += 1;
    }
    out
}

/// Every listed logo glyph is a non-space character inside the field.
pub proof fn lemma_logo_inside_field(lines: Seq<Seq<char>>, cols: nat, rows: nat)
    requires
        cols <= usize::MAX,
        rows <= usize::MAX,
    ensures
        forall|i: int| 0 <= i < logo_layout(lines, cols, rows).len() ==> {
            let g = #[trigger] logo_layout(lines, cols, rows)[i];
            &&& g.x < cols
            &&& g.y < rows
            &&& g.ch != ' '
        },
{
    lemma_block_glyphs_inside(
        lines,
        lines.len(),
        centre_offset(block_width(lines), cols),
        centre_offset(lines.len(), rows),
        cols,
        rows,
    );
}

proof fn lemma_line_glyphs_inside(line: Seq<char>, n: nat, x0: nat, y: nat, cols: nat)
    requires
        n <= line.len(),
        cols <= usize::MAX,
        y <= usize::MAX,
    ensures
        forall|i: int| 0 <= i < line_glyphs(line, n, x0, y, cols).len() ==> {
            let g = #[trigger] line_glyphs(line, n, x0, y, cols)[i];
            &&& g.x < cols
            &&& g.y == y
            &&& g.ch != ' '
            &&& x0 <= g.x < x0 + n
        },
    decreases n,
{
    if n > 0 {
        let c = (n - 1) as nat;
        lemma_line_glyphs_inside(line, c, x0, y, cols);
        let rest = line_glyphs(line, c, x0, y, cols);
        if x0 + c < cols && line[c as int] != ' ' {
            let g = glyph_at(x0 + c, y, line[c as int]);
            assert(line_glyphs(line, n, x0, y, cols) == rest.push(g));
            assert forall|i: int| 0 <= i < rest.push(g).len() implies {
                let h = #[trigger] rest.push(g)[i];
                &&& h.x < cols
                &&& h.y == y
                &&& h.ch != ' '
                &&& x0 <= h.x < x0 + n
            } by {
                if i < rest.len() {
                    assert(rest.push(g)[i] == rest[i]);
                } else {
                    assert(rest.push(g)[i] == g);
                }
            }
        } else {
            assert(line_glyphs(line, n, x0, y, cols) == rest);
        }
    }
}

proof fn lemma_block_glyphs_inside(lines: Seq<Seq<char>>, n: nat, x0: nat, y0: nat, cols: nat, rows: nat)
    requires
        n <= lines.len(),
        cols <= usize::MAX,
        rows <= usize::MAX,
    ensures
        forall|i: int| 0 <= i < block_glyphs(lines, n, x0, y0, cols, rows).len() ==> {
            let g = #[trigger] block_glyphs(lines, n, x0, y0, cols, rows)[i];
            &&& g.x < cols
            &&& g.y < rows
            &&& g.ch != ' '
            &&& y0 <= g.y < y0 + n
        },
    decreases n,
{
    if n > 0 {
        let r = (n - 1) as nat;
        lemma_block_glyphs_inside(lines, r, x0, y0, cols, rows);
        if y0 + r < rows {
            let rest = block_glyphs(lines, r, x0, y0, cols, rows);
            let line = line_glyphs(lines[r as int], lines[r as int].len(), x0, y0 + r, cols);
            lemma_line_glyphs_inside(lines[r as int], lines[r as int].len(), x0, y0 + r, cols);
            assert(block_glyphs(lines, n, x0, y0, cols, rows) == rest + line);
            assert forall|i: int| 0 <= i < (rest + line).len() implies {
                let g = #[trigger] (rest + line)[i];
                &&& g.x < cols
                &&& g.y < rows
                &&& g.ch != ' '
                &&& y0 <= g.y < y0 + n
            } by {
                if i < rest.len() {
                    assert((rest + line)[i] == rest[i]);
                } else {
                    assert((rest + line)[i] == line[i - rest.len()]);
                }
            }
        } else {
            assert(block_glyphs(lines, n, x0, y0, cols, rows) == block_glyphs(lines, r, x0, y0, cols, rows));
        }
    }
}

/// Glyph `a` comes strictly before glyph `b` in reading order (row after row,
/// left to right), so the two land on different cells.
pub open spec fn reads_before(a: LogoGlyph, b: LogoGlyph) -> bool {
    a.y < b.y || (a.y == b.y && a.x < b.x)
}

/// The glyphs of the laid-out logo come in strict reading order, so no two of
/// them land on the same cell.
pub proof fn lemma_logo_in_reading_order(lines: Seq<Seq<char>>, cols: nat, rows: nat)
    requires
        cols <= usize::MAX,
        rows <= usize::MAX,
    ensures
        forall|i: int, j: int|
            0 <= i < j < logo_layout(lines, cols, rows).len() ==> reads_before(
                #[trigger] logo_layout(lines, cols, rows)[i],
                #[trigger] logo_layout(lines, cols, rows)[j],
            ),
{
    lemma_block_glyphs_ordered(
        lines,
        lines.len(),
        centre_offset(block_width(lines), cols),
        centre_offset(lines.len(), rows),
        cols,
        rows,
    );
}

proof fn lemma_line_glyphs_ordered(line: Seq<char>, n: nat, x0: nat, y: nat, cols: nat)
    requires
        n <= line.len(),
        cols <= usize::MAX,
        y <= usize::MAX,
    ensures
        forall|i: int, j: int|
            0 <= i < j < line_glyphs(line, n, x0, y, cols).len() ==> (#[trigger] line_glyphs(line, n, x0, y, cols)[i]).x
                < (#[trigger] line_glyphs(line, n, x0, y, cols)[j]).x,
    decreases n,
{
    if n > 0 {
        let c = (n - 1) as nat;
        lemma_line_glyphs_ordered(line, c, x0, y, cols);
        lemma_line_glyphs_inside(line, c, x0, y, cols);
        let rest = line_glyphs(line, c, x0, y, cols);
        if x0 + c < cols && line[c as int] != ' ' {
            let g = glyph_at(x0 + c, y, line[c as int]);
            assert(line_glyphs(line, n, x0, y, cols) == rest.push(g));
            assert forall|i: int, j: int| 0 <= i < j < rest.push(g).len() implies (#[trigger] rest.push(g)[i]).x
                < (#[trigger] rest.push(g)[j]).x by {
                assert(rest.push(g)[i] == rest[i]);
                if j < rest.len() {
                    assert(rest.push(g)[j] == rest[j]);
                } else {
                    assert(rest.push(g)[j] == g);
                }
            }
        } else {
            assert(line_glyphs(line, n, x0, y, cols) == rest);
        }
    }
}

proof fn lemma_block_glyphs_ordered(lines: Seq<Seq<char>>, n: nat, x0: nat, y0: nat, cols: nat, rows: nat)
    requires
        n <= lines.len(),
        cols <= usize::MAX,
        rows <= usize::MAX,
    ensures
        forall|i: int, j: int|
            0 <= i < j < block_glyphs(lines, n, x0, y0, cols, rows).len() ==> reads_before(
                #[trigger] block_glyphs(lines, n, x0, y0, cols, rows)[i],
                #[trigger] block_glyphs(lines, n, x0, y0, cols, rows)[j],
            ),
    decreases n,
{
    if n > 0 {
        let r = (n - 1) as nat;
        lemma_block_glyphs_ordered(lines, r, x0, y0, cols, rows);
        lemma_block_glyphs_inside(lines, r, x0, y0, cols, rows);
        if y0 + r < rows {
            let rest = block_glyphs(lines, r, x0, y0, cols, rows);
            let line = line_glyphs(lines[r as int], lines[r as int].len(), x0, y0 + r, cols);
            lemma_line_glyphs_inside(lines[r as int], lines[r as int].len(), x0, y0 + r, cols);
            lemma_line_glyphs_ordered(lines[r as int], lines[r as int].len(), x0, y0 + r, cols);
            assert(block_glyphs(lines, n, x0, y0, cols, rows) == rest + line);
            assert forall|i: int, j: int| 0 <= i < j < (rest + line).len() implies reads_before(
                #[trigger] (rest + line)[i],
                #[trigger] (rest + line)[j],
            ) by {
                if j < rest.len() {
                    assert((rest + line)[i] == rest[i]);
                    assert((rest + line)[j] == rest[j]);
                } else if i < rest.len() {
                    assert((rest + line)[i] == rest[i]);
                    assert((rest + line)[j] == line[j - rest.len()]);
                } else {
                    assert((rest + line)[i] == line[i - rest.len()]);
                    assert((rest + line)[j] == line[j - rest.len()]);
                }
            }
        } else {
            assert(block_glyphs(lines, n, x0, y0, cols, rows) == block_glyphs(lines, r, x0, y0, cols, rows));
        }
    }
}

/// The block is exactly as wide as its longest line: no line is longer, and
/// (when there is a line) some line is that long.
pub proof fn lemma_block_width_is_longest_line(lines: Seq<Seq<char>>)
    ensures
        forall|i: int| 0 <= i < lines.len() ==> (#[trigger] lines[i]).len() <= block_width(lines),
        lines.len() > 0 ==> exists|j: int| 0 <= j < lines.len() && (#[trigger] lines[j]).len() == block_width(lines),
        lines.len() == 0 ==> block_width(lines) == 0,
    decreases lines.len(),
{
    if lines.len() > 0 {
        let prev = lines.drop_last();
        lemma_block_width_is_longest_line(prev);
        let n = lines.len() - 1;
        assert(lines.last() == lines[n]);
        assert forall|i: int| 0 <= i < lines.len() implies (#[trigger] lines[i]).len() <= block_width(lines) by {
            if i < n {
                assert(prev[i] == lines[i]);
            }
        }
        if lines[n].len() > block_width(prev) {
            assert(lines[n].len() == block_width(lines));
        } else if prev.len() > 0 {
            let j = choose|j: int| 0 <= j < prev.len() && (#[trigger] prev[j]).len() == block_width(prev);
            assert(prev[j] == lines[j]);
            assert(lines[j].len() == block_width(lines));
        } else {
            assert(lines[n].len() == block_width(lines));
        }
    }
}

/// The logo's left edge sits at half the room the longest line leaves in the
/// field (rounded down), or at the field's left edge when that line does not fit.
pub proof fn lemma_logo_left_edge(lines: Seq<Seq<char>>, cols: nat, j: int)
    requires
        0 <= j < lines.len(),
        forall|i: int| 0 <= i < lines.len() ==> (#[trigger] lines[i]).len() <= lines[j].len(),
    ensures
        centre_offset(block_width(lines), cols) == (if cols >= lines[j].len() { ((cols - lines[j].len()) as nat) / 2 } else { 0 }),
{
    lemma_block_width_is_longest_line(lines);
    let w = block_width(lines);
    let k = choose|k: int| 0 <= k < lines.len() && (#[trigger] lines[k]).len() == w;
    assert(lines[k].len() <= lines[j].len());
    assert(w == lines[j].len());
}

/// When the logo block fits in the field, it is centred: the margins on its
/// two sides differ by at most one cell, horizontally and vertically.
pub proof fn lemma_logo_centred(lines: Seq<Seq<char>>, cols: nat, rows: nat)
    requires
        block_width(lines) <= cols,
        lines.len() <= rows,
    ensures
        ({
            let x0 = centre_offset(block_width(lines), cols);
            let y0 = centre_offset(lines.len(), rows);
            let right = cols - x0 - block_width(lines);
            let bottom = rows - y0 - lines.len();
            &&& x0 <= right <= x0 + 1
            &&& y0 <= bottom <= y0 + 1
        }),
{
}

/// A logo glyph with its colour and boldness, ready to be stamped.
pub struct LogoStamp {
    pub x: usize,
    pub y: usize,
    pub ch: char,
    pub fg: Rgb,
    pub bold: bool,
}

/// Grid `g` after stamp `s`: a stamp inside the field replaces the glyph,
/// colour and boldness of its cell (keeping the background), whatever was
/// there; a stamp outside changes nothing.
pub open spec fn paint_stamp(g: Seq<GridCell>, cols: nat, rows: nat, s: LogoStamp) -> Seq<GridCell> {
    if s.x < cols && s.y < rows {
        let k = index_of(cols, s.x as nat, s.y as nat) as int;
        g.update(k, GridCell { ch: s.ch, fg: s.fg, bg: g[k].bg, bold: s.bold })
    } else {
        g
    }
}

/// Grid `g` after the stamps are applied one after another, in order.
pub open spec fn logo_layer(g: Seq<GridCell>, cols: nat, rows: nat, stamps: Seq<LogoStamp>) -> Seq<GridCell>
    decreases stamps.len(),
{
    if stamps.len() == 0 {
        g
    } else {
        paint_stamp(logo_layer(g, cols, rows, stamps.drop_last()), cols, rows, stamps.last())
    }
}

/// Stamps the logo onto the grid (see `paint_stamp`), one glyph after another.
pub fn draw_logo_layer(grid: &mut Vec<GridCell>, cols: usize, rows: usize, stamps: &Vec<LogoStamp>)
    requires
        rows * cols <= old(grid)@.len(),
    ensures
        final(grid)@ == logo_layer(old(grid)@, cols as nat, rows as nat, stamps@),
        final(grid)@.len() == old(grid)@.len(),
{
    let ghost g0 = grid@;
    let n = grid.len();
    let mut i: usize = 0;
    while i < stamps.len()
        invariant
            i <= stamps@.len(),
            rows * cols <= n,
            grid@.len() == n,
            grid@ == logo_layer(g0, cols as nat, rows as nat, stamps@.take(i as int)),
        decreases stamps@.len() - i,
    {
        let s = &stamps[i];
        if s.x < cols && s.y < rows {
            let k = cell_index(cols, rows, s.x, s.y);
            let bg = grid[k].bg;
            grid.set(k, GridCell { ch: s.ch, fg: s.fg, bg, bold: s.bold });
        }
        proof {
            assert(stamps@.take(i + 1).drop_last() =~= stamps@.take(i as int));
        }
        i += 1;
    }
    assert(stamps@.take(stamps@.len() as int) =~= stamps@);
}

} // verus!
