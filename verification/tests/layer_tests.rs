use beams::backdrop::draw_spotlight;
use beams::cell::{cell_index, GridCell, Rgb};
use beams::dust::{draw_dust, DustMote};
use beams::flare::{FlareArms, H_ARM, V_ARM};
use beams::frame::{draw_impl, FrameLayers};
use beams::logo::{draw_logo_layer, logo_placements, LogoGlyph, LogoStamp};
use beams::stars::{draw_star, StarSprite};

fn fresh(cols: usize, rows: usize) -> Vec<GridCell> {
    vec![GridCell::default(); cols * rows]
}

fn arms() -> FlareArms {
    FlareArms {
        h_alpha: 120,
        v_alpha: 90,
        h_colors: vec![Rgb::new(9, 9, 9); 11],
        v_colors: vec![Rgb::new(8, 8, 8); 4],
    }
}

fn star(sx: usize, sy: usize, key: u32) -> StarSprite {
    StarSprite { sx, sy, glyph: '\u{2726}', fg: Rgb::new(200, 200, 210), bold: true, flare_key: key, arms: arms() }
}

#[test]
fn default_cell_is_empty() {
    let c = GridCell::default();
    assert_eq!(c.ch, '\0');
    assert_eq!(c.fg, Rgb::new(0, 0, 0));
    assert_eq!(c.bg, Rgb::new(0, 0, 0));
    assert!(!c.bold);
}

#[test]
fn cell_index_is_row_major() {
    assert_eq!(cell_index(80, 24, 0, 0), 0);
    assert_eq!(cell_index(80, 24, 79, 0), 79);
    assert_eq!(cell_index(80, 24, 0, 1), 80);
    assert_eq!(cell_index(80, 24, 5, 23), 23 * 80 + 5);
}

#[test]
fn backdrop_clears_the_field_only() {
    let (cols, rows) = (4usize, 3usize);
    let mut grid = fresh(cols, rows);
    grid.push(GridCell { ch: 'x', fg: Rgb::new(1, 1, 1), bg: Rgb::new(2, 2, 2), bold: true });
    let shades: Vec<Rgb> = (0..12u8).map(|i| Rgb::new(i, 0, 0)).collect();
    draw_spotlight(&mut grid, cols, rows, &shades);
    for k in 0..12 {
        assert_eq!(grid[k].ch, ' ');
        assert_eq!(grid[k].fg, Rgb::new(0, 0, 0));
        assert_eq!(grid[k].bg, Rgb::new(k as u8, 0, 0));
        assert!(!grid[k].bold);
    }
    assert_eq!(grid[12].ch, 'x');
}

#[test]
fn stars_draw_on_their_cells_and_only_inside() {
    let (cols, rows) = (40usize, 10usize);
    let mut grid = fresh(cols, rows);
    let stars = vec![star(3, 2, 0), star(40, 2, 0), star(5, 10, 0)];
    draw_star(&mut grid, cols, rows, &stars, 100);
    assert_eq!(grid[2 * cols + 3].ch, '\u{2726}');
    assert!(grid[2 * cols + 3].bold);
    let drawn = grid.iter().filter(|c| c.ch != '\0').count();
    assert_eq!(drawn, 1);
}

#[test]
fn excited_star_flares_over_blank_cells() {
    let (cols, rows) = (40usize, 11usize);
    let mut grid = vec![GridCell { ch: ' ', ..GridCell::default() }; cols * rows];
    let stars = vec![star(20, 5, 500), star(2, 1, 50)];
    draw_star(&mut grid, cols, rows, &stars, 100);
    assert_eq!(grid[5 * cols + 21].ch, H_ARM);
    assert_eq!(grid[5 * cols + 9].ch, H_ARM);
    assert_eq!(grid[4 * cols + 20].ch, V_ARM);
    // The calm star has no flare.
    assert_eq!(grid[cols + 2].ch, '\u{2726}');
    assert_eq!(grid[cols + 3].ch, ' ');
}

#[test]
fn only_four_stars_flare() {
    let (cols, rows) = (60usize, 30usize);
    let mut grid = vec![GridCell { ch: ' ', ..GridCell::default() }; cols * rows];
    let stars: Vec<StarSprite> = (0..6).map(|i| star(5 + 10 * i, 2 + 5 * i, 200 + i as u32)).collect();
    draw_star(&mut grid, cols, rows, &stars, 100);
    // Stars 2..=5 are the most excited and flare; stars 0 and 1 do not.
    assert_eq!(grid[2 * cols + 6].ch, ' ');
    assert_eq!(grid[7 * cols + 16].ch, ' ');
    for i in 2..6usize {
        assert_eq!(grid[(2 + 5 * i) * cols + 6 + 10 * i].ch, H_ARM);
    }
}

#[test]
fn dust_covers_blanks_and_arms_only() {
    let (cols, rows) = (10usize, 2usize);
    let mut grid = vec![GridCell { ch: ' ', ..GridCell::default() }; cols * rows];
    grid[1].ch = H_ARM;
    grid[2].ch = V_ARM;
    grid[3].ch = '\u{2726}';
    let mote = |px, py, lit| DustMote { px, py, lit, glyph: '*', fg: Rgb::new(1, 2, 3) };
    let motes = vec![mote(0, 0, true), mote(1, 0, true), mote(2, 0, true), mote(3, 0, true), mote(4, 0, false), mote(0, 0, true), mote(10, 0, true)];
    draw_dust(&mut grid, cols, rows, &motes);
    assert_eq!(grid[0].ch, '*');
    assert_eq!(grid[1].ch, '*');
    assert_eq!(grid[2].ch, '*');
    assert_eq!(grid[3].ch, '\u{2726}');
    assert_eq!(grid[4].ch, ' ');
    assert_eq!(grid[10].ch, ' ');
}

fn lines(text: &[&str]) -> Vec<Vec<char>> {
    text.iter().map(|l| l.chars().collect()).collect()
}

#[test]
fn logo_is_centred() {
    let placed = logo_placements(&lines(&["AB", " C"]), 6, 4);
    assert_eq!(
        placed,
        vec![
            LogoGlyph { x: 2, y: 1, ch: 'A' },
            LogoGlyph { x: 3, y: 1, ch: 'B' },
            LogoGlyph { x: 3, y: 2, ch: 'C' },
        ]
    );
}

#[test]
fn logo_is_clipped_when_too_large() {
    let placed = logo_placements(&lines(&["ABCDE", "FGHIJ", "KLMNO"]), 3, 2);
    assert_eq!(
        placed,
        vec![
            LogoGlyph { x: 0, y: 0, ch: 'A' },
            LogoGlyph { x: 1, y: 0, ch: 'B' },
            LogoGlyph { x: 2, y: 0, ch: 'C' },
            LogoGlyph { x: 0, y: 1, ch: 'F' },
            LogoGlyph { x: 1, y: 1, ch: 'G' },
            LogoGlyph { x: 2, y: 1, ch: 'H' },
        ]
    );
}

#[test]
fn empty_logo_places_nothing() {
    assert!(logo_placements(&Vec::new(), 80, 24).is_empty());
    assert!(logo_placements(&lines(&["   "]), 80, 24).is_empty());
}

#[test]
fn logo_width_is_the_longest_line() {
    // Width 4 in a field 10 wide: offset 3.
    let placed = logo_placements(&lines(&["X", "WXYZ"]), 10, 2);
    assert_eq!(placed[0], LogoGlyph { x: 3, y: 0, ch: 'X' });
    assert_eq!(placed[1], LogoGlyph { x: 3, y: 1, ch: 'W' });
}

#[test]
fn logo_stamps_overwrite_anything() {
    let (cols, rows) = (5usize, 2usize);
    let mut grid = vec![GridCell { ch: '*', fg: Rgb::new(1, 1, 1), bg: Rgb::new(4, 4, 4), bold: false }; cols * rows];
    let stamps = vec![
        LogoStamp { x: 1, y: 1, ch: 'W', fg: Rgb::new(45, 20, 60), bold: false },
        LogoStamp { x: 7, y: 0, ch: 'Q', fg: Rgb::new(1, 1, 1), bold: true },
    ];
    draw_logo_layer(&mut grid, cols, rows, &stamps);
    assert_eq!(grid[6].ch, 'W');
    assert_eq!(grid[6].fg, Rgb::new(45, 20, 60));
    assert_eq!(grid[6].bg, Rgb::new(4, 4, 4));
    assert_eq!(grid.iter().filter(|c| c.ch == 'Q').count(), 0);
}

#[test]
fn frame_draws_every_cell_of_the_field() {
    let (cols, rows) = (80usize, 24usize);
    let mut grid = fresh(cols, rows);
    let placed = logo_placements(&lines(&["WIN11"]), cols, rows);
    let layers = FrameLayers {
        shades: vec![Rgb::new(3, 3, 3); cols * rows],
        twinkle: 1,
        stars: vec![star(10, 3, 500), star(70, 20, 10)],
        flare_threshold: 100,
        motes: vec![DustMote { px: 11, py: 3, lit: true, glyph: '+', fg: Rgb::new(140, 100, 255) }],
        logo: placed
            .iter()
            .map(|g| LogoStamp { x: g.x, y: g.y, ch: g.ch, fg: Rgb::new(45, 20, 60), bold: false })
            .collect(),
    };
    draw_impl(&mut grid, cols, rows, &layers);
    let drawn_count = grid.iter().filter(|c| c.ch != '\0').count();
    assert_eq!(drawn_count, cols * rows);
    // The logo sits centred on row 11: "WIN11" is 5 wide, (80 - 5) / 2 = 37.
    let text: String = (37..42).map(|x| grid[11 * cols + x].ch).collect();
    assert_eq!(text, "WIN11");
    // The first star flares; the dust mote covered its arm.
    assert_eq!(grid[3 * cols + 10].ch, '\u{2726}');
    assert_eq!(grid[3 * cols + 11].ch, '+');
    assert_eq!(grid[3 * cols + 12].ch, H_ARM);
    assert_eq!(grid[20 * cols + 71].ch, ' ');
}

#[test]
fn frame_without_twinkling_stars_has_no_stars() {
    let (cols, rows) = (20usize, 6usize);
    let mut grid = fresh(cols, rows);
    let layers = FrameLayers {
        shades: vec![Rgb::new(0, 0, 0); cols * rows],
        twinkle: 0,
        stars: vec![star(2, 2, 999)],
        flare_threshold: 1,
        motes: Vec::new(),
        logo: Vec::new(),
    };
    draw_impl(&mut grid, cols, rows, &layers);
    assert!(grid.iter().all(|c| c.ch == ' '));
}

#[test]
fn logo_glyphs_come_in_reading_order() {
    let placed = logo_placements(&lines(&["A B", "CD", "E  F"]), 12, 6);
    for pair in placed.windows(2) {
        let (a, b) = (pair[0], pair[1]);
        assert!(a.y < b.y || (a.y == b.y && a.x < b.x));
    }
    assert_eq!(placed.len(), 6);
}

#[test]
fn frame_leaves_cells_past_the_field_alone() {
    let (cols, rows) = (6usize, 3usize);
    let mut grid = fresh(cols, rows);
    let spare = GridCell { ch: 'z', fg: Rgb::new(7, 7, 7), bg: Rgb::new(6, 6, 6), bold: true };
    grid.push(spare);
    grid.push(spare);
    let layers = FrameLayers {
        shades: vec![Rgb::new(1, 1, 1); cols * rows],
        twinkle: 1,
        stars: vec![star(5, 2, 1000)],
        flare_threshold: 0,
        motes: vec![DustMote { px: 0, py: 2, lit: true, glyph: '*', fg: Rgb::new(1, 2, 3) }],
        logo: vec![LogoStamp { x: 2, y: 1, ch: 'L', fg: Rgb::new(1, 1, 1), bold: true }],
    };
    draw_impl(&mut grid, cols, rows, &layers);
    assert_eq!(grid[18], spare);
    assert_eq!(grid[19], spare);
    assert!(grid[..18].iter().all(|c| c.ch != '\0'));
}

#[test]
fn logo_stays_on_top_of_stars_and_dust() {
    let (cols, rows) = (10usize, 3usize);
    let mut grid = fresh(cols, rows);
    let layers = FrameLayers {
        shades: vec![Rgb::new(0, 0, 0); cols * rows],
        twinkle: 1,
        stars: vec![star(4, 1, 0)],
        flare_threshold: 10,
        motes: vec![DustMote { px: 5, py: 1, lit: true, glyph: '*', fg: Rgb::new(1, 2, 3) }],
        logo: vec![
            LogoStamp { x: 4, y: 1, ch: 'O', fg: Rgb::new(45, 20, 60), bold: false },
            LogoStamp { x: 5, y: 1, ch: 'S', fg: Rgb::new(45, 20, 60), bold: false },
        ],
    };
    draw_impl(&mut grid, cols, rows, &layers);
    assert_eq!(grid[cols + 4].ch, 'O');
    assert_eq!(grid[cols + 5].ch, 'S');
    assert_eq!(grid[cols + 4].fg, Rgb::new(45, 20, 60));
}
