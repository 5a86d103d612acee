use beams::cell::{GridCell, Rgb};
use beams::flare::{horizontal_fade, paint_flare, select_flares, vertical_fade, FlareArms, H_ARM, V_ARM};

fn blank_grid(cols: usize, rows: usize) -> Vec<GridCell> {
    vec![
        GridCell { ch: ' ', fg: Rgb::new(0, 0, 0), bg: Rgb::new(1, 2, 3), bold: false };
        cols * rows
    ]
}

fn arms(h_alpha: u8, v_alpha: u8) -> FlareArms {
    FlareArms {
        h_alpha,
        v_alpha,
        h_colors: (1..12u8).map(|d| Rgb::new(d, 0, 0)).collect(),
        v_colors: (1..5u8).map(|d| Rgb::new(0, d, 0)).collect(),
    }
}

#[test]
fn flares_pick_the_most_excited_stars() {
    let keys = vec![5, 9, 9, 1, 7, 12];
    assert_eq!(select_flares(&keys, 4), vec![5, 1, 2, 4]);
}

#[test]
fn flares_are_at_most_four() {
    let keys = vec![50, 60, 70, 80, 90, 100];
    assert_eq!(select_flares(&keys, 0), vec![5, 4, 3, 2]);
}

#[test]
fn flares_need_a_key_above_the_threshold() {
    let keys = vec![4, 3, 5];
    assert_eq!(select_flares(&keys, 4), vec![2]);
    assert_eq!(select_flares(&keys, 5), Vec::<usize>::new());
    assert_eq!(select_flares(&Vec::new(), 0), Vec::<usize>::new());
}

#[test]
fn flare_ties_keep_star_order() {
    let keys = vec![8, 8, 8, 8, 8];
    assert_eq!(select_flares(&keys, 1), vec![0, 1, 2, 3]);
}

#[test]
fn fades_lose_brightness_per_cell() {
    // 110 / 12 = 9 per horizontal cell, 80 / 5 = 16 per vertical cell.
    assert_eq!(horizontal_fade(120, 1), 111);
    assert_eq!(horizontal_fade(120, 11), 21);
    assert_eq!(horizontal_fade(30, 3), 3);
    assert_eq!(horizontal_fade(30, 4), 0);
    assert_eq!(vertical_fade(90, 4), 26);
    assert_eq!(vertical_fade(20, 2), 0);
}

#[test]
fn fades_never_increase() {
    for alpha in [30u8, 77, 120, 180, 255] {
        for dx in 1..11usize {
            assert!(horizontal_fade(alpha, dx + 1) <= horizontal_fade(alpha, dx));
        }
        for dy in 1..4usize {
            assert!(vertical_fade(alpha, dy + 1) <= vertical_fade(alpha, dy));
        }
    }
}

#[test]
fn flare_paints_arms_on_blank_cells() {
    let (cols, rows) = (30usize, 11usize);
    let mut grid = blank_grid(cols, rows);
    paint_flare(&mut grid, cols, rows, 15, 5, &arms(120, 90));
    // Horizontal arm: fade(120, d) = 120 - 9d > 10 for every d in 1..=11.
    for d in 1..12usize {
        let right = grid[5 * cols + 15 + d];
        let left = grid[5 * cols + 15 - d];
        assert_eq!(right.ch, H_ARM);
        assert_eq!(left.ch, H_ARM);
        assert_eq!(right.fg, Rgb::new(d as u8, 0, 0));
        assert_eq!(right.bg, Rgb::new(1, 2, 3));
    }
    assert_eq!(grid[5 * cols + 15 + 12].ch, ' ');
    // Vertical arm: fade(90, d) = 90 - 16d > 10 for d in 1..=4.
    for d in 1..5usize {
        assert_eq!(grid[(5 + d) * cols + 15].ch, V_ARM);
        assert_eq!(grid[(5 - d) * cols + 15].ch, V_ARM);
        assert_eq!(grid[(5 + d) * cols + 15].fg, Rgb::new(0, d as u8, 0));
    }
    // The star's own cell and the cells off the cross stay.
    assert_eq!(grid[5 * cols + 15].ch, ' ');
    assert_eq!(grid[4 * cols + 14].ch, ' ');
}

#[test]
fn dim_flare_is_short() {
    let (cols, rows) = (30usize, 11usize);
    let mut grid = blank_grid(cols, rows);
    // fade(30, d) = 30 - 9d: above 10 only for d in 1..=2; fade(20, d) = 20 - 16d never above 10.
    paint_flare(&mut grid, cols, rows, 15, 5, &arms(30, 20));
    assert_eq!(grid[5 * cols + 16].ch, H_ARM);
    assert_eq!(grid[5 * cols + 17].ch, H_ARM);
    assert_eq!(grid[5 * cols + 18].ch, ' ');
    assert_eq!(grid[6 * cols + 15].ch, ' ');
}

#[test]
fn flare_is_clipped_at_the_edges() {
    let (cols, rows) = (5usize, 3usize);
    let mut grid = blank_grid(cols, rows);
    paint_flare(&mut grid, cols, rows, 0, 0, &arms(120, 90));
    for x in 1..5 {
        assert_eq!(grid[x].ch, H_ARM);
    }
    assert_eq!(grid[cols].ch, V_ARM);
    assert_eq!(grid[2 * cols].ch, V_ARM);
    assert_eq!(grid[cols + 1].ch, ' ');
}

#[test]
fn flare_spares_other_glyphs() {
    let (cols, rows) = (20usize, 9usize);
    let mut grid = blank_grid(cols, rows);
    grid[4 * cols + 12].ch = '*';
    grid[2 * cols + 10].ch = H_ARM;
    paint_flare(&mut grid, cols, rows, 10, 4, &arms(120, 90));
    assert_eq!(grid[4 * cols + 12].ch, '*');
    // A horizontal arm cell on the vertical arm's path is not a blank.
    assert_eq!(grid[2 * cols + 10].ch, H_ARM);
}

#[test]
fn flare_painted_twice_is_painted_once() {
    let (cols, rows) = (25usize, 9usize);
    let mut once = blank_grid(cols, rows);
    once[4 * cols + 3].ch = '.';
    paint_flare(&mut once, cols, rows, 12, 4, &arms(100, 70));
    let mut twice = once.clone();
    paint_flare(&mut twice, cols, rows, 12, 4, &arms(100, 70));
    assert_eq!(once, twice);
}
