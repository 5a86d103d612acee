use beams::population::{fit_population, particle_capacity, star_capacity, star_glyph, Viewport};

#[test]
fn star_capacity_of_a_standard_terminal() {
    // 80 x 24 = 1920 cells, one star per 16 cells.
    assert_eq!(star_capacity(80, 24, 1), 120);
}

#[test]
fn star_capacity_is_clamped() {
    assert_eq!(star_capacity(10, 10, 1), 30);
    assert_eq!(star_capacity(200, 100, 1), 200);
    assert_eq!(star_capacity(0, 0, 1), 30);
}

#[test]
fn star_capacity_without_twinkling_stars() {
    assert_eq!(star_capacity(80, 24, 0), 0);
    assert_eq!(star_capacity(80, 24, 2), 0);
}

#[test]
fn particle_capacity_is_clamped() {
    // 1920 / 12 = 160, held to 150.
    assert_eq!(particle_capacity(80, 24), 150);
    assert_eq!(particle_capacity(40, 12), 40);
    assert_eq!(particle_capacity(1, 1), 30);
}

#[test]
fn capacity_grows_with_area() {
    let mut last = 0;
    for side in 1..120usize {
        let n = star_capacity(side, side, 1);
        assert!(n >= last);
        last = n;
    }
}

#[test]
fn star_glyphs_follow_their_position() {
    assert_eq!(star_glyph(0), '\u{2726}');
    assert_eq!(star_glyph(1), '.');
    assert_eq!(star_glyph(3), '\u{2022}');
    assert_eq!(star_glyph(6), '\u{2022}');
    assert_eq!(star_glyph(8), '\u{2726}');
    assert_eq!(star_glyph(24), '\u{2726}');
    assert_eq!(star_glyph(7), '.');
}

#[test]
fn fit_population_truncates_a_large_population() {
    let mut v = vec![10, 11, 12, 13, 14];
    let missing = fit_population(&mut v, 3);
    assert_eq!(v, vec![10, 11, 12]);
    assert_eq!(missing, 0);
}

#[test]
fn fit_population_reports_what_is_missing() {
    let mut v = vec![1, 2];
    let missing = fit_population(&mut v, 6);
    assert_eq!(v, vec![1, 2]);
    assert_eq!(missing, 4);
    for i in 0..missing {
        v.push(100 + i);
    }
    assert_eq!(v.len(), 6);
}

#[test]
fn fit_population_to_zero_empties() {
    let mut v = vec!['a', 'b'];
    assert_eq!(fit_population(&mut v, 0), 0);
    assert!(v.is_empty());
}

#[test]
fn new_viewport_has_seen_no_field() {
    let vp = Viewport::new();
    assert_eq!(vp.last_cols, 0);
    assert_eq!(vp.last_rows, 0);
}

#[test]
fn viewport_resize_clears_and_records() {
    let mut vp = Viewport::new();
    let mut stars = vec![1u8, 2, 3];
    let mut dust = vec![4u8];
    assert!(vp.sync(80, 24, &mut stars, &mut dust));
    assert_eq!(vp.last_cols, 80);
    assert_eq!(vp.last_rows, 24);
    assert!(stars.is_empty());
    assert!(dust.is_empty());
}

#[test]
fn viewport_same_size_keeps_populations() {
    let mut vp = Viewport::new();
    let mut stars: Vec<u8> = Vec::new();
    let mut dust: Vec<u8> = Vec::new();
    assert!(vp.sync(80, 24, &mut stars, &mut dust));
    stars.push(7);
    dust.push(9);
    assert!(!vp.sync(80, 24, &mut stars, &mut dust));
    assert_eq!(stars, vec![7]);
    assert_eq!(dust, vec![9]);
    assert!(vp.sync(80, 25, &mut stars, &mut dust));
    assert!(stars.is_empty());
}
