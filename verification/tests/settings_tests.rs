use beams::settings::{beam_count, twinkle_setting};

#[test]
fn beam_count_defaults_to_four() {
    assert_eq!(beam_count(None), 4);
}

#[test]
fn beam_count_is_clamped_to_two_through_six() {
    assert_eq!(beam_count(Some(0)), 2);
    assert_eq!(beam_count(Some(1)), 2);
    assert_eq!(beam_count(Some(2)), 2);
    assert_eq!(beam_count(Some(5)), 5);
    assert_eq!(beam_count(Some(6)), 6);
    assert_eq!(beam_count(Some(99)), 6);
}

#[test]
fn twinkle_defaults_to_on() {
    assert_eq!(twinkle_setting(None), 1);
    assert_eq!(twinkle_setting(Some(0)), 0);
}
