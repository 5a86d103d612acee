use beams::host::{host_code_sum, on_battery, text_contains};

#[test]
fn code_sum_adds_code_points() {
    assert_eq!(host_code_sum(""), 0);
    assert_eq!(host_code_sum("ab"), 97 + 98);
    assert_eq!(host_code_sum("DESKTOP-1"), "DESKTOP-1".chars().map(|c| c as u32).sum::<u32>());
    assert_eq!(host_code_sum("\u{10FFFF}"), 0x10FFFF);
}

#[test]
fn code_sum_wraps_like_u32_addition() {
    let long: String = std::iter::repeat('\u{10FFFF}').take(5000).collect();
    let expected = long.chars().fold(0u32, |acc, c| acc.wrapping_add(c as u32));
    assert_eq!(host_code_sum(&long), expected);
}

#[test]
fn battery_is_detected_from_the_power_status() {
    assert!(on_battery("Battery"));
    assert!(on_battery("Running on Battery (42%)"));
    assert!(!on_battery("AC"));
    assert!(!on_battery("battery"));
    assert!(!on_battery("Batter"));
    assert!(!on_battery(""));
}

#[test]
fn text_search() {
    assert!(text_contains("hello world", "o w"));
    assert!(text_contains("abc", ""));
    assert!(text_contains("abc", "abc"));
    assert!(!text_contains("ab", "abc"));
    assert!(!text_contains("aab", "abb"));
    assert!(text_contains("aaab", "aab"));
}
