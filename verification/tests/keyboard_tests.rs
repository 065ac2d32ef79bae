use rusthesia::{Keyboard, KeyboardBuilder};

#[test]
fn white_keys_follow_the_octave_pattern() {
    let whites = [0u8, 2, 4, 5, 7, 9, 11];
    for key in 0u8..=127 {
        let expected = whites.contains(&(key % 12));
        assert_eq!(KeyboardBuilder::is_white(key), expected);
    }
    assert!(KeyboardBuilder::is_white(60));
    assert!(!KeyboardBuilder::is_white(61));
}

#[test]
fn key_to_white_counts_white_keys() {
    // Middle C is the 35th white key, counted from key 0.
    assert_eq!(KeyboardBuilder::key_to_white(60), 35);
    // Its black neighbour shares the index.
    assert_eq!(KeyboardBuilder::key_to_white(61), 35);
    assert_eq!(KeyboardBuilder::key_to_white(0), 0);
    assert_eq!(KeyboardBuilder::key_to_white(11), 6);
    assert_eq!(KeyboardBuilder::key_to_white(12), 7);
}

#[test]
fn builder_starts_from_the_standard_piano() {
    let b = KeyboardBuilder::new();
    assert_eq!(b.left_white_key, 21);
    assert_eq!(b.right_white_key, 108);
    let b = b.is_rd64();
    assert_eq!(b.left_white_key, 33);
    assert_eq!(b.right_white_key, 96);
}

#[test]
fn range_ends_must_be_white_keys() {
    assert!(KeyboardBuilder::new().set_most_left_right_white_keys(21, 108).is_some());
    assert!(KeyboardBuilder::new().set_most_left_right_white_keys(22, 108).is_none());
    assert!(KeyboardBuilder::new().set_most_left_right_white_keys(21, 106).is_none());
}

#[test]
fn build_carries_the_configured_frame() {
    let kb: Keyboard = KeyboardBuilder::new()
        .set_width(800)
        .set_max_height(300)
        .set_most_left_right_white_keys(24, 96)
        .unwrap()
        .build();
    assert_eq!(kb.left_white_key, 24);
    assert_eq!(kb.right_white_key, 96);
    assert_eq!(kb.width, 800);
    assert_eq!(kb.height, 300);
}
