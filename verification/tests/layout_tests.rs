use rusthesia::{build_keyboard, KeyElement};

#[test]
fn standard_keyboard_has_one_element_per_key() {
    let kb = build_keyboard(800, 21, 108).unwrap();
    assert_eq!(kb.left_white_key, 21);
    assert_eq!(kb.right_white_key, 108);
    assert_eq!(kb.elements.len(), 88);
    assert!(kb.wf_check());
    // The outer keys of an 88-key piano are white.
    assert!(matches!(kb.elements[0], KeyElement::WhiteKey { .. }));
    assert!(matches!(kb.elements[87], KeyElement::WhiteKey { .. }));
    // Its second key is black.
    assert!(matches!(kb.elements[1], KeyElement::BlackKey(_)));
    // The geometry is real: the black key sits right of the left edge.
    match &kb.elements[1] {
        KeyElement::BlackKey(r) => {
            assert!(r.x > 0);
            assert!(r.width > 0);
        }
        _ => unreachable!(),
    }
}

#[test]
fn one_octave_keyboard_builds() {
    let kb = build_keyboard(800, 21, 33).unwrap();
    assert_eq!(kb.elements.len(), 13);
}

#[test]
fn builder_rejects_bad_ranges_and_widths() {
    // The left end is a black key.
    assert!(build_keyboard(800, 22, 108).is_err());
    // Too narrow for the default range check.
    assert!(build_keyboard(100, 21, 108).is_err());
    // Less than one octave.
    assert!(build_keyboard(800, 60, 64).is_err());
}
