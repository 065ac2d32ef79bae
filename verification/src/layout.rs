//! The keyboard geometry the renderer draws: a plain-value model of the
//! computed 2-d keyboard — one element per key, each a set of pixel
//! rectangles — and the trusted boundary to the piano_keyboard crate
//! that computes it.

use crate::keyboard::spec_is_white;
use vstd::prelude::*;

verus! {

/// One pixel-accurate rectangle of the keyboard drawing.
#[derive(Clone, Copy, Debug, PartialEq, Eq, Structural)]
pub struct Rect16 {
    pub x: u16,
    pub y: u16,
    pub width: u16,
    pub height: u16,
}

/// One key's shape: a white key is up to three rectangles (its wide
/// part, its small part beside the black keys, and a blind part where
/// an outer black key is missing), a black key is one.
#[derive(Clone, Copy, Debug, PartialEq, Eq, Structural)]
pub enum KeyElement {
    WhiteKey { wide: Rect16, small: Rect16, blind: Option<Rect16> },
    BlackKey(Rect16),
}

/// The computed keyboard: the key range, the pixel size, and one
/// element per key, left to right.
pub struct KeyboardLayout {
    pub left_white_key: u8,
    pub right_white_key: u8,
    pub width: u16,
    pub height: u16,
    pub elements: Vec<KeyElement>,
}

impl KeyboardLayout {
    /// One element per key of the range.
    pub open spec fn wf(self) -> bool {
        &&& self.left_white_key <= self.right_white_key
        &&& self.elements@.len() == self.right_white_key - self.left_white_key + 1
    }

    /// Executable twin of `wf`.
    pub fn wf_check(&self) -> (r: bool)
        ensures
            r == self.wf(),
    {
        self.left_white_key <= self.right_white_key && self.elements.len() == (self.right_white_key
            - self.left_white_key) as usize + 1
    }
}

#[verifier::external_type_specification]
#[verifier::external_body]
pub struct ExPkKeyboard2d(piano_keyboard::Keyboard2d);

#[verifier::external_type_specification]
pub struct ExPkRectangle(piano_keyboard::Rectangle);

#[verifier::external_type_specification]
pub struct ExPkElement(piano_keyboard::Element);

/// The model of one of piano_keyboard's rectangles.
pub open spec fn spec_rect_model(r: piano_keyboard::Rectangle) -> Rect16 {
    Rect16 { x: r.x, y: r.y, width: r.width, height: r.height }
}

/// Copies one of piano_keyboard's rectangles into the model.
fn rect_model(r: &piano_keyboard::Rectangle) -> (m: Rect16)
    ensures
        m == spec_rect_model(*r),
{
    Rect16 { x: r.x, y: r.y, width: r.width, height: r.height }
}

/// The model of one of piano_keyboard's elements.
pub open spec fn spec_element_model(e: piano_keyboard::Element) -> KeyElement {
    match e {
        piano_keyboard::Element::WhiteKey { wide, small, blind } => KeyElement::WhiteKey {
            wide: spec_rect_model(wide),
            small: spec_rect_model(small),
            blind: match blind {
                Some(b) => Some(spec_rect_model(b)),
                None => None,
            },
        },
        piano_keyboard::Element::BlackKey(r) => KeyElement::BlackKey(spec_rect_model(r)),
    }
}

/// Copies one of piano_keyboard's elements into the model.
fn element_model(e: &piano_keyboard::Element) -> (m: KeyElement)
    ensures
        m == spec_element_model(*e),
{
    match e {
        piano_keyboard::Element::WhiteKey { wide, small, blind } => KeyElement::WhiteKey {
            wide: rect_model(wide),
            small: rect_model(small),
            blind: match blind {
                Some(b) => Some(rect_model(b)),
                None => None,
            },
        },
        piano_keyboard::Element::BlackKey(r) => KeyElement::BlackKey(rect_model(r)),
    }
}

/// Relies on piano_keyboard's KeyboardBuilder: `set_width` checks the
/// width against the default 88-key range, `set_most_left_right_white_keys`
/// checks the range (both ends white keys, at least an octave, at most
/// key 127) and re-checks the width against it; only a chain with every
/// check passed reaches `build2d`.
#[verifier::external_body]
fn build_keyboard2d_raw(width: u16, left_key: u8, right_key: u8, gap: bool) -> (r: Result<
    piano_keyboard::Keyboard2d,
    String,
>)
    ensures
        r is Ok <==> {
            &&& width <= 65535 - 127
            &&& width >= 87 * 3
            &&& left_key <= right_key
            &&& right_key <= 127
            &&& right_key - left_key >= 11
            &&& spec_is_white(left_key)
            &&& spec_is_white(right_key)
            &&& width >= (right_key - left_key) * 3
        },
{
    Ok(
        piano_keyboard::KeyboardBuilder::new().set_width(width)?.white_black_gap_present(
            gap,
        ).set_most_left_right_white_keys(left_key, right_key)?.build2d(),
    )
}

/// Relies on Keyboard2d's public fields and `iter`: the elements come
/// one per key of the built range, left to right, white and black keys
/// alternating.
#[verifier::external_body]
fn keyboard2d_model(kb: &piano_keyboard::Keyboard2d) -> (r: KeyboardLayout)
    ensures
        r.left_white_key <= r.right_white_key,
        r.elements@.len() == r.right_white_key - r.left_white_key + 1,
{
    KeyboardLayout {
        left_white_key: kb.left_white_key,
        right_white_key: kb.right_white_key,
        width: kb.width,
        height: kb.height,
        elements: kb.iter().map(|e| element_model(e)).collect(),
    }
}

/// Builds the keyboard geometry for the given pixel width and key
/// range, as the piano_keyboard crate computes it; the gap between
/// white and black keys is kept.  Fails exactly when the builder
/// rejects the width or the range.
pub fn build_keyboard(width: u16, left_key: u8, right_key: u8) -> (r: Result<KeyboardLayout, String>)
    ensures
        r is Ok <==> {
            &&& width <= 65535 - 127
            &&& width >= 87 * 3
            &&& left_key <= right_key
            &&& right_key <= 127
            &&& right_key - left_key >= 11
            &&& spec_is_white(left_key)
            &&& spec_is_white(right_key)
            &&& width >= (right_key - left_key) * 3
        },
        r matches Ok(kb) ==> kb.wf(),
{
    match build_keyboard2d_raw(width, left_key, right_key, true) {
        Ok(kb) => Ok(keyboard2d_model(&kb)),
        Err(e) => Err(e),
    }
}

} // verus!
