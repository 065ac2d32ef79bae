//! Keyboard range arithmetic: which MIDI keys are white, how a key
//! number maps to a white-key index, and the builder holding the
//! physical key measures that a renderer starts from.

use vstd::prelude::*;

verus! {

/// Whether a MIDI key number names a white key.
pub open spec fn spec_is_white(key: u8) -> bool {
    key % 12 == 0 || key % 12 == 2 || key % 12 == 4 || key % 12 == 5 || key % 12 == 7 || key % 12
        == 9 || key % 12 == 11
}

/// The index of a key among the white keys: black keys share the index
/// of their left white neighbour.
pub open spec fn spec_key_to_white(key: u8) -> int {
    if spec_is_white(key) {
        (key % 12 + 1) / 2 + (key / 12) * 7
    } else {
        (key % 12) / 2 + (key / 12) * 7
    }
}

/// The finished keyboard frame: key range and pixel size.
#[derive(Clone, Copy, Debug, PartialEq, Eq, Structural)]
pub struct Keyboard {
    pub left_white_key: u8,
    pub right_white_key: u8,
    pub width: u16,
    pub height: u16,
}

/// Builds a keyboard frame: key range, pixel budget, and the physical
/// key measures (in micrometers) that the proportions derive from.
pub struct KeyboardBuilder {
    pub left_white_key: u8,
    pub right_white_key: u8,
    pub width: u16,
    pub max_height: u16,
    pub white_key_wide_width: u32,
    pub white_key_small_width_cde: u32,
    pub white_key_small_width_fb: u32,
    pub white_key_small_width_ga: u32,
    pub black_key_width: u32,
    pub black_key_height: u32,
    pub white_key_height: u32,
    pub white_key_small_height: u32,
    pub white_key_wide_height: u32,
}

impl KeyboardBuilder {
    /// The standard 88-key piano, A0 to C8, with the published key
    /// measures.
    pub fn new() -> (r: KeyboardBuilder)
        ensures
            r.left_white_key == 21,
            r.right_white_key == 108,
            r.width == 640,
            r.max_height == 480,
    {
        KeyboardBuilder {
            left_white_key: 21,
            right_white_key: 108,
            width: 640,
            max_height: 480,
            white_key_wide_width: 22_150,
            white_key_small_width_cde: 13_970,
            white_key_small_width_fb: 12_830,
            white_key_small_width_ga: 13_080,
            black_key_width: 11_000,
            black_key_height: 45_000,
            white_key_height: 126_270,
            white_key_small_height: 80_000,
            white_key_wide_height: 45_000,
        }
    }

    /// Narrows the range to the 64-key span of an RD-64, A1 to C7.
    pub fn is_rd64(self) -> (r: KeyboardBuilder)
        ensures
            r.left_white_key == 21 + 12,
            r.right_white_key == 108 - 12,
            (KeyboardBuilder {
                left_white_key: self.left_white_key,
                right_white_key: self.right_white_key,
                ..r
            }) == self,
    {
        let mut b = self;
        b.left_white_key = 21 + 12;
        b.right_white_key = 108 - 12;
        b
    }

    /// Sets the range; both ends must be white keys, else nothing is
    /// built.
    pub fn set_most_left_right_white_keys(
        self,
        left_white_key: u8,
        right_white_key: u8,
    ) -> (r: Option<KeyboardBuilder>)
        ensures
            r is Some <==> spec_is_white(left_white_key) && spec_is_white(right_white_key),
            r matches Some(b) ==> b.left_white_key == left_white_key && b.right_white_key
                == right_white_key && (KeyboardBuilder {
                left_white_key: self.left_white_key,
                right_white_key: self.right_white_key,
                ..b
            }) == self,
    {
        if !KeyboardBuilder::is_white(left_white_key) {
            None
        } else if !KeyboardBuilder::is_white(right_white_key) {
            None
        } else {
            let mut b = self;
            b.left_white_key = left_white_key;
            b.right_white_key = right_white_key;
            Some(b)
        }
    }

    /// Sets the pixel width.
    pub fn set_width(self, width: u16) -> (r: KeyboardBuilder)
        ensures
            r.width == width,
            (KeyboardBuilder { width: self.width, ..r }) == self,
    {
        let mut b = self;
        b.width = width;
        b
    }

    /// Sets the pixel height budget.
    pub fn set_max_height(self, max_height: u16) -> (r: KeyboardBuilder)
        ensures
            r.max_height == max_height,
            (KeyboardBuilder { max_height: self.max_height, ..r }) == self,
    {
        let mut b = self;
        b.max_height = max_height;
        b
    }

    /// Whether a MIDI key number names a white key.
    pub fn is_white(key: u8) -> (r: bool)
        ensures
            r == spec_is_white(key),
    {
        match key % 12 {
            0 | 2 | 4 | 5 | 7 | 9 | 11 => true,
            _ => false,
        }
    }

    /// The index of a key among the white keys.
    pub fn key_to_white(key: u8) -> (r: u8)
        ensures
            r == spec_key_to_white(key),
    {
        let kx = key % 12;
        match kx {
            0 | 2 | 4 | 5 | 7 | 9 | 11 => (kx + 1) / 2 + (key / 12) * 7,
            _ => kx / 2 + (key / 12) * 7,
        }
    }

    /// The finished frame, using the full height budget.
    pub fn build(self) -> (r: Keyboard)
        ensures
            r == (Keyboard {
                left_white_key: self.left_white_key,
                right_white_key: self.right_white_key,
                width: self.width,
                height: self.max_height,
            }),
    {
        Keyboard {
            left_white_key: self.left_white_key,
            right_white_key: self.right_white_key,
            width: self.width,
            height: self.max_height,
        }
    }

    /// Shape generation never moved in from the renderer; the frame
    /// alone is what callers consume.
    pub fn get_key_shapes(&mut self, _width: u16, _height: u16) {
    }
}

} // verus!
