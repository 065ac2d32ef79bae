//! Pure render geometry: which screen rectangles the falling-note view
//! copies from its strip textures for a given playback position, and
//! which key rectangles light up for the notes sounding around it.
//! The copying and filling of pixels happens outside the library; what
//! is computed here are the commands alone.

use crate::events::{MidiEvent, RawMidiTuple};
use crate::layout::{KeyElement, KeyboardLayout};
use vstd::prelude::*;

verus! {

/// A screen rectangle: origin, then extent.
#[derive(Clone, Copy, Debug, PartialEq, Eq, Structural)]
pub struct Rect {
    pub x: i32,
    pub y: i32,
    pub width: u32,
    pub height: u32,
}

impl Rect {
    /// A rectangle from origin and extent.
    pub fn new(x: i32, y: i32, width: u32, height: u32) -> (r: Rect)
        ensures
            r == (Rect { x, y, width, height }),
    {
        Rect { x, y, width, height }
    }

    /// The left edge.
    pub fn left(&self) -> (r: i32)
        ensures
            r == self.x,
    {
        self.x
    }

    /// The top edge.
    pub fn top(&self) -> (r: i32)
        ensures
            r == self.y,
    {
        self.y
    }

    /// One past the right edge.
    pub fn right(&self) -> (r: i32)
        requires
            self.x + self.width <= i32::MAX,
        ensures
            r == self.x + self.width,
    {
        (self.x as i64 + self.width as i64) as i32
    }

    /// One past the bottom edge.
    pub fn bottom(&self) -> (r: i32)
        requires
            self.y + self.height <= i32::MAX,
        ensures
            r == self.y + self.height,
    {
        (self.y as i64 + self.height as i64) as i32
    }

    /// The horizontal extent.
    pub fn width(&self) -> (r: u32)
        ensures
            r == self.width,
    {
        self.width
    }

    /// The vertical extent.
    pub fn height(&self) -> (r: u32)
        ensures
            r == self.height,
    {
        self.height
    }
}

/// One drawing step for the render loop: copy a rectangle of a texture
/// to the screen.
#[derive(Clone, Copy, Debug, PartialEq, Eq, Structural)]
pub enum DrawCommand {
    CopyToScreen { src_texture: usize, src_rect: Rect, dst_rect: Rect },
}

/// A color, one byte per channel.
#[derive(Clone, Copy, Debug, PartialEq, Eq, Structural)]
pub struct Rgb {
    pub r: u8,
    pub g: u8,
    pub b: u8,
}

/// Whether a MIDI key number names a white key.
pub fn is_white(key: u8) -> (r: bool)
    ensures
        r == crate::keyboard::spec_is_white(key),
{
    match key % 12 {
        0 | 2 | 4 | 5 | 7 | 9 | 11 => true,
        _ => false,
    }
}

/// The falling-note color of a track on a key: even tracks cyan, odd
/// tracks magenta, darker on black keys.
pub open spec fn spec_trk2col(trk: usize, key: u8) -> Rgb {
    match (trk % 2 == 0, crate::keyboard::spec_is_white(key)) {
        (true, true) => Rgb { r: 0, g: 255, b: 255 },
        (true, false) => Rgb { r: 0, g: 180, b: 180 },
        (false, true) => Rgb { r: 255, g: 0, b: 255 },
        (false, false) => Rgb { r: 180, g: 0, b: 180 },
    }
}

/// Executable twin of `spec_trk2col`.
pub fn trk2col(trk: usize, key: u8) -> (c: Rgb)
    ensures
        c == spec_trk2col(trk, key),
{
    match (trk % 2 == 0, is_white(key)) {
        (true, true) => Rgb { r: 0, g: 255, b: 255 },
        (true, false) => Rgb { r: 0, g: 180, b: 180 },
        (false, true) => Rgb { r: 255, g: 0, b: 255 },
        (false, false) => Rgb { r: 180, g: 0, b: 180 },
    }
}

/// The first waterfall row visible on screen: the playback position in
/// rows, rounded towards zero as the row arithmetic demands.
pub open spec fn spec_wf_row_top(pos_us: int, rows_per_s: int) -> int {
    if pos_us >= 0 {
        pos_us * rows_per_s / 1_000_000
    } else {
        -((-pos_us) * rows_per_s / 1_000_000)
    }
}

/// What texture `i` contributes to the screen: the intersection of its
/// rows with the visible row window, placed so that the waterfall
/// scrolls down towards the keyboard.
pub open spec fn spec_copy_cmd(
    i: int,
    wf_width: u32,
    wf_height: int,
    net_rows: int,
    overlap: int,
    row_top: int,
    row_bottom: int,
) -> Option<DrawCommand> {
    let tex_row_top = i * net_rows;
    let tex_row_bottom = tex_row_top + net_rows - 1;
    let copy_row_top = if row_top >= tex_row_top {
        row_top
    } else {
        tex_row_top
    };
    let copy_row_bottom = if row_bottom <= tex_row_bottom {
        row_bottom
    } else {
        tex_row_bottom
    };
    if copy_row_top > copy_row_bottom {
        None
    } else {
        let cp_height = copy_row_bottom - copy_row_top + 1;
        let y_dst_bottom = wf_height - (row_bottom - copy_row_bottom) - 1;
        let y_dst_top = y_dst_bottom - (cp_height - 1);
        let y_dst = wf_height - y_dst_top - cp_height;
        let y_src = (overlap + net_rows) - cp_height - (if copy_row_top - tex_row_top >= 0 {
            copy_row_top - tex_row_top
        } else {
            0
        });
        Some(
            DrawCommand::CopyToScreen {
                src_texture: (i + 2) as usize,
                src_rect: Rect {
                    x: 0,
                    y: y_src as i32,
                    width: wf_width,
                    height: cp_height as u32,
                },
                dst_rect: Rect {
                    x: 0,
                    y: y_dst as i32,
                    width: wf_width,
                    height: cp_height as u32,
                },
            },
        )
    }
}

/// The contributions of textures `0 .. n`, in order.
pub open spec fn spec_copy_waterfall(
    n: int,
    wf_width: u32,
    wf_height: int,
    net_rows: int,
    overlap: int,
    row_top: int,
    row_bottom: int,
) -> Seq<DrawCommand>
    decreases n,
{
    if n <= 0 {
        Seq::empty()
    } else {
        let prev = spec_copy_waterfall(
            n - 1,
            wf_width,
            wf_height,
            net_rows,
            overlap,
            row_top,
            row_bottom,
        );
        match spec_copy_cmd(n - 1, wf_width, wf_height, net_rows, overlap, row_top, row_bottom) {
            Some(c) => prev.push(c),
            None => prev,
        }
    }
}

/// Computes, for each of the `n` waterfall strip textures, the copy
/// command that puts its visible rows on screen at playback position
/// `pos_us`: exactly `spec_copy_waterfall` over the visible row window.
pub fn copy_waterfall_to_screen(
    n: usize,
    wf_width: u32,
    wf_height: u32,
    net_rows: u32,
    overlap: u32,
    rows_per_s: u32,
    pos_us: i64,
) -> (r: Vec<DrawCommand>)
    requires
        n <= 0x100000,
        1 <= net_rows,
        n * net_rows <= u32::MAX,
        1 <= wf_height <= 0x100000,
        net_rows <= 0x100000,
        overlap <= 0x100000,
        rows_per_s <= 100_000,
        -0x10000000000 <= pos_us <= 0x10000000000,
    ensures
        r@ == spec_copy_waterfall(
            n as int,
            wf_width,
            wf_height as int,
            net_rows as int,
            overlap as int,
            spec_wf_row_top(pos_us as int, rows_per_s as int),
            spec_wf_row_top(pos_us as int, rows_per_s as int) + wf_height - 1,
        ),
{
    proof {
        assert(0x10000000000int * 100_000int == 0x186a00000000000int);
    }
    let wf_row_top: i64 = if pos_us >= 0 {
        proof {
            assert((pos_us as int) * (rows_per_s as int) <= 0x10000000000int * 100_000int)
                by (nonlinear_arith)
                requires
                    0 <= pos_us as int <= 0x10000000000,
                    0 <= rows_per_s as int <= 100_000,
            ;
        }
        (pos_us as u64 * rows_per_s as u64 / 1_000_000) as i64
    } else {
        proof {
            assert(((-pos_us) as int) * (rows_per_s as int) <= 0x10000000000int * 100_000int)
                by (nonlinear_arith)
                requires
                    0 <= (-pos_us) as int <= 0x10000000000,
                    0 <= rows_per_s as int <= 100_000,
            ;
        }
        -((((-pos_us) as u64) * rows_per_s as u64 / 1_000_000) as i64)
    };
    let wf_row_bottom: i64 = wf_row_top + wf_height as i64 - 1;
    let ghost row_top = spec_wf_row_top(pos_us as int, rows_per_s as int);
    proof {
        assert(wf_row_top == row_top);
    }
    let mut commands: Vec<DrawCommand> = Vec::new();
    let mut i: usize = 0;
    while i < n
        invariant
            i <= n,
            n <= 0x100000,
            1 <= net_rows,
            n * net_rows <= u32::MAX,
            1 <= wf_height <= 0x100000,
            net_rows <= 0x100000,
            overlap <= 0x100000,
            wf_row_top == row_top,
            -0x2000000000000 <= row_top <= 0x2000000000000,
            wf_row_bottom == row_top + wf_height - 1,
            commands@ == spec_copy_waterfall(
                i as int,
                wf_width,
                wf_height as int,
                net_rows as int,
                overlap as int,
                row_top,
                wf_row_bottom as int,
            ),
        decreases n - i,
    {
        proof {
            vstd::arithmetic::mul::lemma_mul_inequality(i as int, n as int, net_rows as int);
        }
        let tex_row_top: i64 = (i as u32 * net_rows) as i64;
        let tex_row_bottom: i64 = tex_row_top + net_rows as i64 - 1;
        let copy_row_top: i64 = if wf_row_top >= tex_row_top {
            wf_row_top
        } else {
            tex_row_top
        };
        let copy_row_bottom: i64 = if wf_row_bottom <= tex_row_bottom {
            wf_row_bottom
        } else {
            tex_row_bottom
        };
        if copy_row_top <= copy_row_bottom {
            let cp_height: i64 = copy_row_bottom - copy_row_top + 1;
            let y_dst_bottom: i64 = wf_height as i64 - (wf_row_bottom - copy_row_bottom) - 1;
            let y_dst_top: i64 = y_dst_bottom - (cp_height - 1);
            let y_dst: i64 = wf_height as i64 - y_dst_top - cp_height;
            let skip: i64 = if copy_row_top - tex_row_top >= 0 {
                copy_row_top - tex_row_top
            } else {
                0
            };
            let y_src: i64 = (overlap as i64 + net_rows as i64) - cp_height - skip;
            let cmd = DrawCommand::CopyToScreen {
                src_texture: i + 2,
                src_rect: Rect {
                    x: 0,
                    y: y_src as i32,
                    width: wf_width,
                    height: cp_height as u32,
                },
                dst_rect: Rect {
                    x: 0,
                    y: y_dst as i32,
                    width: wf_width,
                    height: cp_height as u32,
                },
            };
            commands.push(cmd);
            proof {
                assert(commands@.drop_last() =~= spec_copy_waterfall(
                    i as int,
                    wf_width,
                    wf_height as int,
                    net_rows as int,
                    overlap as int,
                    row_top,
                    wf_row_bottom as int,
                ));
            }
        }
        i = i + 1;
    }
    commands
}

/// The key-velocity image the display shows at position `pos_us`:
/// events are replayed in order up to the position; note-ons light
/// their key, note-offs clear it, except that a note released within
/// the last 50 ms of the position keeps glowing, so that very short
/// notes stay visible.  The walk stops at the first event past the
/// position.
pub open spec fn spec_pressed(
    evs: Seq<RawMidiTuple>,
    pos_us: int,
    left_key: u8,
    pressed: Seq<u8>,
) -> Seq<u8>
    decreases evs.len(),
{
    if evs.len() == 0 {
        pressed
    } else {
        let e = evs[0];
        if e.0 > pos_us {
            pressed
        } else {
            let p2 = if e.0 + 50_000 > pos_us {
                match e.2 {
                    MidiEvent::NoteOn(_, k, pr) => pressed.update(k - left_key, pr),
                    _ => pressed,
                }
            } else {
                match e.2 {
                    MidiEvent::NoteOn(_, k, pr) => pressed.update(k - left_key, pr),
                    MidiEvent::NoteOff(_, k, _) => pressed.update(k - left_key, 0u8),
                    _ => pressed,
                }
            };
            spec_pressed(evs.drop_first(), pos_us, left_key, p2)
        }
    }
}

/// The rectangles one lit key contributes, shifted down to where the
/// keyboard sits on screen.
pub open spec fn spec_key_cmds(el: KeyElement, height_offset: int) -> Seq<DrawCommand> {
    match el {
        KeyElement::WhiteKey { wide, small, blind } => {
            let cmds = seq![
                spec_highlight_cmd(wide, height_offset),
                spec_highlight_cmd(small, height_offset),
            ];
            match blind {
                Some(b) => cmds.push(spec_highlight_cmd(b, height_offset)),
                None => cmds,
            }
        },
        KeyElement::BlackKey(r) => seq![spec_highlight_cmd(r, height_offset)],
    }
}

/// One highlight rectangle: copied from the pressed-keys texture to
/// the same spot, `height_offset` rows further down.
pub open spec fn spec_highlight_cmd(r: crate::layout::Rect16, height_offset: int) -> DrawCommand {
    DrawCommand::CopyToScreen {
        src_texture: 1,
        src_rect: Rect { x: r.x as i32, y: r.y as i32, width: r.width as u32, height: r.height as u32 },
        dst_rect: Rect {
            x: r.x as i32,
            y: (r.y + height_offset) as i32,
            width: r.width as u32,
            height: r.height as u32,
        },
    }
}

/// The commands for keys `0 .. n`, in key order.
pub open spec fn spec_highlight(
    elements: Seq<KeyElement>,
    pressed: Seq<u8>,
    height_offset: int,
    n: int,
) -> Seq<DrawCommand>
    decreases n,
{
    if n <= 0 {
        Seq::empty()
    } else {
        let prev = spec_highlight(elements, pressed, height_offset, n - 1);
        if pressed[n - 1] > 0 {
            prev + spec_key_cmds(elements[n - 1], height_offset)
        } else {
            prev
        }
    }
}

/// Computes the highlight rectangles for every key sounding at
/// position `pos_us`: the key-velocity image of `spec_pressed`, turned
/// into copy commands by `spec_highlight`.
pub fn get_pressed_key_rectangles(
    keyboard: &KeyboardLayout,
    height_offset: u32,
    pos_us: i64,
    show_events: &Vec<RawMidiTuple>,
) -> (r: Vec<DrawCommand>)
    requires
        keyboard.wf(),
        height_offset <= 0x100000,
        forall|k: int|
            0 <= k < show_events@.len() ==> match (#[trigger] show_events@[k]).2 {
                MidiEvent::NoteOn(_, key, _) => keyboard.left_white_key <= key
                    <= keyboard.right_white_key,
                MidiEvent::NoteOff(_, key, _) => keyboard.left_white_key <= key
                    <= keyboard.right_white_key,
                _ => true,
            },
        forall|k: int| 0 <= k < show_events@.len() ==> (#[trigger] show_events@[k]).0 <= i64::MAX,
    ensures
        ({
            let nr = keyboard.right_white_key - keyboard.left_white_key + 1;
            let zeros = Seq::<u8>::new(nr as nat, |j: int| 0u8);
            let pressed = spec_pressed(
                show_events@,
                pos_us as int,
                keyboard.left_white_key,
                zeros,
            );
            r@ == spec_highlight(keyboard.elements@, pressed, height_offset as int, nr as int)
        }),
{
    let left_key = keyboard.left_white_key;
    let nr_of_keys: usize = (keyboard.right_white_key - left_key) as usize + 1;
    let ghost zeros = Seq::<u8>::new(nr_of_keys as nat, |j: int| 0u8);
    let mut pressed: Vec<u8> = Vec::new();
    let mut z: usize = 0;
    while z < nr_of_keys
        invariant
            z <= nr_of_keys,
            pressed@.len() == z,
            forall|j: int| 0 <= j < z ==> pressed@[j] == 0u8,
        decreases nr_of_keys - z,
    {
        pressed.push(0);
        z = z + 1;
    }
    proof {
        assert(pressed@ =~= zeros);
    }
    let ghost target_pressed = spec_pressed(show_events@, pos_us as int, left_key, zeros);
    let mut i: usize = 0;
    let n_ev = show_events.len();
    proof {
        assert(show_events@.subrange(0, n_ev as int) =~= show_events@);
    }
    while i < n_ev
        invariant
            i <= n_ev,
            n_ev == show_events@.len(),
            keyboard.wf(),
            left_key == keyboard.left_white_key,
            nr_of_keys == keyboard.right_white_key - keyboard.left_white_key + 1,
            pressed@.len() == nr_of_keys,
            forall|k: int|
                0 <= k < show_events@.len() ==> match (#[trigger] show_events@[k]).2 {
                    MidiEvent::NoteOn(_, key, _) => keyboard.left_white_key <= key
                        <= keyboard.right_white_key,
                    MidiEvent::NoteOff(_, key, _) => keyboard.left_white_key <= key
                        <= keyboard.right_white_key,
                    _ => true,
                },
            forall|k: int|
                0 <= k < show_events@.len() ==> (#[trigger] show_events@[k]).0 <= i64::MAX,
            target_pressed == spec_pressed(
                show_events@.subrange(i as int, n_ev as int),
                pos_us as int,
                left_key,
                pressed@,
            ),
        ensures
            target_pressed == pressed@,
        decreases n_ev - i,
    {
        let ghost suffix = show_events@.subrange(i as int, n_ev as int);
        let (time, _trk, evt) = show_events[i];
        proof {
            assert(suffix[0] == show_events@[i as int]);
            assert(suffix.drop_first() =~= show_events@.subrange(i + 1, n_ev as int));
        }
        if time as i64 > pos_us {
            proof {
                assert(spec_pressed(suffix, pos_us as int, left_key, pressed@) == pressed@);
            }
            break ;
        }
        let recent = pos_us >= 0 && time + 50_000 > pos_us as u64 || pos_us < 0;
        proof {
            assert(recent == (suffix[0].0 + 50_000 > pos_us));
        }
        if recent {
            match evt {
                MidiEvent::NoteOn(_, key, pr) => {
                    pressed.set((key - left_key) as usize, pr);
                },
                _ => {},
            }
        } else {
            match evt {
                MidiEvent::NoteOn(_, key, pr) => {
                    pressed.set((key - left_key) as usize, pr);
                },
                MidiEvent::NoteOff(_, key, _) => {
                    pressed.set((key - left_key) as usize, 0);
                },
                _ => {},
            }
        }
        i = i + 1;
    }
    let mut out: Vec<DrawCommand> = Vec::new();
    proof {
        assert(out@ =~= Seq::<DrawCommand>::empty());
    }
    let mut ki: usize = 0;
    while ki < nr_of_keys
        invariant
            ki <= nr_of_keys,
            keyboard.wf(),
            nr_of_keys == keyboard.right_white_key - keyboard.left_white_key + 1,
            pressed@.len() == nr_of_keys,
            pressed@ == target_pressed,
            height_offset <= 0x100000,
            out@ == spec_highlight(
                keyboard.elements@,
                target_pressed,
                height_offset as int,
                ki as int,
            ),
        decreases nr_of_keys - ki,
    {
        if pressed[ki] > 0 {
            let ghost pre_out = out@;
            match keyboard.elements[ki] {
                KeyElement::WhiteKey { wide, small, blind } => {
                    out.push(highlight_cmd(&wide, height_offset));
                    out.push(highlight_cmd(&small, height_offset));
                    match blind {
                        Some(b) => {
                            out.push(highlight_cmd(&b, height_offset));
                        },
                        None => {},
                    }
                },
                KeyElement::BlackKey(rect) => {
                    out.push(highlight_cmd(&rect, height_offset));
                },
            }
            proof {
                assert(out@ =~= pre_out + spec_key_cmds(
                    keyboard.elements@[ki as int],
                    height_offset as int,
                ));
            }
        }
        ki = ki + 1;
    }
    out
}

/// One highlight rectangle as an executable value.
fn highlight_cmd(r: &crate::layout::Rect16, height_offset: u32) -> (c: DrawCommand)
    requires
        height_offset <= 0x100000,
    ensures
        c == spec_highlight_cmd(*r, height_offset as int),
{
    DrawCommand::CopyToScreen {
        src_texture: 1,
        src_rect: Rect { x: r.x as i32, y: r.y as i32, width: r.width as u32, height: r.height as u32 },
        dst_rect: Rect {
            x: r.x as i32,
            y: (r.y as u32 + height_offset) as i32,
            width: r.width as u32,
            height: r.height as u32,
        },
    }
}

} // verus!
