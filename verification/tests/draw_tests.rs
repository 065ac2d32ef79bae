use rusthesia::{
    copy_waterfall_to_screen, get_pressed_key_rectangles, DrawCommand, KeyElement, KeyboardLayout,
    MidiEvent, Rect16, Rgb,
};
use rusthesia::draw::{is_white, trk2col};

#[test]
fn draw_engine_test_01() {
    let n = 28;
    let wf_width = 4096;
    let wf_height = 1515;
    let net_rows = 907;
    let overlap = 93;
    let rows_per_s = 100;
    let pos_us = 6199732;
    let mut cmds = copy_waterfall_to_screen(
        n, wf_width, wf_height, net_rows, overlap, rows_per_s, pos_us,
    );
    assert_eq!(cmds.len(), 3);
    let mut dst_total_height = 0;
    let last = cmds.pop().unwrap();
    match last {
        DrawCommand::CopyToScreen { src_texture, src_rect, dst_rect } => {
            // The bottom edge lies one row under the rectangle.
            assert_eq!(src_rect.height() as i32 + src_rect.top(), src_rect.bottom());

            // Last texture is on top. So destination y must be 0 and source y max
            assert_eq!(src_texture, 4);
            assert_eq!(src_rect.left(), 0);
            assert_eq!(src_rect.width(), wf_width);
            assert_eq!(dst_rect.left(), 0);
            assert_eq!(dst_rect.width(), wf_width);
            assert_eq!(src_rect.height(), dst_rect.height());
            assert_eq!((overlap + net_rows) as i32, src_rect.bottom());
            dst_total_height += dst_rect.height();
            assert_eq!(dst_rect.top(), 0);
        }
    }
    let second = cmds.pop().unwrap();
    match second {
        DrawCommand::CopyToScreen { src_texture, src_rect, dst_rect } => {
            // Middle texture is in the middle
            assert_eq!(src_texture, 3);
            assert_eq!(src_rect.left(), 0);
            assert_eq!(src_rect.width(), wf_width);
            assert_eq!(dst_rect.left(), 0);
            assert_eq!(dst_rect.width(), wf_width);
            assert_eq!(src_rect.height(), dst_rect.height());
            dst_total_height += dst_rect.height();
        }
    }
    let first = cmds.pop().unwrap();
    match first {
        DrawCommand::CopyToScreen { src_texture, src_rect, dst_rect } => {
            // First texture is at the bottom. So destination y must be max
            // and source y equal overlap
            assert_eq!(src_texture, 2);
            assert_eq!(src_rect.left(), 0);
            assert_eq!(src_rect.width(), wf_width);
            assert_eq!(dst_rect.left(), 0);
            assert_eq!(dst_rect.width(), wf_width);
            assert_eq!(src_rect.top(), overlap as i32);
            assert_eq!(src_rect.height(), dst_rect.height());
            dst_total_height += dst_rect.height();
            assert_eq!(dst_rect.bottom(), wf_height as i32);
        }
    }
    assert_eq!(dst_total_height, wf_height);
}

#[test]
fn negative_positions_show_the_bottom_of_the_first_texture() {
    let cmds = copy_waterfall_to_screen(2, 100, 500, 900, 100, 100, -3_000_000);
    // Rows -300 .. 199 intersect only texture 0 (rows 0 .. 899).
    assert_eq!(cmds.len(), 1);
    match cmds[0] {
        DrawCommand::CopyToScreen { src_texture, src_rect, dst_rect } => {
            assert_eq!(src_texture, 2);
            assert_eq!(src_rect.height(), 200);
            assert_eq!(dst_rect.height(), 200);
            // The 200 visible rows sit at the top of the window, taken
            // from the lower end of the texture.
            assert_eq!(dst_rect.top(), 0);
            assert_eq!(dst_rect.bottom(), 200);
            assert_eq!(src_rect.top(), 800);
        }
    }
}

fn tiny_layout() -> KeyboardLayout {
    KeyboardLayout {
        left_white_key: 60,
        right_white_key: 61,
        width: 100,
        height: 50,
        elements: vec![
            KeyElement::WhiteKey {
                wide: Rect16 { x: 0, y: 30, width: 40, height: 20 },
                small: Rect16 { x: 0, y: 0, width: 30, height: 30 },
                blind: None,
            },
            KeyElement::BlackKey(Rect16 { x: 32, y: 0, width: 20, height: 30 }),
        ],
    }
}

#[test]
fn sounding_keys_light_their_rectangles() {
    let kb = tiny_layout();
    let events = vec![
        (0u64, 0usize, MidiEvent::NoteOn(0, 60, 100)),
        (100_000, 0, MidiEvent::NoteOff(0, 60, 0)),
    ];
    let cmds = get_pressed_key_rectangles(&kb, 400, 50_000, &events);
    // The white key is down: its two rectangles, copied 400 rows lower.
    assert_eq!(cmds.len(), 2);
    match cmds[0] {
        DrawCommand::CopyToScreen { src_texture, src_rect, dst_rect } => {
            assert_eq!(src_texture, 1);
            assert_eq!(src_rect.top(), 30);
            assert_eq!(dst_rect.top(), 430);
            assert_eq!(src_rect.width(), 40);
        }
    }

    // Long after the note-off nothing is lit.
    let cmds = get_pressed_key_rectangles(&kb, 400, 200_000, &events);
    assert!(cmds.is_empty());

    // A note released within the last 50 ms keeps glowing.
    let cmds = get_pressed_key_rectangles(&kb, 400, 120_000, &events);
    assert_eq!(cmds.len(), 2);
}

#[test]
fn track_colors_alternate_and_darken_on_black_keys() {
    assert!(is_white(60));
    assert!(!is_white(61));
    assert_eq!(trk2col(0, 60), Rgb { r: 0, g: 255, b: 255 });
    assert_eq!(trk2col(0, 61), Rgb { r: 0, g: 180, b: 180 });
    assert_eq!(trk2col(1, 60), Rgb { r: 255, g: 0, b: 255 });
    assert_eq!(trk2col(3, 61), Rgb { r: 180, g: 0, b: 180 });
}
