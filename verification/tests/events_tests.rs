use rusthesia::events::transposed_message;
use rusthesia::{MidiEvent, MidiMessage};

#[test]
fn notes_are_transposed_and_range_filtered() {
    let m = MidiMessage::NoteOn { key: 60, vel: 100 };
    assert_eq!(
        transposed_message(500, 2, 3, &m, false, 12, 21, 108),
        Some((500, 2, MidiEvent::NoteOn(3, 72, 100)))
    );
    assert_eq!(
        transposed_message(500, 2, 3, &m, false, -12, 21, 108),
        Some((500, 2, MidiEvent::NoteOn(3, 48, 100)))
    );
    // Shifted below the left end: dropped.
    assert_eq!(transposed_message(500, 2, 3, &m, false, -40, 21, 108), None);
    // Shifted past the right end: dropped.
    assert_eq!(transposed_message(500, 2, 3, &m, false, 50, 21, 108), None);
}

#[test]
fn note_off_keeps_its_velocity_through_transposition() {
    let m = MidiMessage::NoteOff { key: 40, vel: 7 };
    assert_eq!(
        transposed_message(9, 0, 1, &m, false, 2, 21, 108),
        Some((9, 0, MidiEvent::NoteOff(1, 42, 7)))
    );
}

#[test]
fn control_messages_appear_only_in_the_playback_view() {
    let c = MidiMessage::Controller { controller: 64, value: 127 };
    assert_eq!(transposed_message(1, 0, 5, &c, false, 0, 21, 108), None);
    assert_eq!(
        transposed_message(1, 0, 5, &c, true, 0, 21, 108),
        Some((1, 0, MidiEvent::Controller(5, 64, 127)))
    );
    let pb = MidiMessage::PitchBend { bend: 8192 };
    assert_eq!(
        transposed_message(2, 1, 5, &pb, true, 0, 21, 108),
        Some((2, 1, MidiEvent::PitchBend(5, 8192)))
    );
    assert_eq!(transposed_message(2, 1, 5, &pb, false, 0, 21, 108), None);
    let pc = MidiMessage::ProgramChange { program: 12 };
    assert_eq!(
        transposed_message(3, 1, 5, &pc, true, 0, 21, 108),
        Some((3, 1, MidiEvent::ProgramChange(5, 12)))
    );
    let at = MidiMessage::Aftertouch { key: 60, vel: 10 };
    assert_eq!(
        transposed_message(4, 1, 5, &at, true, 1, 21, 108),
        Some((4, 1, MidiEvent::Aftertouch(5, 61, 10)))
    );
    assert_eq!(transposed_message(4, 1, 5, &at, false, 1, 21, 108), None);
    let ca = MidiMessage::ChannelAftertouch { vel: 9 };
    assert_eq!(
        transposed_message(5, 1, 5, &ca, true, 0, 21, 108),
        Some((5, 1, MidiEvent::ChannelAftertouch(5, 9)))
    );
}
