use rusthesia::merge::filtered_timed_events;
use rusthesia::{EventKind, MidiEvent, MidiMessage, Timing, TimingError, TrackEvent};

fn ev(delta: u32, kind: EventKind) -> TrackEvent {
    TrackEvent { delta, kind }
}

fn midi(message: MidiMessage) -> EventKind {
    EventKind::Midi { channel: 0, message }
}

fn two_tracks() -> Vec<Vec<TrackEvent>> {
    vec![
        vec![
            ev(0, EventKind::Tempo(500_000)),
            ev(384, midi(MidiMessage::NoteOn { key: 60, vel: 100 })),
            ev(384, midi(MidiMessage::NoteOff { key: 60, vel: 0 })),
        ],
        vec![
            ev(0, midi(MidiMessage::Controller { controller: 64, value: 1 })),
            ev(576, midi(MidiMessage::NoteOn { key: 70, vel: 90 })),
        ],
    ]
}

#[test]
fn playback_view_keeps_control_messages() {
    // 384 ticks per quarter at 120 bpm: 1302 us per tick.
    let out = filtered_timed_events(
        two_tracks(),
        &Timing::Metrical(384),
        &vec![0, 1],
        true,
        0,
        21,
        108,
    )
    .unwrap();
    assert_eq!(
        out,
        vec![
            (0, 1, MidiEvent::Controller(0, 64, 1)),
            (384 * 1302, 0, MidiEvent::NoteOn(0, 60, 100)),
            (576 * 1302, 1, MidiEvent::NoteOn(0, 70, 90)),
            (768 * 1302, 0, MidiEvent::NoteOff(0, 60, 0)),
        ]
    );
}

#[test]
fn display_view_keeps_notes_only_and_respects_the_track_filter() {
    let out = filtered_timed_events(
        two_tracks(),
        &Timing::Metrical(384),
        &vec![0],
        false,
        0,
        21,
        108,
    )
    .unwrap();
    assert_eq!(
        out,
        vec![
            (384 * 1302, 0, MidiEvent::NoteOn(0, 60, 100)),
            (768 * 1302, 0, MidiEvent::NoteOff(0, 60, 0)),
        ]
    );
}

#[test]
fn transposition_drops_notes_leaving_the_key_range() {
    let out = filtered_timed_events(
        two_tracks(),
        &Timing::Metrical(384),
        &vec![0, 1],
        false,
        45,
        21,
        108,
    )
    .unwrap();
    // 60 + 45 = 105 stays; 70 + 45 = 115 leaves the range.
    assert_eq!(
        out,
        vec![
            (384 * 1302, 0, MidiEvent::NoteOn(0, 105, 100)),
            (768 * 1302, 0, MidiEvent::NoteOff(0, 105, 0)),
        ]
    );
}

#[test]
fn pipeline_fails_closed_on_a_bad_timing_reference() {
    assert_eq!(
        filtered_timed_events(two_tracks(), &Timing::Timecode(30, 4), &vec![0], true, 0, 21, 108),
        Err(TimingError::UnsupportedTimecode)
    );
    assert_eq!(
        filtered_timed_events(two_tracks(), &Timing::Metrical(0), &vec![0], true, 0, 21, 108),
        Err(TimingError::ZeroTicksPerBeat)
    );
}
