use rusthesia::{
    ActiveKeys, ClockRequest, MidiEvent, MidiSequencer, SequencerCommand, SequencerState,
};

#[test]
fn channel_messages_use_the_standard_layout() {
    let mut keys = ActiveKeys::new();
    assert_eq!(MidiEvent::NoteOn(2, 60, 100).as_raw(), vec![0x92, 60, 100]);
    assert_eq!(MidiEvent::NoteOff(0, 61, 0).as_raw(), vec![0x80, 61, 0]);
    assert_eq!(MidiEvent::Aftertouch(15, 10, 20).as_raw(), vec![0xaf, 10, 20]);
    assert_eq!(MidiEvent::Controller(1, 64, 127).as_raw(), vec![0xb1, 64, 127]);
    assert_eq!(MidiEvent::ChannelAftertouch(3, 99).as_raw(), vec![0xd3, 99]);
    // 14-bit pitch bend is split low-7 / high-7: 0x1234 = 0x34 | 0x24 << 7.
    assert_eq!(MidiEvent::PitchBend(4, 0x1234).as_raw(), vec![0xe4, 0x34, 0x24]);
    assert_eq!(MidiEvent::ProgramChange(5, 42).as_raw(), vec![0xc5, 42]);

    MidiEvent::NoteOn(2, 60, 100).apply_to_keys(7, &mut keys);
    assert!(keys.contains(7, 2, 60));
    MidiEvent::NoteOff(2, 60, 0).apply_to_keys(7, &mut keys);
    assert!(!keys.contains(7, 2, 60));
}

fn events_three_notes() -> Vec<(u64, usize, MidiEvent)> {
    vec![
        (1_000, 0, MidiEvent::NoteOn(0, 60, 80)),
        (2_000, 0, MidiEvent::NoteOff(0, 60, 0)),
        (3_000, 1, MidiEvent::NoteOn(1, 72, 90)),
    ]
}

#[test]
fn seek_past_the_last_event_ends_the_stream_silently() {
    let mut seq = MidiSequencer::new();
    let eff = seq.apply_command(SequencerCommand::SetEvents(events_three_notes()));
    assert_eq!(eff.clock, ClockRequest::NoChange);
    assert_eq!(seq.state, SequencerState::Stopped);

    let start = seq.start_playing(10_000);
    assert!(!start.started);
    assert!(start.messages.is_empty());
    assert_eq!(seq.state, SequencerState::EndOfStream);
}

#[test]
fn seek_skips_events_strictly_before_the_position() {
    let mut seq = MidiSequencer::new();
    seq.apply_command(SequencerCommand::SetEvents(events_three_notes()));
    let start = seq.start_playing(2_000);
    assert!(start.started);
    assert_eq!(seq.state, SequencerState::Playing);
    // The note-off at exactly 2_000 is kept, the note-on before it is not.
    let d = seq.dispatch_due(2_500);
    assert_eq!(d.messages, vec![vec![0x80, 60, 0]]);
    assert_eq!(d.next_event_pos, Some(3_000));
    assert!(!d.reached_end);
}

#[test]
fn playing_to_the_end_reaches_end_of_stream() {
    let mut seq = MidiSequencer::new();
    seq.apply_command(SequencerCommand::SetEvents(events_three_notes()));
    seq.start_playing(0);
    let d = seq.dispatch_due(500);
    assert!(d.messages.is_empty());
    assert_eq!(d.next_event_pos, Some(1_000));
    let d = seq.dispatch_due(3_000);
    assert_eq!(d.messages.len(), 3);
    assert!(d.reached_end);
    assert_eq!(d.next_event_pos, None);
    assert_eq!(seq.state, SequencerState::EndOfStream);
}

#[test]
fn backward_seek_sends_note_off_before_the_note_plays_again() {
    let mut seq = MidiSequencer::new();
    seq.apply_command(SequencerCommand::SetEvents(events_three_notes()));
    seq.start_playing(0);
    let d = seq.dispatch_due(1_500);
    assert_eq!(d.messages, vec![vec![0x90, 60, 80]]);
    // The key is sounding; seeking backward silences it first.
    let start = seq.start_playing(500);
    assert_eq!(start.messages, vec![vec![0x80, 60, 0]]);
    assert!(start.started);
    // Replaying dispatches the note-on again, after the note-off above.
    let d = seq.dispatch_due(1_500);
    assert_eq!(d.messages, vec![vec![0x90, 60, 80]]);
}

#[test]
fn stop_while_playing_silences_every_sounding_key() {
    let mut seq = MidiSequencer::new();
    seq.apply_command(SequencerCommand::SetEvents(vec![
        (1_000, 0, MidiEvent::NoteOn(0, 60, 80)),
        (1_000, 2, MidiEvent::NoteOn(5, 61, 81)),
        (9_000, 0, MidiEvent::NoteOff(0, 60, 0)),
    ]));
    seq.start_playing(0);
    seq.dispatch_due(1_000);
    let eff = seq.apply_command(SequencerCommand::Stop);
    assert_eq!(eff.clock, ClockRequest::Stop);
    assert_eq!(eff.messages, vec![vec![0x80, 60, 0], vec![0x85, 61, 0]]);
    assert_eq!(seq.state, SequencerState::Stopped);
}

#[test]
fn command_table_matches_the_scheduler() {
    let mut seq = MidiSequencer::new();
    assert_eq!(seq.state, SequencerState::EndOfStream);

    let eff = seq.apply_command(SequencerCommand::Ping);
    assert_eq!(eff.clock, ClockRequest::NoChange);
    assert_eq!(seq.state, SequencerState::EndOfStream);

    let eff = seq.apply_command(SequencerCommand::Scale(1_500));
    assert_eq!(eff.clock, ClockRequest::SetScale(1_500));

    let eff = seq.apply_command(SequencerCommand::SetPosition(77));
    assert_eq!(eff.clock, ClockRequest::SetPosition(77));
    assert_eq!(seq.state, SequencerState::EndOfStream);

    let eff = seq.apply_command(SequencerCommand::Play(11));
    assert_eq!(eff.clock, ClockRequest::NoChange);
    assert_eq!(seq.state, SequencerState::StartPlaying(11));
    seq.start_playing(11);

    // While playing, repositioning restarts playback at the position and
    // a new event list restarts from zero.
    let mut seq = MidiSequencer::new();
    seq.apply_command(SequencerCommand::SetEvents(events_three_notes()));
    seq.start_playing(0);
    assert_eq!(seq.state, SequencerState::Playing);
    seq.apply_command(SequencerCommand::SetPosition(42));
    assert_eq!(seq.state, SequencerState::StartPlaying(42));
    seq.start_playing(42);
    assert_eq!(seq.state, SequencerState::Playing);
    seq.apply_command(SequencerCommand::SetEvents(events_three_notes()));
    assert_eq!(seq.state, SequencerState::StartPlaying(0));
    assert_eq!(seq.idx, 0);
}
