use rusthesia::{EventKind, MidiIterator, MidiMessage, Timing, TimingError, TrackEvent};

fn ev(delta: u32, kind: EventKind) -> TrackEvent {
    TrackEvent { delta, kind }
}

fn note_on(key: u8) -> EventKind {
    EventKind::Midi { channel: 0, message: MidiMessage::NoteOn { key, vel: 64 } }
}

fn note_off(key: u8) -> EventKind {
    EventKind::Midi { channel: 0, message: MidiMessage::NoteOff { key, vel: 0 } }
}

#[test]
fn merge_interleaves_tracks_by_tick() {
    let mut mi = MidiIterator::new();
    mi.add_track(0, vec![ev(0, note_on(60)), ev(20, note_off(60))]);
    mi.add_track(1, vec![ev(10, note_on(62))]);
    let mut out = vec![];
    while let Some(e) = mi.next() {
        out.push(e);
    }
    assert_eq!(out.len(), 3);
    assert_eq!((out[0].0, out[0].1), (0, 0));
    assert_eq!((out[1].0, out[1].1), (10, 1));
    assert_eq!((out[2].0, out[2].1), (20, 0));
}

#[test]
fn merge_puts_meta_before_notes_at_equal_tick() {
    let mut mi = MidiIterator::new();
    mi.add_track(0, vec![ev(10, note_on(60))]);
    mi.add_track(1, vec![ev(10, EventKind::Tempo(600_000))]);
    let first = mi.next().unwrap();
    let second = mi.next().unwrap();
    assert_eq!(first.0, 10);
    assert_eq!(first.2, EventKind::Tempo(600_000));
    assert_eq!(second.0, 10);
    assert_eq!(second.2, note_on(60));
}

#[test]
fn merge_ticks_are_nondecreasing() {
    let mut mi = MidiIterator::new();
    mi.add_track(0, vec![ev(5, note_on(1)), ev(7, note_off(1)), ev(11, note_on(2))]);
    mi.add_track(1, vec![ev(1, note_on(3)), ev(30, note_off(3))]);
    mi.add_track(2, vec![]);
    let mut last = 0u64;
    let mut count = 0;
    while let Some(e) = mi.next() {
        assert!(last <= e.0);
        last = e.0;
        count += 1;
    }
    assert_eq!(count, 5);
}

#[test]
fn empty_tracks_never_block_the_merge() {
    let mut mi = MidiIterator::new();
    mi.add_track(0, vec![]);
    mi.add_track(1, vec![ev(3, note_on(9))]);
    mi.add_track(2, vec![]);
    assert_eq!(mi.next(), Some((3, 1, note_on(9))));
    assert_eq!(mi.next(), None);
}

#[test]
fn timed_uses_default_tempo_before_any_tempo_event() {
    // 384 ticks per quarter at 120 bpm: 1302 us per tick.
    let mut mi = MidiIterator::new();
    mi.add_track(0, vec![ev(100, note_on(60)), ev(100, note_off(60))]);
    let mut it = mi.timed(&Timing::Metrical(384)).unwrap();
    assert_eq!(it.next(), Some((130_200, 0, note_on(60))));
    assert_eq!(it.next(), Some((260_400, 0, note_off(60))));
    assert_eq!(it.next(), None);
}

#[test]
fn timed_applies_tempo_changes_in_place() {
    // Tempo 600_000 us per quarter: bpm 100, 156250 / 100 = 1562 us per tick.
    let mut mi = MidiIterator::new();
    mi.add_track(
        0,
        vec![
            ev(0, EventKind::Tempo(500_000)),
            ev(100, note_on(60)),
            ev(0, EventKind::Tempo(600_000)),
            ev(0, note_on(61)),
            ev(100, note_on(62)),
        ],
    );
    let mut it = mi.timed(&Timing::Metrical(384)).unwrap();
    assert_eq!(it.next(), Some((130_200, 0, note_on(60))));
    // The tempo event at the same tick is absorbed; the co-incident note
    // keeps the time already accumulated.
    assert_eq!(it.next(), Some((130_200, 0, note_on(61))));
    // The next delta is converted with the new tempo.
    assert_eq!(it.next(), Some((130_200 + 156_200, 0, note_on(62))));
    assert_eq!(it.next(), None);
}

#[test]
fn timed_final_time_is_deterministic_for_a_fixed_input() {
    // The last raw tick 174720 at 1302 us per tick maps to exactly
    // 227_485_440 us, run after run.
    for _ in 0..3 {
        let mut mi = MidiIterator::new();
        mi.add_track(0, vec![ev(0, EventKind::Tempo(500_000)), ev(174_720, note_on(60))]);
        let mut it = mi.timed(&Timing::Metrical(384)).unwrap();
        let mut last = 0u64;
        let mut prev = 0u64;
        while let Some(e) = it.next() {
            assert!(prev <= e.0);
            prev = e.0;
            last = e.0;
        }
        assert_eq!(last, 227_485_440);
    }
}

#[test]
fn merge_counts_match_a_three_track_file() {
    // Three tracks of 6, 1679 and 738 events, two of them tempo events:
    // 2423 merged events, 2421 once the timed view absorbed the tempos.
    let mut track0 = vec![
        ev(0, EventKind::Tempo(500_000)),
        ev(0, EventKind::Meta),
        ev(100, EventKind::Tempo(600_000)),
        ev(0, EventKind::Meta),
        ev(50, EventKind::Meta),
        ev(0, EventKind::Meta),
    ];
    assert_eq!(track0.len(), 6);
    let mut track1 = vec![];
    for i in 0..1679 {
        if i % 2 == 0 {
            track1.push(ev(1, note_on(60)));
        } else {
            track1.push(ev(1, note_off(60)));
        }
    }
    let mut track2 = vec![];
    for i in 0..738 {
        if i % 2 == 0 {
            track2.push(ev(2, note_on(40)));
        } else {
            track2.push(ev(2, note_off(40)));
        }
    }
    let mut mi = MidiIterator::new();
    mi.add_track(0, std::mem::take(&mut track0));
    mi.add_track(1, std::mem::take(&mut track1));
    mi.add_track(2, std::mem::take(&mut track2));
    let mut merged = vec![];
    while let Some(e) = mi.next() {
        merged.push(e);
    }
    assert_eq!(merged.len(), 2423);

    let mut mi = MidiIterator::new();
    let mut track0 = vec![
        ev(0, EventKind::Tempo(500_000)),
        ev(0, EventKind::Meta),
        ev(100, EventKind::Tempo(600_000)),
        ev(0, EventKind::Meta),
        ev(50, EventKind::Meta),
        ev(0, EventKind::Meta),
    ];
    let mut track1b = vec![];
    let mut track2b = vec![];
    for i in 0..1679 {
        if i % 2 == 0 {
            track1b.push(ev(1, note_on(60)));
        } else {
            track1b.push(ev(1, note_off(60)));
        }
    }
    for i in 0..738 {
        if i % 2 == 0 {
            track2b.push(ev(2, note_on(40)));
        } else {
            track2b.push(ev(2, note_off(40)));
        }
    }
    mi.add_track(0, std::mem::take(&mut track0));
    mi.add_track(1, track1b);
    mi.add_track(2, track2b);
    let mut it = mi.timed(&Timing::Metrical(384)).unwrap();
    let mut timed = 0;
    let mut last = 0u64;
    while let Some(e) = it.next() {
        assert!(last <= e.0);
        last = e.0;
        timed += 1;
    }
    assert_eq!(timed, 2421);
}

#[test]
fn constant_tempo_reproduces_tick_times_us_per_tick() {
    // No tempo events at all: every timestamp is tick * 1302.
    let ticks = [0u32, 7, 100, 101, 384, 1000];
    let mut track = vec![];
    let mut prev = 0u32;
    for &t in ticks.iter() {
        track.push(ev(t - prev, note_on(60)));
        prev = t;
    }
    let mut mi = MidiIterator::new();
    mi.add_track(0, track);
    let mut it = mi.timed(&Timing::Metrical(384)).unwrap();
    for &t in ticks.iter() {
        let e = it.next().unwrap();
        assert_eq!(e.0, t as u64 * 1302);
    }
    assert_eq!(it.next(), None);
}

#[test]
fn timecode_timing_fails_closed() {
    let mi = MidiIterator::new();
    match mi.timed(&Timing::Timecode(25, 40)) {
        Err(TimingError::UnsupportedTimecode) => {}
        _ => panic!("a timecode reference must be refused"),
    }
    let mi = MidiIterator::new();
    match mi.timed(&Timing::Metrical(0)) {
        Err(TimingError::ZeroTicksPerBeat) => {}
        _ => panic!("a zero tick resolution must be refused"),
    }
}
