//! MIDI channel events: the payload carried through merging and
//! scheduling, their standard 1/2/3-byte wire encoding, the bookkeeping
//! set of currently sounding keys, and the transposition filter that
//! turns a merged track event into a playable event.

use vstd::prelude::*;

verus! {

/// One channel event, ready to be encoded and sent to the output sink.
#[derive(Clone, Copy, Debug, PartialEq, Eq, Structural)]
pub enum MidiEvent {
    NoteOn(u8, u8, u8),
    NoteOff(u8, u8, u8),
    Aftertouch(u8, u8, u8),
    Controller(u8, u8, u8),
    ChannelAftertouch(u8, u8),
    PitchBend(u8, u16),
    ProgramChange(u8, u8),
}

/// One scheduled event: microsecond timestamp, source track, payload.
pub type RawMidiTuple = (u64, usize, MidiEvent);

impl MidiEvent {
    /// The channel nibble of the event.
    pub open spec fn spec_channel(self) -> u8 {
        match self {
            MidiEvent::NoteOn(c, _, _) => c,
            MidiEvent::NoteOff(c, _, _) => c,
            MidiEvent::Aftertouch(c, _, _) => c,
            MidiEvent::Controller(c, _, _) => c,
            MidiEvent::ChannelAftertouch(c, _) => c,
            MidiEvent::PitchBend(c, _) => c,
            MidiEvent::ProgramChange(c, _) => c,
        }
    }

    /// A well-formed channel message: the channel fits in its nibble and
    /// every data byte leaves the status bit clear, as the wire format
    /// demands.
    pub open spec fn wf(self) -> bool {
        &&& self.spec_channel() < 16
        &&& match self {
            MidiEvent::NoteOn(_, k, v) => k < 128 && v < 128,
            MidiEvent::NoteOff(_, k, v) => k < 128 && v < 128,
            MidiEvent::Aftertouch(_, k, v) => k < 128 && v < 128,
            MidiEvent::Controller(_, c, v) => c < 128 && v < 128,
            MidiEvent::ChannelAftertouch(_, v) => v < 128,
            MidiEvent::PitchBend(_, b) => b < 16384,
            MidiEvent::ProgramChange(_, p) => p < 128,
        }
    }

    /// The standard channel-message byte layout: status nibble ored with
    /// the channel, then one or two data bytes; a pitch bend carries its
    /// 14-bit value split low-7 / high-7.
    pub open spec fn spec_raw(self) -> Seq<u8> {
        match self {
            MidiEvent::NoteOn(c, k, v) => seq![(0x90 + c) as u8, k, v],
            MidiEvent::NoteOff(c, k, v) => seq![(0x80 + c) as u8, k, v],
            MidiEvent::Aftertouch(c, k, v) => seq![(0xa0 + c) as u8, k, v],
            MidiEvent::Controller(c, ct, v) => seq![(0xb0 + c) as u8, ct, v],
            MidiEvent::ChannelAftertouch(c, v) => seq![(0xd0 + c) as u8, v],
            MidiEvent::PitchBend(c, b) => seq![(0xe0 + c) as u8, (b % 128) as u8, (b / 128) as u8],
            MidiEvent::ProgramChange(c, p) => seq![(0xc0 + c) as u8, p],
        }
    }

    /// Encodes the event in the standard channel-message layout.
    pub fn as_raw(&self) -> (r: Vec<u8>)
        requires
            self.wf(),
        ensures
            r@ == self.spec_raw(),
    {
        match self {
            MidiEvent::NoteOn(c, k, v) => vec![0x90 + c, *k, *v],
            MidiEvent::NoteOff(c, k, v) => vec![0x80 + c, *k, *v],
            MidiEvent::Aftertouch(c, k, v) => vec![0xa0 + c, *k, *v],
            MidiEvent::Controller(c, ct, v) => vec![0xb0 + c, *ct, *v],
            MidiEvent::ChannelAftertouch(c, v) => vec![0xd0 + c, *v],
            MidiEvent::PitchBend(c, b) => vec![0xe0 + c, (b % 128) as u8, (b / 128) as u8],
            MidiEvent::ProgramChange(c, p) => vec![0xc0 + c, *p],
        }
    }

    /// Applies the event's effect on the set of sounding keys: a note-on
    /// records the (track, channel, key) triple, a note-off clears it,
    /// anything else leaves the set alone.
    pub fn apply_to_keys(&self, trk_idx: usize, keys: &mut ActiveKeys)
        requires
            old(keys).wf(),
        ensures
            final(keys).wf(),
            final(keys)@ == match *self {
                MidiEvent::NoteOn(c, k, _) => old(keys)@.insert((trk_idx, c, k)),
                MidiEvent::NoteOff(c, k, _) => old(keys)@.remove((trk_idx, c, k)),
                _ => old(keys)@,
            },
    {
        match self {
            MidiEvent::NoteOn(c, k, _) => keys.insert(trk_idx, *c, *k),
            MidiEvent::NoteOff(c, k, _) => keys.remove(trk_idx, *c, *k),
            _ => {},
        }
    }
}

/// The message part of one channel event as it arrives from a track,
/// before transposition and range filtering.
#[derive(Clone, Copy, Debug, PartialEq, Eq, Structural)]
pub enum MidiMessage {
    NoteOn { key: u8, vel: u8 },
    NoteOff { key: u8, vel: u8 },
    Aftertouch { key: u8, vel: u8 },
    Controller { controller: u8, value: u8 },
    ChannelAftertouch { vel: u8 },
    PitchBend { bend: u16 },
    ProgramChange { program: u8 },
}

/// What `transposed_message` returns: keyed messages are shifted by
/// `shift_key` half-tones and dropped when the shifted key leaves
/// `[left_key, right_key]`; non-keyed messages pass only when `all` is
/// set (the playback view), never in the display view.
pub open spec fn spec_transposed(
    time_us: u64,
    trk: usize,
    channel: u8,
    message: MidiMessage,
    all: bool,
    shift_key: i8,
    left_key: u8,
    right_key: u8,
) -> Option<RawMidiTuple> {
    match message {
        MidiMessage::NoteOn { key, vel } => {
            let shifted = key + shift_key;
            if shifted < left_key || shifted > right_key {
                None
            } else {
                Some((time_us, trk, MidiEvent::NoteOn(channel, shifted as u8, vel)))
            }
        },
        MidiMessage::NoteOff { key, vel } => {
            let shifted = key + shift_key;
            if shifted < left_key || shifted > right_key {
                None
            } else {
                Some((time_us, trk, MidiEvent::NoteOff(channel, shifted as u8, vel)))
            }
        },
        MidiMessage::Aftertouch { key, vel } => {
            let shifted = key + shift_key;
            if !all || shifted < left_key || shifted > right_key {
                None
            } else {
                Some((time_us, trk, MidiEvent::Aftertouch(channel, shifted as u8, vel)))
            }
        },
        MidiMessage::Controller { controller, value } => if all {
            Some((time_us, trk, MidiEvent::Controller(channel, controller, value)))
        } else {
            None
        },
        MidiMessage::ChannelAftertouch { vel } => if all {
            Some((time_us, trk, MidiEvent::ChannelAftertouch(channel, vel)))
        } else {
            None
        },
        MidiMessage::PitchBend { bend } => if all {
            Some((time_us, trk, MidiEvent::PitchBend(channel, bend)))
        } else {
            None
        },
        MidiMessage::ProgramChange { program } => if all {
            Some((time_us, trk, MidiEvent::ProgramChange(channel, program)))
        } else {
            None
        },
    }
}

/// Transposes a track message by `shift_key` half-tones and filters it
/// against the visible key range, exactly as `spec_transposed` states.
pub fn transposed_message(
    time_us: u64,
    trk: usize,
    channel: u8,
    message: &MidiMessage,
    all: bool,
    shift_key: i8,
    left_key: u8,
    right_key: u8,
) -> (r: Option<RawMidiTuple>)
    ensures
        r == spec_transposed(time_us, trk, channel, *message, all, shift_key, left_key, right_key),
{
    match *message {
        MidiMessage::NoteOn { key, vel } => {
            let shifted: i16 = key as i16 + shift_key as i16;
            if shifted < left_key as i16 || shifted > right_key as i16 {
                None
            } else {
                Some((time_us, trk, MidiEvent::NoteOn(channel, shifted as u8, vel)))
            }
        },
        MidiMessage::NoteOff { key, vel } => {
            let shifted: i16 = key as i16 + shift_key as i16;
            if shifted < left_key as i16 || shifted > right_key as i16 {
                None
            } else {
                Some((time_us, trk, MidiEvent::NoteOff(channel, shifted as u8, vel)))
            }
        },
        MidiMessage::Aftertouch { key, vel } => {
            let shifted: i16 = key as i16 + shift_key as i16;
            if !all || shifted < left_key as i16 || shifted > right_key as i16 {
                None
            } else {
                Some((time_us, trk, MidiEvent::Aftertouch(channel, shifted as u8, vel)))
            }
        },
        MidiMessage::Controller { controller, value } => if all {
            Some((time_us, trk, MidiEvent::Controller(channel, controller, value)))
        } else {
            None
        },
        MidiMessage::ChannelAftertouch { vel } => if all {
            Some((time_us, trk, MidiEvent::ChannelAftertouch(channel, vel)))
        } else {
            None
        },
        MidiMessage::PitchBend { bend } => if all {
            Some((time_us, trk, MidiEvent::PitchBend(channel, bend)))
        } else {
            None
        },
        MidiMessage::ProgramChange { program } => if all {
            Some((time_us, trk, MidiEvent::ProgramChange(channel, program)))
        } else {
            None
        },
    }
}

/// The set of currently sounding (track, channel, key) triples, used to
/// synthesize compensating note-offs on stop and seek.  Kept as a
/// duplicate-free vector so that the drain order is deterministic.
pub struct ActiveKeys {
    pub keys: Vec<(usize, u8, u8)>,
}

impl ActiveKeys {
    /// The triples as a set.
    pub open spec fn view(self) -> Set<(usize, u8, u8)> {
        self.keys@.to_set()
    }

    /// The underlying order in which a drain hands the triples out.
    pub open spec fn spec_seq(self) -> Seq<(usize, u8, u8)> {
        self.keys@
    }

    /// No triple occurs twice.
    pub open spec fn wf(self) -> bool {
        forall|i: int, j: int|
            0 <= i < j < self.keys@.len() ==> self.keys@[i] != self.keys@[j]
    }

    /// An empty set.
    pub fn new() -> (r: ActiveKeys)
        ensures
            r.wf(),
            r@ == Set::<(usize, u8, u8)>::empty(),
            r.spec_seq() == Seq::<(usize, u8, u8)>::empty(),
    {
        let r = ActiveKeys { keys: Vec::new() };
        proof {
            assert(r.keys@.to_set() =~= Set::<(usize, u8, u8)>::empty());
        }
        r
    }

    /// How many keys are sounding.
    pub fn len(&self) -> (n: usize)
        ensures
            n == self.spec_seq().len(),
    {
        self.keys.len()
    }

    /// Whether the triple is in the set.
    pub fn contains(&self, trk_idx: usize, channel: u8, key: u8) -> (r: bool)
        ensures
            r == self@.contains((trk_idx, channel, key)),
    {
        let mut i: usize = 0;
        while i < self.keys.len()
            invariant
                i <= self.keys@.len(),
                forall|j: int| 0 <= j < i ==> self.keys@[j] != (trk_idx, channel, key),
            decreases self.keys@.len() - i,
        {
            let (t, c, k) = self.keys[i];
            if t == trk_idx && c == channel && k == key {
                assert(self.keys@.contains((trk_idx, channel, key)));
                return true;
            }
            i = i + 1;
        }
        proof {
            assert(!self.keys@.contains((trk_idx, channel, key)));
        }
        false
    }

    /// Records a sounding key; a triple already present is not repeated.
    pub fn insert(&mut self, trk_idx: usize, channel: u8, key: u8)
        requires
            old(self).wf(),
        ensures
            final(self).wf(),
            final(self)@ == old(self)@.insert((trk_idx, channel, key)),
    {
        if !self.contains(trk_idx, channel, key) {
            self.keys.push((trk_idx, channel, key));
            proof {
                assert(self.keys@.drop_last() == old(self).keys@);
                assert(self.keys@.last() == (trk_idx, channel, key));
                assert forall|i: int, j: int|
                    0 <= i < j < self.keys@.len() implies self.keys@[i] != self.keys@[j] by {
                    if j < self.keys@.len() - 1 {
                        assert(old(self).keys@[i] == self.keys@[i]);
                        assert(old(self).keys@[j] == self.keys@[j]);
                    } else {
                        assert(old(self).keys@.contains(self.keys@[i])) by {
                            assert(old(self).keys@[i] == self.keys@[i]);
                        }
                    }
                }
                assert(self.keys@.to_set() =~= old(self).keys@.to_set().insert(
                    (trk_idx, channel, key),
                ));
            }
        } else {
            proof {
                assert(self.keys@.to_set() =~= old(self).keys@.to_set().insert(
                    (trk_idx, channel, key),
                ));
            }
        }
    }

    /// Clears a sounding key; absent triples are left alone.
    pub fn remove(&mut self, trk_idx: usize, channel: u8, key: u8)
        requires
            old(self).wf(),
        ensures
            final(self).wf(),
            final(self)@ == old(self)@.remove((trk_idx, channel, key)),
    {
        let mut i: usize = 0;
        while i < self.keys.len()
            invariant
                self == old(self),
                old(self).wf(),
                i <= self.keys@.len(),
                forall|j: int| 0 <= j < i ==> self.keys@[j] != (trk_idx, channel, key),
            decreases self.keys@.len() - i,
        {
            let (t, c, k) = self.keys[i];
            if t == trk_idx && c == channel && k == key {
                self.keys.remove(i);
                proof {
                    let removed = (trk_idx, channel, key);
                    let olds = old(self).keys@;
                    let news = self.keys@;
                    assert(news == olds.remove(i as int));
                    assert forall|a: int| 0 <= a < news.len() implies news[a] == (if a < i {
                        olds[a]
                    } else {
                        olds[a + 1]
                    }) by {}
                    assert forall|a: int, b: int|
                        0 <= a < b < news.len() implies news[a] != news[b] by {
                        let a0: int = if a < i { a } else { a + 1 };
                        let b0: int = if b < i { b } else { b + 1 };
                        assert(news[a] == olds[a0]);
                        assert(news[b] == olds[b0]);
                    }
                    assert forall|x: (usize, u8, u8)| news.contains(x) implies (olds.contains(x)
                        && x != removed) by {
                        let idx = choose|idx: int| 0 <= idx < news.len() && news[idx] == x;
                        let idx0: int = if idx < i { idx } else { idx + 1 };
                        assert(olds[idx0] == x);
                        assert(olds[i as int] == removed);
                    }
                    assert forall|x: (usize, u8, u8)|
                        olds.contains(x) && x != removed implies news.contains(x) by {
                        let idx0 = choose|idx0: int| 0 <= idx0 < olds.len() && olds[idx0] == x;
                        let idx: int = if idx0 < i { idx0 } else { idx0 - 1 };
                        assert(news[idx] == x);
                    }
                    assert(news.to_set() =~= olds.to_set().remove(removed));
                }
                return ;
            }
            i = i + 1;
        }
        proof {
            assert(!self.keys@.contains((trk_idx, channel, key)));
            assert(self.keys@.to_set() =~= self.keys@.to_set().remove((trk_idx, channel, key)));
        }
    }

    /// Hands out every sounding triple, in insertion order, and empties
    /// the set.
    pub fn drain(&mut self) -> (r: Vec<(usize, u8, u8)>)
        ensures
            r@ == old(self).spec_seq(),
            final(self).wf(),
            final(self)@ == Set::<(usize, u8, u8)>::empty(),
            final(self).spec_seq() == Seq::<(usize, u8, u8)>::empty(),
    {
        let mut out: Vec<(usize, u8, u8)> = Vec::new();
        core::mem::swap(&mut out, &mut self.keys);
        proof {
            assert(self.keys@.to_set() =~= Set::<(usize, u8, u8)>::empty());
        }
        out
    }
}

} // verus!
