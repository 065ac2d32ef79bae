//! The playback scheduler's state machine: a time-ordered event list,
//! a cursor into it, a set of currently sounding keys, and the
//! transitions driven by the command queue.
//!
//! The thread that owns the machine, the command channel, the clock
//! lock and the output port live outside the library; they feed
//! commands and clock positions in, perform the returned clock requests
//! and send the returned byte messages to the sink.  Every decision —
//! which state follows which command, which events are due, which
//! note-offs compensate a stop or seek — is made here and verified.

use crate::events::{ActiveKeys, MidiEvent, RawMidiTuple};
use vstd::prelude::*;

verus! {

/// The scheduler's state: idle with events loaded, playing, about to
/// start playing at a position, or past the last event.
#[derive(Clone, Copy, Debug, PartialEq, Eq, Structural)]
pub enum SequencerState {
    Stopped,
    Playing,
    StartPlaying(i64),
    EndOfStream,
}

/// What arrives on the command queue.
#[derive(Debug)]
pub enum SequencerCommand {
    /// Liveness probe; changes nothing.
    Ping,
    /// Move the clock without starting playback.
    SetPosition(i64),
    /// Install a new event list.
    SetEvents(Vec<RawMidiTuple>),
    /// Seek to the position and play from there.
    Play(i64),
    /// Change the clock's scale factor, permille.
    Scale(u16),
    /// Freeze the clock and silence sounding keys.
    Stop,
}

/// What the caller must do to the virtual clock after a transition.
#[derive(Clone, Copy, Debug, PartialEq, Eq, Structural)]
pub enum ClockRequest {
    NoChange,
    SetPosition(i64),
    SetScale(u16),
    Stop,
}

/// The outcome of one command: a clock request and the byte messages to
/// send to the output sink (compensating note-offs, on a stop).
pub struct CommandEffect {
    pub clock: ClockRequest,
    pub messages: Vec<Vec<u8>>,
}

/// The outcome of resolving a `StartPlaying` state: whether the clock
/// is to be started (events remain at or after the position), and the
/// compensating note-offs for keys sounding before the seek.
pub struct StartEffect {
    pub started: bool,
    pub messages: Vec<Vec<u8>>,
}

/// The outcome of one dispatch round while playing: the encoded events
/// that were due, whether the list is exhausted (the caller stops the
/// clock), and otherwise the next event's position for the bounded
/// sleep.
pub struct DispatchEffect {
    pub messages: Vec<Vec<u8>>,
    pub reached_end: bool,
    pub next_event_pos: Option<i64>,
}

/// Every sounding key names a real channel and key, so a compensating
/// note-off for it is a well-formed message.
pub open spec fn keys_bounded(keys: ActiveKeys) -> bool {
    forall|t: (usize, u8, u8)| #[trigger] keys@.contains(t) ==> t.1 < 16 && t.2 < 128
}

/// The events a sounding-key set folds to after events `lo..hi` have
/// been dispatched.
pub open spec fn spec_keys_fold(
    evs: Seq<RawMidiTuple>,
    lo: int,
    hi: int,
    keys: Set<(usize, u8, u8)>,
) -> Set<(usize, u8, u8)>
    decreases hi - lo,
{
    if lo >= hi {
        keys
    } else {
        let prev = spec_keys_fold(evs, lo, hi - 1, keys);
        match evs[hi - 1].2 {
            MidiEvent::NoteOn(c, k, _) => prev.insert((evs[hi - 1].1, c, k)),
            MidiEvent::NoteOff(c, k, _) => prev.remove((evs[hi - 1].1, c, k)),
            _ => prev,
        }
    }
}

/// The playback state machine.
pub struct MidiSequencer {
    pub events: Vec<RawMidiTuple>,
    pub idx: usize,
    pub state: SequencerState,
    pub key_pressed: ActiveKeys,
}

impl MidiSequencer {
    /// A well-formed event list: time-ordered, with well-formed channel
    /// messages and timestamps a signed 64-bit position can reach.
    pub open spec fn events_wf(evs: Seq<RawMidiTuple>) -> bool {
        &&& forall|a: int, b: int|
            0 <= a <= b < evs.len() ==> (#[trigger] evs[a]).0 <= (#[trigger] evs[b]).0
        &&& forall|k: int| 0 <= k < evs.len() ==> (#[trigger] evs[k]).2.wf()
        &&& forall|k: int| 0 <= k < evs.len() ==> (#[trigger] evs[k]).0 <= i64::MAX
    }

    /// Machine well-formedness.
    pub open spec fn wf(self) -> bool {
        &&& self.idx <= self.events@.len()
        &&& MidiSequencer::events_wf(self.events@)
        &&& self.key_pressed.wf()
        &&& keys_bounded(self.key_pressed)
    }

    /// A fresh machine: no events, past the end of the (empty) stream.
    pub fn new() -> (r: MidiSequencer)
        ensures
            r.wf(),
            r.events@.len() == 0,
            r.idx == 0,
            r.state == SequencerState::EndOfStream,
            r.key_pressed@ == Set::<(usize, u8, u8)>::empty(),
    {
        MidiSequencer {
            events: Vec::new(),
            idx: 0,
            state: SequencerState::EndOfStream,
            key_pressed: ActiveKeys::new(),
        }
    }

    /// Synthesizes a note-off for every sounding key, in insertion
    /// order, and empties the set.
    fn flush_note_offs(&mut self) -> (msgs: Vec<Vec<u8>>)
        requires
            old(self).wf(),
        ensures
            final(self).wf(),
            final(self).events == old(self).events,
            final(self).idx == old(self).idx,
            final(self).state == old(self).state,
            final(self).key_pressed@ == Set::<(usize, u8, u8)>::empty(),
            msgs@.len() == old(self).key_pressed.spec_seq().len(),
            forall|k: int|
                0 <= k < msgs@.len() ==> #[trigger] msgs@[k]@ == MidiEvent::NoteOff(
                    old(self).key_pressed.spec_seq()[k].1,
                    old(self).key_pressed.spec_seq()[k].2,
                    0,
                ).spec_raw(),
    {
        let ghost key_seq = self.key_pressed.spec_seq();
        proof {
            assert forall|t: (usize, u8, u8)| #[trigger]
                key_seq.contains(t) implies t.1 < 16 && t.2 < 128 by {
                assert(old(self).key_pressed@.contains(t));
            }
        }
        let pressed = self.key_pressed.drain();
        let mut msgs: Vec<Vec<u8>> = Vec::new();
        let mut i: usize = 0;
        while i < pressed.len()
            invariant
                pressed@ == key_seq,
                forall|t: (usize, u8, u8)| #[trigger]
                    key_seq.contains(t) ==> t.1 < 16 && t.2 < 128,
                i <= pressed@.len(),
                msgs@.len() == i,
                forall|k: int|
                    0 <= k < i ==> #[trigger] msgs@[k]@ == MidiEvent::NoteOff(
                        key_seq[k].1,
                        key_seq[k].2,
                        0,
                    ).spec_raw(),
            decreases pressed@.len() - i,
        {
            let (_trk, channel, key) = pressed[i];
            proof {
                assert(key_seq.contains(key_seq[i as int]));
            }
            let evt = MidiEvent::NoteOff(channel, key, 0);
            msgs.push(evt.as_raw());
            i = i + 1;
        }
        msgs
    }

    /// Applies one command in the `Stopped`, `EndOfStream` or `Playing`
    /// state, exactly as the state table of the scheduler demands.
    /// (`StartPlaying` is transient: the owning thread resolves it with
    /// `start_playing` before it reads the next command.)
    pub fn apply_command(&mut self, cmd: SequencerCommand) -> (r: CommandEffect)
        requires
            old(self).wf(),
            !(old(self).state matches SequencerState::StartPlaying(_)),
            cmd matches SequencerCommand::SetEvents(evs) ==> MidiSequencer::events_wf(evs@),
        ensures
            final(self).wf(),
            ({
                let was_playing = old(self).state == SequencerState::Playing;
                let idle_state = old(self).state;
                match cmd {
                    SequencerCommand::Ping => {
                        &&& *final(self) == *old(self)
                        &&& r.clock == ClockRequest::NoChange
                        &&& r.messages@.len() == 0
                    },
                    SequencerCommand::SetPosition(pos) => {
                        if was_playing {
                            &&& final(self).state == SequencerState::StartPlaying(pos)
                            &&& final(self).events == old(self).events
                            &&& final(self).idx == old(self).idx
                            &&& final(self).key_pressed == old(self).key_pressed
                            &&& r.clock == ClockRequest::NoChange
                            &&& r.messages@.len() == 0
                        } else {
                            &&& final(self).state == idle_state
                            &&& final(self).events == old(self).events
                            &&& final(self).idx == old(self).idx
                            &&& final(self).key_pressed == old(self).key_pressed
                            &&& r.clock == ClockRequest::SetPosition(pos)
                            &&& r.messages@.len() == 0
                        }
                    },
                    SequencerCommand::SetEvents(evs) => {
                        &&& final(self).state == (if was_playing {
                            SequencerState::StartPlaying(0)
                        } else {
                            SequencerState::Stopped
                        })
                        &&& final(self).events == evs
                        &&& final(self).idx == 0
                        &&& final(self).key_pressed == old(self).key_pressed
                        &&& r.clock == ClockRequest::NoChange
                        &&& r.messages@.len() == 0
                    },
                    SequencerCommand::Play(pos) => {
                        &&& final(self).state == SequencerState::StartPlaying(pos)
                        &&& final(self).events == old(self).events
                        &&& final(self).idx == old(self).idx
                        &&& final(self).key_pressed == old(self).key_pressed
                        &&& r.clock == ClockRequest::NoChange
                        &&& r.messages@.len() == 0
                    },
                    SequencerCommand::Scale(sc) => {
                        &&& final(self).state == idle_state
                        &&& final(self).events == old(self).events
                        &&& final(self).idx == old(self).idx
                        &&& final(self).key_pressed == old(self).key_pressed
                        &&& r.clock == ClockRequest::SetScale(sc)
                        &&& r.messages@.len() == 0
                    },
                    SequencerCommand::Stop => {
                        if was_playing {
                            &&& final(self).state == SequencerState::Stopped
                            &&& final(self).events == old(self).events
                            &&& final(self).idx == old(self).idx
                            &&& final(self).key_pressed@ == Set::<(usize, u8, u8)>::empty()
                            &&& r.clock == ClockRequest::Stop
                            &&& r.messages@.len() == old(self).key_pressed.spec_seq().len()
                            &&& forall|k: int|
                                0 <= k < r.messages@.len() ==> #[trigger] r.messages@[k]@
                                    == MidiEvent::NoteOff(
                                    old(self).key_pressed.spec_seq()[k].1,
                                    old(self).key_pressed.spec_seq()[k].2,
                                    0,
                                ).spec_raw()
                        } else {
                            &&& *final(self) == *old(self)
                            &&& r.clock == ClockRequest::NoChange
                            &&& r.messages@.len() == 0
                        }
                    },
                }
            }),
    {
        let was_playing = match self.state {
            SequencerState::Playing => true,
            _ => false,
        };
        match cmd {
            SequencerCommand::Ping => CommandEffect {
                clock: ClockRequest::NoChange,
                messages: Vec::new(),
            },
            SequencerCommand::SetPosition(pos) => {
                if was_playing {
                    self.state = SequencerState::StartPlaying(pos);
                    CommandEffect { clock: ClockRequest::NoChange, messages: Vec::new() }
                } else {
                    CommandEffect { clock: ClockRequest::SetPosition(pos), messages: Vec::new() }
                }
            },
            SequencerCommand::SetEvents(events) => {
                self.events = events;
                self.idx = 0;
                self.state = if was_playing {
                    SequencerState::StartPlaying(0)
                } else {
                    SequencerState::Stopped
                };
                CommandEffect { clock: ClockRequest::NoChange, messages: Vec::new() }
            },
            SequencerCommand::Play(pos) => {
                self.state = SequencerState::StartPlaying(pos);
                CommandEffect { clock: ClockRequest::NoChange, messages: Vec::new() }
            },
            SequencerCommand::Scale(sc) => CommandEffect {
                clock: ClockRequest::SetScale(sc),
                messages: Vec::new(),
            },
            SequencerCommand::Stop => {
                if was_playing {
                    let msgs = self.flush_note_offs();
                    self.state = SequencerState::Stopped;
                    CommandEffect { clock: ClockRequest::Stop, messages: msgs }
                } else {
                    CommandEffect { clock: ClockRequest::NoChange, messages: Vec::new() }
                }
            },
        }
    }

    /// Resolves `StartPlaying(pos)`: compensating note-offs for keys
    /// still sounding (so that a backward seek silences them before any
    /// new note-on), then the cursor moves to the first event at or
    /// after `pos` — events strictly before the seek point are skipped,
    /// never dispatched.  When events remain the machine starts playing
    /// (the caller sets and starts the clock); a seek past the last
    /// event ends the stream without dispatching anything and without
    /// starting the clock.
    pub fn start_playing(&mut self, pos_us: i64) -> (r: StartEffect)
        requires
            old(self).wf(),
        ensures
            final(self).wf(),
            final(self).events == old(self).events,
            final(self).key_pressed@ == Set::<(usize, u8, u8)>::empty(),
            final(self).idx <= final(self).events@.len(),
            forall|j: int| 0 <= j < final(self).idx ==> (#[trigger] final(self).events@[j]).0 < pos_us,
            final(self).idx < final(self).events@.len() ==> final(self).events@[
                final(self).idx as int
            ].0 >= pos_us,
            r.started == (final(self).idx < final(self).events@.len()),
            final(self).state == (if r.started {
                SequencerState::Playing
            } else {
                SequencerState::EndOfStream
            }),
            r.messages@.len() == old(self).key_pressed.spec_seq().len(),
            forall|k: int|
                0 <= k < r.messages@.len() ==> #[trigger] r.messages@[k]@ == MidiEvent::NoteOff(
                    old(self).key_pressed.spec_seq()[k].1,
                    old(self).key_pressed.spec_seq()[k].2,
                    0,
                ).spec_raw(),
    {
        let msgs = self.flush_note_offs();
        let mut idx: usize = 0;
        let n = self.events.len();
        while idx < n
            invariant
                self.wf(),
                n == self.events@.len(),
                idx <= n,
                forall|j: int| 0 <= j < idx ==> (#[trigger] self.events@[j]).0 < pos_us,
            ensures
                self.wf(),
                n == self.events@.len(),
                idx <= n,
                forall|j: int| 0 <= j < idx ==> (#[trigger] self.events@[j]).0 < pos_us,
                idx < n ==> self.events@[idx as int].0 >= pos_us,
            decreases n - idx,
        {
            let t = self.events[idx].0;
            if !(pos_us >= 0 && t < pos_us as u64) {
                break;
            }
            idx = idx + 1;
        }
        self.idx = idx;
        if idx < n {
            self.state = SequencerState::Playing;
            proof {
                assert(self.events@[idx as int].0 <= i64::MAX);
            }
            StartEffect { started: true, messages: msgs }
        } else {
            self.state = SequencerState::EndOfStream;
            StartEffect { started: false, messages: msgs }
        }
    }

    /// One dispatch round while playing: encodes and hands out every
    /// event due at or before the clock position `pos_us`, keeping the
    /// sounding-key set in step; reaching the end of the list ends the
    /// stream (the caller stops the clock), otherwise the next event's
    /// position bounds the scheduler's sleep.
    pub fn dispatch_due(&mut self, pos_us: i64) -> (r: DispatchEffect)
        requires
            old(self).wf(),
            old(self).state == SequencerState::Playing,
        ensures
            final(self).wf(),
            final(self).events == old(self).events,
            old(self).idx <= final(self).idx <= final(self).events@.len(),
            forall|j: int|
                old(self).idx <= j < final(self).idx ==> (#[trigger] final(self).events@[j]).0
                    <= pos_us,
            final(self).idx < final(self).events@.len() ==> final(self).events@[
                final(self).idx as int
            ].0 > pos_us,
            r.messages@.len() == final(self).idx - old(self).idx,
            forall|k: int|
                0 <= k < r.messages@.len() ==> #[trigger] r.messages@[k]@ == final(self).events@[
                    old(self).idx + k
                ].2.spec_raw(),
            final(self).key_pressed@ == spec_keys_fold(
                final(self).events@,
                old(self).idx as int,
                final(self).idx as int,
                old(self).key_pressed@,
            ),
            r.reached_end == (final(self).idx == final(self).events@.len()),
            final(self).state == (if r.reached_end {
                SequencerState::EndOfStream
            } else {
                SequencerState::Playing
            }),
            r.next_event_pos == (if r.reached_end {
                None::<i64>
            } else {
                Some(final(self).events@[final(self).idx as int].0 as i64)
            }),
    {
        let ghost idx0 = self.idx as int;
        let mut msgs: Vec<Vec<u8>> = Vec::new();
        let n = self.events.len();
        while self.idx < n
            invariant
                self.events == old(self).events,
                MidiSequencer::events_wf(self.events@),
                self.key_pressed.wf(),
                keys_bounded(self.key_pressed),
                n == self.events@.len(),
                idx0 <= self.idx <= n,
                self.state == old(self).state,
                forall|j: int|
                    idx0 <= j < self.idx ==> (#[trigger] self.events@[j]).0 <= pos_us,
                msgs@.len() == self.idx - idx0,
                forall|k: int|
                    0 <= k < msgs@.len() ==> #[trigger] msgs@[k]@ == self.events@[
                        idx0 + k
                    ].2.spec_raw(),
                self.key_pressed@ == spec_keys_fold(
                    self.events@,
                    idx0,
                    self.idx as int,
                    old(self).key_pressed@,
                ),
            ensures
                self.events == old(self).events,
                MidiSequencer::events_wf(self.events@),
                self.key_pressed.wf(),
                keys_bounded(self.key_pressed),
                idx0 <= self.idx <= n,
                self.state == old(self).state,
                forall|j: int| idx0 <= j < self.idx ==> (#[trigger] self.events@[j]).0 <= pos_us,
                self.idx < n ==> self.events@[self.idx as int].0 > pos_us,
                msgs@.len() == self.idx - idx0,
                forall|k: int|
                    0 <= k < msgs@.len() ==> #[trigger] msgs@[k]@ == self.events@[
                        idx0 + k
                    ].2.spec_raw(),
                self.key_pressed@ == spec_keys_fold(
                    self.events@,
                    idx0,
                    self.idx as int,
                    old(self).key_pressed@,
                ),
            decreases n - self.idx,
        {
            let i = self.idx;
            let t = self.events[i].0;
            if !(pos_us >= 0 && t <= pos_us as u64) {
                break;
            }
            let evt = self.events[i].2;
            let trk = self.events[i].1;
            proof {
                assert(self.events@[i as int].2.wf());
            }
            let msg = evt.as_raw();
            evt.apply_to_keys(trk, &mut self.key_pressed);
            msgs.push(msg);
            self.idx = i + 1;
            proof {
                assert forall|t: (usize, u8, u8)| #[trigger]
                    self.key_pressed@.contains(t) implies t.1 < 16 && t.2 < 128 by {
                    match self.events@[i as int].2 {
                        MidiEvent::NoteOn(c, k, _) => {},
                        _ => {},
                    }
                }
            }
        }
        if self.idx >= n {
            self.state = SequencerState::EndOfStream;
            DispatchEffect { messages: msgs, reached_end: true, next_event_pos: None }
        } else {
            proof {
                assert(self.events@[self.idx as int].0 <= i64::MAX);
            }
            let next = self.events[self.idx].0 as i64;
            DispatchEffect { messages: msgs, reached_end: false, next_event_pos: Some(next) }
        }
    }
}

} // verus!
