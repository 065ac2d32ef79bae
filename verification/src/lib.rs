//! Timing and scheduling core of a piano-roll style MIDI player.
//!
//! The library merges per-track, tick-based event streams into one
//! time-ordered microsecond timeline, keeps a seekable, pausable,
//! rate-scalable virtual clock, drives a playback state machine that
//! dispatches due events and compensates dangling notes, and evaluates
//! frame-timing measurements to decide whether the display is vsync
//! limited.  Everything that touches a file, a window, a MIDI port or a
//! thread lives outside this crate; the logic here works on plain values
//! and is verified.

pub mod clock;
pub mod draw;
pub mod events;
pub mod frame;
pub mod keyboard;
pub mod layout;
pub mod merge;
pub mod sequencer;

pub use clock::RefPosition;
pub use draw::{copy_waterfall_to_screen, get_pressed_key_rectangles, DrawCommand, Rect, Rgb};
pub use frame::{evaluate_measurement, SampleStats, Sdl2Timing};
pub use keyboard::{Keyboard, KeyboardBuilder};
pub use layout::{build_keyboard, KeyElement, KeyboardLayout, Rect16};
pub use events::{ActiveKeys, MidiEvent, MidiMessage, RawMidiTuple};
pub use sequencer::{ClockRequest, CommandEffect, DispatchEffect, MidiSequencer, SequencerCommand, SequencerState, StartEffect};
pub use merge::{EventKind, MidiIterator, MidiTimedIterator, Timing, TimingError, TrackEvent, TrackState};
