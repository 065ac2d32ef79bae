//! The tick merger: merges per-track, tick-based event streams into one
//! non-decreasing stream of absolute ticks, and converts that stream to
//! microsecond timestamps with a running tempo map.
//!
//! Each track is walked by a cursor carrying the absolute tick of its
//! pending event.  The merge repeatedly emits the pending event with the
//! smallest tick; at equal ticks a tempo-affecting (meta) event precedes
//! performance events, so that simultaneous tempo changes are applied
//! before the times of co-incident notes are computed.  The timed view
//! then absorbs tempo events into the running microseconds-per-tick
//! value, converting each tick delta with the tempo in effect before it.

use crate::events::{spec_transposed, transposed_message, MidiMessage, RawMidiTuple};
use vstd::arithmetic::mul::lemma_mul_inequality;
use vstd::prelude::*;

verus! {

/// The documented default tempo, microseconds per quarter note, in
/// effect until the first tempo event: 120 beats per minute.
pub const DEFAULT_TEMPO: u32 = 500_000;

/// Microseconds per tick never exceed one quarter note per tick at the
/// slowest representable tempo.
pub const MAX_TIMEBASE: u64 = 60_000_000;

/// The kind of one track event, as far as merging and playback care:
/// a tempo change (meta), any other meta event, a channel message, or
/// anything else (system exclusive and escape data).
#[derive(Clone, Copy, Debug, PartialEq, Eq, Structural)]
pub enum EventKind {
    /// A tempo-change meta event: microseconds per quarter note.
    Tempo(u32),
    /// Any other meta event.
    Meta,
    /// A channel message.
    Midi { channel: u8, message: MidiMessage },
    /// System exclusive or escape data, carried through unchanged.
    Other,
}

impl EventKind {
    /// Meta events (tempo changes among them) precede performance
    /// events at the same tick.
    pub open spec fn is_meta(self) -> bool {
        match self {
            EventKind::Tempo(_) => true,
            EventKind::Meta => true,
            EventKind::Midi { .. } => false,
            EventKind::Other => false,
        }
    }

    /// Executable twin of `is_meta`.
    pub fn meta(&self) -> (r: bool)
        ensures
            r == self.is_meta(),
    {
        match self {
            EventKind::Tempo(_) => true,
            EventKind::Meta => true,
            _ => false,
        }
    }
}

/// One event of one track: the tick delta since the track's previous
/// event, and what happens then.
#[derive(Clone, Copy, Debug, PartialEq, Eq, Structural)]
pub struct TrackEvent {
    pub delta: u32,
    pub kind: EventKind,
}

/// One merged event before timing: absolute tick, source track, kind.
pub type TickedEvent = (u64, usize, EventKind);

/// The sum of the first `n` deltas of a track: the absolute tick of
/// event `n - 1`.
pub open spec fn prefix_ticks(evs: Seq<TrackEvent>, n: int) -> int
    decreases n,
{
    if n <= 0 {
        0
    } else {
        prefix_ticks(evs, n - 1) + evs[n - 1].delta
    }
}

/// Prefix tick sums never decrease as the prefix grows.
pub proof fn lemma_prefix_ticks_monotonic(evs: Seq<TrackEvent>, a: int, b: int)
    requires
        a <= b,
    ensures
        prefix_ticks(evs, a) <= prefix_ticks(evs, b),
    decreases b - a,
{
    if a < b {
        lemma_prefix_ticks_monotonic(evs, a, b - 1);
    }
}

/// One track's cursor: the remaining events, the index of the pending
/// event, and the pending event's absolute tick.
pub struct TrackState {
    pub trk_number: usize,
    pub events: Vec<TrackEvent>,
    pub next_idx: usize,
    pub time: u64,
}

impl TrackState {
    /// Whether an event is still pending.  (The index bound keeps the
    /// cursor arithmetic exact for every spec value, not only those a
    /// real vector can reach.)
    pub open spec fn pending(self) -> bool {
        self.next_idx < self.events@.len() && self.next_idx < usize::MAX
    }

    /// How many events are still to be emitted.
    pub open spec fn rem(self) -> nat {
        let l = if self.events@.len() <= usize::MAX {
            self.events@.len() as int
        } else {
            usize::MAX as int
        };
        if self.next_idx < l {
            (l - self.next_idx) as nat
        } else {
            0
        }
    }

    /// The kind of the pending event.
    pub open spec fn pending_kind(self) -> EventKind {
        self.events@[self.next_idx as int].kind
    }

    /// Cursor well-formedness: the index is in range, the cached tick is
    /// the pending event's absolute tick, and the track's total tick
    /// count stays within 32 bits, which both the tick arithmetic and
    /// the timed view's overflow bounds rest on.
    pub open spec fn wf(self) -> bool {
        &&& self.next_idx <= self.events@.len()
        &&& prefix_ticks(self.events@, self.events@.len() as int) <= u32::MAX
        &&& (self.pending() ==> self.time == prefix_ticks(self.events@, self.next_idx + 1))
    }

    /// A fresh cursor at the start of a track.
    pub fn new(trk_number: usize, events: Vec<TrackEvent>) -> (r: TrackState)
        requires
            prefix_ticks(events@, events@.len() as int) <= u32::MAX,
        ensures
            r.wf(),
            r.trk_number == trk_number,
            r.events == events,
            r.next_idx == 0,
            r.rem() == events@.len(),
            r.time == if events@.len() > 0 {
                prefix_ticks(events@, 1)
            } else {
                0
            },
    {
        let n = events.len();
        let time: u64 = if n > 0 {
            proof {
                assert(prefix_ticks(events@, 0) == 0);
                assert(prefix_ticks(events@, 1) == events@[0].delta);
                lemma_prefix_ticks_monotonic(events@, 1, events@.len() as int);
            }
            events[0].delta as u64
        } else {
            0
        };
        TrackState { trk_number, events, next_idx: 0, time }
    }

    /// The pending event's absolute tick, used to order the cursors.
    pub open spec fn sort_key(self) -> int {
        self.time as int
    }
}

/// Whether cursor `a` strictly precedes cursor `b`: an earlier tick, or
/// the same tick with `a` meta and `b` not.
pub open spec fn precedes(a: TrackState, b: TrackState) -> bool {
    ||| a.sort_key() < b.sort_key()
    ||| (a.sort_key() == b.sort_key() && a.pending_kind().is_meta() && !b.pending_kind().is_meta())
}

/// The index the merge picks next: the left-to-right scan keeping the
/// first pending cursor that no later cursor strictly precedes.
pub open spec fn best_loop(cs: Seq<TrackState>, i: int, acc: int) -> int
    decreases cs.len() - i,
{
    if i < 0 || i >= cs.len() {
        acc
    } else {
        let acc2 = if cs[i].pending() && (acc == -1 || precedes(cs[i], cs[acc])) {
            i
        } else {
            acc
        };
        best_loop(cs, i + 1, acc2)
    }
}

/// The cursor the merge serves next, `-1` when every track is done.
pub open spec fn best_index(cs: Seq<TrackState>) -> int {
    best_loop(cs, 0, -1)
}

/// How many events all cursors together still hold.
pub open spec fn rem_sum(cs: Seq<TrackState>) -> nat
    decreases cs.len(),
{
    if cs.len() == 0 {
        0
    } else {
        cs[0].rem() + rem_sum(cs.drop_first())
    }
}

/// All cursors are well-formed.
pub open spec fn wf_cursors(cs: Seq<TrackState>) -> bool {
    forall|i: int| 0 <= i < cs.len() ==> (#[trigger] cs[i]).wf()
}

/// The cursor after its pending event has been emitted.
pub open spec fn advance_cursor(c: TrackState) -> TrackState {
    let idx2 = c.next_idx + 1;
    TrackState {
        trk_number: c.trk_number,
        events: c.events,
        next_idx: idx2 as usize,
        time: if idx2 < c.events@.len() {
            (c.time + c.events@[idx2 as int].delta) as u64
        } else {
            c.time
        },
    }
}

/// The cursor set after serving cursor `b`.
pub open spec fn advance_at(cs: Seq<TrackState>, b: int) -> Seq<TrackState> {
    cs.update(b, advance_cursor(cs[b]))
}

/// The event that serving cursor `b` emits.
pub open spec fn emit_of(cs: Seq<TrackState>, b: int) -> TickedEvent {
    (cs[b].time, cs[b].trk_number, cs[b].pending_kind())
}

/// Replacing one cursor changes the remaining total by the difference
/// of that cursor's remainders.
proof fn lemma_rem_sum_update(cs: Seq<TrackState>, b: int, c2: TrackState)
    requires
        0 <= b < cs.len(),
    ensures
        rem_sum(cs.update(b, c2)) + cs[b].rem() == rem_sum(cs) + c2.rem(),
    decreases cs.len(),
{
    let cs2 = cs.update(b, c2);
    if b == 0 {
        assert(cs2.drop_first() =~= cs.drop_first());
    } else {
        assert(cs2.drop_first() =~= cs.drop_first().update(b - 1, c2));
        lemma_rem_sum_update(cs.drop_first(), b - 1, c2);
    }
}

/// What `best_loop` guarantees of its result.
proof fn lemma_best_loop_props(cs: Seq<TrackState>, i: int, acc: int)
    requires
        0 <= i <= cs.len(),
        acc == -1 || (0 <= acc < cs.len() && cs[acc].pending()),
        acc == -1 ==> forall|j: int| 0 <= j < i ==> !(#[trigger] cs[j]).pending(),
        acc != -1 ==> forall|j: int|
            0 <= j < i && (#[trigger] cs[j]).pending() ==> !precedes(cs[j], cs[acc]),
    ensures
        ({
            let r = best_loop(cs, i, acc);
            &&& (r == -1 ==> forall|j: int| 0 <= j < cs.len() ==> !(#[trigger] cs[j]).pending())
            &&& (r != -1 ==> 0 <= r < cs.len() && cs[r].pending())
            &&& (r != -1 ==> forall|j: int|
                0 <= j < cs.len() && (#[trigger] cs[j]).pending() ==> !precedes(cs[j], cs[r]))
        }),
    decreases cs.len() - i,
{
    if i < cs.len() {
        let acc2 = if cs[i].pending() && (acc == -1 || precedes(cs[i], cs[acc])) {
            i
        } else {
            acc
        };
        lemma_best_loop_props(cs, i + 1, acc2);
    }
}

/// What `best_index` guarantees: it is `-1` exactly when no cursor is
/// pending, and otherwise names a pending cursor that no pending cursor
/// strictly precedes.
pub proof fn lemma_best_index_props(cs: Seq<TrackState>)
    ensures
        ({
            let r = best_index(cs);
            &&& (r == -1 <==> forall|j: int| 0 <= j < cs.len() ==> !(#[trigger] cs[j]).pending())
            &&& (r != -1 ==> 0 <= r < cs.len() && cs[r].pending())
            &&& (r != -1 ==> forall|j: int|
                0 <= j < cs.len() && (#[trigger] cs[j]).pending() ==> !precedes(cs[j], cs[r]))
        }),
{
    lemma_best_loop_props(cs, 0, -1);
    let r = best_index(cs);
    if r != -1 {
        assert(cs[r].pending());
    }
}

/// The merged stream of a cursor set: repeatedly emit the best pending
/// cursor's event and advance that cursor, until every track is done.
pub open spec fn spec_merge(cs: Seq<TrackState>) -> Seq<TickedEvent>
    decreases rem_sum(cs),
    via spec_merge_dec
{
    let b = best_index(cs);
    if b == -1 {
        Seq::empty()
    } else {
        seq![emit_of(cs, b)] + spec_merge(advance_at(cs, b))
    }
}

#[via_fn]
proof fn spec_merge_dec(cs: Seq<TrackState>) {
    let b = best_index(cs);
    if b != -1 {
        lemma_best_index_props(cs);
        assert(advance_cursor(cs[b]).rem() + 1 == cs[b].rem());
        lemma_rem_sum_update(cs, b, advance_cursor(cs[b]));
    }
}

/// The merged stream is exactly as long as the cursors' remainders.
pub proof fn lemma_merge_len(cs: Seq<TrackState>)
    ensures
        spec_merge(cs).len() == rem_sum(cs),
    decreases rem_sum(cs),
{
    let b = best_index(cs);
    lemma_best_index_props(cs);
    if b == -1 {
        lemma_rem_sum_no_pending(cs);
    } else {
        assert(advance_cursor(cs[b]).rem() + 1 == cs[b].rem());
        lemma_rem_sum_update(cs, b, advance_cursor(cs[b]));
        lemma_merge_len(advance_at(cs, b));
    }
}

/// A cursor set with nothing pending has remainder zero.
proof fn lemma_rem_sum_no_pending(cs: Seq<TrackState>)
    requires
        forall|j: int| 0 <= j < cs.len() ==> !(#[trigger] cs[j]).pending(),
    ensures
        rem_sum(cs) == 0,
    decreases cs.len(),
{
    if cs.len() > 0 {
        assert(!cs[0].pending());
        lemma_rem_sum_no_pending(cs.drop_first());
    }
}

/// Advancing a well-formed cursor keeps it well-formed and never moves
/// its tick backwards.
proof fn lemma_advance_cursor_wf(c: TrackState)
    requires
        c.wf(),
        c.pending(),
    ensures
        advance_cursor(c).wf(),
        advance_cursor(c).time >= c.time,
        advance_cursor(c).rem() + 1 == c.rem(),
{
    let c2 = advance_cursor(c);
    if c.next_idx + 1 < c.events@.len() {
        assert(prefix_ticks(c.events@, c.next_idx + 2) == prefix_ticks(c.events@, c.next_idx + 1)
            + c.events@[c.next_idx + 1].delta);
        lemma_prefix_ticks_monotonic(c.events@, c.next_idx + 2, c.events@.len() as int);
        lemma_prefix_ticks_nonneg(c.events@, c.next_idx + 2);
    }
}

/// Prefix tick sums are never negative.
proof fn lemma_prefix_ticks_nonneg(evs: Seq<TrackEvent>, n: int)
    ensures
        prefix_ticks(evs, n) >= 0,
    decreases n,
{
    if n > 0 {
        lemma_prefix_ticks_nonneg(evs, n - 1);
    }
}

/// Every event of the merged stream carries a tick at least `t`, as
/// soon as every pending cursor does.
pub proof fn lemma_merge_lower_bound(cs: Seq<TrackState>, t: int)
    requires
        wf_cursors(cs),
        forall|j: int| 0 <= j < cs.len() && (#[trigger] cs[j]).pending() ==> cs[j].time >= t,
    ensures
        forall|k: int| 0 <= k < spec_merge(cs).len() ==> (#[trigger] spec_merge(cs)[k]).0 >= t,
    decreases rem_sum(cs),
{
    let b = best_index(cs);
    lemma_best_index_props(cs);
    if b != -1 {
        let cs2 = advance_at(cs, b);
        lemma_advance_cursor_wf(cs[b]);
        lemma_rem_sum_update(cs, b, advance_cursor(cs[b]));
        assert(wf_cursors(cs2)) by {
            assert forall|i: int| 0 <= i < cs2.len() implies (#[trigger] cs2[i]).wf() by {
                if i != b {
                    assert(cs2[i] == cs[i]);
                }
            }
        }
        assert forall|j: int|
            0 <= j < cs2.len() && (#[trigger] cs2[j]).pending() implies cs2[j].time >= t by {
            if j != b {
                assert(cs2[j] == cs[j]);
            }
        }
        lemma_merge_lower_bound(cs2, t);
        assert(spec_merge(cs) == seq![emit_of(cs, b)] + spec_merge(cs2));
    }
}

/// Law: the merged stream's ticks are non-decreasing.
pub proof fn lemma_merge_sorted(cs: Seq<TrackState>)
    requires
        wf_cursors(cs),
    ensures
        forall|a: int, b: int|
            0 <= a <= b < spec_merge(cs).len() ==> (#[trigger] spec_merge(cs)[a]).0 <= (
            #[trigger] spec_merge(cs)[b]).0,
    decreases rem_sum(cs),
{
    let bi = best_index(cs);
    lemma_best_index_props(cs);
    if bi != -1 {
        let cs2 = advance_at(cs, bi);
        lemma_advance_cursor_wf(cs[bi]);
        lemma_rem_sum_update(cs, bi, advance_cursor(cs[bi]));
        assert(wf_cursors(cs2)) by {
            assert forall|i: int| 0 <= i < cs2.len() implies (#[trigger] cs2[i]).wf() by {
                if i != bi {
                    assert(cs2[i] == cs[i]);
                }
            }
        }
        let t0 = cs[bi].time as int;
        assert forall|j: int|
            0 <= j < cs2.len() && (#[trigger] cs2[j]).pending() implies cs2[j].time >= t0 by {
            if j != bi {
                assert(cs2[j] == cs[j]);
                assert(!precedes(cs[j], cs[bi]));
            }
        }
        lemma_merge_lower_bound(cs2, t0);
        lemma_merge_sorted(cs2);
        assert(spec_merge(cs) == seq![emit_of(cs, bi)] + spec_merge(cs2));
    }
}

/// The merge of per-track cursors, emitting one event per call.
pub struct MidiIterator {
    pub track_parsers: Vec<TrackState>,
}

impl MidiIterator {
    /// All cursors well-formed.
    pub open spec fn wf(self) -> bool {
        wf_cursors(self.track_parsers@)
    }

    /// An empty merge.
    pub fn new() -> (r: MidiIterator)
        ensures
            r.wf(),
            r.track_parsers@ =~= Seq::<TrackState>::empty(),
    {
        MidiIterator { track_parsers: Vec::new() }
    }

    /// Adds one track's event list.  The track's total tick count must
    /// stay within 32 bits, which every real track format guarantees.
    pub fn add_track(&mut self, trk_number: usize, events: Vec<TrackEvent>)
        requires
            old(self).wf(),
            prefix_ticks(events@, events@.len() as int) <= u32::MAX,
        ensures
            final(self).wf(),
            final(self).track_parsers@.len() == old(self).track_parsers@.len() + 1,
            final(self).track_parsers@.last().wf(),
            final(self).track_parsers@.last().trk_number == trk_number,
            final(self).track_parsers@.last().events == events,
            final(self).track_parsers@.last().next_idx == 0,
            final(self).track_parsers@.last().rem() == events@.len(),
            final(self).track_parsers@.last().time == if events@.len() > 0 {
                prefix_ticks(events@, 1)
            } else {
                0
            },
            forall|i: int|
                0 <= i < old(self).track_parsers@.len() ==> final(self).track_parsers@[i] == old(
                    self,
                ).track_parsers@[i],
    {
        let ts = TrackState::new(trk_number, events);
        self.track_parsers.push(ts);
        proof {
            assert forall|i: int|
                0 <= i < self.track_parsers@.len() implies (#[trigger] self.track_parsers@[i]).wf()
                by {
                if i < self.track_parsers@.len() - 1 {
                    assert(self.track_parsers@[i] == old(self).track_parsers@[i]);
                }
            }
        }
    }

    /// Emits the next merged event: the pending event with the smallest
    /// tick, meta events first among equals; `None` once every track is
    /// exhausted.  The whole stream of such calls is `spec_merge` of the
    /// starting cursors.
    pub fn next(&mut self) -> (r: Option<TickedEvent>)
        requires
            old(self).wf(),
        ensures
            final(self).wf(),
            match r {
                None => {
                    &&& *final(self) == *old(self)
                    &&& spec_merge(old(self).track_parsers@).len() == 0
                    &&& rem_sum(old(self).track_parsers@) == 0
                },
                Some(e) => {
                    &&& spec_merge(old(self).track_parsers@) == seq![e] + spec_merge(
                        final(self).track_parsers@,
                    )
                    &&& rem_sum(final(self).track_parsers@) + 1 == rem_sum(
                        old(self).track_parsers@,
                    )
                    &&& e.0 <= u32::MAX
                    &&& (forall|k: int|
                        0 <= k < spec_merge(final(self).track_parsers@).len() ==> (
                        #[trigger] spec_merge(final(self).track_parsers@)[k]).0 >= e.0)
                    &&& (forall|j: int|
                        0 <= j < final(self).track_parsers@.len() && (
                        #[trigger] final(self).track_parsers@[j]).pending()
                            ==> final(self).track_parsers@[j].time >= e.0)
                },
            },
    {
        let ghost cs = self.track_parsers@;
        let n = self.track_parsers.len();
        let mut acc: Option<usize> = None;
        let mut i: usize = 0;
        while i < n
            invariant
                n == self.track_parsers@.len(),
                self == old(self),
                wf_cursors(self.track_parsers@),
                0 <= i <= n,
                match acc {
                    None => true,
                    Some(a) => a < i && self.track_parsers@[a as int].pending(),
                },
                best_loop(
                    self.track_parsers@,
                    i as int,
                    match acc {
                        None => -1,
                        Some(a) => a as int,
                    },
                ) == best_index(self.track_parsers@),
            decreases n - i,
        {
            let c = &self.track_parsers[i];
            let better = if c.next_idx < c.events.len() {
                match acc {
                    None => true,
                    Some(a) => {
                        let ac = &self.track_parsers[a];
                        if c.time < ac.time {
                            true
                        } else if c.time == ac.time {
                            c.events[c.next_idx].kind.meta() && !ac.events[ac.next_idx].kind.meta()
                        } else {
                            false
                        }
                    },
                }
            } else {
                false
            };
            if better {
                acc = Some(i);
            }
            i = i + 1;
        }
        proof {
            lemma_best_index_props(cs);
        }
        if acc.is_none() {
            proof {
                lemma_merge_len(cs);
                lemma_rem_sum_no_pending(cs);
            }
            None
        } else {
            let b = acc.unwrap();
            proof {
                assert(cs[b as int].wf());
            }
            let mut c = self.track_parsers.remove(b);
            let e = (c.time, c.trk_number, c.events[c.next_idx].kind);
            let idx2 = c.next_idx + 1;
            let time2: u64 = if idx2 < c.events.len() {
                proof {
                    assert(prefix_ticks(c.events@, c.next_idx + 2) == prefix_ticks(
                        c.events@,
                        c.next_idx + 1,
                    ) + c.events@[c.next_idx + 1].delta);
                    lemma_prefix_ticks_monotonic(c.events@, c.next_idx + 2, c.events@.len() as int);
                    lemma_prefix_ticks_nonneg(c.events@, c.next_idx + 1);
                }
                c.time + c.events[idx2].delta as u64
            } else {
                c.time
            };
            c.next_idx = idx2;
            c.time = time2;
            proof {
                assert(c == advance_cursor(cs[b as int]));
                lemma_advance_cursor_wf(cs[b as int]);
                lemma_rem_sum_update(cs, b as int, advance_cursor(cs[b as int]));
            }
            self.track_parsers.insert(b, c);
            proof {
                assert(self.track_parsers@ =~= advance_at(cs, b as int));
                assert forall|j: int|
                    0 <= j < self.track_parsers@.len() implies (
                #[trigger] self.track_parsers@[j]).wf() by {
                    if j != b {
                        assert(self.track_parsers@[j] == cs[j]);
                    }
                }
                assert(e == emit_of(cs, b as int));
                assert(spec_merge(cs) == seq![e] + spec_merge(self.track_parsers@));
                assert(e.0 <= u32::MAX) by {
                    let co = cs[b as int];
                    lemma_prefix_ticks_monotonic(co.events@, co.next_idx + 1, co.events@.len() as int);
                }
                assert forall|j: int|
                    0 <= j < self.track_parsers@.len() && (
                #[trigger] self.track_parsers@[j]).pending() implies self.track_parsers@[j].time
                    >= e.0 by {
                    if j != b {
                        assert(self.track_parsers@[j] == cs[j]);
                        assert(!precedes(cs[j], cs[b as int]));
                    }
                }
                lemma_merge_lower_bound(self.track_parsers@, e.0 as int);
            }
            Some(e)
        }
    }

    /// Attaches the running tempo map: the merged tick stream becomes a
    /// stream of microsecond timestamps.  A non-metrical timing
    /// reference or a zero tick resolution is a configuration error and
    /// fails before any merging happens.
    pub fn timed(self, timing: &Timing) -> (r: Result<MidiTimedIterator, TimingError>)
        requires
            self.wf(),
        ensures
            match r {
                Ok(it) => {
                    &&& it.wf()
                    &&& timing matches Timing::Metrical(p) && p >= 1 && it.ppqn == p
                    &&& it.midi_iter == self
                    &&& it.last_tick == 0
                    &&& it.current_time_us == 0
                    &&& it.timebase == spec_new_timebase(it.ppqn as int, 0, DEFAULT_TEMPO as int)
                },
                Err(TimingError::UnsupportedTimecode) => timing matches Timing::Timecode(_, _),
                Err(TimingError::ZeroTicksPerBeat) => timing matches Timing::Metrical(p) && p == 0,
            },
    {
        match *timing {
            Timing::Timecode(_, _) => Err(TimingError::UnsupportedTimecode),
            Timing::Metrical(ppqn) => {
                if ppqn == 0 {
                    Err(TimingError::ZeroTicksPerBeat)
                } else {
                    let mut it = MidiTimedIterator {
                        midi_iter: self,
                        ppqn,
                        timebase: 0,
                        current_time_us: 0,
                        last_tick: 0,
                    };
                    it.update_timebase(DEFAULT_TEMPO);
                    Ok(it)
                }
            },
        }
    }
}

/// The timing reference of a file: ticks per quarter note, or an
/// SMPTE timecode (frames per second and subframes), which this core
/// does not support.
#[derive(Clone, Copy, Debug, PartialEq, Eq, Structural)]
pub enum Timing {
    Metrical(u16),
    Timecode(u8, u8),
}

/// Why a timed view cannot be built: the merge fails closed on a
/// malformed timing reference rather than assume a value.
#[derive(Clone, Copy, Debug, PartialEq, Eq, Structural)]
pub enum TimingError {
    UnsupportedTimecode,
    ZeroTicksPerBeat,
}

/// The tempo map update: a tempo event of `tempo` microseconds per
/// quarter note sets the running microseconds-per-tick value; a tempo
/// of zero or slower than one beat per minute cannot be represented and
/// leaves the map unchanged.
pub open spec fn spec_new_timebase(ppqn: int, tb: int, tempo: int) -> int {
    if tempo <= 0 {
        tb
    } else {
        let bpm: int = 60_000_000int / tempo;
        if bpm <= 0 {
            tb
        } else {
            (60_000_000int / ppqn) / bpm
        }
    }
}

/// Converting a merged tick stream to microseconds: each tick delta is
/// converted with the tempo in effect before it, tempo events update
/// the tempo in place and are absorbed, everything else is emitted with
/// the accumulated microsecond timestamp.
pub open spec fn spec_timed(
    s: Seq<TickedEvent>,
    last_tick: int,
    cur_us: int,
    tb: int,
    ppqn: int,
) -> Seq<TickedEvent>
    decreases s.len(),
{
    if s.len() == 0 {
        Seq::empty()
    } else {
        let tick = s[0].0 as int;
        let dt = tick - last_tick;
        let last2 = if dt > 0 {
            tick
        } else {
            last_tick
        };
        let cur2 = if dt > 0 {
            cur_us + dt * tb
        } else {
            cur_us
        };
        match s[0].2 {
            EventKind::Tempo(t) => spec_timed(
                s.drop_first(),
                last2,
                cur2,
                spec_new_timebase(ppqn, tb, t as int),
                ppqn,
            ),
            _ => seq![(cur2 as u64, s[0].1, s[0].2)] + spec_timed(
                s.drop_first(),
                last2,
                cur2,
                tb,
                ppqn,
            ),
        }
    }
}

/// The timed view of a merge: absorbs tempo events into the running
/// tempo and stamps every other event with accumulated microseconds.
pub struct MidiTimedIterator {
    pub midi_iter: MidiIterator,
    pub ppqn: u16,
    pub timebase: u64,
    pub current_time_us: u64,
    pub last_tick: u64,
}

impl MidiTimedIterator {
    /// The timed view this iterator still has to produce.
    pub open spec fn remaining(self) -> Seq<TickedEvent> {
        spec_timed(
            spec_merge(self.midi_iter.track_parsers@),
            self.last_tick as int,
            self.current_time_us as int,
            self.timebase as int,
            self.ppqn as int,
        )
    }

    /// The conversion state stays within the ranges that keep every
    /// accumulation exact: ticks fit 32 bits, the timebase is at most
    /// one quarter note per tick, and the accumulated microseconds
    /// never exceed the last tick converted at the slowest tempo.
    pub open spec fn wf(self) -> bool {
        &&& self.midi_iter.wf()
        &&& self.ppqn >= 1
        &&& self.timebase <= MAX_TIMEBASE
        &&& self.last_tick <= u32::MAX
        &&& self.current_time_us <= self.last_tick * MAX_TIMEBASE
        &&& forall|j: int|
            0 <= j < self.midi_iter.track_parsers@.len() && (
            #[trigger] self.midi_iter.track_parsers@[j]).pending()
                ==> self.midi_iter.track_parsers@[j].time >= self.last_tick
    }

    /// Installs the microseconds-per-tick value for a tempo event.
    fn update_timebase(&mut self, tempo: u32)
        requires
            old(self).ppqn >= 1,
            old(self).timebase <= MAX_TIMEBASE,
        ensures
            final(self).timebase == spec_new_timebase(
                old(self).ppqn as int,
                old(self).timebase as int,
                tempo as int,
            ),
            final(self).timebase <= MAX_TIMEBASE,
            final(self).midi_iter == old(self).midi_iter,
            final(self).ppqn == old(self).ppqn,
            final(self).current_time_us == old(self).current_time_us,
            final(self).last_tick == old(self).last_tick,
    {
        if tempo > 0 {
            let bpm: u64 = 60_000_000u64 / tempo as u64;
            if bpm > 0 {
                self.timebase = 60_000_000u64 / self.ppqn as u64 / bpm;
                proof {
                    lemma_div_by_positive_le(60_000_000int, self.ppqn as int);
                    lemma_div_by_positive_le(60_000_000int / (self.ppqn as int), bpm as int);
                }
            }
        }
    }

    /// Emits the next timed event, absorbing any tempo events on the
    /// way; `None` once the merge is exhausted.
    pub fn next(&mut self) -> (r: Option<TickedEvent>)
        requires
            old(self).wf(),
        ensures
            final(self).wf(),
            final(self).ppqn == old(self).ppqn,
            old(self).remaining() == match r {
                None => Seq::<TickedEvent>::empty(),
                Some(e) => seq![e] + final(self).remaining(),
            },
            r is Some ==> rem_sum(final(self).midi_iter.track_parsers@) < rem_sum(
                old(self).midi_iter.track_parsers@,
            ),
            r is None ==> rem_sum(final(self).midi_iter.track_parsers@) == 0,
    {
        loop
            invariant
                self.wf(),
                self.ppqn == old(self).ppqn,
                old(self).remaining() == self.remaining(),
                rem_sum(self.midi_iter.track_parsers@) <= rem_sum(
                    old(self).midi_iter.track_parsers@,
                ),
            decreases rem_sum(self.midi_iter.track_parsers@),
        {
            let ghost pre = *self;
            let ghost merged_pre = spec_merge(self.midi_iter.track_parsers@);
            proof {
                lemma_merge_lower_bound(self.midi_iter.track_parsers@, self.last_tick as int);
            }
            match self.midi_iter.next() {
                None => {
                    return None;
                },
                Some(ev) => {
                    let (tick, trk, kind) = ev;
                    proof {
                        assert(merged_pre[0] == ev);
                        assert(tick >= pre.last_tick);
                    }
                    let dt: u64 = tick - self.last_tick;
                    if dt > 0 {
                        proof {
                            lemma_mul_inequality(
                                dt as int,
                                u32::MAX as int,
                                MAX_TIMEBASE as int,
                            );
                            lemma_mul_inequality(
                                self.timebase as int,
                                MAX_TIMEBASE as int,
                                dt as int,
                            );
                            assert(self.current_time_us + dt * self.timebase <= tick
                                * MAX_TIMEBASE) by (nonlinear_arith)
                                requires
                                    self.current_time_us <= self.last_tick * MAX_TIMEBASE,
                                    self.timebase <= MAX_TIMEBASE,
                                    dt == tick - self.last_tick,
                                    dt > 0,
                                    self.last_tick >= 0,
                            ;
                            assert(tick * MAX_TIMEBASE <= u32::MAX * MAX_TIMEBASE) by {
                                lemma_mul_inequality(
                                    tick as int,
                                    u32::MAX as int,
                                    MAX_TIMEBASE as int,
                                );
                            }
                            assert(dt * self.timebase >= 0) by (nonlinear_arith)
                                requires
                                    dt >= 0,
                                    self.timebase >= 0,
                            ;
                        }
                        self.last_tick = tick;
                        self.current_time_us = self.current_time_us + dt * self.timebase;
                    }
                    let is_tempo: Option<u32> = match kind {
                        EventKind::Tempo(t) => Some(t),
                        _ => None,
                    };
                    proof {
                        assert(merged_pre.drop_first() == spec_merge(
                            self.midi_iter.track_parsers@,
                        ));
                    }
                    match is_tempo {
                        Some(t) => {
                            self.update_timebase(t);
                            proof {
                                assert(pre.remaining() == self.remaining());
                            }
                        },
                        None => {
                            let e = (self.current_time_us, trk, kind);
                            proof {
                                assert(pre.remaining() == seq![e] + self.remaining());
                            }
                            return Some(e);
                        },
                    }
                },
            }
        }
    }
}

/// Dividing a non-negative value by a positive one never grows it.
proof fn lemma_div_by_positive_le(x: int, d: int)
    requires
        x >= 0,
        d >= 1,
    ensures
        0 <= x / d <= x,
{
    assert(0 <= x / d <= x) by (nonlinear_arith)
        requires
            x >= 0,
            d >= 1,
    ;
}

/// Law: the timed view's timestamps are non-decreasing, given a merged
/// stream whose ticks are non-decreasing — which `spec_merge` always
/// yields — and a conversion state within its working ranges.
pub proof fn lemma_timed_nondecreasing(
    s: Seq<TickedEvent>,
    last_tick: int,
    cur_us: int,
    tb: int,
    ppqn: int,
)
    requires
        forall|a: int, b: int| 0 <= a <= b < s.len() ==> (#[trigger] s[a]).0 <= (#[trigger] s[b]).0,
        forall|k: int| 0 <= k < s.len() ==> (#[trigger] s[k]).0 <= u32::MAX,
        forall|k: int| 0 <= k < s.len() ==> (#[trigger] s[k]).0 >= last_tick,
        0 <= last_tick <= u32::MAX,
        0 <= cur_us <= last_tick * (MAX_TIMEBASE as int),
        0 <= tb <= MAX_TIMEBASE,
        ppqn >= 1,
    ensures
        ({
            let out = spec_timed(s, last_tick, cur_us, tb, ppqn);
            &&& forall|a: int, b: int|
                0 <= a <= b < out.len() ==> (#[trigger] out[a]).0 <= (#[trigger] out[b]).0
            &&& forall|k: int| 0 <= k < out.len() ==> (#[trigger] out[k]).0 >= cur_us
            &&& forall|k: int|
                0 <= k < out.len() ==> (#[trigger] out[k]).0 <= u32::MAX * (MAX_TIMEBASE as int)
        }),
    decreases s.len(),
{
    if s.len() > 0 {
        let tick = s[0].0 as int;
        assert(s[0].0 <= u32::MAX);
        assert(s[0].0 >= last_tick);
        let dt = tick - last_tick;
        let last2 = if dt > 0 {
            tick
        } else {
            last_tick
        };
        let cur2 = if dt > 0 {
            cur_us + dt * tb
        } else {
            cur_us
        };
        assert(cur_us <= cur2 <= last2 * (MAX_TIMEBASE as int)) by (nonlinear_arith)
            requires
                0 <= last_tick,
                last_tick <= tick,
                0 <= cur_us <= last_tick * (MAX_TIMEBASE as int),
                0 <= tb <= MAX_TIMEBASE,
                dt == tick - last_tick,
                last2 == if dt > 0 {
                    tick
                } else {
                    last_tick
                },
                cur2 == if dt > 0 {
                    cur_us + dt * tb
                } else {
                    cur_us
                },
        ;
        assert(last2 * (MAX_TIMEBASE as int) <= u32::MAX * (MAX_TIMEBASE as int)) by {
            lemma_mul_inequality(last2, u32::MAX as int, MAX_TIMEBASE as int);
        }
        let rest = s.drop_first();
        assert forall|k: int| 0 <= k < rest.len() implies (#[trigger] rest[k]).0 >= last2 by {
            assert(rest[k] == s[k + 1]);
            assert(s[0].0 <= s[k + 1].0);
        }
        assert forall|a: int, b: int|
            0 <= a <= b < rest.len() implies (#[trigger] rest[a]).0 <= (#[trigger] rest[b]).0 by {
            assert(rest[a] == s[a + 1]);
            assert(rest[b] == s[b + 1]);
        }
        assert forall|k: int| 0 <= k < rest.len() implies (#[trigger] rest[k]).0 <= u32::MAX by {
            assert(rest[k] == s[k + 1]);
        }
        match s[0].2 {
            EventKind::Tempo(t) => {
                let tb2 = spec_new_timebase(ppqn, tb, t as int);
                assert(0 <= tb2 <= MAX_TIMEBASE) by {
                    if t > 0 {
                        let bpm: int = 60_000_000int / (t as int);
                        lemma_div_by_positive_le(60_000_000int, t as int);
                        if bpm > 0 {
                            lemma_div_by_positive_le(60_000_000int, ppqn);
                            lemma_div_by_positive_le(60_000_000int / ppqn, bpm);
                        }
                    }
                }
                lemma_timed_nondecreasing(rest, last2, cur2, tb2, ppqn);
                let out = spec_timed(s, last_tick, cur_us, tb, ppqn);
                let out_rest = spec_timed(rest, last2, cur2, tb2, ppqn);
                assert(out == out_rest);
                assert forall|k: int| 0 <= k < out.len() implies (#[trigger] out[k]).0 >= cur_us by {
                    assert(out[k] == out_rest[k]);
                    assert(out_rest[k].0 >= cur2);
                }
            },
            _ => {
                lemma_timed_nondecreasing(rest, last2, cur2, tb, ppqn);
                let out = spec_timed(s, last_tick, cur_us, tb, ppqn);
                let out_rest = spec_timed(rest, last2, cur2, tb, ppqn);
                assert(out == seq![((cur2 as u64), s[0].1, s[0].2)] + out_rest);
                assert(cur2 as u64 == cur2);
                assert forall|a: int, b: int|
                    0 <= a <= b < out.len() implies (#[trigger] out[a]).0 <= (
                #[trigger] out[b]).0 by {
                    if a > 0 {
                        assert(out[a] == out_rest[a - 1]);
                        assert(out[b] == out_rest[b - 1]);
                    } else if b > 0 {
                        assert(out[b] == out_rest[b - 1]);
                        assert(out_rest[b - 1].0 >= cur2);
                    }
                }
                assert forall|k: int| 0 <= k < out.len() implies (#[trigger] out[k]).0 >= cur_us by {
                    if k > 0 {
                        assert(out[k] == out_rest[k - 1]);
                        assert(out_rest[k - 1].0 >= cur2);
                    }
                }
                assert forall|k: int|
                    0 <= k < out.len() implies (#[trigger] out[k]).0 <= u32::MAX * (
                MAX_TIMEBASE as int) by {
                    if k > 0 {
                        assert(out[k] == out_rest[k - 1]);
                    }
                }
            },
        }
    }
}

/// Law: with no tempo events in the stream the running tempo never
/// changes, and every emitted timestamp is exactly the event's absolute
/// tick times the constant microseconds-per-tick value.
pub proof fn lemma_timed_constant_tempo(
    s: Seq<TickedEvent>,
    last_tick: int,
    cur_us: int,
    tb: int,
    ppqn: int,
)
    requires
        forall|k: int| 0 <= k < s.len() ==> !((#[trigger] s[k]).2 matches EventKind::Tempo(_)),
        forall|a: int, b: int| 0 <= a <= b < s.len() ==> (#[trigger] s[a]).0 <= (#[trigger] s[b]).0,
        forall|k: int| 0 <= k < s.len() ==> (#[trigger] s[k]).0 <= u32::MAX,
        forall|k: int| 0 <= k < s.len() ==> (#[trigger] s[k]).0 >= last_tick,
        0 <= last_tick <= u32::MAX,
        cur_us == last_tick * tb,
        0 <= tb <= MAX_TIMEBASE,
    ensures
        ({
            let out = spec_timed(s, last_tick, cur_us, tb, ppqn);
            &&& out.len() == s.len()
            &&& forall|k: int|
                0 <= k < out.len() ==> #[trigger] out[k] == (
                    ((s[k].0 * tb) as u64),
                    s[k].1,
                    s[k].2,
                )
        }),
    decreases s.len(),
{
    if s.len() > 0 {
        let tick = s[0].0 as int;
        let dt = tick - last_tick;
        let last2 = if dt > 0 {
            tick
        } else {
            last_tick
        };
        let cur2 = if dt > 0 {
            cur_us + dt * tb
        } else {
            cur_us
        };
        assert(last2 == tick);
        assert(cur2 == tick * tb) by (nonlinear_arith)
            requires
                cur_us == last_tick * tb,
                dt == tick - last_tick,
                last2 == if dt > 0 {
                    tick
                } else {
                    last_tick
                },
                cur2 == if dt > 0 {
                    cur_us + dt * tb
                } else {
                    cur_us
                },
                dt <= 0 ==> tick == last_tick,
        ;
        let rest = s.drop_first();
        assert forall|k: int| 0 <= k < rest.len() implies (#[trigger] rest[k]).0 >= last2 by {
            assert(rest[k] == s[k + 1]);
            assert(s[0].0 <= s[k + 1].0);
        }
        assert forall|a: int, b: int|
            0 <= a <= b < rest.len() implies (#[trigger] rest[a]).0 <= (#[trigger] rest[b]).0 by {
            assert(rest[a] == s[a + 1]);
            assert(rest[b] == s[b + 1]);
        }
        assert forall|k: int| 0 <= k < rest.len() implies (#[trigger] rest[k]).0 <= u32::MAX by {
            assert(rest[k] == s[k + 1]);
        }
        assert forall|k: int|
            0 <= k < rest.len() implies !((#[trigger] rest[k]).2 matches EventKind::Tempo(_)) by {
            assert(rest[k] == s[k + 1]);
        }
        lemma_timed_constant_tempo(rest, last2, cur2, tb, ppqn);
        let out = spec_timed(s, last_tick, cur_us, tb, ppqn);
        let out_rest = spec_timed(rest, last2, cur2, tb, ppqn);
        assert(out == seq![((cur2 as u64), s[0].1, s[0].2)] + out_rest);
        assert forall|k: int|
            0 <= k < out.len() implies #[trigger] out[k] == (
            ((s[k].0 * tb) as u64),
            s[k].1,
            s[k].2,
        ) by {
            if k > 0 {
                assert(out[k] == out_rest[k - 1]);
                assert(rest[k - 1] == s[k]);
            }
        }
    }
}


/// Whether a track's total tick count stays within 32 bits — the
/// condition the merge requires of every track it is given.
pub fn track_ticks_in_range(events: &Vec<TrackEvent>) -> (r: bool)
    ensures
        r == (prefix_ticks(events@, events@.len() as int) <= u32::MAX),
{
    let mut sum: u64 = 0;
    let mut i: usize = 0;
    let n = events.len();
    while i < n
        invariant
            i <= n,
            n == events@.len(),
            sum == prefix_ticks(events@, i as int),
            sum <= u32::MAX,
        decreases n - i,
    {
        let next = sum + events[i].delta as u64;
        if next > u32::MAX as u64 {
            proof {
                lemma_prefix_ticks_monotonic(events@, i + 1, events@.len() as int);
            }
            return false;
        }
        sum = next;
        i = i + 1;
    }
    true
}

/// The cursor a track starts from.
pub open spec fn spec_initial_cursor(trk: usize, events: Vec<TrackEvent>) -> TrackState {
    TrackState {
        trk_number: trk,
        events,
        next_idx: 0,
        time: if events@.len() > 0 {
            prefix_ticks(events@, 1) as u64
        } else {
            0
        },
    }
}

/// The cursor set a list of tracks starts from.
pub open spec fn spec_cursors(tracks: Seq<Vec<TrackEvent>>) -> Seq<TrackState> {
    Seq::new(tracks.len(), |i: int| spec_initial_cursor(i as usize, tracks[i]))
}

/// Keeping only channel messages of the chosen tracks, each put
/// through transposition and range filtering.
pub open spec fn spec_filter_map(
    s: Seq<TickedEvent>,
    filter: Seq<usize>,
    all: bool,
    shift_key: i8,
    left_key: u8,
    right_key: u8,
) -> Seq<RawMidiTuple>
    decreases s.len(),
{
    if s.len() == 0 {
        Seq::empty()
    } else {
        let rest = spec_filter_map(s.drop_first(), filter, all, shift_key, left_key, right_key);
        match s[0].2 {
            EventKind::Midi { channel, message } => if filter.contains(s[0].1) {
                match spec_transposed(
                    s[0].0,
                    s[0].1,
                    channel,
                    message,
                    all,
                    shift_key,
                    left_key,
                    right_key,
                ) {
                    Some(e) => seq![e] + rest,
                    None => rest,
                }
            } else {
                rest
            },
            _ => rest,
        }
    }
}

/// Every tick the merge emits fits 32 bits.
pub proof fn lemma_merge_ticks_bounded(cs: Seq<TrackState>)
    requires
        wf_cursors(cs),
    ensures
        forall|k: int| 0 <= k < spec_merge(cs).len() ==> (#[trigger] spec_merge(cs)[k]).0
            <= u32::MAX,
    decreases rem_sum(cs),
{
    let b = best_index(cs);
    lemma_best_index_props(cs);
    if b != -1 {
        let cs2 = advance_at(cs, b);
        lemma_advance_cursor_wf(cs[b]);
        lemma_rem_sum_update(cs, b, advance_cursor(cs[b]));
        assert(wf_cursors(cs2)) by {
            assert forall|i: int| 0 <= i < cs2.len() implies (#[trigger] cs2[i]).wf() by {
                if i != b {
                    assert(cs2[i] == cs[i]);
                }
            }
        }
        lemma_merge_ticks_bounded(cs2);
        assert(emit_of(cs, b).0 <= u32::MAX) by {
            let co = cs[b];
            lemma_prefix_ticks_monotonic(co.events@, co.next_idx + 1, co.events@.len() as int);
        }
        assert(spec_merge(cs) == seq![emit_of(cs, b)] + spec_merge(cs2));
    }
}

/// The filtered, transposed view of a time-ordered stream is itself
/// time-ordered, within the same bounds: each kept event carries its
/// source timestamp.
pub proof fn lemma_filter_map_props(
    s: Seq<TickedEvent>,
    filter: Seq<usize>,
    all: bool,
    shift_key: i8,
    left_key: u8,
    right_key: u8,
    lo: int,
    hi: int,
)
    requires
        forall|a: int, b: int| 0 <= a <= b < s.len() ==> (#[trigger] s[a]).0 <= (#[trigger] s[b]).0,
        forall|k: int| 0 <= k < s.len() ==> lo <= (#[trigger] s[k]).0 <= hi,
    ensures
        ({
            let out = spec_filter_map(s, filter, all, shift_key, left_key, right_key);
            &&& forall|a: int, b: int|
                0 <= a <= b < out.len() ==> (#[trigger] out[a]).0 <= (#[trigger] out[b]).0
            &&& forall|k: int| 0 <= k < out.len() ==> lo <= (#[trigger] out[k]).0 <= hi
        }),
    decreases s.len(),
{
    if s.len() > 0 {
        let rest = s.drop_first();
        assert forall|a: int, b: int|
            0 <= a <= b < rest.len() implies (#[trigger] rest[a]).0 <= (#[trigger] rest[b]).0 by {
            assert(rest[a] == s[a + 1]);
            assert(rest[b] == s[b + 1]);
        }
        assert forall|k: int| 0 <= k < rest.len() implies (s[0].0 as int) <= (#[trigger] rest[k]).0
            <= hi by {
            assert(rest[k] == s[k + 1]);
            assert(s[0].0 <= s[k + 1].0);
        }
        lemma_filter_map_props(rest, filter, all, shift_key, left_key, right_key, s[0].0 as int, hi);
        let out = spec_filter_map(s, filter, all, shift_key, left_key, right_key);
        let out_rest = spec_filter_map(rest, filter, all, shift_key, left_key, right_key);
        let head = spec_head_mapped(s[0], filter, all, shift_key, left_key, right_key);
        assert(s[0].0 >= lo);
        match head {
            Some(e) => {
                assert(out == seq![e] + out_rest);
                assert(e.0 == s[0].0);
                assert forall|a: int, b: int|
                    0 <= a <= b < out.len() implies (#[trigger] out[a]).0 <= (
                #[trigger] out[b]).0 by {
                    if a > 0 {
                        assert(out[a] == out_rest[a - 1]);
                        assert(out[b] == out_rest[b - 1]);
                    } else if b > 0 {
                        assert(out[b] == out_rest[b - 1]);
                    }
                }
                assert forall|k: int| 0 <= k < out.len() implies lo <= (#[trigger] out[k]).0
                    <= hi by {
                    if k > 0 {
                        assert(out[k] == out_rest[k - 1]);
                    }
                }
            },
            None => {
                assert(out == out_rest);
            },
        }
    }
}

/// What one stream element contributes to the filtered view.
pub open spec fn spec_head_mapped(
    e: TickedEvent,
    filter: Seq<usize>,
    all: bool,
    shift_key: i8,
    left_key: u8,
    right_key: u8,
) -> Option<RawMidiTuple> {
    match e.2 {
        EventKind::Midi { channel, message } => if filter.contains(e.1) {
            spec_transposed(e.0, e.1, channel, message, all, shift_key, left_key, right_key)
        } else {
            None
        },
        _ => None,
    }
}

/// Whether the track list names this track.
fn contains_usize(v: &Vec<usize>, x: usize) -> (r: bool)
    ensures
        r == v@.contains(x),
{
    let mut i: usize = 0;
    while i < v.len()
        invariant
            i <= v@.len(),
            forall|j: int| 0 <= j < i ==> v@[j] != x,
        decreases v@.len() - i,
    {
        if v[i] == x {
            assert(v@.contains(x));
            return true;
        }
        i = i + 1;
    }
    proof {
        assert(!v@.contains(x));
    }
    false
}

/// The compute half of reading a file for playback or display: merges
/// the tracks, stamps the merged stream with microseconds under the
/// running tempo map, keeps the chosen tracks\' channel messages and
/// puts each through transposition and range filtering.  The result is
/// time-ordered.  A malformed timing reference fails closed before any
/// merging happens.
pub fn filtered_timed_events(
    tracks: Vec<Vec<TrackEvent>>,
    timing: &Timing,
    track_filter: &Vec<usize>,
    all: bool,
    shift_key: i8,
    left_key: u8,
    right_key: u8,
) -> (r: Result<Vec<RawMidiTuple>, TimingError>)
    requires
        forall|i: int|
            0 <= i < tracks@.len() ==> prefix_ticks(
                (#[trigger] tracks@[i])@,
                tracks@[i]@.len() as int,
            ) <= u32::MAX,
    ensures
        match r {
            Ok(out) => timing matches Timing::Metrical(p) && p >= 1 && {
                let merged = spec_merge(spec_cursors(tracks@));
                let timed = spec_timed(
                    merged,
                    0,
                    0,
                    spec_new_timebase(p as int, 0, DEFAULT_TEMPO as int),
                    p as int,
                );
                &&& out@ == spec_filter_map(
                    timed,
                    track_filter@,
                    all,
                    shift_key,
                    left_key,
                    right_key,
                )
                &&& (forall|a: int, b: int|
                    0 <= a <= b < out@.len() ==> (#[trigger] out@[a]).0 <= (#[trigger] out@[b]).0)
                &&& (forall|k: int| 0 <= k < out@.len() ==> (#[trigger] out@[k]).0 <= i64::MAX)
            },
            Err(TimingError::UnsupportedTimecode) => timing matches Timing::Timecode(_, _),
            Err(TimingError::ZeroTicksPerBeat) => timing matches Timing::Metrical(p) && p == 0,
        },
{
    let ghost orig_tracks = tracks@;
    let mut tracks = tracks;
    let n_tracks = tracks.len();
    proof {
        assert(orig_tracks.len() == n_tracks);
        assert(orig_tracks.subrange(0, orig_tracks.len() as int) =~= orig_tracks);
    }
    let mut mi = MidiIterator::new();
    let mut i: usize = 0;
    while tracks.len() > 0
        invariant
            orig_tracks.len() == i + tracks@.len(),
            tracks@ == orig_tracks.subrange(i as int, orig_tracks.len() as int),
            forall|j: int|
                0 <= j < orig_tracks.len() ==> prefix_ticks(
                    (#[trigger] orig_tracks[j])@,
                    orig_tracks[j]@.len() as int,
                ) <= u32::MAX,
            i + tracks@.len() <= usize::MAX,
            mi.wf(),
            mi.track_parsers@.len() == i,
            forall|j: int|
                0 <= j < i ==> mi.track_parsers@[j] == spec_initial_cursor(
                    j as usize,
                    orig_tracks[j],
                ),
        decreases tracks@.len(),
    {
        let ghost pre = tracks@;
        let tr = tracks.remove(0);
        proof {
            assert(pre[0] == orig_tracks[i as int]);
            assert(tracks@ =~= orig_tracks.subrange(i + 1, orig_tracks.len() as int));
        }
        mi.add_track(i, tr);
        proof {
            assert(mi.track_parsers@.last() == spec_initial_cursor(i, orig_tracks[i as int]));
        }
        i = i + 1;
    }
    proof {
        assert(mi.track_parsers@ =~= spec_cursors(orig_tracks));
    }
    let ghost cursors = mi.track_parsers@;
    let it0 = mi.timed(timing);
    let mut it = match it0 {
        Ok(it) => it,
        Err(e) => {
            return Err(e);
        },
    };
    let ghost p0 = it.ppqn as int;
    let ghost tb0 = it.timebase as int;
    let ghost timed0 = it.remaining();
    let ghost target = spec_filter_map(timed0, track_filter@, all, shift_key, left_key, right_key);
    let mut out: Vec<RawMidiTuple> = Vec::new();
    proof {
        assert(out@ =~= Seq::<RawMidiTuple>::empty());
        assert(Seq::<RawMidiTuple>::empty() + target =~= target);
    }
    loop
        invariant_except_break
            target == out@ + spec_filter_map(
                it.remaining(),
                track_filter@,
                all,
                shift_key,
                left_key,
                right_key,
            ),
        invariant
            it.wf(),
            it.ppqn == p0,
        ensures
            out@ == target,
        decreases rem_sum(it.midi_iter.track_parsers@),
    {
        let ghost rem_pre = it.remaining();
        match it.next() {
            None => {
                proof {
                    assert(out@ + spec_filter_map(
                        rem_pre,
                        track_filter@,
                        all,
                        shift_key,
                        left_key,
                        right_key,
                    ) =~= out@);
                }
                break ;
            },
            Some(e) => {
                let (t, trk, kind) = e;
                proof {
                    let rest = it.remaining();
                    assert(rem_pre == seq![e] + rest);
                    assert(rem_pre[0] == e);
                    assert(rem_pre.drop_first() =~= rest);
                }
                match kind {
                    EventKind::Midi { channel, message } => {
                        if contains_usize(track_filter, trk) {
                            match transposed_message(
                                t,
                                trk,
                                channel,
                                &message,
                                all,
                                shift_key,
                                left_key,
                                right_key,
                            ) {
                                Some(ev) => {
                                    proof {
                                        assert(out@.push(ev).drop_last() =~= out@);
                                        assert((out@ + (seq![ev] + spec_filter_map(
                                            it.remaining(),
                                            track_filter@,
                                            all,
                                            shift_key,
                                            left_key,
                                            right_key,
                                        ))) =~= (out@.push(ev) + spec_filter_map(
                                            it.remaining(),
                                            track_filter@,
                                            all,
                                            shift_key,
                                            left_key,
                                            right_key,
                                        )));
                                    }
                                    out.push(ev);
                                },
                                None => {},
                            }
                        }
                    },
                    _ => {},
                }
            },
        }
    }
    proof {
        lemma_merge_sorted(cursors);
        lemma_merge_ticks_bounded(cursors);
        let merged = spec_merge(cursors);
        assert(timed0 == spec_timed(merged, 0, 0, tb0, p0));
        lemma_timed_nondecreasing(merged, 0, 0, tb0, p0);
        lemma_filter_map_props(
            timed0,
            track_filter@,
            all,
            shift_key,
            left_key,
            right_key,
            0,
            u32::MAX * (MAX_TIMEBASE as int),
        );
    }
    Ok(out)
}

} // verus!
