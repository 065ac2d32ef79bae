//! The display clock calibrator: decides from measured buffer-swap
//! intervals whether the host's present operation is really rate
//! limited (vsync), computes the true frame period, and in steady state
//! paces the render loop — how long input handling may continue before
//! the next presentation, and per-name min/avg/max timing statistics.
//!
//! The canvas itself, and the wall clock, stay outside the library: the
//! sampling loop around clear and present runs there and hands the
//! recorded intervals and elapsed times in as plain values.

use vstd::prelude::*;
use vstd::relations::total_ordering;
use vstd::seq_lib::group_to_multiset_ensures;

verus! {

/// Intervals shorter than this (more than 170 frames per second) are
/// measurement noise, discarded by the sampling loop and rejected by
/// the acceptance band.
pub const MIN_US_PER_FRAME: u64 = 1_000_000 / 170;

/// Intervals at or above this (10 frames per second or slower) cannot
/// be a display refresh.
pub const MAX_US_PER_FRAME: u64 = 1_000_000 / 10;

/// Non-decreasing order.
pub open spec fn sorted_u64(s: Seq<u64>) -> bool {
    forall|i: int, j: int| 0 <= i <= j < s.len() ==> s[i] <= s[j]
}

/// The sequence in ascending order.
pub open spec fn spec_sorted_of(s: Seq<u64>) -> Seq<u64> {
    s.sort_by(|a: u64, b: u64| a <= b)
}

/// What sorting guarantees: order, and the same values.
pub proof fn lemma_sorted_of_ensures(s: Seq<u64>)
    ensures
        sorted_u64(spec_sorted_of(s)),
        spec_sorted_of(s).to_multiset() == s.to_multiset(),
        spec_sorted_of(s).len() == s.len(),
{
    let leq = |a: u64, b: u64| a <= b;
    assert(total_ordering(leq));
    s.lemma_sort_by_ensures(leq);
    let r = spec_sorted_of(s);
    assert forall|i: int, j: int| 0 <= i <= j < r.len() implies r[i] <= r[j] by {
        if i < j {
            assert(leq(r[i], r[j]));
        }
    }
    s.to_multiset_ensures();
    r.to_multiset_ensures();
}

/// Two ascending sequences over the same values are the same sequence.
pub proof fn lemma_sorted_unique(a: Seq<u64>, b: Seq<u64>)
    requires
        sorted_u64(a),
        sorted_u64(b),
        a.to_multiset() == b.to_multiset(),
    ensures
        a == b,
    decreases a.len(),
{
    broadcast use group_to_multiset_ensures;

    a.to_multiset_ensures();
    b.to_multiset_ensures();
    if a.len() == 0 {
        assert(b.to_multiset().len() == 0);
        assert(a =~= b);
    } else {
        assert(a.contains(a[0]));
        assert(a.to_multiset().count(a[0]) > 0);
        assert(b.to_multiset().count(a[0]) > 0);
        assert(b.contains(a[0]));
        let bi = choose|bi: int| 0 <= bi < b.len() && b[bi] == a[0];
        assert(b[0] <= b[bi]);
        assert(b.contains(b[0]));
        assert(b.to_multiset().count(b[0]) > 0);
        assert(a.to_multiset().count(b[0]) > 0);
        assert(a.contains(b[0]));
        let ai = choose|ai: int| 0 <= ai < a.len() && a[ai] == b[0];
        assert(a[0] <= a[ai]);
        assert(a[0] == b[0]);
        let a1 = a.drop_first();
        let b1 = b.drop_first();
        assert(a.remove(0) =~= a1);
        assert(b.remove(0) =~= b1);
        assert(a1.to_multiset() == a.to_multiset().remove(a[0]));
        assert(b1.to_multiset() == b.to_multiset().remove(b[0]));
        assert forall|i: int, j: int| 0 <= i <= j < a1.len() implies a1[i] <= a1[j] by {
            assert(a1[i] == a[i + 1]);
            assert(a1[j] == a[j + 1]);
        }
        assert forall|i: int, j: int| 0 <= i <= j < b1.len() implies b1[i] <= b1[j] by {
            assert(b1[i] == b[i + 1]);
            assert(b1[j] == b[j + 1]);
        }
        lemma_sorted_unique(a1, b1);
        assert forall|k: int| 0 <= k < a.len() implies a[k] == b[k] by {
            if k > 0 {
                assert(a[k] == a1[k - 1]);
                assert(b[k] == b1[k - 1]);
            }
        }
        assert(a =~= b);
    }
}

/// Sorts in place, ascending.
fn sort_u64(v: &mut Vec<u64>)
    ensures
        final(v)@ == spec_sorted_of(old(v)@),
{
    let ghost orig = v@;
    let mut i: usize = 1;
    while i < v.len()
        invariant
            v@.len() == orig.len(),
            v@.to_multiset() == orig.to_multiset(),
            1 <= i || v@.len() == 0,
            i <= v@.len() || v@.len() == 0,
            sorted_u64(v@.subrange(0, if i <= v@.len() {
                i as int
            } else {
                v@.len() as int
            })),
        decreases v@.len() - i,
    {
        let ghost p = v@;
        let x = v[i];
        let mut pos: usize = 0;
        while pos < i && v[pos] <= x
            invariant
                v@ == p,
                i < p.len(),
                pos <= i,
                x == p[i as int],
                forall|j: int| 0 <= j < pos ==> p[j] <= p[i as int],
            decreases i - pos,
        {
            pos = pos + 1;
        }
        proof {
            broadcast use group_to_multiset_ensures;

            p.to_multiset_ensures();
        }
        v.remove(i);
        proof {
            p.remove(i as int).to_multiset_ensures();
        }
        v.insert(pos, x);
        proof {
            let q = v@;
            assert(q == p.remove(i as int).insert(pos as int, x));
            vstd::seq_lib::to_multiset_insert(p.remove(i as int), pos as int, x);
            assert(q.to_multiset() == p.to_multiset().remove(p[i as int]).insert(x));
            assert(p.to_multiset().count(p[i as int]) > 0);
            assert(q.to_multiset() =~= p.to_multiset());
            let rem = p.remove(i as int);
            assert forall|k: int| 0 <= k < q.len() implies q[k] == (if k < pos {
                p[k]
            } else if k == pos {
                x
            } else if k <= i {
                p[k - 1]
            } else {
                p[k]
            }) by {
                if k < pos {
                    assert(q[k] == rem[k]);
                } else if k > pos {
                    assert(q[k] == rem[k - 1]);
                }
            }
            assert forall|s: int, t: int| 0 <= s <= t < i + 1 implies q[s] <= q[t] by {
                let pre = p.subrange(0, i as int);
                if t < pos {
                    assert(pre[s] == p[s]);
                    assert(pre[t] == p[t]);
                } else if t == pos {
                    if s < pos {
                        assert(p[s] <= x);
                    }
                } else {
                    assert(q[t] == p[t - 1]);
                    assert(pre[t - 1] == p[t - 1]);
                    if s < pos {
                        assert(pre[s] == p[s]);
                    } else if s == pos {
                        assert(pos < i);
                        assert(p[pos as int] > x);
                        assert(pre[pos as int] == p[pos as int]);
                        assert(pre[pos as int] <= pre[t - 1]);
                    } else {
                        assert(q[s] == p[s - 1]);
                        assert(pre[s - 1] == p[s - 1]);
                    }
                }
            }
            assert(sorted_u64(q.subrange(0, i + 1)));
        }
        i = i + 1;
    }
    proof {
        if v@.len() > 0 {
            assert(v@.subrange(0, v@.len() as int) =~= v@);
        }
        lemma_sorted_of_ensures(orig);
        lemma_sorted_unique(v@, spec_sorted_of(orig));
    }
}

/// The elements strictly inside the band, in order.
pub open spec fn spec_filter_band(s: Seq<u64>, lower: int, upper: int) -> Seq<u64>
    decreases s.len(),
{
    if s.len() == 0 {
        Seq::empty()
    } else {
        let rest = spec_filter_band(s.drop_first(), lower, upper);
        if lower < s[0] < upper {
            seq![s[0]] + rest
        } else {
            rest
        }
    }
}

/// The sum of the intervals.
pub open spec fn seq_sum(s: Seq<u64>) -> int
    decreases s.len(),
{
    if s.len() == 0 {
        0
    } else {
        s[0] + seq_sum(s.drop_first())
    }
}

/// What the calibration measurement concludes.  With too few samples
/// there is no signal.  Otherwise: sort the intervals, take the median,
/// keep only samples within five percent of it (a single subsystem
/// hiccup must not sway the result), and average the survivors.  The
/// average is accepted as a real vsync period only when the survivors
/// cover more than a third of the measurement window and the period
/// lies in the plausible display-refresh band.
pub open spec fn spec_evaluate(v: Seq<u64>, measurement_time_us: u64) -> Option<u32> {
    if v.len() <= 2 {
        None
    } else {
        let sorted = spec_sorted_of(v);
        let median = sorted[(v.len() / 2) as int] as int;
        let upper = median * 21 / 20;
        let lower = median * 19 / 20;
        let filtered = spec_filter_band(sorted, lower, upper);
        if filtered.len() == 0 {
            None
        } else {
            let total = seq_sum(filtered);
            let avg = total / filtered.len() as int;
            if total > measurement_time_us as int / 3 && avg > MIN_US_PER_FRAME
                && avg < MAX_US_PER_FRAME {
                Some(avg as u32)
            } else {
                None
            }
        }
    }
}

/// Evaluates one calibration measurement, exactly as `spec_evaluate`
/// states: `Some(us_per_frame)` when the intervals show a real vsync
/// signal, `None` otherwise.
pub fn evaluate_measurement(round_us_vec: Vec<u64>, measurement_time_us: u64) -> (r: Option<u32>)
    ensures
        r == spec_evaluate(round_us_vec@, measurement_time_us),
{
    let ghost orig = round_us_vec@;
    let n = round_us_vec.len();
    if n <= 2 {
        return None;
    }
    let mut v = round_us_vec;
    sort_u64(&mut v);
    proof {
        lemma_sorted_of_ensures(orig);
        orig.to_multiset_ensures();
        v@.to_multiset_ensures();
    }
    let median = v[n / 2];
    let upper: u128 = median as u128 * 21 / 20;
    let lower: u128 = median as u128 * 19 / 20;
    let ghost upper_i = median as int * 21 / 20;
    let ghost lower_i = median as int * 19 / 20;
    let mut filtered: Vec<u64> = Vec::new();
    proof {
        assert(v@.subrange(0, v@.len() as int) =~= v@);
        assert(Seq::<u64>::empty() + spec_filter_band(v@, lower_i, upper_i) =~= spec_filter_band(
            v@,
            lower_i,
            upper_i,
        ));
        assert(filtered@ =~= Seq::<u64>::empty());
    }
    let mut i: usize = 0;
    while i < v.len()
        invariant
            v@ == spec_sorted_of(orig),
            upper == upper_i,
            lower == lower_i,
            lower_i >= 0,
            i <= v@.len(),
            spec_filter_band(v@, lower_i, upper_i) == filtered@ + spec_filter_band(
                v@.subrange(i as int, v@.len() as int),
                lower_i,
                upper_i,
            ),
        decreases v@.len() - i,
    {
        let ghost suffix = v@.subrange(i as int, v@.len() as int);
        let dt = v[i];
        proof {
            assert(suffix[0] == v@[i as int]);
            assert(suffix.drop_first() =~= v@.subrange(i + 1, v@.len() as int));
        }
        if (dt as u128) > lower && (dt as u128) < upper {
            filtered.push(dt);
            proof {
                assert(filtered@ =~= filtered@.drop_last().push(dt));
                assert(spec_filter_band(suffix, lower_i, upper_i) == seq![dt]
                    + spec_filter_band(suffix.drop_first(), lower_i, upper_i));
                assert(filtered@.drop_last() + (seq![dt] + spec_filter_band(
                    suffix.drop_first(),
                    lower_i,
                    upper_i,
                )) =~= filtered@ + spec_filter_band(suffix.drop_first(), lower_i, upper_i));
            }
        }
        i = i + 1;
    }
    proof {
        assert(v@.subrange(v@.len() as int, v@.len() as int) =~= Seq::<u64>::empty());
        assert(filtered@ + Seq::<u64>::empty() =~= filtered@);
    }
    if filtered.len() == 0 {
        return None;
    }
    let mut total: u128 = 0;
    let mut k: usize = 0;
    while k < filtered.len()
        invariant
            k <= filtered@.len(),
            filtered@.len() <= u64::MAX,
            total == seq_sum(filtered@.subrange(0, k as int)),
            total <= k * (u64::MAX as int),
        decreases filtered@.len() - k,
    {
        proof {
            lemma_seq_sum_snoc(filtered@.subrange(0, k + 1));
            assert(filtered@.subrange(0, k + 1).drop_last() =~= filtered@.subrange(0, k as int));
            assert(k * (u64::MAX as int) + u64::MAX <= (k + 1) * (u64::MAX as int)) by (nonlinear_arith);
        }
        total = total + filtered[k] as u128;
        k = k + 1;
    }
    proof {
        assert(filtered@.subrange(0, filtered@.len() as int) =~= filtered@);
    }
    let avg: u128 = total / filtered.len() as u128;
    if total > (measurement_time_us / 3) as u128 && avg > MIN_US_PER_FRAME as u128 && avg
        < MAX_US_PER_FRAME as u128 {
        Some(avg as u32)
    } else {
        None
    }
}

/// A value accepted by the measurement lies strictly inside the
/// plausible refresh band.
pub proof fn lemma_evaluate_in_band(v: Seq<u64>, measurement_time_us: u64)
    ensures
        spec_evaluate(v, measurement_time_us) matches Some(u) ==> MIN_US_PER_FRAME < u
            < MAX_US_PER_FRAME,
{
}

/// Filtering a constant sequence whose value lies inside the band
/// keeps every element.
proof fn lemma_filter_band_const(s: Seq<u64>, val: u64, lower: int, upper: int)
    requires
        forall|k: int| 0 <= k < s.len() ==> s[k] == val,
        lower < val < upper,
    ensures
        spec_filter_band(s, lower, upper) == s,
    decreases s.len(),
{
    if s.len() > 0 {
        assert(s[0] == val);
        lemma_filter_band_const(s.drop_first(), val, lower, upper);
        assert(seq![s[0]] + s.drop_first() =~= s);
    }
}

/// The sum of a constant sequence.
proof fn lemma_seq_sum_const(s: Seq<u64>, val: u64)
    requires
        forall|k: int| 0 <= k < s.len() ==> s[k] == val,
    ensures
        seq_sum(s) == s.len() * val,
    decreases s.len(),
{
    if s.len() > 0 {
        assert(s[0] == val);
        lemma_seq_sum_const(s.drop_first(), val);
        assert(s.len() * val == (s.len() - 1) * val + val) by (nonlinear_arith);
    }
}

/// Law: a perfectly uniform train of present intervals inside the
/// plausible refresh band, covering enough of the measurement window,
/// is accepted as a vsync signal with exactly that interval as the
/// frame period.
pub proof fn lemma_uniform_intervals_detect_vsync(v: Seq<u64>, val: u64, measurement_time_us: u64)
    requires
        v.len() >= 3,
        forall|k: int| 0 <= k < v.len() ==> v[k] == val,
        MIN_US_PER_FRAME < val < MAX_US_PER_FRAME,
        v.len() * val > measurement_time_us / 3,
    ensures
        spec_evaluate(v, measurement_time_us) == Some(val as u32),
{
    lemma_sorted_of_ensures(v);
    assert(sorted_u64(v));
    lemma_sorted_unique(v, spec_sorted_of(v));
    let sorted = spec_sorted_of(v);
    assert(sorted == v);
    let median = sorted[(v.len() / 2) as int] as int;
    assert(median == val);
    let upper = median * 21 / 20;
    let lower = median * 19 / 20;
    assert(lower < val < upper) by (nonlinear_arith)
        requires
            median == val,
            val >= 20,
            lower == median * 19 / 20,
            upper == median * 21 / 20,
    ;
    lemma_filter_band_const(sorted, val, lower, upper);
    let filtered = spec_filter_band(sorted, lower, upper);
    assert(filtered == v);
    lemma_seq_sum_const(filtered, val);
    let total = seq_sum(filtered);
    let avg = total / filtered.len() as int;
    assert(avg == val) by (nonlinear_arith)
        requires
            total == filtered.len() * val,
            filtered.len() >= 3,
            avg == total / filtered.len() as int,
    ;
    assert(total > measurement_time_us as int / 3);
}

/// One named timing histogram: least, summed, greatest interval and
/// how many were recorded.
#[derive(Clone, Copy, Debug, PartialEq, Eq, Structural)]
pub struct SampleStats {
    pub us_min: u64,
    pub us_sum: u64,
    pub us_max: u64,
    pub cnt: u64,
}

impl SampleStats {
    /// A histogram with nothing recorded.
    pub open spec fn spec_fresh() -> SampleStats {
        SampleStats { us_min: u64::MAX, us_sum: 0, us_max: 0, cnt: 0 }
    }

    /// Recording one interval: min and max move towards it, sum and
    /// count grow (pinned at their ceiling rather than wrapping).
    pub open spec fn spec_record(self, dt: u64) -> SampleStats {
        SampleStats {
            us_min: if dt < self.us_min {
                dt
            } else {
                self.us_min
            },
            us_sum: if self.us_sum + dt > u64::MAX {
                u64::MAX
            } else {
                (self.us_sum + dt) as u64
            },
            us_max: if dt > self.us_max {
                dt
            } else {
                self.us_max
            },
            cnt: if self.cnt < u64::MAX {
                (self.cnt + 1) as u64
            } else {
                self.cnt
            },
        }
    }

    /// The mean recorded interval, zero before anything was recorded,
    /// pinned at the 32-bit ceiling.
    pub open spec fn spec_avg(self) -> u32 {
        if self.cnt == 0 {
            0
        } else if self.us_sum / self.cnt > u32::MAX {
            u32::MAX
        } else {
            (self.us_sum / self.cnt) as u32
        }
    }

    /// An empty histogram.
    pub fn fresh() -> (r: SampleStats)
        ensures
            r == SampleStats::spec_fresh(),
    {
        SampleStats { us_min: u64::MAX, us_sum: 0, us_max: 0, cnt: 0 }
    }

    /// Records one interval.
    pub fn record(&mut self, dt: u64)
        ensures
            *final(self) == old(self).spec_record(dt),
    {
        if dt < self.us_min {
            self.us_min = dt;
        }
        if dt > self.us_max {
            self.us_max = dt;
        }
        self.us_sum = self.us_sum.saturating_add(dt);
        if self.cnt < u64::MAX {
            self.cnt = self.cnt + 1;
        }
    }

    /// The mean recorded interval.
    pub fn avg(&self) -> (r: u32)
        ensures
            r == self.spec_avg(),
    {
        if self.cnt == 0 {
            0
        } else {
            let q = self.us_sum / self.cnt;
            if q > u32::MAX as u64 {
                u32::MAX
            } else {
                q as u32
            }
        }
    }
}

/// Splitting off the last element splits the sum.
proof fn lemma_seq_sum_snoc(s: Seq<u64>)
    requires
        s.len() > 0,
    ensures
        seq_sum(s) == seq_sum(s.drop_last()) + s.last(),
    decreases s.len(),
{
    if s.len() == 1 {
        assert(s.drop_last() =~= Seq::<u64>::empty());
        assert(seq_sum(s.drop_first()) == 0) by {
            assert(s.drop_first() =~= Seq::<u64>::empty());
        }
    } else {
        lemma_seq_sum_snoc(s.drop_first());
        assert(s.drop_first().drop_last() =~= s.drop_last().drop_first());
        assert(s.drop_first().last() == s.last());
        assert(s.drop_last()[0] == s[0]);
        assert(seq_sum(s.drop_last()) == s.drop_last()[0] + seq_sum(s.drop_last().drop_first()));
    }
}

/// No two histograms share a name.
pub open spec fn measure_keys_unique(ms: Seq<(String, SampleStats)>) -> bool {
    forall|i: int, j: int| 0 <= i < j < ms.len() ==> (#[trigger] ms[i]).0@ != (#[trigger] ms[j]).0@
}

/// The index of the histogram named `key`, searching from `i`; `-1`
/// when there is none.
pub open spec fn find_measure_from(ms: Seq<(String, SampleStats)>, key: Seq<char>, i: int) -> int
    decreases ms.len() - i,
{
    if i < 0 || i >= ms.len() {
        -1
    } else if ms[i].0@ == key {
        i
    } else {
        find_measure_from(ms, key, i + 1)
    }
}

/// Frame pacing and timing diagnostics: the calibrated (or assumed)
/// frame period, the base instant the next presentation is scheduled
/// against, the lost-frame count, and the named histograms.  Elapsed
/// times come in as plain values read from one monotonic clock outside
/// the library.
pub struct Sdl2Timing {
    /// The elapsed time at the last recorded checkpoint.
    pub last_us: u64,
    /// The frame period the display claims, the fallback when no vsync
    /// signal was measured.
    pub sdl2_us_per_frame: u32,
    /// The running average cost of one clear plus present.
    pub clear_present_avg_us: u32,
    /// The measured frame period, when calibration accepted one.
    pub opt_us_per_frame: Option<u32>,
    /// The instant the current frame period counts from.
    pub opt_base_time_us: Option<i64>,
    /// Whether calibration has run.
    pub measured: bool,
    /// Whether the first frame has been set up.
    pub initialized: bool,
    /// Whether presenting really blocks until the display refresh.
    pub has_vsync: bool,
    /// How often a frame deadline was missed.
    pub lost_frames_cnt: u64,
    /// The named timing histograms.
    pub measures: Vec<(String, SampleStats)>,
}

impl Sdl2Timing {
    /// The frame periods are positive and the histogram names unique.
    pub open spec fn wf(self) -> bool {
        &&& self.sdl2_us_per_frame >= 1
        &&& (self.opt_us_per_frame matches Some(u) ==> u >= 1)
        &&& measure_keys_unique(self.measures@)
    }

    /// The frame period in use: the measured one when vsync was
    /// accepted, the display's claim otherwise.
    pub open spec fn spec_us_per_frame(self) -> u32 {
        if self.has_vsync && self.opt_us_per_frame is Some {
            self.opt_us_per_frame->0
        } else {
            self.sdl2_us_per_frame
        }
    }

    /// A fresh pacing state for a display claiming the given frame
    /// period.
    pub fn new(sdl2_us_per_frame: u32) -> (r: Sdl2Timing)
        requires
            sdl2_us_per_frame >= 1,
        ensures
            r.wf(),
            r.last_us == 0,
            r.sdl2_us_per_frame == sdl2_us_per_frame,
            r.clear_present_avg_us == 0,
            r.opt_us_per_frame is None,
            r.opt_base_time_us is None,
            !r.measured,
            !r.initialized,
            !r.has_vsync,
            r.lost_frames_cnt == 0,
            r.measures@.len() == 0,
    {
        Sdl2Timing {
            last_us: 0,
            sdl2_us_per_frame,
            clear_present_avg_us: 0,
            opt_us_per_frame: None,
            opt_base_time_us: None,
            measured: false,
            initialized: false,
            has_vsync: false,
            lost_frames_cnt: 0,
            measures: Vec::new(),
        }
    }

    /// The frame period in use.
    pub fn get_us_per_frame(&self) -> (r: u32)
        ensures
            r == self.spec_us_per_frame(),
    {
        if self.has_vsync {
            if let Some(us_per_frame) = self.opt_us_per_frame {
                return us_per_frame;
            }
        }
        self.sdl2_us_per_frame
    }

    /// Concludes calibration from the recorded present intervals: a
    /// vsync signal accepted by the measurement installs the measured
    /// frame period.
    pub fn finish_measurement(&mut self, round_us_vec: Vec<u64>, measurement_time_us: u64)
        requires
            old(self).wf(),
        ensures
            final(self).wf(),
            final(self).measured,
            ({
                let verdict = spec_evaluate(round_us_vec@, measurement_time_us);
                match verdict {
                    Some(us) => {
                        &&& final(self).has_vsync
                        &&& final(self).opt_us_per_frame == Some(us)
                    },
                    None => {
                        &&& final(self).has_vsync == old(self).has_vsync
                        &&& final(self).opt_us_per_frame == old(self).opt_us_per_frame
                    },
                }
            }),
            final(self).last_us == old(self).last_us,
            final(self).sdl2_us_per_frame == old(self).sdl2_us_per_frame,
            final(self).clear_present_avg_us == old(self).clear_present_avg_us,
            final(self).opt_base_time_us == old(self).opt_base_time_us,
            final(self).initialized == old(self).initialized,
            final(self).lost_frames_cnt == old(self).lost_frames_cnt,
            final(self).measures == old(self).measures,
    {
        let ghost v = round_us_vec@;
        let verdict = evaluate_measurement(round_us_vec, measurement_time_us);
        proof {
            lemma_evaluate_in_band(v, measurement_time_us);
        }
        match verdict {
            Some(us_per_frame) => {
                self.has_vsync = true;
                self.opt_us_per_frame = Some(us_per_frame);
            },
            None => {},
        }
        self.measured = true;
    }

    /// How the pacing state and the returned wait react to a frame
    /// check at elapsed time `now_us`: without a base instant one is
    /// installed and the caller presents at once; a missed deadline
    /// counts a lost frame and returns no wait; otherwise the remaining
    /// time less a reserve for the clear and present themselves.
    pub open spec fn spec_us_till_next_frame(self, now_us: i64) -> (Sdl2Timing, u32) {
        match self.opt_base_time_us {
            None => (
                Sdl2Timing { opt_base_time_us: Some(now_us), ..self },
                0u32,
            ),
            Some(base) => {
                let elapsed = now_us - base;
                let upf = self.spec_us_per_frame() as int;
                if elapsed > upf {
                    (
                        Sdl2Timing {
                            lost_frames_cnt: if self.lost_frames_cnt < u64::MAX {
                                (self.lost_frames_cnt + 1) as u64
                            } else {
                                self.lost_frames_cnt
                            },
                            ..self
                        },
                        0u32,
                    )
                } else {
                    let rem = upf - elapsed;
                    (self, (if rem >= 1000 {
                        rem - 1000
                    } else {
                        0
                    }) as u32)
                }
            },
        }
    }

    /// The microseconds left until the next scheduled presentation.
    pub fn us_till_next_frame(&mut self, now_us: i64) -> (r: u32)
        requires
            old(self).wf(),
            old(self).opt_base_time_us matches Some(b) ==> b <= now_us,
        ensures
            final(self).wf(),
            (*final(self), r) == old(self).spec_us_till_next_frame(now_us),
    {
        match self.opt_base_time_us {
            None => {
                self.opt_base_time_us = Some(now_us);
                0
            },
            Some(base) => {
                let elapsed_wide: i128 = now_us as i128 - base as i128;
                let upf = self.get_us_per_frame();
                if elapsed_wide > upf as i128 {
                    if self.lost_frames_cnt < u64::MAX {
                        self.lost_frames_cnt = self.lost_frames_cnt + 1;
                    }
                    0
                } else {
                    let rem = (upf as i128 - elapsed_wide) as u32;
                    if rem >= 1000 {
                        rem - 1000
                    } else {
                        0
                    }
                }
            },
        }
    }

    /// The microseconds the caller may keep processing input before it
    /// must turn to presenting: the time to the next frame, less one
    /// and a half times the average clear-and-present cost.
    pub fn us_processing_left(&mut self, now_us: i64) -> (r: u32)
        requires
            old(self).wf(),
            old(self).opt_base_time_us matches Some(b) ==> b <= now_us,
        ensures
            final(self).wf(),
            ({
                let (st2, till) = old(self).spec_us_till_next_frame(now_us);
                let reserve = old(self).clear_present_avg_us as int * 3 / 2;
                &&& *final(self) == st2
                &&& r == if till > reserve {
                    till - reserve
                } else {
                    0
                }
            }),
    {
        let reserve: u64 = self.clear_present_avg_us as u64 * 3 / 2;
        let till = self.us_till_next_frame(now_us) as u64;
        if till > reserve {
            (till - reserve) as u32
        } else {
            0
        }
    }

    /// Moves the presentation base one frame period forward, after a
    /// self-timed (non-vsync) frame was paced by sleeping.
    pub fn advance_base_time(&mut self)
        requires
            old(self).wf(),
            old(self).opt_base_time_us matches Some(b) ==> b + old(self).spec_us_per_frame()
                <= i64::MAX,
        ensures
            final(self).wf(),
            final(self).opt_base_time_us == match old(self).opt_base_time_us {
                None => None::<i64>,
                Some(b) => Some((b + old(self).spec_us_per_frame()) as i64),
            },
            (Sdl2Timing { opt_base_time_us: old(self).opt_base_time_us, ..*final(self) }) == *old(
                self,
            ),
    {
        let upf = self.get_us_per_frame();
        match self.opt_base_time_us {
            None => {},
            Some(base) => {
                self.opt_base_time_us = Some(base + upf as i64);
            },
        }
    }

    /// Forgets the presentation base; a vsync-paced frame needs none.
    pub fn clear_base_time(&mut self)
        ensures
            final(self).opt_base_time_us is None,
            (Sdl2Timing { opt_base_time_us: old(self).opt_base_time_us, ..*final(self) }) == *old(
                self,
            ),
    {
        self.opt_base_time_us = None;
    }

    /// Records a named checkpoint: the time since the previous
    /// checkpoint goes into the histogram under `name`; returns that
    /// interval and the histogram's new mean, both pinned to 32 bits.
    pub fn sample(&mut self, name: String, elapsed_us: u64) -> (r: (u32, u32))
        requires
            old(self).wf(),
            elapsed_us >= old(self).last_us,
        ensures
            final(self).wf(),
            final(self).last_us == elapsed_us,
            (Sdl2Timing {
                last_us: old(self).last_us,
                measures: old(self).measures,
                ..*final(self)
            }) == *old(self),
            ({
                let ms = old(self).measures@;
                let dt = (elapsed_us - old(self).last_us) as u64;
                let j = find_measure_from(ms, name@, 0);
                let entry0 = if j == -1 {
                    SampleStats::spec_fresh()
                } else {
                    ms[j].1
                };
                let entry1 = entry0.spec_record(dt);
                &&& (if j == -1 {
                    &&& final(self).measures@.len() == ms.len() + 1
                    &&& forall|k: int| 0 <= k < ms.len() ==> final(self).measures@[k] == ms[k]
                    &&& final(self).measures@.last().0@ == name@
                    &&& final(self).measures@.last().1 == entry1
                } else {
                    &&& final(self).measures@.len() == ms.len()
                    &&& forall|k: int|
                        0 <= k < ms.len() && k != j ==> final(self).measures@[k] == ms[k]
                    &&& final(self).measures@[j].0@ == ms[j].0@
                    &&& final(self).measures@[j].1 == entry1
                })
                &&& r.0 == (if dt > u32::MAX {
                    u32::MAX
                } else {
                    dt as u32
                })
                &&& r.1 == entry1.spec_avg()
            }),
    {
        let ghost ms = self.measures@;
        let dt: u64 = elapsed_us - self.last_us;
        self.last_us = elapsed_us;
        let mut i: usize = 0;
        let n = self.measures.len();
        let mut found: Option<usize> = None;
        while i < n
            invariant_except_break
                found is None,
            invariant
                n == self.measures@.len(),
                self.measures@ == ms,
                i <= n,
                forall|j: int| 0 <= j < i ==> (#[trigger] ms[j]).0@ != name@,
                find_measure_from(ms, name@, 0) == find_measure_from(ms, name@, i as int),
            ensures
                self.measures@ == ms,
                match found {
                    None => find_measure_from(ms, name@, 0) == -1,
                    Some(j) => find_measure_from(ms, name@, 0) == j && j < ms.len() && ms[
                        j as int
                    ].0@ == name@,
                },
            decreases n - i,
        {
            if self.measures[i].0 == name {
                found = Some(i);
                break ;
            }
            i = i + 1;
        }
        let dt32: u32 = if dt > u32::MAX as u64 {
            u32::MAX
        } else {
            dt as u32
        };
        match found {
            Some(j) => {
                let pair = self.measures.remove(j);
                let (key, mut stats) = pair;
                stats.record(dt);
                let avg = stats.avg();
                self.measures.insert(j, (key, stats));
                proof {
                    assert(self.measures@ =~= ms.update(j as int, (
                        ms[j as int].0,
                        ms[j as int].1.spec_record(dt),
                    )));
                    assert forall|a: int, b: int|
                        0 <= a < b < self.measures@.len() implies (
                    #[trigger] self.measures@[a]).0@ != (#[trigger] self.measures@[b]).0@ by {
                        assert(self.measures@[a].0@ == ms[a].0@);
                        assert(self.measures@[b].0@ == ms[b].0@);
                    }
                }
                (dt32, avg)
            },
            None => {
                let mut stats = SampleStats::fresh();
                stats.record(dt);
                let avg = stats.avg();
                self.measures.push((name, stats));
                proof {
                    assert(self.measures@.drop_last() == ms);
                    assert forall|a: int, b: int|
                        0 <= a < b < self.measures@.len() implies (
                    #[trigger] self.measures@[a]).0@ != (#[trigger] self.measures@[b]).0@ by {
                        if b < self.measures@.len() - 1 {
                            assert(self.measures@[a].0@ == ms[a].0@);
                            assert(self.measures@[b].0@ == ms[b].0@);
                        } else {
                            assert(self.measures@[a].0@ == ms[a].0@);
                            if ms[a].0@ == self.measures@[b].0@ {
                                lemma_find_measure_found(ms, name@, a);
                                assert(false);
                            }
                        }
                    }
                }
                (dt32, avg)
            },
        }
    }

    /// Forgets every histogram.
    pub fn clear(&mut self)
        ensures
            old(self).wf() ==> final(self).wf(),
            final(self).measures@.len() == 0,
            (Sdl2Timing { measures: old(self).measures, ..*final(self) }) == *old(self),
    {
        self.measures = Vec::new();
    }
}

/// A sequence holding `key` at `i` is found by the search from the
/// start.
proof fn lemma_find_measure_found(ms: Seq<(String, SampleStats)>, key: Seq<char>, i: int)
    requires
        0 <= i < ms.len(),
        ms[i].0@ == key,
    ensures
        find_measure_from(ms, key, 0) != -1,
{
    lemma_find_measure_found_from(ms, key, 0, i);
}

/// The search from `lo` finds something when `key` stands at `i >= lo`.
proof fn lemma_find_measure_found_from(ms: Seq<(String, SampleStats)>, key: Seq<char>, lo: int, i: int)
    requires
        0 <= lo <= i < ms.len(),
        ms[i].0@ == key,
    ensures
        find_measure_from(ms, key, lo) != -1,
    decreases i - lo,
{
    if ms[lo].0@ != key {
        lemma_find_measure_found_from(ms, key, lo + 1, i);
    }
}

} // verus!
