//! The virtual clock: a position in microseconds that can run against
//! wall-clock time with a permille scale factor, be repositioned, paused
//! and resumed.
//!
//! Wall-clock time itself stays outside the library: every operation
//! takes the current monotonic time `now_us` as an argument, so the whole
//! clock is plain verified arithmetic.  The callers (one writer, many
//! readers, behind one lock) read their `now_us` from the same monotonic
//! source, which never decreases.

use vstd::arithmetic::div_mod::lemma_div_is_ordered;
use vstd::arithmetic::mul::lemma_mul_inequality;
use vstd::prelude::*;

verus! {

/// A clock position: `pos_us` microseconds, plus, while the clock runs,
/// the scaled time elapsed since `anchor_us`.
pub struct RefPosition {
    pub pos_us: i64,
    pub anchor_us: Option<i64>,
    pub scaling_1000: u16,
}

impl RefPosition {
    /// The frozen part of the position.
    pub open spec fn spec_pos_us(self) -> int {
        self.pos_us as int
    }

    /// The anchor instant, if the clock is running.
    pub open spec fn spec_anchor_us(self) -> Option<int> {
        match self.anchor_us {
            None => None,
            Some(a) => Some(a as int),
        }
    }

    /// The scale factor in permille (1000 = real time).
    pub open spec fn spec_scaling_1000(self) -> int {
        self.scaling_1000 as int
    }

    /// Scale factor zero would make `ms_till_pos` divide by zero; every
    /// constructor and mutator keeps it positive.
    pub open spec fn wf(self) -> bool {
        self.scaling_1000 >= 1
    }

    /// The effective position at monotonic time `now_us`: the frozen
    /// position, advanced by the scaled elapsed time when running.
    pub open spec fn effective(self, now_us: int) -> int {
        match self.spec_anchor_us() {
            None => self.spec_pos_us(),
            Some(anchor) => self.spec_pos_us() + (now_us - anchor) * self.spec_scaling_1000() / 1000,
        }
    }

    /// `now_us` does not precede the anchor: true of every read from the
    /// monotonic source that produced the anchor.
    pub open spec fn anchored_before(self, now_us: int) -> bool {
        match self.spec_anchor_us() {
            None => true,
            Some(anchor) => anchor <= now_us,
        }
    }

    /// The effective position at `now_us` fits in a signed 64-bit value
    /// (as does the scaled elapsed time on its own).
    pub open spec fn effective_fits(self, now_us: int) -> bool {
        match self.spec_anchor_us() {
            None => true,
            Some(anchor) => {
                let scaled = (now_us - anchor) * self.spec_scaling_1000() / 1000;
                scaled <= i64::MAX && self.spec_pos_us() + scaled <= i64::MAX
            },
        }
    }

    /// A stopped clock at position zero, running at real time.
    pub fn new() -> (r: RefPosition)
        ensures
            r.wf(),
            r.spec_pos_us() == 0,
            r.spec_anchor_us() is None,
            r.spec_scaling_1000() == 1000,
    {
        RefPosition { pos_us: 0, anchor_us: None, scaling_1000: 1000 }
    }

    /// Repositions the clock; a running clock is re-anchored to `now_us`
    /// so that elapsed time keeps accumulating from the new position.
    pub fn set_pos_us(&mut self, pos_us: i64, now_us: i64)
        ensures
            final(self).spec_pos_us() == pos_us as int,
            final(self).spec_anchor_us() == (if old(self).spec_anchor_us() is Some {
                Some(now_us as int)
            } else {
                None::<int>
            }),
            final(self).spec_scaling_1000() == old(self).spec_scaling_1000(),
            final(self).wf() == old(self).wf(),
    {
        self.pos_us = pos_us;
        if self.anchor_us.is_some() {
            self.anchor_us = Some(now_us);
        }
    }

    /// Reads the effective position at `now_us`.
    pub fn get_pos_us(&self, now_us: i64) -> (r: i64)
        requires
            self.anchored_before(now_us as int),
            self.effective_fits(now_us as int),
        ensures
            r as int == self.effective(now_us as int),
    {
        match self.anchor_us {
            None => self.pos_us,
            Some(anchor) => {
                let elapsed_us: u64 = (now_us as i128 - anchor as i128) as u64;
                let scaled_wide: u128 = elapsed_us as u128 * self.scaling_1000 as u128 / 1000;
                proof {
                    lemma_scaled_elapsed_bounds(
                        elapsed_us as int,
                        self.spec_scaling_1000(),
                        self.spec_pos_us(),
                    );
                }
                let scaled_us: i64 = scaled_wide as i64;
                self.pos_us + scaled_us
            },
        }
    }

    /// Reads the position the clock will have reached once `dt_us` more
    /// microseconds have elapsed: used to predict where the
    /// clock stands when the next frame is actually presented.
    pub fn get_pos_us_after(&self, now_us: i64, dt_us: u32) -> (r: i64)
        requires
            self.anchored_before(now_us as int),
            now_us + dt_us <= i64::MAX,
            self.effective_fits(now_us + dt_us),
        ensures
            r as int == self.effective(now_us + dt_us),
    {
        match self.anchor_us {
            None => self.pos_us,
            Some(anchor) => {
                let later_us: i64 = now_us + dt_us as i64;
                let elapsed_us: u64 = (later_us as i128 - anchor as i128) as u64;
                let scaled_wide: u128 = elapsed_us as u128 * self.scaling_1000 as u128 / 1000;
                proof {
                    lemma_scaled_elapsed_bounds(
                        elapsed_us as int,
                        self.spec_scaling_1000(),
                        self.spec_pos_us(),
                    );
                }
                let scaled_us: i64 = scaled_wide as i64;
                self.pos_us + scaled_us
            },
        }
    }

    /// Collapses the elapsed time into `pos_us`, re-anchoring at `now_us`
    /// when running.
    fn advance_to_now(&mut self, now_us: i64)
        requires
            old(self).anchored_before(now_us as int),
            old(self).effective_fits(now_us as int),
        ensures
            final(self).spec_pos_us() == old(self).effective(now_us as int),
            final(self).spec_anchor_us() == (if old(self).spec_anchor_us() is Some {
                Some(now_us as int)
            } else {
                None::<int>
            }),
            final(self).spec_scaling_1000() == old(self).spec_scaling_1000(),
            final(self).wf() == old(self).wf(),
    {
        let pos_us = self.get_pos_us(now_us);
        self.set_pos_us(pos_us, now_us);
    }

    /// Installs a new scale factor.  The position accumulated under the
    /// old scale is frozen first, so the effective position is continuous
    /// at the instant of the call.
    pub fn set_scaling_1000(&mut self, new_scale: u16, now_us: i64)
        requires
            new_scale >= 1,
            old(self).anchored_before(now_us as int),
            old(self).effective_fits(now_us as int),
        ensures
            final(self).wf(),
            final(self).spec_pos_us() == old(self).effective(now_us as int),
            final(self).spec_anchor_us() == (if old(self).spec_anchor_us() is Some {
                Some(now_us as int)
            } else {
                None::<int>
            }),
            final(self).spec_scaling_1000() == new_scale as int,
    {
        self.advance_to_now(now_us);
        self.scaling_1000 = new_scale;
    }

    /// Starts wall-clock advancement from the current position.
    pub fn start(&mut self, now_us: i64)
        ensures
            final(self).spec_pos_us() == old(self).spec_pos_us(),
            final(self).spec_anchor_us() == Some(now_us as int),
            final(self).spec_scaling_1000() == old(self).spec_scaling_1000(),
            final(self).wf() == old(self).wf(),
    {
        self.anchor_us = Some(now_us);
    }

    /// Whether the clock is advancing against wall-clock time.
    pub fn is_running(&self) -> (r: bool)
        ensures
            r == (self.spec_anchor_us() is Some),
    {
        self.anchor_us.is_some()
    }

    /// Halts the clock: the effective position is collapsed into `pos_us`
    /// and the anchor cleared, so repeated stops never drift the position.
    pub fn stop(&mut self, now_us: i64)
        requires
            old(self).anchored_before(now_us as int),
            old(self).effective_fits(now_us as int),
        ensures
            final(self).spec_pos_us() == old(self).effective(now_us as int),
            final(self).spec_anchor_us() is None,
            final(self).spec_scaling_1000() == old(self).spec_scaling_1000(),
            final(self).wf() == old(self).wf(),
    {
        self.advance_to_now(now_us);
        self.anchor_us = None;
    }

    /// How many scaled milliseconds remain until the clock reaches
    /// `next_pos_us`: `None` when the position has already been passed or
    /// the remainder rounds down to nothing; an astronomically distant
    /// position saturates at `u32::MAX`.
    pub fn ms_till_pos(&self, next_pos_us: i64, now_us: i64) -> (r: Option<u32>)
        requires
            self.wf(),
            self.anchored_before(now_us as int),
            self.effective_fits(now_us as int),
        ensures
            ({
                let eff = self.effective(now_us as int);
                let scaled_ms = (next_pos_us - eff) / self.spec_scaling_1000();
                if eff > next_pos_us || scaled_ms == 0 {
                    r is None
                } else if scaled_ms > u32::MAX {
                    r == Some(u32::MAX)
                } else {
                    r == Some(scaled_ms as u32)
                }
            }),
    {
        let pos_us = self.get_pos_us(now_us);
        if pos_us > next_pos_us {
            None
        } else {
            let rem_us: u128 = (next_pos_us as i128 - pos_us as i128) as u128;
            let scaled_ms: u128 = rem_us / self.scaling_1000 as u128;
            if scaled_ms == 0 {
                None
            } else if scaled_ms > u32::MAX as u128 {
                Some(u32::MAX)
            } else {
                Some(scaled_ms as u32)
            }
        }
    }
}

/// The scaled elapsed time is non-negative and, whenever the effective
/// position fits in an `i64`, small enough that adding it to `pos_us`
/// stays in range.
proof fn lemma_scaled_elapsed_bounds(elapsed: int, scaling: int, pos: int)
    requires
        elapsed >= 0,
        scaling >= 0,
    ensures
        elapsed * scaling / 1000 >= 0,
        pos + elapsed * scaling / 1000 >= pos,
{
    lemma_mul_inequality(0, elapsed, scaling);
    assert(0 * scaling == 0) by (nonlinear_arith);
    lemma_div_is_ordered(0, elapsed * scaling, 1000);
}

/// Law: a clock that is not running is frozen — the effective position
/// equals the stored position at every instant; in particular setting a
/// position and reading it back, without starting, returns exactly the
/// value that was set.
pub proof fn lemma_stopped_clock_is_frozen(rp: RefPosition, now_us: int)
    requires
        rp.spec_anchor_us() is None,
    ensures
        rp.effective(now_us) == rp.spec_pos_us(),
{
}

/// Law: while the clock runs, the effective position is monotonically
/// non-decreasing in time.
pub proof fn lemma_running_clock_monotonic(rp: RefPosition, now1: int, now2: int)
    requires
        rp.wf(),
        rp.spec_anchor_us() is Some,
        rp.spec_anchor_us()->0 <= now1 <= now2,
    ensures
        rp.effective(now1) <= rp.effective(now2),
{
    let anchor = rp.spec_anchor_us()->0;
    let s = rp.spec_scaling_1000();
    lemma_mul_inequality(now1 - anchor, now2 - anchor, s);
    lemma_div_is_ordered((now1 - anchor) * s, (now2 - anchor) * s, 1000);
}

/// Law: stopping is idempotent — a second stop at any later instant
/// leaves the position exactly where the first stop froze it.
pub proof fn lemma_stop_is_idempotent(rp: RefPosition, now1: int, now2: int)
    requires
        rp.spec_anchor_us() is None,
    ensures
        rp.effective(now1) == rp.effective(now2),
{
}

/// Law: changing the scale factor never causes a discontinuity — at the
/// instant of the change the effective position of the new state (as
/// `set_scaling_1000` ensures it: position collapsed, anchor renewed)
/// equals the effective position of the old state, whatever the two
/// scale factors are.
pub proof fn lemma_scale_change_is_continuous(before: RefPosition, after: RefPosition, now: int)
    requires
        after.spec_pos_us() == before.effective(now),
        after.spec_anchor_us() == (if before.spec_anchor_us() is Some {
            Some(now)
        } else {
            None::<int>
        }),
    ensures
        after.effective(now) == before.effective(now),
{
    if after.spec_anchor_us() is Some {
        assert((now - now) * after.spec_scaling_1000() == 0) by (nonlinear_arith);
    }
}

} // verus!
