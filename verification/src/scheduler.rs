//! Fixed-timestep tick scheduler.
//!
//! The scheduler is the sole timing authority of the simulation. Each frame
//! it is fed the elapsed real time; it accumulates it and emits exactly one
//! tick per whole period consumed, carrying the remainder over to the next
//! frame. It never drifts, never double-fires within one accumulated period,
//! and never skips a period under slow frames: several ticks may be due in
//! one frame.

use vstd::prelude::*;

verus! {

/// Accumulates elapsed milliseconds and converts them into whole ticks of a
/// fixed period.
pub struct TickScheduler {
    period_ms: u64,
    accum_ms: u64,
}

impl TickScheduler {
    /// The tick period, in milliseconds.
    pub closed spec fn period(self) -> int {
        self.period_ms as int
    }

    /// Time carried over from earlier frames, in milliseconds.
    pub closed spec fn accumulated(self) -> int {
        self.accum_ms as int
    }

    /// The carried remainder is always strictly below one period.
    pub open spec fn wf(self) -> bool {
        0 < self.period() && self.accumulated() < self.period()
    }

    /// A scheduler with the given period and no time accumulated yet.
    pub fn new(period_ms: u64) -> (s: TickScheduler)
        requires
            period_ms > 0,
        ensures
            s.wf(),
            s.period() == period_ms,
            s.accumulated() == 0,
    {
        TickScheduler { period_ms, accum_ms: 0 }
    }

    /// Feed one frame's elapsed time and learn how many whole ticks are due.
    ///
    /// All accumulated time is accounted for exactly: the old remainder plus
    /// the elapsed time equals the ticks fired times the period plus the new
    /// remainder, and the new remainder is strictly below one period.
    pub fn advance(&mut self, elapsed_ms: u64) -> (ticks: u64)
        requires
            old(self).wf(),
            old(self).accumulated() + elapsed_ms <= u64::MAX,
        ensures
            final(self).wf(),
            final(self).period() == old(self).period(),
            old(self).accumulated() + elapsed_ms == ticks * old(self).period()
                + final(self).accumulated(),
            ticks == (old(self).accumulated() + elapsed_ms) / old(self).period(),
            final(self).accumulated() == (old(self).accumulated() + elapsed_ms) % old(
                self,
            ).period(),
    {
        let total: u64 = self.accum_ms + elapsed_ms;
        let ticks: u64 = total / self.period_ms;
        self.accum_ms = total % self.period_ms;
        proof {
            vstd::arithmetic::div_mod::lemma_fundamental_div_mod(
                total as int,
                self.period_ms as int,
            );
        }
        ticks
    }
}

} // verus!
