//! The animation controller: a reactive state machine advancing a normalized
//! progress value over time.
//!
//! Progress is a turn fraction in `[0, SCALE)`; time stamps and the period are
//! in microseconds (which is exactly the fixed-point representation of
//! seconds). A tick integrates the elapsed time since the last tick into
//! progress, wrapping modulo one turn; a zero period freezes progress instead
//! of dividing by it. The controller performs no scheduling of its own: ticks
//! arrive from outside, each carrying its time stamp.

use vstd::prelude::*;
use vstd::arithmetic::div_mod::{
    lemma_mod_division_less_than_divisor, lemma_small_mod, lemma_mod_add_multiples_vanish,
};
use crate::fixed::{SCALE, fdiv};

verus! {

/// The controller's state.
#[derive(Clone, Copy, Debug, PartialEq, Eq, Structural)]
pub struct AnimationState {
    /// Turn fraction in `[0, SCALE)`.
    pub progress: i64,
    /// Whether ticks are being integrated; the external scheduler delivers
    /// ticks only while this is on.
    pub autorun: bool,
    /// Cycle duration in microseconds; zero freezes progress.
    pub period_us: u64,
    /// Time stamp of the last processed tick, in microseconds.
    pub last_tick_us: u64,
}

/// Progress advanced by `elapsed` time at the given period, wrapped into one
/// turn. Meaningful for a positive period.
pub open spec fn advanced(progress: int, elapsed: int, period: int) -> int
    recommends
        0 <= progress < SCALE as int,
        elapsed >= 0,
        period > 0,
{
    (progress + fdiv(elapsed * (SCALE as int), period)) % (SCALE as int)
}

impl AnimationState {
    /// Progress stays a proper turn fraction.
    pub open spec fn wf(&self) -> bool {
        0 <= self.progress < SCALE
    }

    /// Start at progress zero with the given mode, period and reference time.
    pub fn new(autorun: bool, period_us: u64, now_us: u64) -> (s: AnimationState)
        ensures
            s.wf(),
            s == (AnimationState { progress: 0, autorun, period_us, last_tick_us: now_us }),
    {
        AnimationState { progress: 0, autorun, period_us, last_tick_us: now_us }
    }

    /// Process a tick carrying the time stamp `now_us`.
    ///
    /// With a nonzero period, progress advances by the elapsed fraction of a
    /// cycle, modulo one turn; with a zero period it is left unchanged. The
    /// last-tick time always moves to `now_us`.
    pub fn tick(&mut self, now_us: u64)
        requires
            old(self).wf(),
            old(self).last_tick_us <= now_us,
        ensures
            final(self).wf(),
            final(self).autorun == old(self).autorun,
            final(self).period_us == old(self).period_us,
            final(self).last_tick_us == now_us,
            old(self).period_us == 0 ==> final(self).progress == old(self).progress,
            old(self).period_us != 0 ==> final(self).progress == advanced(
                old(self).progress as int,
                now_us - old(self).last_tick_us,
                old(self).period_us as int,
            ),
    {
        if self.period_us != 0 {
            let elapsed: u64 = now_us - self.last_tick_us;
            let scaled: u128 = (elapsed as u128) * 1_000_000;
            let delta: u128 = scaled / (self.period_us as u128);
            let sum: u128 = (self.progress as u128) + delta;
            let next: u128 = sum % 1_000_000;
            proof {
                lemma_mod_division_less_than_divisor(sum as int, 1_000_000);
                assert(delta as int == fdiv(
                    (elapsed as int) * (SCALE as int),
                    self.period_us as int,
                ));
            }
            self.progress = next as i64;
        }
        self.last_tick_us = now_us;
    }

    /// Switch autorun on or off. Toggling on resets the tick reference time to
    /// `now_us`, so the next tick does not integrate the time spent off.
    pub fn toggle_autorun(&mut self, autorun: bool, now_us: u64)
        requires
            old(self).wf(),
        ensures
            final(self).wf(),
            final(self).autorun == autorun,
            final(self).progress == old(self).progress,
            final(self).period_us == old(self).period_us,
            autorun ==> final(self).last_tick_us == now_us,
            !autorun ==> final(self).last_tick_us == old(self).last_tick_us,
    {
        if autorun {
            self.last_tick_us = now_us;
        }
        self.autorun = autorun;
    }

    /// Override progress directly (a manual scrubber): a full turn wraps to
    /// zero, anything below stays as given.
    pub fn set_progress(&mut self, progress: i64)
        requires
            old(self).wf(),
            0 <= progress <= SCALE,
        ensures
            final(self).wf(),
            final(self).progress == (progress as int) % (SCALE as int),
            final(self).autorun == old(self).autorun,
            final(self).period_us == old(self).period_us,
            final(self).last_tick_us == old(self).last_tick_us,
    {
        proof {
            if progress < SCALE {
                lemma_small_mod(progress as nat, SCALE as nat);
            }
        }
        if progress == SCALE {
            self.progress = 0;
        } else {
            self.progress = progress;
        }
    }

    /// Update the period used by future ticks; progress is not advanced.
    pub fn set_period(&mut self, period_us: u64)
        requires
            old(self).wf(),
        ensures
            final(self).wf(),
            final(self).period_us == period_us,
            final(self).progress == old(self).progress,
            final(self).autorun == old(self).autorun,
            final(self).last_tick_us == old(self).last_tick_us,
    {
        self.period_us = period_us;
    }
}

/// A tick whose elapsed time is a whole number of periods returns progress to
/// exactly where it started.
///
/// When the same span is split across several ticks the floor rounding of each
/// tick may lose up to a millionth per tick, so exact return holds for whole
/// multiples delivered in one tick.
pub proof fn lemma_tick_whole_periods(progress: int, period: int, k: int)
    requires
        0 <= progress < SCALE as int,
        period > 0,
        k >= 0,
    ensures
        advanced(progress, k * period, period) == progress,
{
    let s = SCALE as int;
    assert((k * period) * s == period * (k * s)) by (nonlinear_arith);
    assert(k * period >= 0) by (nonlinear_arith)
        requires
            k >= 0,
            period > 0,
    ;
    assert(k * s >= 0) by (nonlinear_arith)
        requires
            k >= 0,
            s > 0,
    ;
    assert(fdiv(period * (k * s), period) == k * s) by {
        crate::fixed::lemma_fdiv_unique(period * (k * s), period, k * s);
        assert(period * (k * s) == period * (k * s) + 0);
    }
    assert((progress + k * s) % s == progress % s) by {
        lemma_mod_multiples_vanish_repeat(k, progress, s);
    }
    lemma_small_mod(progress as nat, s as nat);
}

/// Adding any whole number of multiples of the modulus does not change a
/// remainder.
proof fn lemma_mod_multiples_vanish_repeat(k: int, b: int, m: int)
    requires
        m > 0,
        k >= 0,
    ensures
        (b + k * m) % m == b % m,
    decreases k,
{
    if k == 0 {
        assert(k * m == 0);
    } else {
        lemma_mod_multiples_vanish_repeat(k - 1, b, m);
        assert(b + k * m == m + (b + (k - 1) * m)) by (nonlinear_arith);
        lemma_mod_add_multiples_vanish(b + (k - 1) * m, m);
    }
}

} // verus!
