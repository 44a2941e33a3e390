//! The cooldown timer gating projectile spawns.
//!
//! The timer counts whole ticks. It advances by one tick every simulation
//! step whether or not fire is held, clamped at the configured duration;
//! the spawn controller is *ready* when the advanced count has reached the
//! duration, and a successful fire resets the count to zero. A fresh timer
//! starts ready, so the first press fires at once.

use vstd::prelude::*;

verus! {

/// Elapsed ticks since the last fire, clamped to the cooldown duration.
#[derive(Clone, Copy, Debug, PartialEq, Eq, Structural)]
pub struct CooldownTimer {
    pub duration: u64,
    pub elapsed: u64,
}

/// Timer invariant: a positive duration, and an elapsed count within
/// `[0, duration]`.
pub open spec fn timer_wf(t: CooldownTimer) -> bool {
    1 <= t.duration && t.elapsed <= t.duration
}

/// A timer that has just completed its cooldown.
pub open spec fn ready_timer(duration: u64) -> CooldownTimer {
    CooldownTimer { duration, elapsed: duration }
}

/// One tick of time passing: elapsed grows by one, clamped at the duration.
pub open spec fn spec_advance(t: CooldownTimer) -> CooldownTimer {
    if t.elapsed < t.duration {
        CooldownTimer { duration: t.duration, elapsed: (t.elapsed + 1) as u64 }
    } else {
        t
    }
}

/// Whether a tick with the given fire signal spawns a projectile: fire must
/// be held and the cooldown must have elapsed after this tick's advance.
pub open spec fn spec_fires(t: CooldownTimer, fire: bool) -> bool {
    fire && spec_advance(t).elapsed >= t.duration
}

/// The timer after one full tick: it advances, and resets to zero when the
/// tick fires.
pub open spec fn spec_step(t: CooldownTimer, fire: bool) -> CooldownTimer {
    if spec_fires(t, fire) {
        CooldownTimer { duration: t.duration, elapsed: 0 }
    } else {
        spec_advance(t)
    }
}

/// The timer after a whole run of ticks with the given fire signals.
pub open spec fn timer_after(t: CooldownTimer, fires: Seq<bool>) -> CooldownTimer
    decreases fires.len(),
{
    if fires.len() == 0 {
        t
    } else {
        timer_after(spec_step(t, fires[0]), fires.drop_first())
    }
}

/// How many of the given ticks spawn a projectile.
pub open spec fn spawn_count(t: CooldownTimer, fires: Seq<bool>) -> nat
    decreases fires.len(),
{
    if fires.len() == 0 {
        0
    } else {
        (if spec_fires(t, fires[0]) { 1nat } else { 0nat }) + spawn_count(
            spec_step(t, fires[0]),
            fires.drop_first(),
        )
    }
}

impl CooldownTimer {
    /// A fresh timer with the given cooldown duration, starting ready.
    pub fn new(duration: u64) -> (t: CooldownTimer)
        requires
            1 <= duration,
        ensures
            t == ready_timer(duration),
            timer_wf(t),
    {
        CooldownTimer { duration, elapsed: duration }
    }

    /// Advances the timer by one tick and reports and applies the fire
    /// decision for this tick.
    pub fn step(&mut self, fire: bool) -> (fired: bool)
        requires
            timer_wf(*old(self)),
        ensures
            fired == spec_fires(*old(self), fire),
            *final(self) == spec_step(*old(self), fire),
            timer_wf(*final(self)),
    {
        if self.elapsed < self.duration {
            self.elapsed = self.elapsed + 1;
        }
        if fire && self.elapsed >= self.duration {
            self.elapsed = 0;
            true
        } else {
            false
        }
    }

    /// Whether a fire held on the coming tick would spawn.
    pub fn is_ready(&self) -> (r: bool)
        requires
            timer_wf(*self),
        ensures
            r == spec_fires(*self, true),
    {
        self.elapsed >= self.duration - 1
    }
}

} // verus!
