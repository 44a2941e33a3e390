//! Simulation configuration and the per-tick input signal.

use vstd::prelude::*;

verus! {

/// Compile-time/configured constants of the simulation, in integer
/// sub-units per tick. A host that thinks in speeds and a fixed timestep
/// `dt` picks a sub-unit so that `speed * dt` is whole, and passes that
/// product as the per-tick step.
#[derive(Clone, Copy, Debug, PartialEq, Eq, Structural)]
pub struct SimConfig {
    /// Distance the player moves per tick for each unit of held direction.
    pub player_step: i64,
    /// Upward distance every projectile moves per tick.
    pub projectile_step: i64,
    /// Minimum number of ticks between successive projectile spawns.
    pub cooldown_ticks: u64,
    /// Projectiles strictly above this y coordinate are culled.
    pub top_boundary: i64,
    /// Velocity recorded on a projectile at spawn (constant for its lifetime).
    pub projectile_vx: i64,
    pub projectile_vy: i64,
    /// Half-extents of a spawned projectile's bounding box.
    pub projectile_half_w: i64,
    pub projectile_half_h: i64,
}

/// Well-formed configurations: nonnegative steps and extents, and a
/// cooldown of at least one tick.
pub open spec fn config_wf(c: SimConfig) -> bool {
    &&& 0 <= c.player_step
    &&& 0 <= c.projectile_step
    &&& 1 <= c.cooldown_ticks
    &&& 0 <= c.projectile_half_w
    &&& 0 <= c.projectile_half_h
}

/// The decoded input signal the host hands the core once per tick.
#[derive(Clone, Copy, Debug, PartialEq, Eq, Structural)]
pub struct InputState {
    pub move_left: bool,
    pub move_right: bool,
    pub fire: bool,
}

/// Net horizontal direction: right counts +1, left counts -1, so holding
/// both cancels to 0.
pub open spec fn direction(i: InputState) -> int {
    (if i.move_right { 1int } else { 0int }) - (if i.move_left { 1int } else { 0int })
}

} // verus!
