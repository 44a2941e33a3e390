//! Simulation core of a small fixed-timestep 2D arcade shooter.
//!
//! The library owns the whole game state: an entity store holding the
//! player, enemies and projectiles, and a cooldown timer gating projectile
//! spawns. Each call to [`world::World::tick`] advances the simulation by one
//! fixed step: the player moves by the held direction, projectiles scroll
//! upward, a rate-limited projectile may spawn at the player, projectiles
//! past the top boundary are culled, and projectile/enemy overlaps destroy
//! both entities of each overlapping pair.
//!
//! All coordinates are integers in an arbitrary sub-unit; a host chooses the
//! scale so that one tick's displacement (speed times the fixed timestep) is
//! a whole number of sub-units. Rendering, input polling and asset handling
//! are left to the host, which feeds the core a decoded [`config::InputState`]
//! per tick and consumes the spawn/destruction events it returns.

pub mod config;
pub mod entity;
pub mod geom;
pub mod laws;
pub mod model;
pub mod store;
pub mod timer;
pub mod world;
