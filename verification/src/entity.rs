//! Entities: an id plus a record of components.

use vstd::prelude::*;
use crate::geom::Aabb;

verus! {

/// The role of an entity. The player and enemies are collidable;
/// projectiles only ever collide against collidables, never each other.
#[derive(Clone, Copy, Debug, PartialEq, Eq, Structural)]
pub enum Tag {
    Player,
    Projectile,
    Enemy,
}

/// Whether entities of this tag participate in collisions as targets.
pub open spec fn is_collidable(t: Tag) -> bool {
    t is Player || t is Enemy
}

/// One live entity: an opaque id and its components. Position and the
/// bounding-box half-extents are in world sub-units; the velocity is
/// recorded per entity and constant for its lifetime.
#[derive(Clone, Copy, Debug, PartialEq, Eq, Structural)]
pub struct Entity {
    pub id: u64,
    pub tag: Tag,
    pub x: i64,
    pub y: i64,
    pub vx: i64,
    pub vy: i64,
    pub half_w: i64,
    pub half_h: i64,
}

/// Component invariant: half-extents are nonnegative.
pub open spec fn entity_wf(e: Entity) -> bool {
    0 <= e.half_w && 0 <= e.half_h
}

/// The bounding box of an entity, centered on its position.
pub open spec fn aabb_of(e: Entity) -> Aabb {
    Aabb { cx: e.x, cy: e.y, hw: e.half_w, hh: e.half_h }
}

impl Entity {
    /// Builds an entity whose box half-extents are given directly, e.g.
    /// taken from a sprite image's pixel dimensions.
    pub fn with_extent(id: u64, tag: Tag, x: i64, y: i64, vx: i64, vy: i64, half_w: i64, half_h: i64) -> (e: Entity)
        requires
            0 <= half_w,
            0 <= half_h,
        ensures
            e == (Entity { id, tag, x, y, vx, vy, half_w, half_h }),
            entity_wf(e),
    {
        Entity { id, tag, x, y, vx, vy, half_w, half_h }
    }

    /// Builds an entity whose box is derived from a transform scale:
    /// the half-extent on each axis is half the scale.
    pub fn with_scale(id: u64, tag: Tag, x: i64, y: i64, vx: i64, vy: i64, scale_w: i64, scale_h: i64) -> (e: Entity)
        requires
            0 <= scale_w,
            0 <= scale_h,
        ensures
            e.id == id && e.tag == tag && e.x == x && e.y == y && e.vx == vx && e.vy == vy,
            e.half_w == scale_w / 2,
            e.half_h == scale_h / 2,
            entity_wf(e),
    {
        Entity { id, tag, x, y, vx, vy, half_w: scale_w / 2, half_h: scale_h / 2 }
    }

    /// The entity's bounding box, as executable data.
    pub fn bounding_box(&self) -> (b: Aabb)
        ensures
            b == aabb_of(*self),
    {
        Aabb { cx: self.x, cy: self.y, hw: self.half_w, hh: self.half_h }
    }
}

} // verus!
