//! The mathematical model of one simulation tick.
//!
//! Every phase of the tick — player movement, projectile movement, the
//! cooldown-gated spawn, the boundary cull and collision resolution — is a
//! function on the sequence of live entities. The executable methods of
//! [`crate::world::World`] promise to equal these functions, and the proofs
//! in [`crate::laws`] are stated over them.

use vstd::prelude::*;
use vstd::seq_lib::*;
use crate::config::{SimConfig, InputState, direction};
use crate::entity::{Entity, Tag, entity_wf, aabb_of};
use crate::geom::overlaps;
use crate::store::{ids_unique, entities_wf, lemma_filter_membership, lemma_filter_preserves_ids_unique};
use crate::timer::{CooldownTimer, spec_fires};

verus! {

// ---------------------------------------------------------------------------
// The player singleton
// ---------------------------------------------------------------------------

pub open spec fn is_player(e: Entity) -> bool {
    e.tag is Player
}

pub open spec fn has_player(s: Seq<Entity>) -> bool {
    exists|i: int| 0 <= i < s.len() && is_player(s[i])
}

/// Exactly one live entity is the player.
pub open spec fn unique_player(s: Seq<Entity>) -> bool {
    &&& has_player(s)
    &&& forall|i: int, j: int|
        0 <= i < s.len() && 0 <= j < s.len() && is_player(s[i]) && is_player(s[j]) ==> i == j
}

pub open spec fn player_index(s: Seq<Entity>) -> int {
    choose|i: int| 0 <= i < s.len() && is_player(s[i])
}

/// The one player entity.
pub open spec fn the_player(s: Seq<Entity>) -> Entity {
    s[player_index(s)]
}

/// Under `unique_player`, any position holding a player is *the* player's.
pub proof fn lemma_player_at(s: Seq<Entity>, i: int)
    requires
        unique_player(s),
        0 <= i < s.len(),
        is_player(s[i]),
    ensures
        player_index(s) == i,
        the_player(s) == s[i],
{
    let j = player_index(s);
    assert(0 <= j < s.len() && is_player(s[j]));
}

// ---------------------------------------------------------------------------
// Movement
// ---------------------------------------------------------------------------

/// Moves the player by the held direction; leaves everything else alone.
pub open spec fn player_mover(dir: int, step: i64) -> spec_fn(Entity) -> Entity {
    |e: Entity|
        if is_player(e) {
            Entity {
                id: e.id,
                tag: e.tag,
                x: (e.x + dir * step) as i64,
                y: e.y,
                vx: e.vx,
                vy: e.vy,
                half_w: e.half_w,
                half_h: e.half_h,
            }
        } else {
            e
        }
}

/// The entities after the player-movement phase.
pub open spec fn move_player_spec(s: Seq<Entity>, dir: int, step: i64) -> Seq<Entity> {
    s.map_values(player_mover(dir, step))
}

/// Scrolls every projectile up by the configured step; leaves everything
/// else alone. The stored per-entity velocity is recorded at spawn but the
/// scroll rate, not it, drives projectile motion.
pub open spec fn projectile_mover(step: i64) -> spec_fn(Entity) -> Entity {
    |e: Entity|
        if e.tag is Projectile {
            Entity {
                id: e.id,
                tag: e.tag,
                x: e.x,
                y: (e.y + step) as i64,
                vx: e.vx,
                vy: e.vy,
                half_w: e.half_w,
                half_h: e.half_h,
            }
        } else {
            e
        }
}

/// The entities after the projectile-movement phase.
pub open spec fn move_projectiles_spec(s: Seq<Entity>, step: i64) -> Seq<Entity> {
    s.map_values(projectile_mover(step))
}

// ---------------------------------------------------------------------------
// Spawning
// ---------------------------------------------------------------------------

/// The projectile a fire spawns: at the given position, with the configured
/// velocity and extents.
pub open spec fn spawned_projectile(id: u64, x: i64, y: i64, c: SimConfig) -> Entity {
    Entity {
        id,
        tag: Tag::Projectile,
        x,
        y,
        vx: c.projectile_vx,
        vy: c.projectile_vy,
        half_w: c.projectile_half_w,
        half_h: c.projectile_half_h,
    }
}

/// The entities after the spawn phase: when the tick fires, a fresh
/// projectile appears at the player's position.
pub open spec fn spawn_spec(s: Seq<Entity>, fired: bool, id: u64, c: SimConfig) -> Seq<Entity> {
    if fired {
        s.push(spawned_projectile(id, the_player(s).x, the_player(s).y, c))
    } else {
        s
    }
}

// ---------------------------------------------------------------------------
// Boundary cull
// ---------------------------------------------------------------------------

/// Keeps everything but projectiles strictly above the top boundary.
pub open spec fn in_bounds(top: i64) -> spec_fn(Entity) -> bool {
    |e: Entity| !(e.tag is Projectile && e.y > top)
}

/// The complement: the projectiles the cull removes.
pub open spec fn out_of_bounds(top: i64) -> spec_fn(Entity) -> bool {
    |e: Entity| e.tag is Projectile && e.y > top
}

/// The entities after the cull phase.
pub open spec fn cull_spec(s: Seq<Entity>, top: i64) -> Seq<Entity> {
    s.filter(in_bounds(top))
}

// ---------------------------------------------------------------------------
// Collision resolution
// ---------------------------------------------------------------------------

/// Whether some enemy of the snapshot overlaps this entity's box.
pub open spec fn hits_enemy(e: Entity, s: Seq<Entity>) -> bool {
    exists|j: int|
        0 <= j < s.len() && (#[trigger] s[j]).tag is Enemy && overlaps(aabb_of(e), aabb_of(s[j]))
}

/// Whether some projectile of the snapshot overlaps this entity's box.
pub open spec fn hit_by_projectile(e: Entity, s: Seq<Entity>) -> bool {
    exists|j: int|
        0 <= j < s.len() && (#[trigger] s[j]).tag is Projectile && overlaps(
            aabb_of(s[j]),
            aabb_of(e),
        )
}

/// Collision removes a projectile that overlaps any enemy, and an enemy that
/// any projectile overlaps: both sides of every overlapping pair go, over
/// the whole snapshot at once. The player, and projectiles amongst
/// themselves, never collide.
pub open spec fn doomed(e: Entity, s: Seq<Entity>) -> bool {
    ||| (e.tag is Projectile && hits_enemy(e, s))
    ||| (e.tag is Enemy && hit_by_projectile(e, s))
}

/// The entities the collision pass keeps, judged against snapshot `s`.
pub open spec fn survivor(s: Seq<Entity>) -> spec_fn(Entity) -> bool {
    |e: Entity| !doomed(e, s)
}

/// The entities the collision pass removes, judged against snapshot `s`.
pub open spec fn victim(s: Seq<Entity>) -> spec_fn(Entity) -> bool {
    |e: Entity| doomed(e, s)
}

/// The entities after the collision phase.
pub open spec fn collide_spec(s: Seq<Entity>) -> Seq<Entity> {
    s.filter(survivor(s))
}

// ---------------------------------------------------------------------------
// The whole tick
// ---------------------------------------------------------------------------

pub open spec fn id_of() -> spec_fn(Entity) -> u64 {
    |e: Entity| e.id
}

/// The ids the cull phase removes, in store order.
pub open spec fn culled_ids(s: Seq<Entity>, top: i64) -> Seq<u64> {
    s.filter(out_of_bounds(top)).map_values(id_of())
}

/// The ids the collision phase removes, in store order.
pub open spec fn collided_ids(s: Seq<Entity>) -> Seq<u64> {
    s.filter(victim(s)).map_values(id_of())
}

/// The entities after both movement phases.
pub open spec fn tick_moved(s: Seq<Entity>, input: InputState, c: SimConfig) -> Seq<Entity> {
    move_projectiles_spec(
        move_player_spec(s, direction(input), c.player_step),
        c.projectile_step,
    )
}

/// The entities after movement and the spawn phase.
pub open spec fn tick_spawned(
    s: Seq<Entity>,
    t: CooldownTimer,
    next_id: u64,
    input: InputState,
    c: SimConfig,
) -> Seq<Entity> {
    spawn_spec(tick_moved(s, input, c), spec_fires(t, input.fire), next_id, c)
}

/// The entities after movement, spawn and cull.
pub open spec fn tick_culled(
    s: Seq<Entity>,
    t: CooldownTimer,
    next_id: u64,
    input: InputState,
    c: SimConfig,
) -> Seq<Entity> {
    cull_spec(tick_spawned(s, t, next_id, input, c), c.top_boundary)
}

/// The entities after one whole tick: movement, spawn, cull, then collision.
pub open spec fn tick_entities(
    s: Seq<Entity>,
    t: CooldownTimer,
    next_id: u64,
    input: InputState,
    c: SimConfig,
) -> Seq<Entity> {
    collide_spec(tick_culled(s, t, next_id, input, c))
}

// ---------------------------------------------------------------------------
// Preservation lemmas
// ---------------------------------------------------------------------------

/// Mapping either mover over the entities preserves the store invariant and
/// the player singleton: movers keep id, tag and extents.
pub proof fn lemma_move_player_preserves(s: Seq<Entity>, dir: int, step: i64, next_id: u64)
    requires
        entities_wf(s, next_id),
        unique_player(s),
    ensures
        entities_wf(move_player_spec(s, dir, step), next_id),
        unique_player(move_player_spec(s, dir, step)),
        move_player_spec(s, dir, step).len() == s.len(),
        forall|i: int|
            0 <= i < s.len() ==> (#[trigger] move_player_spec(s, dir, step)[i]) == player_mover(
                dir,
                step,
            )(s[i]),
{
    let r = move_player_spec(s, dir, step);
    assert forall|i: int| 0 <= i < s.len() implies (#[trigger] r[i]) == player_mover(dir, step)(
        s[i],
    ) by {}
    let pi = player_index(s);
    assert(is_player(r[pi]));
}

/// As `lemma_move_player_preserves`, for the projectile mover.
pub proof fn lemma_move_projectiles_preserves(s: Seq<Entity>, step: i64, next_id: u64)
    requires
        entities_wf(s, next_id),
        unique_player(s),
    ensures
        entities_wf(move_projectiles_spec(s, step), next_id),
        unique_player(move_projectiles_spec(s, step)),
        move_projectiles_spec(s, step).len() == s.len(),
        forall|i: int|
            0 <= i < s.len() ==> (#[trigger] move_projectiles_spec(s, step)[i])
                == projectile_mover(step)(s[i]),
{
    let r = move_projectiles_spec(s, step);
    assert forall|i: int| 0 <= i < s.len() implies (#[trigger] r[i]) == projectile_mover(step)(
        s[i],
    ) by {}
    let pi = player_index(s);
    assert(is_player(r[pi]));
}

/// Pushing a non-player entity keeps the player singleton.
pub proof fn lemma_push_non_player_preserves_unique(s: Seq<Entity>, e: Entity)
    requires
        unique_player(s),
        !is_player(e),
    ensures
        unique_player(s.push(e)),
{
    let r = s.push(e);
    let pi = player_index(s);
    assert(is_player(r[pi]));
    assert forall|i: int, j: int|
        0 <= i < r.len() && 0 <= j < r.len() && is_player(r[i]) && is_player(r[j]) implies i
        == j by {
        assert(r[i] == if i < s.len() { s[i] } else { e });
        assert(r[j] == if j < s.len() { s[j] } else { e });
    }
}

/// Filtering with a predicate that keeps every player keeps the player
/// singleton — and the player itself — provided ids are unique.
pub proof fn lemma_filter_preserves_unique_player(s: Seq<Entity>, pred: spec_fn(Entity) -> bool)
    requires
        unique_player(s),
        ids_unique(s),
        forall|e: Entity| is_player(e) ==> #[trigger] pred(e),
    ensures
        unique_player(s.filter(pred)),
        the_player(s.filter(pred)) == the_player(s),
{
    let f = s.filter(pred);
    lemma_filter_membership(s, pred);
    lemma_filter_preserves_ids_unique(s, pred);
    let pi = player_index(s);
    assert(0 <= pi < s.len() && is_player(s[pi]));
    assert(f.contains(s[pi]));
    assert(has_player(f)) by {
        let k = choose|k: int| 0 <= k < f.len() && f[k] == s[pi];
        assert(is_player(f[k]));
    }
    assert forall|i: int, j: int|
        0 <= i < f.len() && 0 <= j < f.len() && is_player(f[i]) && is_player(f[j]) implies i
        == j by {
        if i != j {
            assert(f[i].id != f[j].id);
            assert(f.contains(f[i]) && f.contains(f[j]));
            let a = choose|a: int| 0 <= a < s.len() && s[a] == f[i];
            let b = choose|b: int| 0 <= b < s.len() && s[b] == f[j];
            assert(is_player(s[a]) && is_player(s[b]));
            assert(a == b);
        }
    }
    let k = choose|k: int| 0 <= k < f.len() && f[k] == s[pi];
    lemma_player_at(f, k);
}

/// The collision pass never removes the player.
pub proof fn lemma_collide_preserves_unique_player(s: Seq<Entity>)
    requires
        unique_player(s),
        ids_unique(s),
    ensures
        unique_player(collide_spec(s)),
        the_player(collide_spec(s)) == the_player(s),
{
    assert forall|e: Entity| is_player(e) implies #[trigger] survivor(s)(e) by {}
    lemma_filter_preserves_unique_player(s, survivor(s));
}

/// The cull pass never removes the player.
pub proof fn lemma_cull_preserves_unique_player(s: Seq<Entity>, top: i64)
    requires
        unique_player(s),
        ids_unique(s),
    ensures
        unique_player(cull_spec(s, top)),
        the_player(cull_spec(s, top)) == the_player(s),
{
    assert forall|e: Entity| is_player(e) implies #[trigger] in_bounds(top)(e) by {}
    lemma_filter_preserves_unique_player(s, in_bounds(top));
}

} // verus!
