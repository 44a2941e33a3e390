//! The simulation's guarantees, proved once and for all over the model.
//!
//! Each public proof function here states one behavioural law of the core:
//! collision resolution is order-independent, the cooldown admits exactly
//! one spawn per period, movement is deterministic, the cull keeps
//! out-of-bounds projectiles away from the collision pass, overlap destroys
//! both sides of a projectile/enemy pair and nothing else, and projectiles
//! never destroy one another.

use vstd::prelude::*;
use vstd::seq_lib::*;
use vstd::arithmetic::div_mod::{lemma_div_plus_one, lemma_basic_div_specific_divisor};
use vstd::arithmetic::mul::{lemma_mul_basics, lemma_mul_is_distributive_add_other_way, lemma_mul_nonnegative};
use crate::config::{SimConfig, InputState, config_wf, direction};
use crate::entity::{Entity, aabb_of};
use crate::geom::overlaps;
use crate::model::{
    collide_spec, cull_spec, doomed, hit_by_projectile, hits_enemy, in_bounds, is_player,
    lemma_collide_preserves_unique_player, lemma_cull_preserves_unique_player,
    lemma_move_player_preserves, lemma_move_projectiles_preserves, lemma_player_at,
    lemma_push_non_player_preserves_unique, move_player_spec, move_projectiles_spec, player_index,
    player_mover, projectile_mover, spawn_spec, spawned_projectile, survivor, the_player,
    tick_culled, tick_entities, tick_spawned, unique_player,
};
use crate::store::{entities_wf, lemma_filter_membership, lemma_filter_preserves_entities_wf};
use crate::timer::{
    CooldownTimer, ready_timer, spawn_count, spec_advance, spec_fires, spec_step, timer_after,
    timer_wf,
};

verus! {

// ---------------------------------------------------------------------------
// Runs of ticks, as ghost state
// ---------------------------------------------------------------------------

/// The purely mathematical simulation state a `World` maps to.
pub ghost struct SimState {
    pub entities: Seq<Entity>,
    pub timer: CooldownTimer,
    pub next_id: u64,
}

/// The invariant a running simulation keeps.
pub open spec fn state_wf(st: SimState, c: SimConfig) -> bool {
    &&& entities_wf(st.entities, st.next_id)
    &&& timer_wf(st.timer)
    &&& config_wf(c)
    &&& unique_player(st.entities)
}

/// One tick, on the ghost state.
pub open spec fn tick_state(st: SimState, input: InputState, c: SimConfig) -> SimState {
    SimState {
        entities: tick_entities(st.entities, st.timer, st.next_id, input, c),
        timer: spec_step(st.timer, input.fire),
        next_id: if spec_fires(st.timer, input.fire) {
            (st.next_id + 1) as u64
        } else {
            st.next_id
        },
    }
}

/// A whole run of ticks, one input per tick.
pub open spec fn run_model(st: SimState, inputs: Seq<InputState>, c: SimConfig) -> SimState
    decreases inputs.len(),
{
    if inputs.len() == 0 {
        st
    } else {
        run_model(tick_state(st, inputs[0], c), inputs.drop_first(), c)
    }
}

/// How many ticks of the run spawn a projectile.
pub open spec fn run_spawn_count(st: SimState, inputs: Seq<InputState>, c: SimConfig) -> nat
    decreases inputs.len(),
{
    if inputs.len() == 0 {
        0
    } else {
        (if spec_fires(st.timer, inputs[0].fire) {
            1nat
        } else {
            0nat
        }) + run_spawn_count(tick_state(st, inputs[0], c), inputs.drop_first(), c)
    }
}

pub open spec fn fire_of() -> spec_fn(InputState) -> bool {
    |i: InputState| i.fire
}

/// The spawns of a run are exactly the fires of its timer: whether a tick
/// spawns depends on the cooldown timer and the fire signal alone, never on
/// the entities.
pub proof fn lemma_run_spawns_are_timer_fires(st: SimState, inputs: Seq<InputState>, c: SimConfig)
    ensures
        run_spawn_count(st, inputs, c) == spawn_count(st.timer, inputs.map_values(fire_of())),
    decreases inputs.len(),
{
    if inputs.len() == 0 {
    } else {
        lemma_run_spawns_are_timer_fires(tick_state(st, inputs[0], c), inputs.drop_first(), c);
        assert(inputs.map_values(fire_of())[0] == inputs[0].fire);
        assert(inputs.map_values(fire_of()).drop_first() =~= inputs.drop_first().map_values(
            fire_of(),
        ));
    }
}

/// Cooldown correctness, lifted to whole runs: a run that holds fire on
/// every tick, starting from a ready timer, spawns exactly
/// `total / duration + 1` projectiles over a span of `total` ticks past the
/// first — whatever else the simulation does meanwhile.
pub proof fn lemma_run_cooldown_correctness(
    st: SimState,
    inputs: Seq<InputState>,
    c: SimConfig,
    total: u64,
)
    requires
        1 <= st.timer.duration,
        st.timer == ready_timer(st.timer.duration),
        inputs.len() == total + 1,
        forall|i: int| 0 <= i < inputs.len() ==> (#[trigger] inputs[i]).fire,
    ensures
        run_spawn_count(st, inputs, c) == total / st.timer.duration + 1,
{
    lemma_run_spawns_are_timer_fires(st, inputs, c);
    let fires = inputs.map_values(fire_of());
    assert(forall|i: int| 0 <= i < fires.len() ==> fires[i]);
    lemma_cooldown_correctness(st.timer.duration, total, fires);
}

// ---------------------------------------------------------------------------
// Order-independence of collision resolution
// ---------------------------------------------------------------------------

proof fn lemma_hits_enemy_transfer(e: Entity, s1: Seq<Entity>, s2: Seq<Entity>)
    requires
        forall|x: Entity| s1.contains(x) ==> s2.contains(x),
        hits_enemy(e, s1),
    ensures
        hits_enemy(e, s2),
{
    let j = choose|j: int|
        0 <= j < s1.len() && (#[trigger] s1[j]).tag is Enemy && overlaps(aabb_of(e), aabb_of(s1[j]));
    assert(s1.contains(s1[j]));
    let k = choose|k: int| 0 <= k < s2.len() && s2[k] == s1[j];
    assert((s2[k]).tag is Enemy && overlaps(aabb_of(e), aabb_of(s2[k])));
}

proof fn lemma_hit_by_projectile_transfer(e: Entity, s1: Seq<Entity>, s2: Seq<Entity>)
    requires
        forall|x: Entity| s1.contains(x) ==> s2.contains(x),
        hit_by_projectile(e, s1),
    ensures
        hit_by_projectile(e, s2),
{
    let j = choose|j: int|
        0 <= j < s1.len() && (#[trigger] s1[j]).tag is Projectile && overlaps(
            aabb_of(s1[j]),
            aabb_of(e),
        );
    assert(s1.contains(s1[j]));
    let k = choose|k: int| 0 <= k < s2.len() && s2[k] == s1[j];
    assert((s2[k]).tag is Projectile && overlaps(aabb_of(s2[k]), aabb_of(e)));
}

/// Whether an entity is removed by collision depends only on which entities
/// are present, not on their order.
proof fn lemma_doomed_same_members(e: Entity, s1: Seq<Entity>, s2: Seq<Entity>)
    requires
        forall|x: Entity| s1.contains(x) <==> s2.contains(x),
    ensures
        doomed(e, s1) == doomed(e, s2),
{
    if hits_enemy(e, s1) {
        lemma_hits_enemy_transfer(e, s1, s2);
    }
    if hits_enemy(e, s2) {
        lemma_hits_enemy_transfer(e, s2, s1);
    }
    if hit_by_projectile(e, s1) {
        lemma_hit_by_projectile_transfer(e, s1, s2);
    }
    if hit_by_projectile(e, s2) {
        lemma_hit_by_projectile_transfer(e, s2, s1);
    }
}

/// Order-independence: two snapshots holding the same entities — in any
/// order — resolve collisions to the same final entity set. No pair's
/// outcome depends on the order of the scan.
pub proof fn lemma_collision_order_independence(s1: Seq<Entity>, s2: Seq<Entity>)
    requires
        s1.to_multiset() == s2.to_multiset(),
    ensures
        collide_spec(s1).to_set() == collide_spec(s2).to_set(),
{
    assert forall|x: Entity| s1.contains(x) <==> s2.contains(x) by {
        vstd::seq_lib::to_multiset_contains(s1, x);
        vstd::seq_lib::to_multiset_contains(s2, x);
    }
    lemma_filter_membership(s1, survivor(s1));
    lemma_filter_membership(s2, survivor(s2));
    assert forall|x: Entity| collide_spec(s1).contains(x) <==> collide_spec(s2).contains(x) by {
        lemma_doomed_same_members(x, s1, s2);
    }
    assert(collide_spec(s1).to_set() =~= collide_spec(s2).to_set());
}

// ---------------------------------------------------------------------------
// Cooldown correctness and gating
// ---------------------------------------------------------------------------

/// With fire held, how many ticks pass before the next spawn.
spec fn ticks_to_ready(t: CooldownTimer) -> int {
    if t.elapsed >= t.duration - 1 {
        0
    } else {
        t.duration - 1 - t.elapsed
    }
}

/// Closed form for the number of spawns while fire is held continuously.
proof fn lemma_spawn_count_fire_held(t: CooldownTimer, fires: Seq<bool>)
    requires
        timer_wf(t),
        forall|i: int| 0 <= i < fires.len() ==> fires[i],
    ensures
        spawn_count(t, fires) == if fires.len() > ticks_to_ready(t) {
            (fires.len() - 1 - ticks_to_ready(t)) / (t.duration as int) + 1
        } else {
            0int
        },
    decreases fires.len(),
{
    let d = t.duration as int;
    let n = fires.len() as int;
    let k0 = ticks_to_ready(t);
    if n > 0 {
        assert(fires[0]);
        let t1 = spec_step(t, true);
        let rest = fires.drop_first();
        assert(forall|i: int| 0 <= i < rest.len() ==> rest[i]);
        lemma_spawn_count_fire_held(t1, rest);
        if spec_fires(t, true) {
            assert(k0 == 0);
            assert(t1.elapsed == 0);
            assert(ticks_to_ready(t1) == d - 1);
            if n - 1 > d - 1 {
                lemma_div_plus_one(n - 1 - d, d);
            } else {
                lemma_basic_div_specific_divisor(d);
                assert((n - 1) / d == 0);
            }
        } else {
            assert(t.elapsed < t.duration - 1);
            assert(t1 == spec_advance(t));
            assert(ticks_to_ready(t1) == k0 - 1);
        }
    }
}

/// Cooldown correctness: with the timer ready and fire held continuously
/// over a span of `total` ticks past the first, the number of spawned
/// projectiles is exactly `total / duration + 1` — one at the start and one
/// per full cooldown elapsed, never more.
pub proof fn lemma_cooldown_correctness(d: u64, total: u64, fires: Seq<bool>)
    requires
        1 <= d,
        fires.len() == total + 1,
        forall|i: int| 0 <= i < fires.len() ==> fires[i],
    ensures
        spawn_count(ready_timer(d), fires) == total / d + 1,
{
    lemma_spawn_count_fire_held(ready_timer(d), fires);
    assert(ticks_to_ready(ready_timer(d)) == 0);
}

/// Splitting a run of fire signals splits its spawn count.
proof fn lemma_spawn_count_concat(t: CooldownTimer, a: Seq<bool>, b: Seq<bool>)
    ensures
        spawn_count(t, a + b) == spawn_count(t, a) + spawn_count(timer_after(t, a), b),
        timer_after(t, a + b) == timer_after(timer_after(t, a), b),
    decreases a.len(),
{
    if a.len() == 0 {
        assert(a + b =~= b);
    } else {
        assert((a + b)[0] == a[0]);
        assert((a + b).drop_first() =~= a.drop_first() + b);
        lemma_spawn_count_concat(spec_step(t, a[0]), a.drop_first(), b);
    }
}

/// A span of ticks without fire spawns nothing and only lets the timer
/// elapse, clamped at its duration.
proof fn lemma_no_fire_run(t: CooldownTimer, fires: Seq<bool>)
    requires
        timer_wf(t),
        forall|i: int| 0 <= i < fires.len() ==> !fires[i],
    ensures
        spawn_count(t, fires) == 0,
        timer_after(t, fires).duration == t.duration,
        timer_after(t, fires).elapsed == if t.elapsed + fires.len() < t.duration {
            t.elapsed + fires.len()
        } else {
            t.duration as int
        },
        timer_wf(timer_after(t, fires)),
    decreases fires.len(),
{
    if fires.len() > 0 {
        assert(!fires[0]);
        lemma_no_fire_run(spec_step(t, false), fires.drop_first());
    }
}

/// One tick's spawn count and timer, spelled out.
proof fn lemma_single_tick(t: CooldownTimer, fire: bool, fires: Seq<bool>)
    requires
        fires.len() == 1,
        fires[0] == fire,
    ensures
        spawn_count(t, fires) == (if spec_fires(t, fire) {
            1int
        } else {
            0int
        }),
        timer_after(t, fires) == spec_step(t, fire),
{
    assert(fires.drop_first().len() == 0);
    assert(spawn_count(spec_step(t, fire), fires.drop_first()) == 0);
    assert(timer_after(spec_step(t, fire), fires.drop_first()) == spec_step(t, fire));
}

/// Cooldown gating: from a ready timer, two fire presses less than one
/// cooldown apart — and no other press — spawn exactly one projectile; the
/// second press is swallowed by the cooldown.
pub proof fn lemma_cooldown_gating(d: u64, t1: int, t2: int, fires: Seq<bool>)
    requires
        1 <= d,
        0 <= t1 < t2 < t1 + d,
        t2 < fires.len(),
        forall|i: int| 0 <= i < fires.len() ==> (fires[i] <==> (i == t1 || i == t2)),
    ensures
        spawn_count(ready_timer(d), fires) == 1,
{
    let z1 = fires.take(t1);
    let m1 = fires.subrange(t1, t1 + 1);
    let z2 = fires.subrange(t1 + 1, t2);
    let m2 = fires.subrange(t2, t2 + 1);
    let z3 = fires.skip(t2 + 1);
    let r3 = m2 + z3;
    let r2 = z2 + r3;
    let r1 = m1 + r2;
    assert(fires =~= z1 + r1);

    let tick0 = ready_timer(d);
    assert(forall|i: int| 0 <= i < z1.len() ==> !z1[i]);
    lemma_no_fire_run(tick0, z1);
    let tick1 = timer_after(tick0, z1);
    assert(tick1.elapsed == d);

    assert(m1.len() == 1 && m1[0]);
    lemma_single_tick(tick1, true, m1);
    assert(spec_fires(tick1, true));
    let tick2 = timer_after(tick1, m1);
    assert(tick2.elapsed == 0 && tick2.duration == d);

    assert(forall|i: int| 0 <= i < z2.len() ==> !z2[i]);
    lemma_no_fire_run(tick2, z2);
    let tick3 = timer_after(tick2, z2);
    assert(tick3.elapsed == t2 - t1 - 1);

    assert(m2.len() == 1 && m2[0]);
    lemma_single_tick(tick3, true, m2);
    assert(!spec_fires(tick3, true));
    let tick4 = timer_after(tick3, m2);
    assert(timer_wf(tick4));

    assert(forall|i: int| 0 <= i < z3.len() ==> !z3[i]);
    lemma_no_fire_run(tick4, z3);

    lemma_spawn_count_concat(tick0, z1, r1);
    lemma_spawn_count_concat(tick1, m1, r2);
    lemma_spawn_count_concat(tick2, z2, r3);
    lemma_spawn_count_concat(tick3, m2, z3);
}

// ---------------------------------------------------------------------------
// Movement determinism
// ---------------------------------------------------------------------------

/// One tick carries the player to exactly where the movement phase puts it:
/// shifted by `direction * player_step`, with every other component — and
/// the whole world invariant — preserved.
pub proof fn lemma_tick_player(st: SimState, input: InputState, c: SimConfig)
    requires
        state_wf(st, c),
        st.next_id < u64::MAX,
    ensures
        state_wf(tick_state(st, input, c), c),
        the_player(tick_state(st, input, c).entities) == player_mover(
            direction(input),
            c.player_step,
        )(the_player(st.entities)),
{
    let s0 = st.entities;
    let dir = direction(input);
    let m1 = move_player_spec(s0, dir, c.player_step);
    lemma_move_player_preserves(s0, dir, c.player_step, st.next_id);
    let pi = player_index(s0);
    assert(0 <= pi < s0.len() && is_player(s0[pi]));
    assert(m1[pi] == player_mover(dir, c.player_step)(s0[pi]));
    lemma_player_at(m1, pi);

    let m2 = move_projectiles_spec(m1, c.projectile_step);
    lemma_move_projectiles_preserves(m1, c.projectile_step, st.next_id);
    assert(m2[pi] == projectile_mover(c.projectile_step)(m1[pi]));
    assert(m2[pi] == m1[pi]);
    lemma_player_at(m2, pi);

    let fired = spec_fires(st.timer, input.fire);
    let sp = spawn_spec(m2, fired, st.next_id, c);
    let nid2: u64 = if fired {
        (st.next_id + 1) as u64
    } else {
        st.next_id
    };
    if fired {
        let newp = spawned_projectile(st.next_id, the_player(m2).x, the_player(m2).y, c);
        lemma_push_non_player_preserves_unique(m2, newp);
        assert(entities_wf(sp, nid2)) by {
            assert forall|i: int, j: int| 0 <= i < j < sp.len() implies sp[i].id != sp[j].id by {
                if j == sp.len() - 1 {
                    assert(sp[i] == m2[i]);
                    assert(m2[i].id < st.next_id);
                } else {
                    assert(sp[i] == m2[i] && sp[j] == m2[j]);
                }
            }
            assert forall|i: int| 0 <= i < sp.len() implies (#[trigger] sp[i]).id < nid2
                && crate::entity::entity_wf(sp[i]) by {
                if i < m2.len() {
                    assert(sp[i] == m2[i]);
                } else {
                    assert(sp[i] == newp);
                }
            }
        }
        assert(sp[pi] == m2[pi]);
        lemma_player_at(sp, pi);
    }
    assert(timer_wf(spec_step(st.timer, input.fire)));

    let cu = cull_spec(sp, c.top_boundary);
    lemma_filter_preserves_entities_wf(sp, in_bounds(c.top_boundary), nid2);
    lemma_cull_preserves_unique_player(sp, c.top_boundary);

    let co = collide_spec(cu);
    lemma_filter_preserves_entities_wf(cu, survivor(cu), nid2);
    lemma_collide_preserves_unique_player(cu);
}

/// Movement determinism, idle half: with no directional input held, the
/// player's x is unchanged after any number of ticks.
pub proof fn lemma_movement_idle(st: SimState, inputs: Seq<InputState>, c: SimConfig)
    requires
        state_wf(st, c),
        st.next_id + inputs.len() <= u64::MAX,
        forall|i: int| 0 <= i < inputs.len() ==> direction(#[trigger] inputs[i]) == 0,
    ensures
        state_wf(run_model(st, inputs, c), c),
        the_player(run_model(st, inputs, c).entities).x == the_player(st.entities).x,
    decreases inputs.len(),
{
    if inputs.len() > 0 {
        lemma_tick_player(st, inputs[0], c);
        let p0 = the_player(st.entities);
        assert(player_mover(0, c.player_step)(p0).x == p0.x) by {
            lemma_mul_basics(c.player_step as int);
        }
        lemma_movement_idle(tick_state(st, inputs[0], c), inputs.drop_first(), c);
    }
}

/// Movement determinism, moving half: with only `move_right` held for the
/// whole run, the player's x increases by exactly the number of ticks times
/// the configured step.
pub proof fn lemma_movement_right(st: SimState, inputs: Seq<InputState>, c: SimConfig)
    requires
        state_wf(st, c),
        st.next_id + inputs.len() <= u64::MAX,
        forall|i: int|
            0 <= i < inputs.len() ==> (#[trigger] inputs[i]).move_right && !inputs[i].move_left,
        the_player(st.entities).x + inputs.len() * c.player_step <= i64::MAX,
    ensures
        state_wf(run_model(st, inputs, c), c),
        the_player(run_model(st, inputs, c).entities).x == the_player(st.entities).x
            + inputs.len() * c.player_step,
    decreases inputs.len(),
{
    let n = inputs.len() as int;
    let step = c.player_step as int;
    if n == 0 {
        assert(0 * step == 0) by {
            lemma_mul_basics(step);
        }
    } else {
        lemma_tick_player(st, inputs[0], c);
        let p0 = the_player(st.entities);
        assert(direction(inputs[0]) == 1);
        assert(n * step == (n - 1) * step + step) by {
            lemma_mul_is_distributive_add_other_way(step, n - 1, 1);
            lemma_mul_basics(step);
        }
        assert(0 <= (n - 1) * step) by {
            lemma_mul_nonnegative(n - 1, step);
        }
        assert(p0.x + step <= i64::MAX);
        let p1 = player_mover(1, c.player_step)(p0);
        assert(p1.x == p0.x + step) by {
            lemma_mul_basics(step);
        }
        let st1 = tick_state(st, inputs[0], c);
        assert(the_player(st1.entities).x + (n - 1) * step <= i64::MAX);
        lemma_movement_right(st1, inputs.drop_first(), c);
    }
}

// ---------------------------------------------------------------------------
// Boundary cull
// ---------------------------------------------------------------------------

/// Boundary cull: after the cull phase no projectile lies strictly above
/// the top boundary, and every projectile that did is gone.
pub proof fn lemma_boundary_cull(s: Seq<Entity>, top: i64)
    ensures
        forall|x: Entity|
            #[trigger] cull_spec(s, top).contains(x) ==> !(x.tag is Projectile && x.y > top),
        forall|x: Entity|
            s.contains(x) && x.tag is Projectile && x.y > top ==> !(#[trigger] cull_spec(
                s,
                top,
            ).contains(x)),
{
    lemma_filter_membership(s, in_bounds(top));
}

/// Through a whole tick, the cull runs before collision: the collision pass
/// never sees a projectile above the boundary, and none survives the tick.
pub proof fn lemma_tick_boundary(
    s: Seq<Entity>,
    t: CooldownTimer,
    next_id: u64,
    input: InputState,
    c: SimConfig,
)
    ensures
        forall|x: Entity|
            #[trigger] tick_culled(s, t, next_id, input, c).contains(x) ==> !(x.tag is Projectile
                && x.y > c.top_boundary),
        forall|x: Entity|
            #[trigger] tick_entities(s, t, next_id, input, c).contains(x) ==> !(x.tag is Projectile
                && x.y > c.top_boundary),
{
    let sp = tick_spawned(s, t, next_id, input, c);
    let cu = tick_culled(s, t, next_id, input, c);
    lemma_boundary_cull(sp, c.top_boundary);
    lemma_filter_membership(cu, survivor(cu));
}

// ---------------------------------------------------------------------------
// Mutual destruction, and none beyond it
// ---------------------------------------------------------------------------

/// Mutual destruction: when the snapshot holds exactly one projectile and
/// exactly one enemy and their boxes overlap, one collision pass removes
/// both — the projectile is consumed by its hit — and every other entity
/// survives untouched.
pub proof fn lemma_mutual_destruction(s: Seq<Entity>, pi: int, ei: int)
    requires
        0 <= pi < s.len(),
        0 <= ei < s.len(),
        s[pi].tag is Projectile,
        s[ei].tag is Enemy,
        overlaps(aabb_of(s[pi]), aabb_of(s[ei])),
        forall|i: int| 0 <= i < s.len() && i != pi ==> !((#[trigger] s[i]).tag is Projectile),
        forall|i: int| 0 <= i < s.len() && i != ei ==> !((#[trigger] s[i]).tag is Enemy),
    ensures
        forall|i: int|
            0 <= i < s.len() ==> (collide_spec(s).contains(#[trigger] s[i]) <==> (i != pi && i
                != ei)),
{
    lemma_filter_membership(s, survivor(s));
    assert(hits_enemy(s[pi], s)) by {
        assert((s[ei]).tag is Enemy && overlaps(aabb_of(s[pi]), aabb_of(s[ei])));
    }
    assert(hit_by_projectile(s[ei], s)) by {
        assert((s[pi]).tag is Projectile && overlaps(aabb_of(s[pi]), aabb_of(s[ei])));
    }
    assert forall|i: int| 0 <= i < s.len() implies (collide_spec(s).contains(s[i]) <==> (i != pi
        && i != ei)) by {
        assert(s.contains(s[i]));
        if i == pi || i == ei {
            assert(doomed(s[i], s));
        } else {
            assert(!(s[i].tag is Projectile) && !(s[i].tag is Enemy));
            assert(!doomed(s[i], s));
        }
    }
}

// ---------------------------------------------------------------------------
// No self-collision
// ---------------------------------------------------------------------------

/// Filtering with a predicate that holds everywhere changes nothing.
proof fn lemma_filter_all_true<A>(s: Seq<A>, pred: spec_fn(A) -> bool)
    requires
        forall|i: int| 0 <= i < s.len() ==> pred(#[trigger] s[i]),
    ensures
        s.filter(pred) == s,
    decreases s.len(),
{
    reveal(Seq::filter);
    if s.len() > 0 {
        let rest = s.drop_last();
        lemma_filter_all_true(rest, pred);
        assert(pred(s[s.len() - 1]));
        assert(rest.push(s.last()) =~= s);
    }
}

/// No self-collision: projectiles never destroy one another. With no enemy
/// in the snapshot the collision pass removes nothing, no matter how the
/// projectiles overlap each other or the player.
pub proof fn lemma_no_self_collision(s: Seq<Entity>)
    requires
        forall|i: int| 0 <= i < s.len() ==> !((#[trigger] s[i]).tag is Enemy),
    ensures
        collide_spec(s) == s,
{
    assert forall|i: int| 0 <= i < s.len() implies survivor(s)(#[trigger] s[i]) by {
        if s[i].tag is Projectile && hits_enemy(s[i], s) {
            let j = choose|j: int|
                0 <= j < s.len() && (#[trigger] s[j]).tag is Enemy && overlaps(
                    aabb_of(s[i]),
                    aabb_of(s[j]),
                );
            assert(false);
        }
    }
    lemma_filter_all_true(s, survivor(s));
}

} // verus!
