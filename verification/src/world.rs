//! The tick driver: the executable simulation, one fixed step at a time.

use vstd::prelude::*;
use vstd::seq_lib::*;
use crate::config::{SimConfig, InputState, config_wf, direction};
use crate::entity::{Entity, Tag, aabb_of};
use crate::model::{
    collide_spec, collided_ids, cull_spec, culled_ids, doomed, hit_by_projectile, hits_enemy,
    id_of, in_bounds, is_player, lemma_collide_preserves_unique_player,
    lemma_cull_preserves_unique_player, lemma_move_player_preserves,
    lemma_move_projectiles_preserves, lemma_player_at, lemma_push_non_player_preserves_unique,
    move_player_spec, move_projectiles_spec, out_of_bounds, player_index, player_mover,
    projectile_mover, spawn_spec, spawned_projectile, survivor, the_player, tick_culled,
    tick_entities, tick_moved, tick_spawned, unique_player, victim,
};
use crate::store::{EntityStore, lemma_filter_preserves_entities_wf};
use crate::timer::{CooldownTimer, timer_wf, spec_fires, spec_step, ready_timer};

verus! {

/// The spawn request a tick emits when it creates a projectile, for the
/// presentation layer to attach a visual to.
#[derive(Clone, Copy, Debug, PartialEq, Eq, Structural)]
pub struct SpawnEvent {
    pub id: u64,
    pub x: i64,
    pub y: i64,
    pub vx: i64,
    pub vy: i64,
}

/// What one tick did: at most one spawned projectile, and the ids of every
/// entity destroyed by the cull or by collisions, for the presentation layer
/// to release.
#[derive(Debug)]
pub struct TickEvents {
    pub spawned: Option<SpawnEvent>,
    pub destroyed: Vec<u64>,
}

/// The spawn event describing a just-created projectile.
pub open spec fn spawn_event_of(e: Entity) -> SpawnEvent {
    SpawnEvent { id: e.id, x: e.x, y: e.y, vx: e.vx, vy: e.vy }
}

/// The whole simulation state: the entity store, the spawn cooldown timer
/// and the configuration.
#[derive(Debug)]
pub struct World {
    pub store: EntityStore,
    pub timer: CooldownTimer,
    pub config: SimConfig,
}

/// The per-tick arithmetic bounds a caller must respect: the id generator
/// has room, and no position leaves the machine-integer range this tick.
pub open spec fn can_tick(w: World, input: InputState) -> bool {
    &&& w.store.next_id < u64::MAX
    &&& i64::MIN <= the_player(w.store@).x + direction(input) * w.config.player_step <= i64::MAX
    &&& projectiles_fit(w.store@, w.config.projectile_step)
}

/// Every projectile can take one more step without leaving the integer
/// range.
pub open spec fn projectiles_fit(s: Seq<Entity>, step: i64) -> bool {
    forall|i: int|
        0 <= i < s.len() && (#[trigger] s[i]).tag is Projectile ==> s[i].y + step <= i64::MAX
}

impl World {
    /// The world invariant: a well-formed store, timer and configuration,
    /// and exactly one player.
    pub open spec fn wf(&self) -> bool {
        &&& self.store.wf()
        &&& timer_wf(self.timer)
        &&& config_wf(self.config)
        &&& unique_player(self.store@)
    }

    /// Sets up a simulation: a store holding only the player, at the given
    /// position with the given box half-extents, and a ready cooldown timer,
    /// so that the first fire spawns at once.
    pub fn new(config: SimConfig, player_x: i64, player_y: i64, player_half_w: i64, player_half_h: i64) -> (w: World)
        requires
            config_wf(config),
            0 <= player_half_w,
            0 <= player_half_h,
        ensures
            w.wf(),
            w.config == config,
            w.timer == ready_timer(config.cooldown_ticks),
            w.store.next_id == 1,
            w.store@ =~= seq![
                (Entity {
                    id: 0,
                    tag: Tag::Player,
                    x: player_x,
                    y: player_y,
                    vx: 0,
                    vy: 0,
                    half_w: player_half_w,
                    half_h: player_half_h,
                }),
            ],
    {
        let mut store = EntityStore::new();
        store.insert(Tag::Player, player_x, player_y, 0, 0, player_half_w, player_half_h);
        let timer = CooldownTimer::new(config.cooldown_ticks);
        let w = World { store, timer, config };
        proof {
            assert(is_player(w.store@[0]));
        }
        w
    }

    /// Places an enemy, at rest, at the given position with the given box
    /// half-extents; returns its id.
    pub fn spawn_enemy(&mut self, x: i64, y: i64, half_w: i64, half_h: i64) -> (id: u64)
        requires
            old(self).wf(),
            old(self).store.next_id < u64::MAX,
            0 <= half_w,
            0 <= half_h,
        ensures
            id == old(self).store.next_id,
            final(self).store@ == old(self).store@.push(
                Entity { id, tag: Tag::Enemy, x, y, vx: 0, vy: 0, half_w, half_h },
            ),
            final(self).store.next_id == old(self).store.next_id + 1,
            final(self).timer == old(self).timer,
            final(self).config == old(self).config,
            final(self).wf(),
    {
        let id = self.store.insert(Tag::Enemy, x, y, 0, 0, half_w, half_h);
        proof {
            lemma_push_non_player_preserves_unique(
                old(self).store@,
                Entity { id, tag: Tag::Enemy, x, y, vx: 0, vy: 0, half_w, half_h },
            );
        }
        id
    }

    /// Index of the player in the store.
    fn find_player(&self) -> (i: usize)
        requires
            unique_player(self.store@),
        ensures
            0 <= i < self.store@.len(),
            is_player(self.store@[i as int]),
            self.store@[i as int] == the_player(self.store@),
    {
        let n = self.store.entities.len();
        let mut i: usize = 0;
        while i < n
            invariant
                n == self.store@.len(),
                0 <= i <= n,
                unique_player(self.store@),
                forall|j: int| 0 <= j < i ==> !is_player(#[trigger] self.store@[j]),
            decreases n - i,
        {
            if matches!(self.store.entities[i].tag, Tag::Player) {
                proof {
                    lemma_player_at(self.store@, i as int);
                }
                return i;
            }
            i = i + 1;
        }
        proof {
            let k = player_index(self.store@);
            assert(0 <= k < self.store@.len() && is_player(self.store@[k]));
            assert(false);
        }
        0
    }

    /// The player's current horizontal position.
    pub fn player_x(&self) -> (x: i64)
        requires
            unique_player(self.store@),
        ensures
            x == the_player(self.store@).x,
    {
        let i = self.find_player();
        self.store.entities[i].x
    }

    /// Movement, player half: the player moves horizontally by the net held
    /// direction times the configured step; its y, and every other entity,
    /// never change here.
    pub fn move_player(&mut self, input: InputState)
        requires
            old(self).wf(),
            i64::MIN <= the_player(old(self).store@).x + direction(input) * old(
                self,
            ).config.player_step <= i64::MAX,
        ensures
            final(self).store@ == move_player_spec(
                old(self).store@,
                direction(input),
                old(self).config.player_step,
            ),
            final(self).store.next_id == old(self).store.next_id,
            final(self).timer == old(self).timer,
            final(self).config == old(self).config,
            final(self).wf(),
    {
        let ghost orig = self.store@;
        let ghost dir = direction(input);
        let step = self.config.player_step;
        let delta: i64 = if input.move_right && !input.move_left {
            step
        } else if input.move_left && !input.move_right {
            -step
        } else {
            0
        };
        proof {
            if input.move_right && !input.move_left {
                assert(dir == 1);
                assert(delta == 1 * step);
            } else if input.move_left && !input.move_right {
                assert(dir == -1);
                vstd::arithmetic::mul::lemma_mul_unary_negation(1, step as int);
                assert(delta == (-1) * step);
            } else {
                assert(dir == 0);
                assert(delta == 0 * step);
            }
        }
        let n = self.store.entities.len();
        let mut moved: Vec<Entity> = Vec::new();
        let mut i: usize = 0;
        while i < n
            invariant
                n == orig.len(),
                self.store@ == orig,
                unique_player(orig),
                0 <= i <= n,
                delta == dir * step,
                i64::MIN <= the_player(orig).x + dir * step <= i64::MAX,
                moved@ == orig.take(i as int).map_values(player_mover(dir, step)),
            decreases n - i,
        {
            let mut e = self.store.entities[i];
            if matches!(e.tag, Tag::Player) {
                proof {
                    lemma_player_at(orig, i as int);
                }
                e.x = e.x + delta;
            }
            proof {
                broadcast use Seq::lemma_take_succ_push, Seq::lemma_push_map_commute;

                assert(orig.take(i + 1) == orig.take(i as int).push(orig[i as int]));
                assert(orig.take(i + 1).map_values(player_mover(dir, step)) == orig.take(
                    i as int,
                ).push(orig[i as int]).map_values(player_mover(dir, step)));
                assert(e == player_mover(dir, step)(orig[i as int]));
            }
            moved.push(e);
            i = i + 1;
        }
        proof {
            assert(orig.take(n as int) == orig);
        }
        self.store.entities = moved;
        proof {
            lemma_move_player_preserves(orig, dir, step, self.store.next_id);
        }
    }

    /// Movement, projectile half: every projectile scrolls up by the
    /// configured step; nothing else changes.
    pub fn move_projectiles(&mut self)
        requires
            old(self).wf(),
            projectiles_fit(old(self).store@, old(self).config.projectile_step),
        ensures
            final(self).store@ == move_projectiles_spec(
                old(self).store@,
                old(self).config.projectile_step,
            ),
            final(self).store.next_id == old(self).store.next_id,
            final(self).timer == old(self).timer,
            final(self).config == old(self).config,
            final(self).wf(),
    {
        let ghost orig = self.store@;
        let step = self.config.projectile_step;
        let n = self.store.entities.len();
        let mut moved: Vec<Entity> = Vec::new();
        let mut i: usize = 0;
        while i < n
            invariant
                n == orig.len(),
                self.store@ == orig,
                0 <= i <= n,
                0 <= step,
                projectiles_fit(orig, step),
                moved@ == orig.take(i as int).map_values(projectile_mover(step)),
            decreases n - i,
        {
            let mut e = self.store.entities[i];
            if matches!(e.tag, Tag::Projectile) {
                e.y = e.y + step;
            }
            proof {
                broadcast use Seq::lemma_take_succ_push, Seq::lemma_push_map_commute;

                assert(orig.take(i + 1) == orig.take(i as int).push(orig[i as int]));
                assert(orig.take(i + 1).map_values(projectile_mover(step)) == orig.take(
                    i as int,
                ).push(orig[i as int]).map_values(projectile_mover(step)));
                assert(e == projectile_mover(step)(orig[i as int]));
            }
            moved.push(e);
            i = i + 1;
        }
        proof {
            assert(orig.take(n as int) == orig);
        }
        self.store.entities = moved;
        proof {
            lemma_move_projectiles_preserves(orig, step, self.store.next_id);
        }
    }

    /// The spawn controller: the cooldown timer advances by one tick, and
    /// when fire is held with the cooldown complete, a projectile spawns at
    /// the player's position and the timer resets. Holding fire yields one
    /// spawn per cooldown period, never one per tick.
    pub fn shoot_projectile(&mut self, input: InputState) -> (ev: Option<SpawnEvent>)
        requires
            old(self).wf(),
            old(self).store.next_id < u64::MAX,
        ensures
            final(self).store@ == spawn_spec(
                old(self).store@,
                spec_fires(old(self).timer, input.fire),
                old(self).store.next_id,
                old(self).config,
            ),
            final(self).timer == spec_step(old(self).timer, input.fire),
            spec_fires(old(self).timer, input.fire) ==> final(self).store.next_id == old(
                self,
            ).store.next_id + 1,
            !spec_fires(old(self).timer, input.fire) ==> final(self).store.next_id == old(
                self,
            ).store.next_id,
            final(self).config == old(self).config,
            ev == (if spec_fires(old(self).timer, input.fire) {
                Some(
                    spawn_event_of(
                        spawned_projectile(
                            old(self).store.next_id,
                            the_player(old(self).store@).x,
                            the_player(old(self).store@).y,
                            old(self).config,
                        ),
                    ),
                )
            } else {
                None::<SpawnEvent>
            }),
            final(self).wf(),
    {
        let fired = self.timer.step(input.fire);
        if fired {
            let pi = self.find_player();
            let px = self.store.entities[pi].x;
            let py = self.store.entities[pi].y;
            let vx = self.config.projectile_vx;
            let vy = self.config.projectile_vy;
            let hw = self.config.projectile_half_w;
            let hh = self.config.projectile_half_h;
            let id = self.store.insert(Tag::Projectile, px, py, vx, vy, hw, hh);
            proof {
                lemma_push_non_player_preserves_unique(
                    old(self).store@,
                    spawned_projectile(id, px, py, self.config),
                );
            }
            Some(SpawnEvent { id, x: px, y: py, vx, vy })
        } else {
            None
        }
    }

    /// The boundary cull: every projectile strictly above the top boundary
    /// is removed; the ids removed are returned in store order. Nothing else
    /// is touched, so a culled projectile cannot take part in this tick's
    /// collision pass, which runs after.
    pub fn destroy_projectiles(&mut self) -> (removed: Vec<u64>)
        requires
            old(self).wf(),
        ensures
            final(self).store@ == cull_spec(old(self).store@, old(self).config.top_boundary),
            removed@ == culled_ids(old(self).store@, old(self).config.top_boundary),
            final(self).store.next_id == old(self).store.next_id,
            final(self).timer == old(self).timer,
            final(self).config == old(self).config,
            final(self).wf(),
    {
        let ghost orig = self.store@;
        let top = self.config.top_boundary;
        let n = self.store.entities.len();
        let mut kept: Vec<Entity> = Vec::new();
        let mut removed: Vec<u64> = Vec::new();
        let mut i: usize = 0;
        while i < n
            invariant
                n == orig.len(),
                self.store@ == orig,
                0 <= i <= n,
                kept@ == orig.take(i as int).filter(in_bounds(top)),
                removed@ == orig.take(i as int).filter(out_of_bounds(top)).map_values(id_of()),
            decreases n - i,
        {
            let e = self.store.entities[i];
            if matches!(e.tag, Tag::Projectile) && e.y > top {
                removed.push(e.id);
            } else {
                kept.push(e);
            }
            proof {
                broadcast use Seq::lemma_take_succ_push, Seq::lemma_filter_push, Seq::lemma_push_map_commute;

                let prefix = orig.take(i as int);
                assert(orig.take(i + 1) == prefix.push(orig[i as int]));
                assert(orig.take(i + 1).filter(in_bounds(top)) == prefix.push(
                    orig[i as int],
                ).filter(in_bounds(top)));
                assert(orig.take(i + 1).filter(out_of_bounds(top)) == prefix.push(
                    orig[i as int],
                ).filter(out_of_bounds(top)));
                if out_of_bounds(top)(orig[i as int]) {
                    assert(prefix.filter(out_of_bounds(top)).push(orig[i as int]).map_values(
                        id_of(),
                    ) == prefix.filter(out_of_bounds(top)).map_values(id_of()).push(
                        id_of()(orig[i as int]),
                    ));
                }
            }
            i = i + 1;
        }
        proof {
            assert(orig.take(n as int) == orig);
        }
        self.store.entities = kept;
        proof {
            lemma_filter_preserves_entities_wf(orig, in_bounds(top), self.store.next_id);
            lemma_cull_preserves_unique_player(orig, top);
        }
        removed
    }

    /// The collision pass: judged against a fixed snapshot of the store,
    /// every projectile overlapping an enemy and every enemy overlapped by a
    /// projectile is removed — both sides of each pair, all at once, so no
    /// pair's outcome depends on scan order. The ids removed are returned in
    /// store order.
    pub fn check_for_collisions(&mut self) -> (removed: Vec<u64>)
        requires
            old(self).wf(),
        ensures
            final(self).store@ == collide_spec(old(self).store@),
            removed@ == collided_ids(old(self).store@),
            final(self).store.next_id == old(self).store.next_id,
            final(self).timer == old(self).timer,
            final(self).config == old(self).config,
            final(self).wf(),
    {
        let ghost orig = self.store@;
        let n = self.store.entities.len();
        let mut kept: Vec<Entity> = Vec::new();
        let mut removed: Vec<u64> = Vec::new();
        let mut i: usize = 0;
        while i < n
            invariant
                n == orig.len(),
                self.store@ == orig,
                0 <= i <= n,
                kept@ == orig.take(i as int).filter(survivor(orig)),
                removed@ == orig.take(i as int).filter(victim(orig)).map_values(id_of()),
            decreases n - i,
        {
            let e = self.store.entities[i];
            let d: bool = if matches!(e.tag, Tag::Projectile) {
                scan_hits_enemy(&self.store.entities, &e)
            } else if matches!(e.tag, Tag::Enemy) {
                scan_hit_by_projectile(&self.store.entities, &e)
            } else {
                false
            };
            proof {
                assert(d == doomed(orig[i as int], orig));
            }
            if d {
                removed.push(e.id);
            } else {
                kept.push(e);
            }
            proof {
                broadcast use Seq::lemma_take_succ_push, Seq::lemma_filter_push, Seq::lemma_push_map_commute;

                let prefix = orig.take(i as int);
                assert(orig.take(i + 1) == prefix.push(orig[i as int]));
                assert(orig.take(i + 1).filter(survivor(orig)) == prefix.push(
                    orig[i as int],
                ).filter(survivor(orig)));
                assert(orig.take(i + 1).filter(victim(orig)) == prefix.push(orig[i as int]).filter(
                    victim(orig),
                ));
                if victim(orig)(orig[i as int]) {
                    assert(prefix.filter(victim(orig)).push(orig[i as int]).map_values(id_of())
                        == prefix.filter(victim(orig)).map_values(id_of()).push(
                        id_of()(orig[i as int]),
                    ));
                }
            }
            i = i + 1;
        }
        proof {
            assert(orig.take(n as int) == orig);
        }
        self.store.entities = kept;
        proof {
            lemma_filter_preserves_entities_wf(orig, survivor(orig), self.store.next_id);
            lemma_collide_preserves_unique_player(orig);
        }
        removed
    }

    /// Decides [`can_tick`] at run time, so a host can test the arithmetic
    /// bounds before calling [`World::tick`].
    pub fn tick_ready(&self, input: InputState) -> (r: bool)
        requires
            self.wf(),
        ensures
            r == can_tick(*self, input),
    {
        if self.store.next_id == u64::MAX {
            return false;
        }
        let i = self.find_player();
        let px = self.store.entities[i].x;
        let step = self.config.player_step;
        let dirstep: i128 = if input.move_right && !input.move_left {
            step as i128
        } else if input.move_left && !input.move_right {
            -(step as i128)
        } else {
            0
        };
        proof {
            if input.move_right && !input.move_left {
                assert(dirstep == 1 * step);
            } else if input.move_left && !input.move_right {
                vstd::arithmetic::mul::lemma_mul_unary_negation(1, step as int);
                assert(dirstep == (-1) * step);
            } else {
                assert(dirstep == 0 * step);
            }
        }
        let shifted: i128 = px as i128 + dirstep;
        if shifted < i64::MIN as i128 || shifted > i64::MAX as i128 {
            return false;
        }
        let pstep = self.config.projectile_step;
        let n = self.store.entities.len();
        let mut j: usize = 0;
        while j < n
            invariant
                n == self.store@.len(),
                0 <= j <= n,
                pstep == self.config.projectile_step,
                forall|k: int|
                    0 <= k < j ==> ((#[trigger] self.store@[k]).tag is Projectile
                        ==> self.store@[k].y + pstep <= i64::MAX),
            decreases n - j,
        {
            let e = self.store.entities[j];
            if matches!(e.tag, Tag::Projectile) {
                if e.y as i128 + pstep as i128 > i64::MAX as i128 {
                    return false;
                }
            }
            j = j + 1;
        }
        true
    }

    /// One whole fixed-timestep tick: the player and the projectiles move,
    /// the spawn controller may fire, out-of-bounds projectiles are culled,
    /// and collisions are resolved, in that order. Returns the spawn event,
    /// if any, and the ids of every destroyed entity.
    pub fn tick(&mut self, input: InputState) -> (out: TickEvents)
        requires
            old(self).wf(),
            can_tick(*old(self), input),
        ensures
            final(self).store@ == tick_entities(
                old(self).store@,
                old(self).timer,
                old(self).store.next_id,
                input,
                old(self).config,
            ),
            final(self).timer == spec_step(old(self).timer, input.fire),
            final(self).config == old(self).config,
            final(self).wf(),
            out.spawned == (if spec_fires(old(self).timer, input.fire) {
                Some(
                    spawn_event_of(
                        spawned_projectile(
                            old(self).store.next_id,
                            the_player(tick_moved(old(self).store@, input, old(self).config)).x,
                            the_player(tick_moved(old(self).store@, input, old(self).config)).y,
                            old(self).config,
                        ),
                    ),
                )
            } else {
                None::<SpawnEvent>
            }),
            out.destroyed@ == culled_ids(
                tick_spawned(
                    old(self).store@,
                    old(self).timer,
                    old(self).store.next_id,
                    input,
                    old(self).config,
                ),
                old(self).config.top_boundary,
            ) + collided_ids(
                tick_culled(
                    old(self).store@,
                    old(self).timer,
                    old(self).store.next_id,
                    input,
                    old(self).config,
                ),
            ),
    {
        let ghost s0 = self.store@;
        let ghost c = self.config;
        self.move_player(input);
        proof {
            let moved = self.store@;
            lemma_move_player_preserves(s0, direction(input), c.player_step, self.store.next_id);
            assert forall|i: int|
                0 <= i < moved.len() && (#[trigger] moved[i]).tag is Projectile implies moved[i].y
                + c.projectile_step <= i64::MAX by {
                assert(moved[i] == player_mover(direction(input), c.player_step)(s0[i]));
            }
        }
        self.move_projectiles();
        let ev = self.shoot_projectile(input);
        let mut destroyed = self.destroy_projectiles();
        let mut collided = self.check_for_collisions();
        destroyed.append(&mut collided);
        TickEvents { spawned: ev, destroyed }
    }
}

/// Whether any enemy in the snapshot overlaps the given entity's box.
fn scan_hits_enemy(es: &Vec<Entity>, e: &Entity) -> (r: bool)
    ensures
        r == hits_enemy(*e, es@),
{
    let n = es.len();
    let mut j: usize = 0;
    while j < n
        invariant
            n == es@.len(),
            0 <= j <= n,
            forall|k: int|
                0 <= k < j ==> !((#[trigger] es@[k]).tag is Enemy && crate::geom::overlaps(
                    aabb_of(*e),
                    aabb_of(es@[k]),
                )),
        decreases n - j,
    {
        let o = es[j];
        if matches!(o.tag, Tag::Enemy) {
            let eb = e.bounding_box();
            let ob = o.bounding_box();
            if eb.intersects(&ob) {
                return true;
            }
        }
        j = j + 1;
    }
    false
}

/// Whether any projectile in the snapshot overlaps the given entity's box.
fn scan_hit_by_projectile(es: &Vec<Entity>, e: &Entity) -> (r: bool)
    ensures
        r == hit_by_projectile(*e, es@),
{
    let n = es.len();
    let mut j: usize = 0;
    while j < n
        invariant
            n == es@.len(),
            0 <= j <= n,
            forall|k: int|
                0 <= k < j ==> !((#[trigger] es@[k]).tag is Projectile && crate::geom::overlaps(
                    aabb_of(es@[k]),
                    aabb_of(*e),
                )),
        decreases n - j,
    {
        let o = es[j];
        if matches!(o.tag, Tag::Projectile) {
            let ob = o.bounding_box();
            let eb = e.bounding_box();
            if ob.intersects(&eb) {
                return true;
            }
        }
        j = j + 1;
    }
    false
}

} // verus!
