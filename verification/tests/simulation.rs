use shooter_core::config::{InputState, SimConfig};
use shooter_core::entity::{Entity, Tag};
use shooter_core::geom::Aabb;
use shooter_core::store::EntityStore;
use shooter_core::timer::CooldownTimer;
use shooter_core::world::World;

/// A configuration in sub-units of 1/60 world unit per tick: speeds in world
/// units per second equal steps in sub-units per tick at 60 ticks a second.
fn base_config() -> SimConfig {
    SimConfig {
        player_step: 100,
        projectile_step: 250,
        cooldown_ticks: 18,
        top_boundary: 21000,
        projectile_vx: 283,
        projectile_vy: 283,
        projectile_half_w: 30,
        projectile_half_h: 30,
    }
}

fn idle() -> InputState {
    InputState { move_left: false, move_right: false, fire: false }
}

fn right() -> InputState {
    InputState { move_left: false, move_right: true, fire: false }
}

fn left() -> InputState {
    InputState { move_left: true, move_right: false, fire: false }
}

fn fire() -> InputState {
    InputState { move_left: false, move_right: false, fire: true }
}

fn new_world(config: SimConfig) -> World {
    World::new(config, 0, -18000, 45, 45)
}

#[test]
fn player_moves_right_sixty_ticks() {
    // speed 100, dt 1/60: after 60 ticks the player has moved 100 world
    // units, i.e. 60 * 100 sub-units.
    let mut w = new_world(base_config());
    for _ in 0..60 {
        w.tick(right());
    }
    assert_eq!(w.player_x(), 60 * 100);
}

#[test]
fn player_unmoved_without_input() {
    let mut w = new_world(base_config());
    for _ in 0..60 {
        w.tick(idle());
    }
    assert_eq!(w.player_x(), 0);
}

#[test]
fn player_moves_left() {
    let mut w = new_world(base_config());
    for _ in 0..5 {
        w.tick(left());
    }
    assert_eq!(w.player_x(), -500);
}

#[test]
fn both_directions_cancel() {
    let mut w = new_world(base_config());
    for _ in 0..10 {
        w.tick(InputState { move_left: true, move_right: true, fire: false });
    }
    assert_eq!(w.player_x(), 0);
}

#[test]
fn fire_held_one_second_spawns_four() {
    // cooldown 0.3 s = 18 ticks; fire held over 1.0 s = ticks 0..=60:
    // spawns at ticks 0, 18, 36 and 54, and no more.
    let mut w = new_world(base_config());
    let mut spawn_ticks = Vec::new();
    for t in 0..=60u32 {
        let out = w.tick(fire());
        if out.spawned.is_some() {
            spawn_ticks.push(t);
        }
    }
    assert_eq!(spawn_ticks, vec![0, 18, 36, 54]);
}

#[test]
fn two_presses_within_cooldown_spawn_once() {
    // presses at ticks 0 and 5, cooldown 18 ticks: one projectile.
    let mut w = new_world(base_config());
    let mut spawned = 0;
    for t in 0..12u32 {
        let pressed = t == 0 || t == 5;
        let input = InputState { move_left: false, move_right: false, fire: pressed };
        if w.tick(input).spawned.is_some() {
            spawned += 1;
        }
    }
    assert_eq!(spawned, 1);
}

#[test]
fn released_fire_does_not_bypass_cooldown() {
    let mut w = new_world(base_config());
    assert!(w.tick(fire()).spawned.is_some());
    // release for a few ticks, press again before the cooldown is over
    for _ in 0..5 {
        assert!(w.tick(idle()).spawned.is_none());
    }
    assert!(w.tick(fire()).spawned.is_none());
}

#[test]
fn spawn_event_carries_player_position_and_config_velocity() {
    let cfg = base_config();
    let mut w = new_world(cfg);
    let out = w.tick(fire());
    let ev = out.spawned.expect("ready timer must fire");
    assert_eq!(ev.x, 0);
    assert_eq!(ev.y, -18000);
    assert_eq!(ev.vx, 283);
    assert_eq!(ev.vy, 283);
    assert!(w.store.contains_id(ev.id));
}

#[test]
fn projectile_scrolls_up_at_fixed_rate() {
    let mut w = new_world(base_config());
    let ev = w.tick(fire()).spawned.unwrap();
    // five more ticks: y = -18000 + 6 * 250 (it also moved on its spawn tick? no:
    // spawn happens after movement, so only the five later ticks move it)
    for _ in 0..5 {
        w.tick(idle());
    }
    let proj = w
        .store
        .entities
        .iter()
        .find(|e| e.id == ev.id)
        .expect("projectile still on screen");
    assert_eq!(proj.y, -18000 + 5 * 250);
    assert_eq!(proj.x, 0);
}

#[test]
fn projectile_above_boundary_is_culled() {
    // a projectile at y 360 with the boundary at 350 is removed on the next
    // tick's cull, in a configuration whose scroll step is zero.
    let mut cfg = base_config();
    cfg.projectile_step = 0;
    cfg.top_boundary = 350;
    let mut w = new_world(cfg);
    let id = w.store.insert(Tag::Projectile, 0, 360, 0, 0, 30, 30);
    let out = w.tick(idle());
    assert_eq!(out.destroyed, vec![id]);
    assert!(!w.store.contains_id(id));
}

#[test]
fn projectile_at_boundary_is_kept() {
    // the cull removes strictly-above projectiles only
    let mut cfg = base_config();
    cfg.projectile_step = 0;
    cfg.top_boundary = 350;
    let mut w = new_world(cfg);
    let id = w.store.insert(Tag::Projectile, 0, 350, 0, 0, 30, 30);
    let out = w.tick(idle());
    assert!(out.destroyed.is_empty());
    assert!(w.store.contains_id(id));
}

#[test]
fn culled_projectile_never_reaches_collision() {
    // an out-of-bounds projectile overlapping an enemy is culled first, so
    // the enemy survives the same tick's collision pass.
    let mut cfg = base_config();
    cfg.projectile_step = 0;
    cfg.top_boundary = 350;
    let mut w = new_world(cfg);
    let enemy = w.spawn_enemy(0, 360, 30, 30);
    let proj = w.store.insert(Tag::Projectile, 0, 360, 0, 0, 30, 30);
    let out = w.tick(idle());
    assert_eq!(out.destroyed, vec![proj]);
    assert!(w.store.contains_id(enemy));
}

#[test]
fn overlapping_projectile_and_enemy_destroy_each_other() {
    // projectile box center (0, 200) half-extents (15, 15) fully overlapping
    // an enemy box with the same center and extents: both removed, the
    // player untouched.
    let mut cfg = base_config();
    cfg.projectile_step = 0;
    let mut w = new_world(cfg);
    let enemy = w.spawn_enemy(0, 200, 15, 15);
    let proj = w.store.insert(Tag::Projectile, 0, 200, 0, 0, 15, 15);
    let out = w.tick(idle());
    let mut destroyed = out.destroyed.clone();
    destroyed.sort();
    assert_eq!(destroyed, vec![enemy, proj]);
    assert!(!w.store.contains_id(enemy));
    assert!(!w.store.contains_id(proj));
    assert_eq!(w.store.count_tag(Tag::Player), 1);
}

#[test]
fn distant_enemy_survives_mutual_destruction() {
    let mut cfg = base_config();
    cfg.projectile_step = 0;
    let mut w = new_world(cfg);
    let near = w.spawn_enemy(0, 200, 15, 15);
    let far = w.spawn_enemy(5000, 200, 15, 15);
    let proj = w.store.insert(Tag::Projectile, 0, 200, 0, 0, 15, 15);
    let out = w.tick(idle());
    assert_eq!(out.destroyed.len(), 2);
    assert!(!w.store.contains_id(near));
    assert!(!w.store.contains_id(proj));
    assert!(w.store.contains_id(far));
}

#[test]
fn projectiles_do_not_collide_with_each_other() {
    let mut cfg = base_config();
    cfg.projectile_step = 0;
    let mut w = new_world(cfg);
    let a = w.store.insert(Tag::Projectile, 0, 200, 0, 0, 15, 15);
    let b = w.store.insert(Tag::Projectile, 0, 200, 0, 0, 15, 15);
    let out = w.tick(idle());
    assert!(out.destroyed.is_empty());
    assert!(w.store.contains_id(a));
    assert!(w.store.contains_id(b));
}

#[test]
fn projectile_does_not_hit_the_player() {
    // the player is collidable but not an enemy: a projectile sitting on it
    // harms nothing.
    let mut cfg = base_config();
    cfg.projectile_step = 0;
    let mut w = new_world(cfg);
    let proj = w.store.insert(Tag::Projectile, 0, -18000, 0, 0, 15, 15);
    let out = w.tick(idle());
    assert!(out.destroyed.is_empty());
    assert!(w.store.contains_id(proj));
    assert_eq!(w.store.count_tag(Tag::Player), 1);
}

#[test]
fn collision_outcome_ignores_store_order() {
    // the same snapshot in two different orders resolves to the same
    // surviving id set.
    let mut cfg = base_config();
    cfg.projectile_step = 0;
    let mut w1 = new_world(cfg);
    let e1 = w1.spawn_enemy(0, 200, 15, 15);
    let f1 = w1.spawn_enemy(5000, 200, 15, 15);
    let p1 = w1.store.insert(Tag::Projectile, 0, 200, 0, 0, 15, 15);
    let mut w2 = World { store: w1.store.clone(), timer: w1.timer, config: w1.config };
    w2.store.entities.reverse();

    let mut gone1 = w1.check_for_collisions();
    let mut gone2 = w2.check_for_collisions();
    gone1.sort();
    gone2.sort();
    assert_eq!(gone1, vec![e1, p1]);
    assert_eq!(gone1, gone2);
    assert!(w1.store.contains_id(f1));
    assert!(w2.store.contains_id(f1));
}

#[test]
fn removal_is_idempotent() {
    let mut store = EntityStore::new();
    let a = store.insert(Tag::Enemy, 0, 0, 0, 0, 1, 1);
    let b = store.insert(Tag::Enemy, 9, 9, 0, 0, 1, 1);
    store.remove(a);
    assert_eq!(store.entities.len(), 1);
    store.remove(a);
    assert_eq!(store.entities.len(), 1);
    assert!(store.contains_id(b));
}

#[test]
fn aabb_overlap_is_inclusive_at_touching_edges() {
    let a = Aabb { cx: 0, cy: 0, hw: 10, hh: 10 };
    let touching = Aabb { cx: 20, cy: 0, hw: 10, hh: 10 };
    let apart = Aabb { cx: 21, cy: 0, hw: 10, hh: 10 };
    let diagonal = Aabb { cx: 20, cy: 20, hw: 10, hh: 10 };
    assert!(a.intersects(&touching));
    assert!(!a.intersects(&apart));
    assert!(a.intersects(&diagonal));
    assert!(a.intersects(&a));
}

#[test]
fn aabb_overlap_handles_extreme_coordinates() {
    let far_left = Aabb { cx: i64::MIN, cy: 0, hw: 1, hh: 1 };
    let far_right = Aabb { cx: i64::MAX, cy: 0, hw: 1, hh: 1 };
    assert!(!far_left.intersects(&far_right));
    assert!(far_left.intersects(&far_left));
}

#[test]
fn extent_from_scale_is_half() {
    let e = Entity::with_scale(7, Tag::Enemy, 1, 2, 0, 0, 3, 8);
    assert_eq!(e.half_w, 1);
    assert_eq!(e.half_h, 4);
    let f = Entity::with_extent(8, Tag::Enemy, 1, 2, 0, 0, 3, 8);
    assert_eq!(f.half_w, 3);
    assert_eq!(f.half_h, 8);
}

#[test]
fn fresh_timer_fires_at_once_then_waits() {
    let mut t = CooldownTimer::new(3);
    assert!(t.is_ready());
    assert!(t.step(true));
    assert!(!t.step(true));
    assert!(!t.step(true));
    assert!(t.step(true));
}

#[test]
fn timer_does_not_fire_without_input() {
    let mut t = CooldownTimer::new(2);
    for _ in 0..10 {
        assert!(!t.step(false));
    }
    assert!(t.step(true));
}

#[test]
fn tick_ready_accepts_fresh_world_and_rejects_edge() {
    let w = new_world(base_config());
    assert!(w.tick_ready(right()));
    let mut edge = World::new(base_config(), i64::MAX, 0, 1, 1);
    assert!(!edge.tick_ready(right()));
    assert!(edge.tick_ready(idle()));
    edge.tick(idle());
    assert_eq!(edge.player_x(), i64::MAX);
}

#[test]
fn count_tag_tracks_population() {
    let mut w = new_world(base_config());
    assert_eq!(w.store.count_tag(Tag::Player), 1);
    assert_eq!(w.store.count_tag(Tag::Enemy), 0);
    w.spawn_enemy(0, 100, 15, 15);
    w.spawn_enemy(100, 100, 15, 15);
    assert_eq!(w.store.count_tag(Tag::Enemy), 2);
    w.tick(fire());
    assert_eq!(w.store.count_tag(Tag::Projectile), 1);
}
