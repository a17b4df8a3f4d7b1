use beamfrag::beam::Direction;
use beamfrag::geom::{polygon_area2, Point2};
use beamfrag::world::{asteroid_placement_ok, controls, player, RayHit, World, DEBRIS_LIFETIME};

fn pt(x: i64, y: i64) -> Point2 {
    Point2 { x, y }
}

fn square(cx: i64, cy: i64, half: i64) -> Vec<Point2> {
    vec![
        pt(cx - half, cy - half),
        pt(cx + half, cy - half),
        pt(cx + half, cy + half),
        pt(cx - half, cy + half),
    ]
}

const TICK: u32 = 16_666;

#[test]
fn spawn_rejects_malformed_geometry() {
    let mut w = World::new(7);
    assert!(w.spawn_obstacle(vec![pt(0, 0), pt(1000, 0)], true).is_none());
    assert!(w.spawn_obstacle(vec![pt(0, 0), pt(1000, 0), pt(2000, 0)], true).is_none());
    assert!(w.spawn_obstacle(vec![pt(0, 0), pt(2_000_001, 0), pt(0, 1000)], true).is_none());
    assert!(w.spawn_obstacle(square(0, 0, 2000), true).is_some());
}

#[test]
fn stale_handles_do_not_resolve() {
    let mut w = World::new(7);
    let h = w.spawn_obstacle(square(0, 0, 2000), true).unwrap();
    assert!(w.obstacles.get(h).is_some());
    w.obstacles.remove(h);
    assert!(w.obstacles.get(h).is_none());
    // The slot may be reused, but the stale handle must stay dead.
    let h2 = w.spawn_obstacle(square(0, 0, 1000), false).unwrap();
    assert!(w.obstacles.get(h).is_none());
    assert!(w.obstacles.get(h2).is_some());
    assert_ne!(h, h2);
}

#[test]
fn fire_press_spawns_both_beams_fresh() {
    let mut w = World::new(1);
    w.laser_eyes(true);
    assert_eq!(w.left_beam.unwrap().height, 100);
    assert_eq!(w.right_beam.unwrap().height, 100);
    assert_eq!(w.left_beam.unwrap().position, Direction::Left);
    assert_eq!(w.right_beam.unwrap().position, Direction::Right);
}

#[test]
fn beam_hit_clamps_and_fragments_destructible_target() {
    let mut w = World::new(42);
    // A 4x4 square 10 world units up the beam's path.
    let target = w.spawn_obstacle(square(0, 10_000, 2000), true).unwrap();
    let pre_area = {
        let ob = w.obstacles.get(target).unwrap();
        polygon_area2(&ob.vertices)
    };
    w.laser_eyes(true);
    let spawned = w.lasers(Direction::Left, true, 1_000_000, Some(RayHit { target, distance: 10_000 }));
    // The beam stops exactly at the hit distance on that tick.
    assert_eq!(w.left_beam.unwrap().height, 10_000);
    // The target is gone the same tick, replaced by its fragments.
    assert!(w.obstacles.get(target).is_none());
    assert!(!spawned.is_empty());
    let mut sum: i128 = 0;
    for (h, torque) in &spawned {
        let ob = w.obstacles.get(*h).expect("fragment spawned");
        sum += polygon_area2(&ob.vertices);
        assert!(-20 <= *torque && *torque < 20);
    }
    assert_eq!(sum, pre_area);
}

#[test]
fn beam_hit_on_inert_target_only_clamps() {
    let mut w = World::new(3);
    let target = w.spawn_obstacle(square(0, 5_000, 2000), false).unwrap();
    w.laser_eyes(true);
    let spawned = w.lasers(Direction::Right, true, 1_000_000, Some(RayHit { target, distance: 5_000 }));
    assert!(spawned.is_empty());
    assert_eq!(w.right_beam.unwrap().height, 5_000);
    assert!(w.obstacles.get(target).is_some());
}

#[test]
fn beams_grow_independently_per_side() {
    let mut w = World::new(9);
    w.laser_eyes(true);
    w.lasers(Direction::Left, true, TICK, None);
    assert_eq!(w.left_beam.unwrap().height, 100 + 9_999);
    assert_eq!(w.right_beam.unwrap().height, 100);
}

#[test]
fn releasing_fire_removes_the_beam_next_tick() {
    let mut w = World::new(5);
    // Tick 0: press fire; beams spawn and grow.
    w.laser_eyes(true);
    w.lasers(Direction::Left, true, TICK, None);
    w.lasers(Direction::Right, true, TICK, None);
    assert!(w.left_beam.is_some());
    // Tick 1: fire released; both beams are gone by the end of the tick.
    w.laser_eyes(false);
    w.lasers(Direction::Left, false, TICK, None);
    w.lasers(Direction::Right, false, TICK, None);
    assert!(w.left_beam.is_none());
    assert!(w.right_beam.is_none());
    // Tick 2: nothing happens while fire stays released.
    w.laser_eyes(false);
    w.lasers(Direction::Left, false, TICK, None);
    assert!(w.left_beam.is_none());
    // Tick 3: pressing fire again spawns fresh beams at the initial length,
    // independent of the previous beam's final length.
    w.laser_eyes(true);
    assert_eq!(w.left_beam.unwrap().height, 100);
    assert_eq!(w.right_beam.unwrap().height, 100);
}

#[test]
fn inert_fragments_decay_and_despawn() {
    let mut w = World::new(11);
    // A 2x2 square: area 4.0, so every fragment is inert debris.
    let target = w.spawn_obstacle(square(0, 3_000, 1000), true).unwrap();
    w.laser_eyes(true);
    let spawned = w.lasers(Direction::Left, true, 1_000_000, Some(RayHit { target, distance: 3_000 }));
    assert!(!spawned.is_empty());
    assert_eq!(w.debris.len(), spawned.len());
    for _ in 0..(DEBRIS_LIFETIME - 1) {
        w.particles();
    }
    // One tick before expiry the debris still exists.
    for (h, _) in &spawned {
        assert!(w.obstacles.get(*h).is_some());
    }
    w.particles();
    for (h, _) in &spawned {
        assert!(w.obstacles.get(*h).is_none());
    }
    assert!(w.debris.is_empty());
}

#[test]
fn torque_impulses_vary_but_are_reproducible_per_seed() {
    let run = |seed: u64| -> Vec<i64> {
        let mut w = World::new(seed);
        w.laser_eyes(true);
        let mut torques = Vec::new();
        for k in 0..4i64 {
            let target = w
                .spawn_obstacle(square(20_000 + 10_000 * k, 0, 2000), true)
                .unwrap();
            let spawned = w.lasers(Direction::Left, true, 1_000_000, Some(RayHit { target, distance: 10_000 }));
            for (_, t) in spawned {
                torques.push(t);
            }
        }
        torques
    };
    let a = run(123);
    let b = run(123);
    // The generator is explicitly seeded, so runs are reproducible...
    assert_eq!(a, b);
    assert!(a.len() >= 8);
    // ...and the impulses are drawn from the range, not a constant.
    assert!(a.iter().any(|&t| t != a[0]));
}

#[test]
fn controls_map_the_pressed_actions() {
    let c = controls(true, false, true, false);
    assert!(matches!(c.rotation, Some(Direction::Left)));
    assert!(c.propulsion);
    assert!(!c.shooting);
    let c = controls(false, true, false, true);
    assert!(matches!(c.rotation, Some(Direction::Right)));
    assert!(c.shooting);
    let c = controls(false, false, false, false);
    assert!(c.rotation.is_none());
}

#[test]
fn player_outputs_follow_the_controls() {
    let up = controls(false, false, true, false);
    let (angvel, impulse) = player(&up, pt(0, 1000));
    assert_eq!(angvel, 0);
    assert_eq!(impulse, pt(0, 1500));
    let left = controls(true, false, false, false);
    let (angvel, impulse) = player(&left, pt(0, 1000));
    assert_eq!(angvel, 5000);
    assert_eq!(impulse, pt(0, 0));
    let right = controls(false, true, false, false);
    let (angvel, _) = player(&right, pt(0, 1000));
    assert_eq!(angvel, -5000);
}

#[test]
fn placement_rejects_crowded_and_player_overlapping_spots() {
    // Exactly 11 world units away is still too close; beyond that is fine.
    let others = vec![pt(20_000, 0)];
    assert!(!asteroid_placement_ok(pt(10_000, 0), &others));
    assert!(!asteroid_placement_ok(pt(9_000, 0), &others));
    // Clear of other obstacles but overlapping the player's spawn box.
    assert!(!asteroid_placement_ok(pt(0, 0), &Vec::new()));
    // Far from everything.
    assert!(asteroid_placement_ok(pt(40_000, 0), &others));
}
