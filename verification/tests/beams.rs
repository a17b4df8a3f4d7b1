use beamfrag::beam::{Direction, LaserRay, INITIAL_HEIGHT, MAX_HEIGHT};

#[test]
fn fresh_beam_starts_near_zero() {
    let b = LaserRay::new(Direction::Left);
    assert_eq!(b.height, INITIAL_HEIGHT);
    assert_eq!(b.height, 100);
    assert_eq!(b.position, Direction::Left);
}

#[test]
fn growth_follows_rate_times_dt() {
    let mut b = LaserRay::new(Direction::Right);
    // 600 world units/s over a 16666 µs tick adds 9.999 world units.
    b.grow(16_666);
    assert_eq!(b.height, 100 + 9_999);
}

#[test]
fn growth_is_monotone_while_fire_is_held() {
    let mut b = LaserRay::new(Direction::Left);
    let mut last = b.height;
    for _ in 0..10 {
        b.grow(16_666);
        assert!(b.height >= last);
        last = b.height;
    }
}

#[test]
fn growth_clamps_at_max_height() {
    let mut b = LaserRay::new(Direction::Left);
    b.grow(1_000_000);
    assert_eq!(b.height, MAX_HEIGHT);
    b.grow(1_000_000);
    assert_eq!(b.height, MAX_HEIGHT);
}

#[test]
fn hit_clamps_to_hit_distance() {
    let mut b = LaserRay::new(Direction::Right);
    b.grow(1_000_000);
    b.clamp_to_hit(10_000);
    assert_eq!(b.height, 10_000);
    // A farther hit does not extend the beam back out.
    b.clamp_to_hit(25_000);
    assert_eq!(b.height, 10_000);
}
