use beamfrag::geom::Point2;
use beamfrag::steering::{update_monsters_behaviors, Monster, SteeringBehavior};

fn pt(x: i64, y: i64) -> Point2 {
    Point2 { x, y }
}

#[test]
fn seek_at_target_returns_zero_vector() {
    let b = SteeringBehavior::Seek { target: pt(500, -700), position: pt(500, -700), max_speed: 10_000 };
    assert_eq!(b.get_steering(), pt(0, 0));
}

#[test]
fn seek_scales_direction_to_max_speed() {
    // Displacement (3, 4) world units has length 5; at max speed 10 the
    // output is (6, 8) world units/s.
    let b = SteeringBehavior::Seek { target: pt(3000, 4000), position: pt(0, 0), max_speed: 10_000 };
    assert_eq!(b.get_steering(), pt(6000, 8000));
}

#[test]
fn seek_points_from_position_toward_target() {
    let b = SteeringBehavior::Seek { target: pt(0, 0), position: pt(3000, 4000), max_speed: 10_000 };
    assert_eq!(b.get_steering(), pt(-6000, -8000));
}

#[test]
fn flee_negates_seek() {
    let seek = SteeringBehavior::Seek { target: pt(3000, 4000), position: pt(1000, 1000), max_speed: 5_000 };
    let flee = SteeringBehavior::Flee { target: pt(3000, 4000), position: pt(1000, 1000), max_speed: 5_000 };
    let s = seek.get_steering();
    let f = flee.get_steering();
    assert_eq!(f, pt(-s.x, -s.y));
}

#[test]
fn flee_at_target_returns_zero_vector() {
    let b = SteeringBehavior::Flee { target: pt(42, 42), position: pt(42, 42), max_speed: 9_999 };
    assert_eq!(b.get_steering(), pt(0, 0));
}

#[test]
fn seek_has_no_angular_output() {
    let b = SteeringBehavior::Seek { target: pt(1, 2), position: pt(3, 4), max_speed: 10 };
    assert_eq!(b.get_angular_steering(), 0);
}

#[test]
fn keep_vertical_has_no_linear_output() {
    let b = SteeringBehavior::KeepVertical { max_speed: 800, angle: 77 };
    assert_eq!(b.get_steering(), pt(0, 0));
}

#[test]
fn keep_vertical_is_bang_bang() {
    // Angles are in micro-radians; +-1 is a magnitude of 1e-6.
    for (angle, expected) in [
        (-1_000_000i64, 800i64),
        (-1, 800),
        (0, 0),
        (1, -800),
        (1_000_000, -800),
    ] {
        let b = SteeringBehavior::KeepVertical { max_speed: 800, angle };
        assert_eq!(b.get_angular_steering(), expected);
    }
}

#[test]
fn monster_controller_reads_both_behaviors() {
    let monsters = vec![
        Monster { position: pt(0, 0), angle: 5, seek_max_speed: 10_000, keep_vertical_max_speed: 800 },
        Monster { position: pt(3000, 4000), angle: -2, seek_max_speed: 10_000, keep_vertical_max_speed: 800 },
    ];
    let outputs = update_monsters_behaviors(&monsters, pt(3000, 4000));
    assert_eq!(outputs.len(), 2);
    assert_eq!(outputs[0].0, pt(6000, 8000));
    assert_eq!(outputs[0].1, -800);
    // The second monster stands on the player: zero force, positive torque.
    assert_eq!(outputs[1].0, pt(0, 0));
    assert_eq!(outputs[1].1, 800);
}
