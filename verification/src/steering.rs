//! Steering behaviors for autonomous agents: Seek and Flee produce a linear
//! steering vector, KeepVertical a bang-bang angular output. A behavior that
//! does not produce one of the two outputs yields the zero default.

use vstd::prelude::*;

use crate::geom::{in_bounds, trunc_div, Point2};

verus! {

/// Largest speed magnitude the behaviors accept (1000 world units/s).
pub const MAX_SPEED_BOUND: i64 = 1_000_000;

/// Floor of the square root of `n`.
pub open spec fn isqrt_spec(n: int) -> int
    decreases n,
{
    if n <= 0 {
        0
    } else {
        let r = isqrt_spec(n - 1);
        if (r + 1) * (r + 1) <= n {
            r + 1
        } else {
            r
        }
    }
}

proof fn lemma_sq_mono(a: int, b: int)
    requires
        0 <= a <= b,
    ensures
        a * a <= b * b,
{
    assert(a * a <= b * b) by (nonlinear_arith)
        requires
            0 <= a <= b,
    ;
}

proof fn lemma_isqrt_bounds(n: int)
    requires
        n >= 0,
    ensures
        isqrt_spec(n) >= 0,
        isqrt_spec(n) * isqrt_spec(n) <= n,
        (isqrt_spec(n) + 1) * (isqrt_spec(n) + 1) > n,
        n >= 1 ==> isqrt_spec(n) >= 1,
    decreases n,
{
    if n == 0 {
    } else {
        lemma_isqrt_bounds(n - 1);
        let r = isqrt_spec(n - 1);
        assert((0 + 1) * (0 + 1) == 1) by (nonlinear_arith);
        if (r + 1) * (r + 1) <= n {
            assert((r + 1) * (r + 1) > n - 1);
            assert((r + 1) * (r + 1) == n);
            assert((r + 2) * (r + 2) > (r + 1) * (r + 1)) by (nonlinear_arith)
                requires
                    r >= 0,
            ;
        } else {
            if n == 1 {
                assert(r == 0);
                assert(false);
            }
        }
    }
}

proof fn lemma_isqrt_unique(n: int, r: int)
    requires
        n >= 0,
        r >= 0,
        r * r <= n,
        (r + 1) * (r + 1) > n,
    ensures
        r == isqrt_spec(n),
{
    let q = isqrt_spec(n);
    lemma_isqrt_bounds(n);
    if r < q {
        lemma_sq_mono(r + 1, q);
        assert(q * q <= n);
        assert((r + 1) * (r + 1) <= n);
    } else if r > q {
        lemma_sq_mono(q + 1, r);
        assert((q + 1) * (q + 1) <= n);
    }
}

fn isqrt64(n: u64) -> (r: u64)
    requires
        n <= 8_000_000_000_000,
    ensures
        r as int == isqrt_spec(n as int),
{
    let mut lo: u64 = 0;
    let mut hi: u64 = 3_000_000;
    while lo < hi
        invariant
            n <= 8_000_000_000_000,
            0 <= lo <= hi <= 3_000_000,
            (lo as int) * (lo as int) <= n,
            ((hi + 1) as int) * ((hi + 1) as int) > n,
        decreases hi - lo,
    {
        let mid = (lo + hi + 1) / 2;
        proof {
            assert((mid as int) * (mid as int) <= 9_000_000_000_000) by (nonlinear_arith)
                requires
                    0 <= mid <= 3_000_000,
            ;
        }
        if mid * mid <= n {
            lo = mid;
        } else {
            hi = mid - 1;
        }
    }
    proof {
        lemma_isqrt_unique(n as int, lo as int);
    }
    lo
}

/// The Seek output: the vector from `position` to `target`, scaled to length
/// `max_speed` in fixed-point arithmetic (each component is d·max_speed
/// divided by the floor square root of |d|², rounded toward zero). Seeking
/// one's own position yields the zero vector.
pub open spec fn seek_spec(target: Point2, position: Point2, max_speed: i64) -> Point2 {
    let dx = target.x - position.x;
    let dy = target.y - position.y;
    if dx == 0 && dy == 0 {
        Point2 { x: 0, y: 0 }
    } else {
        let len = isqrt_spec(dx * dx + dy * dy);
        Point2 {
            x: trunc_div(dx * max_speed, len) as i64,
            y: trunc_div(dy * max_speed, len) as i64,
        }
    }
}

/// The KeepVertical output: bang-bang control toward the upright angle.
pub open spec fn keep_vertical_spec(angle: i64, max_speed: i64) -> i64 {
    if angle < 0 {
        max_speed
    } else if angle > 0 {
        (-max_speed) as i64
    } else {
        0
    }
}

/// One steering behavior of an agent, dispatched by variant.
#[derive(Clone, Copy)]
pub enum SteeringBehavior {
    Seek { target: Point2, position: Point2, max_speed: i64 },
    Flee { target: Point2, position: Point2, max_speed: i64 },
    KeepVertical { max_speed: i64, angle: i64 },
}

impl SteeringBehavior {
    /// Input fields a behavior accepts: bounded positions and speed.
    pub open spec fn wf(self) -> bool {
        match self {
            SteeringBehavior::Seek { target, position, max_speed } => in_bounds(target)
                && in_bounds(position) && 0 <= max_speed <= MAX_SPEED_BOUND,
            SteeringBehavior::Flee { target, position, max_speed } => in_bounds(target)
                && in_bounds(position) && 0 <= max_speed <= MAX_SPEED_BOUND,
            SteeringBehavior::KeepVertical { max_speed, angle } => 0 <= max_speed
                <= MAX_SPEED_BOUND,
        }
    }

    /// The linear steering output: Seek toward the target, Flee its exact
    /// negation, zero for behaviors without a linear output.
    pub open spec fn steering_spec(self) -> Point2 {
        match self {
            SteeringBehavior::Seek { target, position, max_speed } => seek_spec(
                target,
                position,
                max_speed,
            ),
            SteeringBehavior::Flee { target, position, max_speed } => {
                let s = seek_spec(target, position, max_speed);
                Point2 { x: (-s.x) as i64, y: (-s.y) as i64 }
            },
            SteeringBehavior::KeepVertical { .. } => Point2 { x: 0, y: 0 },
        }
    }

    /// The angular steering output: bang-bang for KeepVertical, zero for
    /// behaviors without an angular output.
    pub open spec fn angular_steering_spec(self) -> i64 {
        match self {
            SteeringBehavior::KeepVertical { max_speed, angle } => keep_vertical_spec(
                angle,
                max_speed,
            ),
            _ => 0,
        }
    }

    pub fn get_steering(&self) -> (r: Point2)
        requires
            self.wf(),
        ensures
            r == self.steering_spec(),
    {
        match *self {
            SteeringBehavior::Seek { target, position, max_speed } => seek_impl(
                target,
                position,
                max_speed,
            ),
            SteeringBehavior::Flee { target, position, max_speed } => {
                let s = seek_impl(target, position, max_speed);
                proof {
                    lemma_seek_component_bounds(target, position, max_speed);
                }
                Point2 { x: -s.x, y: -s.y }
            },
            SteeringBehavior::KeepVertical { .. } => Point2 { x: 0, y: 0 },
        }
    }

    pub fn get_angular_steering(&self) -> (r: i64)
        requires
            self.wf(),
        ensures
            r == self.angular_steering_spec(),
    {
        match *self {
            SteeringBehavior::KeepVertical { max_speed, angle } => {
                if angle < 0 {
                    max_speed
                } else if angle > 0 {
                    -max_speed
                } else {
                    0
                }
            },
            _ => 0,
        }
    }
}

fn seek_impl(target: Point2, position: Point2, max_speed: i64) -> (r: Point2)
    requires
        in_bounds(target),
        in_bounds(position),
        0 <= max_speed <= MAX_SPEED_BOUND,
    ensures
        r == seek_spec(target, position, max_speed),
{
    let dx = target.x - position.x;
    let dy = target.y - position.y;
    if dx == 0 && dy == 0 {
        return Point2 { x: 0, y: 0 };
    }
    proof {
        assert(0 <= (dx as int) * (dx as int) <= 4_000_000_000_000) by (nonlinear_arith)
            requires
                -2_000_000 <= dx <= 2_000_000,
        ;
        assert(0 <= (dy as int) * (dy as int) <= 4_000_000_000_000) by (nonlinear_arith)
            requires
                -2_000_000 <= dy <= 2_000_000,
        ;
    }
    proof {
        assert(dx != 0 ==> (dx as int) * (dx as int) >= 1) by (nonlinear_arith);
        assert(dy != 0 ==> (dy as int) * (dy as int) >= 1) by (nonlinear_arith);
    }
    let sq = (dx * dx + dy * dy) as u64;
    let len = isqrt64(sq);
    proof {
        lemma_isqrt_bounds(sq as int);
        assert(sq >= 1);
        assert(len >= 1);
        assert(-2_000_000_000_000 <= (dx as int) * (max_speed as int) <= 2_000_000_000_000)
            by (nonlinear_arith)
            requires
                -2_000_000 <= dx <= 2_000_000,
                0 <= max_speed <= 1_000_000,
        ;
        assert(-2_000_000_000_000 <= (dy as int) * (max_speed as int) <= 2_000_000_000_000)
            by (nonlinear_arith)
            requires
                -2_000_000 <= dy <= 2_000_000,
                0 <= max_speed <= 1_000_000,
        ;
    }
    let sx = crate::geom::div_trunc_i128((dx as i128) * (max_speed as i128), len as i128);
    let sy = crate::geom::div_trunc_i128((dy as i128) * (max_speed as i128), len as i128);
    Point2 { x: sx as i64, y: sy as i64 }
}

/// Seeking from a position to that same position steers nowhere: the output
/// is exactly the zero vector.
pub proof fn lemma_seek_at_target_is_zero(position: Point2, max_speed: i64)
    ensures
        seek_spec(position, position, max_speed) == (Point2 { x: 0, y: 0 }),
{
}

/// Fleeing is the exact negation of seeking with the same inputs.
pub proof fn lemma_flee_negates_seek(target: Point2, position: Point2, max_speed: i64)
    requires
        (SteeringBehavior::Seek { target, position, max_speed }).wf(),
    ensures
        ({
            let seek = (SteeringBehavior::Seek { target, position, max_speed }).steering_spec();
            let flee = (SteeringBehavior::Flee { target, position, max_speed }).steering_spec();
            flee.x == -seek.x && flee.y == -seek.y
        }),
{
    let s = seek_spec(target, position, max_speed);
    lemma_seek_component_bounds(target, position, max_speed);
}

proof fn lemma_seek_component_bounds(target: Point2, position: Point2, max_speed: i64)
    requires
        in_bounds(target),
        in_bounds(position),
        0 <= max_speed <= MAX_SPEED_BOUND,
    ensures
        -2_000_000_000_000 <= seek_spec(target, position, max_speed).x <= 2_000_000_000_000,
        -2_000_000_000_000 <= seek_spec(target, position, max_speed).y <= 2_000_000_000_000,
{
    let dx = target.x - position.x;
    let dy = target.y - position.y;
    if dx == 0 && dy == 0 {
    } else {
        assert(-2_000_000_000_000 <= dx * max_speed <= 2_000_000_000_000) by (nonlinear_arith)
            requires
                -2_000_000 <= dx <= 2_000_000,
                0 <= max_speed <= 1_000_000,
        ;
        assert(-2_000_000_000_000 <= dy * max_speed <= 2_000_000_000_000) by (nonlinear_arith)
            requires
                -2_000_000 <= dy <= 2_000_000,
                0 <= max_speed <= 1_000_000,
        ;
        let len = isqrt_spec(dx * dx + dy * dy);
        assert(dx * dx + dy * dy > 0) by (nonlinear_arith)
            requires
                dx != 0 || dy != 0,
        ;
        lemma_isqrt_bounds(dx * dx + dy * dy);
        assert(len >= 1);
        crate::geom::lemma_trunc_div_bound(dx * max_speed, len);
        crate::geom::lemma_trunc_div_bound(dy * max_speed, len);
    }
}

/// The KeepVertical output is +max for a negative angle, −max for a positive
/// angle and 0 at exactly zero, however small the angle's magnitude; there
/// is no deadband and no other value.
pub proof fn lemma_keep_vertical_bang_bang(angle: i64, max_speed: i64)
    requires
        (SteeringBehavior::KeepVertical { max_speed, angle }).wf(),
    ensures
        ({
            let out = (SteeringBehavior::KeepVertical { max_speed, angle }).angular_steering_spec();
            &&& angle < 0 ==> out == max_speed
            &&& angle > 0 ==> out == -max_speed
            &&& angle == 0 ==> out == 0
            &&& out == max_speed || out == -max_speed || out == 0
        }),
{
}

/// Refreshes one agent's behaviors from the world transforms and reads the
/// outputs back: the Seek force toward the player and the KeepVertical
/// torque, exactly as the behaviors state them.
pub fn update_monster_behaviors(
    monster_position: Point2,
    monster_angle: i64,
    player_position: Point2,
    seek_max_speed: i64,
    keep_vertical_max_speed: i64,
) -> (r: (Point2, i64))
    requires
        in_bounds(monster_position),
        in_bounds(player_position),
        0 <= seek_max_speed <= MAX_SPEED_BOUND,
        0 <= keep_vertical_max_speed <= MAX_SPEED_BOUND,
    ensures
        r.0 == seek_spec(player_position, monster_position, seek_max_speed),
        r.1 == keep_vertical_spec(monster_angle, keep_vertical_max_speed),
{
    let seek_behavior = SteeringBehavior::Seek {
        target: player_position,
        position: monster_position,
        max_speed: seek_max_speed,
    };
    let keep_vertical_behavior = SteeringBehavior::KeepVertical {
        max_speed: keep_vertical_max_speed,
        angle: monster_angle,
    };
    let force = seek_behavior.get_steering();
    let torque = keep_vertical_behavior.get_angular_steering();
    (force, torque)
}

/// One autonomous agent: its transform inputs refreshed from the world each
/// tick, and its behavior parameters.
#[derive(Clone, Copy)]
pub struct Monster {
    pub position: Point2,
    pub angle: i64,
    pub seek_max_speed: i64,
    pub keep_vertical_max_speed: i64,
}

impl Monster {
    pub open spec fn wf(self) -> bool {
        &&& in_bounds(self.position)
        &&& 0 <= self.seek_max_speed <= MAX_SPEED_BOUND
        &&& 0 <= self.keep_vertical_max_speed <= MAX_SPEED_BOUND
    }
}

/// The per-tick agent controller: refreshes every monster's behaviors from
/// the current transforms and reads back the force and torque to hand to the
/// physics engine, one pair per monster, in order.
pub fn update_monsters_behaviors(monsters: &Vec<Monster>, player_position: Point2) -> (r: Vec<
    (Point2, i64),
>)
    requires
        in_bounds(player_position),
        forall|i: int| 0 <= i < monsters@.len() ==> (#[trigger] monsters@[i]).wf(),
    ensures
        r@.len() == monsters@.len(),
        forall|i: int|
            0 <= i < r@.len() ==> (#[trigger] r@[i]).0 == seek_spec(
                player_position,
                monsters@[i].position,
                monsters@[i].seek_max_speed,
            ) && r@[i].1 == keep_vertical_spec(
                monsters@[i].angle,
                monsters@[i].keep_vertical_max_speed,
            ),
{
    let n = monsters.len();
    let mut r: Vec<(Point2, i64)> = Vec::new();
    let mut i: usize = 0;
    while i < n
        invariant
            n == monsters@.len(),
            0 <= i <= n,
            in_bounds(player_position),
            forall|j: int| 0 <= j < n ==> (#[trigger] monsters@[j]).wf(),
            r@.len() == i,
            forall|j: int|
                0 <= j < i ==> (#[trigger] r@[j]).0 == seek_spec(
                    player_position,
                    monsters@[j].position,
                    monsters@[j].seek_max_speed,
                ) && r@[j].1 == keep_vertical_spec(
                    monsters@[j].angle,
                    monsters@[j].keep_vertical_max_speed,
                ),
        decreases n - i,
    {
        let m = monsters[i];
        let out = update_monster_behaviors(
            m.position,
            m.angle,
            player_position,
            m.seek_max_speed,
            m.keep_vertical_max_speed,
        );
        r.push(out);
        i = i + 1;
    }
    r
}

} // verus!
