//! The laser beam entity: one per side, with a monotonically growing length
//! that is clamped to a maximum and to the most recent ray hit distance.

use vstd::prelude::*;

verus! {

/// A side of the owner: which eye a beam is fired from, or a turn direction.
#[derive(Clone, Copy, PartialEq, Eq, Structural, Debug)]
pub enum Direction {
    Left,
    Right,
}

/// Length of a freshly spawned beam (0.1 world units).
pub const INITIAL_HEIGHT: i64 = 100;

/// Longest a beam can grow (40 world units).
pub const MAX_HEIGHT: i64 = 40_000;

/// Beam growth rate in fixed-point units per second (600 world units/s).
pub const GROWTH_RATE: i64 = 600_000;

/// How far a beam grows in `dt_micros` microseconds: rate·dt, rounded down.
pub open spec fn growth_amount(dt_micros: u32) -> int {
    (GROWTH_RATE * dt_micros) / 1_000_000
}

/// A live beam: its current length and the side it is fired from.
#[derive(Clone, Copy, PartialEq, Eq, Structural, Debug)]
pub struct LaserRay {
    pub height: i64,
    pub position: Direction,
}

impl LaserRay {
    /// A beam length is never negative and never beyond the maximum.
    pub open spec fn wf(self) -> bool {
        0 <= self.height <= MAX_HEIGHT
    }

    /// A fresh beam starts at the initial length.
    pub fn new(position: Direction) -> (r: Self)
        ensures
            r.height == INITIAL_HEIGHT,
            r.position == position,
            r.wf(),
    {
        LaserRay { height: INITIAL_HEIGHT, position }
    }

    /// One tick of growth: the length rises by rate·dt and is clamped to the
    /// maximum. The length never decreases here.
    pub fn grow(&mut self, dt_micros: u32)
        requires
            old(self).wf(),
        ensures
            final(self).wf(),
            final(self).height == if old(self).height + growth_amount(dt_micros) <= MAX_HEIGHT {
                old(self).height + growth_amount(dt_micros)
            } else {
                MAX_HEIGHT as int
            },
            final(self).height >= old(self).height,
            final(self).position == old(self).position,
    {
        let delta = (600_000u64 * (dt_micros as u64)) / 1_000_000u64;
        proof {
            assert(600_000 * (dt_micros as int) / 1_000_000 <= 600_000 * (dt_micros as int));
            assert(delta == growth_amount(dt_micros));
        }
        let h = self.height + (delta as i64);
        self.height = if h > MAX_HEIGHT {
            MAX_HEIGHT
        } else {
            h
        };
    }

    /// Clamps the length to the most recent hit distance: the beam stops at
    /// the obstacle it hit.
    pub fn clamp_to_hit(&mut self, hit_distance: i64)
        requires
            old(self).wf(),
            hit_distance >= 0,
        ensures
            final(self).wf(),
            final(self).height == if hit_distance < old(self).height {
                hit_distance as int
            } else {
                old(self).height as int
            },
            final(self).height <= old(self).height,
            final(self).height <= hit_distance,
            final(self).position == old(self).position,
    {
        if hit_distance < self.height {
            self.height = hit_distance;
        }
    }
}

} // verus!
