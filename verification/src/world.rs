//! The world state: an arena of destructible obstacles keyed by
//! generation-checked handles, the two per-side beams, and the per-tick
//! systems that grow beams, react to ray hits, fragment obstacles and decay
//! debris.

use vstd::prelude::*;

use crate::beam::{growth_amount, Direction, LaserRay, INITIAL_HEIGHT, MAX_HEIGHT};
use crate::fragmenter::{fragment, spec_subdivide, ClassifiedPolygon, DESTRUCTIBLE_AREA2};
use crate::geom::{
    all_in_bounds, area2, in_bounds, polygon_signed_area2, trunc_div, wf_polygon,
    Point2,
};
use crate::rng::{rng_from_seed, rng_range_i64};

verus! {

/// Ticks a decaying debris fragment lives before it is despawned.
pub const DEBRIS_LIFETIME: i32 = 30;

/// A short-lived decaying marker: inert debris carries one and is despawned
/// when the lifetime runs out.
#[derive(Clone, Copy, PartialEq, Eq, Structural, Debug)]
pub struct Particle {
    pub lifetime: i32,
    pub direction: Point2,
}

impl Particle {
    pub fn new(direction: Point2, lifetime: i32) -> (r: Self)
        ensures
            r.lifetime == lifetime,
            r.direction == direction,
    {
        Particle { lifetime, direction }
    }
}

/// A floating obstacle: its convex collision polygon and whether a beam hit
/// fragments it.
pub struct Obstacle {
    pub vertices: Vec<Point2>,
    pub destructible: bool,
}

impl Obstacle {
    pub open spec fn wf(self) -> bool {
        wf_polygon(self.vertices@)
    }
}

/// A generation-checked handle to an obstacle slot: stale handles to a
/// reused slot do not resolve.
#[derive(Clone, Copy, PartialEq, Eq, Structural, Debug)]
pub struct ObstacleHandle {
    pub index: usize,
    pub generation: u64,
}

struct ObstacleSlot {
    generation: u64,
    occupant: Option<Obstacle>,
}

/// The obstacle store: a slot arena with per-slot generations.
pub struct ObstacleArena {
    slots: Vec<ObstacleSlot>,
}

impl ObstacleArena {
    /// A handle resolves while its slot is occupied and the generations match.
    pub closed spec fn valid(self, h: ObstacleHandle) -> bool {
        &&& h.index < self.slots@.len()
        &&& self.slots@[h.index as int].generation == h.generation
        &&& self.slots@[h.index as int].occupant is Some
    }

    /// The obstacle a valid handle resolves to.
    pub closed spec fn at(self, h: ObstacleHandle) -> Obstacle
        recommends
            self.valid(h),
    {
        self.slots@[h.index as int].occupant->0
    }

    /// How many slots the arena has ever allocated.
    pub closed spec fn num_slots(self) -> int {
        self.slots@.len() as int
    }

    /// The current generation of a slot.
    pub closed spec fn slot_gen(self, index: int) -> int {
        if 0 <= index < self.slots@.len() {
            self.slots@[index].generation as int
        } else {
            0
        }
    }

    /// Every stored obstacle is a well-formed polygon.
    pub closed spec fn wf(self) -> bool {
        forall|i: int|
            0 <= i < self.slots@.len() && self.slots@[i].occupant is Some
                ==> (#[trigger] self.slots@[i].occupant->0).wf()
    }

    pub fn new() -> (r: Self)
        ensures
            r.wf(),
            r.num_slots() == 0,
            forall|h: ObstacleHandle| !r.valid(h),
    {
        ObstacleArena { slots: Vec::new() }
    }

    pub fn get(&self, h: ObstacleHandle) -> (r: Option<&Obstacle>)
        ensures
            r is Some <==> self.valid(h),
            self.valid(h) ==> *r->0 == self.at(h),
    {
        if h.index < self.slots.len() {
            let slot = &self.slots[h.index];
            if slot.generation == h.generation {
                match &slot.occupant {
                    Some(ob) => Some(ob),
                    None => None,
                }
            } else {
                None
            }
        } else {
            None
        }
    }

    /// Stores an obstacle, reusing a free slot under a fresh generation, and
    /// hands back the one handle that resolves to it.
    pub fn insert(&mut self, ob: Obstacle) -> (h: ObstacleHandle)
        requires
            old(self).wf(),
            ob.wf(),
        ensures
            final(self).wf(),
            final(self).valid(h),
            final(self).at(h) == ob,
            !old(self).valid(h),
            forall|h2: ObstacleHandle|
                old(self).valid(h2) ==> h2 != h && final(self).valid(h2) && final(self).at(h2)
                    == old(self).at(h2),
            forall|h2: ObstacleHandle|
                h2 != h && !old(self).valid(h2) ==> !final(self).valid(h2),
            forall|h2: ObstacleHandle|
                h2.index == h.index ==> (final(self).valid(h2) <==> h2 == h),
            h.index >= old(self).num_slots() || h.generation > old(self).slot_gen(h.index as int),
            forall|idx: int| final(self).slot_gen(idx) >= old(self).slot_gen(idx),
            final(self).num_slots() >= old(self).num_slots(),
    {
        let n = self.slots.len();
        let mut i: usize = 0;
        while i < n
            invariant
                n == self.slots@.len(),
                0 <= i <= n,
                self == old(self),
                self.wf(),
                ob.wf(),
            decreases n - i,
        {
            let free = self.slots[i].occupant.is_none();
            let reusable = self.slots[i].generation < u64::MAX;
            if free && reusable {
                let g = self.slots[i].generation;
                self.slots[i] = ObstacleSlot { generation: g + 1, occupant: Some(ob) };
                let h = ObstacleHandle { index: i, generation: g + 1 };
                proof {
                    assert forall|j: int|
                        0 <= j < self.slots@.len() && self.slots@[j].occupant is Some implies (
                    #[trigger] self.slots@[j].occupant->0).wf() by {
                        if j != i {
                            assert(self.slots@[j] == old(self).slots@[j]);
                            assert((old(self).slots@[j].occupant->0).wf());
                        } else {
                            assert(self.slots@[j].occupant->0 == ob);
                        }
                    }
                }
                return h;
            }
            i = i + 1;
        }
        self.slots.push(ObstacleSlot { generation: 0, occupant: Some(ob) });
        let h = ObstacleHandle { index: n, generation: 0 };
        proof {
            assert forall|j: int|
                0 <= j < self.slots@.len() && self.slots@[j].occupant is Some implies (
            #[trigger] self.slots@[j].occupant->0).wf() by {
                if j != n {
                    assert(self.slots@[j] == old(self).slots@[j]);
                    assert((old(self).slots@[j].occupant->0).wf());
                } else {
                    assert(self.slots@[j].occupant->0 == ob);
                }
            }
        }
        h
    }

    /// Despawns the obstacle a handle resolves to; a handle that does not
    /// resolve despawns nothing. Despawning twice is a no-op.
    pub fn remove(&mut self, h: ObstacleHandle)
        requires
            old(self).wf(),
        ensures
            final(self).wf(),
            !final(self).valid(h),
            old(self).valid(h) ==> forall|h2: ObstacleHandle|
                h2.index == h.index ==> !final(self).valid(h2),
            forall|h2: ObstacleHandle|
                h2.index != h.index || !old(self).valid(h) ==> (final(self).valid(h2) == old(
                    self,
                ).valid(h2) && (old(self).valid(h2) ==> final(self).at(h2) == old(self).at(h2))),
            forall|idx: int| final(self).slot_gen(idx) == old(self).slot_gen(idx),
            final(self).num_slots() == old(self).num_slots(),
    {
        if h.index < self.slots.len() {
            if self.slots[h.index].generation == h.generation {
                let g = self.slots[h.index].generation;
                self.slots[h.index] = ObstacleSlot { generation: g, occupant: None };
                proof {
                    assert(self.slots@ =~= old(self).slots@.update(
                        h.index as int,
                        self.slots@[h.index as int],
                    ));
                }
            }
        }
    }
}

/// A nearest-hit ray query result handed in by the physics collaborator:
/// the obstacle that was hit and the distance along the ray.
#[derive(Clone, Copy)]
pub struct RayHit {
    pub target: ObstacleHandle,
    pub distance: i64,
}

/// The world: obstacles, the two per-side beams, the firing edge detector,
/// the decaying debris list and the seeded random generator.
pub struct World {
    pub obstacles: ObstacleArena,
    pub left_beam: Option<LaserRay>,
    pub right_beam: Option<LaserRay>,
    pub is_shooting: bool,
    pub debris: Vec<(ObstacleHandle, Particle)>,
    pub rng: rand::rngs::StdRng,
}

impl World {
    pub open spec fn wf(self) -> bool {
        &&& self.obstacles.wf()
        &&& (match self.left_beam {
            Option::Some(b) => b.wf(),
            Option::None => true,
        })
        &&& (match self.right_beam {
            Option::Some(b) => b.wf(),
            Option::None => true,
        })
        &&& forall|j: int|
            0 <= j < self.debris@.len() ==> (#[trigger] self.debris@[j]).1.lifetime >= 1
    }

    /// The beam of a side.
    pub open spec fn beam(self, side: Direction) -> Option<LaserRay> {
        match side {
            Direction::Left => self.left_beam,
            Direction::Right => self.right_beam,
        }
    }

    /// An empty world whose random stream is fixed by the seed.
    pub fn new(seed: u64) -> (w: World)
        ensures
            w.wf(),
            w.left_beam is None,
            w.right_beam is None,
            !w.is_shooting,
            w.debris@.len() == 0,
            forall|h: ObstacleHandle| !w.obstacles.valid(h),
            w.obstacles.num_slots() == 0,
    {
        World {
            obstacles: ObstacleArena::new(),
            left_beam: None,
            right_beam: None,
            is_shooting: false,
            debris: Vec::new(),
            rng: rng_from_seed(seed),
        }
    }

    /// Adds an obstacle after validating its polygon: at least three bounded
    /// vertices and a non-zero area. Malformed geometry is rejected.
    pub fn spawn_obstacle(&mut self, vertices: Vec<Point2>, destructible: bool) -> (r: Option<
        ObstacleHandle,
    >)
        requires
            old(self).wf(),
        ensures
            final(self).wf(),
            final(self).left_beam == old(self).left_beam,
            final(self).right_beam == old(self).right_beam,
            final(self).is_shooting == old(self).is_shooting,
            final(self).debris == old(self).debris,
            r is Some <==> wf_polygon(vertices@),
            r matches Some(h) ==> final(self).obstacles.valid(h) && final(self).obstacles.at(
                h,
            ).vertices@ == vertices@ && final(self).obstacles.at(h).destructible == destructible,
            r matches Some(h) ==> forall|h2: ObstacleHandle|
                old(self).obstacles.valid(h2) ==> h2 != h && final(self).obstacles.valid(h2)
                    && final(self).obstacles.at(h2) == old(self).obstacles.at(h2),
            r is None ==> final(self).obstacles == old(self).obstacles,
    {
        let n = vertices.len();
        if n < 3 {
            return None;
        }
        let mut i: usize = 0;
        while i < n
            invariant
                n == vertices@.len(),
                0 <= i <= n,
                self == old(self),
                self.wf(),
                forall|j: int| 0 <= j < i ==> in_bounds(#[trigger] vertices@[j]),
            decreases n - i,
        {
            let v = vertices[i];
            if v.x > crate::geom::COORD_BOUND || v.x < -crate::geom::COORD_BOUND || v.y
                > crate::geom::COORD_BOUND || v.y < -crate::geom::COORD_BOUND {
                proof {
                    assert(!in_bounds(vertices@[i as int]));
                }
                return None;
            }
            i = i + 1;
        }
        proof {
            assert(all_in_bounds(vertices@));
        }
        let a = polygon_signed_area2(&vertices);
        if a == 0 {
            return None;
        }
        let h = self.obstacles.insert(Obstacle { vertices, destructible });
        Some(h)
    }

    /// Input edge detection for the beams: on the rising edge of the fire
    /// input, while no beams live, one fresh beam is spawned per side.
    /// Releasing the input is handled by `lasers`, one tick later.
    pub fn laser_eyes(&mut self, shooting: bool)
        requires
            old(self).wf(),
        ensures
            final(self).wf(),
            final(self).obstacles == old(self).obstacles,
            final(self).debris == old(self).debris,
            final(self).is_shooting == shooting,
            (!old(self).is_shooting && shooting) ==> final(self).left_beam == Some(
                (LaserRay { height: INITIAL_HEIGHT, position: Direction::Left }),
            ) && final(self).right_beam == Some(
                (LaserRay { height: INITIAL_HEIGHT, position: Direction::Right }),
            ),
            !(!old(self).is_shooting && shooting) ==> final(self).left_beam == old(self).left_beam
                && final(self).right_beam == old(self).right_beam,
    {
        if !self.is_shooting {
            if shooting {
                self.is_shooting = true;
                self.left_beam = Some(LaserRay::new(Direction::Left));
                self.right_beam = Some(LaserRay::new(Direction::Right));
            }
        } else {
            self.is_shooting = shooting;
        }
    }

    /// The length a growing beam reaches this tick before any hit clamp.
    pub open spec fn grown_height(h: int, dt_micros: u32) -> int {
        if h + growth_amount(dt_micros) <= MAX_HEIGHT {
            h + growth_amount(dt_micros)
        } else {
            MAX_HEIGHT as int
        }
    }

    /// The beam length after the hit clamp.
    pub open spec fn clamped_height(g: int, hit: Option<RayHit>) -> int {
        match hit {
            Option::Some(rh) => if rh.distance < g {
                rh.distance as int
            } else {
                g
            },
            Option::None => g,
        }
    }

    /// One tick of one side's beam. While fire is released the beam is
    /// despawned (a missing beam is a no-op). While fire is held the beam
    /// grows, is clamped to the hit distance, and a hit on a valid,
    /// destructible obstacle despawns it and spawns its classified fragments,
    /// each with a small random torque impulse; inert fragments join the
    /// decaying debris list.
    pub fn lasers(
        &mut self,
        side: Direction,
        shooting: bool,
        dt_micros: u32,
        hit: Option<RayHit>,
    ) -> (spawned: Vec<(ObstacleHandle, i64)>)
        requires
            old(self).wf(),
            hit matches Some(rh) ==> rh.distance >= 0,
        ensures
            final(self).wf(),
            final(self).is_shooting == old(self).is_shooting,
            forall|s2: Direction| s2 != side ==> final(self).beam(s2) == old(self).beam(s2),
            !shooting ==> (final(self).beam(side) is None) && final(self).obstacles == old(
                self,
            ).obstacles && final(self).debris == old(self).debris && spawned@.len() == 0,
            shooting && (old(self).beam(side) is None) ==> (final(self).beam(side) is None)
                && final(self).obstacles == old(self).obstacles && final(self).debris == old(
                self,
            ).debris && spawned@.len() == 0,
            (shooting && (old(self).beam(side) is Some)) ==> final(self).beam(side) == Some(
                (LaserRay {
                    height: Self::clamped_height(
                        Self::grown_height(old(self).beam(side)->0.height as int, dt_micros),
                        hit,
                    ) as i64,
                    position: old(self).beam(side)->0.position,
                }),
            ),
            (shooting && (old(self).beam(side) is Some) && ((hit is None) || ((hit is Some)
                && !(old(self).obstacles.valid(hit->0.target) && old(self).obstacles.at(
                hit->0.target,
            ).destructible)))) ==> final(self).obstacles == old(self).obstacles && final(self).debris == old(self).debris && spawned@.len() == 0,
            (shooting && (old(self).beam(side) is Some) && (hit is Some) && old(
                self,
            ).obstacles.valid(hit->0.target) && old(self).obstacles.at(
                hit->0.target,
            ).destructible) ==> ({
                let target = hit->0.target;
                let frs = spec_subdivide(old(self).obstacles.at(target).vertices@);
                &&& !final(self).obstacles.valid(target)
                &&& spawned@.len() == frs.len()
                &&& forall|j: int|
                    0 <= j < spawned@.len() ==> final(self).obstacles.valid(
                        (#[trigger] spawned@[j]).0,
                    ) && final(self).obstacles.at(spawned@[j].0).vertices@ == frs[j] && (final(self).obstacles.at(spawned@[j].0).destructible <==> area2(frs[j])
                        >= DESTRUCTIBLE_AREA2) && -20 <= spawned@[j].1 < 20
                &&& forall|h2: ObstacleHandle|
                    h2 != target && old(self).obstacles.valid(h2) ==> final(self).obstacles.valid(h2) && final(self).obstacles.at(h2) == old(self).obstacles.at(
                        h2,
                    )
                &&& old(self).debris@.is_prefix_of(final(self).debris@)
            }),
    {
        let empty: Vec<(ObstacleHandle, i64)> = Vec::new();
        if !shooting {
            self.set_beam(side, None);
            return empty;
        }
        let b_opt: Option<LaserRay> = match side {
            Direction::Left => self.left_beam,
            Direction::Right => self.right_beam,
        };
        let mut beam = match b_opt {
            None => {
                return empty;
            },
            Some(b) => b,
        };
        beam.grow(dt_micros);
        let spawned: Vec<(ObstacleHandle, i64)> = match hit {
            None => empty,
            Some(rh) => {
                beam.clamp_to_hit(rh.distance);
                self.destroy_and_spawn(rh.target)
            },
        };
        self.set_beam(side, Some(beam));
        spawned
    }

    fn set_beam(&mut self, side: Direction, b: Option<LaserRay>)
        ensures
            final(self).beam(side) == b,
            forall|s2: Direction| s2 != side ==> final(self).beam(s2) == old(self).beam(s2),
            final(self).obstacles == old(self).obstacles,
            final(self).debris == old(self).debris,
            final(self).is_shooting == old(self).is_shooting,
            old(self).wf() && (b matches Some(beam) ==> beam.wf()) ==> final(self).wf(),
    {
        match side {
            Direction::Left => {
                self.left_beam = b;
            },
            Direction::Right => {
                self.right_beam = b;
            },
        }
    }

    /// A destructible obstacle hit by a beam is despawned the same tick and
    /// replaced by its classified fragments; a handle that does not resolve,
    /// or resolves to an inert obstacle, changes nothing.
    fn destroy_and_spawn(&mut self, target: ObstacleHandle) -> (spawned: Vec<(ObstacleHandle, i64)>)
        requires
            old(self).wf(),
        ensures
            final(self).wf(),
            final(self).left_beam == old(self).left_beam,
            final(self).right_beam == old(self).right_beam,
            final(self).is_shooting == old(self).is_shooting,
            !(old(self).obstacles.valid(target) && old(self).obstacles.at(target).destructible)
                ==> final(self).obstacles == old(self).obstacles && final(self).debris == old(
                self,
            ).debris && spawned@.len() == 0,
            (old(self).obstacles.valid(target) && old(self).obstacles.at(target).destructible)
                ==> ({
                let frs = spec_subdivide(old(self).obstacles.at(target).vertices@);
                &&& !final(self).obstacles.valid(target)
                &&& spawned@.len() == frs.len()
                &&& forall|j: int|
                    0 <= j < spawned@.len() ==> final(self).obstacles.valid(
                        (#[trigger] spawned@[j]).0,
                    ) && final(self).obstacles.at(spawned@[j].0).vertices@ == frs[j] && (final(self).obstacles.at(spawned@[j].0).destructible <==> area2(frs[j])
                        >= DESTRUCTIBLE_AREA2) && -20 <= spawned@[j].1 < 20
                &&& forall|h2: ObstacleHandle|
                    h2 != target && old(self).obstacles.valid(h2) ==> final(self).obstacles.valid(
                        h2,
                    ) && final(self).obstacles.at(h2) == old(self).obstacles.at(h2)
                &&& old(self).debris@.is_prefix_of(final(self).debris@)
            }),
    {
        let mut spawned: Vec<(ObstacleHandle, i64)> = Vec::new();
        let mut frags: Vec<ClassifiedPolygon> = Vec::new();
        let mut destroy = false;
        match self.obstacles.get(target) {
            None => {},
            Some(ob) => {
                if ob.destructible {
                    frags = fragment(&ob.vertices);
                    destroy = true;
                }
            },
        }
        if !destroy {
            return spawned;
        }
        let ghost arena0 = self.obstacles;
        let ghost frs = spec_subdivide(self.obstacles.at(target).vertices@);
        let ghost debris0 = self.debris@;
        self.obstacles.remove(target);
        let ghost arena1 = self.obstacles;
        let m = frags.len();
        let mut i: usize = 0;
        while i < m
            invariant
                m == frags@.len(),
                m == frs.len(),
                forall|j: int|
                    0 <= j < m ==> (#[trigger] frags@[j]).vertices@ == frs[j] && wf_polygon(
                        frags@[j].vertices@,
                    ) && (frags@[j].destructible <==> area2(frs[j]) >= DESTRUCTIBLE_AREA2),
                0 <= i <= m,
                spawned@.len() == i,
                self.obstacles.wf(),
                self.left_beam == old(self).left_beam,
                self.right_beam == old(self).right_beam,
                self.is_shooting == old(self).is_shooting,
                arena0.valid(target),
                target.index < arena1.num_slots(),
                arena1.slot_gen(target.index as int) == target.generation as int,
                !self.obstacles.valid(target),
                forall|idx: int| self.obstacles.slot_gen(idx) >= arena1.slot_gen(idx),
                self.obstacles.num_slots() >= arena1.num_slots(),
                forall|h2: ObstacleHandle|
                    h2 != target && arena0.valid(h2) ==> self.obstacles.valid(h2)
                        && self.obstacles.at(h2) == arena0.at(h2),
                forall|j: int|
                    0 <= j < i ==> self.obstacles.valid((#[trigger] spawned@[j]).0)
                        && self.obstacles.at(spawned@[j].0).vertices@ == frs[j] && (
                    self.obstacles.at(spawned@[j].0).destructible <==> area2(frs[j])
                        >= DESTRUCTIBLE_AREA2) && -20 <= spawned@[j].1 < 20,
                debris0.is_prefix_of(self.debris@),
                forall|j: int|
                    0 <= j < self.debris@.len() ==> (#[trigger] self.debris@[j]).1.lifetime >= 1,
            decreases m - i,
        {
            let verts = crate::fragmenter::copy_points(&frags[i].vertices);
            let destructible = frags[i].destructible;
            let torque = rng_range_i64(&mut self.rng, -20, 20);
            let ghost before = self.obstacles;
            let hnew = self.obstacles.insert(Obstacle { vertices: verts, destructible });
            proof {
                if hnew.index == target.index {
                    assert(hnew.generation > before.slot_gen(hnew.index as int));
                    assert(before.slot_gen(target.index as int) >= arena1.slot_gen(
                        target.index as int,
                    ));
                    assert(hnew != target);
                }
                assert(!self.obstacles.valid(target));
            }
            if !destructible {
                self.debris.push((hnew, Particle::new(Point2 { x: 0, y: 0 }, DEBRIS_LIFETIME)));
                proof {
                    assert(debris0.is_prefix_of(self.debris@));
                }
            }
            spawned.push((hnew, torque));
            i = i + 1;
        }
        spawned
    }

    /// Ticks the decaying debris: each lifetime falls by one, and debris
    /// whose lifetime runs out is despawned together with its obstacle.
    pub fn particles(&mut self)
        requires
            old(self).wf(),
        ensures
            final(self).wf(),
            final(self).left_beam == old(self).left_beam,
            final(self).right_beam == old(self).right_beam,
            final(self).is_shooting == old(self).is_shooting,
            final(self).debris@ == decayed_entries(old(self).debris@, old(self).debris@.len() as int),
            forall|h: ObstacleHandle|
                final(self).obstacles.valid(h) ==> old(self).obstacles.valid(h) && final(self).obstacles.at(h) == old(self).obstacles.at(h),
            forall|h: ObstacleHandle|
                old(self).obstacles.valid(h) && !expires(old(self).debris@, h) ==> final(self).obstacles.valid(h) && final(self).obstacles.at(h) == old(self).obstacles.at(h),
    {
        let ghost d0 = self.debris@;
        let n = self.debris.len();
        let mut new_list: Vec<(ObstacleHandle, Particle)> = Vec::new();
        let mut i: usize = 0;
        while i < n
            invariant
                n == d0.len(),
                self.debris@ == d0,
                forall|j: int| 0 <= j < d0.len() ==> (#[trigger] d0[j]).1.lifetime >= 1,
                0 <= i <= n,
                new_list@ == decayed_entries(d0, i as int),
                forall|j: int| 0 <= j < new_list@.len() ==> (#[trigger] new_list@[j]).1.lifetime >= 1,
                self.obstacles.wf(),
                self.left_beam == old(self).left_beam,
                self.right_beam == old(self).right_beam,
                self.is_shooting == old(self).is_shooting,
                forall|h: ObstacleHandle|
                    self.obstacles.valid(h) ==> old(self).obstacles.valid(h)
                        && self.obstacles.at(h) == old(self).obstacles.at(h),
                forall|h: ObstacleHandle|
                    old(self).obstacles.valid(h) && !expires(d0.subrange(0, i as int), h)
                        ==> self.obstacles.valid(h) && self.obstacles.at(h) == old(
                        self,
                    ).obstacles.at(h),
            decreases n - i,
        {
            let (h, p) = self.debris[i];
            let ghost pre = self.obstacles;
            if p.lifetime == 1 {
                self.obstacles.remove(h);
            } else {
                new_list.push(
                    (h, Particle { lifetime: p.lifetime - 1, direction: p.direction }),
                );
            }
            proof {
                assert(d0.subrange(0, i + 1) =~= d0.subrange(0, i as int).push(d0[i as int]));
                assert forall|h2: ObstacleHandle|
                    old(self).obstacles.valid(h2) && !expires(d0.subrange(0, i + 1), h2) implies
                    self.obstacles.valid(h2) && self.obstacles.at(h2) == old(self).obstacles.at(
                    h2,
                ) by {
                    if expires(d0.subrange(0, i as int), h2) {
                        let j = choose|j: int|
                            0 <= j < i && (#[trigger] d0.subrange(0, i as int)[j]).0 == h2
                                && d0.subrange(0, i as int)[j].1.lifetime == 1;
                        assert(d0.subrange(0, i + 1)[j].0 == h2);
                        assert(d0.subrange(0, i + 1)[j].1.lifetime == 1);
                        assert(expires(d0.subrange(0, i + 1), h2));
                    }
                    assert(!expires(d0.subrange(0, i as int), h2));
                    if p.lifetime == 1 {
                        assert(!(d0.subrange(0, i + 1)[i as int].0 == h2 && d0.subrange(
                            0,
                            i + 1,
                        )[i as int].1.lifetime == 1));
                        assert(h2 != h);
                        assert(pre.valid(h2));
                    }
                }
            }
            i = i + 1;
        }
        proof {
            assert(d0.subrange(0, n as int) =~= d0);
        }
        self.debris = new_list;
    }
}

/// One decay step of the debris list: each of the first `k` lifetimes falls
/// by one and the entries that run out leave the list.
pub open spec fn decayed_entries(s: Seq<(ObstacleHandle, Particle)>, k: int) -> Seq<
    (ObstacleHandle, Particle),
>
    decreases k,
{
    if k <= 0 {
        Seq::empty()
    } else {
        let rest = decayed_entries(s, k - 1);
        let e = s[k - 1];
        if e.1.lifetime == 1 {
            rest
        } else {
            rest.push(
                (e.0, Particle { lifetime: (e.1.lifetime - 1) as i32, direction: e.1.direction }),
            )
        }
    }
}

/// Whether a debris entry for this handle runs out on this tick.
pub open spec fn expires(s: Seq<(ObstacleHandle, Particle)>, h: ObstacleHandle) -> bool {
    exists|j: int| 0 <= j < s.len() && (#[trigger] s[j]).0 == h && s[j].1.lifetime == 1
}

/// The control state read from the input collaborator each tick.
pub struct Controls {
    pub rotation: Option<Direction>,
    pub propulsion: bool,
    pub shooting: bool,
}

/// Maps the pressed state of the four logical actions onto the control
/// state: steer left wins over steer right, thrust and fire are direct.
pub fn controls(left: bool, right: bool, up: bool, space: bool) -> (c: Controls)
    ensures
        c.rotation == (if left {
            Option::Some(Direction::Left)
        } else if right {
            Option::Some(Direction::Right)
        } else {
            Option::<Direction>::None
        }),
        c.propulsion == up,
        c.shooting == space,
{
    let rotation = if left {
        Some(Direction::Left)
    } else if right {
        Some(Direction::Right)
    } else {
        None
    };
    Controls { rotation, propulsion: up, shooting: space }
}

/// Player outputs for one tick: the angular velocity the rotation input
/// commands (±5 world rad/s), and the thrust impulse of 1.5 units along the
/// facing direction while thrusting.
pub fn player(c: &Controls, facing: Point2) -> (r: (i64, Point2))
    requires
        in_bounds(facing),
    ensures
        r.0 == (match c.rotation {
            Option::Some(Direction::Left) => 5_000int,
            Option::Some(Direction::Right) => -5_000int,
            Option::None => 0int,
        }),
        r.1 == (if c.propulsion {
            Point2 { x: trunc_div(3 * facing.x, 2) as i64, y: trunc_div(3 * facing.y, 2) as i64 }
        } else {
            Point2 { x: 0, y: 0 }
        }),
{
    let angvel: i64 = match c.rotation {
        Some(Direction::Left) => 5_000,
        Some(Direction::Right) => -5_000,
        None => 0,
    };
    let impulse = if c.propulsion {
        let ix = crate::geom::div_trunc_i128(3 * (facing.x as i128), 2);
        let iy = crate::geom::div_trunc_i128(3 * (facing.y as i128), 2);
        Point2 { x: ix as i64, y: iy as i64 }
    } else {
        Point2 { x: 0, y: 0 }
    };
    (angvel, impulse)
}

/// Squared distance between two points.
pub open spec fn dist2(a: Point2, b: Point2) -> int {
    (a.x - b.x) * (a.x - b.x) + (a.y - b.y) * (a.y - b.y)
}

/// A candidate position is too close to an already placed obstacle when it
/// lies within the largest obstacle radius plus a margin (11 world units).
pub open spec fn too_close_to_other(t: Point2, others: Seq<Point2>) -> bool {
    exists|j: int| 0 <= j < others.len() && dist2(#[trigger] others[j], t) <= 121_000_000
}

/// A candidate position overlaps the player's spawn box, padded by the
/// largest obstacle radius.
pub open spec fn too_close_to_player(t: Point2) -> bool {
    t.x + 6_000 > -2_200 && t.x - 6_000 < 2_200 && t.y + 6_000 > -5_600 && t.y - 6_000 < 5_600
}

/// Placement rejection for world spawn: a new obstacle may stand only clear
/// of every already placed obstacle and of the player's spawn box.
pub fn asteroid_placement_ok(translation: Point2, others: &Vec<Point2>) -> (ok: bool)
    requires
        in_bounds(translation),
        all_in_bounds(others@),
    ensures
        ok == (!too_close_to_other(translation, others@) && !too_close_to_player(translation)),
{
    let n = others.len();
    let mut i: usize = 0;
    while i < n
        invariant
            n == others@.len(),
            0 <= i <= n,
            in_bounds(translation),
            all_in_bounds(others@),
            forall|j: int| 0 <= j < i ==> dist2(#[trigger] others@[j], translation) > 121_000_000,
        decreases n - i,
    {
        let o = others[i];
        let dx = o.x - translation.x;
        let dy = o.y - translation.y;
        proof {
            assert(0 <= (dx as int) * (dx as int) <= 4_000_000_000_000) by (nonlinear_arith)
                requires
                    -2_000_000 <= dx <= 2_000_000,
            ;
            assert(0 <= (dy as int) * (dy as int) <= 4_000_000_000_000) by (nonlinear_arith)
                requires
                    -2_000_000 <= dy <= 2_000_000,
            ;
        }
        let d2 = dx * dx + dy * dy;
        if d2 <= 121_000_000 {
            proof {
                assert(dist2(others@[i as int], translation) <= 121_000_000);
            }
            return false;
        }
        i = i + 1;
    }
    let tx = translation.x;
    let ty = translation.y;
    if tx + 6_000 > -2_200 && tx - 6_000 < 2_200 && ty + 6_000 > -5_600 && ty - 6_000 < 5_600 {
        return false;
    }
    true
}

} // verus!
