//! Simulation core of a side-view arcade shooter: polygon fragmentation of
//! destructible obstacles, growing raycast beams, and a small steering
//! framework for autonomous agents.
//!
//! Geometry is carried in fixed-point coordinates: one unit is 1/1000 of a
//! world unit, so world quantities (areas, lengths, speeds) appear scaled by
//! 1000. Rendering, input polling and the physics engine itself are external
//! collaborators; this crate holds the logic that decides what to query and
//! how to react.

pub mod beam;
pub mod fragmenter;
pub mod geom;
pub mod rng;
pub mod steering;
pub mod world;
