//! Gameplay core of a top-down arena game: a controllable actor moves on a
//! 2D plane, deploys timed explosive devices, and each device detonates into
//! a pair of area-effect hazards that damage overlapping actors.
//!
//! All positions are integer plane coordinates and all times are integer
//! clock ticks; the caller picks the scale of a tick. Rendering, input
//! delivery and windowing are collaborators outside this crate: they feed a
//! per-step input snapshot and a clock delta in, and read entity positions
//! and spawn/despawn events out.

pub mod entity;
pub mod geom;
pub mod input;
pub mod laws;
pub mod store;
pub mod world;
