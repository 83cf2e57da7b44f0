//! A particle simulation core on fixed-point coordinates: point masses that
//! accumulate forces, integrate once per frame, take a heat colour from their
//! distance to a reference point, and are spawned and culled by a system that
//! owns them.
pub mod geometry;
pub mod root_math;
pub mod particle;
pub mod system;
