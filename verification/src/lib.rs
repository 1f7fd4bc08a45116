//! An all-pairs elastic-collision simulator for point masses in the plane.
//!
//! Coordinates, velocities, masses and radii are fixed-point numbers: signed
//! 64-bit counts of thousandths of a unit. Every operation's result is pinned
//! down exactly by its contract over the mathematical integers.

pub mod fixed;
pub mod particle;
pub mod vec2d;
pub mod world;
