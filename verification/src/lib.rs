//! The kernel of a two-dimensional particle simulation: a box of discs that
//! fly freely, bounce off the walls and collide elastically.
//!
//! The kernel decides, and it does not compute. Arithmetic on real numbers
//! (where a particle is after a flight, how far two centres are apart, what
//! velocities an elastic collision leaves) is handed in by the caller as an
//! [`particle::Arithmetic`]. Everything that is decided from those numbers
//! is decided here: how many particles a run starts with, when a particle
//! turns round at a wall, the order of the particles along the x axis, which
//! pairs a sweep looks at and which it lists, whether two particles that
//! have met are left to part, and the order in which the velocities after a
//! collision are written back.
//!
//! Real numbers are IEEE 754 binary64 values, each held by its bit pattern
//! in a `u64`. The kernel compares them and changes their sign; see
//! [`scalar`].

pub mod particle;
pub mod scalar;
pub mod sorting;
pub mod step;
pub mod sweep_prune;
pub mod utils;
