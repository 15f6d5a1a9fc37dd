//! Positional kinematics for articulated two-dimensional bodies.
//!
//! A body is a chain of nodes, each a cross-section with a position and a
//! radius. Every frame the head of the chain is drawn to a target, the tail
//! may be pinned to an anchor, neighbours are pulled together until none are
//! farther apart than the rest length, and bends beyond a fixed limit are
//! straightened. From the solved chain an outline is built, and fins, eyes
//! and legs find their places on it.
//!
//! All of it is done in whole numbers on a grid: coordinates are `i32`
//! steps, lengths are `u32` steps, and an angle is a cosine and a sine over
//! a fixed denominator. What a step is worth is for the caller to choose.
//! Whatever is rounded is rounded toward zero, so that a rope is never
//! stretched by rounding, and every function says exactly which point it
//! gives.
//!
//! - [`numeric`]: square roots in whole numbers.
//! - [`planar`]: points, vectors, and the roundings.
//! - [`rounding`]: what the roundings keep.
//! - [`chain`]: the chain and the two ways to lay one out.
//! - [`solver`]: the passes of a solve, and the solve.
//! - [`laws`]: what holds of every solve.
//! - [`skin`]: the outline of a chain.
//! - [`body_parts`]: where fins, eyes and legs go.

pub mod body_parts;
pub mod chain;
pub mod laws;
pub mod numeric;
pub mod planar;
pub mod rounding;
pub mod skin;
pub mod solver;
