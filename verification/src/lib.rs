//! Discrete core of a 2D flocking simulation.
//!
//! Agents ("boids") are steered toward a silhouette given as a sparse set of
//! target points. This crate holds every decision of a frame that is made on
//! whole numbers: the pseudo-random source, the bucket grid with its per-cell
//! agent chains, the multi-source flood fill that turns occupied cells into a
//! field of directions, the density-aware choice of each agent's goal, and the
//! recommended population. Positions, velocities and forces are real-valued
//! and live with the host; it hands the cell of each agent and target point
//! in, and reads the decisions back.

pub mod descent;
pub mod distance;
pub mod flow;
pub mod grid;
pub mod params;
pub mod prng;
pub mod sim;
pub mod spatial;
pub mod steer;

pub use crate::sim::{assign_targets, get_active_boid_count, init_boids, update_boids};
