//! A verified Barnes-Hut gravitational N-body core.
//!
//! The crate simulates point masses under Newtonian gravity over discrete
//! time steps.  Forces are evaluated either by direct O(N^2) summation or
//! through an octree whose per-node aggregates stand in for distant groups
//! of particles (the multipole acceptance criterion).  All state is held in
//! exact fixed-point integers, so every function carries a contract that
//! pins its result down exactly.

pub mod codec;
pub mod gravity;
pub mod integrate;
pub mod laws;
pub mod parallel;
pub mod particle;
pub mod query;
pub mod rng;
pub mod scalar;
pub mod sim;
pub mod tree;
pub mod vector;
