//! A verified cloth simulation: a grid of point masses linked by
//! distance constraints, advanced one fixed time step per frame by
//! Verlet integration with constraint relaxation, and supporting
//! interactive removal of the constraint nearest a query point.
//!
//! All scalars are fixed-point `i64` values (see [`fixed`]); every
//! public operation carries a contract that pins down the resulting
//! state exactly, and the laws of the simulation (pinned particles
//! never move, cutting never adds constraints, relaxation conserves a
//! free pair's midpoint and converges to the rest length) are proved
//! alongside the code.

pub mod fixed;
pub mod vec2;
pub mod point;
pub mod force_funcs;
pub mod stick;
pub mod cloth;
