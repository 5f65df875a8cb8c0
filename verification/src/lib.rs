//! A grid-based incompressible fluid solver in the "stable fluids" style:
//! boundary enforcement, iterative diffusion, pressure projection and
//! semi-Lagrangian advection of velocity and smoke fields on a fixed
//! rectangular grid.
//!
//! Field values are fixed-point numbers (see [`fixed`]): an `i64` holds the
//! physical value scaled by [`fixed::FX_ONE`].  Every solver pass states in
//! its contract exactly which cells it writes and what value each one gets.

pub mod advect;
pub mod boundary;
pub mod fixed;
pub mod grid;
pub mod inject;
pub mod linsolve;
pub mod model;
pub mod project;
pub mod staggered;
