//! A fixed-size two-dimensional fluid solver in the "stable fluids" style:
//! a velocity field and a dye density are advanced tick by tick through
//! diffusion, pressure projection and backward-traced advection.
//!
//! Every cell holds the bit pattern of a binary64 number. The solver decides
//! which operations are applied to which cells and in which order; the four
//! rounded operations themselves are a parameter of each routine, so all that
//! is proved here holds for whatever arithmetic the caller runs it under.

pub mod arith;
pub mod bits;
pub mod grid;
pub mod fluid_cube_mod;
pub mod boundary;
pub mod solver;
pub mod projection;
pub mod advection;
pub mod rest;
pub mod dye;
