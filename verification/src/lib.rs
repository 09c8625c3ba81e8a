//! A 2D incompressible-fluid simulation ("stable fluids") on a fixed
//! rectangular grid: a velocity field advects itself and a scalar dye field,
//! subject to diffusion, pressure projection, and reflective boundary
//! conditions, at a fixed timestep.
//!
//! All field values are exact fixed-point scalars (`scalar::Scalar`), so every
//! phase of the solver has a precise functional contract.

pub mod constant;
pub mod coords;
pub mod fluid;
pub mod math;
pub mod matrix;
pub mod scalar;
pub mod time;
pub mod utils;
pub mod vector;
