//! Adaptive embedded Runge-Kutta propagation of satellite states.
//!
//! The engine integrates a state vector (and, when a covariance is attached,
//! the variational equations for a 6x6 state-transition matrix) with an
//! embedded Runge-Kutta method, adaptive step-size control and optional
//! dense-output interpolation.  All arithmetic is exact fixed-point
//! arithmetic over scaled integers, so every numeric step of the engine is
//! stated and proved, down to the rounding of each operation.

pub mod fx;
pub mod tableau;
pub mod ode;
pub mod stepper;
pub mod control;
pub mod satstate;
