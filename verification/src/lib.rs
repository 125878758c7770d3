//! Multi-scale activator/inhibitor pattern synthesis on fixed-point grids.
//!
//! A run holds a field of values, a grid of colors and a handful of layers,
//! each working at its own spatial scale. At every step each layer looks at
//! the field smoothed at two radii (its activator and its inhibitor); every
//! pixel is then governed by the layer whose two smoothed values lie closest
//! there, takes on some of that layer's color, and moves up or down by that
//! layer's increment; finally the field is stretched back onto `-1 ..= 1`.
//!
//! Real quantities (field values, radii, increments, weights, blend ratios)
//! are carried as `i64` counts of `1 / UNIT`, and every quotient is rounded
//! toward zero, so a step is exact integer arithmetic and repeats bit for
//! bit. Smoothing itself is not part of this crate: the caller smooths the
//! field and hands the results to [`simulation::Simulation::step`].
//!
//! * [`fixed`]: arithmetic on raw values
//! * [`field`], [`color`]: the two kinds of grid
//! * [`scale`]: one layer
//! * [`compose`]: the per-pixel pass of a step
//! * [`random`]: the seeded choices made when a run is set up
//! * [`simulation`]: a run, its setup and its step
//! * [`agreement`]: what holds of every run

pub mod fixed;
pub mod field;
pub mod color;
pub mod scale;
pub mod compose;
pub mod random;
pub mod simulation;
pub mod agreement;
