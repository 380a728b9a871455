//! The simulated world: the grid, organisms and the simulation engine.

pub mod grid;
pub mod organism;
pub mod simulation;
pub mod occupancy;
pub mod rules;
