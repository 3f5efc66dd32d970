//! Core of a 2D "particle life" simulation: particles on the unit torus,
//! each tagged with a species, move under pairwise attraction and
//! repulsion forces drawn from a per-species-pair coefficient matrix.
//!
//! All simulation quantities are fixed-point integers with [`fixed::SCALE`]
//! units to one, so every step of the simulation is an exact, fully
//! specified function of the previous state.

pub mod fixed;
pub mod kernel;
pub mod rng;
pub mod sim;

pub use kernel::Vec2;
pub use kernel::get_attraction_force;
pub use sim::SimData;
pub use sim::SimSettings;
