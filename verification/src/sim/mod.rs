//! The discrete part of the building simulation.

pub mod consistency;
pub mod laws;
pub mod passenger;
pub mod physics;
pub mod random;
pub mod stats;
pub mod world;

pub use passenger::{PassengerState, SimPassenger};
pub use physics::SimElevator;
pub use stats::{Seconds, Stats};
pub use world::{FloorButtons, Outcome, World};
