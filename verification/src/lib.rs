//! An elevator-dispatch playground: the elevator API that an algorithm sees,
//! the algorithm itself (a reducer over its own state), the catalogue of
//! challenges and the discrete part of the building simulation.

pub mod game;
pub mod reducer;
pub mod challenges;
pub mod sim;
