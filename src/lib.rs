//! Win-probability estimation for a cooperative dice race: four fruit piles
//! are harvested by die rolls while a bird token advances towards the orchard.

pub mod estimator;
pub mod game;
mod dice;
