//! Gameplay simulation for a sandwich-assembly arcade game: an ingredient
//! queue feeding sandwich slots, and a line of customers whose requests are
//! matched against those slots.
//!
//! Positions are integer points measured in tenths of a pixel and time is
//! measured in whole milliseconds, so every rule of the simulation is exact.
pub mod moving_target;
pub mod customer;
pub mod input;
pub mod random;
pub mod sandwitch;
pub mod session;
