//! Synthetic motion data for small formations of mobile robots, computed in
//! fixed-point arithmetic.

pub mod base;
pub mod control;
pub mod dubins;
pub mod error;
pub mod fixed;
pub mod generator;
pub mod random;
pub mod record;
pub mod report;
pub mod sensor;
pub mod simulation;
pub mod trajectory;
