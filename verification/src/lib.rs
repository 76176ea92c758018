//! The physics and explosion logic of a fireworks display: shells that rise
//! under gravity and an acceleration policy, and burst into child shells when
//! their lifetime runs out.
//!
//! Every scalar is an integer that counts millionths: of a unit of length, of
//! a unit per second, of a second, of a turn (see [`fixed`]). Nothing here
//! draws a number but the functions of [`random`], and nothing reads a clock,
//! so a run is a function of the shells that are handed in, of the times that
//! pass and of the numbers drawn for it.
//!
//! A host builds fireworks with the recipes of [`shells`], hands them to a
//! [`simulation::Simulation`] and lets it tick; [`simulation::laws`] says what
//! it can rely on.

pub mod curve;
pub mod fixed;
pub mod random;
pub mod shells;
pub mod simulation;
pub mod timer;
pub mod vector;
