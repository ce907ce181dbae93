//! A toroidal predator-prey-plant ecosystem simulation.
//!
//! Positions, energies and probabilities are fixed-point integers (see
//! [`config`]), so that every rule of the simulation can be stated and proved.

pub mod codec;
pub mod config;
pub mod geom;
pub mod grid;
pub mod population;
pub mod rng;
pub mod ui;
pub mod util;
pub mod world;
