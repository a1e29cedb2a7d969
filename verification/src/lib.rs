//! A small artificial-life simulation: creatures carry genes that turn
//! chemical elements into other elements, move towards the elements they
//! need, eject by-products, reproduce and die.
//!
//! The crate holds the simulation's rules; drawing, threads and the
//! floating-point parts of the model are left to the program around it.

mod rng;

pub mod config;
pub mod element;
pub mod element_map;
pub mod gene;
pub mod creature;
pub mod world;
pub mod step_model;
pub mod utils;
