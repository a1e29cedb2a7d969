//! Parameters of the simulation.

use vstd::prelude::*;

use crate::element::ElementKind;

verus! {

/// Width of the grid, in cells.
pub const GRID_WIDTH: u16 = 720;
/// Height of the grid, in cells.
pub const GRID_HEIGHT: u16 = 480;
/// Side of a cell, in pixels.
pub const CELL_SIZE: u16 = 2;

/// Frames per second of the simulation.
pub const FPS: u16 = 2;
/// Creatures placed on the grid at a reset.
pub const CREATURE_COUNT: u16 = 5000;
/// Elements placed on the grid at a reset.
pub const ELEMENT_COUNT: u16 = 500;
/// Base speed of a creature is `SPEED_BASE_MULTIPLIER * 2^e` for its speed exponent `e`.
pub const SPEED_BASE_MULTIPLIER: u16 = 10;
/// Base sensing radius of a creature is `SENSE_BASE_MULTIPLIER * 2^e`.
pub const SENSE_BASE_MULTIPLIER: u16 = 200;
/// Base size of a creature is `SIZE_BASE_MULTIPLIER * 2^e`.
pub const SIZE_BASE_MULTIPLIER: u16 = 7;
/// The element every creature lives on.
pub const FUNDAMENTAL_ELEMENT: ElementKind = ElementKind::SUGAR;
/// Amount of the fundamental element a new creature receives.
pub const FUNDAMENTAL_ELEMENT_INITIAL_AMOUNT: u16 = 20;
/// Amount of the fundamental element a creature burns at each step.
pub const FUNDAMENTAL_ELEMENT_CONSUMPTION_AMOUNT: u16 = 1;
/// Lower bound (inclusive) of the number of elements a random creature starts with.
pub const ELEMENTS_MIN: u16 = 0;
/// Upper bound (exclusive) of the number of elements a random creature starts with.
pub const ELEMENTS_MAX: u16 = 3;

/// Lower bound (inclusive) of the number of genes of a random creature.
pub const GENE_MIN: u16 = 4;
/// Upper bound (exclusive) of the number of genes of a random creature.
pub const GENE_MAX: u16 = 20;
/// Bounds of the number of elements a random gene needs.
pub const ELEMENT_NEEDED_MIN: u16 = 1;
pub const ELEMENT_NEEDED_MAX: u16 = 5;
/// Bounds of the number of elements a random gene produces.
pub const ELEMENT_PRODUCED_MIN: u16 = 0;
pub const ELEMENT_PRODUCED_MAX: u16 = 5;
/// Bounds of the number of elements a random gene ejects.
pub const ELEMENT_EJECTED_MIN: u16 = 0;
pub const ELEMENT_EJECTED_MAX: u16 = 3;
/// Bounds (inclusive, exclusive) of the frequency exponent of a gene.
pub const FREQUENCY_EXPONENT_MIN: i16 = -2;
pub const FREQUENCY_EXPONENT_MAX: i16 = 2;
/// Bounds of the size, speed and sense exponents that a random gene is drawn from.
pub const SIZE_MULTIPLIER_EXPONENT_MIN: i16 = -1;
pub const SIZE_MULTIPLIER_EXPONENT_MAX: i16 = 1;
pub const SPEED_MULTIPLIER_EXPONENT_MIN: i16 = -1;
pub const SPEED_MULTIPLIER_EXPONENT_MAX: i16 = 1;
pub const SENSE_MULTIPLIER_EXPONENT_MIN: i16 = -1;
pub const SENSE_MULTIPLIER_EXPONENT_MAX: i16 = 1;

/// Whether diagnostic messages are printed.
pub const VERBOSE: bool = false;

/// Number of threads the creatures of a step are spread over.
pub const THREADS_COUNT: usize = 8;

} // verus!
