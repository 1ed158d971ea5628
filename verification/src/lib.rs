//! A crossword of arithmetic: chains of equations laid out on a grid, with
//! one number per equation hidden for the player to find.
//!
//! - [`symbol`], [`equation`]: the symbols and the two sides of an equation.
//! - [`generator`]: equations drawn at random, with what holds of every draw.
//! - [`grid_equation`]: an equation on the grid, read and written by
//!   coordinate.
//! - [`placement`]: equations laid out as a crossword.
//! - [`masking`]: the pass that hides one number per equation.
//! - [`text`]: how symbols and equations read as text.
//! - [`board`], [`player_input`], [`texture`]: what the game around the
//!   puzzle computes for display and input.
//! - [`random`]: the calls into the `rand` crate, believed and not proved.

pub mod board;
pub mod equation;
pub mod generator;
pub mod grid_equation;
pub mod masking;
pub mod placement;
pub mod player_input;
pub mod random;
pub mod symbol;
pub mod text;
pub mod texture;
