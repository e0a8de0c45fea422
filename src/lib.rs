//! A two-dimensional Turing machine ("turmite") on a toroidal byte grid.
//!
//! A machine has an internal state and a head on a grid of symbols. Each step
//! reads the symbol under the head, looks up the transition for
//! (state, symbol), writes the new symbol, takes the new state and moves the
//! head by one cell, wrapping around the grid's edges. The colony variant runs
//! many machines on one grid, each with an energy budget that lets it die and
//! reproduce.

pub mod action;
pub mod grid;
pub mod random;
pub mod table;
pub mod codec;
pub mod encoding;
pub mod machine;
pub mod colony;
