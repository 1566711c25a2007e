//! A verified engine for Conway's Game of Life with navigable history.
//!
//! [`screen`] holds the fixed-size boolean lattice and the pure transition
//! rule; [`simulation`] holds the append-only generation history with a
//! movable cursor. Around them, [`parse`] reads an initial grid from its
//! textual description and [`command`] reads the words that drive the
//! navigation; rendering and all input and output stay outside the crate.

pub mod command;
pub mod parse;
pub mod screen;
pub mod simulation;
