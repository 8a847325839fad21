//! Rules, state encoding and dice enumeration for a Yahtzee solver.
//!
//! The verified part of the solver: the scoring rules of the thirteen
//! categories, the bit-packed game state, the enumeration of dice rolls and
//! kept dice, and the decoding of typed-in rolls. The expected-value tables
//! themselves are floating-point data and are computed by the program around
//! this library.

pub mod game;
pub mod input;
pub mod state;
