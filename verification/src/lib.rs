//! A mine-discovery puzzle engine for character-cell displays.
//!
//! The board is a grid of bit-packed cells together with a cursor, a status
//! word and a blink counter. Every transition of the engine is stated as a
//! contract over the mathematical view of the board.

pub mod cell;
pub mod grid;
pub mod field;
pub mod placement;
pub mod flood;
pub mod play;
pub mod termine;
pub mod render;
pub mod audit;
