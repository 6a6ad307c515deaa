//! A verified engine for the 3x3 two-mark grid game.
//!
//! `board` holds the game state machine and the exhaustive outcome search;
//! `table` holds the older, search-free grid type kept for display-only use.

pub mod board;
pub mod table;
