//! Pseudo-legal move generation and game bookkeeping for a two-player chess position.

pub mod board;
pub mod coordinate;
pub mod error;
pub mod history;
pub mod moves;
pub mod piece;
