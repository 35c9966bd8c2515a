//! State tracking for an N×N generalisation of tic-tac-toe: a board of
//! marks with bounded reads and writes, the enumeration of every full-length
//! straight line on it, and detection of a line held entirely by one player.

pub mod board;
pub mod laws;
pub mod lines;
pub mod mark;

pub use board::Board;
pub use mark::Mark;
