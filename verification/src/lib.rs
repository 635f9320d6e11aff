//! A chess board with basic move generation.
//!
//! The crate models an 8×8 board, the pieces standing on it and the squares a
//! piece may move to under the simple movement rules: no check detection, no
//! castling, no en passant and no promotion. Every function carries a contract
//! over the mathematical model of the board, and the contracts are proved.
//!
//! - [`coordinate`]: the squares of the board, their notation and offsets.
//! - [`piece`]: the pieces, their side and their move counter.
//! - [`rules`]: the movement rules as mathematics, and what follows from them.
//! - [`directions`] and [`paths`]: the offsets of the pieces and the squares
//!   they lead to.
//! - [`legal_moves`]: the collection that move generation fills.
//! - [`board`]: the board itself, with move generation and move execution.
//! - [`diagram`]: the board drawn as text.

pub mod board;
pub mod coordinate;
pub mod diagram;
pub mod directions;
mod generation;
pub mod legal_moves;
pub mod paths;
pub mod piece;
pub mod rules;
mod text;
