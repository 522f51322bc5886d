//! A chess rules engine with verified move legality.
//!
//! Given a board position and a proposed move, the engine decides whether the
//! move is legal under the full rule set (piece movement, captures, en
//! passant, castling, and the prohibition on leaving one's own king in check)
//! and applies it, producing the next board state. A rejected move leaves the
//! board exactly as it was, even when the rejection is discovered only after
//! the move was tentatively executed and had to be rolled back.

pub mod board;
pub mod game;
pub mod pos;
pub mod side;
pub mod step;
pub mod unit;
