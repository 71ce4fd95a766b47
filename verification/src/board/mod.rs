//! Positions: the pieces, what else a position holds, and the rules of chess.
//!
//! The rules themselves - which moves are legal, what a move does, what a FEN
//! means - are those of `shakmaty`; a position hands it its own text and keeps
//! what it answers as plain values.
pub mod placement;
pub mod rules;
pub mod state;

pub use placement::Placement;
pub use state::{Position, PositionError};
