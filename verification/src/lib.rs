//! HSAN, the algebraic move notation of the 12×12 HyperChess variant: reading a
//! move string into its parts, resolving those parts against the legal moves of
//! a position, and writing a legal move back as a string.
pub mod board;
pub mod hsan_export;
pub mod hsan_parse;
pub mod laws;
pub mod text;

pub use board::{Board, BoardView, HyperMove, MoveOutcome, PieceType, SQ};
pub use hsan_export::hypermove_to_hsan;
pub use hsan_parse::{hsan_to_hypermove, parse_hsan, CastleSide, CheckMarker, HsanMove};
