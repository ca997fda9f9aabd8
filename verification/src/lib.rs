//! A verified chess and Chess960 position representation and legal move
//! generator.
//!
//! Positions are kept as bitboards with an incrementally maintained Zobrist
//! hash, together with the `pinned` and `checkers` sets that the legal move
//! generator consumes.

pub mod bitboard;
pub mod board;
pub mod bits;
pub mod builder;
pub mod fen;
pub mod movegen;
pub mod moves;
pub mod piece_moves;
pub mod play;
pub mod types;
pub mod util;
pub mod zobrist;

pub use bitboard::BitBoard;
pub use board::Board;
pub use board::BoardError;
pub use board::GameStatus;
pub use builder::BoardBuilder;
pub use builder::BoardBuilderError;
pub use fen::FenParseError;
pub use piece_moves::PieceMoves;
pub use util::MoveParseError;
pub use piece_moves::PieceMovesIter;
pub use types::CastleRights;
pub use types::Color;
pub use types::File;
pub use types::Move;
pub use types::Piece;
pub use types::Rank;
pub use types::Square;
pub use types::SquareDelta;
