//! A chess position representation and move-generation core: bitboard board
//! state, FEN import/export, legal move generation, move application, and
//! terminal-state classification.

pub mod bitboard;
pub mod attacks;
pub mod board;
pub mod classify;
pub mod fen;
pub mod laws;
pub mod movegen;
pub mod moves;

pub use bitboard::BitBoard;
pub use board::Board;
pub use board::CastleRights;
pub use board::Color;
pub use board::Piece;
pub use classify::GameState;
pub use fen::FenError;
pub use movegen::generate_legal_moves;
pub use moves::Move;
pub use moves::MoveKind;
