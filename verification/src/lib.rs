//! Bitboard core for a chess engine: 64-bit square-set planes with
//! wrap-safe directional shifts, square indexing with algebraic text,
//! the standard starting position, and pawn push/attack generation.

pub mod attacks;
pub mod bitboard;
pub mod board_state;
pub mod cell;

pub use attacks::black_pawn_attacks;
pub use attacks::black_pawn_pushes;
pub use attacks::white_pawn_attacks;
pub use attacks::white_pawn_pushes;
pub use bitboard::BitBoard;
pub use board_state::BoardState;
pub use cell::Cell;
