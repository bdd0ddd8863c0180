//! Bitboard move generation, evaluation and fixed-depth search for a
//! two-player chess-like game.
//!
//! Squares are numbered 0..64; bit `i` of a mask stands for square `i`,
//! rank `i / 8` and file index `i % 8` (file index 0 is the h-file, 7 the
//! a-file). White moves toward higher ranks, Black toward lower ones. The
//! engine plays Black: scores are Black's material minus White's.
pub mod bits;
pub mod board;
pub mod rays;
pub mod pieces;
pub mod movegen;
pub mod search;
pub mod query;
