//! Rules core of a two-player chess game on an 8x8 board.
//!
//! The board is represented with bitboards: 64-bit masks in which bit
//! `file + 8 * rank` stands for the square at that file and rank. Each side
//! owns sixteen piece slots, each holding a one-hot bitboard (or zero once
//! the piece is captured). The library computes, for any board state, the
//! set of squares a piece may legally move to — enforcing blocking, check
//! and pin safety, castling, en passant and promotion — and applies chosen
//! moves, advancing the turn.

pub mod piece;
pub mod game;
pub mod player;
pub mod utils;
pub mod moves;
pub mod board;
pub mod error;

pub use piece::Piece;
pub use player::Player;
pub use error::Error;
