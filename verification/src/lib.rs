//! A small chess engine: board representations, move generation with full
//! legality checks, FEN input/output, Zobrist hashing, alpha-beta search,
//! algebraic move names, a PGN reader and the decision logic of a UCI server.

pub mod board;
pub mod text;
pub mod game;
pub mod rules;
pub mod eval;
pub mod uci;
pub mod pgn;
