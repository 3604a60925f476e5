//! A falling-block puzzle engine: pieces, a fixed-size board, collision,
//! locking and line clearing, with every step proved against its contract.

pub mod tetris;
pub mod laws;
