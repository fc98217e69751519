//! A chess position engine: a dual bitboard/mailbox board representation,
//! algebraic and FEN notation parsing, and a pseudo-legal move generator for
//! sliding pieces driven by a precomputed edge-distance table.

pub mod bits;
pub mod board;
pub mod castle;
pub mod errors;
pub mod generator;
pub mod init;
pub mod parser;
pub mod piece;
