pub mod bitboard;
pub mod board;
pub mod computed;
pub mod moves;
pub mod perft;
pub mod piece;
pub mod team;
pub mod tile;
