//! A move generator for chess, verified with Verus.
//!
//! `engine` holds the sets of squares, the tables of attacks, the board with
//! what is derived from it, the generator, and making and taking back of
//! moves; `interfaces` holds the reading and writing of positions as text
//! and the comparison of move counts with another engine's.
//!
//! What the generator gives is stated twice: as the list that
//! `Position::legal_moves` describes, and as laws about that list. From a
//! sound position on no listed move leaves the king in check, every listed
//! move follows the rules of chess, and every position reached is sound
//! again.

pub mod engine;
pub mod interfaces;

pub use engine::bitboard::{Bitboard, SquareError};
pub use engine::board::castling::{Castling, CastlingDirection};
pub use engine::board::position::{BoardState, CheckState};
pub use engine::board::Board;
pub use engine::computed::attacks::{AttackMasks, Attacks};
pub use engine::computed::betweens::{Betweens, ObstructionMasks};
pub use engine::computed::lines::{LineMasks, Rays};
pub use engine::computed::single_rank_attack::SingleRankAttack;
pub use engine::computed::Computed;
pub use engine::moves::{Move, MoveFlag};
pub use engine::piece::{Piece, PieceColor, PieceType};
pub use engine::team::Team;
pub use engine::tile::Tile;
pub use interfaces::fen::ParsedFen;
pub use interfaces::notation::{FenError, FenSection};
pub use interfaces::oracle::{
    compare_perfts, parse_perft_line, perft_entry, perft_line_entry, sort_perfts, text_before,
    OracleError, PerftFinding,
};
