pub mod attacks;
pub mod betweens;
pub mod geometry;
pub mod lines;
pub mod patterns;
pub mod single_rank_attack;
pub mod sliding;

use crate::engine::bitboard::Bitboard;
use crate::engine::board::meaning::{lemma_xray_diagonal, lemma_xray_orthogonal, one_blocker};
use crate::engine::computed::attacks::Attacks;
use crate::engine::computed::betweens::Betweens;
use crate::engine::computed::geometry::{same_antidiag, same_diagonal, same_file, same_rank};
use crate::engine::computed::lines::Rays;
use crate::engine::computed::sliding::{bishop_reach, rook_reach};
use crate::engine::piece::{PieceColor, PieceType};
use vstd::prelude::*;

verus! {

/// The squares that a slider reaches only once the first of `blockers`
/// each way are taken off the board: `first` is what it attacks with them
/// on the board, `second` what it attacks without them.
pub open spec fn xray_set(first: u64, second: u64, blockers: u64) -> u64 {
    if blockers & first != 0 {
        first ^ second
    } else {
        0
    }
}

/// A rook's x-ray from `sq` through the first of `blockers` each way.
pub open spec fn xray_orthogonal_set(occupied: u64, blockers: u64, sq: u64) -> u64 {
    let first = rook_reach(sq, occupied);
    xray_set(first, rook_reach(sq, occupied ^ (blockers & first)), blockers)
}

/// A bishop's x-ray from `sq` through the first of `blockers` each way.
pub open spec fn xray_diagonal_set(occupied: u64, blockers: u64, sq: u64) -> u64 {
    let first = bishop_reach(sq, occupied);
    xray_set(first, bishop_reach(sq, occupied ^ (blockers & first)), blockers)
}

/// The tables that do not depend on any position: built once, read by
/// every board.
pub struct Computed {
    pub rays: Rays,
    pub attacks: Attacks,
    pub betweens: Betweens,
}

impl Computed {
    /// All three tables are in order.
    pub open spec fn wf(&self) -> bool {
        self.rays.wf() && self.attacks.wf() && self.betweens.wf()
    }

    /// Builds the tables.
    pub fn new() -> (r: Self)
        ensures
            r.wf(),
    {
        Computed { rays: Rays::new(), attacks: Attacks::new(), betweens: Betweens::new() }
    }

    /// The squares a rook on `square` attacks through the first of
    /// `blockers` in each direction and not without taking them away.
    /// Where the blockers are among the pieces on the board, these are the
    /// squares on the rook's rank and file before which exactly one piece
    /// stands, a blocker.
    pub fn xray_orthogonal_attacks(&self, occupancy: Bitboard, blockers: Bitboard, square: u8) -> (r:
        Bitboard)
        requires
            self.wf(),
            square < 64,
        ensures
            r.0 == xray_orthogonal_set(occupancy.0, blockers.0, square as u64),
            blockers.0 & !occupancy.0 == 0 ==> forall|t: int|
                0 <= t < 64 ==> #[trigger] r.contains(t) == (t != square && (same_rank(
                    square as int,
                    t,
                ) || same_file(square as int, t)) && one_blocker(
                    occupancy.0,
                    blockers.0,
                    square as int,
                    t,
                )),
    {
        let possible_attackers = self.attacks.get(
            PieceColor::White,
            PieceType::Rook,
            square,
            occupancy,
        );
        let pinned = blockers & possible_attackers;
        let found = if pinned.is_some() {
            let possible_attackers_without_pinned = self.attacks.get(
                PieceColor::White,
                PieceType::Rook,
                square,
                occupancy ^ pinned,
            );
            possible_attackers ^ possible_attackers_without_pinned
        } else {
            Bitboard::new()
        };
        proof {
            if blockers.0 & !occupancy.0 == 0 {
                assert forall|t: int| 0 <= t < 64 implies #[trigger] found.contains(t) == (t
                    != square && (same_rank(square as int, t) || same_file(square as int, t))
                    && one_blocker(occupancy.0, blockers.0, square as int, t)) by {
                    lemma_xray_orthogonal(occupancy.0, blockers.0, square as int, t);
                }
            }
        }
        found
    }

    /// The squares a bishop on `square` attacks through the first of
    /// `blockers` in each direction and not without taking them away.
    /// Where the blockers are among the pieces on the board, these are the
    /// squares on the bishop's diagonals before which exactly one piece
    /// stands, a blocker.
    pub fn xray_diagonal_attacks(&self, occupancy: Bitboard, blockers: Bitboard, square: u8) -> (r:
        Bitboard)
        requires
            self.wf(),
            square < 64,
        ensures
            r.0 == xray_diagonal_set(occupancy.0, blockers.0, square as u64),
            blockers.0 & !occupancy.0 == 0 ==> forall|t: int|
                0 <= t < 64 ==> #[trigger] r.contains(t) == (t != square && (same_diagonal(
                    square as int,
                    t,
                ) || same_antidiag(square as int, t)) && one_blocker(
                    occupancy.0,
                    blockers.0,
                    square as int,
                    t,
                )),
    {
        let possible_attackers = self.attacks.get(
            PieceColor::White,
            PieceType::Bishop,
            square,
            occupancy,
        );
        let pinned = blockers & possible_attackers;
        let found = if pinned.is_some() {
            let possible_attackers_without_pinned = self.attacks.get(
                PieceColor::White,
                PieceType::Bishop,
                square,
                occupancy ^ pinned,
            );
            possible_attackers ^ possible_attackers_without_pinned
        } else {
            Bitboard::new()
        };
        proof {
            if blockers.0 & !occupancy.0 == 0 {
                assert forall|t: int| 0 <= t < 64 implies #[trigger] found.contains(t) == (t
                    != square && (same_diagonal(square as int, t) || same_antidiag(
                    square as int,
                    t,
                )) && one_blocker(occupancy.0, blockers.0, square as int, t)) by {
                    lemma_xray_diagonal(occupancy.0, blockers.0, square as int, t);
                }
            }
        }
        found
    }
}

} // verus!
