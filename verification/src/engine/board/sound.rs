use crate::engine::bitboard::Bitboard;
use crate::engine::bitboard::bits::{
    bit, lemma_member_bit, lemma_member_ops, lemma_same_members, member,
};
use crate::engine::board::Board;
use crate::engine::board::meaning::{lemma_sets_meet, one_blocker};
use crate::engine::board::position::CheckState;
use crate::engine::computed::geometry::{same_antidiag, same_diagonal, strictly_between};
use crate::engine::piece::{Piece, PieceColor, PieceType};
use vstd::prelude::*;

verus! {

impl<'a> Board<'a> {
    /// Whether the pawn that has just passed is all that stands between
    /// the king of the side to move and a bishop or queen of the other
    /// side on one of the king's diagonals.
    fn passed_pawn_shields(&self, passed: u8, king: u8) -> (r: bool)
        requires
            self.wf(),
            passed < 64,
            king < 64,
        ensures
            r == (exists|s: int| #[trigger] self@.shielded_from(passed as int, king as int, s)),
    {
        let enemy = self.turn.opposite();
        let occupancy = self.colors[0] | self.colors[1];
        let pawn = Bitboard::from_square(passed);
        let queens = self.pieces[Piece::new(enemy, PieceType::Queen).get_pieces_index()];
        let bishops = self.pieces[Piece::new(enemy, PieceType::Bishop).get_pieces_index()];
        let sliders = queens | bishops;
        if !occupancy.has_square(passed) {
            proof {
                assert forall|s: int| !#[trigger] self@.shielded_from(
                    passed as int,
                    king as int,
                    s,
                ) by {
                    if one_blocker(self@.occupancy(), bit(passed as int), king as int, s) {
                        let b = choose|b: int|
                            0 <= b < 64 && #[trigger] strictly_between(
                                king as int,
                                b,
                                s,
                            ) && member(self@.occupancy(), b) && member(bit(passed as int), b);
                        lemma_member_bit(passed as int, b);
                    }
                }
            }
            return false;
        }
        proof {
            assert forall|x: int| 0 <= x < 64 implies member(pawn.0 & !occupancy.0, x) == member(
                0,
                x,
            ) by {
                lemma_member_ops(pawn.0, !occupancy.0, x);
                lemma_member_ops(occupancy.0, 0, x);
                lemma_member_ops(0, 0, x);
                lemma_member_bit(passed as int, x);
            }
            lemma_same_members(pawn.0 & !occupancy.0, 0);
        }
        let seen = self.computed.xray_diagonal_attacks(occupancy, pawn, king);
        let found = (seen & sliders).is_some();
        proof {
            lemma_sets_meet(seen.0, sliders.0);
            assert forall|s: int| (member(seen.0, s) && member(sliders.0, s))
                == #[trigger] self@.shielded_from(passed as int, king as int, s) by {
                lemma_member_ops(queens.0, bishops.0, s);
                self@.placement().lemma_sets(s);
                if 0 <= s < 64 {
                    assert(seen.contains(s) == (s != king && (same_diagonal(
                        king as int,
                        s,
                    ) || same_antidiag(king as int, s)) && one_blocker(
                        occupancy.0,
                        pawn.0,
                        king as int,
                        s,
                    )));
                    if s == king && one_blocker(
                        self@.occupancy(),
                        bit(passed as int),
                        king as int,
                        s,
                    ) {
                        let b = choose|b: int|
                            0 <= b < 64 && #[trigger] strictly_between(
                                king as int,
                                b,
                                s,
                            );
                        assert(false);
                    }
                }
            }
            if found {
                let s = choose|s: int| member(seen.0, s) && #[trigger] member(sliders.0, s);
                assert(self@.shielded_from(passed as int, king as int, s));
            }
        }
        found
    }

    /// Whether the position is sound: each side has one king, the
    /// en-passant square lies behind a pawn that has just passed and that
    /// shields its king's diagonal from no bishop or queen, and the side
    /// that has just moved is not in check. From a sound position on, the
    /// list of moves holds no move that leaves the king in check, and
    /// every move in it leads to a sound position again.
    pub fn is_sound(&self) -> (r: bool)
        requires
            self.wf(),
        ensures
            r == self@.sound(),
    {
        let color = self.turn;
        let enemy = color.opposite();
        let king = match self.king_square(color) {
            Some(king) => king,
            None => {
                return false;
            },
        };
        if self.king_square(enemy).is_none() {
            return false;
        }
        if self.check_state[enemy.index()] != CheckState::NoCheck {
            return false;
        }
        proof {
            assert(self@.shaped());
            assert(self@.king_square(PieceColor::White) is Some && self@.king_square(
                PieceColor::Black,
            ) is Some);
            assert(self@.check_state(self@.enemy()) == CheckState::NoCheck);
        }
        match self.ep_square() {
            Some(ep) => {
                let rank = ep / 8;
                let fits = match color {
                    PieceColor::White => rank == 5,
                    PieceColor::Black => rank == 2,
                };
                if !fits {
                    return false;
                }
                let passed: u8 = match color {
                    PieceColor::White => ep - 8,
                    PieceColor::Black => ep + 8,
                };
                proof {
                    assert(self@.passing_rank());
                    assert(self@.passed_square() == passed);
                }
                !self.passed_pawn_shields(passed, king)
            },
            None => true,
        }
    }
}

} // verus!
