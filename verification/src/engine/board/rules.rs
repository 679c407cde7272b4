use crate::engine::bitboard::Bitboard;
use crate::engine::bitboard::bits::{
    bit, file_of, lemma_lowest, lemma_member_bit, lemma_member_ops, lemma_single, lemma_squares_of,
    lowest, member, rank_of, squares_of,
};
use crate::engine::board::generate::{home_of, passed_pawn_square};
use crate::engine::board::position::{CheckState, Position};
use crate::engine::computed::patterns::{attack_set, king_pattern, lemma_patterns};
use crate::engine::moves::{Move, MoveFlag};
use crate::engine::piece::{Piece, PieceColor, PieceType};
use vstd::prelude::*;

verus! {

impl Position {
    /// Whether the piece on the start square of `m` stays on every pin
    /// line that it stands on.
    pub open spec fn keeps_pins(self, m: Move) -> bool {
        let lines = self.pin_lines(self.turn);
        forall|j: int|
            0 <= j < lines.len() && member((#[trigger] lines[j]).0, m.start()) ==> member(
                lines[j].0,
                m.end(),
            )
    }

    /// What holds of every move that the generator gives: the position
    /// accepts it; a castling move is one that `can_castle` allows; in
    /// double check it is a move of the king; and a piece other than the
    /// king stays on its pin lines.
    pub open spec fn admits(self, m: Move) -> bool {
        &&& self.accepts(m)
        &&& (m.flag() == MoveFlag::Castle ==> self.can_castle(m.end() == m.start() + 2))
        &&& (self.check_state(self.turn) == CheckState::Double ==> self.king_square(self.turn)
            == Some(m.start()) && m.flag() == MoveFlag::Normal)
        &&& (self.squares[m.start()]->0.kind != PieceType::King ==> self.keeps_pins(m))
        &&& self.aims(m)
    }

    /// Whether the move goes to a target of its piece with the flag that
    /// belongs to it: in double check to a square where the king escapes,
    /// else to one of the piece's targets, with a promotion flag exactly
    /// for a pawn that reaches the first or last rank.
    pub open spec fn aims(self, m: Move) -> bool {
        let kind = self.squares[m.start()]->0.kind;
        if self.check_state(self.turn) == CheckState::Double {
            member(self.escape_targets(m.start()), m.end())
        } else {
            &&& member(self.targets(m.start()), m.end())
            &&& if kind == PieceType::Pawn && (rank_of(m.end()) == 0 || rank_of(m.end()) == 7) {
                m.flag().promotion() is Some
            } else {
                m.flag() == self.flag_for(m.start(), kind, m.end())
            }
        }
    }

    /// A one-square set names its square.
    pub proof fn lemma_one_square(x: Bitboard)
        requires
            x.to_square_spec() is Ok,
        ensures
            x.0 == bit(x.to_square_spec()->Ok_0 as int),
            0 <= x.to_square_spec()->Ok_0 < 64,
            x.to_square_spec()->Ok_0 as int == lowest(x.0),
    {
        lemma_lowest(x.0);
        lemma_single(x.0);
    }

    /// The king stands on the square that `king_square` names.
    pub proof fn lemma_king_square(self, color: PieceColor)
        requires
            self.squares.len() == 64,
            self.king_square(color) is Some,
        ensures
            self.holds(self.king_square(color)->0, Piece { color, kind: PieceType::King }),
    {
        let king = self.king_square(color)->0;
        let set = self.pieces(Piece { color, kind: PieceType::King });
        Self::lemma_one_square(Bitboard(set));
        lemma_member_bit(king, king);
        self.placement().lemma_sets(king);
    }

    /// A target left by the pin lines was a target before, and lies on
    /// every pin line that the piece stands on.
    pub proof fn lemma_pinned_targets(lines: Seq<Bitboard>, sq: int, targets: u64, k: nat, to: int)
        requires
            k <= lines.len(),
            member(Self::pinned_targets(lines, sq, targets, k), to),
        ensures
            member(targets, to),
            forall|j: int|
                0 <= j < k && member((#[trigger] lines[j]).0, sq) ==> member(lines[j].0, to),
        decreases k,
    {
        if k > 0 {
            let before = Self::pinned_targets(lines, sq, targets, (k - 1) as nat);
            lemma_member_ops(before, lines[k - 1].0, to);
            Self::lemma_pinned_targets(lines, sq, targets, (k - 1) as nat, to);
        }
    }

    /// A target left by a check was a target before.
    pub proof fn lemma_checked_targets(self, sq: int, kind: PieceType, to: int)
        requires
            member(self.checked_targets(sq, kind), to),
        ensures
            member(self.free_targets(sq, kind), to),
    {
        let free = self.free_targets(sq, kind);
        if kind != PieceType::King {
            match (self.check_state(self.turn), self.king_square(self.turn)) {
                (CheckState::Single(attacker), Some(king)) => {
                    lemma_member_ops(free, self.answers(sq, kind, attacker as int, king), to);
                },
                _ => {},
            }
        }
    }

    /// What holds of a square the king may go to.
    pub proof fn lemma_king_targets(self, sq: int, to: int)
        requires
            self.shaped(),
            0 <= sq < 64,
            member(self.king_targets(sq), to),
        ensures
            0 <= to < 64,
            to != sq,
            !self.holds_color(to, self.turn),
            to == sq + 2 ==> self.can_castle(true) && sq == home_of(self.turn) + 4,
            sq == to + 2 ==> self.can_castle(false) && sq == home_of(self.turn) + 4,
            !member(self.attacks(self.enemy()), to),
    {
        let home = home_of(self.turn);
        let friendly = self.colors(self.turn);
        let attacked = self.attacks(self.enemy());
        let step = (king_pattern(sq as u64) & !friendly) & !attacked;
        let short: u64 = if sq == home + 4 && self.can_castle(true) {
            bit(home + 6)
        } else {
            0
        };
        let long: u64 = if sq == home + 4 && self.can_castle(false) {
            bit(home + 2)
        } else {
            0
        };
        lemma_member_ops(step, short | long, to);
        lemma_member_ops(short, long, to);
        lemma_member_ops(king_pattern(sq as u64) & !friendly, !attacked, to);
        lemma_member_ops(king_pattern(sq as u64), !friendly, to);
        lemma_member_ops(friendly, 0, to);
        lemma_member_ops(attacked, 0, to);
        lemma_member_bit(home + 6, to);
        lemma_member_bit(home + 2, to);
        lemma_patterns(sq, to);
        self.placement().lemma_sets(to);
    }

    /// What holds of a square a pawn may go to.
    pub proof fn lemma_pawn_targets(self, sq: int, to: int)
        requires
            self.shaped(),
            0 <= sq < 64,
            self.holds(sq, Piece { color: self.turn, kind: PieceType::Pawn }),
            member(self.pawn_targets(sq), to),
        ensures
            0 <= to < 64,
            to != sq,
            !self.holds_color(to, self.turn),
            self.flag_for(sq, PieceType::Pawn, to) == MoveFlag::EnPassant ==> self.empty_at(to)
                && self.holds(
                passed_pawn_square(sq, to),
                Piece { color: self.enemy(), kind: PieceType::Pawn },
            ),
            self.flag_for(sq, PieceType::Pawn, to) == MoveFlag::PawnDash ==> self.empty_at(to)
                && to == (if self.turn == PieceColor::White {
                sq + 16
            } else {
                sq - 16
            }),
            self.empty_at(to) && file_of(to) != file_of(sq) ==> self.can_pass(sq)
                && self.state().ep_square() == Some(to),
    {
        let friendly = self.colors(self.turn);
        let enemies = self.colors(self.enemy());
        let pattern = attack_set(self.turn, PieceType::Pawn, sq as u64, 0);
        let passing: u64 = if self.can_pass(sq) {
            self.state().enpassant.0
        } else {
            0
        };
        let pushes = self.pawn_pushes(sq);
        lemma_member_ops(((pattern & !friendly) & enemies) | passing, pushes, to);
        lemma_member_ops((pattern & !friendly) & enemies, passing, to);
        lemma_member_ops(pattern & !friendly, enemies, to);
        lemma_member_ops(pattern, !friendly, to);
        lemma_member_ops(friendly, 0, to);
        lemma_patterns(sq, to);
        self.placement().lemma_sets(to);
        self.placement().lemma_sets(sq);
        if self.can_pass(sq) {
            Self::lemma_one_square(self.state().enpassant);
            let ep = self.state().ep_square()->0;
            lemma_member_bit(ep, to);
            lemma_member_ops(pattern & !friendly, 0, ep);
            lemma_member_ops(pattern, !friendly, ep);
            lemma_patterns(sq, ep);
        }
        if self.state().ep_square() is Some {
            Self::lemma_one_square(self.state().enpassant);
        }
        match self.turn {
            PieceColor::White => {
                if rank_of(sq) < 7 && self.empty_at(sq + 8) {
                    let dash: u64 = if rank_of(sq) == 1 && self.empty_at(sq + 16) {
                        bit(sq + 16)
                    } else {
                        0
                    };
                    lemma_member_ops(bit(sq + 8), dash, to);
                    lemma_member_bit(sq + 8, to);
                    if rank_of(sq) == 1 {
                        lemma_member_bit(sq + 16, to);
                    }
                }
            },
            PieceColor::Black => {
                if rank_of(sq) > 0 && self.empty_at(sq - 8) {
                    let dash: u64 = if rank_of(sq) == 6 && self.empty_at(sq - 16) {
                        bit(sq - 16)
                    } else {
                        0
                    };
                    lemma_member_ops(bit(sq - 8), dash, to);
                    lemma_member_bit(sq - 8, to);
                    if rank_of(sq) == 6 {
                        lemma_member_bit(sq - 16, to);
                    }
                }
            },
        }
    }
}

impl Position {
    /// Outside double check, every move of the piece on `sq` to one of
    /// its targets is a move that the position admits.
    pub proof fn lemma_target_admits(self, sq: int, to: int, m: Move)
        requires
            self.shaped(),
            self.holds_color(sq, self.turn),
            member(self.targets(sq), to),
            self.check_state(self.turn) != CheckState::Double,
            self.moves_to(sq, self.squares[sq]->0.kind, to).contains(m),
        ensures
            self.admits(m),
    {
        let piece = self.squares[sq]->0;
        let kind = piece.kind;
        let lines = self.pin_lines(self.turn);
        Self::lemma_pinned_targets(lines, sq, self.checked_targets(sq, kind), lines.len(), to);
        self.lemma_checked_targets(sq, kind, to);
        assert(0 <= to < 64);
        let flag = m.flag();
        let listed = self.moves_to(sq, kind, to);
        let i = choose|i: int| 0 <= i < listed.len() && listed[i] == m;
        Move::lemma_parts(sq, to, MoveFlag::PromoteQueen);
        Move::lemma_parts(sq, to, MoveFlag::PromoteRook);
        Move::lemma_parts(sq, to, MoveFlag::PromoteBishop);
        Move::lemma_parts(sq, to, MoveFlag::PromoteKnight);
        Move::lemma_parts(sq, to, self.flag_for(sq, kind, to));
        assert(m.start() == sq && m.end() == to && m.well_formed());
        match kind {
            PieceType::King => {
                self.lemma_king_targets(sq, to);
            },
            PieceType::Pawn => {
                self.lemma_pawn_targets(sq, to);
            },
            _ => {
                let friendly = self.colors(self.turn);
                lemma_member_ops(
                    attack_set(self.turn, kind, sq as u64, self.occupancy()),
                    !friendly,
                    to,
                );
                lemma_member_ops(friendly, 0, to);
                self.placement().lemma_sets(to);
            },
        }
        assert(self.keeps_pins(m));
        assert(self.accepts(m));
    }

    /// Outside double check, the position admits every move of the piece
    /// on `sq` to the first `k` of its targets.
    pub proof fn lemma_moves_over(self, sq: int, k: nat)
        requires
            self.shaped(),
            self.holds_color(sq, self.turn),
            self.check_state(self.turn) != CheckState::Double,
            k <= squares_of(self.targets(sq)).len(),
        ensures
            forall|i: int|
                0 <= i < self.moves_over(
                    sq,
                    self.squares[sq]->0.kind,
                    squares_of(self.targets(sq)),
                    k,
                ).len() ==> self.admits(
                    #[trigger] self.moves_over(
                        sq,
                        self.squares[sq]->0.kind,
                        squares_of(self.targets(sq)),
                        k,
                    )[i],
                ),
        decreases k,
    {
        let kind = self.squares[sq]->0.kind;
        let to = squares_of(self.targets(sq));
        if k > 0 {
            self.lemma_moves_over(sq, (k - 1) as nat);
            lemma_squares_of(self.targets(sq));
            let before = self.moves_over(sq, kind, to, (k - 1) as nat);
            let last = self.moves_to(sq, kind, to[k - 1]);
            let all = self.moves_over(sq, kind, to, k);
            assert(all == before + last);
            assert forall|i: int| 0 <= i < all.len() implies self.admits(#[trigger] all[i]) by {
                if i < before.len() {
                    assert(all[i] == before[i]);
                } else {
                    assert(all[i] == last[i - before.len()]);
                    assert(last.contains(all[i]));
                    self.lemma_target_admits(sq, to[k - 1], all[i]);
                }
            }
        }
    }

    /// Outside double check, the position admits every move of the pieces
    /// on the first `k` of `from`.
    pub proof fn lemma_moves_of(self, from: Seq<int>, k: nat)
        requires
            self.shaped(),
            self.check_state(self.turn) != CheckState::Double,
            k <= from.len(),
            forall|a: int| 0 <= a < from.len() ==> self.holds_color(#[trigger] from[a], self.turn),
        ensures
            forall|i: int|
                0 <= i < self.moves_of(from, k).len() ==> self.admits(
                    #[trigger] self.moves_of(from, k)[i],
                ),
        decreases k,
    {
        if k > 0 {
            self.lemma_moves_of(from, (k - 1) as nat);
            let sq = from[k - 1];
            assert(self.holds_color(sq, self.turn));
            self.lemma_moves_over(sq, squares_of(self.targets(sq)).len());
            let before = self.moves_of(from, (k - 1) as nat);
            let last = self.moves_from(sq);
            let all = self.moves_of(from, k);
            assert(all == before + last);
            assert forall|i: int| 0 <= i < all.len() implies self.admits(#[trigger] all[i]) by {
                if i < before.len() {
                    assert(all[i] == before[i]);
                } else {
                    assert(all[i] == last[i - before.len()]);
                }
            }
        }
    }

    /// In double check, the position admits every step of the king out of
    /// it.
    pub proof fn lemma_steps_over(self, king: int, k: nat)
        requires
            self.shaped(),
            self.check_state(self.turn) == CheckState::Double,
            self.king_square(self.turn) == Some(king),
            k <= squares_of(self.escape_targets(king)).len(),
        ensures
            Self::steps_over(king, squares_of(self.escape_targets(king)), k).len() == k,
            forall|i: int|
                0 <= i < k ==> self.admits(
                    #[trigger] Self::steps_over(king, squares_of(self.escape_targets(king)), k)[i],
                ),
        decreases k,
    {
        let to = squares_of(self.escape_targets(king));
        if k > 0 {
            self.lemma_steps_over(king, (k - 1) as nat);
            lemma_squares_of(self.escape_targets(king));
            self.lemma_king_square(self.turn);
            Self::lemma_one_square(
                Bitboard(self.pieces(Piece { color: self.turn, kind: PieceType::King })),
            );
            let target = to[k - 1];
            let friendly = self.colors(self.turn);
            let attacked = self.attacks(self.enemy());
            lemma_member_ops(king_pattern(king as u64) & !friendly, !attacked, target);
            lemma_member_ops(king_pattern(king as u64), !friendly, target);
            lemma_member_ops(friendly, 0, target);
            lemma_patterns(king, target);
            self.placement().lemma_sets(target);
            Move::lemma_parts(king, target, MoveFlag::Normal);
            let before = Self::steps_over(king, to, (k - 1) as nat);
            let all = Self::steps_over(king, to, k);
            assert(all == before.push(Move::of(king, target, MoveFlag::Normal)));
            assert forall|i: int| 0 <= i < k implies self.admits(#[trigger] all[i]) by {
                if i < k - 1 {
                    assert(all[i] == before[i]);
                }
            }
        }
    }

    /// The position admits every move that the generator gives for it:
    /// each can be made; castling appears only where `can_castle` allows
    /// it, so not without the right, not out of check, and not across or
    /// onto an attacked square; in double check only the king moves; and
    /// a pinned piece stays on its pin line, whatever else it could reach.
    pub proof fn lemma_legal_moves(self)
        requires
            self.shaped(),
        ensures
            forall|i: int|
                0 <= i < self.legal_moves().len() ==> self.admits(#[trigger] self.legal_moves()[i]),
    {
        if self.check_state(self.turn) == CheckState::Double {
            match self.king_square(self.turn) {
                Some(king) => {
                    self.lemma_steps_over(king, squares_of(self.escape_targets(king)).len());
                },
                None => {},
            }
        } else {
            let from = squares_of(self.colors(self.turn));
            lemma_squares_of(self.colors(self.turn));
            assert forall|a: int| 0 <= a < from.len() implies self.holds_color(
                #[trigger] from[a],
                self.turn,
            ) by {
                self.placement().lemma_sets(from[a]);
            }
            self.lemma_moves_of(from, from.len());
        }
    }
}


impl Position {
    /// A pinned piece stays on its pin line: no move of a piece other
    /// than the king leaves a pin line that the piece stands on. So a
    /// pawn pinned along a diagonal does not capture en passant off that
    /// diagonal, though the capture would be open to it otherwise.
    pub proof fn lemma_pinned_piece_stays(self, i: int, j: int)
        requires
            self.shaped(),
            0 <= i < self.legal_moves().len(),
            0 <= j < self.pin_lines(self.turn).len(),
            self.squares[self.legal_moves()[i].start()]->0.kind != PieceType::King,
            member(self.pin_lines(self.turn)[j].0, self.legal_moves()[i].start()),
        ensures
            member(self.pin_lines(self.turn)[j].0, self.legal_moves()[i].end()),
    {
        self.lemma_legal_moves();
        assert(self.admits(self.legal_moves()[i]));
    }

    /// In double check only the king moves.
    pub proof fn lemma_double_check(self, i: int)
        requires
            self.shaped(),
            self.check_state(self.turn) == CheckState::Double,
            0 <= i < self.legal_moves().len(),
        ensures
            self.king_square(self.turn) == Some(self.legal_moves()[i].start()),
            self.holds(
                self.legal_moves()[i].start(),
                Piece { color: self.turn, kind: PieceType::King },
            ),
    {
        self.lemma_legal_moves();
        assert(self.admits(self.legal_moves()[i]));
        self.lemma_king_square(self.turn);
    }

    /// No castling without the right, out of check, or across or onto an
    /// attacked square: a castling move is in the list only if the side
    /// has the right for that side of the board, its king is not in check,
    /// and neither the square the king crosses nor the square it reaches
    /// is attacked, however empty the squares between king and rook are.
    pub proof fn lemma_castling_denied(self, i: int)
        requires
            self.shaped(),
            0 <= i < self.legal_moves().len(),
            self.legal_moves()[i].flag() == MoveFlag::Castle,
        ensures
            ({
                let m = self.legal_moves()[i];
                let king_side = m.end() == m.start() + 2;
                let attacked = self.attacks(self.enemy());
                &&& self.state().may_castle(self.turn, king_side)
                &&& self.check_state(self.turn) == CheckState::NoCheck
                &&& m.end() == (if king_side {
                    m.start() + 2
                } else {
                    m.start() - 2
                })
                &&& !member(attacked, m.end())
                &&& !member(attacked, (m.start() + m.end()) / 2)
            }),
    {
        self.lemma_legal_moves();
        assert(self.admits(self.legal_moves()[i]));
    }
}

} // verus!
