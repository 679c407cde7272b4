use crate::engine::bitboard::Bitboard;
use crate::engine::bitboard::bits::{
    bit, file_of, lemma_members_done, lemma_members_step, lemma_squares_of, member, rank_of,
    squares_of,
};
use crate::engine::board::Board;
use crate::engine::board::position::{CheckState, Position};
use crate::engine::computed::patterns::{attack_set, between_set, king_pattern};
use crate::engine::computed::sliding::rook_reach;
use crate::engine::moves::{Move, MoveFlag};
use crate::engine::piece::{Piece, PieceColor, PieceType};
use core::ops::Not;
use vstd::prelude::*;

verus! {

/// The first square of a side's home rank.
pub open spec fn home_of(color: PieceColor) -> int {
    match color {
        PieceColor::White => 0,
        PieceColor::Black => 56,
    }
}

/// The square of the pawn that a pawn on `sq` takes when it captures en
/// passant onto `ep`: on the capturing pawn's rank, on the file of `ep`.
pub open spec fn passed_pawn_square(sq: int, ep: int) -> int {
    rank_of(sq) * 8 + file_of(ep)
}

impl Position {
    /// The side that is not to move.
    pub open spec fn enemy(self) -> PieceColor {
        self.turn.spec_opposite()
    }

    /// Whether the side to move may castle now, on the king's side
    /// (`king_side`) or the queen's side: it has the right, its king and
    /// rook stand on their first squares, the king is not in check, the
    /// squares between king and rook are empty, and the two squares the king
    /// crosses and reaches are not attacked.
    pub open spec fn can_castle(self, king_side: bool) -> bool {
        let color = self.turn;
        let home = home_of(color);
        let attacked = self.attacks(self.enemy());
        &&& self.state().may_castle(color, king_side)
        &&& self.check_state(color) == CheckState::NoCheck
        &&& self.holds(home + 4, Piece { color, kind: PieceType::King })
        &&& if king_side {
            &&& self.holds(home + 7, Piece { color, kind: PieceType::Rook })
            &&& self.empty_at(home + 5)
            &&& self.empty_at(home + 6)
            &&& !member(attacked, home + 5)
            &&& !member(attacked, home + 6)
        } else {
            &&& self.holds(home, Piece { color, kind: PieceType::Rook })
            &&& self.empty_at(home + 3)
            &&& self.empty_at(home + 2)
            &&& self.empty_at(home + 1)
            &&& !member(attacked, home + 3)
            &&& !member(attacked, home + 2)
        }
    }

    /// Where the king on `sq` may castle to.
    pub open spec fn castle_targets(self, sq: int) -> u64 {
        let home = home_of(self.turn);
        (if sq == home + 4 && self.can_castle(true) {
            bit(home + 6)
        } else {
            0
        }) | (if sq == home + 4 && self.can_castle(false) {
            bit(home + 2)
        } else {
            0
        })
    }

    /// Where the king on `sq` may go: a step to a square that is neither
    /// its own side's nor attacked, or castling.
    pub open spec fn king_targets(self, sq: int) -> u64 {
        ((king_pattern(sq as u64) & !self.colors(self.turn)) & !self.attacks(self.enemy()))
            | self.castle_targets(sq)
    }

    /// Whether taking the pawn on `captured` en passant with the pawn on
    /// `sq` would open a rank or file between the king and a rook or queen
    /// of the other side: the attack is tried with both pawns off the
    /// board.
    pub open spec fn passing_exposes_king(self, sq: int, captured: int) -> bool {
        match self.king_square(self.turn) {
            Some(king) => rook_reach(
                king as u64,
                (self.occupancy() ^ bit(sq)) ^ bit(captured),
            ) & self.orthogonal_sliders(self.enemy()) != 0,
            None => false,
        }
    }

    /// Whether the pawn on `sq` may capture en passant: the en-passant
    /// square is one it attacks and is empty, the pawn that passed stands
    /// beside it, and taking it does not expose the king along a rank or
    /// file.
    pub open spec fn can_pass(self, sq: int) -> bool {
        match self.state().ep_square() {
            Some(ep) => {
                &&& member(
                    attack_set(self.turn, PieceType::Pawn, sq as u64, 0) & !self.colors(self.turn),
                    ep,
                )
                &&& self.empty_at(ep)
                &&& self.holds(
                    passed_pawn_square(sq, ep),
                    Piece { color: self.enemy(), kind: PieceType::Pawn },
                )
                &&& !self.passing_exposes_king(sq, passed_pawn_square(sq, ep))
            },
            None => false,
        }
    }

    /// Where the pawn on `sq` may advance to: one square ahead if it is
    /// empty, and from the pawn's first rank two if both are.
    pub open spec fn pawn_pushes(self, sq: int) -> u64 {
        match self.turn {
            PieceColor::White => if rank_of(sq) < 7 && self.empty_at(sq + 8) {
                bit(sq + 8) | (if rank_of(sq) == 1 && self.empty_at(sq + 16) {
                    bit(sq + 16)
                } else {
                    0
                })
            } else {
                0
            },
            PieceColor::Black => if rank_of(sq) > 0 && self.empty_at(sq - 8) {
                bit(sq - 8) | (if rank_of(sq) == 6 && self.empty_at(sq - 16) {
                    bit(sq - 16)
                } else {
                    0
                })
            } else {
                0
            },
        }
    }

    /// Where the pawn on `sq` may go: diagonally onto a piece of the other
    /// side, onto the en-passant square where that capture is allowed, and
    /// straight ahead.
    pub open spec fn pawn_targets(self, sq: int) -> u64 {
        (((attack_set(self.turn, PieceType::Pawn, sq as u64, 0) & !self.colors(self.turn))
            & self.colors(self.enemy())) | (if self.can_pass(sq) {
            self.state().enpassant.0
        } else {
            0
        })) | self.pawn_pushes(sq)
    }

    /// Where the piece on `sq` could go if check and pins did not matter.
    pub open spec fn free_targets(self, sq: int, kind: PieceType) -> u64 {
        match kind {
            PieceType::King => self.king_targets(sq),
            PieceType::Pawn => self.pawn_targets(sq),
            _ => attack_set(self.turn, kind, sq as u64, self.occupancy()) & !self.colors(
                self.turn,
            ),
        }
    }

    /// The squares on which a piece other than the king answers a single
    /// check given from `attacker`: between attacker and king, or on the
    /// attacker. For a pawn that may capture en passant a checking pawn
    /// that has just passed, the en-passant square stands in for the
    /// attacker's.
    pub open spec fn answers(self, sq: int, kind: PieceType, attacker: int, king: int) -> u64 {
        let plain = between_set(attacker as u64, king as u64) | bit(attacker);
        if kind == PieceType::Pawn && self.can_pass(sq) && attacker == passed_pawn_square(
            sq,
            self.state().ep_square()->0,
        ) {
            (plain ^ bit(attacker)) | self.state().enpassant.0
        } else {
            plain
        }
    }

    /// The targets left to the piece on `sq` by a single check: all of
    /// them for the king, and for another piece those that answer the
    /// check.
    pub open spec fn checked_targets(self, sq: int, kind: PieceType) -> u64 {
        let free = self.free_targets(sq, kind);
        if kind == PieceType::King {
            free
        } else {
            match (self.check_state(self.turn), self.king_square(self.turn)) {
                (CheckState::Single(attacker), Some(king)) => free & self.answers(
                    sq,
                    kind,
                    attacker as int,
                    king,
                ),
                _ => free,
            }
        }
    }

    /// The targets left after the first `k` pin lines: each line that
    /// holds `sq` keeps the piece on itself.
    pub open spec fn pinned_targets(lines: Seq<Bitboard>, sq: int, targets: u64, k: nat) -> u64
        decreases k,
    {
        if k == 0 {
            targets
        } else {
            let before = Self::pinned_targets(lines, sq, targets, (k - 1) as nat);
            if member(lines[k - 1].0, sq) {
                before & lines[k - 1].0
            } else {
                before
            }
        }
    }

    /// Every square that the piece on `sq` may move to.
    pub open spec fn targets(self, sq: int) -> u64 {
        match self.squares[sq] {
            Some(piece) => {
                let lines = self.pin_lines(self.turn);
                Self::pinned_targets(lines, sq, self.checked_targets(sq, piece.kind), lines.len())
            },
            None => 0,
        }
    }

    /// The flag of the move of the piece on `sq` to `to`, promotions
    /// aside: en passant for a pawn that goes diagonally onto the empty
    /// en-passant square, a dash for a pawn that goes two ranks, castling
    /// for a king that goes two files.
    pub open spec fn flag_for(self, sq: int, kind: PieceType, to: int) -> MoveFlag {
        if kind == PieceType::Pawn {
            if self.state().ep_square() == Some(to) && file_of(to) != file_of(sq) && self.empty_at(
                to,
            ) {
                MoveFlag::EnPassant
            } else if to == sq + 16 || sq == to + 16 {
                MoveFlag::PawnDash
            } else {
                MoveFlag::Normal
            }
        } else if kind == PieceType::King && (to == sq + 2 || sq == to + 2) {
            MoveFlag::Castle
        } else {
            MoveFlag::Normal
        }
    }

    /// The moves of the piece on `sq` to `to`: one, or for a pawn that
    /// reaches the first or last rank the four promotions.
    pub open spec fn moves_to(self, sq: int, kind: PieceType, to: int) -> Seq<Move> {
        if kind == PieceType::Pawn && (rank_of(to) == 0 || rank_of(to) == 7) {
            seq![
                Move::of(sq, to, MoveFlag::PromoteQueen),
                Move::of(sq, to, MoveFlag::PromoteRook),
                Move::of(sq, to, MoveFlag::PromoteBishop),
                Move::of(sq, to, MoveFlag::PromoteKnight),
            ]
        } else {
            seq![Move::of(sq, to, self.flag_for(sq, kind, to))]
        }
    }

    /// The moves of the piece on `sq` to the first `k` of `to`.
    pub open spec fn moves_over(self, sq: int, kind: PieceType, to: Seq<int>, k: nat) -> Seq<Move>
        decreases k,
    {
        if k == 0 {
            Seq::empty()
        } else {
            self.moves_over(sq, kind, to, (k - 1) as nat) + self.moves_to(sq, kind, to[k - 1])
        }
    }

    /// The moves of the piece on `sq`, by ascending target square.
    pub open spec fn moves_from(self, sq: int) -> Seq<Move> {
        match self.squares[sq] {
            Some(piece) => {
                let to = squares_of(self.targets(sq));
                self.moves_over(sq, piece.kind, to, to.len())
            },
            None => Seq::empty(),
        }
    }

    /// The moves of the pieces on the first `k` of `from`.
    pub open spec fn moves_of(self, from: Seq<int>, k: nat) -> Seq<Move>
        decreases k,
    {
        if k == 0 {
            Seq::empty()
        } else {
            self.moves_of(from, (k - 1) as nat) + self.moves_from(from[k - 1])
        }
    }

    /// The plain moves from `sq` to the first `k` of `to`.
    pub open spec fn steps_over(sq: int, to: Seq<int>, k: nat) -> Seq<Move>
        decreases k,
    {
        if k == 0 {
            Seq::empty()
        } else {
            Self::steps_over(sq, to, (k - 1) as nat).push(Move::of(sq, to[k - 1], MoveFlag::Normal))
        }
    }

    /// Where the king on `sq` may step out of a double check.
    pub open spec fn escape_targets(self, sq: int) -> u64 {
        (king_pattern(sq as u64) & !self.colors(self.turn)) & !self.attacks(self.enemy())
    }

    /// The moves of the side to move. In double check only the king moves,
    /// by ascending target square. Otherwise every piece of the side moves,
    /// by ascending square of the piece and then of the target.
    pub open spec fn legal_moves(self) -> Seq<Move> {
        if self.check_state(self.turn) == CheckState::Double {
            match self.king_square(self.turn) {
                Some(king) => {
                    let to = squares_of(self.escape_targets(king));
                    Self::steps_over(king, to, to.len())
                },
                None => Seq::empty(),
            }
        } else {
            let from = squares_of(self.colors(self.turn));
            self.moves_of(from, from.len())
        }
    }
}

impl<'a> Board<'a> {
    /// Whether the current state gives the side the right to castle on the
    /// king's side (`king_side`) or on the queen's side.
    fn may_castle(&self, color: PieceColor, king_side: bool) -> (r: bool)
        requires
            self.states@.len() > 0,
        ensures
            r == self@.state().may_castle(color, king_side),
    {
        let state = self.get_state();
        let index: usize = color.index() * 2 + (if king_side {
            0
        } else {
            1
        });
        state.castling[index]
    }

    /// Whether no piece stands on `square`.
    fn is_empty_at(&self, square: u8) -> (r: bool)
        requires
            square < 64,
        ensures
            r == self@.empty_at(square as int),
    {
        self.squares[square as usize].is_none()
    }

    /// Whether `piece` stands on `square`.
    fn stands_on(&self, square: u8, piece: Piece) -> (r: bool)
        requires
            square < 64,
        ensures
            r == self@.holds(square as int, piece),
    {
        match self.squares[square as usize] {
            Some(found) => found == piece,
            None => false,
        }
    }

    /// Whether the side to move may castle now.
    fn can_castle(&self, king_side: bool) -> (r: bool)
        requires
            self.wf(),
        ensures
            r == self@.can_castle(king_side),
    {
        let color = self.turn;
        let enemy = color.opposite();
        let home: u8 = color.get_home_row() * 8;
        let attacked = self.attacks[enemy.index()];
        let checked = self.check_state[color.index()];
        if !self.may_castle(color, king_side) {
            return false;
        }
        if checked != CheckState::NoCheck {
            return false;
        }
        if !self.stands_on(home + 4, Piece::new(color, PieceType::King)) {
            return false;
        }
        if king_side {
            self.stands_on(home + 7, Piece::new(color, PieceType::Rook)) && self.is_empty_at(
                home + 5,
            ) && self.is_empty_at(home + 6) && !attacked.has_square(home + 5)
                && !attacked.has_square(home + 6)
        } else {
            self.stands_on(home, Piece::new(color, PieceType::Rook)) && self.is_empty_at(home + 3)
                && self.is_empty_at(home + 2) && self.is_empty_at(home + 1) && !attacked.has_square(
                home + 3,
            ) && !attacked.has_square(home + 2)
        }
    }

    /// The square of a side's king, where the side has exactly one.
    pub fn king_square(&self, color: PieceColor) -> (r: Option<u8>)
        requires
            self.placement_ok(),
        ensures
            match r {
                Some(king) => king < 64 && self@.king_square(color) == Some(king as int),
                None => self@.king_square(color) is None,
            },
    {
        match self.pieces[Piece::new(color, PieceType::King).get_pieces_index()].to_square() {
            Ok(king) => Some(king),
            Err(_) => None,
        }
    }

    /// The en-passant square of the current state, where it names one.
    pub fn ep_square(&self) -> (r: Option<u8>)
        requires
            self.states@.len() > 0,
        ensures
            match r {
                Some(ep) => ep < 64 && self@.state().ep_square() == Some(ep as int),
                None => self@.state().ep_square() is None,
            },
    {
        match self.get_state().enpassant.to_square() {
            Ok(ep) => Some(ep),
            Err(_) => None,
        }
    }

    /// Whether a rook or queen of the other side attacks the king once the
    /// pawns on `square` and `captured` are off the board.
    fn passing_exposes_king(&self, square: u8, captured: u8) -> (r: bool)
        requires
            self.wf(),
            square < 64,
            captured < 64,
        ensures
            r == self@.passing_exposes_king(square as int, captured as int),
    {
        let enemy = self.turn.opposite();
        match self.king_square(self.turn) {
            Some(king) => {
                let occupancy = ((self.colors[0] | self.colors[1]) ^ Bitboard::from_square(square))
                    ^ Bitboard::from_square(captured);
                let queens = self.pieces[Piece::new(enemy, PieceType::Queen).get_pieces_index()];
                let rooks = self.pieces[Piece::new(enemy, PieceType::Rook).get_pieces_index()];
                let reached = self.computed.attacks.get(
                    self.turn,
                    PieceType::Rook,
                    king,
                    occupancy,
                );
                (reached & (queens | rooks)).is_some()
            },
            None => false,
        }
    }

    /// Whether the pawn on `square` may capture en passant.
    fn can_pass(&self, square: u8) -> (r: bool)
        requires
            self.wf(),
            square < 64,
        ensures
            r == self@.can_pass(square as int),
            r ==> self@.state().ep_square() is Some,
    {
        let color = self.turn;
        let enemy = color.opposite();
        match self.ep_square() {
            Some(ep) => {
                let pattern = self.computed.attacks.get(
                    color,
                    PieceType::Pawn,
                    square,
                    Bitboard::new(),
                );
                let reach = pattern & self.colors[color.index()].not();
                if !reach.has_square(ep) {
                    return false;
                }
                if !self.is_empty_at(ep) {
                    return false;
                }
                let captured: u8 = (square / 8) * 8 + ep % 8;
                if !self.stands_on(captured, Piece::new(enemy, PieceType::Pawn)) {
                    return false;
                }
                !self.passing_exposes_king(square, captured)
            },
            None => false,
        }
    }

    /// Where the pawn on `square` may advance to.
    fn pawn_pushes(&self, square: u8) -> (r: Bitboard)
        requires
            self.wf(),
            square < 64,
        ensures
            r.0 == self@.pawn_pushes(square as int),
    {
        let rank: u8 = square / 8;
        match self.turn {
            PieceColor::White => {
                if rank < 7 && self.is_empty_at(square + 8) {
                    let dash = if rank == 1 && self.is_empty_at(square + 16) {
                        Bitboard::from_square(square + 16)
                    } else {
                        Bitboard::new()
                    };
                    Bitboard::from_square(square + 8) | dash
                } else {
                    Bitboard::new()
                }
            },
            PieceColor::Black => {
                if rank > 0 && self.is_empty_at(square - 8) {
                    let dash = if rank == 6 && self.is_empty_at(square - 16) {
                        Bitboard::from_square(square - 16)
                    } else {
                        Bitboard::new()
                    };
                    Bitboard::from_square(square - 8) | dash
                } else {
                    Bitboard::new()
                }
            },
        }
    }

    /// Where the piece on `square` could go if check and pins did not
    /// matter.
    fn free_targets(&self, square: u8, kind: PieceType) -> (r: Bitboard)
        requires
            self.wf(),
            square < 64,
        ensures
            r.0 == self@.free_targets(square as int, kind),
    {
        let color = self.turn;
        let enemy = color.opposite();
        let friendlies = self.colors[color.index()];
        let enemies = self.colors[enemy.index()];
        let occupancy = self.colors[0] | self.colors[1];
        let attacks = self.computed.attacks.get(color, kind, square, occupancy) & friendlies.not();
        match kind {
            PieceType::King => {
                let home: u8 = color.get_home_row() * 8;
                let short = if square == home + 4 && self.can_castle(true) {
                    Bitboard::from_square(home + 6)
                } else {
                    Bitboard::new()
                };
                let long = if square == home + 4 && self.can_castle(false) {
                    Bitboard::from_square(home + 2)
                } else {
                    Bitboard::new()
                };
                (attacks & self.attacks[enemy.index()].not()) | (short | long)
            },
            PieceType::Pawn => {
                let passing = if self.can_pass(square) {
                    self.get_state().enpassant
                } else {
                    Bitboard::new()
                };
                ((attacks & enemies) | passing) | self.pawn_pushes(square)
            },
            _ => attacks,
        }
    }

    /// The targets that a single check leaves to the piece on `square`.
    fn checked_targets(&self, square: u8, kind: PieceType) -> (r: Bitboard)
        requires
            self.wf(),
            square < 64,
        ensures
            r.0 == self@.checked_targets(square as int, kind),
    {
        let free = self.free_targets(square, kind);
        if kind == PieceType::King {
            return free;
        }
        proof {
            self@.lemma_single_check(self.turn);
        }
        match (self.check_state[self.turn.index()], self.king_square(self.turn)) {
            (CheckState::Single(attacker), Some(king)) => {
                let plain = self.computed.betweens.get(attacker, king) | Bitboard::from_square(
                    attacker,
                );
                let mut resolving = plain;
                if kind == PieceType::Pawn && self.can_pass(square) {
                    match self.ep_square() {
                        Some(ep) => {
                            let captured: u8 = (square / 8) * 8 + ep % 8;
                            if attacker == captured {
                                resolving = (plain ^ Bitboard::from_square(attacker))
                                    | self.get_state().enpassant;
                            }
                        },
                        None => {},
                    }
                }
                free & resolving
            },
            _ => free,
        }
    }

    /// Every square that the piece of kind `kind` on `square` may move to.
    fn targets(&self, square: u8, kind: PieceType) -> (r: Bitboard)
        requires
            self.wf(),
            square < 64,
            self.squares[square as int] is Some,
            self.squares[square as int]->0.kind == kind,
        ensures
            r.0 == self@.targets(square as int),
    {
        let mut targets = self.checked_targets(square, kind);
        let ghost start = targets.0;
        let side = self.turn.index();
        let ghost lines = self@.pin_lines(self.turn);
        let mut i: usize = 0;
        while i < self.pin_lines[side].len()
            invariant
                self.wf(),
                square < 64,
                side == self.turn.spec_index(),
                lines == self.pin_lines[side as int]@,
                0 <= i <= lines.len(),
                targets.0 == Position::pinned_targets(lines, square as int, start, i as nat),
            decreases lines.len() - i,
        {
            let line = self.pin_lines[side][i];
            if line.has_square(square) {
                targets = targets & line;
            }
            i += 1;
        }
        targets
    }

    /// The flag of the move of the piece on `square` to `to`, promotions
    /// aside.
    fn flag_for(&self, square: u8, kind: PieceType, to: u8) -> (r: MoveFlag)
        requires
            self.wf(),
            square < 64,
            to < 64,
        ensures
            r == self@.flag_for(square as int, kind, to as int),
    {
        if kind == PieceType::Pawn {
            let passing = match self.ep_square() {
                Some(ep) => ep == to && to % 8 != square % 8 && self.is_empty_at(to),
                None => false,
            };
            if passing {
                MoveFlag::EnPassant
            } else if to == square + 16 || square == to + 16 {
                MoveFlag::PawnDash
            } else {
                MoveFlag::Normal
            }
        } else if kind == PieceType::King && (to == square + 2 || square == to + 2) {
            MoveFlag::Castle
        } else {
            MoveFlag::Normal
        }
    }

    /// Appends the moves of the piece on `square` to the squares of
    /// `targets`, by ascending target square.
    fn push_moves(&self, moves: &mut Vec<Move>, square: u8, kind: PieceType, targets: Bitboard)
        requires
            self.wf(),
            square < 64,
        ensures
            final(moves)@ == old(moves)@ + self@.moves_over(
                square as int,
                kind,
                squares_of(targets.0),
                squares_of(targets.0).len(),
            ),
    {
        let ghost to = squares_of(targets.0);
        let ghost before = moves@;
        let ghost mut k: nat = 0;
        let mut rest = targets;
        proof {
            assert(to.subrange(0, to.len() as int) =~= to);
            assert(moves@ =~= before + self@.moves_over(square as int, kind, to, 0));
        }
        while rest.0 != 0
            invariant
                self.wf(),
                square < 64,
                0 <= k <= to.len(),
                to.subrange(k as int, to.len() as int) == squares_of(rest.0),
                moves@ == before + self@.moves_over(square as int, kind, to, k),
            decreases rest.0,
        {
            proof {
                lemma_members_step(to, k as int, rest.0);
            }
            match rest.next() {
                Some(target) => {
                    let rank: u8 = target / 8;
                    if kind == PieceType::Pawn && (rank == 0 || rank == 7) {
                        moves.push(Move::new(square, target, MoveFlag::PromoteQueen));
                        moves.push(Move::new(square, target, MoveFlag::PromoteRook));
                        moves.push(Move::new(square, target, MoveFlag::PromoteBishop));
                        moves.push(Move::new(square, target, MoveFlag::PromoteKnight));
                    } else {
                        let flag = self.flag_for(square, kind, target);
                        moves.push(Move::new(square, target, flag));
                    }
                    proof {
                        k = k + 1;
                        assert(moves@ =~= before + self@.moves_over(square as int, kind, to, k));
                    }
                },
                None => {},
            }
        }
        proof {
            lemma_members_done(to, k as int);
        }
    }

    /// Appends the king's plain moves from `square` to the squares of
    /// `targets`.
    fn push_steps(moves: &mut Vec<Move>, square: u8, targets: Bitboard)
        requires
            square < 64,
        ensures
            final(moves)@ == old(moves)@ + Position::steps_over(
                square as int,
                squares_of(targets.0),
                squares_of(targets.0).len(),
            ),
    {
        let ghost to = squares_of(targets.0);
        let ghost before = moves@;
        let ghost mut k: nat = 0;
        let mut rest = targets;
        proof {
            assert(to.subrange(0, to.len() as int) =~= to);
            assert(moves@ =~= before + Position::steps_over(square as int, to, 0));
        }
        while rest.0 != 0
            invariant
                square < 64,
                0 <= k <= to.len(),
                to.subrange(k as int, to.len() as int) == squares_of(rest.0),
                moves@ == before + Position::steps_over(square as int, to, k),
            decreases rest.0,
        {
            proof {
                lemma_members_step(to, k as int, rest.0);
            }
            match rest.next() {
                Some(target) => {
                    moves.push(Move::new(square, target, MoveFlag::Normal));
                    proof {
                        k = k + 1;
                        assert(moves@ =~= before + Position::steps_over(square as int, to, k));
                    }
                },
                None => {},
            }
        }
        proof {
            lemma_members_done(to, k as int);
        }
    }

    /// The moves of the side to move, by ascending square of the piece and
    /// then of the target: the list that `legal_moves` describes, each
    /// move of it one that the position admits. An empty list while in
    /// check is checkmate, an empty list otherwise stalemate. In a sound
    /// position every listed move follows the rules of chess and leaves
    /// the king unattacked (`lemma_listed_follows_rules`,
    /// `lemma_king_is_safe`), and every such move is listed but for a
    /// capture in passing that the two-pawn test refuses
    /// (`lemma_lawful_listed`).
    pub fn calculate_moves(&self) -> (moves: Vec<Move>)
        requires
            self.wf(),
        ensures
            moves@ == self@.legal_moves(),
            forall|i: int| 0 <= i < moves@.len() ==> self@.admits(#[trigger] moves@[i]),
            self@.sound() ==> forall|i: int|
                0 <= i < moves@.len() ==> self@.follows_rules(#[trigger] moves@[i]),
    {
        proof {
            self@.lemma_legal_moves();
            if self@.sound() {
                assert forall|i: int| 0 <= i < self@.legal_moves().len() implies self@.follows_rules(
                    #[trigger] self@.legal_moves()[i],
                ) by {
                    self@.lemma_listed_follows_rules(i);
                }
            }
        }
        let mut moves: Vec<Move> = Vec::new();
        let color = self.turn;
        let enemy = color.opposite();
        let side = color.index();
        let friendlies = self.colors[side];
        let occupancy = self.colors[0] | self.colors[1];

        if self.check_state[side] == CheckState::Double {
            match self.king_square(color) {
                Some(king) => {
                    let attacks = (self.computed.attacks.get(
                        color,
                        PieceType::King,
                        king,
                        occupancy,
                    ) & friendlies.not()) & self.attacks[enemy.index()].not();
                    Self::push_steps(&mut moves, king, attacks);
                },
                None => {},
            }
            return moves;
        }
        let ghost pos = self@;
        let ghost from = squares_of(friendlies.0);
        let ghost mut k: nat = 0;
        let mut rest = friendlies;
        proof {
            assert(from.subrange(0, from.len() as int) =~= from);
        }
        while rest.0 != 0
            invariant
                self.wf(),
                pos == self@,
                from == squares_of(self@.colors(self.turn)),
                0 <= k <= from.len(),
                from.subrange(k as int, from.len() as int) == squares_of(rest.0),
                moves@ == pos.moves_of(from, k),
            decreases rest.0,
        {
            proof {
                lemma_members_step(from, k as int, rest.0);
            }
            match rest.next() {
                Some(square) => {
                    match self.squares[square as usize] {
                        Some(piece) => {
                            let targets = self.targets(square, piece.get_type());
                            self.push_moves(&mut moves, square, piece.get_type(), targets);
                        },
                        None => {},
                    }
                    proof {
                        k = k + 1;
                    }
                },
                None => {},
            }
        }
        proof {
            lemma_members_done(from, k as int);
        }
        moves
    }
}

impl Position {
    /// A single check is given from a square of the board.
    pub proof fn lemma_single_check(self, color: PieceColor)
        ensures
            match self.check_state(color) {
                CheckState::Single(attacker) => attacker < 64,
                _ => true,
            },
    {
        let enemy = color.spec_opposite();
        let from = squares_of(self.colors(enemy));
        lemma_squares_of(self.colors(enemy));
        self.lemma_checks_over(
            from,
            self.placement().occupancy_for_attacks(enemy),
            self.pieces(Piece { color, kind: PieceType::King }),
            from.len(),
        );
    }

    /// A single check over a list of squares of the board is given from a
    /// square of the board.
    proof fn lemma_checks_over(self, from: Seq<int>, occupied: u64, king: u64, k: nat)
        requires
            k <= from.len(),
            forall|i: int| 0 <= i < from.len() ==> 0 <= #[trigger] from[i] < 64,
        ensures
            match self.placement().checks_over(from, occupied, king, k) {
                CheckState::Single(attacker) => attacker < 64,
                _ => true,
            },
        decreases k,
    {
        if k > 0 {
            self.lemma_checks_over(from, occupied, king, (k - 1) as nat);
        }
    }
}

} // verus!
