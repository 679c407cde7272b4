use crate::engine::bitboard::Bitboard;
use crate::engine::bitboard::bits::{bit, file_of};
use crate::engine::board::Board;
use crate::engine::board::generate::{home_of, passed_pawn_square};
use crate::engine::board::position::{BoardState, Position};
use crate::engine::moves::{Move, MoveFlag};
use crate::engine::piece::{Piece, PieceColor, PieceType};
use vstd::prelude::*;

verus! {

/// The square the rook leaves when the king castles to `end`.
pub open spec fn rook_start(end: int) -> int {
    if file_of(end) == 6 {
        end + 1
    } else {
        end - 2
    }
}

/// The square the rook reaches when the king castles to `end`.
pub open spec fn rook_end(end: int) -> int {
    if file_of(end) == 6 {
        end - 1
    } else {
        end + 1
    }
}

impl Position {
    /// The piece that a move takes off the board: for a capture en
    /// passant the pawn that has just passed, else what stands on the
    /// move's end square.
    pub open spec fn captured_by(self, m: Move) -> Option<Piece> {
        if m.flag() == MoveFlag::EnPassant {
            Some(Piece { color: self.squares[m.start()]->0.color.spec_opposite(), kind: PieceType::Pawn })
        } else {
            self.squares[m.end()]
        }
    }

    /// The square that the captured piece stands on.
    pub open spec fn capture_square(self, m: Move) -> int {
        if m.flag() == MoveFlag::EnPassant {
            passed_pawn_square(m.start(), m.end())
        } else {
            m.end()
        }
    }

    /// The piece that stands on the end square after the move: the piece
    /// moved, or the piece a pawn is promoted to.
    pub open spec fn landed_by(self, m: Move) -> Piece {
        let piece = self.squares[m.start()]->0;
        match m.flag().promotion() {
            Some(kind) => Piece { color: piece.color, kind },
            None => piece,
        }
    }

    /// Whether the move can be made on this position: a piece of the side
    /// to move stands on its start square, no piece of that side on its end
    /// square, and what its flag says holds of the position. Every move
    /// that the generator gives for the position is of this kind.
    pub open spec fn accepts(self, m: Move) -> bool {
        let s = m.start();
        let e = m.end();
        &&& self.shaped()
        &&& m.well_formed()
        &&& 0 <= s < 64
        &&& 0 <= e < 64
        &&& s != e
        &&& self.holds_color(s, self.turn)
        &&& !self.holds_color(e, self.turn)
        &&& match m.flag() {
            MoveFlag::Normal => true,
            MoveFlag::EnPassant => {
                &&& self.squares[s]->0.kind == PieceType::Pawn
                &&& self.empty_at(e)
                &&& self.holds(
                    passed_pawn_square(s, e),
                    Piece { color: self.enemy(), kind: PieceType::Pawn },
                )
            },
            MoveFlag::Castle => {
                let home = home_of(self.turn);
                &&& self.holds(s, Piece { color: self.turn, kind: PieceType::King })
                &&& s == home + 4
                &&& (e == home + 6 || e == home + 2)
                &&& self.holds(rook_start(e), Piece { color: self.turn, kind: PieceType::Rook })
                &&& self.empty_at(e)
                &&& self.empty_at(rook_end(e))
            },
            MoveFlag::PawnDash => {
                &&& self.squares[s]->0.kind == PieceType::Pawn
                &&& self.empty_at(e)
                &&& e == (if self.turn == PieceColor::White {
                    s + 16
                } else {
                    s - 16
                })
            },
            _ => self.squares[s]->0.kind == PieceType::Pawn,
        }
    }

    /// The placement after the move.
    pub open spec fn squares_after(self, m: Move) -> Seq<Option<Piece>> {
        let lifted = self.squares.update(m.start(), None);
        let taken = if self.captured_by(m) is Some {
            lifted.update(self.capture_square(m), None)
        } else {
            lifted
        };
        let landed = taken.update(m.end(), Some(self.landed_by(m)));
        if m.flag() == MoveFlag::Castle {
            landed.update(rook_start(m.end()), None).update(
                rook_end(m.end()),
                Some(Piece { color: self.turn, kind: PieceType::Rook }),
            )
        } else {
            landed
        }
    }

    /// Whether the move takes away the right of `color` to castle on the
    /// given side: the king of that colour moves, or its rook leaves its
    /// first square, or a rook is captured there.
    pub open spec fn revokes(self, m: Move, color: PieceColor, king_side: bool) -> bool {
        let piece = self.squares[m.start()]->0;
        let corner = home_of(color) + (if king_side {
            7int
        } else {
            0int
        });
        if color == piece.color {
            piece.kind == PieceType::King || (piece.kind == PieceType::Rook && m.start() == corner)
        } else {
            self.captured_by(m) is Some && self.captured_by(m)->0.kind == PieceType::Rook && m.end()
                == corner
        }
    }

    /// The castling rights after the move.
    pub open spec fn castling_after(self, m: Move) -> Seq<bool> {
        let before = self.state().castling;
        seq![
            before[0] && !self.revokes(m, PieceColor::White, true),
            before[1] && !self.revokes(m, PieceColor::White, false),
            before[2] && !self.revokes(m, PieceColor::Black, true),
            before[3] && !self.revokes(m, PieceColor::Black, false),
        ]
    }

    /// The en-passant square after the move: the square a pawn passes over
    /// in a dash, as a one-square set, and no square after any other move.
    pub open spec fn enpassant_after(self, m: Move) -> u64 {
        if m.flag() == MoveFlag::PawnDash {
            if self.squares[m.start()]->0.color == PieceColor::White {
                bit(m.start() + 8)
            } else {
                bit(m.start() - 8)
            }
        } else {
            0
        }
    }

    /// The halfmove clock after the move: 0 after a pawn move or a
    /// capture, one more after any other move.
    pub open spec fn halfmove_after(self, m: Move) -> int {
        if self.squares[m.start()]->0.kind == PieceType::Pawn || self.captured_by(m) is Some {
            0
        } else {
            self.state().halfmove + 1
        }
    }

    /// The number of the move after the move: one more after a move of
    /// Black.
    pub open spec fn fullmove_after(self, m: Move) -> int {
        if self.squares[m.start()]->0.color == PieceColor::Black {
            self.state().fullmove + 1
        } else {
            self.state().fullmove as int
        }
    }

    /// Whether the counters have room for the move: a counter that the
    /// move raises stands below the largest number it can hold. A pawn
    /// move or a capture needs no room in the halfmove clock, and a move
    /// of White none in the number of the move.
    pub open spec fn has_room(self, m: Move) -> bool {
        self.halfmove_after(m) <= u8::MAX && self.fullmove_after(m) <= u8::MAX
    }

    /// Whether `state` is the state that the move leads to.
    pub open spec fn leads_to(self, m: Move, state: BoardState) -> bool {
        &&& state.castling@ == self.castling_after(m)
        &&& state.enpassant.0 == self.enpassant_after(m)
        &&& state.halfmove == self.halfmove_after(m)
        &&& state.fullmove == self.fullmove_after(m)
        &&& state.captured == self.captured_by(m)
    }

    /// Whether `after` is the position that the move leads to: the pieces
    /// moved, the other side to move, and one more state.
    pub open spec fn made(self, m: Move, after: Position) -> bool {
        &&& after.squares == self.squares_after(m)
        &&& after.turn == self.turn.spec_opposite()
        &&& after.states.len() == self.states.len() + 1
        &&& after.states.drop_last() == self.states
        &&& self.leads_to(m, after.states.last())
    }

    /// Whether the move can be taken back on this position: it has the
    /// shape of a position that the move has just led to.
    pub open spec fn can_undo(self, m: Move) -> bool {
        let s = m.start();
        let e = m.end();
        let captured = self.state().captured;
        &&& self.squares.len() == 64
        &&& self.states.len() >= 2
        &&& m.well_formed()
        &&& 0 <= s < 64
        &&& 0 <= e < 64
        &&& s != e
        &&& self.holds_color(e, self.enemy())
        &&& self.empty_at(s)
        &&& (m.flag() == MoveFlag::Castle ==> {
            let home = home_of(self.enemy());
            &&& (e == home + 6 || e == home + 2)
            &&& s == home + 4
            &&& self.holds(rook_end(e), Piece { color: self.enemy(), kind: PieceType::Rook })
            &&& self.empty_at(rook_start(e))
            &&& captured is None
        })
        &&& (m.flag() == MoveFlag::EnPassant ==> {
            &&& self.empty_at(passed_pawn_square(s, e))
            &&& passed_pawn_square(s, e) != s
            &&& passed_pawn_square(s, e) != e
        })
    }

    /// The square on which a captured piece is put back.
    pub open spec fn restore_square(self, m: Move) -> int {
        if m.flag() == MoveFlag::EnPassant {
            passed_pawn_square(m.start(), m.end())
        } else {
            m.end()
        }
    }

    /// The placement after the move is taken back.
    pub open spec fn squares_before(self, m: Move) -> Seq<Option<Piece>> {
        let piece = self.squares[m.end()]->0;
        let rook = Piece { color: piece.color, kind: PieceType::Rook };
        let hopped = if m.flag() == MoveFlag::Castle {
            self.squares.update(rook_end(m.end()), None).update(rook_start(m.end()), Some(rook))
        } else {
            self.squares
        };
        let home = hopped.update(
            m.start(),
            Some(
                if m.flag().promotion() is Some {
                    Piece { color: piece.color, kind: PieceType::Pawn }
                } else {
                    piece
                },
            ),
        );
        let left = home.update(m.end(), None);
        match self.state().captured {
            Some(captured) => left.update(self.restore_square(m), Some(captured)),
            None => left,
        }
    }

    /// The position after the move is taken back: the pieces where they
    /// stood, the side that made the move to move, and the last state gone.
    pub open spec fn unmade(self, m: Move) -> Position {
        Position {
            squares: self.squares_before(m),
            turn: self.squares[m.end()]->0.color,
            states: self.states.drop_last(),
        }
    }
}

impl<'a> Board<'a> {
    /// The state that the move leads to.
    fn next_state(&self, m: Move) -> (state: BoardState)
        requires
            self.wf(),
            self@.accepts(m),
            self@.has_room(m),
        ensures
            self@.leads_to(m, state),
    {
        let start_square = m.get_start();
        let end_square = m.get_end();
        let flag = m.get_flag();
        let piece = self.squares[start_square as usize].unwrap();
        let piece_type = piece.get_type();
        let color = piece.get_color();
        let enemy = color.opposite();

        let mut state: BoardState = *self.get_state();
        let ghost old_castling = state.castling@;
        state.captured =
        if flag == MoveFlag::EnPassant {
            Some(Piece::new(enemy, PieceType::Pawn))
        } else {
            self.squares[end_square as usize]
        };

        if flag == MoveFlag::PawnDash {
            if color == PieceColor::White {
                state.enpassant = Bitboard::from_square(start_square + 8);
            } else {
                state.enpassant = Bitboard::from_square(start_square - 8);
            }
        } else {
            state.enpassant = Bitboard::new();
        }

        let own: usize = color.index() * 2;
        let other: usize = enemy.index() * 2;
        let home: u8 = color.get_home_row() * 8;
        let enemy_home: u8 = enemy.get_home_row() * 8;
        if piece_type == PieceType::King {
            state.castling[own] = false;
            state.castling[own + 1] = false;
        }
        if piece_type == PieceType::Rook {
            if start_square == home {
                state.castling[own + 1] = false;
            }
            if start_square == home + 7 {
                state.castling[own] = false;
            }
        }
        match state.captured {
            Some(captured) => {
                if captured.get_type() == PieceType::Rook {
                    if end_square == enemy_home {
                        state.castling[other + 1] = false;
                    }
                    if end_square == enemy_home + 7 {
                        state.castling[other] = false;
                    }
                }
            },
            None => {},
        }

        if piece_type == PieceType::Pawn || state.captured.is_some() {
            state.halfmove = 0;
        } else {
            state.halfmove = state.halfmove + 1;
        }
        if color == PieceColor::Black {
            state.fullmove = state.fullmove + 1;
        }
        proof {
            assert(state.castling@ =~= self@.castling_after(m));
        }
        state
    }

    /// Moves the pieces of a move: the piece itself, the captured piece,
    /// and the rook when castling.
    fn move_pieces(&mut self, m: Move)
        requires
            old(self).placement_ok(),
            old(self)@.accepts(m),
        ensures
            final(self).placement_ok(),
            final(self)@.squares == old(self)@.squares_after(m),
            final(self)@.turn == old(self)@.turn,
            final(self)@.states == old(self)@.states,
            final(self).computed == old(self).computed,
    {
        let start_square = m.get_start();
        let end_square = m.get_end();
        let flag = m.get_flag();
        let is_enpassant = flag == MoveFlag::EnPassant;
        let piece = self.squares[start_square as usize].unwrap();
        let color = piece.get_color();
        let enemy = color.opposite();
        let ghost before = self@;
        let captured = if is_enpassant {
            Some(Piece::new(enemy, PieceType::Pawn))
        } else {
            self.squares[end_square as usize]
        };

        self.clear_square(start_square, piece);

        match captured {
            Some(taken) => {
                let square: u8 = if is_enpassant {
                    (start_square / 8) * 8 + end_square % 8
                } else {
                    end_square
                };
                self.clear_square(square, taken);
            },
            None => {},
        }

        match m.get_promote_piece_type() {
            Some(kind) => {
                self.set_square(end_square, Piece::new(color, kind));
            },
            None => {
                self.set_square(end_square, piece);
            },
        }

        if flag == MoveFlag::Castle {
            let rook = Piece::new(color, PieceType::Rook);
            let (from_square, to_square): (u8, u8) = if end_square % 8 == 6 {
                (end_square + 1, end_square - 1)
            } else {
                (end_square - 2, end_square + 1)
            };
            self.clear_square(from_square, rook);
            self.set_square(to_square, rook);
        }
        proof {
            assert(self@.squares =~= before.squares_after(m));
        }
    }

    /// Makes a move that the position accepts: moves the piece, takes the
    /// captured piece off, moves the rook when castling, promotes, brings
    /// rights, en-passant square and counters up to date in a new state,
    /// brings the derived quantities up to date and gives the turn to the
    /// other side.
    pub fn make_move(&mut self, m: Move)
        requires
            old(self).wf(),
            old(self)@.accepts(m),
            old(self)@.has_room(m),
        ensures
            final(self).wf(),
            old(self)@.made(m, final(self)@),
            final(self).computed == old(self).computed,
            old(self)@.sound() && old(self)@.legal_moves().contains(m) ==> final(self)@.sound(),
    {
        let ghost before = self@;
        let state = self.next_state(m);
        let enemy = self.turn.opposite();
        self.move_pieces(m);
        self.states.push(state);
        self.turn = enemy;
        self.refresh();
        proof {
            assert(self@.states.drop_last() =~= before.states);
            if before.sound() && before.legal_moves().contains(m) {
                let i = choose|i: int|
                    0 <= i < before.legal_moves().len() && before.legal_moves()[i] == m;
                before.lemma_stays_sound(i, self@);
            }
        }
    }

    /// Takes back the move that was made last: puts the rook back after
    /// castling, puts the piece (a pawn again after a promotion) on its
    /// start square, puts the captured piece back, drops the last state,
    /// brings the derived quantities up to date and gives the turn back.
    pub fn undo_move(&mut self, m: Move)
        requires
            old(self).wf(),
            old(self)@.can_undo(m),
        ensures
            final(self).wf(),
            final(self)@ == old(self)@.unmade(m),
            final(self).computed == old(self).computed,
    {
        let start_square = m.get_start();
        let end_square = m.get_end();
        let flag = m.get_flag();
        let is_enpassant = flag == MoveFlag::EnPassant;
        let is_castle = flag == MoveFlag::Castle;
        let is_promote = m.get_promote_piece_type().is_some();

        let piece = self.squares[end_square as usize].unwrap();
        let color = piece.get_color();
        let ghost before = self@;

        let state = self.states.pop().unwrap();

        if is_castle {
            let rook = Piece::new(color, PieceType::Rook);
            let (from_square, to_square): (u8, u8) = if end_square % 8 == 6 {
                (end_square - 1, end_square + 1)
            } else {
                (end_square + 1, end_square - 2)
            };
            self.clear_square(from_square, rook);
            self.set_square(to_square, rook);
        }

        if is_promote {
            self.set_square(start_square, Piece::new(color, PieceType::Pawn));
        } else {
            self.set_square(start_square, piece);
        }

        self.clear_square(end_square, piece);

        match state.captured {
            Some(captured) => {
                let square: u8 = if is_enpassant {
                    (start_square / 8) * 8 + end_square % 8
                } else {
                    end_square
                };
                self.set_square(square, captured);
            },
            None => {},
        }

        self.turn = color;
        self.refresh();

        proof {
            assert(self@.squares =~= before.squares_before(m));
            assert(self@.states =~= before.states.drop_last());
        }
    }
}

impl<'a> Board<'a> {
    /// Whether the move can be made on this board.
    pub fn accepts(&self, m: Move) -> (r: bool)
        requires
            self.states@.len() > 0,
        ensures
            r == self@.accepts(m),
    {
        let s = m.get_start();
        let e = m.get_end();
        let color = self.turn;
        let enemy = color.opposite();
        if s == e {
            return false;
        }
        let piece = match self.squares[s as usize] {
            Some(piece) => piece,
            None => {
                return false;
            },
        };
        if piece.get_color() != color {
            return false;
        }
        match self.squares[e as usize] {
            Some(target) => {
                if target.get_color() == color {
                    return false;
                }
            },
            None => {},
        }
        let empty_end = self.squares[e as usize].is_none();
        match m.get_flag() {
            MoveFlag::Normal => true,
            MoveFlag::EnPassant => {
                let passed: u8 = (s / 8) * 8 + e % 8;
                piece.get_type() == PieceType::Pawn && empty_end && (match self.squares[passed as usize] {
                    Some(found) => found == Piece::new(enemy, PieceType::Pawn),
                    None => false,
                })
            },
            MoveFlag::Castle => {
                let home: u8 = color.get_home_row() * 8;
                if !(piece == Piece::new(color, PieceType::King) && s == home + 4 && (e == home + 6
                    || e == home + 2) && empty_end) {
                    return false;
                }
                let (from_square, to_square): (u8, u8) = if e % 8 == 6 {
                    (e + 1, e - 1)
                } else {
                    (e - 2, e + 1)
                };
                (match self.squares[from_square as usize] {
                    Some(found) => found == Piece::new(color, PieceType::Rook),
                    None => false,
                }) && self.squares[to_square as usize].is_none()
            },
            MoveFlag::PawnDash => {
                piece.get_type() == PieceType::Pawn && empty_end && (if color == PieceColor::White {
                    s <= 47 && e == s + 16
                } else {
                    s >= 16 && e == s - 16
                })
            },
            _ => piece.get_type() == PieceType::Pawn,
        }
    }

    /// Whether the counters have room for a move that the board accepts.
    pub fn has_room(&self, m: Move) -> (r: bool)
        requires
            self.wf(),
            self@.accepts(m),
        ensures
            r == self@.has_room(m),
    {
        let piece = self.squares[m.get_start() as usize].unwrap();
        let state = self.get_state();
        let resets = piece.get_type() == PieceType::Pawn || m.get_flag() == MoveFlag::EnPassant
            || self.squares[m.get_end() as usize].is_some();
        (resets || state.halfmove < 255) && (piece.get_color() == PieceColor::White
            || state.fullmove < 255)
    }

    /// Makes the move if the board accepts it and the counters have room
    /// for it, and says whether it did; a move that is not made leaves the
    /// board as it is.
    pub fn try_make_move(&mut self, m: Move) -> (made: bool)
        requires
            old(self).wf(),
        ensures
            final(self).wf(),
            final(self).computed == old(self).computed,
            made == (old(self)@.accepts(m) && old(self)@.has_room(m)),
            made ==> old(self)@.made(m, final(self)@),
            !made ==> *final(self) == *old(self),
    {
        if !self.accepts(m) || !self.has_room(m) {
            return false;
        }
        self.make_move(m);
        true
    }
}


impl<'a> Board<'a> {
    /// Whether the move can be taken back on this board.
    pub fn can_undo(&self, m: Move) -> (r: bool)
        ensures
            r == self@.can_undo(m),
    {
        let s = m.get_start();
        let e = m.get_end();
        let flag = m.get_flag();
        let mover = self.turn.opposite();
        if self.states.len() < 2 || s == e {
            return false;
        }
        let piece = match self.squares[e as usize] {
            Some(piece) => piece,
            None => {
                return false;
            },
        };
        if piece.get_color() != mover || self.squares[s as usize].is_some() {
            return false;
        }
        if flag == MoveFlag::Castle {
            let home: u8 = mover.get_home_row() * 8;
            if !((e == home + 6 || e == home + 2) && s == home + 4) {
                return false;
            }
            let (from_square, to_square): (u8, u8) = if e % 8 == 6 {
                (e - 1, e + 1)
            } else {
                (e + 1, e - 2)
            };
            let rook_there = match self.squares[from_square as usize] {
                Some(found) => found == Piece::new(mover, PieceType::Rook),
                None => false,
            };
            if !rook_there || self.squares[to_square as usize].is_some()
                || self.get_state().captured.is_some() {
                return false;
            }
        }
        if flag == MoveFlag::EnPassant {
            let passed: u8 = (s / 8) * 8 + e % 8;
            if self.squares[passed as usize].is_some() || passed == s || passed == e {
                return false;
            }
        }
        true
    }

    /// Takes the move back if it can be taken back on this board, and
    /// says whether it did; a move that is not taken back leaves the board
    /// as it is.
    pub fn try_undo_move(&mut self, m: Move) -> (undone: bool)
        requires
            old(self).wf(),
        ensures
            final(self).wf(),
            final(self).computed == old(self).computed,
            undone == old(self)@.can_undo(m),
            undone ==> final(self)@ == old(self)@.unmade(m),
            !undone ==> *final(self) == *old(self),
    {
        if !self.can_undo(m) {
            return false;
        }
        self.undo_move(m);
        true
    }
}

} // verus!
