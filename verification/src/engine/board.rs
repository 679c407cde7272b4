pub mod castling;
pub mod generate;
pub mod lawful;
pub mod laws;
pub mod making;
pub mod meaning;
pub mod position;
pub mod rules;
pub mod safety;
pub mod sound;
pub mod update;

use crate::engine::bitboard::Bitboard;
use crate::engine::bitboard::bits::bit;
use crate::engine::board::position::{BoardState, CheckState, Position};
use crate::engine::computed::Computed;
use crate::engine::piece::{Piece, PieceColor};
use vstd::prelude::*;

verus! {

/// A position on the board, with what is derived from it kept up to date:
/// the squares each side attacks, the lines along which pieces are pinned,
/// and whether each king is in check.
#[derive(Clone)]
pub struct Board<'a> {
    /// The tables that do not depend on the position.
    pub computed: &'a Computed,
    /// The side to move.
    pub turn: PieceColor,
    /// What stands on each square.
    pub squares: [Option<Piece>; 64],
    /// For each of the twelve pieces the squares it stands on.
    pub pieces: [Bitboard; 12],
    /// For each side the squares its pieces stand on.
    pub colors: [Bitboard; 2],
    /// For each side the lines its sliders stand on.
    pub rays: [Bitboard; 2],
    /// For each side the squares its pieces attack.
    pub attacks: [Bitboard; 2],
    /// For each side the lines along which its pieces are pinned.
    pub pin_lines: [Vec<Bitboard>; 2],
    /// For each side whether its king is in check.
    pub check_state: [CheckState; 2],
    /// One state per move made and one for the start: the last is the
    /// current one.
    pub states: Vec<BoardState>,
}

impl<'a> View for Board<'a> {
    type V = Position;

    open spec fn view(&self) -> Position {
        Position { squares: self.squares@, turn: self.turn, states: self.states@ }
    }
}

impl<'a> Board<'a> {
    /// The two views of the placement agree: a piece's set holds a square
    /// exactly when the piece stands on it, and a side's set is the union
    /// of its pieces' sets.
    pub open spec fn placement_ok(&self) -> bool {
        &&& forall|i: int|
            0 <= i < 12 ==> (#[trigger] self.pieces[i]).0 == self@.pieces(Piece::at_index(i))
        &&& self.colors[0].0 == self@.colors(PieceColor::White)
        &&& self.colors[1].0 == self@.colors(PieceColor::Black)
    }

    /// What is derived from the placement is up to date.
    pub open spec fn derived_ok(&self) -> bool {
        &&& self.rays[0].0 == self@.rays(PieceColor::White)
        &&& self.rays[1].0 == self@.rays(PieceColor::Black)
        &&& self.attacks[0].0 == self@.attacks(PieceColor::White)
        &&& self.attacks[1].0 == self@.attacks(PieceColor::Black)
        &&& self.pin_lines[0]@ == self@.pin_lines(PieceColor::White)
        &&& self.pin_lines[1]@ == self@.pin_lines(PieceColor::Black)
        &&& self.check_state[0] == self@.check_state(PieceColor::White)
        &&& self.check_state[1] == self@.check_state(PieceColor::Black)
    }

    /// The board is consistent: the placement agrees with itself, the
    /// derived quantities are up to date, there is a current state, and
    /// the tables are in order.
    pub open spec fn wf(&self) -> bool {
        &&& self.computed.wf()
        &&& self.placement_ok()
        &&& self.derived_ok()
        &&& self.states.len() > 0
    }

    /// Whether `other` has the same placement, turn, states and tables.
    pub open spec fn same_core(&self, other: &Board<'a>) -> bool {
        &&& self.computed == other.computed
        &&& self.turn == other.turn
        &&& self.squares == other.squares
        &&& self.pieces == other.pieces
        &&& self.colors == other.colors
        &&& self.states == other.states
    }

    /// An empty board with White to move and no state yet.
    pub fn new(computed: &'a Computed) -> (r: Self)
        ensures
            r.computed == computed,
            r.turn == PieceColor::White,
            forall|sq: int| 0 <= sq < 64 ==> r.squares[sq] is None,
            r.placement_ok(),
            r.states@.len() == 0,
            r.rays[0].0 == 0 && r.rays[1].0 == 0,
            r.attacks[0].0 == 0 && r.attacks[1].0 == 0,
            r.pin_lines[0]@.len() == 0 && r.pin_lines[1]@.len() == 0,
            r.check_state[0] == CheckState::NoCheck && r.check_state[1] == CheckState::NoCheck,
    {
        let r = Board {
            computed,
            turn: PieceColor::White,
            squares: [None;64],
            pieces: [Bitboard(0);12],
            colors: [Bitboard(0);2],
            rays: [Bitboard(0);2],
            attacks: [Bitboard(0);2],
            pin_lines: [Vec::new(), Vec::new()],
            check_state: [CheckState::NoCheck;2],
            states: Vec::new(),
        };
        proof {
            r@.placement().lemma_empty();
        }
        r
    }

    /// The current state.
    pub fn get_state(&self) -> (r: &BoardState)
        requires
            self.states@.len() > 0,
        ensures
            *r == self@.state(),
    {
        &self.states[self.states.len() - 1]
    }

    /// Puts `piece` on `square`: in the square's entry, in the piece's set
    /// and in its side's set. On an empty square of a consistent placement
    /// the placement stays consistent.
    pub fn set_square(&mut self, square: u8, piece: Piece)
        requires
            square < 64,
        ensures
            final(self)@ == old(self)@.place(square as int, piece),
            final(self).pieces@ == old(self).pieces@.update(
                piece.spec_pieces_index(),
                Bitboard(old(self).pieces[piece.spec_pieces_index()].0 | bit(square as int)),
            ),
            final(self).colors@ == old(self).colors@.update(
                piece.color.spec_index(),
                Bitboard(old(self).colors[piece.color.spec_index()].0 | bit(square as int)),
            ),
            final(self).computed == old(self).computed,
            final(self).rays == old(self).rays,
            final(self).attacks == old(self).attacks,
            final(self).pin_lines == old(self).pin_lines,
            final(self).check_state == old(self).check_state,
            old(self).placement_ok() && old(self)@.empty_at(square as int) ==> final(self).placement_ok(),
    {
        let bitboard = Bitboard::from_square(square);
        let color = piece.get_color();
        let index = piece.get_pieces_index();
        let side = color.index();
        proof {
            if self.placement_ok() && self@.empty_at(square as int) {
                self@.placement().lemma_place(square as int, piece);
            }
        }
        self.squares[square as usize] = Some(piece);
        self.pieces[index] = self.pieces[index] | bitboard;
        self.colors[side] = self.colors[side] | bitboard;
        proof {
            assert(self@.squares =~= old(self)@.place(square as int, piece).squares);
            if old(self).placement_ok() && old(self)@.empty_at(square as int) {
                assert forall|i: int| 0 <= i < 12 implies (#[trigger] self.pieces[i]).0
                    == self@.pieces(Piece::at_index(i)) by {
                    if i != index {
                        assert(Piece::at_index(i) != piece);
                    }
                }
            }
        }
    }

    /// Takes `piece` off `square`: out of the square's entry, out of the
    /// piece's set and out of its side's set. Where the piece stands on
    /// that square of a consistent placement, the placement stays
    /// consistent.
    pub fn clear_square(&mut self, square: u8, piece: Piece)
        requires
            square < 64,
        ensures
            final(self)@ == old(self)@.lift(square as int),
            final(self).pieces@ == old(self).pieces@.update(
                piece.spec_pieces_index(),
                Bitboard(old(self).pieces[piece.spec_pieces_index()].0 ^ bit(square as int)),
            ),
            final(self).colors@ == old(self).colors@.update(
                piece.color.spec_index(),
                Bitboard(old(self).colors[piece.color.spec_index()].0 ^ bit(square as int)),
            ),
            final(self).computed == old(self).computed,
            final(self).rays == old(self).rays,
            final(self).attacks == old(self).attacks,
            final(self).pin_lines == old(self).pin_lines,
            final(self).check_state == old(self).check_state,
            old(self).placement_ok() && old(self)@.holds(square as int, piece) ==> final(self).placement_ok(),
    {
        let bitboard = Bitboard::from_square(square);
        let color = piece.get_color();
        let index = piece.get_pieces_index();
        let side = color.index();
        proof {
            if self.placement_ok() && self@.holds(square as int, piece) {
                self@.placement().lemma_lift(square as int, piece);
            }
        }
        self.squares[square as usize] = None;
        self.pieces[index] = self.pieces[index] ^ bitboard;
        self.colors[side] = self.colors[side] ^ bitboard;
        proof {
            assert(self@.squares =~= old(self)@.lift(square as int).squares);
            if old(self).placement_ok() && old(self)@.holds(square as int, piece) {
                assert forall|i: int| 0 <= i < 12 implies (#[trigger] self.pieces[i]).0
                    == self@.pieces(Piece::at_index(i)) by {
                    if i != index {
                        assert(Piece::at_index(i) != piece);
                    }
                }
            }
        }
    }
}

} // verus!
