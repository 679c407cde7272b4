use crate::engine::bitboard::bits::{lemma_member_ops, lemma_same_members, member};
use crate::engine::board::Board;
use crate::engine::board::position::Position;
use crate::engine::moves::Move;
use crate::engine::piece::{Piece, PieceColor};
use vstd::prelude::*;

verus! {

impl Position {
    /// Taking a move back after making it gives the position before the
    /// move: the same placement, the same side to move, the same states.
    pub proof fn lemma_make_undo(self, m: Move, after: Position)
        requires
            self.shaped(),
            self.accepts(m),
            self.made(m, after),
        ensures
            after.can_undo(m),
            after.unmade(m) == self,
    {
        assert(after.unmade(m).squares =~= self.squares);
        assert(after.unmade(m).states =~= self.states);
    }
}

impl<'a> Board<'a> {
    /// On a board whose placement is consistent the two sides share no
    /// square, and a square is in a piece's set exactly when that piece
    /// stands on it: so each occupied square is in one piece's set, and
    /// each empty square in none.
    pub proof fn lemma_placement(&self)
        requires
            self.placement_ok(),
        ensures
            self.colors[0].0 & self.colors[1].0 == 0,
            forall|i: int, sq: int|
                0 <= i < 12 && 0 <= sq < 64 ==> (member((#[trigger] self.pieces[i]).0, sq)
                    <==> #[trigger] self.squares[sq] == Some(Piece::at_index(i))),
            forall|sq: int|
                0 <= sq < 64 ==> (member(self.colors[0].0, sq) <==> (#[trigger] self.squares[sq]
                    is Some && self.squares[sq]->0.color == PieceColor::White)),
            forall|sq: int|
                0 <= sq < 64 ==> (member(self.colors[1].0, sq) <==> (#[trigger] self.squares[sq]
                    is Some && self.squares[sq]->0.color == PieceColor::Black)),
    {
        let white = self.colors[0].0;
        let black = self.colors[1].0;
        assert forall|sq: int| 0 <= sq < 64 implies member(white & black, sq) == member(0, sq) by {
            self@.placement().lemma_sets(sq);
            lemma_member_ops(white, black, sq);
            lemma_member_ops(0, 0, sq);
        }
        lemma_same_members(white & black, 0);
        assert forall|i: int, sq: int| 0 <= i < 12 && 0 <= sq < 64 implies (member(
            (#[trigger] self.pieces[i]).0,
            sq,
        ) <==> #[trigger] self.squares[sq] == Some(Piece::at_index(i))) by {
            self@.placement().lemma_sets(sq);
        }
        assert forall|sq: int| 0 <= sq < 64 implies (member(self.colors[0].0, sq) <==> (
        #[trigger] self.squares[sq] is Some && self.squares[sq]->0.color == PieceColor::White)) by {
            self@.placement().lemma_sets(sq);
        }
        assert forall|sq: int| 0 <= sq < 64 implies (member(self.colors[1].0, sq) <==> (
        #[trigger] self.squares[sq] is Some && self.squares[sq]->0.color == PieceColor::Black)) by {
            self@.placement().lemma_sets(sq);
        }
    }

    /// Two consistent boards that show the same position are the same in
    /// every field: the piece sets and everything derived from the
    /// placement follow from what stands on the squares.
    pub proof fn lemma_same_position(&self, other: &Board<'a>)
        requires
            self.wf(),
            other.wf(),
            self@ == other@,
        ensures
            self.turn == other.turn,
            self.squares@ == other.squares@,
            self.pieces@ == other.pieces@,
            self.colors@ == other.colors@,
            self.rays@ == other.rays@,
            self.attacks@ == other.attacks@,
            self.pin_lines[0]@ == other.pin_lines[0]@,
            self.pin_lines[1]@ == other.pin_lines[1]@,
            self.check_state@ == other.check_state@,
            self.states@ == other.states@,
    {
        assert(self.pieces@ =~= other.pieces@);
        assert(self.colors@ =~= other.colors@);
        assert(self.rays@ =~= other.rays@);
        assert(self.attacks@ =~= other.attacks@);
        assert(self.check_state@ =~= other.check_state@);
    }

    /// Making a move and taking it back leaves the board as it was, field
    /// by field, the derived ones too: `made` is the board after
    /// `make_move`, `undone` the board after `undo_move` of the same move.
    pub proof fn lemma_make_undo(&self, m: Move, made: &Board<'a>, undone: &Board<'a>)
        requires
            self.wf(),
            self@.accepts(m),
            made.wf(),
            self@.made(m, made@),
            undone.wf(),
            undone@ == made@.unmade(m),
        ensures
            made@.can_undo(m),
            undone@ == self@,
            undone.turn == self.turn,
            undone.squares@ == self.squares@,
            undone.pieces@ == self.pieces@,
            undone.colors@ == self.colors@,
            undone.rays@ == self.rays@,
            undone.attacks@ == self.attacks@,
            undone.pin_lines[0]@ == self.pin_lines[0]@,
            undone.pin_lines[1]@ == self.pin_lines[1]@,
            undone.check_state@ == self.check_state@,
            undone.states@ == self.states@,
    {
        self@.lemma_make_undo(m, made@);
        undone.lemma_same_position(self);
    }
}

} // verus!
