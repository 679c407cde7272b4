use crate::engine::bitboard::Bitboard;
use crate::engine::bitboard::bits::{
    bit, lemma_member_bit, lemma_member_ops, lemma_same_members, member, squares_of,
};
use crate::engine::computed::patterns::{attack_set, between_set};
use crate::engine::computed::sliding::{antidiag_line, diagonal_line, file_line, rank_line};
use crate::engine::computed::{xray_diagonal_set, xray_orthogonal_set};
use crate::engine::piece::{Piece, PieceColor, PieceType};
use vstd::prelude::*;

verus! {

/// What a move cannot bring back by itself: it is kept, one entry per
/// move made, so that the move can be undone.
#[derive(Clone, Copy, Debug, PartialEq, Eq)]
pub struct BoardState {
    /// The castling rights: White king's side, White queen's side, Black
    /// king's side, Black queen's side.
    pub castling: [bool; 4],
    /// The square a pawn has just passed over in a two-square advance, as a
    /// one-square set; empty when there is none.
    pub enpassant: Bitboard,
    /// Moves since the last pawn move or capture, both sides counted.
    pub halfmove: u8,
    /// The number of the move, counted up after each move of Black.
    pub fullmove: u8,
    /// The piece that the move leading here captured.
    pub captured: Option<Piece>,
}

impl BoardState {
    /// No castling rights, no en-passant square, clock at 0, move 1.
    pub fn new() -> (r: Self)
        ensures
            r.castling@ == seq![false, false, false, false],
            r.enpassant.0 == 0,
            r.halfmove == 0,
            r.fullmove == 1,
            r.captured is None,
    {
        let r = BoardState {
            castling: [false;4],
            enpassant: Bitboard(0),
            halfmove: 0,
            fullmove: 1,
            captured: None,
        };
        assert(r.castling@ =~= seq![false, false, false, false]);
        r
    }

    /// The en-passant square, where the state names exactly one.
    pub open spec fn ep_square(self) -> Option<int> {
        match self.enpassant.to_square_spec() {
            Ok(sq) => Some(sq as int),
            Err(_) => None,
        }
    }

    /// Whether the side may still castle on the king's side
    /// (`king_side`) or on the queen's side.
    pub open spec fn may_castle(self, color: PieceColor, king_side: bool) -> bool {
        self.castling[color.spec_index() * 2 + (if king_side {
            0int
        } else {
            1int
        })]
    }
}

/// Whether, and by how many pieces, a side's king is attacked.
#[derive(Clone, Copy, Debug, PartialEq, Eq, Structural)]
pub enum CheckState {
    /// The king is not attacked.
    NoCheck,
    /// One piece attacks the king: it stands on the square given.
    Single(u8),
    /// Two or more pieces attack the king.
    Double,
}

impl CheckState {
    /// The state after one more attacker, standing on `square`, is found.
    pub open spec fn add(self, square: int) -> CheckState {
        match self {
            CheckState::NoCheck => CheckState::Single(square as u8),
            _ => CheckState::Double,
        }
    }
}

/// The set of the squares below `n` for which `f` holds.
pub open spec fn set_of(f: spec_fn(int) -> bool, n: nat) -> u64
    decreases n,
{
    if n == 0 {
        0
    } else {
        set_of(f, (n - 1) as nat) | (if f(n - 1) {
            bit(n - 1)
        } else {
            0
        })
    }
}

/// A square is in `set_of(f, n)` exactly when it is below `n` and `f`
/// holds for it.
pub proof fn lemma_set_of(f: spec_fn(int) -> bool, n: nat, sq: int)
    requires
        n <= 64,
    ensures
        member(set_of(f, n), sq) == (0 <= sq < n && f(sq)),
    decreases n,
{
    if n > 0 {
        lemma_set_of(f, (n - 1) as nat, sq);
        let rest = set_of(f, (n - 1) as nat);
        let last: u64 = if f(n - 1) {
            bit(n - 1)
        } else {
            0
        };
        lemma_member_ops(rest, last, sq);
        lemma_member_bit(n - 1, sq);
    } else {
        lemma_member_ops(0, 0, sq);
    }
}

/// What stands on each of the sixty-four squares.
pub struct Placement {
    pub squares: Seq<Option<Piece>>,
}

/// A position: what stands on each square, whose turn it is, and the
/// states kept for undoing, the last of them the current one.
pub struct Position {
    pub squares: Seq<Option<Piece>>,
    pub turn: PieceColor,
    pub states: Seq<BoardState>,
}

impl Placement {
    /// Whether `piece` stands on `sq`.
    pub open spec fn holds(self, sq: int, piece: Piece) -> bool {
        0 <= sq < 64 && self.squares[sq] == Some(piece)
    }

    /// Whether a piece of the given colour stands on `sq`.
    pub open spec fn holds_color(self, sq: int, color: PieceColor) -> bool {
        0 <= sq < 64 && self.squares[sq] is Some && self.squares[sq]->0.color == color
    }

    /// Whether no piece stands on `sq`.
    pub open spec fn empty_at(self, sq: int) -> bool {
        0 <= sq < 64 && self.squares[sq] is None
    }

    /// The squares on which `piece` stands.
    pub open spec fn pieces(self, piece: Piece) -> u64 {
        set_of(|sq: int| self.squares[sq] == Some(piece), 64)
    }

    /// The squares on which pieces of the given colour stand.
    pub open spec fn colors(self, color: PieceColor) -> u64 {
        set_of(|sq: int| self.squares[sq] is Some && self.squares[sq]->0.color == color, 64)
    }

    /// The squares on which any piece stands.
    pub open spec fn occupancy(self) -> u64 {
        self.colors(PieceColor::White) | self.colors(PieceColor::Black)
    }

    /// The square of the side's king, where the side has exactly one.
    pub open spec fn king_square(self, color: PieceColor) -> Option<int> {
        match Bitboard(self.pieces(Piece { color, kind: PieceType::King })).to_square_spec() {
            Ok(sq) => Some(sq as int),
            Err(_) => None,
        }
    }

    /// What the piece on `sq` attacks when the squares of `occupied` are
    /// taken; nothing when the square is empty.
    pub open spec fn attack_from(self, sq: int, occupied: u64) -> u64 {
        match self.squares[sq] {
            Some(piece) => attack_set(piece.color, piece.kind, sq as u64, occupied),
            None => 0,
        }
    }

    /// The occupancy that a side's attacks are taken against: all pieces
    /// but the other side's king, so that an attack goes on through the
    /// king's square.
    pub open spec fn occupancy_for_attacks(self, color: PieceColor) -> u64 {
        self.occupancy() ^ self.pieces(Piece { color: color.spec_opposite(), kind: PieceType::King })
    }

    /// The union of what the pieces on the first `k` of `from` attack.
    pub open spec fn attacks_over(self, from: Seq<int>, occupied: u64, k: nat) -> u64
        decreases k,
    {
        if k == 0 {
            0
        } else {
            self.attacks_over(from, occupied, (k - 1) as nat) | self.attack_from(
                from[k - 1],
                occupied,
            )
        }
    }

    /// Every square that some piece of the side attacks.
    pub open spec fn attacks(self, color: PieceColor) -> u64 {
        let from = squares_of(self.colors(color));
        self.attacks_over(from, self.occupancy_for_attacks(color), from.len())
    }

    /// The check state that the pieces on the first `k` of `from` give to
    /// a king on the squares of `king`.
    pub open spec fn checks_over(self, from: Seq<int>, occupied: u64, king: u64, k: nat) -> CheckState
        decreases k,
    {
        if k == 0 {
            CheckState::NoCheck
        } else {
            let before = self.checks_over(from, occupied, king, (k - 1) as nat);
            if self.attack_from(from[k - 1], occupied) & king != 0 {
                before.add(from[k - 1])
            } else {
                before
            }
        }
    }

    /// Whether the side's king is attacked, and by how many pieces.
    pub open spec fn check_state(self, color: PieceColor) -> CheckState {
        let enemy = color.spec_opposite();
        let from = squares_of(self.colors(enemy));
        self.checks_over(
            from,
            self.occupancy_for_attacks(enemy),
            self.pieces(Piece { color, kind: PieceType::King }),
            from.len(),
        )
    }

    /// The side's sliders of the kinds that move along ranks and files.
    pub open spec fn orthogonal_sliders(self, color: PieceColor) -> u64 {
        self.pieces(Piece { color, kind: PieceType::Queen }) | self.pieces(
            Piece { color, kind: PieceType::Rook },
        )
    }

    /// The side's sliders of the kinds that move along diagonals.
    pub open spec fn diagonal_sliders(self, color: PieceColor) -> u64 {
        self.pieces(Piece { color, kind: PieceType::Queen }) | self.pieces(
            Piece { color, kind: PieceType::Bishop },
        )
    }

    /// The pin lines of the first `k` of `pinners`: for each the squares
    /// between it and the king, and its own square.
    pub open spec fn lines_over(pinners: Seq<int>, king: int, k: nat) -> Seq<Bitboard>
        decreases k,
    {
        if k == 0 {
            Seq::empty()
        } else {
            Placement::lines_over(pinners, king, (k - 1) as nat).push(
                Bitboard(between_set(pinners[k - 1] as u64, king as u64) | bit(pinners[k - 1])),
            )
        }
    }

    /// The other side's sliders that pin a piece of `color` to its king
    /// along a rank or file.
    pub open spec fn orthogonal_pinners(self, color: PieceColor, king: int) -> u64 {
        xray_orthogonal_set(self.occupancy(), self.colors(color), king as u64)
            & self.orthogonal_sliders(color.spec_opposite())
    }

    /// The other side's sliders that pin a piece of `color` to its king
    /// along a diagonal.
    pub open spec fn diagonal_pinners(self, color: PieceColor, king: int) -> u64 {
        xray_diagonal_set(self.occupancy(), self.colors(color), king as u64)
            & self.diagonal_sliders(color.spec_opposite())
    }

    /// The lines along which pieces of `color` are pinned to their king:
    /// those of the orthogonal pinners first, then those of the diagonal
    /// ones, each group by ascending square of the pinner.
    pub open spec fn pin_lines(self, color: PieceColor) -> Seq<Bitboard> {
        match self.king_square(color) {
            Some(king) => {
                let orthogonal = squares_of(self.orthogonal_pinners(color, king));
                let diagonal = squares_of(self.diagonal_pinners(color, king));
                Placement::lines_over(orthogonal, king, orthogonal.len()) + Placement::lines_over(
                    diagonal,
                    king,
                    diagonal.len(),
                )
            },
            None => Seq::empty(),
        }
    }

    /// The lines that the slider on `sq` stands on: rank and file for a
    /// rook, the diagonals for a bishop, all four for a queen; nothing for
    /// other pieces.
    pub open spec fn lines_from(self, sq: int) -> u64 {
        match self.squares[sq] {
            Some(piece) => (if piece.kind.spec_is_orthogonal_slider() {
                rank_line(sq as u64) | file_line(sq as u64)
            } else {
                0
            }) | (if piece.kind.spec_is_diagonal_slider() {
                diagonal_line(sq as u64) | antidiag_line(sq as u64)
            } else {
                0
            }),
            None => 0,
        }
    }

    /// The union of the lines of the sliders on the first `k` of `from`.
    pub open spec fn rays_over(self, from: Seq<int>, k: nat) -> u64
        decreases k,
    {
        if k == 0 {
            0
        } else {
            self.rays_over(from, (k - 1) as nat) | self.lines_from(from[k - 1])
        }
    }

    /// The lines on which the side's sliders stand.
    pub open spec fn rays(self, color: PieceColor) -> u64 {
        let from = squares_of(self.colors(color));
        self.rays_over(from, from.len())
    }
}

impl Placement {
    /// The placement with `piece` put on `sq`.
    pub open spec fn place(self, sq: int, piece: Piece) -> Placement {
        Placement { squares: self.squares.update(sq, Some(piece)) }
    }

    /// The placement with `sq` emptied.
    pub open spec fn lift(self, sq: int) -> Placement {
        Placement { squares: self.squares.update(sq, None) }
    }

    /// Which squares the piece sets hold.
    pub proof fn lemma_sets(self, sq: int)
        ensures
            forall|piece: Piece| member(#[trigger] self.pieces(piece), sq) == self.holds(sq, piece),
            forall|color: PieceColor|
                member(#[trigger] self.colors(color), sq) == self.holds_color(sq, color),
            member(self.occupancy(), sq) == (0 <= sq < 64 && self.squares[sq] is Some),
    {
        assert forall|piece: Piece| member(#[trigger] self.pieces(piece), sq) == self.holds(
            sq,
            piece,
        ) by {
            lemma_set_of(|t: int| self.squares[t] == Some(piece), 64, sq);
        }
        assert forall|color: PieceColor| member(#[trigger] self.colors(color), sq)
            == self.holds_color(sq, color) by {
            lemma_set_of(
                |t: int| self.squares[t] is Some && self.squares[t]->0.color == color,
                64,
                sq,
            );
        }
        lemma_member_ops(self.colors(PieceColor::White), self.colors(PieceColor::Black), sq);
        assert(member(self.colors(PieceColor::White), sq) == self.holds_color(
            sq,
            PieceColor::White,
        ));
        assert(member(self.colors(PieceColor::Black), sq) == self.holds_color(
            sq,
            PieceColor::Black,
        ));
    }

    /// Putting a piece on an empty square adds the square to the piece's
    /// set and to its colour's set, and changes no other set.
    pub proof fn lemma_place(self, sq: int, piece: Piece)
        requires
            self.squares.len() == 64,
            self.empty_at(sq),
        ensures
            self.place(sq, piece).pieces(piece) == self.pieces(piece) | bit(sq),
            forall|other: Piece|
                other != piece ==> #[trigger] self.place(sq, piece).pieces(other) == self.pieces(
                    other,
                ),
            self.place(sq, piece).colors(piece.color) == self.colors(piece.color) | bit(sq),
            self.place(sq, piece).colors(piece.color.spec_opposite()) == self.colors(
                piece.color.spec_opposite(),
            ),
    {
        let after = self.place(sq, piece);
        assert forall|t: int| 0 <= t < 64 implies member(after.pieces(piece), t) == member(
            self.pieces(piece) | bit(sq),
            t,
        ) by {
            self.lemma_sets(t);
            after.lemma_sets(t);
            lemma_member_ops(self.pieces(piece), bit(sq), t);
            lemma_member_bit(sq, t);
        }
        lemma_same_members(after.pieces(piece), self.pieces(piece) | bit(sq));
        assert forall|other: Piece| other != piece implies #[trigger] after.pieces(other)
            == self.pieces(other) by {
            assert forall|t: int| 0 <= t < 64 implies member(after.pieces(other), t) == member(
                self.pieces(other),
                t,
            ) by {
                self.lemma_sets(t);
                after.lemma_sets(t);
            }
            lemma_same_members(after.pieces(other), self.pieces(other));
        }
        let own = piece.color;
        let opp = piece.color.spec_opposite();
        assert forall|t: int| 0 <= t < 64 implies member(after.colors(own), t) == member(
            self.colors(own) | bit(sq),
            t,
        ) by {
            self.lemma_sets(t);
            after.lemma_sets(t);
            lemma_member_ops(self.colors(own), bit(sq), t);
            lemma_member_bit(sq, t);
        }
        lemma_same_members(after.colors(own), self.colors(own) | bit(sq));
        assert forall|t: int| 0 <= t < 64 implies member(after.colors(opp), t) == member(
            self.colors(opp),
            t,
        ) by {
            self.lemma_sets(t);
            after.lemma_sets(t);
        }
        lemma_same_members(after.colors(opp), self.colors(opp));
    }

    /// Taking a piece off its square takes the square out of the piece's
    /// set and out of its colour's set, and changes no other set.
    pub proof fn lemma_lift(self, sq: int, piece: Piece)
        requires
            self.squares.len() == 64,
            self.holds(sq, piece),
        ensures
            self.lift(sq).pieces(piece) == self.pieces(piece) ^ bit(sq),
            forall|other: Piece|
                other != piece ==> #[trigger] self.lift(sq).pieces(other) == self.pieces(other),
            self.lift(sq).colors(piece.color) == self.colors(piece.color) ^ bit(sq),
            self.lift(sq).colors(piece.color.spec_opposite()) == self.colors(
                piece.color.spec_opposite(),
            ),
    {
        let after = self.lift(sq);
        assert forall|t: int| 0 <= t < 64 implies member(after.pieces(piece), t) == member(
            self.pieces(piece) ^ bit(sq),
            t,
        ) by {
            self.lemma_sets(t);
            after.lemma_sets(t);
            lemma_member_ops(self.pieces(piece), bit(sq), t);
            lemma_member_bit(sq, t);
        }
        lemma_same_members(after.pieces(piece), self.pieces(piece) ^ bit(sq));
        assert forall|other: Piece| other != piece implies #[trigger] after.pieces(other)
            == self.pieces(other) by {
            assert forall|t: int| 0 <= t < 64 implies member(after.pieces(other), t) == member(
                self.pieces(other),
                t,
            ) by {
                self.lemma_sets(t);
                after.lemma_sets(t);
            }
            lemma_same_members(after.pieces(other), self.pieces(other));
        }
        let own = piece.color;
        let opp = piece.color.spec_opposite();
        assert forall|t: int| 0 <= t < 64 implies member(after.colors(own), t) == member(
            self.colors(own) ^ bit(sq),
            t,
        ) by {
            self.lemma_sets(t);
            after.lemma_sets(t);
            lemma_member_ops(self.colors(own), bit(sq), t);
            lemma_member_bit(sq, t);
        }
        lemma_same_members(after.colors(own), self.colors(own) ^ bit(sq));
        assert forall|t: int| 0 <= t < 64 implies member(after.colors(opp), t) == member(
            self.colors(opp),
            t,
        ) by {
            self.lemma_sets(t);
            after.lemma_sets(t);
        }
        lemma_same_members(after.colors(opp), self.colors(opp));
    }

    /// On a board without pieces every set is empty.
    pub proof fn lemma_empty(self)
        requires
            forall|sq: int| 0 <= sq < 64 ==> self.squares[sq] is None,
        ensures
            forall|piece: Piece| #[trigger] self.pieces(piece) == 0,
            forall|color: PieceColor| #[trigger] self.colors(color) == 0,
    {
        assert forall|piece: Piece| #[trigger] self.pieces(piece) == 0 by {
            assert forall|t: int| 0 <= t < 64 implies member(self.pieces(piece), t) == member(
                0,
                t,
            ) by {
                self.lemma_sets(t);
                lemma_member_ops(0, 0, t);
            }
            lemma_same_members(self.pieces(piece), 0);
        }
        assert forall|color: PieceColor| #[trigger] self.colors(color) == 0 by {
            assert forall|t: int| 0 <= t < 64 implies member(self.colors(color), t) == member(
                0,
                t,
            ) by {
                self.lemma_sets(t);
                lemma_member_ops(0, 0, t);
            }
            lemma_same_members(self.colors(color), 0);
        }
    }
}

impl Position {
    /// Sixty-four squares and at least the current state.
    pub open spec fn shaped(self) -> bool {
        self.squares.len() == 64 && self.states.len() > 0
    }

    /// The current state.
    pub open spec fn state(self) -> BoardState {
        self.states.last()
    }

    /// What stands on the squares, without turn and states.
    pub open spec fn placement(self) -> Placement {
        Placement { squares: self.squares }
    }

    /// The position with `piece` put on `sq`.
    pub open spec fn place(self, sq: int, piece: Piece) -> Position {
        Position { squares: self.squares.update(sq, Some(piece)), ..self }
    }

    /// The position with `sq` emptied.
    pub open spec fn lift(self, sq: int) -> Position {
        Position { squares: self.squares.update(sq, None), ..self }
    }

    /// The pin lines of the first `k` of `pinners`.
    pub open spec fn lines_over(pinners: Seq<int>, king: int, k: nat) -> Seq<Bitboard> {
        Placement::lines_over(pinners, king, k)
    }

    /// Whether `piece` stands on `sq`.
    pub open spec fn holds(self, sq: int, piece: Piece) -> bool {
        self.placement().holds(sq, piece)
    }

    /// Whether a piece of the given colour stands on `sq`.
    pub open spec fn holds_color(self, sq: int, color: PieceColor) -> bool {
        self.placement().holds_color(sq, color)
    }

    /// Whether no piece stands on `sq`.
    pub open spec fn empty_at(self, sq: int) -> bool {
        self.placement().empty_at(sq)
    }

    /// The squares on which `piece` stands.
    pub open spec fn pieces(self, piece: Piece) -> u64 {
        self.placement().pieces(piece)
    }

    /// The squares on which pieces of the given colour stand.
    pub open spec fn colors(self, color: PieceColor) -> u64 {
        self.placement().colors(color)
    }

    /// The squares on which any piece stands.
    pub open spec fn occupancy(self) -> u64 {
        self.placement().occupancy()
    }

    /// The square of the side's king, where the side has exactly one.
    pub open spec fn king_square(self, color: PieceColor) -> Option<int> {
        self.placement().king_square(color)
    }

    /// Every square that some piece of the side attacks.
    pub open spec fn attacks(self, color: PieceColor) -> u64 {
        self.placement().attacks(color)
    }

    /// Whether the side's king is attacked, and by how many pieces.
    pub open spec fn check_state(self, color: PieceColor) -> CheckState {
        self.placement().check_state(color)
    }

    /// The side's queens and rooks.
    pub open spec fn orthogonal_sliders(self, color: PieceColor) -> u64 {
        self.placement().orthogonal_sliders(color)
    }

    /// The side's queens and bishops.
    pub open spec fn diagonal_sliders(self, color: PieceColor) -> u64 {
        self.placement().diagonal_sliders(color)
    }

    /// The lines along which pieces of the side are pinned to their king.
    pub open spec fn pin_lines(self, color: PieceColor) -> Seq<Bitboard> {
        self.placement().pin_lines(color)
    }

    /// The lines on which the side's sliders stand.
    pub open spec fn rays(self, color: PieceColor) -> u64 {
        self.placement().rays(color)
    }
}

} // verus!
