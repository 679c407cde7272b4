use crate::engine::piece::{Piece, PieceColor, PieceType};
use vstd::prelude::*;

verus! {

/// One of the four castling rights.
#[derive(Clone, Copy, Debug, PartialEq, Eq, Structural)]
pub enum CastlingDirection {
    WhiteKing,
    WhiteQueen,
    BlackKing,
    BlackQueen,
}

impl CastlingDirection {
    /// The bit that stands for the right in a set of rights.
    pub open spec fn spec_bit(self) -> u8 {
        match self {
            CastlingDirection::WhiteKing => 8,
            CastlingDirection::WhiteQueen => 4,
            CastlingDirection::BlackKing => 2,
            CastlingDirection::BlackQueen => 1,
        }
    }

    /// The bit that stands for the right in a set of rights.
    #[verifier::when_used_as_spec(spec_bit)]
    pub fn bit(self) -> (r: u8)
        ensures
            r == self.spec_bit(),
    {
        match self {
            CastlingDirection::WhiteKing => 8,
            CastlingDirection::WhiteQueen => 4,
            CastlingDirection::BlackKing => 2,
            CastlingDirection::BlackQueen => 1,
        }
    }

    /// The right that a king or queen stands for: the king for its side's
    /// king's side, the queen for its side's queen's side.
    pub fn from_piece(piece: Piece) -> (r: CastlingDirection)
        requires
            piece.kind == PieceType::King || piece.kind == PieceType::Queen,
        ensures
            r == (match (piece.color, piece.kind) {
                (PieceColor::White, PieceType::King) => CastlingDirection::WhiteKing,
                (PieceColor::White, _) => CastlingDirection::WhiteQueen,
                (PieceColor::Black, PieceType::King) => CastlingDirection::BlackKing,
                (PieceColor::Black, _) => CastlingDirection::BlackQueen,
            }),
    {
        match (piece.get_color(), piece.get_type()) {
            (PieceColor::White, PieceType::King) => CastlingDirection::WhiteKing,
            (PieceColor::White, _) => CastlingDirection::WhiteQueen,
            (PieceColor::Black, PieceType::King) => CastlingDirection::BlackKing,
            (PieceColor::Black, _) => CastlingDirection::BlackQueen,
        }
    }
}

/// A set of castling rights, one bit for each.
#[derive(Clone, Copy, Debug, PartialEq, Eq, Structural)]
pub struct Castling(pub u8);

impl Castling {
    /// Whether the set holds the right.
    pub open spec fn allows(self, direction: CastlingDirection) -> bool {
        self.0 & direction.spec_bit() != 0
    }

    /// No right.
    pub fn new() -> (r: Self)
        ensures
            r.0 == 0,
            forall|d: CastlingDirection| !r.allows(d),
    {
        proof {
            assert forall|d: CastlingDirection| !Castling(0).allows(d) by {
                lemma_castling_bits(0, d, d);
            }
        }
        Castling(0)
    }

    /// All four rights.
    pub fn initial() -> (r: Self)
        ensures
            r.0 == 15,
            forall|d: CastlingDirection| r.allows(d),
    {
        proof {
            assert forall|d: CastlingDirection| Castling(15).allows(d) by {
                lemma_castling_bits(0, d, d);
            }
        }
        let white_king = CastlingDirection::WhiteKing.bit();
        let white_queen = CastlingDirection::WhiteQueen.bit();
        let black_king = CastlingDirection::BlackKing.bit();
        let black_queen = CastlingDirection::BlackQueen.bit();
        proof {
            lemma_all_bits(white_king, white_queen, black_king, black_queen);
        }
        Castling(white_king | white_queen | black_king | black_queen)
    }

    /// Whether the set holds the right.
    pub fn can(&self, direction: CastlingDirection) -> (r: bool)
        ensures
            r == self.allows(direction),
    {
        self.0 & direction.bit() != 0
    }

    /// Adding a right gives a set that holds it, and beside it what the
    /// set held before.
    pub proof fn lemma_add(self, added: CastlingDirection, asked: CastlingDirection)
        ensures
            Castling(self.0 | added.spec_bit()).allows(asked) == (self.allows(asked) || asked
                == added),
    {
        lemma_castling_bits(self.0, added, asked);
    }
}

/// What adding a right does to the bits of a set of rights.
proof fn lemma_castling_bits(set: u8, added: CastlingDirection, asked: CastlingDirection)
    ensures
        (set | added.spec_bit()) & asked.spec_bit() != 0 <==> (set & asked.spec_bit() != 0 || asked
            == added),
        0u8 & asked.spec_bit() == 0,
        15u8 & asked.spec_bit() != 0,
{
    let a = added.spec_bit();
    let b = asked.spec_bit();
    assert(((set | a) & b != 0 <==> (set & b != 0 || a == b)) && 0u8 & b == 0 && 15u8 & b != 0)
        by (bit_vector)
        requires
            a == 1 || a == 2 || a == 4 || a == 8,
            b == 1 || b == 2 || b == 4 || b == 8,
    ;
}

/// The four rights together are the full set.
proof fn lemma_all_bits(a: u8, b: u8, c: u8, d: u8)
    by (bit_vector)
    requires
        a == 8,
        b == 4,
        c == 2,
        d == 1,
    ensures
        a | b | c | d == 15,
{
}

impl core::ops::BitOr<CastlingDirection> for Castling {
    type Output = Castling;

    fn bitor(self, rhs: CastlingDirection) -> (r: Castling) {
        Castling(self.0 | rhs.bit())
    }
}

impl vstd::std_specs::ops::BitOrSpecImpl<CastlingDirection> for Castling {
    open spec fn obeys_bitor_spec() -> bool {
        true
    }

    open spec fn bitor_req(self, rhs: CastlingDirection) -> bool {
        true
    }

    open spec fn bitor_spec(self, rhs: CastlingDirection) -> Castling {
        Castling(self.0 | rhs.spec_bit())
    }
}

impl core::convert::From<Castling> for u8 {
    fn from(castling: Castling) -> (r: u8) {
        castling.0
    }
}

impl vstd::std_specs::convert::FromSpecImpl<Castling> for u8 {
    open spec fn obeys_from_spec() -> bool {
        true
    }

    open spec fn from_spec(castling: Castling) -> u8 {
        castling.0
    }
}

} // verus!
