use crate::engine::piece::PieceType;
use crate::interfaces::strings::char_after;
use vstd::prelude::*;
use vstd::string::StringExecFns;

verus! {

/// What kind of move a move is.
#[derive(Clone, Copy, Debug, PartialEq, Eq, Structural)]
pub enum MoveFlag {
    Normal,
    EnPassant,
    Castle,
    PawnDash,
    PromoteQueen,
    PromoteRook,
    PromoteBishop,
    PromoteKnight,
}

impl MoveFlag {
    /// The number that stands for the flag in a packed move.
    pub open spec fn spec_code(self) -> u16 {
        match self {
            MoveFlag::Normal => 0,
            MoveFlag::EnPassant => 1,
            MoveFlag::Castle => 2,
            MoveFlag::PawnDash => 3,
            MoveFlag::PromoteQueen => 4,
            MoveFlag::PromoteRook => 5,
            MoveFlag::PromoteBishop => 6,
            MoveFlag::PromoteKnight => 7,
        }
    }

    /// The flag that a number below eight stands for.
    pub open spec fn of_code(code: u16) -> MoveFlag {
        if code == 0 {
            MoveFlag::Normal
        } else if code == 1 {
            MoveFlag::EnPassant
        } else if code == 2 {
            MoveFlag::Castle
        } else if code == 3 {
            MoveFlag::PawnDash
        } else if code == 4 {
            MoveFlag::PromoteQueen
        } else if code == 5 {
            MoveFlag::PromoteRook
        } else if code == 6 {
            MoveFlag::PromoteBishop
        } else {
            MoveFlag::PromoteKnight
        }
    }

    /// The piece kind a promotion flag names.
    pub open spec fn promotion(self) -> Option<PieceType> {
        match self {
            MoveFlag::PromoteQueen => Some(PieceType::Queen),
            MoveFlag::PromoteRook => Some(PieceType::Rook),
            MoveFlag::PromoteBishop => Some(PieceType::Bishop),
            MoveFlag::PromoteKnight => Some(PieceType::Knight),
            _ => None,
        }
    }

    /// The number that stands for the flag in a packed move.
    #[verifier::when_used_as_spec(spec_code)]
    pub fn code(self) -> (r: u16)
        ensures
            r == self.spec_code(),
            r < 8,
            MoveFlag::of_code(r) == self,
    {
        match self {
            MoveFlag::Normal => 0,
            MoveFlag::EnPassant => 1,
            MoveFlag::Castle => 2,
            MoveFlag::PawnDash => 3,
            MoveFlag::PromoteQueen => 4,
            MoveFlag::PromoteRook => 5,
            MoveFlag::PromoteBishop => 6,
            MoveFlag::PromoteKnight => 7,
        }
    }

    /// The flag that a number stands for.
    pub fn from_code(code: u16) -> (r: MoveFlag)
        requires
            code < 8,
        ensures
            r == MoveFlag::of_code(code),
            r.spec_code() == code,
    {
        if code == 0 {
            MoveFlag::Normal
        } else if code == 1 {
            MoveFlag::EnPassant
        } else if code == 2 {
            MoveFlag::Castle
        } else if code == 3 {
            MoveFlag::PawnDash
        } else if code == 4 {
            MoveFlag::PromoteQueen
        } else if code == 5 {
            MoveFlag::PromoteRook
        } else if code == 6 {
            MoveFlag::PromoteBishop
        } else {
            MoveFlag::PromoteKnight
        }
    }
}

/// The six bits of a packed move that hold the start square.
pub const START_MASK: u16 = 0xFC00;

/// The six bits of a packed move that hold the end square.
pub const END_MASK: u16 = 0x03F0;

/// The four bits of a packed move that hold the flag.
pub const FLAG_MASK: u16 = 0x000F;

/// The packed form of a move: start square in the top six bits, end square
/// in the next six, flag in the low four.
pub open spec fn pack(start: u16, end: u16, flag: u16) -> u16 {
    (start << 10) | (end << 4) | flag
}

/// Packing three parts and taking them out again gives the parts.
proof fn lemma_pack(start: u16, end: u16, flag: u16)
    by (bit_vector)
    requires
        start < 64,
        end < 64,
        flag < 8,
    ensures
        (pack(start, end, flag) & START_MASK) >> 10 == start,
        (pack(start, end, flag) & END_MASK) >> 4 == end,
        pack(start, end, flag) & FLAG_MASK == flag,
{
}

/// Taking the three parts out of sixteen bits and packing them gives the
/// bits.
proof fn lemma_unpack(bits: u16)
    by (bit_vector)
    ensures
        (bits & START_MASK) >> 10 < 64,
        (bits & END_MASK) >> 4 < 64,
        bits & FLAG_MASK < 16,
        pack((bits & START_MASK) >> 10, (bits & END_MASK) >> 4, bits & FLAG_MASK) == bits,
{
}

/// A move: start square, end square and flag, packed into sixteen bits.
#[derive(Clone, Copy, Debug, PartialEq, Eq, Structural)]
pub struct Move(u16);

impl Move {
    /// The flag bits hold one of the eight flags.
    #[verifier::type_invariant]
    pub closed spec fn well_formed(self) -> bool {
        self.0 & FLAG_MASK < 8
    }

    /// The square the move leaves.
    pub closed spec fn start(self) -> int {
        ((self.0 & START_MASK) >> 10) as int
    }

    /// The square the move reaches.
    pub closed spec fn end(self) -> int {
        ((self.0 & END_MASK) >> 4) as int
    }

    /// The kind of the move.
    pub closed spec fn flag(self) -> MoveFlag {
        MoveFlag::of_code(self.0 & FLAG_MASK)
    }

    /// The move with the given parts.
    pub closed spec fn of(start: int, end: int, flag: MoveFlag) -> Move {
        Move(pack(start as u16, end as u16, flag.spec_code()))
    }

    /// A move is its three parts: building one and reading it back gives
    /// the parts, and two well-formed moves with the same parts are equal.
    pub proof fn lemma_parts(start: int, end: int, flag: MoveFlag)
        requires
            0 <= start < 64,
            0 <= end < 64,
        ensures
            Move::of(start, end, flag).start() == start,
            Move::of(start, end, flag).end() == end,
            Move::of(start, end, flag).flag() == flag,
            Move::of(start, end, flag).well_formed(),
    {
        lemma_pack(start as u16, end as u16, flag.spec_code());
    }

    /// A well-formed move is the move built from its parts.
    pub proof fn lemma_of_parts(self)
        requires
            self.well_formed(),
        ensures
            self == Move::of(self.start(), self.end(), self.flag()),
            0 <= self.start() < 64,
            0 <= self.end() < 64,
    {
        lemma_unpack(self.0);
    }

    /// Packs a move.
    pub fn new(start: u8, end: u8, flag: MoveFlag) -> (r: Move)
        requires
            start < 64,
            end < 64,
        ensures
            r == Move::of(start as int, end as int, flag),
            r.start() == start,
            r.end() == end,
            r.flag() == flag,
            r.well_formed(),
    {
        proof {
            lemma_pack(start as u16, end as u16, flag.spec_code());
        }
        Move(((start as u16) << 10) | ((end as u16) << 4) | flag.code())
    }

    /// The square the move leaves.
    pub fn get_start(&self) -> (r: u8)
        ensures
            r == self.start(),
            r < 64,
    {
        proof {
            lemma_unpack(self.0);
        }
        ((self.0 & START_MASK) >> 10) as u8
    }

    /// The square the move reaches.
    pub fn get_end(&self) -> (r: u8)
        ensures
            r == self.end(),
            r < 64,
    {
        proof {
            lemma_unpack(self.0);
        }
        ((self.0 & END_MASK) >> 4) as u8
    }

    /// The kind of the move.
    pub fn get_flag(&self) -> (r: MoveFlag)
        ensures
            r == self.flag(),
            self.well_formed(),
    {
        proof {
            use_type_invariant(self);
        }
        MoveFlag::from_code(self.0 & FLAG_MASK)
    }

    /// The piece kind that the move promotes to, if it is a promotion.
    pub fn get_promote_piece_type(&self) -> (r: Option<PieceType>)
        ensures
            r == self.flag().promotion(),
    {
        match self.get_flag() {
            MoveFlag::PromoteQueen => Some(PieceType::Queen),
            MoveFlag::PromoteRook => Some(PieceType::Rook),
            MoveFlag::PromoteBishop => Some(PieceType::Bishop),
            MoveFlag::PromoteKnight => Some(PieceType::Knight),
            _ => None,
        }
    }
}


/// The name of a square: its file letter and its rank digit.
pub open spec fn square_text(square: int) -> Seq<char> {
    seq![(square % 8 + 'a' as int) as char, (square / 8 + '1' as int) as char]
}

/// The letter of the piece a move promotes to; nothing for no promotion.
pub open spec fn promotion_text(kind: Option<PieceType>) -> Seq<char> {
    match kind {
        Some(PieceType::Queen) => seq!['q'],
        Some(PieceType::Rook) => seq!['r'],
        Some(PieceType::Bishop) => seq!['b'],
        Some(PieceType::Knight) => seq!['n'],
        _ => Seq::empty(),
    }
}

/// The text of a move: start square, end square and promotion letter.
pub open spec fn move_text(m: Move) -> Seq<char> {
    square_text(m.start()) + square_text(m.end()) + promotion_text(m.flag().promotion())
}

impl Move {
    /// The name of a square.
    pub fn format_square(square: u8) -> (r: String)
        requires
            square < 64,
        ensures
            r@ == square_text(square as int),
    {
        let mut text = String::new();
        text.push(char_after(97, square % 8));
        text.push(char_after(49, square / 8));
        proof {
            assert(text@ =~= square_text(square as int));
        }
        text
    }

    /// The letter of the piece a move promotes to.
    pub fn format_promotion(promotion_piece_type: Option<PieceType>) -> (r: String)
        requires
            promotion_piece_type is Some ==> promotion_piece_type->0 != PieceType::King
                && promotion_piece_type->0 != PieceType::Pawn,
        ensures
            r@ == promotion_text(promotion_piece_type),
    {
        let mut text = String::new();
        match promotion_piece_type {
            Some(PieceType::Queen) => {
                text.push('q');
            },
            Some(PieceType::Rook) => {
                text.push('r');
            },
            Some(PieceType::Bishop) => {
                text.push('b');
            },
            Some(PieceType::Knight) => {
                text.push('n');
            },
            _ => {},
        }
        proof {
            assert(text@ =~= promotion_text(promotion_piece_type));
        }
        text
    }

    /// The text of the move, as chess programs exchange it: `e2e4`,
    /// `a7a8q`.
    pub fn to_text(&self) -> (r: String)
        ensures
            r@ == move_text(*self),
    {
        let mut text = Self::format_square(self.get_start());
        let end = Self::format_square(self.get_end());
        let promotion = Self::format_promotion(self.get_promote_piece_type());
        text.append(end.as_str());
        text.append(promotion.as_str());
        text
    }
}

} // verus!
