use vstd::prelude::*;

verus! {

/// The side a piece belongs to.
#[derive(Clone, Copy, Debug, PartialEq, Eq, Structural)]
pub enum PieceColor {
    White,
    Black,
}

impl PieceColor {
    /// The place of this colour in an array of two entries.
    pub open spec fn spec_index(self) -> int {
        match self {
            PieceColor::White => 0,
            PieceColor::Black => 1,
        }
    }

    /// The other colour.
    pub open spec fn spec_opposite(self) -> PieceColor {
        match self {
            PieceColor::White => PieceColor::Black,
            PieceColor::Black => PieceColor::White,
        }
    }

    /// The place of this colour in an array of two entries.
    pub fn index(self) -> (r: usize)
        ensures
            r == self.spec_index(),
            r < 2,
    {
        match self {
            PieceColor::White => 0,
            PieceColor::Black => 1,
        }
    }

    /// The other colour.
    #[verifier::when_used_as_spec(spec_opposite)]
    pub fn opposite(self) -> (r: PieceColor)
        ensures
            r == self.spec_opposite(),
            r != self,
    {
        match self {
            PieceColor::White => PieceColor::Black,
            PieceColor::Black => PieceColor::White,
        }
    }

    /// The colour at a place in an array of two entries.
    pub fn from_index(index: u8) -> (r: PieceColor)
        requires
            index < 2,
        ensures
            r.spec_index() == index,
    {
        if index == 0 {
            PieceColor::White
        } else {
            PieceColor::Black
        }
    }

    /// The rank on which this side's pieces start: 0 for White, 7 for Black.
    pub fn get_home_row(&self) -> (r: u8)
        ensures
            r == (if *self == PieceColor::White {
                0u8
            } else {
                7u8
            }),
    {
        match self {
            PieceColor::White => 0,
            PieceColor::Black => 7,
        }
    }

    /// The letter of this side in position notation.
    pub fn letter(self) -> (r: char)
        ensures
            r == (if self == PieceColor::White {
                'w'
            } else {
                'b'
            }),
    {
        match self {
            PieceColor::White => 'w',
            PieceColor::Black => 'b',
        }
    }
}

/// The kind of a piece.
#[derive(Clone, Copy, Debug, PartialEq, Eq, Structural)]
pub enum PieceType {
    King,
    Queen,
    Rook,
    Bishop,
    Knight,
    Pawn,
}

impl PieceType {
    /// The place of this kind among the six kinds.
    pub open spec fn spec_index(self) -> int {
        match self {
            PieceType::King => 0,
            PieceType::Queen => 1,
            PieceType::Rook => 2,
            PieceType::Bishop => 3,
            PieceType::Knight => 4,
            PieceType::Pawn => 5,
        }
    }

    /// The tag of the kind: one bit for king, knight and pawn each, one
    /// for sliding along ranks and files and one for sliding along
    /// diagonals, so that the queen has two.
    pub open spec fn spec_code(self) -> u8 {
        match self {
            PieceType::King => 16,
            PieceType::Queen => 12,
            PieceType::Rook => 8,
            PieceType::Bishop => 4,
            PieceType::Knight => 2,
            PieceType::Pawn => 1,
        }
    }

    /// Whether a number is the tag of a kind.
    pub open spec fn is_code(code: u8) -> bool {
        code == 16 || code == 12 || code == 8 || code == 4 || code == 2 || code == 1
    }

    /// The tag of the kind.
    #[verifier::when_used_as_spec(spec_code)]
    pub fn code(self) -> (r: u8)
        ensures
            r == self.spec_code(),
            PieceType::is_code(r),
    {
        match self {
            PieceType::King => 16,
            PieceType::Queen => 12,
            PieceType::Rook => 8,
            PieceType::Bishop => 4,
            PieceType::Knight => 2,
            PieceType::Pawn => 1,
        }
    }

    /// The kind that a tag stands for.
    pub fn from_code(code: u8) -> (r: PieceType)
        requires
            PieceType::is_code(code),
        ensures
            r.spec_code() == code,
    {
        if code == 16 {
            PieceType::King
        } else if code == 12 {
            PieceType::Queen
        } else if code == 8 {
            PieceType::Rook
        } else if code == 4 {
            PieceType::Bishop
        } else if code == 2 {
            PieceType::Knight
        } else {
            PieceType::Pawn
        }
    }

    /// Whether the kind slides along ranks and files.
    pub open spec fn spec_is_orthogonal_slider(self) -> bool {
        self == PieceType::Queen || self == PieceType::Rook
    }

    /// Whether the kind slides along diagonals.
    pub open spec fn spec_is_diagonal_slider(self) -> bool {
        self == PieceType::Queen || self == PieceType::Bishop
    }

    /// Whether the kind slides at all.
    pub open spec fn spec_is_slider(self) -> bool {
        self.spec_is_orthogonal_slider() || self.spec_is_diagonal_slider()
    }

    /// Whether the piece slides along ranks and files.
    #[verifier::when_used_as_spec(spec_is_orthogonal_slider)]
    pub fn is_orthogonal_slider(self) -> (r: bool)
        ensures
            r == self.spec_is_orthogonal_slider(),
    {
        self == PieceType::Queen || self == PieceType::Rook
    }

    /// Whether the piece slides along diagonals.
    #[verifier::when_used_as_spec(spec_is_diagonal_slider)]
    pub fn is_diagonal_slider(self) -> (r: bool)
        ensures
            r == self.spec_is_diagonal_slider(),
    {
        self == PieceType::Queen || self == PieceType::Bishop
    }

    /// Whether the piece slides at all.
    #[verifier::when_used_as_spec(spec_is_slider)]
    pub fn is_slider(self) -> (r: bool)
        ensures
            r == self.spec_is_slider(),
    {
        self == PieceType::Queen || self == PieceType::Rook || self == PieceType::Bishop
    }
}

/// Which bits the tags of the pieces have.
proof fn lemma_tag_bits(tag: u8)
    by (bit_vector)
    requires
        tag == 16 || tag == 12 || tag == 8 || tag == 4 || tag == 2 || tag == 1 || tag == 48 || tag
            == 44 || tag == 40 || tag == 36 || tag == 34 || tag == 33,
    ensures
        (tag & 8 != 0) == (tag == 12 || tag == 8 || tag == 44 || tag == 40),
        (tag & 4 != 0) == (tag == 12 || tag == 4 || tag == 44 || tag == 36),
        (tag & 32 != 0) == (tag >= 32),
{
}

/// A piece: a colour and a kind.
#[derive(Clone, Copy, Debug, PartialEq, Eq, Structural)]
pub struct Piece {
    pub color: PieceColor,
    pub kind: PieceType,
}

impl Piece {
    /// The place of this piece among the twelve pieces: White's six kinds,
    /// then Black's.
    pub open spec fn spec_pieces_index(self) -> int {
        self.color.spec_index() * 6 + self.kind.spec_index()
    }

    /// The piece that stands at place `i` among the twelve.
    pub open spec fn at_index(i: int) -> Piece {
        Piece {
            color: if i < 6 {
                PieceColor::White
            } else {
                PieceColor::Black
            },
            kind: if i % 6 == 0 {
                PieceType::King
            } else if i % 6 == 1 {
                PieceType::Queen
            } else if i % 6 == 2 {
                PieceType::Rook
            } else if i % 6 == 3 {
                PieceType::Bishop
            } else if i % 6 == 4 {
                PieceType::Knight
            } else {
                PieceType::Pawn
            },
        }
    }

    /// The piece of a colour and a kind.
    pub fn new(color: PieceColor, kind: PieceType) -> (r: Piece)
        ensures
            r == (Piece { color, kind }),
    {
        Piece { color, kind }
    }

    /// The tag of the piece: the tag of its kind, and one bit more for
    /// Black. The bits for sliding say whether the piece slides along
    /// ranks and files, and whether along diagonals.
    pub fn code(&self) -> (r: u8)
        ensures
            r == self.color.spec_index() * 32 + self.kind.spec_code(),
            (r & 8 != 0) == self.kind.spec_is_orthogonal_slider(),
            (r & 4 != 0) == self.kind.spec_is_diagonal_slider(),
            (r & 32 != 0) == (self.color == PieceColor::Black),
    {
        let color: u8 = match self.color {
            PieceColor::White => 0,
            PieceColor::Black => 32,
        };
        let tag = color + self.kind.code();
        proof {
            lemma_tag_bits(tag);
        }
        tag
    }

    /// The colour of the piece.
    pub fn get_color(&self) -> (r: PieceColor)
        ensures
            r == self.color,
    {
        self.color
    }

    /// The kind of the piece.
    pub fn get_type(&self) -> (r: PieceType)
        ensures
            r == self.kind,
    {
        self.kind
    }

    /// Whether the piece slides along ranks and files.
    pub fn is_orthogonal_slider(&self) -> (r: bool)
        ensures
            r == self.kind.spec_is_orthogonal_slider(),
    {
        self.kind.is_orthogonal_slider()
    }

    /// Whether the piece slides along diagonals.
    pub fn is_diagonal_slider(&self) -> (r: bool)
        ensures
            r == self.kind.spec_is_diagonal_slider(),
    {
        self.kind.is_diagonal_slider()
    }

    /// Whether the piece slides at all.
    pub fn is_slider(&self) -> (r: bool)
        ensures
            r == self.kind.spec_is_slider(),
    {
        self.kind.is_slider()
    }

    /// The place of this piece in an array of twelve entries.
    pub fn get_pieces_index(&self) -> (r: usize)
        ensures
            r == self.spec_pieces_index(),
            r < 12,
            Piece::at_index(r as int) == *self,
    {
        let base: usize = match self.color {
            PieceColor::White => 0,
            PieceColor::Black => 6,
        };
        let offset: usize = match self.kind {
            PieceType::King => 0,
            PieceType::Queen => 1,
            PieceType::Rook => 2,
            PieceType::Bishop => 3,
            PieceType::Knight => 4,
            PieceType::Pawn => 5,
        };
        base + offset
    }

    /// The place, in an array of the four castling rights, of the right that
    /// this king or queen stands for: the king for the king's side, the
    /// queen for the queen's side.
    pub fn get_castle_index(&self) -> (r: usize)
        requires
            self.kind == PieceType::King || self.kind == PieceType::Queen,
        ensures
            r == self.color.spec_index() * 2 + (if self.kind == PieceType::King {
                0int
            } else {
                1int
            }),
    {
        match (self.color, self.kind) {
            (PieceColor::White, PieceType::King) => 0,
            (PieceColor::White, _) => 1,
            (PieceColor::Black, PieceType::King) => 2,
            (PieceColor::Black, _) => 3,
        }
    }

    /// The chess figurine of the piece.
    pub fn figurine(self) -> (r: char)
        ensures
            r == Piece::spec_figurine(self),
    {
        match (self.color, self.kind) {
            (PieceColor::White, PieceType::King) => '\u{265A}',
            (PieceColor::White, PieceType::Queen) => '\u{265B}',
            (PieceColor::White, PieceType::Rook) => '\u{265C}',
            (PieceColor::White, PieceType::Bishop) => '\u{265D}',
            (PieceColor::White, PieceType::Knight) => '\u{265E}',
            (PieceColor::White, PieceType::Pawn) => '\u{265F}',
            (PieceColor::Black, PieceType::King) => '\u{2654}',
            (PieceColor::Black, PieceType::Queen) => '\u{2655}',
            (PieceColor::Black, PieceType::Rook) => '\u{2656}',
            (PieceColor::Black, PieceType::Bishop) => '\u{2657}',
            (PieceColor::Black, PieceType::Knight) => '\u{2658}',
            (PieceColor::Black, PieceType::Pawn) => '\u{2659}',
        }
    }

    /// The chess figurine of the piece.
    pub open spec fn spec_figurine(piece: Piece) -> char {
        match (piece.color, piece.kind) {
            (PieceColor::White, PieceType::King) => '\u{265A}',
            (PieceColor::White, PieceType::Queen) => '\u{265B}',
            (PieceColor::White, PieceType::Rook) => '\u{265C}',
            (PieceColor::White, PieceType::Bishop) => '\u{265D}',
            (PieceColor::White, PieceType::Knight) => '\u{265E}',
            (PieceColor::White, PieceType::Pawn) => '\u{265F}',
            (PieceColor::Black, PieceType::King) => '\u{2654}',
            (PieceColor::Black, PieceType::Queen) => '\u{2655}',
            (PieceColor::Black, PieceType::Rook) => '\u{2656}',
            (PieceColor::Black, PieceType::Bishop) => '\u{2657}',
            (PieceColor::Black, PieceType::Knight) => '\u{2658}',
            (PieceColor::Black, PieceType::Pawn) => '\u{2659}',
        }
    }
}

impl core::ops::BitOr<PieceType> for PieceColor {
    type Output = Piece;

    fn bitor(self, rhs: PieceType) -> (r: Piece) {
        Piece { color: self, kind: rhs }
    }
}

impl vstd::std_specs::ops::BitOrSpecImpl<PieceType> for PieceColor {
    open spec fn obeys_bitor_spec() -> bool {
        true
    }

    open spec fn bitor_req(self, rhs: PieceType) -> bool {
        true
    }

    open spec fn bitor_spec(self, rhs: PieceType) -> Piece {
        Piece { color: self, kind: rhs }
    }
}

} // verus!
