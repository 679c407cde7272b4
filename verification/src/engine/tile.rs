use crate::engine::bitboard::bits::{
    bit, lemma_square_parts, lowest, member, ANTIDIAG_BITS, DIAGONAL_BITS, FILE_A_BITS, RANK_1_BITS,
};
use crate::engine::bitboard::{Bitboard, SquareError};
use crate::engine::computed::geometry::{
    lemma_lines, same_antidiag, same_diagonal, same_file, same_rank,
};
use crate::engine::computed::sliding::{antidiag_line, diagonal_line, file_line, rank_line};
use vstd::prelude::*;

verus! {

/// A board square by its number: file `n % 8`, rank `n / 8`.
#[derive(Clone, Copy, Debug, PartialEq, Eq, Structural)]
pub struct Tile(pub u8);

impl Tile {
    /// Whether the number names a square of the board.
    pub open spec fn on_board(self) -> bool {
        self.0 < 64
    }

    /// The squares of this square's rank.
    pub fn get_rank(self) -> (r: Bitboard)
        requires
            self.on_board(),
        ensures
            r.0 == rank_line(self.0 as u64),
            forall|t: int| 0 <= t < 64 ==> #[trigger] r.contains(t) == same_rank(self.0 as int, t),
    {
        let s: u64 = self.0 as u64;
        proof {
            lemma_square_parts(s);
            assert forall|t: int| 0 <= t < 64 implies #[trigger] member(rank_line(s), t) == same_rank(
                self.0 as int,
                t,
            ) by {
                lemma_lines(self.0 as int, t);
            }
        }
        Bitboard(RANK_1_BITS << (s & 56))
    }

    /// The squares of this square's file.
    pub fn get_file(self) -> (r: Bitboard)
        requires
            self.on_board(),
        ensures
            r.0 == file_line(self.0 as u64),
            forall|t: int| 0 <= t < 64 ==> #[trigger] r.contains(t) == same_file(self.0 as int, t),
    {
        let s: u64 = self.0 as u64;
        proof {
            lemma_square_parts(s);
            assert forall|t: int| 0 <= t < 64 implies #[trigger] member(file_line(s), t) == same_file(
                self.0 as int,
                t,
            ) by {
                lemma_lines(self.0 as int, t);
            }
        }
        Bitboard(FILE_A_BITS << (s & 7))
    }

    /// The squares of this square's diagonal.
    pub fn get_diagonal(self) -> (r: Bitboard)
        requires
            self.on_board(),
        ensures
            r.0 == diagonal_line(self.0 as u64),
            forall|t: int| 0 <= t < 64 ==> #[trigger] r.contains(t) == same_diagonal(self.0 as int, t),
    {
        let s: u64 = self.0 as u64;
        proof {
            lemma_square_parts(s);
            assert forall|t: int| 0 <= t < 64 implies #[trigger] member(diagonal_line(s), t) == same_diagonal(
                self.0 as int,
                t,
            ) by {
                lemma_lines(self.0 as int, t);
            }
        }
        let rank: u64 = s >> 3;
        let file: u64 = s & 7;
        if rank >= file {
            Bitboard(DIAGONAL_BITS << ((rank - file) * 8))
        } else {
            Bitboard(DIAGONAL_BITS >> ((file - rank) * 8))
        }
    }

    /// The squares of this square's antidiagonal.
    pub fn get_antidiag(self) -> (r: Bitboard)
        requires
            self.on_board(),
        ensures
            r.0 == antidiag_line(self.0 as u64),
            forall|t: int| 0 <= t < 64 ==> #[trigger] r.contains(t) == same_antidiag(self.0 as int, t),
    {
        let s: u64 = self.0 as u64;
        proof {
            lemma_square_parts(s);
            assert forall|t: int| 0 <= t < 64 implies #[trigger] member(antidiag_line(s), t) == same_antidiag(
                self.0 as int,
                t,
            ) by {
                lemma_lines(self.0 as int, t);
            }
        }
        let rank: u64 = s >> 3;
        let file: u64 = s & 7;
        if rank + file <= 7 {
            Bitboard(ANTIDIAG_BITS >> ((7 - rank - file) * 8))
        } else {
            Bitboard(ANTIDIAG_BITS << ((rank + file - 7) * 8))
        }
    }

    /// The one square of a one-square set.
    pub fn from_bitboard(bitboard: Bitboard) -> (r: Result<Tile, SquareError>)
        ensures
            bitboard.0 == 0 <==> r == Err::<Tile, SquareError>(SquareError::Empty),
            r is Ok ==> r->Ok_0.on_board() && bitboard.0 == bit(r->Ok_0.0 as int) && r->Ok_0.0
                == lowest(bitboard.0),
            r is Ok <==> bitboard.to_square_spec() is Ok,
    {
        match bitboard.to_square() {
            Ok(sq) => Ok(Tile(sq)),
            Err(e) => Err(e),
        }
    }
}

impl core::convert::From<u8> for Tile {
    fn from(number: u8) -> (r: Tile) {
        Tile(number)
    }
}

impl vstd::std_specs::convert::FromSpecImpl<u8> for Tile {
    open spec fn obeys_from_spec() -> bool {
        true
    }

    open spec fn from_spec(number: u8) -> Tile {
        Tile(number)
    }
}

impl core::convert::From<Tile> for u8 {
    fn from(tile: Tile) -> (r: u8) {
        tile.0
    }
}

impl vstd::std_specs::convert::FromSpecImpl<Tile> for u8 {
    open spec fn obeys_from_spec() -> bool {
        true
    }

    open spec fn from_spec(tile: Tile) -> u8 {
        tile.0
    }
}


impl core::ops::BitOr<Tile> for Tile {
    type Output = Bitboard;

    fn bitor(self, rhs: Tile) -> (r: Bitboard) {
        Bitboard((1u64 << self.0) | (1u64 << rhs.0))
    }
}

impl vstd::std_specs::ops::BitOrSpecImpl<Tile> for Tile {
    open spec fn obeys_bitor_spec() -> bool {
        true
    }

    open spec fn bitor_req(self, rhs: Tile) -> bool {
        self.on_board() && rhs.on_board()
    }

    open spec fn bitor_spec(self, rhs: Tile) -> Bitboard {
        Bitboard(bit(self.0 as int) | bit(rhs.0 as int))
    }
}

impl core::ops::Not for Tile {
    type Output = Bitboard;

    fn not(self) -> (r: Bitboard) {
        Bitboard(!(1u64 << self.0))
    }
}

impl vstd::std_specs::ops::NotSpecImpl for Tile {
    open spec fn obeys_not_spec() -> bool {
        true
    }

    open spec fn not_req(self) -> bool {
        self.on_board()
    }

    open spec fn not_spec(self) -> Bitboard {
        Bitboard(!bit(self.0 as int))
    }
}

impl core::ops::Shl<u8> for Tile {
    type Output = Tile;

    fn shl(self, rhs: u8) -> (r: Tile) {
        Tile(self.0 + rhs)
    }
}

impl vstd::std_specs::ops::ShlSpecImpl<u8> for Tile {
    open spec fn obeys_shl_spec() -> bool {
        true
    }

    open spec fn shl_req(self, rhs: u8) -> bool {
        self.0 + rhs <= u8::MAX
    }

    open spec fn shl_spec(self, rhs: u8) -> Tile {
        Tile((self.0 + rhs) as u8)
    }
}

impl core::ops::Shr<u8> for Tile {
    type Output = Tile;

    fn shr(self, rhs: u8) -> (r: Tile) {
        Tile(self.0 - rhs)
    }
}

impl vstd::std_specs::ops::ShrSpecImpl<u8> for Tile {
    open spec fn obeys_shr_spec() -> bool {
        true
    }

    open spec fn shr_req(self, rhs: u8) -> bool {
        rhs <= self.0
    }

    open spec fn shr_spec(self, rhs: u8) -> Tile {
        Tile((self.0 - rhs) as u8)
    }
}

} // verus!
