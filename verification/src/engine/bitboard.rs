pub mod bits;

use crate::engine::bitboard::bits::{
    anticlockwise_of, bit, clockwise_of, drop_lowest, east_of, file_of, flip_diagonal_of,
    flip_vertical_of, lemma_lowest, lemma_member_bit, lemma_member_flip, lemma_member_ops,
    lemma_member_shift, lemma_member_test, lemma_single, lowest, member, north_east_of, north_of,
    north_west_of, rank_of, south_east_of, south_of, south_west_of, squares_of, west_of,
    FILE_A_BITS, FILE_H_BITS,
};
use crate::engine::tile::Tile;
use vstd::prelude::*;

verus! {

/// A set of board squares packed into 64 bits: bit `i` is set exactly when
/// square `i` (file `i % 8`, rank `i / 8`) belongs to the set.
#[derive(Clone, Copy, Debug, PartialEq, Eq, Structural)]
pub struct Bitboard(pub u64);

/// The squares of rank 1.
pub const RANK_1: u64 = 0x00000000000000FF;

/// The squares of rank 2.
pub const RANK_2: u64 = 0x000000000000FF00;

/// The squares of rank 3.
pub const RANK_3: u64 = 0x0000000000FF0000;

/// The squares of rank 4.
pub const RANK_4: u64 = 0x00000000FF000000;

/// The squares of rank 5.
pub const RANK_5: u64 = 0x000000FF00000000;

/// The squares of rank 6.
pub const RANK_6: u64 = 0x0000FF0000000000;

/// The squares of rank 7.
pub const RANK_7: u64 = 0x00FF000000000000;

/// The squares of rank 8.
pub const RANK_8: u64 = 0xFF00000000000000;

/// The squares of the a-file.
pub const FILE_A: u64 = 0x0101010101010101;

/// The squares of the b-file.
pub const FILE_B: u64 = 0x0202020202020202;

/// The squares of the c-file.
pub const FILE_C: u64 = 0x0404040404040404;

/// The squares of the d-file.
pub const FILE_D: u64 = 0x0808080808080808;

/// The squares of the e-file.
pub const FILE_E: u64 = 0x1010101010101010;

/// The squares of the f-file.
pub const FILE_F: u64 = 0x2020202020202020;

/// The squares of the g-file.
pub const FILE_G: u64 = 0x4040404040404040;

/// The squares of the h-file.
pub const FILE_H: u64 = 0x8080808080808080;

/// The squares of the diagonal a1-h8.
pub const DIAGONAL_MAIN: u64 = 0x8040201008040201;

/// The squares of the diagonal h1-a8.
pub const ANTIDIAG_MAIN: u64 = 0x0102040810204080;

/// Why a set of squares does not name one square.
#[derive(Clone, Copy, Debug, PartialEq, Eq, Structural)]
pub enum SquareError {
    /// The set is empty.
    Empty,
    /// The set has more than one member.
    Multiple,
}

impl Bitboard {
    /// Whether square `sq` belongs to the set.
    pub open spec fn contains(self, sq: int) -> bool {
        member(self.0, sq)
    }

    /// The members in ascending order.
    pub open spec fn members(self) -> Seq<int> {
        squares_of(self.0)
    }

    /// The empty set.
    pub fn new() -> (r: Self)
        ensures
            r.0 == 0,
    {
        Bitboard(0)
    }

    /// The set that holds `sq` alone.
    pub fn from_square(sq: u8) -> (r: Self)
        requires
            sq < 64,
        ensures
            r.0 == bit(sq as int),
            forall|t: int| #[trigger] r.contains(t) == (t == sq),
    {
        proof {
            assert forall|t: int| #[trigger] member(bit(sq as int), t) == (t == sq) by {
                lemma_member_bit(sq as int, t);
            }
        }
        Bitboard(1u64 << sq)
    }

    /// Whether `sq` belongs to the set.
    pub fn has_square(self, sq: u8) -> (r: bool)
        requires
            sq < 64,
        ensures
            r == self.contains(sq as int),
    {
        proof {
            lemma_member_test(self.0, sq as int);
        }
        (self & Bitboard::from_square(sq)).is_some()
    }

    /// Whether the set has a member.
    pub fn is_some(&self) -> (r: bool)
        ensures
            r == (self.0 != 0),
    {
        self.0 != 0
    }

    /// Whether the set is empty.
    pub fn is_none(&self) -> (r: bool)
        ensures
            r == (self.0 == 0),
    {
        self.0 == 0
    }

    /// Every member moved one rank up; what leaves the board is dropped.
    pub fn north(self) -> (r: Bitboard)
        ensures
            r.0 == north_of(self.0),
            forall|sq: int| 0 <= sq < 64 ==> #[trigger] r.contains(sq) == (rank_of(sq) > 0 && self.contains(sq - 8)),
    {
        proof {
            assert forall|sq: int| 0 <= sq < 64 implies #[trigger] member(north_of(self.0), sq) == (
            rank_of(sq) > 0 && self.contains(sq - 8)) by {
                lemma_member_shift(self.0, sq);
            }
        }
        Bitboard(self.0 << 8)
    }

    /// Every member moved one rank up and one file to the right.
    pub fn north_east(self) -> (r: Bitboard)
        ensures
            r.0 == north_east_of(self.0),
            forall|sq: int| 0 <= sq < 64 ==> #[trigger] r.contains(sq) == (rank_of(sq) > 0 && file_of(sq) > 0 && self.contains(sq - 9)),
    {
        proof {
            assert forall|sq: int| 0 <= sq < 64 implies #[trigger] member(north_east_of(self.0), sq) == (
            rank_of(sq) > 0 && file_of(sq) > 0 && self.contains(sq - 9)) by {
                lemma_member_shift(self.0, sq);
            }
        }
        Bitboard((self.0 << 9) & !FILE_A_BITS)
    }

    /// Every member moved one file to the right.
    pub fn east(self) -> (r: Bitboard)
        ensures
            r.0 == east_of(self.0),
            forall|sq: int| 0 <= sq < 64 ==> #[trigger] r.contains(sq) == (file_of(sq) > 0 && self.contains(sq - 1)),
    {
        proof {
            assert forall|sq: int| 0 <= sq < 64 implies #[trigger] member(east_of(self.0), sq) == (
            file_of(sq) > 0 && self.contains(sq - 1)) by {
                lemma_member_shift(self.0, sq);
            }
        }
        Bitboard((self.0 << 1) & !FILE_A_BITS)
    }

    /// Every member moved one rank down and one file to the right.
    pub fn south_east(self) -> (r: Bitboard)
        ensures
            r.0 == south_east_of(self.0),
            forall|sq: int| 0 <= sq < 64 ==> #[trigger] r.contains(sq) == (rank_of(sq) < 7 && file_of(sq) > 0 && self.contains(sq + 7)),
    {
        proof {
            assert forall|sq: int| 0 <= sq < 64 implies #[trigger] member(south_east_of(self.0), sq) == (
            rank_of(sq) < 7 && file_of(sq) > 0 && self.contains(sq + 7)) by {
                lemma_member_shift(self.0, sq);
            }
        }
        Bitboard((self.0 >> 7) & !FILE_A_BITS)
    }

    /// Every member moved one rank down.
    pub fn south(self) -> (r: Bitboard)
        ensures
            r.0 == south_of(self.0),
            forall|sq: int| 0 <= sq < 64 ==> #[trigger] r.contains(sq) == (rank_of(sq) < 7 && self.contains(sq + 8)),
    {
        proof {
            assert forall|sq: int| 0 <= sq < 64 implies #[trigger] member(south_of(self.0), sq) == (
            rank_of(sq) < 7 && self.contains(sq + 8)) by {
                lemma_member_shift(self.0, sq);
            }
        }
        Bitboard(self.0 >> 8)
    }

    /// Every member moved one rank down and one file to the left.
    pub fn south_west(self) -> (r: Bitboard)
        ensures
            r.0 == south_west_of(self.0),
            forall|sq: int| 0 <= sq < 64 ==> #[trigger] r.contains(sq) == (rank_of(sq) < 7 && file_of(sq) < 7 && self.contains(sq + 9)),
    {
        proof {
            assert forall|sq: int| 0 <= sq < 64 implies #[trigger] member(south_west_of(self.0), sq) == (
            rank_of(sq) < 7 && file_of(sq) < 7 && self.contains(sq + 9)) by {
                lemma_member_shift(self.0, sq);
            }
        }
        Bitboard((self.0 >> 9) & !FILE_H_BITS)
    }

    /// Every member moved one file to the left.
    pub fn west(self) -> (r: Bitboard)
        ensures
            r.0 == west_of(self.0),
            forall|sq: int| 0 <= sq < 64 ==> #[trigger] r.contains(sq) == (file_of(sq) < 7 && self.contains(sq + 1)),
    {
        proof {
            assert forall|sq: int| 0 <= sq < 64 implies #[trigger] member(west_of(self.0), sq) == (
            file_of(sq) < 7 && self.contains(sq + 1)) by {
                lemma_member_shift(self.0, sq);
            }
        }
        Bitboard((self.0 >> 1) & !FILE_H_BITS)
    }

    /// Every member moved one rank up and one file to the left.
    pub fn north_west(self) -> (r: Bitboard)
        ensures
            r.0 == north_west_of(self.0),
            forall|sq: int| 0 <= sq < 64 ==> #[trigger] r.contains(sq) == (rank_of(sq) > 0 && file_of(sq) < 7 && self.contains(sq - 7)),
    {
        proof {
            assert forall|sq: int| 0 <= sq < 64 implies #[trigger] member(north_west_of(self.0), sq) == (
            rank_of(sq) > 0 && file_of(sq) < 7 && self.contains(sq - 7)) by {
                lemma_member_shift(self.0, sq);
            }
        }
        Bitboard((self.0 << 7) & !FILE_H_BITS)
    }

    /// The set turned a quarter clockwise.
    pub fn clockwise(self) -> (r: Bitboard)
        ensures
            r.0 == clockwise_of(self.0),
            forall|sq: int| 0 <= sq < 64 ==> #[trigger] r.contains(sq) == self.contains(file_of(sq) * 8 + (7 - rank_of(sq))),
    {
        proof {
            assert forall|sq: int| 0 <= sq < 64 implies #[trigger] member(clockwise_of(self.0), sq)
                == self.contains(file_of(sq) * 8 + (7 - rank_of(sq))) by {
                lemma_member_flip(self.0, sq);
            }
        }
        self.flip_diagonal_a1_h8().flip_vertical()
    }

    /// The set turned a quarter anticlockwise.
    pub fn anticlockwise(self) -> (r: Bitboard)
        ensures
            r.0 == anticlockwise_of(self.0),
            forall|sq: int| 0 <= sq < 64 ==> #[trigger] r.contains(sq) == self.contains((7 - file_of(sq)) * 8 + rank_of(sq)),
    {
        proof {
            assert forall|sq: int| 0 <= sq < 64 implies #[trigger] member(anticlockwise_of(self.0), sq)
                == self.contains((7 - file_of(sq)) * 8 + rank_of(sq)) by {
                lemma_member_flip(self.0, sq);
            }
        }
        self.flip_vertical().flip_diagonal_a1_h8()
    }

    /// The set mirrored in the diagonal a1-h8.
    pub fn flip_diagonal_a1_h8(self) -> (r: Bitboard)
        ensures
            r.0 == flip_diagonal_of(self.0),
            forall|sq: int| 0 <= sq < 64 ==> #[trigger] r.contains(sq) == self.contains(file_of(sq) * 8 + rank_of(sq)),
    {
        proof {
            assert forall|sq: int| 0 <= sq < 64 implies #[trigger] member(flip_diagonal_of(self.0), sq)
                == self.contains(file_of(sq) * 8 + rank_of(sq)) by {
                lemma_member_flip(self.0, sq);
            }
        }
        let k1: u64 = 0x5500550055005500u64;
        let k2: u64 = 0x3333000033330000u64;
        let k4: u64 = 0x0f0f0f0f00000000u64;
        let mut x: u64 = self.0;
        let mut t: u64 = k4 & (x ^ (x << 28));
        x ^= t ^ (t >> 28);
        t = k2 & (x ^ (x << 14));
        x ^= t ^ (t >> 14);
        t = k1 & (x ^ (x << 7));
        x ^= t ^ (t >> 7);
        Bitboard(x)
    }

    /// The set mirrored top to bottom.
    pub fn flip_vertical(self) -> (r: Bitboard)
        ensures
            r.0 == flip_vertical_of(self.0),
            forall|sq: int| 0 <= sq < 64 ==> #[trigger] r.contains(sq) == self.contains((7 - rank_of(sq)) * 8 + file_of(sq)),
    {
        proof {
            assert forall|sq: int| 0 <= sq < 64 implies #[trigger] member(flip_vertical_of(self.0), sq)
                == self.contains((7 - rank_of(sq)) * 8 + file_of(sq)) by {
                lemma_member_flip(self.0, sq);
            }
        }
        let k1: u64 = 0x00FF00FF00FF00FFu64;
        let k2: u64 = 0x0000FFFF0000FFFFu64;
        let mut x: u64 = self.0;
        x = ((x >> 8) & k1) | ((x & k1) << 8);
        x = ((x >> 16) & k2) | ((x & k2) << 16);
        x = (x >> 32) | (x << 32);
        Bitboard(x)
    }

    /// Takes the least member out of the set and returns it; `None` when
    /// the set is empty.
    pub fn next(&mut self) -> (r: Option<u8>)
        ensures
            old(self).0 == 0 ==> r is None && final(self).0 == 0,
            old(self).0 != 0 ==> r == Some(lowest(old(self).0) as u8) && lowest(old(self).0) < 64
                && final(self).0 == drop_lowest(old(self).0) && final(self).0 < old(self).0,
            r is Some ==> old(self).contains(r->0 as int) && (forall|t: int|
                0 <= t < r->0 ==> !old(self).contains(t)) && (forall|t: int|
                #[trigger] final(self).contains(t) == (old(self).contains(t) && t != r->0)),
    {
        if self.0 == 0 {
            return None;
        }
        proof {
            lemma_lowest(self.0);
            let low = lowest(self.0);
            assert forall|t: int| #[trigger] member(drop_lowest(self.0), t) == (member(self.0, t)
                && t != low) by {
                lemma_member_ops(self.0, bit(low), t);
                lemma_member_bit(low, t);
            }
        }
        let square: u8 = self.0.trailing_zeros() as u8;
        self.0 = self.0 & (self.0 - 1);
        Some(square)
    }

    /// The one square of a one-square set, or why there is none.
    pub open spec fn to_square_spec(self) -> Result<u8, SquareError> {
        if self.0 == 0 {
            Err(SquareError::Empty)
        } else if drop_lowest(self.0) != 0 {
            Err(SquareError::Multiple)
        } else {
            Ok(lowest(self.0) as u8)
        }
    }

    /// The one square of a one-square set.
    pub fn to_square(self) -> (r: Result<u8, SquareError>)
        ensures
            r == self.to_square_spec(),
            r is Ok ==> r->Ok_0 < 64 && self.0 == bit(r->Ok_0 as int),
    {
        if self.is_none() {
            return Err(SquareError::Empty);
        }
        if self.0 & (self.0 - 1) != 0 {
            return Err(SquareError::Multiple);
        }
        proof {
            lemma_lowest(self.0);
            lemma_single(self.0);
        }
        Ok(self.0.trailing_zeros() as u8)
    }

    /// The members in ascending order.
    pub fn squares(self) -> (r: Vec<u8>)
        ensures
            r@.len() == self.members().len(),
            forall|i: int| 0 <= i < r@.len() ==> r@[i] as int == #[trigger] self.members()[i],
    {
        let mut rest = self;
        let mut out: Vec<u8> = Vec::new();
        while rest.0 != 0
            invariant
                self.members() == out@.map_values(|s: u8| s as int) + squares_of(rest.0),
            decreases rest.0,
        {
            let ghost before = out@;
            let ghost old_rest = rest.0;
            match rest.next() {
                Some(sq) => {
                    out.push(sq);
                    assert(out@.map_values(|s: u8| s as int) =~= before.map_values(|s: u8| s as int)
                        + seq![sq as int]);
                    assert(squares_of(old_rest) == seq![sq as int] + squares_of(rest.0));
                },
                None => {},
            }
        }
        assert(squares_of(0) =~= Seq::<int>::empty());
        assert(self.members() =~= out@.map_values(|s: u8| s as int));
        out
    }

    /// The number of members.
    pub fn count(self) -> (r: usize)
        ensures
            r == self.members().len(),
    {
        self.squares().len()
    }
}

impl core::convert::From<u64> for Bitboard {
    fn from(bits: u64) -> (r: Bitboard) {
        Bitboard(bits)
    }
}

impl vstd::std_specs::convert::FromSpecImpl<u64> for Bitboard {
    open spec fn obeys_from_spec() -> bool {
        true
    }

    open spec fn from_spec(bits: u64) -> Bitboard {
        Bitboard(bits)
    }
}

impl core::convert::From<Bitboard> for u64 {
    fn from(bitboard: Bitboard) -> (r: u64) {
        bitboard.0
    }
}

impl vstd::std_specs::convert::FromSpecImpl<Bitboard> for u64 {
    open spec fn obeys_from_spec() -> bool {
        true
    }

    open spec fn from_spec(bitboard: Bitboard) -> u64 {
        bitboard.0
    }
}

impl core::ops::BitAnd<Bitboard> for Bitboard {
    type Output = Bitboard;

    fn bitand(self, rhs: Bitboard) -> (r: Bitboard) {
        Bitboard(self.0 & rhs.0)
    }
}

impl vstd::std_specs::ops::BitAndSpecImpl<Bitboard> for Bitboard {
    open spec fn obeys_bitand_spec() -> bool {
        true
    }

    open spec fn bitand_req(self, rhs: Bitboard) -> bool {
        true
    }

    open spec fn bitand_spec(self, rhs: Bitboard) -> Bitboard {
        Bitboard(self.0 & rhs.0)
    }
}

impl core::ops::BitAnd<u64> for Bitboard {
    type Output = Bitboard;

    fn bitand(self, rhs: u64) -> (r: Bitboard) {
        Bitboard(self.0 & rhs)
    }
}

impl vstd::std_specs::ops::BitAndSpecImpl<u64> for Bitboard {
    open spec fn obeys_bitand_spec() -> bool {
        true
    }

    open spec fn bitand_req(self, rhs: u64) -> bool {
        true
    }

    open spec fn bitand_spec(self, rhs: u64) -> Bitboard {
        Bitboard(self.0 & rhs)
    }
}

impl core::ops::BitAnd<u8> for Bitboard {
    type Output = Bitboard;

    fn bitand(self, rhs: u8) -> (r: Bitboard) {
        Bitboard(self.0 & (1u64 << rhs))
    }
}

impl vstd::std_specs::ops::BitAndSpecImpl<u8> for Bitboard {
    open spec fn obeys_bitand_spec() -> bool {
        true
    }

    open spec fn bitand_req(self, rhs: u8) -> bool {
        rhs < 64
    }

    open spec fn bitand_spec(self, rhs: u8) -> Bitboard {
        Bitboard(self.0 & bit(rhs as int))
    }
}

impl core::ops::BitOr<Bitboard> for Bitboard {
    type Output = Bitboard;

    fn bitor(self, rhs: Bitboard) -> (r: Bitboard) {
        Bitboard(self.0 | rhs.0)
    }
}

impl vstd::std_specs::ops::BitOrSpecImpl<Bitboard> for Bitboard {
    open spec fn obeys_bitor_spec() -> bool {
        true
    }

    open spec fn bitor_req(self, rhs: Bitboard) -> bool {
        true
    }

    open spec fn bitor_spec(self, rhs: Bitboard) -> Bitboard {
        Bitboard(self.0 | rhs.0)
    }
}

impl core::ops::BitOr<u64> for Bitboard {
    type Output = Bitboard;

    fn bitor(self, rhs: u64) -> (r: Bitboard) {
        Bitboard(self.0 | rhs)
    }
}

impl vstd::std_specs::ops::BitOrSpecImpl<u64> for Bitboard {
    open spec fn obeys_bitor_spec() -> bool {
        true
    }

    open spec fn bitor_req(self, rhs: u64) -> bool {
        true
    }

    open spec fn bitor_spec(self, rhs: u64) -> Bitboard {
        Bitboard(self.0 | rhs)
    }
}

impl core::ops::BitOr<u8> for Bitboard {
    type Output = Bitboard;

    fn bitor(self, rhs: u8) -> (r: Bitboard) {
        Bitboard(self.0 | (1u64 << rhs))
    }
}

impl vstd::std_specs::ops::BitOrSpecImpl<u8> for Bitboard {
    open spec fn obeys_bitor_spec() -> bool {
        true
    }

    open spec fn bitor_req(self, rhs: u8) -> bool {
        rhs < 64
    }

    open spec fn bitor_spec(self, rhs: u8) -> Bitboard {
        Bitboard(self.0 | bit(rhs as int))
    }
}

impl core::ops::BitXor<Bitboard> for Bitboard {
    type Output = Bitboard;

    fn bitxor(self, rhs: Bitboard) -> (r: Bitboard) {
        Bitboard(self.0 ^ rhs.0)
    }
}

impl vstd::std_specs::ops::BitXorSpecImpl<Bitboard> for Bitboard {
    open spec fn obeys_bitxor_spec() -> bool {
        true
    }

    open spec fn bitxor_req(self, rhs: Bitboard) -> bool {
        true
    }

    open spec fn bitxor_spec(self, rhs: Bitboard) -> Bitboard {
        Bitboard(self.0 ^ rhs.0)
    }
}

impl core::ops::BitXor<u64> for Bitboard {
    type Output = Bitboard;

    fn bitxor(self, rhs: u64) -> (r: Bitboard) {
        Bitboard(self.0 ^ rhs)
    }
}

impl vstd::std_specs::ops::BitXorSpecImpl<u64> for Bitboard {
    open spec fn obeys_bitxor_spec() -> bool {
        true
    }

    open spec fn bitxor_req(self, rhs: u64) -> bool {
        true
    }

    open spec fn bitxor_spec(self, rhs: u64) -> Bitboard {
        Bitboard(self.0 ^ rhs)
    }
}

impl core::ops::BitXor<u8> for Bitboard {
    type Output = Bitboard;

    fn bitxor(self, rhs: u8) -> (r: Bitboard) {
        Bitboard(self.0 ^ (1u64 << rhs))
    }
}

impl vstd::std_specs::ops::BitXorSpecImpl<u8> for Bitboard {
    open spec fn obeys_bitxor_spec() -> bool {
        true
    }

    open spec fn bitxor_req(self, rhs: u8) -> bool {
        rhs < 64
    }

    open spec fn bitxor_spec(self, rhs: u8) -> Bitboard {
        Bitboard(self.0 ^ bit(rhs as int))
    }
}

impl core::ops::Shl<u8> for Bitboard {
    type Output = Bitboard;

    fn shl(self, rhs: u8) -> (r: Bitboard) {
        Bitboard(self.0 << rhs)
    }
}

impl vstd::std_specs::ops::ShlSpecImpl<u8> for Bitboard {
    open spec fn obeys_shl_spec() -> bool {
        true
    }

    open spec fn shl_req(self, rhs: u8) -> bool {
        rhs < 64
    }

    open spec fn shl_spec(self, rhs: u8) -> Bitboard {
        Bitboard(self.0 << rhs)
    }
}

impl core::ops::Shr<u8> for Bitboard {
    type Output = Bitboard;

    fn shr(self, rhs: u8) -> (r: Bitboard) {
        Bitboard(self.0 >> rhs)
    }
}

impl vstd::std_specs::ops::ShrSpecImpl<u8> for Bitboard {
    open spec fn obeys_shr_spec() -> bool {
        true
    }

    open spec fn shr_req(self, rhs: u8) -> bool {
        rhs < 64
    }

    open spec fn shr_spec(self, rhs: u8) -> Bitboard {
        Bitboard(self.0 >> rhs)
    }
}

impl core::ops::Not for Bitboard {
    type Output = Bitboard;

    fn not(self) -> (r: Bitboard) {
        Bitboard(!self.0)
    }
}

impl vstd::std_specs::ops::NotSpecImpl for Bitboard {
    open spec fn obeys_not_spec() -> bool {
        true
    }

    open spec fn not_req(self) -> bool {
        true
    }

    open spec fn not_spec(self) -> Bitboard {
        Bitboard(!self.0)
    }
}


impl core::ops::BitAnd<Tile> for Bitboard {
    type Output = Bitboard;

    fn bitand(self, rhs: Tile) -> (r: Bitboard) {
        Bitboard(self.0 & (1u64 << rhs.0))
    }
}

impl vstd::std_specs::ops::BitAndSpecImpl<Tile> for Bitboard {
    open spec fn obeys_bitand_spec() -> bool {
        true
    }

    open spec fn bitand_req(self, rhs: Tile) -> bool {
        rhs.on_board()
    }

    open spec fn bitand_spec(self, rhs: Tile) -> Bitboard {
        Bitboard(self.0 & bit(rhs.0 as int))
    }
}

impl core::ops::BitOr<Tile> for Bitboard {
    type Output = Bitboard;

    fn bitor(self, rhs: Tile) -> (r: Bitboard) {
        Bitboard(self.0 | (1u64 << rhs.0))
    }
}

impl vstd::std_specs::ops::BitOrSpecImpl<Tile> for Bitboard {
    open spec fn obeys_bitor_spec() -> bool {
        true
    }

    open spec fn bitor_req(self, rhs: Tile) -> bool {
        rhs.on_board()
    }

    open spec fn bitor_spec(self, rhs: Tile) -> Bitboard {
        Bitboard(self.0 | bit(rhs.0 as int))
    }
}

impl core::ops::BitXor<Tile> for Bitboard {
    type Output = Bitboard;

    fn bitxor(self, rhs: Tile) -> (r: Bitboard) {
        Bitboard(self.0 ^ (1u64 << rhs.0))
    }
}

impl vstd::std_specs::ops::BitXorSpecImpl<Tile> for Bitboard {
    open spec fn obeys_bitxor_spec() -> bool {
        true
    }

    open spec fn bitxor_req(self, rhs: Tile) -> bool {
        rhs.on_board()
    }

    open spec fn bitxor_spec(self, rhs: Tile) -> Bitboard {
        Bitboard(self.0 ^ bit(rhs.0 as int))
    }
}

} // verus!
