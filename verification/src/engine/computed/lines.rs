use crate::engine::bitboard::Bitboard;
use crate::engine::computed::sliding::{antidiag_line, diagonal_line, file_line, rank_line};
use crate::engine::tile::Tile;
use vstd::prelude::*;

verus! {

/// For each square the four lines through it: its rank, its file, its
/// diagonal and its antidiagonal.
pub struct Rays {
    pub ranks: [Bitboard; 64],
    pub files: [Bitboard; 64],
    pub diagonals: [Bitboard; 64],
    pub antidiags: [Bitboard; 64],
}

impl Rays {
    /// Every entry is the line through its square.
    pub open spec fn wf(&self) -> bool {
        &&& forall|s: int| 0 <= s < 64 ==> (#[trigger] self.ranks[s]).0 == rank_line(s as u64)
        &&& forall|s: int| 0 <= s < 64 ==> (#[trigger] self.files[s]).0 == file_line(s as u64)
        &&& forall|s: int| 0 <= s < 64 ==> (#[trigger] self.diagonals[s]).0 == diagonal_line(s as u64)
        &&& forall|s: int| 0 <= s < 64 ==> (#[trigger] self.antidiags[s]).0 == antidiag_line(s as u64)
    }

    /// Builds the table, square by square.
    pub fn new() -> (r: Self)
        ensures
            r.wf(),
    {
        let mut masks = Rays {
            ranks: [Bitboard(0);64],
            files: [Bitboard(0);64],
            diagonals: [Bitboard(0);64],
            antidiags: [Bitboard(0);64],
        };
        let mut square: u8 = 0;
        while square < 64
            invariant
                square <= 64,
                forall|s: int| 0 <= s < square ==> (#[trigger] masks.ranks[s]).0 == rank_line(s as u64),
                forall|s: int| 0 <= s < square ==> (#[trigger] masks.files[s]).0 == file_line(s as u64),
                forall|s: int| 0 <= s < square ==> (#[trigger] masks.diagonals[s]).0 == diagonal_line(s as u64),
                forall|s: int| 0 <= s < square ==> (#[trigger] masks.antidiags[s]).0 == antidiag_line(s as u64),
            decreases 64 - square,
        {
            let tile = Tile(square);
            masks.ranks[square as usize] = tile.get_rank();
            masks.files[square as usize] = tile.get_file();
            masks.diagonals[square as usize] = tile.get_diagonal();
            masks.antidiags[square as usize] = tile.get_antidiag();
            square += 1;
        }
        masks
    }
}

/// For each square the four lines through it.
pub struct LineMasks {
    pub ranks: [Bitboard; 64],
    pub files: [Bitboard; 64],
    pub diagonals: [Bitboard; 64],
    pub antidiags: [Bitboard; 64],
}

impl LineMasks {
    /// Every entry is the line through its square.
    pub open spec fn wf(&self) -> bool {
        &&& forall|s: int| 0 <= s < 64 ==> (#[trigger] self.ranks[s]).0 == rank_line(s as u64)
        &&& forall|s: int| 0 <= s < 64 ==> (#[trigger] self.files[s]).0 == file_line(s as u64)
        &&& forall|s: int| 0 <= s < 64 ==> (#[trigger] self.diagonals[s]).0 == diagonal_line(s as u64)
        &&& forall|s: int| 0 <= s < 64 ==> (#[trigger] self.antidiags[s]).0 == antidiag_line(s as u64)
    }

    /// Builds the table, square by square.
    pub fn new() -> (r: Self)
        ensures
            r.wf(),
    {
        let rays = Rays::new();
        LineMasks {
            ranks: rays.ranks,
            files: rays.files,
            diagonals: rays.diagonals,
            antidiags: rays.antidiags,
        }
    }
}

} // verus!
