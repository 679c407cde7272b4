use crate::engine::bitboard::Bitboard;
use crate::engine::bitboard::bits::{lemma_square_parts, FILE_A_BITS};
use crate::engine::computed::geometry::{lemma_attack_set, reaches};
use crate::engine::computed::lines::{LineMasks, Rays};
use crate::engine::computed::patterns::{
    attack_set, black_pawn_pattern, king_pattern, knight_pattern, white_pawn_pattern,
};
use crate::engine::computed::single_rank_attack::single_rank_of;
use crate::engine::computed::sliding::{
    antidiag_entry, diagonal_entry, file_entry, kindergarten_index, lemma_antidiag_lookup,
    lemma_diagonal_lookup, lemma_file_lookup, lemma_rank_lookup, rank_entry, spread,
};
use crate::engine::piece::{PieceColor, PieceType};
use crate::engine::tile::Tile;
use vstd::prelude::*;

verus! {

/// The one-rank attack set of a slider on file `file` against the inner
/// occupancy `idx`, copied onto all eight ranks.
fn spread_of(idx: u64, file: u64) -> (r: u64)
    requires
        idx < 64,
        file < 8,
    ensures
        r == spread(idx, file),
{
    proof {
        lemma_square_parts(idx);
        lemma_square_parts(file);
        lemma_square_parts((7 - file) as u64);
    }
    let o: u8 = ((idx << 1) & 0xFF) as u8;
    let s: u8 = (1u64 << file) as u8;
    (single_rank_of(o, s) as u64).wrapping_mul(FILE_A_BITS)
}

/// For each square the attack sets of every kind of piece: fixed patterns
/// for king, knight and pawns, and for the sliders one set per line and per
/// occupancy of the line's six inner squares.
pub struct Attacks {
    rays: Rays,
    kings: [Bitboard; 64],
    knights: [Bitboard; 64],
    white_pawns: [Bitboard; 64],
    black_pawns: [Bitboard; 64],
    ranks: [[Bitboard; 64]; 64],
    files: [[Bitboard; 64]; 64],
    diagonals: [[Bitboard; 64]; 64],
    antidiags: [[Bitboard; 64]; 64],
}

impl Attacks {
    /// Every table holds what its name says for every square, and the
    /// slider tables for every inner occupancy.
    pub closed spec fn wf(&self) -> bool {
        &&& self.rays.wf()
        &&& forall|s: int| 0 <= s < 64 ==> (#[trigger] self.kings[s]).0 == king_pattern(s as u64)
        &&& forall|s: int|
            0 <= s < 64 ==> (#[trigger] self.knights[s]).0 == knight_pattern(s as u64)
        &&& forall|s: int|
            0 <= s < 64 ==> (#[trigger] self.white_pawns[s]).0 == white_pawn_pattern(s as u64)
        &&& forall|s: int|
            0 <= s < 64 ==> (#[trigger] self.black_pawns[s]).0 == black_pawn_pattern(s as u64)
        &&& forall|s: int, i: int|
            0 <= s < 64 && 0 <= i < 64 ==> (#[trigger] self.ranks[s][i]).0 == rank_entry(
                s as u64,
                i as u64,
            )
        &&& forall|s: int, i: int|
            0 <= s < 64 && 0 <= i < 64 ==> (#[trigger] self.files[s][i]).0 == file_entry(
                s as u64,
                i as u64,
            )
        &&& forall|s: int, i: int|
            0 <= s < 64 && 0 <= i < 64 ==> (#[trigger] self.diagonals[s][i]).0 == diagonal_entry(
                s as u64,
                i as u64,
            )
        &&& forall|s: int, i: int|
            0 <= s < 64 && 0 <= i < 64 ==> (#[trigger] self.antidiags[s][i]).0 == antidiag_entry(
                s as u64,
                i as u64,
            )
    }

    /// Builds the tables: the patterns straight from the square, and each
    /// slider entry from the one-rank attack set of its inner occupancy.
    pub fn new() -> (r: Self)
        ensures
            r.wf(),
    {
        let rays = Rays::new();
        let mut kings: [Bitboard; 64] = [Bitboard(0);64];
        let mut knights: [Bitboard; 64] = [Bitboard(0);64];
        let mut white_pawns: [Bitboard; 64] = [Bitboard(0);64];
        let mut black_pawns: [Bitboard; 64] = [Bitboard(0);64];
        let mut ranks: [[Bitboard; 64]; 64] = [[Bitboard(0);64];64];
        let mut files: [[Bitboard; 64]; 64] = [[Bitboard(0);64];64];
        let mut diagonals: [[Bitboard; 64]; 64] = [[Bitboard(0);64];64];
        let mut antidiags: [[Bitboard; 64]; 64] = [[Bitboard(0);64];64];
        let mut index: usize = 0;
        while index < 64
            invariant
                index <= 64,
                rays.wf(),
                forall|s: int| 0 <= s < index ==> (#[trigger] kings[s]).0 == king_pattern(s as u64),
                forall|s: int|
                    0 <= s < index ==> (#[trigger] knights[s]).0 == knight_pattern(s as u64),
                forall|s: int|
                    0 <= s < index ==> (#[trigger] white_pawns[s]).0 == white_pawn_pattern(
                        s as u64,
                    ),
                forall|s: int|
                    0 <= s < index ==> (#[trigger] black_pawns[s]).0 == black_pawn_pattern(
                        s as u64,
                    ),
                forall|s: int, i: int|
                    0 <= s < index && 0 <= i < 64 ==> (#[trigger] ranks[s][i]).0 == rank_entry(
                        s as u64,
                        i as u64,
                    ),
                forall|s: int, i: int|
                    0 <= s < index && 0 <= i < 64 ==> (#[trigger] files[s][i]).0 == file_entry(
                        s as u64,
                        i as u64,
                    ),
                forall|s: int, i: int|
                    0 <= s < index && 0 <= i < 64 ==> (#[trigger] diagonals[s][i]).0
                        == diagonal_entry(s as u64, i as u64),
                forall|s: int, i: int|
                    0 <= s < index && 0 <= i < 64 ==> (#[trigger] antidiags[s][i]).0
                        == antidiag_entry(s as u64, i as u64),
            decreases 64 - index,
        {
            let bitboard = Bitboard::from_square(index as u8);
            let sq: u64 = index as u64;
            proof {
                lemma_square_parts(sq);
            }

            let row = bitboard.west() | bitboard | bitboard.east();
            kings[index] = (row | (row << 8u8) | (row >> 8u8)) ^ bitboard;

            let east_one = bitboard.east();
            let east_two = east_one.east();
            let west_one = bitboard.west();
            let west_two = west_one.west();
            let rank_one = east_one | west_one;
            let rank_two = east_two | west_two;
            knights[index] = (rank_one << 16u8) | (rank_one >> 16u8) | (rank_two << 8u8) | (rank_two
                >> 8u8);

            white_pawns[index] = bitboard.north_east() | bitboard.north_west();
            black_pawns[index] = bitboard.south_east() | bitboard.south_west();

            let file: u64 = sq & 7;
            let turned_file: u64 = 7 ^ (sq >> 3);
            let mut rank_row: [Bitboard; 64] = [Bitboard(0);64];
            let mut file_row: [Bitboard; 64] = [Bitboard(0);64];
            let mut diagonal_row: [Bitboard; 64] = [Bitboard(0);64];
            let mut antidiag_row: [Bitboard; 64] = [Bitboard(0);64];
            let mut occupancy: usize = 0;
            while occupancy < 64
                invariant
                    occupancy <= 64,
                    index < 64,
                    sq == index,
                    file == sq & 7,
                    file < 8,
                    turned_file == 7 ^ (sq >> 3),
                    turned_file < 8,
                    rays.wf(),
                    forall|i: int|
                        0 <= i < occupancy ==> (#[trigger] rank_row[i]).0 == rank_entry(
                            sq,
                            i as u64,
                        ),
                    forall|i: int|
                        0 <= i < occupancy ==> (#[trigger] file_row[i]).0 == file_entry(
                            sq,
                            i as u64,
                        ),
                    forall|i: int|
                        0 <= i < occupancy ==> (#[trigger] diagonal_row[i]).0 == diagonal_entry(
                            sq,
                            i as u64,
                        ),
                    forall|i: int|
                        0 <= i < occupancy ==> (#[trigger] antidiag_row[i]).0 == antidiag_entry(
                            sq,
                            i as u64,
                        ),
                decreases 64 - occupancy,
            {
                let single_rank_files = Bitboard(spread_of(occupancy as u64, file));
                let single_file_ranks = Bitboard(
                    spread_of(occupancy as u64, turned_file),
                ).clockwise();
                rank_row[occupancy] = rays.ranks[index] & single_rank_files;
                file_row[occupancy] = rays.files[index] & single_file_ranks;
                diagonal_row[occupancy] = rays.diagonals[index] & single_rank_files;
                antidiag_row[occupancy] = rays.antidiags[index] & single_rank_files;
                occupancy += 1;
            }
            ranks[index] = rank_row;
            files[index] = file_row;
            diagonals[index] = diagonal_row;
            antidiags[index] = antidiag_row;
            index += 1;
        }
        Attacks {
            rays,
            kings,
            knights,
            white_pawns,
            black_pawns,
            ranks,
            files,
            diagonals,
            antidiags,
        }
    }

    /// Every square that a piece of the given colour and kind, standing
    /// alone on `square`, attacks when the squares of `occupancy` are
    /// taken. Friendly squares are not taken out; king, knight and pawn do
    /// not look at `occupancy`.
    pub fn get(&self, color: PieceColor, kind: PieceType, square: u8, occupancy: Bitboard) -> (r:
        Bitboard)
        requires
            self.wf(),
            square < 64,
        ensures
            r.0 == attack_set(color, kind, square as u64, occupancy.0),
            forall|t: int|
                0 <= t < 64 ==> #[trigger] r.contains(t) == reaches(
                    color,
                    kind,
                    square as int,
                    t,
                    occupancy.0,
                ),
    {
        let index: usize = square as usize;
        let found = match kind {
            PieceType::King => self.kings[index],
            PieceType::Queen => {
                let orthogonal = self.orthogonal(square, occupancy);
                let diagonal = self.diagonal(square, occupancy);
                orthogonal | diagonal
            },
            PieceType::Rook => self.orthogonal(square, occupancy),
            PieceType::Bishop => self.diagonal(square, occupancy),
            PieceType::Knight => self.knights[index],
            PieceType::Pawn => match color {
                PieceColor::White => self.white_pawns[index],
                PieceColor::Black => self.black_pawns[index],
            },
        };
        proof {
            assert forall|t: int| 0 <= t < 64 implies #[trigger] found.contains(t) == reaches(
                color,
                kind,
                square as int,
                t,
                occupancy.0,
            ) by {
                lemma_attack_set(color, kind, square as int, t, occupancy.0);
            }
        }
        found
    }

    /// A rook's attack set: one lookup for the rank, one for the file.
    fn orthogonal(&self, square: u8, occupancy: Bitboard) -> (r: Bitboard)
        requires
            self.wf(),
            square < 64,
        ensures
            r.0 == attack_set(PieceColor::White, PieceType::Rook, square as u64, occupancy.0),
    {
        let index: usize = square as usize;
        proof {
            lemma_rank_lookup(occupancy.0, square as u64);
            lemma_file_lookup(occupancy.0, square as u64);
        }
        let rank = occupancy & self.rays.ranks[index];
        let file = (occupancy & self.rays.files[index]).anticlockwise();
        self.ranks[index][Self::kindergarten(rank)] | self.files[index][Self::kindergarten(file)]
    }

    /// A bishop's attack set: one lookup for the diagonal, one for the
    /// antidiagonal.
    fn diagonal(&self, square: u8, occupancy: Bitboard) -> (r: Bitboard)
        requires
            self.wf(),
            square < 64,
        ensures
            r.0 == attack_set(PieceColor::White, PieceType::Bishop, square as u64, occupancy.0),
    {
        let index: usize = square as usize;
        proof {
            lemma_diagonal_lookup(occupancy.0, square as u64);
            lemma_antidiag_lookup(occupancy.0, square as u64);
        }
        let diagonal = occupancy & self.rays.diagonals[index];
        let antidiag = occupancy & self.rays.antidiags[index];
        self.diagonals[index][Self::kindergarten(diagonal)] | self.antidiags[index][Self::kindergarten(
            antidiag,
        )]
    }

    /// The six inner squares of a line, gathered into a table index.
    fn kindergarten(bitboard: Bitboard) -> (r: usize)
        requires
            kindergarten_index(bitboard.0) < 64,
        ensures
            r == kindergarten_index(bitboard.0),
    {
        (bitboard.0.wrapping_mul(0x0202020202020202u64) >> 58) as usize
    }
}

/// The attack tables, asked by `Tile`.
pub struct AttackMasks {
    line_masks: LineMasks,
    tables: Attacks,
}

impl AttackMasks {
    /// Both parts are in order.
    pub closed spec fn wf(&self) -> bool {
        self.line_masks.wf() && self.tables.wf()
    }

    /// Builds the tables.
    pub fn new() -> (r: Self)
        ensures
            r.wf(),
    {
        AttackMasks { line_masks: LineMasks::new(), tables: Attacks::new() }
    }

    /// Every square that a piece of the given colour and kind, standing
    /// alone on `tile`, attacks when the squares of `occupancy` are taken.
    pub fn get(&self, color: PieceColor, kind: PieceType, tile: Tile, occupancy: Bitboard) -> (r:
        Bitboard)
        requires
            self.wf(),
            tile.on_board(),
        ensures
            r.0 == attack_set(color, kind, tile.0 as u64, occupancy.0),
            forall|t: int|
                0 <= t < 64 ==> #[trigger] r.contains(t) == reaches(
                    color,
                    kind,
                    tile.0 as int,
                    t,
                    occupancy.0,
                ),
    {
        self.tables.get(color, kind, tile.0, occupancy)
    }
}

} // verus!
