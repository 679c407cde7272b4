use crate::engine::bitboard::Bitboard;
use crate::engine::bitboard::bits::member;
use crate::engine::computed::geometry::{lemma_between, strictly_between};
use crate::engine::computed::patterns::{between_formula, between_set, lemma_between_formula};
use crate::engine::tile::Tile;
use vstd::prelude::*;

verus! {

/// The set between two squares, computed in closed form.
fn between_of(start: u64, end: u64) -> (r: u64)
    requires
        start < 64,
        end < 64,
    ensures
        r == between_set(start, end),
{
    let m1: u64 = 0xFFFFFFFFFFFFFFFFu64;
    let a2a7: u64 = 0x0001010101010100u64;
    let b2g7: u64 = 0x0040201008040200u64;
    let h1b7: u64 = 0x0002040810204080u64;
    let span: u64 = (m1 << start) ^ (m1 << end);
    let file: u64 = (end & 7).wrapping_sub(start & 7);
    let rank: u64 = (end | 7).wrapping_sub(start) >> 3;
    let mut line: u64 = (file & 7).wrapping_sub(1) & a2a7;
    line = line.wrapping_add(2u64.wrapping_mul((rank & 7).wrapping_sub(1) >> 58));
    line = line.wrapping_add((rank.wrapping_sub(file) & 15).wrapping_sub(1) & b2g7);
    line = line.wrapping_add((rank.wrapping_add(file) & 15).wrapping_sub(1) & h1b7);
    line = line.wrapping_mul(span & 0u64.wrapping_sub(span));
    proof {
        lemma_between_formula(start, end);
        assert(line & span == between_formula(start, end));
    }
    line & span
}

/// For each pair of squares the squares strictly between them.
pub struct Betweens {
    data: [[Bitboard; 64]; 64],
}

impl Betweens {
    /// Every entry is the set between its two squares.
    pub closed spec fn wf(&self) -> bool {
        forall|a: int, b: int|
            0 <= a < 64 && 0 <= b < 64 ==> (#[trigger] self.data[a][b]).0 == between_set(
                a as u64,
                b as u64,
            )
    }

    /// Builds the table, each entry in closed form.
    pub fn new() -> (r: Self)
        ensures
            r.wf(),
    {
        let mut data: [[Bitboard; 64]; 64] = [[Bitboard(0);64];64];
        let mut start: usize = 0;
        while start < 64
            invariant
                start <= 64,
                forall|a: int, b: int|
                    0 <= a < start && 0 <= b < 64 ==> (#[trigger] data[a][b]).0 == between_set(
                        a as u64,
                        b as u64,
                    ),
            decreases 64 - start,
        {
            let mut row: [Bitboard; 64] = [Bitboard(0);64];
            let mut end: usize = 0;
            while end < 64
                invariant
                    start < 64,
                    end <= 64,
                    forall|b: int|
                        0 <= b < end ==> (#[trigger] row[b]).0 == between_set(
                            start as u64,
                            b as u64,
                        ),
                decreases 64 - end,
            {
                row[end] = Bitboard(between_of(start as u64, end as u64));
                end += 1;
            }
            data[start] = row;
            start += 1;
        }
        Betweens { data }
    }

    /// The squares strictly between `start` and `end` on a shared rank,
    /// file, diagonal or antidiagonal; empty when they share none.
    pub fn get(&self, start: u8, end: u8) -> (r: Bitboard)
        requires
            self.wf(),
            start < 64,
            end < 64,
        ensures
            r.0 == between_set(start as u64, end as u64),
            forall|x: int|
                #[trigger] r.contains(x) == (0 <= x < 64 && strictly_between(
                    start as int,
                    x,
                    end as int,
                )),
    {
        proof {
            assert forall|x: int|
                #[trigger] member(between_set(start as u64, end as u64), x) == (0 <= x < 64
                    && strictly_between(start as int, x, end as int)) by {
                lemma_between(start as int, x, end as int);
            }
        }
        self.data[start as usize][end as usize]
    }
}

/// For each pair of squares the squares that must be empty for a slider
/// on one to reach the other.
pub struct ObstructionMasks {
    betweens: Betweens,
}

impl ObstructionMasks {
    /// The table is in order.
    pub closed spec fn wf(&self) -> bool {
        self.betweens.wf()
    }

    /// Builds the table.
    pub fn new() -> (r: Self)
        ensures
            r.wf(),
    {
        ObstructionMasks { betweens: Betweens::new() }
    }

    /// The squares strictly between `start` and `end` on a shared rank,
    /// file, diagonal or antidiagonal; empty when they share none.
    pub fn get(&self, start: Tile, end: Tile) -> (r: Bitboard)
        requires
            self.wf(),
            start.on_board(),
            end.on_board(),
        ensures
            r.0 == between_set(start.0 as u64, end.0 as u64),
            forall|x: int|
                #[trigger] r.contains(x) == (0 <= x < 64 && strictly_between(
                    start.0 as int,
                    x,
                    end.0 as int,
                )),
    {
        self.betweens.get(start.0, end.0)
    }
}

} // verus!
