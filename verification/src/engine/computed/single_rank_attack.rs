use crate::engine::computed::sliding::{rank_reach, rev8, single_rank};
use vstd::prelude::*;
use vstd::std_specs::bits::{axiom_u8_trailing_zeros, u8_trailing_zeros};

verus! {

/// `u8::reverse_bits` of the standard library: the result holds the bits of
/// the argument in reverse order, the lowest bit becoming the highest.
pub assume_specification[ u8::reverse_bits ](x: u8) -> (r: u8)
    ensures
        r == rev8(x),
;

/// The attack set of a slider within one rank: `o` holds the taken squares
/// of the rank, `s` the slider's square.
pub fn single_rank_of(o: u8, s: u8) -> (r: u8)
    ensures
        r == single_rank(o, s),
{
    let forward: u8 = o.wrapping_sub(2u8.wrapping_mul(s));
    let backward: u8 = o.reverse_bits().wrapping_sub(
        2u8.wrapping_mul(s.reverse_bits()),
    ).reverse_bits();
    forward ^ backward
}

/// The attack set within one rank is what a slider reaches along the
/// first rank of the board when the rank's taken squares are taken.
pub proof fn lemma_single_rank(occupancy: u8, file: u8)
    by (bit_vector)
    requires
        file < 8,
    ensures
        single_rank(occupancy, 1u8 << file) as u64 == rank_reach(file as u64, occupancy as u64)
            & 0xFF,
{
}

/// For each occupancy of a rank and each slider's file on it, the squares
/// of the rank that the slider attacks.
pub struct SingleRankAttack {
    data: [[u8; 8]; 256],
}

impl SingleRankAttack {
    /// What the table holds for an occupancy and a slider's file: the
    /// attack set where the slider's square is among the taken ones, and
    /// nothing elsewhere.
    pub open spec fn entry(occupancy: u8, file: u8) -> u8 {
        if (occupancy >> file) & 1 == 1 {
            single_rank(occupancy, 1u8 << file)
        } else {
            0
        }
    }

    /// Every entry of the table is what `entry` says.
    pub closed spec fn wf(&self) -> bool {
        forall|o: int, f: int|
            0 <= o < 256 && 0 <= f < 8 ==> (#[trigger] self.data[o][f]) == Self::entry(
                o as u8,
                f as u8,
            )
    }

    /// Builds the table for every occupancy of a rank.
    pub fn new() -> (r: Self)
        ensures
            r.wf(),
    {
        let mut data: [[u8; 8]; 256] = [[0u8;8];256];
        let mut occupancy: usize = 0;
        while occupancy < 256
            invariant
                occupancy <= 256,
                forall|o: int, f: int|
                    0 <= o < occupancy && 0 <= f < 8 ==> (#[trigger] data[o][f]) == Self::entry(
                        o as u8,
                        f as u8,
                    ),
            decreases 256 - occupancy,
        {
            let mut row: [u8; 8] = [0u8;8];
            let mut slider: u8 = 0;
            while slider < 8
                invariant
                    occupancy < 256,
                    slider <= 8,
                    forall|f: int|
                        0 <= f < slider ==> (#[trigger] row[f]) == Self::entry(
                            occupancy as u8,
                            f as u8,
                        ),
                    forall|f: int| slider <= f < 8 ==> (#[trigger] row[f]) == 0,
                decreases 8 - slider,
            {
                let o: u8 = occupancy as u8;
                if (o >> slider) & 1 == 1 {
                    row[slider as usize] = single_rank_of(o, 1u8 << slider);
                }
                slider += 1;
            }
            data[occupancy] = row;
            occupancy += 1;
        }
        SingleRankAttack { data }
    }

    /// The squares of a rank that the slider attacks. `slider` holds the
    /// slider's square as a one-square set; it must be among the taken
    /// squares of `occupancy`.
    pub fn get(&self, occupancy: u8, slider: u8) -> (r: u8)
        requires
            self.wf(),
            occupancy & slider != 0,
        ensures
            r == Self::entry(occupancy, u8_trailing_zeros(slider) as u8),
            (occupancy >> (u8_trailing_zeros(slider) as u8)) & 1 == 1 ==> r as u64 == rank_reach(
                u8_trailing_zeros(slider) as u64,
                occupancy as u64,
            ) & 0xFF,
    {
        proof {
            axiom_u8_trailing_zeros(slider);
            assert(occupancy & slider != 0 ==> slider != 0) by (bit_vector);
            lemma_single_rank(occupancy, u8_trailing_zeros(slider) as u8);
        }
        self.data[occupancy as usize][slider.trailing_zeros() as usize]
    }

    /// The bits of a byte in reverse order.
    pub fn reverse(x: u8) -> (r: u8)
        ensures
            r == rev8(x),
    {
        x.reverse_bits()
    }
}

} // verus!
