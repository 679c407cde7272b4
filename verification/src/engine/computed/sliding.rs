use crate::engine::bitboard::bits::{
    anticlockwise_of, clockwise_of, east_of, file_of, lemma_member_flip, lemma_same_members, member,
    north_east_of, north_of, north_west_of, rank_of, south_east_of, south_of, south_west_of,
    west_of, ANTIDIAG_BITS, DIAGONAL_BITS, FILE_A_BITS, RANK_1_BITS,
};
use vstd::prelude::*;

verus! {

/// The squares a slider reaches going north from the squares of `from`:
/// one step at a time, at most `steps` steps, stopping on the first
/// occupied square, which is still reached.
pub open spec fn ray_north(from: u64, occupied: u64, steps: nat) -> u64
    decreases steps,
{
    if steps == 0 {
        0
    } else {
        let next = north_of(from);
        next | ray_north(next & !occupied, occupied, (steps - 1) as nat)
    }
}

/// The squares a slider reaches going south from the squares of `from`:
/// one step at a time, at most `steps` steps, stopping on the first
/// occupied square, which is still reached.
pub open spec fn ray_south(from: u64, occupied: u64, steps: nat) -> u64
    decreases steps,
{
    if steps == 0 {
        0
    } else {
        let next = south_of(from);
        next | ray_south(next & !occupied, occupied, (steps - 1) as nat)
    }
}

/// The squares a slider reaches going east from the squares of `from`:
/// one step at a time, at most `steps` steps, stopping on the first
/// occupied square, which is still reached.
pub open spec fn ray_east(from: u64, occupied: u64, steps: nat) -> u64
    decreases steps,
{
    if steps == 0 {
        0
    } else {
        let next = east_of(from);
        next | ray_east(next & !occupied, occupied, (steps - 1) as nat)
    }
}

/// The squares a slider reaches going west from the squares of `from`:
/// one step at a time, at most `steps` steps, stopping on the first
/// occupied square, which is still reached.
pub open spec fn ray_west(from: u64, occupied: u64, steps: nat) -> u64
    decreases steps,
{
    if steps == 0 {
        0
    } else {
        let next = west_of(from);
        next | ray_west(next & !occupied, occupied, (steps - 1) as nat)
    }
}

/// The squares a slider reaches going north-east from the squares of `from`:
/// one step at a time, at most `steps` steps, stopping on the first
/// occupied square, which is still reached.
pub open spec fn ray_north_east(from: u64, occupied: u64, steps: nat) -> u64
    decreases steps,
{
    if steps == 0 {
        0
    } else {
        let next = north_east_of(from);
        next | ray_north_east(next & !occupied, occupied, (steps - 1) as nat)
    }
}

/// The squares a slider reaches going north-west from the squares of `from`:
/// one step at a time, at most `steps` steps, stopping on the first
/// occupied square, which is still reached.
pub open spec fn ray_north_west(from: u64, occupied: u64, steps: nat) -> u64
    decreases steps,
{
    if steps == 0 {
        0
    } else {
        let next = north_west_of(from);
        next | ray_north_west(next & !occupied, occupied, (steps - 1) as nat)
    }
}

/// The squares a slider reaches going south-east from the squares of `from`:
/// one step at a time, at most `steps` steps, stopping on the first
/// occupied square, which is still reached.
pub open spec fn ray_south_east(from: u64, occupied: u64, steps: nat) -> u64
    decreases steps,
{
    if steps == 0 {
        0
    } else {
        let next = south_east_of(from);
        next | ray_south_east(next & !occupied, occupied, (steps - 1) as nat)
    }
}

/// The squares a slider reaches going south-west from the squares of `from`:
/// one step at a time, at most `steps` steps, stopping on the first
/// occupied square, which is still reached.
pub open spec fn ray_south_west(from: u64, occupied: u64, steps: nat) -> u64
    decreases steps,
{
    if steps == 0 {
        0
    } else {
        let next = south_west_of(from);
        next | ray_south_west(next & !occupied, occupied, (steps - 1) as nat)
    }
}

/// The squares a rook on `sq` reaches when the squares of `occupied` are
/// taken: along its rank and file, up to and including the first taken
/// square each way.
pub open spec fn rook_reach(sq: u64, occupied: u64) -> u64 {
    rank_reach(sq, occupied) | file_reach(sq, occupied)
}

/// The squares a bishop on `sq` reaches when the squares of `occupied` are
/// taken.
pub open spec fn bishop_reach(sq: u64, occupied: u64) -> u64 {
    diagonal_reach(sq, occupied) | antidiag_reach(sq, occupied)
}

/// What a slider on `sq` reaches along its rank.
pub open spec fn rank_reach(sq: u64, occupied: u64) -> u64 {
    ray_east(1u64 << sq, occupied, 7) | ray_west(1u64 << sq, occupied, 7)
}

/// What a slider on `sq` reaches along its file.
pub open spec fn file_reach(sq: u64, occupied: u64) -> u64 {
    ray_north(1u64 << sq, occupied, 7) | ray_south(1u64 << sq, occupied, 7)
}

/// What a slider on `sq` reaches along its diagonal.
pub open spec fn diagonal_reach(sq: u64, occupied: u64) -> u64 {
    ray_north_east(1u64 << sq, occupied, 7) | ray_south_west(1u64 << sq, occupied, 7)
}

/// What a slider on `sq` reaches along its antidiagonal.
pub open spec fn antidiag_reach(sq: u64, occupied: u64) -> u64 {
    ray_north_west(1u64 << sq, occupied, 7) | ray_south_east(1u64 << sq, occupied, 7)
}

/// The squares of the rank that `sq` stands on.
pub open spec fn rank_line(sq: u64) -> u64 {
    RANK_1_BITS << (sq & 56)
}

/// The squares of the file that `sq` stands on.
pub open spec fn file_line(sq: u64) -> u64 {
    FILE_A_BITS << (sq & 7)
}

/// The squares of the diagonal (parallel to a1-h8) that `sq` stands on.
pub open spec fn diagonal_line(sq: u64) -> u64 {
    if (sq >> 3) >= (sq & 7) {
        DIAGONAL_BITS << (((sq >> 3) - (sq & 7)) * 8) as u64
    } else {
        DIAGONAL_BITS >> (((sq & 7) - (sq >> 3)) * 8) as u64
    }
}

/// The squares of the antidiagonal (parallel to h1-a8) that `sq` stands on.
pub open spec fn antidiag_line(sq: u64) -> u64 {
    if (sq >> 3) + (sq & 7) <= 7 {
        ANTIDIAG_BITS >> ((7 - (sq >> 3) - (sq & 7)) * 8) as u64
    } else {
        ANTIDIAG_BITS << (((sq >> 3) + (sq & 7) - 7) * 8) as u64
    }
}

/// The bits of a byte in reverse order.
pub open spec fn rev8(x: u8) -> u8 {
    ((x & 1) << 7) | ((x & 2) << 5) | ((x & 4) << 3) | ((x & 8) << 1) | ((x & 16) >> 1) | ((x & 32)
        >> 3) | ((x & 64) >> 5) | ((x & 128) >> 7)
}

/// Subtraction that wraps round at eight bits.
pub open spec fn wsub8(a: u8, b: u8) -> u8 {
    vstd::wrapping::u8_specs::wrapping_sub(a, b)
}

/// Multiplication that wraps round at eight bits.
pub open spec fn wmul8(a: u8, b: u8) -> u8 {
    vstd::wrapping::u8_specs::wrapping_mul(a, b)
}

/// Multiplication that wraps round at sixty-four bits.
pub open spec fn wmul64(a: u64, b: u64) -> u64 {
    vstd::wrapping::u64_specs::wrapping_mul(a, b)
}

/// The attack set of a slider within one rank of eight squares, by
/// subtraction: `o` holds the taken squares of the rank, `s` the slider.
pub open spec fn single_rank(o: u8, s: u8) -> u8 {
    wsub8(o, wmul8(2, s)) ^ rev8(wsub8(rev8(o), wmul8(2, rev8(s))))
}

/// The six inner squares of a line, gathered into a number below 64 by one
/// multiplication and one shift.
pub open spec fn kindergarten_index(line: u64) -> u64 {
    wmul64(line, 0x0202020202020202u64) >> 58
}

/// The one-rank attack set of a slider on file `file` against the inner
/// occupancy `idx`, copied onto all eight ranks.
pub open spec fn spread(idx: u64, file: u64) -> u64 {
    wmul64(single_rank(((idx << 1) & 0xFF) as u8, (1u64 << file) as u8) as u64, FILE_A_BITS)
}

/// The entry of the rank table for a square and an inner occupancy.
pub open spec fn rank_entry(sq: u64, idx: u64) -> u64 {
    rank_line(sq) & spread(idx, sq & 7)
}

/// The entry of the file table for a square and an inner occupancy of
/// the file turned onto a rank.
pub open spec fn file_entry(sq: u64, idx: u64) -> u64 {
    file_line(sq) & clockwise_of(spread(idx, 7 ^ (sq >> 3)))
}

/// The entry of the diagonal table for a square and an inner occupancy.
pub open spec fn diagonal_entry(sq: u64, idx: u64) -> u64 {
    diagonal_line(sq) & spread(idx, sq & 7)
}

/// The entry of the antidiagonal table for a square and an inner
/// occupancy.
pub open spec fn antidiag_entry(sq: u64, idx: u64) -> u64 {
    antidiag_line(sq) & spread(idx, sq & 7)
}

/// Looking a rank's occupancy up in the rank table gives what a slider
/// reaches along the rank.
pub proof fn lemma_rank_lookup(occ: u64, sq: u64)
    by (bit_vector)
    requires
        sq < 64,
    ensures
        rank_entry(sq, kindergarten_index(occ & rank_line(sq))) == rank_reach(sq, occ),
        kindergarten_index(occ & rank_line(sq)) < 64,
{
}

/// A quarter turn goes through the set operations, and turns a step east
/// into a step south and a step west into a step north.
proof fn lemma_turn_algebra(x: u64, y: u64)
    by (bit_vector)
    ensures
        clockwise_of(x | y) == clockwise_of(x) | clockwise_of(y),
        clockwise_of(x & y) == clockwise_of(x) & clockwise_of(y),
        clockwise_of(!x) == !clockwise_of(x),
        anticlockwise_of(x & y) == anticlockwise_of(x) & anticlockwise_of(y),
        clockwise_of(east_of(x)) == south_of(clockwise_of(x)),
        clockwise_of(west_of(x)) == north_of(clockwise_of(x)),
        clockwise_of(0) == 0,
        x | y == y | x,
{
}

/// A quarter turn anticlockwise and one clockwise give the set back.
proof fn lemma_turn_back(x: u64)
    ensures
        clockwise_of(anticlockwise_of(x)) == x,
{
    let y = anticlockwise_of(x);
    assert forall|sq: int| 0 <= sq < 64 implies member(clockwise_of(y), sq) == member(x, sq) by {
        let mid = file_of(sq) * 8 + (7 - rank_of(sq));
        lemma_member_flip(y, sq);
        lemma_member_flip(x, mid);
    }
    lemma_same_members(clockwise_of(y), x);
}

/// A quarter turn clockwise turns a ray east into a ray south, and a ray
/// west into a ray north.
proof fn lemma_turn_rays(from: u64, occupied: u64, steps: nat)
    ensures
        clockwise_of(ray_east(from, occupied, steps)) == ray_south(
            clockwise_of(from),
            clockwise_of(occupied),
            steps,
        ),
        clockwise_of(ray_west(from, occupied, steps)) == ray_north(
            clockwise_of(from),
            clockwise_of(occupied),
            steps,
        ),
    decreases steps,
{
    lemma_turn_algebra(0, 0);
    if steps > 0 {
        let e = east_of(from);
        let w = west_of(from);
        lemma_turn_algebra(from, occupied);
        lemma_turn_algebra(occupied, occupied);
        lemma_turn_algebra(e, !occupied);
        lemma_turn_algebra(w, !occupied);
        lemma_turn_rays(e & !occupied, occupied, (steps - 1) as nat);
        lemma_turn_rays(w & !occupied, occupied, (steps - 1) as nat);
        lemma_turn_algebra(e, ray_east(e & !occupied, occupied, (steps - 1) as nat));
        lemma_turn_algebra(w, ray_west(w & !occupied, occupied, (steps - 1) as nat));
    }
}

/// The square that a quarter turn clockwise carries onto `sq`.
pub open spec fn turned_back(sq: u64) -> u64 {
    ((sq & 7) << 3) | (7 ^ (sq >> 3))
}

/// The square that a quarter turn carries onto `sq`, and what the turn
/// does to its one-square set and to its rank.
proof fn lemma_turn_square(sq: u64, idx: u64)
    by (bit_vector)
    requires
        sq < 64,
    ensures
        turned_back(sq) < 64,
        clockwise_of(1u64 << turned_back(sq)) == 1u64 << sq,
        clockwise_of(rank_line(turned_back(sq))) == file_line(sq),
        rank_line(turned_back(sq)) == anticlockwise_of(file_line(sq)),
        turned_back(sq) & 7 == 7 ^ (sq >> 3),
{
}

/// Looking a file's occupancy, turned onto a rank, up in the file table
/// gives what a slider reaches along the file.
pub proof fn lemma_file_lookup(occ: u64, sq: u64)
    requires
        sq < 64,
    ensures
        file_entry(sq, kindergarten_index(anticlockwise_of(occ & file_line(sq)))) == file_reach(
            sq,
            occ,
        ),
        kindergarten_index(anticlockwise_of(occ & file_line(sq))) < 64,
{
    let back = turned_back(sq);
    let turned = anticlockwise_of(occ);
    lemma_turn_square(sq, 0);
    lemma_turn_algebra(occ, file_line(sq));
    lemma_rank_lookup(turned, back);
    let idx = kindergarten_index(turned & rank_line(back));
    assert(idx == kindergarten_index(anticlockwise_of(occ & file_line(sq))));
    lemma_turn_algebra(rank_line(back), spread(idx, back & 7));
    assert(clockwise_of(rank_entry(back, idx)) == file_entry(sq, idx));
    lemma_turn_rays(1u64 << back, turned, 7);
    lemma_turn_algebra(ray_east(1u64 << back, turned, 7), ray_west(1u64 << back, turned, 7));
    lemma_turn_back(occ);
    lemma_turn_algebra(ray_north(1u64 << sq, occ, 7), ray_south(1u64 << sq, occ, 7));
    assert(clockwise_of(rank_reach(back, turned)) == file_reach(sq, occ));
}

/// Looking a diagonal's occupancy up in the diagonal table gives what a
/// slider reaches along the diagonal.
pub proof fn lemma_diagonal_lookup(occ: u64, sq: u64)
    by (bit_vector)
    requires
        sq < 64,
    ensures
        diagonal_entry(sq, kindergarten_index(occ & diagonal_line(sq))) == diagonal_reach(sq, occ),
        kindergarten_index(occ & diagonal_line(sq)) < 64,
{
}

/// Looking an antidiagonal's occupancy up in its table gives what a
/// slider reaches along the antidiagonal.
pub proof fn lemma_antidiag_lookup(occ: u64, sq: u64)
    by (bit_vector)
    requires
        sq < 64,
    ensures
        antidiag_entry(sq, kindergarten_index(occ & antidiag_line(sq))) == antidiag_reach(sq, occ),
        kindergarten_index(occ & antidiag_line(sq)) < 64,
{
}

} // verus!
