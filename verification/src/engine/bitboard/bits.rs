use vstd::prelude::*;
use vstd::std_specs::bits::{axiom_u64_trailing_zeros, u64_trailing_zeros};

verus! {

/// The squares of the a-file.
pub const FILE_A_BITS: u64 = 0x0101010101010101;

/// The squares of the h-file.
pub const FILE_H_BITS: u64 = 0x8080808080808080;

/// The squares of the first rank.
pub const RANK_1_BITS: u64 = 0x00000000000000FF;

/// The squares of the diagonal a1-h8.
pub const DIAGONAL_BITS: u64 = 0x8040201008040201;

/// The squares of the diagonal h1-a8.
pub const ANTIDIAG_BITS: u64 = 0x0102040810204080;

/// Whether bit `sq` of `x` is set.
pub open spec fn test_bit(x: u64, sq: u64) -> bool {
    (x >> sq) & 1 == 1
}

/// Whether square `sq` is a member of the set that `x` encodes.
pub open spec fn member(x: u64, sq: int) -> bool {
    0 <= sq < 64 && test_bit(x, sq as u64)
}

/// The set that holds square `sq` alone.
pub open spec fn bit(sq: int) -> u64 {
    1u64 << (sq as u64)
}

/// The file (column) of a square, 0 for the a-file.
pub open spec fn file_of(sq: int) -> int {
    sq % 8
}

/// The rank (row) of a square, 0 for the first rank.
pub open spec fn rank_of(sq: int) -> int {
    sq / 8
}

/// The least member of a non-empty set.
pub open spec fn lowest(x: u64) -> int {
    u64_trailing_zeros(x) as int
}

/// The set without its least member.
pub open spec fn drop_lowest(x: u64) -> u64 {
    if x == 0 {
        0
    } else {
        x & ((x - 1) as u64)
    }
}

/// The members of a set in ascending order.
pub open spec fn squares_of(x: u64) -> Seq<int>
    decreases x,
    via squares_of_decreases
{
    if x == 0 {
        Seq::empty()
    } else {
        seq![lowest(x)] + squares_of(drop_lowest(x))
    }
}

#[via_fn]
/// Taking the least member away makes a set smaller.
proof fn squares_of_decreases(x: u64) {
    assert(x != 0 ==> x & ((x - 1) as u64) < x) by (bit_vector);
}

/// What the set operations do to single bits.
proof fn lemma_bit_algebra(a: u64, b: u64, i: u64, s: u64)
    by (bit_vector)
    requires
        i < 64,
        s < 64,
    ensures
        test_bit(a & b, i) == (test_bit(a, i) && test_bit(b, i)),
        test_bit(a | b, i) == (test_bit(a, i) || test_bit(b, i)),
        test_bit(a ^ b, i) == (test_bit(a, i) != test_bit(b, i)),
        test_bit(!a, i) == !test_bit(a, i),
        test_bit(1u64 << s, i) == (i == s),
        !test_bit(0u64, i),
        (a & (1u64 << s) != 0) == test_bit(a, s),
        i & 7 == i % 8,
        i >> 3 == i / 8,
        (a ^ b == 0) == (a == b),
{
}

/// How a square's number splits into file and rank, bit by bit.
proof fn lemma_square_bits(s: u64)
    by (bit_vector)
    requires
        s < 64,
    ensures
        s & 56 <= 56,
        s & 7 <= 7,
        s >> 3 <= 7,
        s & 7 == s % 8,
        s >> 3 == s / 8,
        s & 56 == 8 * (s >> 3),
        (s & 56) + (s & 7) == s,
        7 ^ (s >> 3) == 7 - (s >> 3),
        (1u64 << (s & 7)) < 256,
        (1u64 << (7 ^ (s >> 3))) < 256,
        (s << 1) & 0xFF < 256,
{
}

/// How a square's number splits into file and rank, and the bounds that
/// shifting by them needs.
pub proof fn lemma_square_parts(s: u64)
    requires
        s < 64,
    ensures
        s & 56 <= 56,
        s & 7 <= 7,
        s >> 3 <= 7,
        s & 7 == file_of(s as int),
        s >> 3 == rank_of(s as int),
        s & 56 == 8 * (s >> 3),
        (s & 56) + (s & 7) == s,
        7 ^ (s >> 3) == 7 - (s >> 3),
        (1u64 << (s & 7)) < 256,
        (1u64 << (7 ^ (s >> 3))) < 256,
        (s << 1) & 0xFF < 256,
{
    lemma_square_bits(s);
}

/// Membership in intersections, unions, differences and complements.
pub proof fn lemma_member_ops(a: u64, b: u64, sq: int)
    ensures
        member(a & b, sq) == (member(a, sq) && member(b, sq)),
        member(a | b, sq) == (member(a, sq) || member(b, sq)),
        member(a ^ b, sq) == (member(a, sq) != member(b, sq)),
        0 <= sq < 64 ==> member(!a, sq) == !member(a, sq),
        !member(0, sq),
{
    if 0 <= sq < 64 {
        lemma_bit_algebra(a, b, sq as u64, 0);
    }
}

/// A square is a member exactly when the set meets the square's own set.
pub proof fn lemma_member_test(a: u64, sq: int)
    requires
        0 <= sq < 64,
    ensures
        member(a, sq) == (a & bit(sq) != 0),
{
    lemma_bit_algebra(a, 0, 0, sq as u64);
}

/// Membership in a one-square set.
pub proof fn lemma_member_bit(s: int, sq: int)
    requires
        0 <= s < 64,
    ensures
        member(bit(s), sq) == (sq == s),
        bit(s) != 0,
{
    if 0 <= sq < 64 {
        lemma_bit_algebra(0, 0, sq as u64, s as u64);
    }
    lemma_bit_algebra(0, 0, s as u64, s as u64);
}

/// The least member of a non-empty set is a member, and nothing below it is.
pub proof fn lemma_lowest(x: u64)
    requires
        x != 0,
    ensures
        0 <= lowest(x) < 64,
        member(x, lowest(x)),
        forall|j: int| 0 <= j < lowest(x) ==> !member(x, j),
        drop_lowest(x) == x ^ bit(lowest(x)),
        drop_lowest(x) < x,
{
    axiom_u64_trailing_zeros(x);
    let t = u64_trailing_zeros(x) as u64;
    assert forall|j: int| 0 <= j < lowest(x) implies !member(x, j) by {
        let ju = j as u64;
        assert((x >> ju) & 1u64 == 0u64);
    }
    let y = (x - 1) as u64;
    assert(x & y == x ^ (1u64 << t) && x & y < x) by (bit_vector)
        requires
            x != 0,
            y == (x - 1) as u64,
            t < 64,
            (x >> t) & 1u64 == 1u64,
            x << ((64 - t) as u64) == 0,
    ;
}

/// A set with one member is that member's one-square set.
pub proof fn lemma_single(x: u64)
    requires
        x != 0,
        drop_lowest(x) == 0,
    ensures
        x == bit(lowest(x)),
{
    lemma_lowest(x);
    lemma_bit_algebra(x, bit(lowest(x)), 0, 0);
}

/// Two sets with the same members are equal.
pub proof fn lemma_same_members(a: u64, b: u64)
    requires
        forall|sq: int| 0 <= sq < 64 ==> member(a, sq) == member(b, sq),
    ensures
        a == b,
{
    let d = a ^ b;
    if d != 0 {
        lemma_lowest(d);
        lemma_member_ops(a, b, lowest(d));
        assert(false);
    }
    lemma_bit_algebra(a, b, 0, 0);
}

} // verus!

verus! {

/// Every member moved one rank up; the eighth rank falls off.
pub open spec fn north_of(x: u64) -> u64 {
    x << 8
}

/// Every member moved one rank down; the first rank falls off.
pub open spec fn south_of(x: u64) -> u64 {
    x >> 8
}

/// Every member moved one file to the right; the h-file falls off.
pub open spec fn east_of(x: u64) -> u64 {
    (x << 1) & !FILE_A_BITS
}

/// Every member moved one file to the left; the a-file falls off.
pub open spec fn west_of(x: u64) -> u64 {
    (x >> 1) & !FILE_H_BITS
}

/// Every member moved one rank up and one file to the right.
pub open spec fn north_east_of(x: u64) -> u64 {
    (x << 9) & !FILE_A_BITS
}

/// Every member moved one rank up and one file to the left.
pub open spec fn north_west_of(x: u64) -> u64 {
    (x << 7) & !FILE_H_BITS
}

/// Every member moved one rank down and one file to the right.
pub open spec fn south_east_of(x: u64) -> u64 {
    (x >> 7) & !FILE_A_BITS
}

/// Every member moved one rank down and one file to the left.
pub open spec fn south_west_of(x: u64) -> u64 {
    (x >> 9) & !FILE_H_BITS
}

/// The set mirrored in the diagonal a1-h8: file and rank change places.
pub open spec fn flip_diagonal_of(x: u64) -> u64 {
    let t4 = 0x0f0f0f0f00000000u64 & (x ^ (x << 28));
    let x4 = x ^ (t4 ^ (t4 >> 28));
    let t2 = 0x3333000033330000u64 & (x4 ^ (x4 << 14));
    let x2 = x4 ^ (t2 ^ (t2 >> 14));
    let t1 = 0x5500550055005500u64 & (x2 ^ (x2 << 7));
    x2 ^ (t1 ^ (t1 >> 7))
}

/// The set mirrored top to bottom: rank `r` becomes rank `7 - r`.
pub open spec fn flip_vertical_of(x: u64) -> u64 {
    let a = ((x >> 8) & 0x00FF00FF00FF00FFu64) | ((x & 0x00FF00FF00FF00FFu64) << 8);
    let b = ((a >> 16) & 0x0000FFFF0000FFFFu64) | ((a & 0x0000FFFF0000FFFFu64) << 16);
    (b >> 32) | (b << 32)
}

/// The set turned a quarter clockwise.
pub open spec fn clockwise_of(x: u64) -> u64 {
    flip_vertical_of(flip_diagonal_of(x))
}

/// The set turned a quarter anticlockwise.
pub open spec fn anticlockwise_of(x: u64) -> u64 {
    flip_diagonal_of(flip_vertical_of(x))
}

/// What the eight one-step shifts do to single bits.
proof fn lemma_shift_bits(x: u64, i: u64)
    by (bit_vector)
    requires
        i < 64,
    ensures
        test_bit(north_of(x), i) == (i >= 8 && test_bit(x, (i - 8) as u64)),
        test_bit(south_of(x), i) == (i < 56 && test_bit(x, (i + 8) as u64)),
        test_bit(east_of(x), i) == (i & 7 != 0 && test_bit(x, (i - 1) as u64)),
        test_bit(west_of(x), i) == (i & 7 != 7 && test_bit(x, (i + 1) as u64)),
        test_bit(north_east_of(x), i) == (i >= 8 && i & 7 != 0 && test_bit(x, (i - 9) as u64)),
        test_bit(north_west_of(x), i) == (i >= 8 && i & 7 != 7 && test_bit(x, (i - 7) as u64)),
        test_bit(south_east_of(x), i) == (i < 56 && i & 7 != 0 && test_bit(x, (i + 7) as u64)),
        test_bit(south_west_of(x), i) == (i < 56 && i & 7 != 7 && test_bit(x, (i + 9) as u64)),
        i & 7 == i % 8,
{
}

/// What the eight one-step shifts do to membership: a square is in the
/// shifted set exactly when the square one step back is on the board and in
/// the set that was shifted.
pub proof fn lemma_member_shift(x: u64, sq: int)
    requires
        0 <= sq < 64,
    ensures
        member(north_of(x), sq) == (rank_of(sq) > 0 && member(x, sq - 8)),
        member(south_of(x), sq) == (rank_of(sq) < 7 && member(x, sq + 8)),
        member(east_of(x), sq) == (file_of(sq) > 0 && member(x, sq - 1)),
        member(west_of(x), sq) == (file_of(sq) < 7 && member(x, sq + 1)),
        member(north_east_of(x), sq) == (rank_of(sq) > 0 && file_of(sq) > 0 && member(x, sq - 9)),
        member(north_west_of(x), sq) == (rank_of(sq) > 0 && file_of(sq) < 7 && member(x, sq - 7)),
        member(south_east_of(x), sq) == (rank_of(sq) < 7 && file_of(sq) > 0 && member(x, sq + 7)),
        member(south_west_of(x), sq) == (rank_of(sq) < 7 && file_of(sq) < 7 && member(x, sq + 9)),
{
    lemma_shift_bits(x, sq as u64);
}

/// What the mirrors and quarter turns do to single bits.
proof fn lemma_flip_bits(x: u64, i: u64)
    by (bit_vector)
    requires
        i < 64,
    ensures
        test_bit(flip_vertical_of(x), i) == test_bit(x, i ^ 56),
        test_bit(flip_diagonal_of(x), i) == test_bit(x, ((i >> 3) | (i << 3)) & 63),
        test_bit(clockwise_of(x), i) == test_bit(x, ((i & 7) << 3) | ((i >> 3) ^ 7)),
        test_bit(anticlockwise_of(x), i) == test_bit(x, (((i & 7) ^ 7) << 3) | (i >> 3)),
        i ^ 56 == (7 - i / 8) * 8 + i % 8,
        ((i >> 3) | (i << 3)) & 63 == (i % 8) * 8 + i / 8,
        ((i & 7) << 3) | ((i >> 3) ^ 7) == (i % 8) * 8 + (7 - i / 8),
        (((i & 7) ^ 7) << 3) | (i >> 3) == (7 - i % 8) * 8 + i / 8,
{
}

/// What the mirrors and quarter turns do to membership, by file and rank.
pub proof fn lemma_member_flip(x: u64, sq: int)
    requires
        0 <= sq < 64,
    ensures
        member(flip_vertical_of(x), sq) == member(x, (7 - rank_of(sq)) * 8 + file_of(sq)),
        member(flip_diagonal_of(x), sq) == member(x, file_of(sq) * 8 + rank_of(sq)),
        member(clockwise_of(x), sq) == member(x, file_of(sq) * 8 + (7 - rank_of(sq))),
        member(anticlockwise_of(x), sq) == member(x, (7 - file_of(sq)) * 8 + rank_of(sq)),
{
    lemma_flip_bits(x, sq as u64);
}

} // verus!

verus! {

/// The members listed by `squares_of` are squares of the board, members of
/// the set, and in ascending order.
pub proof fn lemma_squares_of(x: u64)
    ensures
        forall|i: int|
            0 <= i < squares_of(x).len() ==> 0 <= #[trigger] squares_of(x)[i] < 64 && member(
                x,
                squares_of(x)[i],
            ),
        forall|i: int, j: int|
            0 <= i < j < squares_of(x).len() ==> squares_of(x)[i] < squares_of(x)[j],
        forall|sq: int| member(x, sq) ==> squares_of(x).contains(sq),
        squares_of(x).len() <= 64,
    decreases x,
{
    if x != 0 {
        lemma_lowest(x);
        let rest = drop_lowest(x);
        let low = lowest(x);
        lemma_squares_of(rest);
        lemma_member_bit(low, low);
        let all = squares_of(x);
        let tail = squares_of(rest);
        assert(all == seq![low] + tail);
        assert forall|i: int| 0 <= i < all.len() implies 0 <= #[trigger] all[i] < 64 && member(
            x,
            all[i],
        ) by {
            if i > 0 {
                assert(all[i] == tail[i - 1]);
                assert(member(rest, tail[i - 1]));
                lemma_member_ops(x, bit(low), tail[i - 1]);
                lemma_member_bit(low, tail[i - 1]);
            } else {
                assert(all[0] == low);
            }
        }
        assert forall|i: int| 0 <= i < tail.len() implies low < #[trigger] tail[i] by {
            lemma_member_ops(x, bit(low), tail[i]);
            lemma_member_bit(low, tail[i]);
        }
        assert forall|i: int, j: int| 0 <= i < j < all.len() implies all[i] < all[j] by {
            assert(all[j] == tail[j - 1]);
            if i > 0 {
                assert(all[i] == tail[i - 1]);
            }
        }
        assert forall|sq: int| member(x, sq) implies all.contains(sq) by {
            if sq == low {
                assert(all[0] == low);
            } else {
                lemma_member_ops(x, bit(low), sq);
                lemma_member_bit(low, sq);
                assert(tail.contains(sq));
                let i = choose|i: int| 0 <= i < tail.len() && tail[i] == sq;
                assert(all[i + 1] == sq);
            }
        }
        lemma_squares_count(x);
    } else {
        lemma_member_ops(0, 0, 0);
        assert forall|sq: int| member(x, sq) implies squares_of(x).contains(sq) by {
            lemma_member_ops(0, 0, sq);
        }
    }
}

/// A set has at most as many members as there are squares from its least
/// member on.
proof fn lemma_squares_count(x: u64)
    ensures
        squares_of(x).len() <= 64,
        x != 0 ==> squares_of(x).len() <= 64 - lowest(x),
    decreases x,
{
    if x != 0 {
        lemma_lowest(x);
        let rest = drop_lowest(x);
        lemma_squares_count(rest);
        if rest != 0 {
            lemma_lowest(rest);
            lemma_member_ops(x, bit(lowest(x)), lowest(rest));
            lemma_member_bit(lowest(x), lowest(rest));
            if lowest(rest) < lowest(x) {
                assert(false);
            }
        }
    }
}

/// One step of a walk through the members of a set: when the members not
/// yet seen are those of `rest`, the next one is the least of `rest`, and
/// after it those of `rest` without it remain.
pub proof fn lemma_members_step(all: Seq<int>, k: int, rest: u64)
    requires
        0 <= k <= all.len(),
        all.subrange(k, all.len() as int) == squares_of(rest),
        rest != 0,
    ensures
        k < all.len(),
        all[k] == lowest(rest),
        all.subrange(k + 1, all.len() as int) == squares_of(drop_lowest(rest)),
{
    let tail = all.subrange(k, all.len() as int);
    assert(tail == seq![lowest(rest)] + squares_of(drop_lowest(rest)));
    assert(tail.len() > 0);
    assert(tail[0] == lowest(rest));
    assert(all.subrange(k + 1, all.len() as int) =~= tail.subrange(1, tail.len() as int));
    assert(tail.subrange(1, tail.len() as int) =~= squares_of(drop_lowest(rest)));
}

/// A walk through the members of a set is over when nothing is left.
pub proof fn lemma_members_done(all: Seq<int>, k: int)
    requires
        0 <= k <= all.len(),
        all.subrange(k, all.len() as int) == squares_of(0),
    ensures
        k == all.len(),
{
    assert(squares_of(0).len() == 0);
    assert(all.subrange(k, all.len() as int).len() == all.len() - k);
}


/// A one-square set is not empty, its least member is its square, and
/// without it nothing is left.
pub proof fn lemma_bit_alone(sq: int)
    requires
        0 <= sq < 64,
    ensures
        bit(sq) != 0,
        lowest(bit(sq)) == sq,
        drop_lowest(bit(sq)) == 0,
{
    lemma_member_bit(sq, sq);
    lemma_lowest(bit(sq));
    lemma_member_bit(sq, lowest(bit(sq)));
    lemma_bit_algebra(bit(sq), bit(sq), 0, 0);
}

} // verus!
