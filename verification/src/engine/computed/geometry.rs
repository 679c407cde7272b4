use crate::engine::bitboard::bits::{
    file_of, lemma_lowest, lemma_member_ops, lowest, member, rank_of, test_bit,
};
use crate::engine::computed::patterns::{
    attack_set, between_set, king_step, knight_jump, lemma_patterns, pawn_capture,
};
use crate::engine::computed::sliding::{
    antidiag_line, bishop_reach, diagonal_line, file_line, rank_line, rook_reach,
};
use crate::engine::piece::{PieceColor, PieceType};
use vstd::prelude::*;

verus! {

/// Whether two squares stand on one rank.
pub open spec fn same_rank(a: int, b: int) -> bool {
    rank_of(a) == rank_of(b)
}

/// Whether two squares stand on one file.
pub open spec fn same_file(a: int, b: int) -> bool {
    file_of(a) == file_of(b)
}

/// Whether two squares stand on one diagonal parallel to a1-h8.
pub open spec fn same_diagonal(a: int, b: int) -> bool {
    rank_of(a) - file_of(a) == rank_of(b) - file_of(b)
}

/// Whether two squares stand on one diagonal parallel to h1-a8.
pub open spec fn same_antidiag(a: int, b: int) -> bool {
    rank_of(a) + file_of(a) == rank_of(b) + file_of(b)
}

/// Whether `v` lies strictly between `u` and `w`.
pub open spec fn amid(u: int, v: int, w: int) -> bool {
    (u < v && v < w) || (w < v && v < u)
}

/// Whether `x` stands strictly between `a` and `b` on a rank, file,
/// diagonal or antidiagonal that the two share.
pub open spec fn strictly_between(a: int, x: int, b: int) -> bool {
    ||| (same_rank(a, x) && same_rank(x, b) && amid(file_of(a), file_of(x), file_of(b)))
    ||| (same_file(a, x) && same_file(x, b) && amid(rank_of(a), rank_of(x), rank_of(b)))
    ||| (same_diagonal(a, x) && same_diagonal(x, b) && amid(rank_of(a), rank_of(x), rank_of(b)))
    ||| (same_antidiag(a, x) && same_antidiag(x, b) && amid(rank_of(a), rank_of(x), rank_of(b)))
}

/// What the four lines through a square hold, bit by bit.
proof fn lemma_line_bits(s: u64, t: u64)
    by (bit_vector)
    requires
        s < 64,
        t < 64,
    ensures
        test_bit(rank_line(s), t) == (t >> 3 == s >> 3),
        test_bit(file_line(s), t) == (t & 7 == s & 7),
        test_bit(diagonal_line(s), t) == ((t >> 3) + (s & 7) == (s >> 3) + (t & 7)),
        test_bit(antidiag_line(s), t) == ((t >> 3) + (t & 7) == (s >> 3) + (s & 7)),
        s & 7 == s % 8,
        s >> 3 == s / 8,
        t & 7 == t % 8,
        t >> 3 == t / 8,
{
}

/// The four lines through a square hold the squares of its rank, of its
/// file, of its diagonal and of its antidiagonal.
pub proof fn lemma_lines(s: int, t: int)
    requires
        0 <= s < 64,
        0 <= t < 64,
    ensures
        member(rank_line(s as u64), t) == same_rank(s, t),
        member(file_line(s as u64), t) == same_file(s, t),
        member(diagonal_line(s as u64), t) == same_diagonal(s, t),
        member(antidiag_line(s as u64), t) == same_antidiag(s, t),
{
    lemma_line_bits(s as u64, t as u64);
}

/// Whether `v` lies strictly between `u` and `w`.
pub open spec fn amid_bits(u: u64, v: u64, w: u64) -> bool {
    (u < v && v < w) || (w < v && v < u)
}

/// What the set between two squares holds, bit by bit.
proof fn lemma_between_bits(a: u64, x: u64, b: u64)
    by (bit_vector)
    requires
        a < 64,
        x < 64,
        b < 64,
    ensures
        test_bit(between_set(a, b), x) == ((a >> 3 == x >> 3 && x >> 3 == b >> 3 && amid_bits(
            a & 7,
            x & 7,
            b & 7,
        )) || (a & 7 == x & 7 && x & 7 == b & 7 && amid_bits(a >> 3, x >> 3, b >> 3)) || ((a >> 3)
            + (x & 7) == (x >> 3) + (a & 7) && (x >> 3) + (b & 7) == (b >> 3) + (x & 7)
            && amid_bits(a >> 3, x >> 3, b >> 3)) || ((a >> 3) + (a & 7) == (x >> 3) + (x & 7) && (x
            >> 3) + (x & 7) == (b >> 3) + (b & 7) && amid_bits(a >> 3, x >> 3, b >> 3))),
        a & 7 == a % 8,
        a >> 3 == a / 8,
        x & 7 == x % 8,
        x >> 3 == x / 8,
        b & 7 == b % 8,
        b >> 3 == b / 8,
{
}

/// The set between two squares holds the squares that stand strictly
/// between them on a line that they share; it is empty for squares that
/// share none, and for equal and neighbouring squares.
pub proof fn lemma_between(a: int, x: int, b: int)
    requires
        0 <= a < 64,
        0 <= b < 64,
    ensures
        member(between_set(a as u64, b as u64), x) == (0 <= x < 64 && strictly_between(a, x, b)),
{
    if 0 <= x < 64 {
        lemma_between_bits(a as u64, x as u64, b as u64);
    }
}

/// What a rook's and a bishop's attack sets hold, in terms of the set
/// between two squares.
pub proof fn lemma_reach_bits(s: u64, t: u64, occ: u64)
    by (bit_vector)
    requires
        s < 64,
        t < 64,
    ensures
        test_bit(rook_reach(s, occ), t) == (t != s && (t >> 3 == s >> 3 || t & 7 == s & 7)
            && between_set(s, t) & occ == 0),
        test_bit(bishop_reach(s, occ), t) == (t != s && ((t >> 3) + (s & 7) == (s >> 3) + (t & 7)
            || (t >> 3) + (t & 7) == (s >> 3) + (s & 7)) && between_set(s, t) & occ == 0),
        s & 7 == s % 8,
        s >> 3 == s / 8,
        t & 7 == t % 8,
        t >> 3 == t / 8,
{
}


/// Whether no square strictly between `s` and `t` is taken.
pub open spec fn clear_between(occupied: u64, s: int, t: int) -> bool {
    forall|x: int| 0 <= x < 64 && #[trigger] strictly_between(s, x, t) ==> !member(occupied, x)
}

/// Whether a rook on `s` reaches `t`: along the rank or the file, with
/// nothing in between.
pub open spec fn rook_reaches(s: int, t: int, occupied: u64) -> bool {
    t != s && (same_rank(s, t) || same_file(s, t)) && clear_between(occupied, s, t)
}

/// Whether a bishop on `s` reaches `t`: along a diagonal, with nothing in
/// between.
pub open spec fn bishop_reaches(s: int, t: int, occupied: u64) -> bool {
    t != s && (same_diagonal(s, t) || same_antidiag(s, t)) && clear_between(occupied, s, t)
}

/// Whether a piece of the given colour and kind on `s` attacks `t` when
/// the squares of `occupied` are taken.
pub open spec fn reaches(color: PieceColor, kind: PieceType, s: int, t: int, occupied: u64) -> bool {
    match kind {
        PieceType::King => king_step(s, t),
        PieceType::Queen => rook_reaches(s, t, occupied) || bishop_reaches(s, t, occupied),
        PieceType::Rook => rook_reaches(s, t, occupied),
        PieceType::Bishop => bishop_reaches(s, t, occupied),
        PieceType::Knight => knight_jump(s, t),
        PieceType::Pawn => pawn_capture(color, s, t),
    }
}

/// The squares between two squares are free of `occupied` exactly when
/// the set between them does not meet it.
pub proof fn lemma_clear_between(occupied: u64, s: int, t: int)
    requires
        0 <= s < 64,
        0 <= t < 64,
    ensures
        (between_set(s as u64, t as u64) & occupied == 0) == clear_between(occupied, s, t),
{
    let between = between_set(s as u64, t as u64);
    let met = between & occupied;
    if met == 0 {
        assert forall|x: int| 0 <= x < 64 && #[trigger] strictly_between(s, x, t) implies !member(
            occupied,
            x,
        ) by {
            lemma_between(s, x, t);
            lemma_member_ops(between, occupied, x);
            lemma_member_ops(0, 0, x);
        }
    } else {
        lemma_lowest(met);
        let x = lowest(met);
        lemma_member_ops(between, occupied, x);
        lemma_between(s, x, t);
        assert(strictly_between(s, x, t) && member(occupied, x));
    }
}

/// What an attack set holds: the squares that the piece reaches by the
/// rules of its kind. A slider reaches a square on one of its lines when
/// nothing stands in between, whatever stands on the square itself.
pub proof fn lemma_attack_set(color: PieceColor, kind: PieceType, s: int, t: int, occupied: u64)
    requires
        0 <= s < 64,
        0 <= t < 64,
    ensures
        member(attack_set(color, kind, s as u64, occupied), t) == reaches(
            color,
            kind,
            s,
            t,
            occupied,
        ),
{
    lemma_patterns(s, t);
    lemma_reach_bits(s as u64, t as u64, occupied);
    lemma_clear_between(occupied, s, t);
    lemma_member_ops(rook_reach(s as u64, occupied), bishop_reach(s as u64, occupied), t);
}

} // verus!
