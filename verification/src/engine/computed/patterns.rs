use crate::engine::bitboard::bits::{
    east_of, file_of, member, north_east_of, north_west_of, rank_of, south_east_of, south_west_of,
    test_bit, west_of,
};
use crate::engine::computed::sliding::{
    bishop_reach, ray_east, ray_north, ray_north_east, ray_north_west, ray_south, ray_south_east,
    ray_south_west, ray_west, rook_reach,
};
use crate::engine::piece::{PieceColor, PieceType};
use vstd::prelude::*;

verus! {

/// The squares next to `sq`: one step in each of the eight directions,
/// as far as the board goes.
pub open spec fn king_pattern(sq: u64) -> u64 {
    let b = 1u64 << sq;
    let row = west_of(b) | b | east_of(b);
    (row | (row << 8) | (row >> 8)) ^ b
}

/// The squares a knight's jump away from `sq`.
pub open spec fn knight_pattern(sq: u64) -> u64 {
    let b = 1u64 << sq;
    let one = east_of(b) | west_of(b);
    let two = east_of(east_of(b)) | west_of(west_of(b));
    (one << 16) | (one >> 16) | (two << 8) | (two >> 8)
}

/// The two squares diagonally ahead of a white pawn on `sq`.
pub open spec fn white_pawn_pattern(sq: u64) -> u64 {
    north_east_of(1u64 << sq) | north_west_of(1u64 << sq)
}

/// The two squares diagonally ahead of a black pawn on `sq`.
pub open spec fn black_pawn_pattern(sq: u64) -> u64 {
    south_east_of(1u64 << sq) | south_west_of(1u64 << sq)
}

/// Every square that a piece of the given colour and kind, standing alone
/// on `sq`, attacks when the squares of `occupied` are taken. A slider's
/// set ends with the first taken square each way, whoever stands there.
/// King, knight and pawn do not look at `occupied`.
pub open spec fn attack_set(color: PieceColor, kind: PieceType, sq: u64, occupied: u64) -> u64 {
    match kind {
        PieceType::King => king_pattern(sq),
        PieceType::Queen => rook_reach(sq, occupied) | bishop_reach(sq, occupied),
        PieceType::Rook => rook_reach(sq, occupied),
        PieceType::Bishop => bishop_reach(sq, occupied),
        PieceType::Knight => knight_pattern(sq),
        PieceType::Pawn => match color {
            PieceColor::White => white_pawn_pattern(sq),
            PieceColor::Black => black_pawn_pattern(sq),
        },
    }
}

/// The squares strictly between `a` and `b` when the two share a rank, a
/// file, a diagonal or an antidiagonal: those met going from `a` towards
/// `b` that are also met going from `b` towards `a`. Empty otherwise, and
/// for equal or neighbouring squares.
pub open spec fn between_set(a: u64, b: u64) -> u64 {
    let x = 1u64 << a;
    let y = 1u64 << b;
    (ray_east(x, 0, 7) & ray_west(y, 0, 7)) | (ray_west(x, 0, 7) & ray_east(y, 0, 7)) | (ray_north(
        x,
        0,
        7,
    ) & ray_south(y, 0, 7)) | (ray_south(x, 0, 7) & ray_north(y, 0, 7)) | (ray_north_east(x, 0, 7)
        & ray_south_west(y, 0, 7)) | (ray_south_west(x, 0, 7) & ray_north_east(y, 0, 7)) | (
    ray_north_west(x, 0, 7) & ray_south_east(y, 0, 7)) | (ray_south_east(x, 0, 7) & ray_north_west(
        y,
        0,
        7,
    ))
}

/// Subtraction that wraps round at sixty-four bits.
pub open spec fn wsub64(a: u64, b: u64) -> u64 {
    vstd::wrapping::u64_specs::wrapping_sub(a, b)
}

/// Addition that wraps round at sixty-four bits.
pub open spec fn wadd64(a: u64, b: u64) -> u64 {
    vstd::wrapping::u64_specs::wrapping_add(a, b)
}

/// Multiplication that wraps round at sixty-four bits.
pub open spec fn wmul64(a: u64, b: u64) -> u64 {
    vstd::wrapping::u64_specs::wrapping_mul(a, b)
}

/// The set between two squares, in closed form: no walk along the line.
pub open spec fn between_formula(a: u64, b: u64) -> u64 {
    let span = (0xFFFFFFFFFFFFFFFFu64 << a) ^ (0xFFFFFFFFFFFFFFFFu64 << b);
    let file = wsub64(b & 7, a & 7);
    let rank = wsub64(b | 7, a) >> 3;
    let l1 = wsub64(file & 7, 1) & 0x0001010101010100u64;
    let l2 = wadd64(l1, wmul64(2, wsub64(rank & 7, 1) >> 58));
    let l3 = wadd64(l2, wsub64(wsub64(rank, file) & 15, 1) & 0x0040201008040200u64);
    let l4 = wadd64(l3, wsub64(wadd64(rank, file) & 15, 1) & 0x0002040810204080u64);
    wmul64(l4, span & wsub64(0, span)) & span
}

/// The closed form gives the set between two squares.
pub proof fn lemma_between_formula(a: u64, b: u64)
    by (bit_vector)
    requires
        a < 64,
        b < 64,
    ensures
        between_formula(a, b) == between_set(a, b),
{
}

/// Whether `t` is one king's step from `s`.
pub open spec fn king_step(s: int, t: int) -> bool {
    let df = file_of(t) - file_of(s);
    let dr = rank_of(t) - rank_of(s);
    t != s && -1 <= df <= 1 && -1 <= dr <= 1
}

/// Whether `t` is one knight's jump from `s`.
pub open spec fn knight_jump(s: int, t: int) -> bool {
    let df = file_of(t) - file_of(s);
    let dr = rank_of(t) - rank_of(s);
    ((df == 1 || df == -1) && (dr == 2 || dr == -2)) || ((df == 2 || df == -2) && (dr == 1 || dr
        == -1))
}

/// Whether a pawn of the given colour on `s` attacks `t`: one rank ahead,
/// one file aside.
pub open spec fn pawn_capture(color: PieceColor, s: int, t: int) -> bool {
    let df = file_of(t) - file_of(s);
    let dr = rank_of(t) - rank_of(s);
    (df == 1 || df == -1) && dr == (if color == PieceColor::White {
        1int
    } else {
        -1int
    })
}

/// What the king, knight and pawn patterns hold, bit by bit.
proof fn lemma_pattern_bits(s: u64, t: u64)
    by (bit_vector)
    requires
        s < 64,
        t < 64,
    ensures
        test_bit(king_pattern(s), t) == (t != s && (t & 7) + 1 >= (s & 7) && (s & 7) + 1 >= (t & 7)
            && (t >> 3) + 1 >= (s >> 3) && (s >> 3) + 1 >= (t >> 3)),
        test_bit(knight_pattern(s), t) == ((((t & 7) + 1 == (s & 7) || (s & 7) + 1 == (t & 7)) && ((t
            >> 3) + 2 == (s >> 3) || (s >> 3) + 2 == (t >> 3))) || (((t & 7) + 2 == (s & 7) || (s
            & 7) + 2 == (t & 7)) && ((t >> 3) + 1 == (s >> 3) || (s >> 3) + 1 == (t >> 3)))),
        test_bit(white_pawn_pattern(s), t) == (((t & 7) + 1 == (s & 7) || (s & 7) + 1 == (t & 7))
            && (t >> 3) == (s >> 3) + 1),
        test_bit(black_pawn_pattern(s), t) == (((t & 7) + 1 == (s & 7) || (s & 7) + 1 == (t & 7))
            && (t >> 3) + 1 == (s >> 3)),
        s & 7 == s % 8,
        s >> 3 == s / 8,
        t & 7 == t % 8,
        t >> 3 == t / 8,
{
}

/// What the king, knight and pawn patterns hold, by file and rank.
pub proof fn lemma_patterns(s: int, t: int)
    requires
        0 <= s < 64,
        0 <= t < 64,
    ensures
        member(king_pattern(s as u64), t) == king_step(s, t),
        member(knight_pattern(s as u64), t) == knight_jump(s, t),
        member(white_pawn_pattern(s as u64), t) == pawn_capture(PieceColor::White, s, t),
        member(black_pawn_pattern(s as u64), t) == pawn_capture(PieceColor::Black, s, t),
{
    lemma_pattern_bits(s as u64, t as u64);
}

} // verus!
