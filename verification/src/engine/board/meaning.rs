use crate::engine::bitboard::Bitboard;
use crate::engine::bitboard::bits::{
    bit, lemma_lowest, lemma_member_bit, lemma_member_ops, lemma_same_members, lemma_single,
    lemma_squares_of, lowest, member, squares_of,
};
use crate::engine::board::position::{CheckState, Placement, Position};
use crate::engine::computed::geometry::{
    lemma_attack_set, lemma_between, lemma_reach_bits, reaches, same_antidiag, same_diagonal,
    same_file, same_rank, strictly_between,
};
use crate::engine::computed::patterns::between_set;
use crate::engine::computed::sliding::{bishop_reach, rook_reach};
use crate::engine::computed::{xray_diagonal_set, xray_orthogonal_set};
use crate::engine::piece::{Piece, PieceColor, PieceType};
use vstd::prelude::*;

verus! {

impl Placement {
    /// Whether the piece on `s` attacks `t` when the squares of
    /// `occupied` are taken.
    pub open spec fn attacks_from(self, s: int, t: int, occupied: u64) -> bool {
        0 <= s < 64 && 0 <= t < 64 && self.squares[s] is Some && reaches(
            self.squares[s]->0.color,
            self.squares[s]->0.kind,
            s,
            t,
            occupied,
        )
    }

    /// A square is in the union over the first `k` of `from` exactly when
    /// one of the pieces there attacks it.
    pub proof fn lemma_attacks_over(self, from: Seq<int>, occupied: u64, k: nat, t: int)
        requires
            k <= from.len(),
            forall|i: int| 0 <= i < from.len() ==> 0 <= #[trigger] from[i] < 64,
        ensures
            member(self.attacks_over(from, occupied, k), t) == (exists|i: int|
                0 <= i < k && self.attacks_from(#[trigger] from[i], t, occupied)),
        decreases k,
    {
        if k > 0 {
            self.lemma_attacks_over(from, occupied, (k - 1) as nat, t);
            let s = from[k - 1];
            let before = self.attacks_over(from, occupied, (k - 1) as nat);
            lemma_member_ops(before, self.attack_from(s, occupied), t);
            if 0 <= t < 64 {
                match self.squares[s] {
                    Some(piece) => {
                        lemma_attack_set(piece.color, piece.kind, s, t, occupied);
                    },
                    None => {
                        lemma_member_ops(0, 0, t);
                    },
                }
            }
            if member(self.attacks_over(from, occupied, k), t) {
                if member(before, t) {
                    let i = choose|i: int|
                        0 <= i < k - 1 && self.attacks_from(#[trigger] from[i], t, occupied);
                    assert(0 <= i < k && self.attacks_from(from[i], t, occupied));
                } else {
                    assert(self.attacks_from(from[k - 1], t, occupied));
                }
            }
            if exists|i: int| 0 <= i < k && self.attacks_from(#[trigger] from[i], t, occupied) {
                let i = choose|i: int|
                    0 <= i < k && self.attacks_from(#[trigger] from[i], t, occupied);
                if i < k - 1 {
                    assert(self.attacks_from(from[i], t, occupied));
                }
            }
        } else {
            lemma_member_ops(0, 0, t);
        }
    }

    /// A square is attacked by a side exactly when a piece of the side
    /// reaches it by the rules of its kind, the other side's king counting
    /// as absent, so that a slider's attack goes on behind that king.
    pub proof fn lemma_attacks(self, color: PieceColor, t: int)
        ensures
            member(self.attacks(color), t) == (exists|s: int|
                self.holds_color(s, color) && #[trigger] self.attacks_from(
                    s,
                    t,
                    self.occupancy_for_attacks(color),
                )),
    {
        let from = squares_of(self.colors(color));
        let occupied = self.occupancy_for_attacks(color);
        lemma_squares_of(self.colors(color));
        self.lemma_attacks_over(from, occupied, from.len(), t);
        if member(self.attacks(color), t) {
            let i = choose|i: int|
                0 <= i < from.len() && self.attacks_from(#[trigger] from[i], t, occupied);
            self.lemma_sets(from[i]);
            assert(self.holds_color(from[i], color) && self.attacks_from(from[i], t, occupied));
        }
        if exists|s: int|
            self.holds_color(s, color) && #[trigger] self.attacks_from(s, t, occupied) {
            let s = choose|s: int|
                self.holds_color(s, color) && #[trigger] self.attacks_from(s, t, occupied);
            self.lemma_sets(s);
            assert(from.contains(s));
            let i = choose|i: int| 0 <= i < from.len() && from[i] == s;
            assert(self.attacks_from(from[i], t, occupied));
        }
    }
}

/// Whether a set has exactly one member.
pub open spec fn single(x: u64) -> bool {
    x != 0 && x & ((x - 1) as u64) == 0
}

/// Along a rank or file, taking the first blockers away frees the way to
/// a square exactly when the way was free, or one blocker stood in it.
proof fn lemma_orthogonal_blocker(k: u64, t: u64, occ: u64, blockers: u64)
    by (bit_vector)
    requires
        k < 64,
        t < 64,
        blockers & !occ == 0,
        t >> 3 == k >> 3 || t & 7 == k & 7,
    ensures
        (between_set(k, t) & (occ ^ (blockers & rook_reach(k, occ))) == 0) == (between_set(k, t)
            & occ == 0 || (single(between_set(k, t) & occ) && between_set(k, t) & occ & blockers
            != 0)),
        single(between_set(k, t) & occ) && between_set(k, t) & occ & blockers != 0 ==> blockers
            & rook_reach(k, occ) != 0,
{
}

/// Along a diagonal, taking the first blockers away frees the way to a
/// square exactly when the way was free, or one blocker stood in it.
proof fn lemma_diagonal_blocker(k: u64, t: u64, occ: u64, blockers: u64)
    by (bit_vector)
    requires
        k < 64,
        t < 64,
        blockers & !occ == 0,
        (t >> 3) + (k & 7) == (k >> 3) + (t & 7) || (t >> 3) + (t & 7) == (k >> 3) + (k & 7),
    ensures
        (between_set(k, t) & (occ ^ (blockers & bishop_reach(k, occ))) == 0) == (between_set(k, t)
            & occ == 0 || (single(between_set(k, t) & occ) && between_set(k, t) & occ & blockers
            != 0)),
        single(between_set(k, t) & occ) && between_set(k, t) & occ & blockers != 0 ==> blockers
            & bishop_reach(k, occ) != 0,
{
}

/// Whether exactly one taken square stands strictly between `k` and `t`,
/// and it is one of `blockers`.
pub open spec fn one_blocker(occupied: u64, blockers: u64, k: int, t: int) -> bool {
    exists|b: int|
        0 <= b < 64 && #[trigger] strictly_between(k, b, t) && member(occupied, b) && member(
            blockers,
            b,
        ) && forall|x: int|
            0 <= x < 64 && #[trigger] strictly_between(k, x, t) && x != b ==> !member(occupied, x)
}

/// The taken squares between two squares are one square, one of
/// `blockers`, exactly when `one_blocker` says so.
pub proof fn lemma_one_blocker(occupied: u64, blockers: u64, k: int, t: int)
    requires
        0 <= k < 64,
        0 <= t < 64,
    ensures
        (single(between_set(k as u64, t as u64) & occupied) && between_set(k as u64, t as u64)
            & occupied & blockers != 0) == one_blocker(occupied, blockers, k, t),
{
    let between = between_set(k as u64, t as u64);
    let met = between & occupied;
    if single(met) && met & blockers != 0 {
        lemma_lowest(met);
        lemma_single(met);
        let b = lowest(met);
        lemma_member_ops(between, occupied, b);
        lemma_between(k, b, t);
        lemma_lowest(met & blockers);
        let c = lowest(met & blockers);
        lemma_member_ops(met, blockers, c);
        lemma_member_bit(b, c);
        assert forall|x: int| 0 <= x < 64 && #[trigger] strictly_between(k, x, t) && x
            != b implies !member(occupied, x) by {
            lemma_between(k, x, t);
            lemma_member_ops(between, occupied, x);
            lemma_member_bit(b, x);
        }
        assert(one_blocker(occupied, blockers, k, t));
    }
    if one_blocker(occupied, blockers, k, t) {
        let b = choose|b: int|
            0 <= b < 64 && #[trigger] strictly_between(k, b, t) && member(occupied, b) && member(
                blockers,
                b,
            ) && forall|x: int|
                0 <= x < 64 && #[trigger] strictly_between(k, x, t) && x != b ==> !member(
                    occupied,
                    x,
                );
        assert forall|x: int| 0 <= x < 64 implies member(met, x) == member(bit(b), x) by {
            lemma_between(k, x, t);
            lemma_member_ops(between, occupied, x);
            lemma_member_bit(b, x);
        }
        lemma_same_members(met, bit(b));
        lemma_bit_single(b);
        lemma_member_bit(b, b);
        lemma_member_ops(met, blockers, b);
        lemma_member_ops(0, 0, b);
    }
}

/// A one-square set has exactly one member.
proof fn lemma_bit_single(b: int)
    requires
        0 <= b < 64,
    ensures
        single(bit(b)),
{
    let s = b as u64;
    assert(1u64 << s != 0 && (1u64 << s) & (((1u64 << s) - 1) as u64) == 0) by (bit_vector)
        requires
            s < 64,
    ;
}

/// A rook's x-ray from `k` holds the squares on its rank and file before
/// which exactly one piece stands, one of `blockers`: the squares that
/// it attacks once that piece steps away, and not before.
pub proof fn lemma_xray_orthogonal(occupied: u64, blockers: u64, k: int, t: int)
    requires
        0 <= k < 64,
        0 <= t < 64,
        blockers & !occupied == 0,
    ensures
        member(xray_orthogonal_set(occupied, blockers, k as u64), t) == (t != k && (same_rank(k, t)
            || same_file(k, t)) && one_blocker(occupied, blockers, k, t)),
{
    let first = rook_reach(k as u64, occupied);
    let second = rook_reach(k as u64, occupied ^ (blockers & first));
    lemma_reach_bits(k as u64, t as u64, occupied);
    lemma_reach_bits(k as u64, t as u64, occupied ^ (blockers & first));
    lemma_one_blocker(occupied, blockers, k, t);
    lemma_member_ops(first, second, t);
    lemma_member_ops(0, 0, t);
    if same_rank(k, t) || same_file(k, t) {
        lemma_orthogonal_blocker(k as u64, t as u64, occupied, blockers);
    }
}

/// A bishop's x-ray from `k` holds the squares on its diagonals before
/// which exactly one piece stands, one of `blockers`.
pub proof fn lemma_xray_diagonal(occupied: u64, blockers: u64, k: int, t: int)
    requires
        0 <= k < 64,
        0 <= t < 64,
        blockers & !occupied == 0,
    ensures
        member(xray_diagonal_set(occupied, blockers, k as u64), t) == (t != k && (same_diagonal(
            k,
            t,
        ) || same_antidiag(k, t)) && one_blocker(occupied, blockers, k, t)),
{
    let first = bishop_reach(k as u64, occupied);
    let second = bishop_reach(k as u64, occupied ^ (blockers & first));
    lemma_reach_bits(k as u64, t as u64, occupied);
    lemma_reach_bits(k as u64, t as u64, occupied ^ (blockers & first));
    lemma_one_blocker(occupied, blockers, k, t);
    lemma_member_ops(first, second, t);
    lemma_member_ops(0, 0, t);
    if same_diagonal(k, t) || same_antidiag(k, t) {
        lemma_diagonal_blocker(k as u64, t as u64, occupied, blockers);
    }
}

/// The pin line of a pinner: the squares between it and the king, and
/// its own square.
pub open spec fn pin_line(king: int, pinner: int) -> Bitboard {
    Bitboard(between_set(pinner as u64, king as u64) | bit(pinner))
}

/// A pin line holds the pinner's square and the squares strictly between
/// pinner and king.
pub proof fn lemma_pin_line(king: int, pinner: int, x: int)
    requires
        0 <= king < 64,
        0 <= pinner < 64,
    ensures
        member(pin_line(king, pinner).0, x) == (x == pinner || (0 <= x < 64 && strictly_between(
            pinner,
            x,
            king,
        ))),
{
    lemma_member_ops(between_set(pinner as u64, king as u64), bit(pinner), x);
    lemma_member_bit(pinner, x);
    lemma_between(pinner, x, king);
}

impl Placement {
    /// Whether the piece on `p` pins a piece of `color` to its king on
    /// `king`: it is a slider of the other side on a line with the king
    /// along which it moves, and exactly one piece stands between the two,
    /// a piece of `color`.
    pub open spec fn pins(self, color: PieceColor, king: int, p: int) -> bool {
        let enemy = color.spec_opposite();
        let queen = self.holds(p, Piece { color: enemy, kind: PieceType::Queen });
        let rook = self.holds(p, Piece { color: enemy, kind: PieceType::Rook });
        let bishop = self.holds(p, Piece { color: enemy, kind: PieceType::Bishop });
        &&& 0 <= p < 64
        &&& p != king
        &&& one_blocker(self.occupancy(), self.colors(color), king, p)
        &&& (((queen || rook) && (same_rank(king, p) || same_file(king, p))) || ((queen || bishop)
            && (same_diagonal(king, p) || same_antidiag(king, p))))
    }

    /// The lines of a list of pinners are the pin lines of its members,
    /// in order.
    pub proof fn lemma_lines_over(pinners: Seq<int>, king: int, k: nat)
        requires
            k <= pinners.len(),
        ensures
            Self::lines_over(pinners, king, k).len() == k,
            forall|j: int|
                0 <= j < k ==> #[trigger] Self::lines_over(pinners, king, k)[j] == pin_line(
                    king,
                    pinners[j],
                ),
        decreases k,
    {
        if k > 0 {
            Self::lemma_lines_over(pinners, king, (k - 1) as nat);
        }
    }

    /// A side's pieces stand on taken squares.
    pub proof fn lemma_colors_taken(self, color: PieceColor)
        ensures
            self.colors(color) & !self.occupancy() == 0,
    {
        let own = self.colors(color);
        let all = self.occupancy();
        assert forall|x: int| 0 <= x < 64 implies member(own & !all, x) == member(0, x) by {
            lemma_member_ops(own, !all, x);
            lemma_member_ops(all, 0, x);
            lemma_member_ops(0, 0, x);
            self.lemma_sets(x);
        }
        lemma_same_members(own & !all, 0);
    }

    /// The orthogonal and the diagonal pinners are the pieces that pin.
    pub proof fn lemma_pinners(self, color: PieceColor, king: int, p: int)
        requires
            0 <= king < 64,
        ensures
            (member(self.orthogonal_pinners(color, king), p) || member(
                self.diagonal_pinners(color, king),
                p,
            )) == self.pins(color, king, p),
    {
        let enemy = color.spec_opposite();
        let occupied = self.occupancy();
        let own = self.colors(color);
        self.lemma_colors_taken(color);
        lemma_member_ops(
            xray_orthogonal_set(occupied, own, king as u64),
            self.orthogonal_sliders(enemy),
            p,
        );
        lemma_member_ops(
            xray_diagonal_set(occupied, own, king as u64),
            self.diagonal_sliders(enemy),
            p,
        );
        lemma_member_ops(
            self.pieces(Piece { color: enemy, kind: PieceType::Queen }),
            self.pieces(Piece { color: enemy, kind: PieceType::Rook }),
            p,
        );
        lemma_member_ops(
            self.pieces(Piece { color: enemy, kind: PieceType::Queen }),
            self.pieces(Piece { color: enemy, kind: PieceType::Bishop }),
            p,
        );
        self.lemma_sets(p);
        if 0 <= p < 64 {
            lemma_xray_orthogonal(occupied, own, king, p);
            lemma_xray_diagonal(occupied, own, king, p);
        }
    }

    /// Whether `line` is the pin line of a piece that pins a piece of
    /// `color` to its king on `king`.
    pub open spec fn is_pin_line(self, color: PieceColor, king: int, line: Bitboard) -> bool {
        exists|p: int| self.pins(color, king, p) && line == #[trigger] pin_line(king, p)
    }

    /// What the pin lines of a side are: one line for each piece that
    /// pins a piece of the side to its king, and no other line.
    pub proof fn lemma_pin_lines(self, color: PieceColor)
        ensures
            self.king_square(color) is None ==> self.pin_lines(color).len() == 0,
            self.king_square(color) is Some ==> forall|i: int|
                0 <= i < self.pin_lines(color).len() ==> self.is_pin_line(
                    color,
                    self.king_square(color)->0,
                    #[trigger] self.pin_lines(color)[i],
                ),
            self.king_square(color) is Some ==> forall|p: int|
                #[trigger] self.pins(color, self.king_square(color)->0, p)
                    ==> self.pin_lines(color).contains(pin_line(self.king_square(color)->0, p)),
    {
        match self.king_square(color) {
            Some(king) => {
                Position::lemma_one_square(
                    Bitboard(self.pieces(Piece { color, kind: PieceType::King })),
                );
                let orthogonal = squares_of(self.orthogonal_pinners(color, king));
                let diagonal = squares_of(self.diagonal_pinners(color, king));
                let lines = self.pin_lines(color);
                let first = Self::lines_over(orthogonal, king, orthogonal.len());
                let second = Self::lines_over(diagonal, king, diagonal.len());
                assert(lines == first + second);
                Self::lemma_lines_over(orthogonal, king, orthogonal.len());
                Self::lemma_lines_over(diagonal, king, diagonal.len());
                lemma_squares_of(self.orthogonal_pinners(color, king));
                lemma_squares_of(self.diagonal_pinners(color, king));
                assert forall|i: int| 0 <= i < lines.len() implies self.is_pin_line(
                    color,
                    king,
                    #[trigger] lines[i],
                ) by {
                    if i < orthogonal.len() {
                        let p = orthogonal[i];
                        assert(lines[i] == first[i]);
                        self.lemma_pinners(color, king, p);
                        assert(self.pins(color, king, p) && lines[i] == pin_line(king, p));
                    } else {
                        let p = diagonal[i - orthogonal.len()];
                        assert(lines[i] == second[i - orthogonal.len()]);
                        self.lemma_pinners(color, king, p);
                        assert(self.pins(color, king, p) && lines[i] == pin_line(king, p));
                    }
                }
                assert forall|p: int| #[trigger] self.pins(color, king, p) implies lines.contains(
                    pin_line(king, p),
                ) by {
                    self.lemma_pinners(color, king, p);
                    if member(self.orthogonal_pinners(color, king), p) {
                        assert(orthogonal.contains(p));
                        let j = choose|j: int| 0 <= j < orthogonal.len() && orthogonal[j] == p;
                        assert(lines[j] == first[j]);
                    } else {
                        assert(diagonal.contains(p));
                        let j = choose|j: int| 0 <= j < diagonal.len() && diagonal[j] == p;
                        assert(lines[orthogonal.len() + j] == second[j]);
                    }
                }
            },
            None => {},
        }
    }
}

/// Two sets meet exactly when they share a member.
pub proof fn lemma_sets_meet(a: u64, b: u64)
    ensures
        (a & b != 0) == (exists|x: int| member(a, x) && #[trigger] member(b, x)),
{
    if a & b != 0 {
        lemma_lowest(a & b);
        let x = lowest(a & b);
        lemma_member_ops(a, b, x);
        assert(member(a, x) && member(b, x));
    }
    if exists|x: int| member(a, x) && #[trigger] member(b, x) {
        let x = choose|x: int| member(a, x) && #[trigger] member(b, x);
        lemma_member_ops(a, b, x);
        lemma_member_ops(0, 0, x);
    }
}

impl Placement {
    /// Whether the piece on `s` attacks the king of `color`, that king
    /// counting as absent from the squares taken.
    pub open spec fn gives_check(self, s: int, color: PieceColor) -> bool {
        exists|k: int|
            self.holds(k, Piece { color, kind: PieceType::King }) && #[trigger] self.attacks_from(
                s,
                k,
                self.occupancy_for_attacks(color.spec_opposite()),
            )
    }

    /// Whether what the piece on `s` attacks meets the squares of `king`.
    pub open spec fn hits(self, s: int, occupied: u64, king: u64) -> bool {
        self.attack_from(s, occupied) & king != 0
    }

    /// What the check state over the first `k` of `from` says of the
    /// pieces there.
    pub open spec fn counted(self, from: Seq<int>, occupied: u64, king: u64, k: nat) -> bool {
        match self.checks_over(from, occupied, king, k) {
            CheckState::NoCheck => forall|i: int|
                0 <= i < k ==> !self.hits(#[trigger] from[i], occupied, king),
            CheckState::Single(a) => exists|i: int|
                0 <= i < k && a == #[trigger] from[i] && self.hits(from[i], occupied, king)
                    && forall|j: int|
                    0 <= j < k && j != i ==> !self.hits(#[trigger] from[j], occupied, king),
            CheckState::Double => exists|i: int, j: int|
                0 <= i < j < k && self.hits(#[trigger] from[i], occupied, king) && self.hits(
                    #[trigger] from[j],
                    occupied,
                    king,
                ),
        }
    }

    /// The check state over a list counts the pieces of the list that hit
    /// the king.
    proof fn lemma_counted(self, from: Seq<int>, occupied: u64, king: u64, k: nat)
        requires
            k <= from.len(),
            forall|i: int| 0 <= i < from.len() ==> 0 <= #[trigger] from[i] < 64,
        ensures
            self.counted(from, occupied, king, k),
        decreases k,
    {
        if k > 0 {
            self.lemma_counted(from, occupied, king, (k - 1) as nat);
            let before = self.checks_over(from, occupied, king, (k - 1) as nat);
            let last = from[k - 1];
            if self.hits(last, occupied, king) {
                match before {
                    CheckState::NoCheck => {
                        assert(last as u8 == from[k - 1] && self.hits(from[k - 1], occupied, king));
                    },
                    CheckState::Single(a) => {
                        let i = choose|i: int|
                            0 <= i < k - 1 && a == #[trigger] from[i] && self.hits(
                                from[i],
                                occupied,
                                king,
                            ) && forall|j: int|
                                0 <= j < k - 1 && j != i ==> !self.hits(
                                    #[trigger] from[j],
                                    occupied,
                                    king,
                                );
                        assert(0 <= i < k - 1 < k && self.hits(from[i], occupied, king)
                            && self.hits(from[k - 1], occupied, king));
                    },
                    CheckState::Double => {
                        let (i, j) = choose|i: int, j: int|
                            0 <= i < j < k - 1 && self.hits(#[trigger] from[i], occupied, king)
                                && self.hits(#[trigger] from[j], occupied, king);
                        assert(0 <= i < j < k && self.hits(from[i], occupied, king) && self.hits(
                            from[j],
                            occupied,
                            king,
                        ));
                    },
                }
            } else {
                match before {
                    CheckState::NoCheck => {},
                    CheckState::Single(a) => {
                        let i = choose|i: int|
                            0 <= i < k - 1 && a == #[trigger] from[i] && self.hits(
                                from[i],
                                occupied,
                                king,
                            ) && forall|j: int|
                                0 <= j < k - 1 && j != i ==> !self.hits(
                                    #[trigger] from[j],
                                    occupied,
                                    king,
                                );
                        assert(0 <= i < k && a == from[i] && self.hits(from[i], occupied, king));
                    },
                    CheckState::Double => {
                        let (i, j) = choose|i: int, j: int|
                            0 <= i < j < k - 1 && self.hits(#[trigger] from[i], occupied, king)
                                && self.hits(#[trigger] from[j], occupied, king);
                        assert(0 <= i < j < k && self.hits(from[i], occupied, king) && self.hits(
                            from[j],
                            occupied,
                            king,
                        ));
                    },
                }
            }
        }
    }

    /// The piece on `s` hits the king's squares exactly when it gives
    /// check.
    pub proof fn lemma_hits(self, s: int, color: PieceColor)
        requires
            0 <= s < 64,
        ensures
            self.hits(
                s,
                self.occupancy_for_attacks(color.spec_opposite()),
                self.pieces(Piece { color, kind: PieceType::King }),
            ) == self.gives_check(s, color),
    {
        let occupied = self.occupancy_for_attacks(color.spec_opposite());
        let king = self.pieces(Piece { color, kind: PieceType::King });
        let reached = self.attack_from(s, occupied);
        lemma_sets_meet(reached, king);
        assert forall|x: int| (member(reached, x) && member(king, x)) == (self.holds(
            x,
            Piece { color, kind: PieceType::King },
        ) && self.attacks_from(s, x, occupied)) by {
            self.lemma_sets(x);
            if 0 <= x < 64 {
                match self.squares[s] {
                    Some(piece) => {
                        lemma_attack_set(piece.color, piece.kind, s, x, occupied);
                    },
                    None => {
                        lemma_member_ops(0, 0, x);
                    },
                }
            }
        }
        if self.hits(s, occupied, king) {
            let x = choose|x: int| member(reached, x) && #[trigger] member(king, x);
            assert(self.holds(x, Piece { color, kind: PieceType::King }) && self.attacks_from(
                s,
                x,
                occupied,
            ));
        }
        if self.gives_check(s, color) {
            let k = choose|k: int|
                self.holds(k, Piece { color, kind: PieceType::King })
                    && #[trigger] self.attacks_from(s, k, occupied);
            assert(member(reached, k) && member(king, k));
        }
    }

    /// What a check state says: no check when no piece of the other side
    /// attacks the king, a single check from the one piece that does, a
    /// double check when two or more do.
    pub proof fn lemma_check_state(self, color: PieceColor)
        ensures
            match self.check_state(color) {
                CheckState::NoCheck => forall|s: int|
                    self.holds_color(s, color.spec_opposite()) ==> !#[trigger] self.gives_check(
                        s,
                        color,
                    ),
                CheckState::Single(a) => self.holds_color(a as int, color.spec_opposite())
                    && self.gives_check(a as int, color) && forall|s: int|
                    self.holds_color(s, color.spec_opposite()) && #[trigger] self.gives_check(
                        s,
                        color,
                    ) ==> s == a,
                CheckState::Double => exists|s: int, t: int|
                    s != t && self.holds_color(s, color.spec_opposite()) && self.holds_color(
                        t,
                        color.spec_opposite(),
                    ) && #[trigger] self.gives_check(s, color) && #[trigger] self.gives_check(
                        t,
                        color,
                    ),
            },
    {
        let enemy = color.spec_opposite();
        let from = squares_of(self.colors(enemy));
        let occupied = self.occupancy_for_attacks(enemy);
        let king = self.pieces(Piece { color, kind: PieceType::King });
        lemma_squares_of(self.colors(enemy));
        self.lemma_counted(from, occupied, king, from.len());
        assert forall|i: int| 0 <= i < from.len() implies self.holds_color(
            #[trigger] from[i],
            enemy,
        ) && self.hits(from[i], occupied, king) == self.gives_check(from[i], color) by {
            self.lemma_sets(from[i]);
            self.lemma_hits(from[i], color);
        }
        match self.check_state(color) {
            CheckState::NoCheck => {
                assert forall|s: int| self.holds_color(s, enemy) implies !#[trigger] self.gives_check(
                    s,
                    color,
                ) by {
                    self.lemma_sets(s);
                    assert(member(self.colors(enemy), s));
                    assert(from.contains(s));
                    let i = choose|i: int| 0 <= i < from.len() && from[i] == s;
                    assert(!self.hits(from[i], occupied, king));
                }
            },
            CheckState::Single(a) => {
                let i = choose|i: int|
                    0 <= i < from.len() && a == #[trigger] from[i] && self.hits(
                        from[i],
                        occupied,
                        king,
                    ) && forall|j: int|
                        0 <= j < from.len() && j != i ==> !self.hits(
                            #[trigger] from[j],
                            occupied,
                            king,
                        );
                assert(self.holds_color(from[i], enemy));
                assert forall|s: int|
                    self.holds_color(s, enemy) && #[trigger] self.gives_check(
                        s,
                        color,
                    ) implies s == a by {
                    self.lemma_sets(s);
                    assert(member(self.colors(enemy), s));
                    assert(from.contains(s));
                    let j = choose|j: int| 0 <= j < from.len() && from[j] == s;
                    assert(self.hits(from[j], occupied, king));
                }
            },
            CheckState::Double => {
                let (i, j) = choose|i: int, j: int|
                    0 <= i < j < from.len() && self.hits(#[trigger] from[i], occupied, king)
                        && self.hits(#[trigger] from[j], occupied, king);
                assert(from[i] != from[j]);
                assert(self.holds_color(from[i], enemy) && self.holds_color(from[j], enemy)
                    && self.gives_check(from[i], color) && self.gives_check(from[j], color));
            },
        }
    }
}

} // verus!
