use crate::engine::bitboard::Bitboard;
use crate::engine::bitboard::bits::{
    bit, file_of, lemma_bit_alone, lemma_member_bit, lemma_member_ops, lemma_same_members, member,
    rank_of,
};
use crate::engine::board::generate::passed_pawn_square;
use crate::engine::board::lawful::lemma_listed_follows_rules_of;
use crate::engine::board::making::{rook_end, rook_start};
use crate::engine::board::meaning::{lemma_pin_line, lemma_sets_meet, one_blocker, pin_line};
use crate::engine::board::position::{CheckState, Placement, Position};
use crate::engine::computed::geometry::{
    clear_between, lemma_attack_set, lemma_between, reaches, same_antidiag, same_diagonal,
    strictly_between,
};
use crate::engine::computed::patterns::{
    attack_set, between_set, king_pattern, lemma_patterns, pawn_capture,
};
use crate::engine::computed::sliding::rook_reach;
use crate::engine::moves::{Move, MoveFlag};
use crate::engine::piece::{Piece, PieceColor, PieceType};
use vstd::prelude::*;

verus! {

impl Placement {
    /// The squares that count as taken when a side's attacks are worked
    /// out: those on which a piece stands that is not the other side's
    /// king.
    pub proof fn lemma_taken_for_attacks(self, color: PieceColor, x: int)
        ensures
            member(self.occupancy_for_attacks(color), x) == (0 <= x < 64 && self.squares[x] is Some
                && self.squares[x] != Some(
                Piece { color: color.spec_opposite(), kind: PieceType::King },
            )),
    {
        self.lemma_sets(x);
        lemma_member_ops(
            self.occupancy(),
            self.pieces(Piece { color: color.spec_opposite(), kind: PieceType::King }),
            x,
        );
    }

    /// An attack stays when the attacker stays and nothing more stands in
    /// its way: `other` has the same piece on `s`, and of the squares
    /// strictly between `s` and `t` those that `there` holds are among
    /// those that `here` holds.
    pub proof fn lemma_attack_stays(
        self,
        other: Placement,
        s: int,
        t: int,
        here: u64,
        there: u64,
    )
        requires
            self.attacks_from(s, t, here),
            other.squares[s] == self.squares[s],
            forall|x: int|
                0 <= x < 64 && #[trigger] strictly_between(s, x, t) && member(there, x) ==> member(
                    here,
                    x,
                ),
        ensures
            other.attacks_from(s, t, there),
    {
        assert(clear_between(here, s, t) ==> clear_between(there, s, t));
    }
}

/// Between a corner of the board and the square two files from it on the
/// same rank stands one square, and the corner stands between no square
/// and that one.
proof fn lemma_corner(s: int, end: int)
    requires
        0 <= s < 64,
        0 <= end < 64,
        rank_of(end) == 0 || rank_of(end) == 7,
        file_of(end) == 6 || file_of(end) == 2,
    ensures
        !strictly_between(s, rook_start(end), end),
{
}

impl Position {
    /// What stands on a square after a move.
    pub proof fn lemma_squares_after(self, m: Move, x: int)
        requires
            self.accepts(m),
            0 <= x < 64,
        ensures
            self.squares_after(m).len() == 64,
            self.squares_after(m)[x] == (if x == m.end() {
                Some(self.landed_by(m))
            } else if x == m.start() {
                None
            } else if m.flag() == MoveFlag::EnPassant && x == passed_pawn_square(
                m.start(),
                m.end(),
            ) {
                None
            } else if m.flag() == MoveFlag::Castle && x == rook_start(m.end()) {
                None
            } else if m.flag() == MoveFlag::Castle && x == rook_end(m.end()) {
                Some(Piece { color: self.turn, kind: PieceType::Rook })
            } else {
                self.squares[x]
            }),
    {
    }

    /// Whether the side to move has exactly one king.
    pub open spec fn one_king(self) -> bool {
        self.king_square(self.turn) is Some
    }

    /// The one king of the side to move stands on its square, and no
    /// other square holds a king of that side.
    pub proof fn lemma_one_king(self, x: int)
        requires
            self.squares.len() == 64,
            self.one_king(),
        ensures
            self.holds(x, Piece { color: self.turn, kind: PieceType::King }) == (x
                == self.king_square(self.turn)->0),
            0 <= self.king_square(self.turn)->0 < 64,
    {
        let king = self.king_square(self.turn)->0;
        let set = self.pieces(Piece { color: self.turn, kind: PieceType::King });
        Self::lemma_one_square(Bitboard(set));
        lemma_member_bit(king, x);
        self.placement().lemma_sets(x);
    }

    /// After a move of the king, castling or not, no piece of the other
    /// side attacks it: the king does not step into check.
    pub proof fn lemma_king_steps_safely(self, m: Move, after: Position, s: int)
        requires
            self.shaped(),
            self.one_king(),
            self.admits(m),
            self.squares[m.start()]->0.kind == PieceType::King,
            self.made(m, after),
            after.holds_color(s, self.enemy()),
        ensures
            !after.placement().gives_check(s, self.turn),
    {
        let color = self.turn;
        let enemy = self.enemy();
        let king = Piece { color, kind: PieceType::King };
        let start = m.start();
        let end = m.end();
        let here = self.placement();
        let there = after.placement();
        self.lemma_one_king(start);
        assert(here.holds(start, king));
        if self.check_state(color) != CheckState::Double {
            Self::lemma_pinned_targets(
                self.pin_lines(color),
                start,
                self.checked_targets(start, PieceType::King),
                self.pin_lines(color).len(),
                end,
            );
            self.lemma_checked_targets(start, PieceType::King, end);
            self.lemma_king_targets(start, end);
        } else {
            lemma_member_ops(
                king_pattern(start as u64) & !self.colors(color),
                !self.attacks(enemy),
                end,
            );
            lemma_member_ops(self.attacks(enemy), 0, end);
        }
        assert(!member(self.attacks(enemy), end));
        if there.gives_check(s, color) {
            let k = choose|k: int|
                there.holds(k, king) && #[trigger] there.attacks_from(
                    s,
                    k,
                    there.occupancy_for_attacks(enemy),
                );
            self.lemma_squares_after(m, k);
            self.lemma_squares_after(m, s);
            self.lemma_one_king(k);
            assert(k == end);
            assert(there.squares[s] == here.squares[s]);
            assert forall|x: int|
                0 <= x < 64 && #[trigger] strictly_between(s, x, end) && member(
                    here.occupancy_for_attacks(enemy),
                    x,
                ) implies member(there.occupancy_for_attacks(enemy), x) by {
                here.lemma_taken_for_attacks(enemy, x);
                there.lemma_taken_for_attacks(enemy, x);
                self.lemma_squares_after(m, x);
                self.lemma_one_king(x);
                if m.flag() == MoveFlag::Castle {
                    lemma_corner(s, end);
                }
            }
            there.lemma_attack_stays(
                here,
                s,
                end,
                there.occupancy_for_attacks(enemy),
                here.occupancy_for_attacks(enemy),
            );
            here.lemma_attacks(enemy, end);
            assert(here.holds_color(s, enemy) && here.attacks_from(
                s,
                end,
                here.occupancy_for_attacks(enemy),
            ));
        }
    }
}

/// Nothing stands between a king, knight or pawn and the square it
/// attacks.
pub proof fn lemma_no_room(color: PieceColor, kind: PieceType, s: int, t: int, x: int)
    requires
        0 <= s < 64,
        0 <= t < 64,
        0 <= x < 64,
        kind == PieceType::King || kind == PieceType::Knight || kind == PieceType::Pawn,
        reaches(color, kind, s, t, 0),
    ensures
        !strictly_between(s, x, t),
{
}

/// Being between two squares does not depend on their order.
pub proof fn lemma_between_either_way(a: int, x: int, b: int)
    ensures
        strictly_between(a, x, b) == strictly_between(b, x, a),
{
}

impl Position {
    /// Whether the en-passant square, if there is one, lies where a pawn
    /// of the other side has just passed: on the sixth rank as the side to
    /// move counts.
    pub open spec fn passing_rank(self) -> bool {
        match self.state().ep_square() {
            Some(ep) => rank_of(ep) == (if self.turn == PieceColor::White {
                5int
            } else {
                2int
            }),
            None => true,
        }
    }

    /// The square of the pawn that has just passed the en-passant square.
    pub open spec fn passed_square(self) -> int {
        match self.state().ep_square() {
            Some(ep) => if self.turn == PieceColor::White {
                ep - 8
            } else {
                ep + 8
            },
            None => -1,
        }
    }

    /// Whether the pawn that has just passed is all that stands between
    /// the king of the side to move and a bishop or queen of the other
    /// side on one of the king's diagonals. No game reaches such a
    /// position: before the pawn's advance the king would have stood in
    /// check with the other side to move.
    pub open spec fn passed_pawn_shields(self) -> bool {
        self.state().ep_square() is Some && exists|s: int| #[trigger]
            self.shielded_from(self.passed_square(), self.king_square(self.turn)->0, s)
    }

    /// Whether the piece on `pawn` is all that stands between `king` and
    /// a bishop or queen of the side that is not to move on `s`, on a
    /// diagonal of `king`.
    pub open spec fn shielded_from(self, pawn: int, king: int, s: int) -> bool {
        &&& 0 <= s < 64
        &&& (self.holds(s, Piece { color: self.enemy(), kind: PieceType::Queen }) || self.holds(
            s,
            Piece { color: self.enemy(), kind: PieceType::Bishop },
        ))
        &&& (same_diagonal(king, s) || same_antidiag(king, s))
        &&& one_blocker(self.occupancy(), bit(pawn), king, s)
    }

    /// A piece that answers a check takes the checking piece or steps
    /// between it and the king: after its move the piece that gave check
    /// gives it no longer.
    proof fn lemma_check_answered(self, m: Move, after: Position, s: int)
        requires
            self.shaped(),
            self.one_king(),
            self.passing_rank(),
            self.admits(m),
            self.squares[m.start()]->0.kind != PieceType::King,
            self.made(m, after),
            after.holds_color(s, self.enemy()),
            self.placement().gives_check(s, self.turn),
            self.holds_color(s, self.enemy()),
        ensures
            !after.placement().gives_check(s, self.turn),
    {
        let color = self.turn;
        let enemy = self.enemy();
        let king_piece = Piece { color, kind: PieceType::King };
        let start = m.start();
        let end = m.end();
        let kind = self.squares[start]->0.kind;
        let here = self.placement();
        let there = after.placement();
        let king = self.king_square(color)->0;
        self.lemma_one_king(king);
        self.lemma_one_king(start);
        here.lemma_check_state(color);
        assert(self.check_state(color) != CheckState::Double);
        assert(self.check_state(color) == CheckState::Single(s as u8));
        Self::lemma_pinned_targets(
            self.pin_lines(color),
            start,
            self.checked_targets(start, kind),
            self.pin_lines(color).len(),
            end,
        );
        let free = self.free_targets(start, kind);
        let answers = self.answers(start, kind, s, king);
        lemma_member_ops(free, answers, end);
        assert(member(answers, end));
        let plain = between_set(s as u64, king as u64) | bit(s);
        lemma_member_ops(between_set(s as u64, king as u64), bit(s), end);
        lemma_member_bit(s, end);
        lemma_between(s, end, king);
        self.lemma_squares_after(m, end);
        self.lemma_squares_after(m, s);
        self.lemma_squares_after(m, king);
        if there.gives_check(s, color) {
            let k = choose|k: int|
                there.holds(k, king_piece) && #[trigger] there.attacks_from(
                    s,
                    k,
                    there.occupancy_for_attacks(enemy),
                );
            self.lemma_squares_after(m, k);
            self.lemma_one_king(k);
            assert(k == king);
            there.lemma_taken_for_attacks(enemy, end);
            let piece = there.squares[s]->0;
            if answers == plain {
                assert(end != s);
                assert(strictly_between(s, end, king));
                if piece.kind == PieceType::King || piece.kind == PieceType::Knight || piece.kind
                    == PieceType::Pawn {
                    lemma_no_room(piece.color, piece.kind, s, king, end);
                }
            } else {
                let ep = self.state().ep_square()->0;
                Self::lemma_one_square(self.state().enpassant);
                lemma_member_ops(plain ^ bit(s), self.state().enpassant.0, end);
                lemma_member_ops(plain, bit(s), end);
                lemma_member_bit(ep, end);
                self.lemma_pawn_targets(start, end);
                self.lemma_checked_targets(start, kind, end);
                if end == ep {
                    lemma_member_ops(
                        attack_set(color, PieceType::Pawn, start as u64, 0),
                        !self.colors(color),
                        ep,
                    );
                    lemma_patterns(start, ep);
                    assert(m.flag() == MoveFlag::EnPassant);
                } else {
                    assert(strictly_between(s, end, king));
                    lemma_no_room(piece.color, piece.kind, s, king, end);
                }
            }
        }
    }
}

/// On a rank, a square next to one that stands between two others stands
/// between them too, or is one of them.
proof fn lemma_beside_on_rank(s: int, c: int, q: int, k: int)
    requires
        0 <= s < 64,
        0 <= c < 64,
        0 <= q < 64,
        0 <= k < 64,
        rank_of(s) == rank_of(k),
        strictly_between(s, c, k),
        rank_of(q) == rank_of(c),
        file_of(q) == file_of(c) + 1 || file_of(q) == file_of(c) - 1,
    ensures
        strictly_between(s, q, k) || q == s || q == k,
{
}

/// On a file, a square next to one that stands between two others stands
/// between them too, or is one of them.
proof fn lemma_beside_on_file(s: int, c: int, t: int, k: int)
    requires
        0 <= s < 64,
        0 <= c < 64,
        0 <= t < 64,
        0 <= k < 64,
        file_of(s) == file_of(k),
        strictly_between(s, c, k),
        file_of(t) == file_of(c),
        rank_of(t) == rank_of(c) + 1 || rank_of(t) == rank_of(c) - 1,
    ensures
        strictly_between(s, t, k) || t == s || t == k,
{
}

/// Two squares of one rank that stand between two others put those two
/// on that rank.
proof fn lemma_two_between(s: int, q: int, c: int, k: int)
    requires
        0 <= s < 64,
        0 <= c < 64,
        0 <= q < 64,
        0 <= k < 64,
        strictly_between(s, q, k),
        strictly_between(s, c, k),
        rank_of(q) == rank_of(c),
        q != c,
    ensures
        rank_of(s) == rank_of(k),
        rank_of(s) == rank_of(q),
{
}

impl Position {
    /// A piece that alone stands between its king and a slider of the
    /// other side on that slider's line moves only along the line, or
    /// takes the slider.
    proof fn lemma_pinned_moves(self, m: Move, s: int)
        requires
            self.shaped(),
            self.one_king(),
            self.admits(m),
            self.squares[m.start()]->0.kind != PieceType::King,
            self.holds_color(s, self.enemy()),
            self.squares[s]->0.kind == PieceType::Queen || self.squares[s]->0.kind
                == PieceType::Rook || self.squares[s]->0.kind == PieceType::Bishop,
            self.placement().attacks_from(s, self.king_square(self.turn)->0, 0),
            strictly_between(s, m.start(), self.king_square(self.turn)->0),
            forall|x: int|
                0 <= x < 64 && #[trigger] strictly_between(s, x, self.king_square(self.turn)->0)
                    && x != m.start() ==> self.squares[x] is None,
        ensures
            m.end() == s || strictly_between(s, m.end(), self.king_square(self.turn)->0),
    {
        let color = self.turn;
        let king = self.king_square(color)->0;
        let start = m.start();
        let here = self.placement();
        self.lemma_one_king(king);
        self.lemma_one_king(s);
        here.lemma_sets(start);
        assert(one_blocker(self.occupancy(), self.colors(color), king, s)) by {
            lemma_between_either_way(s, start, king);
            assert forall|x: int|
                0 <= x < 64 && #[trigger] strictly_between(king, x, s) && x != start implies !member(
                    self.occupancy(),
                    x,
                ) by {
                lemma_between_either_way(s, x, king);
                here.lemma_sets(x);
            }
        }
        assert(here.pins(color, king, s));
        here.lemma_pin_lines(color);
        let line = pin_line(king, s);
        assert(self.pin_lines(color).contains(line));
        let j = choose|j: int|
            0 <= j < self.pin_lines(color).len() && self.pin_lines(color)[j] == line;
        lemma_pin_line(king, s, start);
        lemma_pin_line(king, s, m.end());
        assert(member(self.pin_lines(color)[j].0, start));
        assert(self.keeps_pins(m));
    }
}

impl Position {
    /// The capture en passant of a move that the position admits: the
    /// pawn goes one step diagonally onto the en-passant square, which the
    /// position allows it, and takes the pawn beside it.
    proof fn lemma_passing_move(self, m: Move)
        requires
            self.shaped(),
            self.admits(m),
            m.flag() == MoveFlag::EnPassant,
        ensures
            self.can_pass(m.start()),
            self.state().ep_square() == Some(m.end()),
            pawn_capture(self.turn, m.start(), m.end()),
            self.squares[m.start()]->0.kind == PieceType::Pawn,
    {
        let color = self.turn;
        let start = m.start();
        let end = m.end();
        let kind = self.squares[start]->0.kind;
        assert(self.check_state(color) != CheckState::Double);
        Self::lemma_pinned_targets(
            self.pin_lines(color),
            start,
            self.checked_targets(start, kind),
            self.pin_lines(color).len(),
            end,
        );
        self.lemma_checked_targets(start, kind, end);
        self.lemma_pawn_targets(start, end);
        lemma_member_ops(
            attack_set(color, PieceType::Pawn, start as u64, 0),
            !self.colors(color),
            end,
        );
        lemma_patterns(start, end);
    }

    /// A move that answers no check uncovers none: a piece of the other
    /// side that did not attack the king before the move does not attack
    /// it after.
    proof fn lemma_nothing_uncovered(self, m: Move, after: Position, s: int)
        requires
            self.shaped(),
            self.one_king(),
            self.passing_rank(),
            !self.passed_pawn_shields(),
            self.admits(m),
            self.squares[m.start()]->0.kind != PieceType::King,
            self.made(m, after),
            after.holds_color(s, self.enemy()),
            !self.placement().gives_check(s, self.turn),
        ensures
            !after.placement().gives_check(s, self.turn),
    {
        let color = self.turn;
        let enemy = self.enemy();
        let king_piece = Piece { color, kind: PieceType::King };
        let start = m.start();
        let end = m.end();
        let here = self.placement();
        let there = after.placement();
        let king = self.king_square(color)->0;
        let passing = m.flag() == MoveFlag::EnPassant;
        let passed = passed_pawn_square(start, end);
        let taken = here.occupancy_for_attacks(enemy);
        let left = there.occupancy_for_attacks(enemy);
        self.lemma_one_king(king);
        self.lemma_one_king(start);
        self.lemma_squares_after(m, s);
        self.lemma_squares_after(m, end);
        if there.gives_check(s, color) {
            let k = choose|k: int|
                there.holds(k, king_piece) && #[trigger] there.attacks_from(s, k, left);
            self.lemma_squares_after(m, k);
            self.lemma_one_king(k);
            assert(k == king);
            assert(here.squares[s] == there.squares[s]);
            assert(here.holds_color(s, enemy));
            let piece = here.squares[s]->0;
            // Whatever stood between the two and stands there no longer
            // is the piece moved, or the pawn taken in passing.
            assert forall|x: int|
                0 <= x < 64 && #[trigger] strictly_between(s, x, king) && member(
                    taken,
                    x,
                ) implies x == start || (passing && x == passed) by {
                here.lemma_taken_for_attacks(enemy, x);
                there.lemma_taken_for_attacks(enemy, x);
                self.lemma_squares_after(m, x);
                self.lemma_one_king(x);
                if piece.kind == PieceType::King || piece.kind == PieceType::Knight || piece.kind
                    == PieceType::Pawn {
                    lemma_no_room(piece.color, piece.kind, s, king, x);
                }
            }
            let blocked = exists|x: int|
                0 <= x < 64 && #[trigger] strictly_between(s, x, king) && member(taken, x);
            if !blocked {
                there.lemma_attack_stays(here, s, king, left, taken);
                assert(here.holds(king, king_piece) && here.attacks_from(s, king, taken));
                assert(false);
            }
            assert(piece.kind == PieceType::Queen || piece.kind == PieceType::Rook || piece.kind
                == PieceType::Bishop) by {
                let x = choose|x: int|
                    0 <= x < 64 && #[trigger] strictly_between(s, x, king) && member(taken, x);
                if piece.kind == PieceType::King || piece.kind == PieceType::Knight || piece.kind
                    == PieceType::Pawn {
                    lemma_no_room(piece.color, piece.kind, s, king, x);
                }
            }
            assert(here.attacks_from(s, king, 0)) by {
                assert forall|x: int| !member(0, x) by {
                    lemma_member_ops(0, 0, x);
                }
                there.lemma_attack_stays(here, s, king, left, 0);
            }
            // The square moved to does not stand between the two.
            there.lemma_taken_for_attacks(enemy, end);
            assert(!strictly_between(s, end, king));
            assert(end != s);
            here.lemma_taken_for_attacks(enemy, start);
            here.lemma_taken_for_attacks(enemy, passed);
            let start_between = strictly_between(s, start, king);
            let passed_between = passing && strictly_between(s, passed, king) && member(
                taken,
                passed,
            );
            if start_between && !passed_between {
                assert forall|x: int|
                    0 <= x < 64 && #[trigger] strictly_between(s, x, king) && x
                        != start implies self.squares[x] is None by {
                    here.lemma_taken_for_attacks(enemy, x);
                    self.lemma_one_king(x);
                }
                self.lemma_pinned_moves(m, s);
                assert(false);
            } else {
                assert(passing);
                self.lemma_passing_move(m);
                let ep = end;
                assert(rank_of(passed) == rank_of(start));
                assert(file_of(passed) == file_of(end));
                assert(self.holds(passed, Piece { color: enemy, kind: PieceType::Pawn }));
                assert(strictly_between(s, passed, king));
                if start_between {
                    lemma_two_between(s, start, passed, king);
                    self.lemma_exposed(m, s);
                    assert(false);
                } else if rank_of(s) == rank_of(king) {
                    lemma_beside_on_rank(s, passed, start, king);
                    assert(false);
                } else if file_of(s) == file_of(king) {
                    lemma_beside_on_file(s, passed, end, king);
                    assert(false);
                } else {
                    assert(self.passed_square() == passed);
                    self.lemma_shielded(m, s);
                    assert(false);
                }
            }
        }
    }

    /// Where the capturing pawn and the pawn it takes in passing are all
    /// that stands between the king and a rook or queen on their rank,
    /// taking in passing exposes the king.
    proof fn lemma_exposed(self, m: Move, s: int)
        requires
            self.shaped(),
            self.one_king(),
            self.admits(m),
            m.flag() == MoveFlag::EnPassant,
            self.holds_color(s, self.enemy()),
            self.squares[s]->0.kind == PieceType::Queen || self.squares[s]->0.kind
                == PieceType::Rook || self.squares[s]->0.kind == PieceType::Bishop,
            self.placement().attacks_from(s, self.king_square(self.turn)->0, 0),
            rank_of(s) == rank_of(self.king_square(self.turn)->0),
            forall|x: int|
                0 <= x < 64 && #[trigger] strictly_between(s, x, self.king_square(self.turn)->0)
                    && member(self.placement().occupancy_for_attacks(self.enemy()), x) ==> x
                    == m.start() || x == passed_pawn_square(m.start(), m.end()),
        ensures
            self.passing_exposes_king(m.start(), passed_pawn_square(m.start(), m.end())),
    {
        let color = self.turn;
        let enemy = self.enemy();
        let king = self.king_square(color)->0;
        let start = m.start();
        let passed = passed_pawn_square(start, m.end());
        let here = self.placement();
        self.lemma_passing_move(m);
        self.lemma_one_king(king);
        self.lemma_one_king(s);
        let without = (self.occupancy() ^ bit(start)) ^ bit(passed);
        let reached = rook_reach(king as u64, without);
        let sliders = self.orthogonal_sliders(enemy);
        lemma_attack_set(color, PieceType::Rook, king, s, without);
        assert(clear_between(without, king, s)) by {
            assert forall|x: int|
                0 <= x < 64 && #[trigger] strictly_between(king, x, s) implies !member(
                    without,
                    x,
                ) by {
                lemma_between_either_way(s, x, king);
                lemma_member_ops(self.occupancy() ^ bit(start), bit(passed), x);
                lemma_member_ops(self.occupancy(), bit(start), x);
                lemma_member_bit(start, x);
                lemma_member_bit(passed, x);
                here.lemma_sets(x);
                here.lemma_taken_for_attacks(enemy, x);
                self.lemma_one_king(x);
            }
        }
        assert(member(reached, s));
        here.lemma_sets(s);
        lemma_member_ops(
            self.pieces(Piece { color: enemy, kind: PieceType::Queen }),
            self.pieces(Piece { color: enemy, kind: PieceType::Rook }),
            s,
        );
        assert(member(sliders, s));
        lemma_sets_meet(reached, sliders);
        assert(self.passing_exposes_king(start, passed));
    }

    /// Where the pawn taken in passing is all that stands between the
    /// king and a bishop or queen on one of the king's diagonals, the
    /// passed pawn shields the king.
    proof fn lemma_shielded(self, m: Move, s: int)
        requires
            self.shaped(),
            self.one_king(),
            self.holds_color(s, self.enemy()),
            self.squares[s]->0.kind == PieceType::Queen || self.squares[s]->0.kind
                == PieceType::Rook || self.squares[s]->0.kind == PieceType::Bishop,
            self.placement().attacks_from(s, self.king_square(self.turn)->0, 0),
            rank_of(s) != rank_of(self.king_square(self.turn)->0),
            file_of(s) != file_of(self.king_square(self.turn)->0),
            self.state().ep_square() is Some,
            0 <= self.passed_square() < 64,
            strictly_between(s, self.passed_square(), self.king_square(self.turn)->0),
            self.squares[self.passed_square()] is Some,
            forall|x: int|
                0 <= x < 64 && #[trigger] strictly_between(s, x, self.king_square(self.turn)->0)
                    && member(self.placement().occupancy_for_attacks(self.enemy()), x) ==> x
                    == self.passed_square(),
        ensures
            self.passed_pawn_shields(),
    {
        let color = self.turn;
        let enemy = self.enemy();
        let king = self.king_square(color)->0;
        let passed = self.passed_square();
        let here = self.placement();
        self.lemma_one_king(king);
        self.lemma_one_king(s);
        self.lemma_one_king(passed);
        here.lemma_sets(passed);
        lemma_member_bit(passed, passed);
        assert(one_blocker(self.occupancy(), bit(passed), king, s)) by {
            lemma_between_either_way(s, passed, king);
            assert forall|x: int|
                0 <= x < 64 && #[trigger] strictly_between(king, x, s) && x != passed implies !member(
                    self.occupancy(),
                    x,
                ) by {
                lemma_between_either_way(s, x, king);
                here.lemma_sets(x);
                here.lemma_taken_for_attacks(enemy, x);
                self.lemma_one_king(x);
            }
        }
        assert(self.shielded_from(passed, king, s));
    }

    /// No move that the generator gives leaves the king of the side that
    /// moves attacked: after the move no piece of the other side gives
    /// check to it. This holds of every position with one king for the
    /// side to move in which the en-passant square, if there is one, lies
    /// behind a pawn that has just passed, and that pawn does not alone
    /// shield the king from a bishop or queen: so of every position that a
    /// game reaches.
    pub proof fn lemma_king_is_safe(self, i: int, after: Position)
        requires
            self.shaped(),
            self.one_king(),
            self.passing_rank(),
            !self.passed_pawn_shields(),
            0 <= i < self.legal_moves().len(),
            self.made(self.legal_moves()[i], after),
        ensures
            after.check_state(self.turn) == CheckState::NoCheck,
    {
        let m = self.legal_moves()[i];
        let color = self.turn;
        let there = after.placement();
        self.lemma_legal_moves();
        assert(self.admits(m));
        there.lemma_check_state(color);
        assert forall|s: int| there.holds_color(s, self.enemy()) implies !there.gives_check(
            s,
            color,
        ) by {
            if self.squares[m.start()]->0.kind == PieceType::King {
                self.lemma_king_steps_safely(m, after, s);
            } else {
                self.lemma_squares_after(m, s);
                if self.placement().gives_check(s, color) {
                    self.lemma_check_answered(m, after, s);
                } else {
                    self.lemma_nothing_uncovered(m, after, s);
                }
            }
        }
    }
}

impl Position {
    /// What holds of every position that a game reaches: each side has
    /// one king; the en-passant square, if there is one, lies behind a
    /// pawn that has just passed, and that pawn does not alone shield the
    /// king of the side to move from a bishop or queen; and the side that
    /// has just moved is not in check.
    pub open spec fn sound(self) -> bool {
        &&& self.shaped()
        &&& self.king_square(PieceColor::White) is Some
        &&& self.king_square(PieceColor::Black) is Some
        &&& self.passing_rank()
        &&& !self.passed_pawn_shields()
        &&& self.check_state(self.enemy()) == CheckState::NoCheck
    }

    /// A side's one king stands on its square, and on no other.
    pub proof fn lemma_king_of(self, color: PieceColor, x: int)
        requires
            self.squares.len() == 64,
            self.king_square(color) is Some,
        ensures
            self.holds(x, Piece { color, kind: PieceType::King }) == (x == self.king_square(
                color,
            )->0),
            0 <= self.king_square(color)->0 < 64,
    {
        let king = self.king_square(color)->0;
        let set = self.pieces(Piece { color, kind: PieceType::King });
        Self::lemma_one_square(Bitboard(set));
        lemma_member_bit(king, x);
        self.placement().lemma_sets(x);
    }

    /// A side whose king stands on one square and on no other has one
    /// king.
    pub proof fn lemma_king_found(self, color: PieceColor, king: int)
        requires
            self.squares.len() == 64,
            forall|x: int|
                0 <= x < 64 ==> (#[trigger] self.squares[x] == Some(
                    Piece { color, kind: PieceType::King },
                )) == (x == king),
            0 <= king < 64,
        ensures
            self.king_square(color) == Some(king),
    {
        let set = self.pieces(Piece { color, kind: PieceType::King });
        assert forall|x: int| 0 <= x < 64 implies member(set, x) == member(bit(king), x) by {
            self.placement().lemma_sets(x);
            lemma_member_bit(king, x);
        }
        lemma_same_members(set, bit(king));
        lemma_bit_alone(king);
    }

    /// A move that follows the rules does not take a king that is not in
    /// check.
    proof fn lemma_king_not_taken(self, m: Move)
        requires
            self.shaped(),
            self.follows_rules(m),
            self.king_square(self.enemy()) is Some,
            self.check_state(self.enemy()) == CheckState::NoCheck,
        ensures
            m.end() != self.king_square(self.enemy())->0,
    {
        let color = self.turn;
        let enemy = self.enemy();
        let s = m.start();
        let e = m.end();
        let here = self.placement();
        let king = self.king_square(enemy)->0;
        self.lemma_king_of(enemy, king);
        self.lemma_king_of(enemy, e);
        here.lemma_check_state(enemy);
        if e == king {
            let taken = here.occupancy_for_attacks(color);
            assert(here.attacks_from(s, e, taken)) by {
                assert forall|x: int|
                    0 <= x < 64 && #[trigger] strictly_between(s, x, e) && member(
                        taken,
                        x,
                    ) implies member(self.occupancy(), x) by {
                    here.lemma_taken_for_attacks(color, x);
                    here.lemma_sets(x);
                }
                let kind = self.squares[s]->0.kind;
                if kind != PieceType::King && kind != PieceType::Pawn {
                    assert(clear_between(self.occupancy(), s, e) ==> clear_between(taken, s, e));
                }
            }
            assert(here.holds_color(s, color) && here.gives_check(s, enemy));
            assert(false);
        }
    }

    /// After a move that the position admits and that takes no king,
    /// each side has its one king.
    proof fn lemma_kings_stay(self, m: Move, after: Position)
        requires
            self.shaped(),
            self.king_square(PieceColor::White) is Some,
            self.king_square(PieceColor::Black) is Some,
            self.accepts(m),
            self.made(m, after),
            m.end() != self.king_square(self.enemy())->0,
        ensures
            after.squares.len() == 64,
            after.king_square(PieceColor::White) is Some,
            after.king_square(PieceColor::Black) is Some,
            after.king_square(self.enemy()) == self.king_square(self.enemy()),
    {
        let color = self.turn;
        let enemy = self.enemy();
        let s = m.start();
        let e = m.end();
        let own = self.king_square(color)->0;
        let other = self.king_square(enemy)->0;
        let piece = self.squares[s]->0;
        let own_after = if piece.kind == PieceType::King {
            e
        } else {
            own
        };
        assert forall|x: int| 0 <= x < 64 implies (#[trigger] after.squares[x] == Some(
            Piece { color, kind: PieceType::King },
        )) == (x == own_after) by {
            self.lemma_squares_after(m, x);
            self.lemma_king_of(color, x);
            self.lemma_king_of(color, s);
        }
        assert forall|x: int| 0 <= x < 64 implies (#[trigger] after.squares[x] == Some(
            Piece { color: enemy, kind: PieceType::King },
        )) == (x == other) by {
            self.lemma_squares_after(m, x);
            self.lemma_king_of(enemy, x);
            self.lemma_king_of(enemy, passed_pawn_square(s, e));
        }
        self.lemma_king_of(color, own);
        self.lemma_king_of(enemy, other);
        self.lemma_squares_after(m, 0);
        after.lemma_king_found(color, own_after);
        after.lemma_king_found(enemy, other);
    }

    /// After a dash from a position in which the side that does not move
    /// is not in check, the pawn that has passed does not alone shield the
    /// other king from a bishop or queen: the king would have been in
    /// check before the dash.
    proof fn lemma_dash_shields_nothing(self, m: Move, after: Position)
        requires
            self.shaped(),
            self.king_square(self.enemy()) is Some,
            self.check_state(self.enemy()) == CheckState::NoCheck,
            self.accepts(m),
            m.flag() == MoveFlag::PawnDash,
            self.made(m, after),
            after.king_square(self.enemy()) == self.king_square(self.enemy()),
            after.passed_square() == m.end(),
        ensures
            !after.passed_pawn_shields(),
    {
        let color = self.turn;
        let enemy = self.enemy();
        let s = m.start();
        let e = m.end();
        let here = self.placement();
        let there = after.placement();
        let other = self.king_square(enemy)->0;
        self.lemma_king_of(enemy, other);
        if after.passed_pawn_shields() {
            let p = choose|p: int| #[trigger] after.shielded_from(e, other, p);
            self.lemma_squares_after(m, p);
            let b = choose|b: int|
                0 <= b < 64 && #[trigger] strictly_between(other, b, p) && member(
                    after.occupancy(),
                    b,
                ) && member(bit(e), b) && forall|x: int|
                    0 <= x < 64 && #[trigger] strictly_between(other, x, p) && x != b ==> !member(
                        after.occupancy(),
                        x,
                    );
            lemma_member_bit(e, b);
            here.lemma_check_state(enemy);
            let taken = here.occupancy_for_attacks(color);
            assert forall|x: int|
                0 <= x < 64 && #[trigger] strictly_between(p, x, other) implies !member(
                    taken,
                    x,
                ) by {
                lemma_between_either_way(p, x, other);
                here.lemma_taken_for_attacks(color, x);
                there.lemma_sets(x);
                self.lemma_squares_after(m, x);
            }
            assert(here.attacks_from(p, other, taken));
            assert(here.holds_color(p, color) && here.gives_check(p, enemy));
            assert(false);
        }
    }

    /// The en-passant square after a move: behind the pawn after a dash
    /// from the pawn's first rank, and none after another move.
    proof fn lemma_passing_after(self, m: Move, after: Position)
        requires
            self.shaped(),
            self.follows_rules(m),
            self.passing_rank(),
            self.made(m, after),
        ensures
            after.passing_rank(),
            m.flag() == MoveFlag::PawnDash ==> after.passed_square() == m.end(),
            m.flag() != MoveFlag::PawnDash ==> after.state().ep_square() is None,
    {
        let s = m.start();
        if m.flag() == MoveFlag::PawnDash {
            let ep = if self.turn == PieceColor::White {
                s + 8
            } else {
                s - 8
            };
            lemma_bit_alone(ep);
            assert(after.state().ep_square() == Some(ep));
        }
    }

    /// The position after a listed move from a sound position is sound.
    /// So a game of listed moves that starts from a sound position goes
    /// through sound positions only, and leaves no king in check.
    pub proof fn lemma_stays_sound(self, i: int, after: Position)
        requires
            self.sound(),
            0 <= i < self.legal_moves().len(),
            self.made(self.legal_moves()[i], after),
        ensures
            after.sound(),
    {
        let m = self.legal_moves()[i];
        assert(self.one_king());
        self.lemma_legal_moves();
        assert(self.admits(m));
        lemma_listed_follows_rules_of(self, i);
        self.lemma_king_is_safe(i, after);
        self.lemma_king_not_taken(m);
        self.lemma_kings_stay(m, after);
        self.lemma_passing_after(m, after);
        if m.flag() == MoveFlag::PawnDash {
            self.lemma_dash_shields_nothing(m, after);
        }
    }
}

} // verus!
