use crate::engine::bitboard::Bitboard;
use crate::engine::bitboard::bits::{
    bit, lemma_member_bit, lemma_member_ops, lemma_squares_of, member, rank_of, squares_of,
};
use crate::engine::board::generate::{home_of, passed_pawn_square};
use crate::engine::board::meaning::{lemma_pin_line, lemma_sets_meet, one_blocker, pin_line};
use crate::engine::board::position::{CheckState, Position};
use crate::engine::board::safety::{lemma_between_either_way, lemma_no_room};
use crate::engine::computed::geometry::{
    lemma_attack_set, lemma_between, reaches, rook_reaches, same_file, strictly_between,
};
use crate::engine::computed::patterns::{
    attack_set, between_set, king_pattern, king_step, lemma_patterns, pawn_capture,
};
use crate::engine::computed::sliding::rook_reach;
use crate::engine::moves::{Move, MoveFlag};
use crate::engine::piece::{Piece, PieceColor, PieceType};
use vstd::prelude::*;

verus! {

/// Whether a flag is right for a move that is no castling, dash or capture
/// in passing: a promotion for a pawn that reaches the first or last
/// rank, and the plain flag else.
pub open spec fn plain_or_promotion(flag: MoveFlag, promotes: bool) -> bool {
    if promotes {
        flag.promotion() is Some
    } else {
        flag == MoveFlag::Normal
    }
}

impl Position {
    /// Whether the move moves its piece as the rules of chess move a
    /// piece of its kind, without regard to check: a piece of the side
    /// to move goes to a square that holds no piece of that side; king and
    /// knight by their step, sliders along their lines as far as nothing
    /// stands in between; the pawn one square ahead onto an empty square,
    /// two from its first rank over an empty square, diagonally ahead onto
    /// a piece of the other side or in passing onto the en-passant square,
    /// promoting on the last rank; and the king castles as `can_castle`
    /// allows.
    pub open spec fn follows_rules(self, m: Move) -> bool {
        let s = m.start();
        let e = m.end();
        let color = self.turn;
        let kind = self.squares[s]->0.kind;
        let home = home_of(color);
        let ahead = if color == PieceColor::White {
            8int
        } else {
            -8int
        };
        let last = rank_of(e) == 0 || rank_of(e) == 7;
        &&& self.shaped()
        &&& m.well_formed()
        &&& 0 <= s < 64
        &&& 0 <= e < 64
        &&& self.holds_color(s, color)
        &&& !self.holds_color(e, color)
        &&& match kind {
            PieceType::King => {
                ||| (m.flag() == MoveFlag::Normal && king_step(s, e))
                ||| (m.flag() == MoveFlag::Castle && s == home + 4 && ((e == home + 6
                    && self.can_castle(true)) || (e == home + 2 && self.can_castle(false))))
            },
            PieceType::Pawn => {
                ||| (pawn_capture(color, s, e) && self.holds_color(e, self.enemy())
                    && plain_or_promotion(m.flag(), last))
                ||| (e == s + ahead && self.empty_at(e) && plain_or_promotion(m.flag(), last))
                ||| (m.flag() == MoveFlag::PawnDash && e == s + 2 * ahead && rank_of(s) == (if color
                    == PieceColor::White {
                    1int
                } else {
                    6int
                }) && self.empty_at(s + ahead) && self.empty_at(e))
                ||| (m.flag() == MoveFlag::EnPassant && pawn_capture(color, s, e)
                    && self.state().ep_square() == Some(e) && self.empty_at(e) && self.holds(
                    passed_pawn_square(s, e),
                    Piece { color: self.enemy(), kind: PieceType::Pawn },
                ))
            },
            _ => m.flag() == MoveFlag::Normal && reaches(color, kind, s, e, self.occupancy()),
        }
    }

    /// A move that follows the rules can be made.
    pub proof fn lemma_rules_accepted(self, m: Move)
        requires
            self.follows_rules(m),
            self.passing_rank(),
        ensures
            self.accepts(m),
    {
        let s = m.start();
        let e = m.end();
        if self.squares[s]->0.kind == PieceType::Pawn {
            assert(m.flag() != MoveFlag::Castle);
        }
    }

    /// A target that lies on every pin line on which the piece stands is
    /// left by the pin lines.
    pub proof fn lemma_on_pin_lines(lines: Seq<Bitboard>, sq: int, targets: u64, k: nat, to: int)
        requires
            k <= lines.len(),
            member(targets, to),
            forall|j: int|
                0 <= j < k && member((#[trigger] lines[j]).0, sq) ==> member(lines[j].0, to),
        ensures
            member(Self::pinned_targets(lines, sq, targets, k), to),
        decreases k,
    {
        if k > 0 {
            Self::lemma_on_pin_lines(lines, sq, targets, (k - 1) as nat, to);
            let before = Self::pinned_targets(lines, sq, targets, (k - 1) as nat);
            lemma_member_ops(before, lines[k - 1].0, to);
        }
    }

    /// The moves to one of the first `k` targets are among the moves to
    /// the first `k` targets.
    pub proof fn lemma_in_moves_over(
        self,
        sq: int,
        kind: PieceType,
        to: Seq<int>,
        k: nat,
        j: int,
        m: Move,
    )
        requires
            0 <= j < k <= to.len(),
            self.moves_to(sq, kind, to[j]).contains(m),
        ensures
            self.moves_over(sq, kind, to, k).contains(m),
        decreases k,
    {
        let before = self.moves_over(sq, kind, to, (k - 1) as nat);
        let last = self.moves_to(sq, kind, to[k - 1]);
        assert(self.moves_over(sq, kind, to, k) == before + last);
        if j < k - 1 {
            self.lemma_in_moves_over(sq, kind, to, (k - 1) as nat, j, m);
            let i = choose|i: int| 0 <= i < before.len() && before[i] == m;
            assert((before + last)[i] == m);
        } else {
            let i = choose|i: int| 0 <= i < last.len() && last[i] == m;
            assert((before + last)[before.len() + i] == m);
        }
    }

    /// The moves of one of the first `k` pieces are among the moves of
    /// the first `k` pieces.
    pub proof fn lemma_in_moves_of(self, from: Seq<int>, k: nat, a: int, m: Move)
        requires
            0 <= a < k <= from.len(),
            self.moves_from(from[a]).contains(m),
        ensures
            self.moves_of(from, k).contains(m),
        decreases k,
    {
        let before = self.moves_of(from, (k - 1) as nat);
        let last = self.moves_from(from[k - 1]);
        assert(self.moves_of(from, k) == before + last);
        if a < k - 1 {
            self.lemma_in_moves_of(from, (k - 1) as nat, a, m);
            let i = choose|i: int| 0 <= i < before.len() && before[i] == m;
            assert((before + last)[i] == m);
        } else {
            let i = choose|i: int| 0 <= i < last.len() && last[i] == m;
            assert((before + last)[before.len() + i] == m);
        }
    }

    /// The step to one of the first `k` targets is among the steps to the
    /// first `k` targets.
    pub proof fn lemma_in_steps_over(sq: int, to: Seq<int>, k: nat, j: int)
        requires
            0 <= j < k <= to.len(),
        ensures
            Self::steps_over(sq, to, k).contains(Move::of(sq, to[j], MoveFlag::Normal)),
        decreases k,
    {
        let before = Self::steps_over(sq, to, (k - 1) as nat);
        let all = Self::steps_over(sq, to, k);
        assert(all == before.push(Move::of(sq, to[k - 1], MoveFlag::Normal)));
        Self::lemma_steps_count(sq, to, (k - 1) as nat);
        if j < k - 1 {
            Self::lemma_in_steps_over(sq, to, (k - 1) as nat, j);
            let i = choose|i: int|
                0 <= i < before.len() && before[i] == Move::of(sq, to[j], MoveFlag::Normal);
            assert(all[i] == before[i]);
        } else {
            assert(all[k - 1] == Move::of(sq, to[j], MoveFlag::Normal));
        }
    }

    /// There is one step for each target.
    pub proof fn lemma_steps_count(sq: int, to: Seq<int>, k: nat)
        ensures
            Self::steps_over(sq, to, k).len() == k,
        decreases k,
    {
        if k > 0 {
            Self::lemma_steps_count(sq, to, (k - 1) as nat);
        }
    }

    /// Outside double check a move of a piece of the side to move to one
    /// of the piece's targets, with the flag that belongs to it, is in the
    /// list.
    pub proof fn lemma_listed(self, m: Move)
        requires
            self.shaped(),
            m.well_formed(),
            self.holds_color(m.start(), self.turn),
            self.check_state(self.turn) != CheckState::Double,
            member(self.targets(m.start()), m.end()),
            self.moves_to(m.start(), self.squares[m.start()]->0.kind, m.end()).contains(m),
        ensures
            self.legal_moves().contains(m),
    {
        let sq = m.start();
        let kind = self.squares[sq]->0.kind;
        let to = squares_of(self.targets(sq));
        lemma_squares_of(self.targets(sq));
        assert(to.contains(m.end()));
        let j = choose|j: int| 0 <= j < to.len() && to[j] == m.end();
        self.lemma_in_moves_over(sq, kind, to, to.len(), j, m);
        let from = squares_of(self.colors(self.turn));
        lemma_squares_of(self.colors(self.turn));
        self.placement().lemma_sets(sq);
        assert(from.contains(sq));
        let a = choose|a: int| 0 <= a < from.len() && from[a] == sq;
        self.lemma_in_moves_of(from, from.len(), a, m);
    }
}

impl Position {
    /// A piece of the other side that attacks the square of the king
    /// after the move, is not taken by the move, and has nothing more in
    /// its way after the move than counted before, gives check after the
    /// move.
    proof fn lemma_still_checks(self, after: Position, p: int, king: int, taken: u64)
        requires
            self.squares.len() == 64,
            after.squares.len() == 64,
            after.holds(king, Piece { color: self.turn, kind: PieceType::King }),
            after.squares[p] == self.squares[p],
            self.placement().attacks_from(p, king, taken),
            forall|y: int|
                0 <= y < 64 && #[trigger] strictly_between(p, y, king) && member(
                    after.placement().occupancy_for_attacks(self.enemy()),
                    y,
                ) ==> member(taken, y),
        ensures
            after.placement().gives_check(p, self.turn),
    {
        self.placement().lemma_attack_stays(
            after.placement(),
            p,
            king,
            taken,
            after.placement().occupancy_for_attacks(self.enemy()),
        );
    }

    /// The king stands on no pin line.
    proof fn lemma_king_off_the_lines(self, j: int)
        requires
            self.squares.len() == 64,
            self.one_king(),
            0 <= j < self.pin_lines(self.turn).len(),
        ensures
            !member(self.pin_lines(self.turn)[j].0, self.king_square(self.turn)->0),
    {
        let king = self.king_square(self.turn)->0;
        let here = self.placement();
        self.lemma_one_king(king);
        here.lemma_pin_lines(self.turn);
        let line = self.pin_lines(self.turn)[j];
        assert(here.is_pin_line(self.turn, king, line));
        let p = choose|p: int|
            here.pins(self.turn, king, p) && line == #[trigger] pin_line(king, p);
        lemma_pin_line(king, p, king);
    }

    /// A move of the king that follows the rules and leaves the king
    /// unattacked is in the list.
    proof fn lemma_king_move_listed(self, m: Move, after: Position)
        requires
            self.one_king(),
            self.passing_rank(),
            self.follows_rules(m),
            self.squares[m.start()]->0.kind == PieceType::King,
            self.made(m, after),
            after.check_state(self.turn) == CheckState::NoCheck,
        ensures
            self.legal_moves().contains(m),
    {
        let color = self.turn;
        let enemy = self.enemy();
        let king_piece = Piece { color, kind: PieceType::King };
        let s = m.start();
        let e = m.end();
        let here = self.placement();
        let there = after.placement();
        let friendly = self.colors(color);
        let attacked = self.attacks(enemy);
        self.lemma_rules_accepted(m);
        self.lemma_one_king(s);
        m.lemma_of_parts();
        there.lemma_check_state(color);
        here.lemma_sets(e);
        lemma_member_ops(friendly, 0, e);
        lemma_member_ops(attacked, 0, e);
        if m.flag() == MoveFlag::Normal {
            lemma_patterns(s, e);
            // The square is not attacked: a piece that attacked it would
            // give check after the move.
            if member(attacked, e) {
                here.lemma_attacks(enemy, e);
                let p = choose|p: int|
                    here.holds_color(p, enemy) && #[trigger] here.attacks_from(
                        p,
                        e,
                        here.occupancy_for_attacks(enemy),
                    );
                self.lemma_squares_after(m, p);
                self.lemma_squares_after(m, e);
                assert forall|y: int|
                    0 <= y < 64 && #[trigger] strictly_between(p, y, e) && member(
                        there.occupancy_for_attacks(enemy),
                        y,
                    ) implies member(here.occupancy_for_attacks(enemy), y) by {
                    here.lemma_taken_for_attacks(enemy, y);
                    there.lemma_taken_for_attacks(enemy, y);
                    self.lemma_squares_after(m, y);
                    self.lemma_one_king(y);
                }
                self.lemma_still_checks(after, p, e, here.occupancy_for_attacks(enemy));
                assert(there.holds_color(p, enemy));
                assert(false);
            }
            lemma_member_ops(king_pattern(s as u64), !friendly, e);
            lemma_member_ops(king_pattern(s as u64) & !friendly, !attacked, e);
            assert(member(self.escape_targets(s), e));
        }
        if self.check_state(color) == CheckState::Double {
            let to = squares_of(self.escape_targets(s));
            lemma_squares_of(self.escape_targets(s));
            assert(to.contains(e));
            let j = choose|j: int| 0 <= j < to.len() && to[j] == e;
            Self::lemma_in_steps_over(s, to, to.len(), j);
        } else {
            lemma_member_ops(self.escape_targets(s), self.castle_targets(s), e);
            let home = home_of(color);
            let short: u64 = if s == home + 4 && self.can_castle(true) {
                bit(home + 6)
            } else {
                0
            };
            let long: u64 = if s == home + 4 && self.can_castle(false) {
                bit(home + 2)
            } else {
                0
            };
            lemma_member_ops(short, long, e);
            lemma_member_bit(home + 6, e);
            lemma_member_bit(home + 2, e);
            assert(member(self.king_targets(s), e));
            let lines = self.pin_lines(color);
            assert forall|j: int|
                0 <= j < lines.len() && member((#[trigger] lines[j]).0, s) implies member(
                    lines[j].0,
                    e,
                ) by {
                self.lemma_king_off_the_lines(j);
            }
            Self::lemma_on_pin_lines(
                lines,
                s,
                self.checked_targets(s, PieceType::King),
                lines.len(),
                e,
            );
            assert(self.moves_to(s, PieceType::King, e)[0] == m);
            self.lemma_listed(m);
        }
    }
}

/// Of two squares with one square between each of them and a third, one
/// stands between the other and the third.
proof fn lemma_same_ray(a: int, b: int, x: int, k: int)
    requires
        0 <= a < 64,
        0 <= b < 64,
        0 <= x < 64,
        0 <= k < 64,
        a != b,
        strictly_between(a, x, k),
        strictly_between(b, x, k),
    ensures
        strictly_between(a, b, k) || strictly_between(b, a, k),
{
}

impl Position {
    /// Whether a move takes the piece on `p` off the board.
    pub open spec fn takes(self, m: Move, p: int) -> bool {
        p == m.end() || (m.flag() == MoveFlag::EnPassant && p == passed_pawn_square(
            m.start(),
            m.end(),
        ))
    }

    /// Whether the en-passant square, if there is one, stands between the
    /// king of the side to move and no piece that gives check. It does so
    /// in no position that a game reaches: the check would have been there
    /// before the pawn passed.
    pub open spec fn passing_blocks_no_check(self) -> bool {
        match self.state().ep_square() {
            Some(ep) => forall|p: int|
                self.holds_color(p, self.enemy()) && #[trigger] self.placement().gives_check(
                    p,
                    self.turn,
                ) ==> !strictly_between(p, ep, self.king_square(self.turn)->0),
            None => true,
        }
    }

    /// Whether the pawn that has just passed is all that stands between
    /// the king of the side to move and a rook or queen of the other side
    /// on the pawn's file.
    pub open spec fn passed_pawn_hides_file(self) -> bool {
        self.state().ep_square() is Some && exists|s: int|
            0 <= s < 64 && (self.holds(s, Piece { color: self.enemy(), kind: PieceType::Queen })
                || self.holds(s, Piece { color: self.enemy(), kind: PieceType::Rook }))
                && same_file(self.king_square(self.turn)->0, s)
                && #[trigger] one_blocker(
                self.occupancy(),
                bit(self.passed_square()),
                self.king_square(self.turn)->0,
                s,
            )
    }

    /// A piece that gave check before a move of a piece other than the
    /// king, and gives none after it, was taken by the move, or the move
    /// went between it and the king.
    proof fn lemma_check_needs_answer(self, m: Move, after: Position, p: int)
        requires
            self.one_king(),
            self.passing_rank(),
            self.follows_rules(m),
            self.squares[m.start()]->0.kind != PieceType::King,
            self.made(m, after),
            after.check_state(self.turn) == CheckState::NoCheck,
            self.holds_color(p, self.enemy()),
            self.placement().gives_check(p, self.turn),
        ensures
            self.takes(m, p) || strictly_between(p, m.end(), self.king_square(self.turn)->0),
    {
        let color = self.turn;
        let enemy = self.enemy();
        let king_piece = Piece { color, kind: PieceType::King };
        let king = self.king_square(color)->0;
        let here = self.placement();
        let there = after.placement();
        self.lemma_rules_accepted(m);
        self.lemma_one_king(king);
        self.lemma_one_king(m.start());
        self.lemma_one_king(m.end());
        there.lemma_check_state(color);
        let k = choose|k: int|
            here.holds(k, king_piece) && #[trigger] here.attacks_from(
                p,
                k,
                here.occupancy_for_attacks(enemy),
            );
        self.lemma_one_king(k);
        if !self.takes(m, p) && !strictly_between(p, m.end(), king) {
            self.lemma_squares_after(m, p);
            self.lemma_squares_after(m, king);
            assert forall|y: int|
                0 <= y < 64 && #[trigger] strictly_between(p, y, king) && member(
                    there.occupancy_for_attacks(enemy),
                    y,
                ) implies member(here.occupancy_for_attacks(enemy), y) by {
                here.lemma_taken_for_attacks(enemy, y);
                there.lemma_taken_for_attacks(enemy, y);
                self.lemma_squares_after(m, y);
                self.lemma_one_king(y);
            }
            self.lemma_still_checks(after, p, king, here.occupancy_for_attacks(enemy));
            assert(there.holds_color(p, enemy));
            assert(false);
        }
    }

    /// A piece that gives check has nothing between itself and the king.
    proof fn lemma_check_is_open(self, p: int, x: int)
        requires
            self.squares.len() == 64,
            self.one_king(),
            self.placement().gives_check(p, self.turn),
            0 <= x < 64,
            strictly_between(p, x, self.king_square(self.turn)->0),
        ensures
            self.squares[x] is None,
    {
        let color = self.turn;
        let enemy = self.enemy();
        let king_piece = Piece { color, kind: PieceType::King };
        let here = self.placement();
        let k = choose|k: int|
            here.holds(k, king_piece) && #[trigger] here.attacks_from(
                p,
                k,
                here.occupancy_for_attacks(enemy),
            );
        self.lemma_one_king(k);
        self.lemma_one_king(x);
        here.lemma_taken_for_attacks(enemy, x);
        let piece = self.squares[p]->0;
        if piece.kind == PieceType::King || piece.kind == PieceType::Knight || piece.kind
            == PieceType::Pawn {
            lemma_no_room(piece.color, piece.kind, p, k, x);
        }
    }

    /// In double check no move of a piece other than the king leaves the
    /// king unattacked.
    proof fn lemma_double_needs_king(self, m: Move, after: Position)
        requires
            self.one_king(),
            self.passing_rank(),
            self.passing_blocks_no_check(),
            self.follows_rules(m),
            self.squares[m.start()]->0.kind != PieceType::King,
            self.made(m, after),
            after.check_state(self.turn) == CheckState::NoCheck,
        ensures
            self.check_state(self.turn) != CheckState::Double,
    {
        let color = self.turn;
        let enemy = self.enemy();
        let king = self.king_square(color)->0;
        let here = self.placement();
        let e = m.end();
        self.lemma_one_king(king);
        if self.check_state(color) == CheckState::Double {
            here.lemma_check_state(color);
            let (a, b) = choose|a: int, b: int|
                a != b && here.holds_color(a, enemy) && here.holds_color(b, enemy)
                    && #[trigger] here.gives_check(a, color) && #[trigger] here.gives_check(
                    b,
                    color,
                );
            self.lemma_check_needs_answer(m, after, a);
            self.lemma_check_needs_answer(m, after, b);
            let between_a = strictly_between(a, e, king);
            let between_b = strictly_between(b, e, king);
            if between_a && between_b {
                lemma_same_ray(a, b, e, king);
                if strictly_between(a, b, king) {
                    self.lemma_check_is_open(a, b);
                } else {
                    self.lemma_check_is_open(b, a);
                }
            } else if between_a {
                // `b` is taken
                if b == e {
                    self.lemma_check_is_open(a, e);
                }
            } else if between_b {
                if a == e {
                    self.lemma_check_is_open(b, e);
                }
            }
            assert(false);
        }
    }
}

impl Position {
    /// Taking in passing, where the rules allow it and the king is
    /// unattacked after it, does not expose the king as the generator
    /// tries it: with both pawns off the board no rook or queen attacks
    /// the king.
    proof fn lemma_not_exposed(self, m: Move, after: Position)
        requires
            self.one_king(),
            self.passing_rank(),
            self.passing_blocks_no_check(),
            !self.passed_pawn_hides_file(),
            self.follows_rules(m),
            m.flag() == MoveFlag::EnPassant,
            self.squares[m.start()]->0.kind == PieceType::Pawn,
            self.made(m, after),
            after.check_state(self.turn) == CheckState::NoCheck,
        ensures
            !self.passing_exposes_king(m.start(), passed_pawn_square(m.start(), m.end())),
    {
        let color = self.turn;
        let enemy = self.enemy();
        let king_piece = Piece { color, kind: PieceType::King };
        let king = self.king_square(color)->0;
        let s = m.start();
        let e = m.end();
        let passed = passed_pawn_square(s, e);
        let here = self.placement();
        let there = after.placement();
        let without = (self.occupancy() ^ bit(s)) ^ bit(passed);
        let reached = rook_reach(king as u64, without);
        let sliders = self.orthogonal_sliders(enemy);
        self.lemma_rules_accepted(m);
        self.lemma_one_king(king);
        self.lemma_one_king(s);
        there.lemma_check_state(color);
        assert(self.passed_square() == passed);
        if self.passing_exposes_king(s, passed) {
            lemma_sets_meet(reached, sliders);
            let p = choose|p: int| member(reached, p) && #[trigger] member(sliders, p);
            here.lemma_sets(p);
            lemma_member_ops(
                self.pieces(Piece { color: enemy, kind: PieceType::Queen }),
                self.pieces(Piece { color: enemy, kind: PieceType::Rook }),
                p,
            );
            lemma_attack_set(color, PieceType::Rook, king, p, without);
            self.lemma_one_king(p);
            assert(rook_reaches(king, p, without));
            // What stands between the two is one of the two pawns.
            assert forall|y: int|
                0 <= y < 64 && #[trigger] strictly_between(p, y, king) && self.squares[y]
                    is Some implies y == s || y == passed by {
                lemma_between_either_way(p, y, king);
                lemma_member_ops(self.occupancy() ^ bit(s), bit(passed), y);
                lemma_member_ops(self.occupancy(), bit(s), y);
                lemma_member_bit(s, y);
                lemma_member_bit(passed, y);
                here.lemma_sets(y);
            }
            self.lemma_squares_after(m, p);
            self.lemma_squares_after(m, king);
            if strictly_between(p, e, king) {
                if strictly_between(p, passed, king) {
                    // the passed pawn alone hides the king on its file
                    assert(same_file(king, p));
                    here.lemma_sets(passed);
                    lemma_member_bit(passed, passed);
                    assert(one_blocker(self.occupancy(), bit(passed), king, p))
                        by {
                        lemma_between_either_way(p, passed, king);
                        assert forall|y: int|
                            0 <= y < 64 && #[trigger] strictly_between(king, y, p) && y
                                != passed implies !member(self.occupancy(), y) by {
                            lemma_between_either_way(p, y, king);
                            here.lemma_sets(y);
                        }
                    }
                    assert(false);
                } else {
                    // the piece gives check, and the en-passant square
                    // stands in its way
                    assert forall|y: int|
                        0 <= y < 64 && #[trigger] strictly_between(p, y, king) implies !member(
                            here.occupancy_for_attacks(enemy),
                            y,
                        ) by {
                        here.lemma_taken_for_attacks(enemy, y);
                    }
                    assert(here.attacks_from(p, king, here.occupancy_for_attacks(enemy)));
                    assert(here.gives_check(p, color));
                    assert(false);
                }
            } else {
                assert(here.attacks_from(p, king, without)) by {
                    assert forall|y: int|
                        0 <= y < 64 && #[trigger] strictly_between(p, y, king) implies !member(
                            without,
                            y,
                        ) by {
                        lemma_between_either_way(p, y, king);
                    }
                }
                assert forall|y: int|
                    0 <= y < 64 && #[trigger] strictly_between(p, y, king) && member(
                        there.occupancy_for_attacks(enemy),
                        y,
                    ) implies member(without, y) by {
                    there.lemma_taken_for_attacks(enemy, y);
                    self.lemma_squares_after(m, y);
                    lemma_member_ops(self.occupancy() ^ bit(s), bit(passed), y);
                    lemma_member_ops(self.occupancy(), bit(s), y);
                    lemma_member_bit(s, y);
                    lemma_member_bit(passed, y);
                    here.lemma_sets(y);
                }
                self.lemma_still_checks(after, p, king, without);
                assert(there.holds_color(p, enemy));
                assert(false);
            }
        }
    }

    /// A move of a piece other than the king that follows the rules goes
    /// to a square where the piece could go if check and pins did not
    /// matter.
    proof fn lemma_free_target(self, m: Move, after: Position)
        requires
            self.one_king(),
            self.passing_rank(),
            self.passing_blocks_no_check(),
            !self.passed_pawn_hides_file(),
            self.follows_rules(m),
            self.squares[m.start()]->0.kind != PieceType::King,
            self.made(m, after),
            after.check_state(self.turn) == CheckState::NoCheck,
        ensures
            member(self.free_targets(m.start(), self.squares[m.start()]->0.kind), m.end()),
            m.flag() == MoveFlag::EnPassant ==> self.can_pass(m.start()),
    {
        let color = self.turn;
        let enemy = self.enemy();
        let s = m.start();
        let e = m.end();
        let kind = self.squares[s]->0.kind;
        let here = self.placement();
        let friendly = self.colors(color);
        let enemies = self.colors(enemy);
        here.lemma_sets(e);
        lemma_member_ops(friendly, 0, e);
        if kind == PieceType::Pawn {
            let pattern = attack_set(color, PieceType::Pawn, s as u64, 0);
            let passing: u64 = if self.can_pass(s) {
                self.state().enpassant.0
            } else {
                0
            };
            let pushes = self.pawn_pushes(s);
            lemma_patterns(s, e);
            lemma_member_ops(pattern, !friendly, e);
            lemma_member_ops(pattern & !friendly, enemies, e);
            lemma_member_ops((pattern & !friendly) & enemies, passing, e);
            lemma_member_ops(((pattern & !friendly) & enemies) | passing, pushes, e);
            if m.flag() == MoveFlag::EnPassant {
                self.lemma_not_exposed(m, after);
                Self::lemma_one_square(self.state().enpassant);
                lemma_member_bit(e, e);
                assert(self.can_pass(s));
            }
            match color {
                PieceColor::White => {
                    let dash: u64 = if rank_of(s) == 1 && self.empty_at(s + 16) {
                        bit(s + 16)
                    } else {
                        0
                    };
                    if 0 <= s + 8 < 64 {
                        lemma_member_ops(bit(s + 8), dash, e);
                        lemma_member_bit(s + 8, e);
                    }
                    if 0 <= s + 16 < 64 {
                        lemma_member_bit(s + 16, e);
                    }
                },
                PieceColor::Black => {
                    let dash: u64 = if rank_of(s) == 6 && self.empty_at(s - 16) {
                        bit(s - 16)
                    } else {
                        0
                    };
                    if 0 <= s - 8 < 64 {
                        lemma_member_ops(bit(s - 8), dash, e);
                        lemma_member_bit(s - 8, e);
                    }
                    if 0 <= s - 16 < 64 {
                        lemma_member_bit(s - 16, e);
                    }
                },
            }
        } else {
            lemma_attack_set(color, kind, s, e, self.occupancy());
            lemma_member_ops(attack_set(color, kind, s as u64, self.occupancy()), !friendly, e);
        }
    }
}

impl Position {
    /// A move of a piece other than the king that leaves the king
    /// unattacked answers a single check as the generator asks.
    proof fn lemma_answers_check(self, m: Move, after: Position)
        requires
            self.one_king(),
            self.passing_rank(),
            self.passing_blocks_no_check(),
            !self.passed_pawn_hides_file(),
            self.follows_rules(m),
            self.squares[m.start()]->0.kind != PieceType::King,
            self.made(m, after),
            after.check_state(self.turn) == CheckState::NoCheck,
        ensures
            member(self.checked_targets(m.start(), self.squares[m.start()]->0.kind), m.end()),
    {
        let color = self.turn;
        let enemy = self.enemy();
        let king = self.king_square(color)->0;
        let s = m.start();
        let e = m.end();
        let kind = self.squares[s]->0.kind;
        let here = self.placement();
        let free = self.free_targets(s, kind);
        self.lemma_free_target(m, after);
        self.lemma_one_king(king);
        match self.check_state(color) {
            CheckState::Single(attacker) => {
                let a = attacker as int;
                here.lemma_check_state(color);
                self.lemma_single_check(color);
                self.lemma_check_needs_answer(m, after, a);
                let between = between_set(a as u64, king as u64);
                let plain = between | bit(a);
                let answers = self.answers(s, kind, a, king);
                lemma_between(a, e, king);
                lemma_member_ops(between, bit(a), e);
                lemma_member_bit(a, e);
                lemma_member_ops(free, answers, e);
                let variant = kind == PieceType::Pawn && self.can_pass(s) && a
                    == passed_pawn_square(s, self.state().ep_square()->0);
                if variant {
                    let ep = self.state().ep_square()->0;
                    Self::lemma_one_square(self.state().enpassant);
                    lemma_member_ops(plain ^ bit(a), self.state().enpassant.0, e);
                    lemma_member_ops(plain, bit(a), e);
                    lemma_member_bit(ep, e);
                    assert(rank_of(a) == rank_of(s));
                    assert(e != a);
                }
                assert(member(answers, e));
            },
            _ => {},
        }
    }

    /// A move of a piece other than the king that leaves the king
    /// unattacked stays on every pin line on which the piece stands.
    proof fn lemma_stays_on_lines(self, m: Move, after: Position, j: int)
        requires
            self.one_king(),
            self.passing_rank(),
            self.follows_rules(m),
            self.squares[m.start()]->0.kind != PieceType::King,
            self.made(m, after),
            after.check_state(self.turn) == CheckState::NoCheck,
            0 <= j < self.pin_lines(self.turn).len(),
            member(self.pin_lines(self.turn)[j].0, m.start()),
        ensures
            member(self.pin_lines(self.turn)[j].0, m.end()),
    {
        let color = self.turn;
        let enemy = self.enemy();
        let king = self.king_square(color)->0;
        let s = m.start();
        let e = m.end();
        let here = self.placement();
        let there = after.placement();
        let line = self.pin_lines(color)[j];
        self.lemma_rules_accepted(m);
        self.lemma_one_king(king);
        self.lemma_one_king(s);
        there.lemma_check_state(color);
        here.lemma_pin_lines(color);
        assert(here.is_pin_line(color, king, line));
        let p = choose|p: int|
            here.pins(color, king, p) && line == #[trigger] pin_line(king, p);
        lemma_pin_line(king, p, s);
        lemma_pin_line(king, p, e);
        self.lemma_one_king(p);
        here.lemma_sets(s);
        if !member(line.0, e) {
            let b = choose|b: int|
                0 <= b < 64 && #[trigger] strictly_between(king, b, p) && member(
                    self.occupancy(),
                    b,
                ) && member(self.colors(color), b) && forall|x: int|
                    0 <= x < 64 && #[trigger] strictly_between(king, x, p) && x != b ==> !member(
                        self.occupancy(),
                        x,
                    );
            lemma_between_either_way(p, s, king);
            assert(s == b);
            let taken = self.occupancy() & !bit(s);
            assert forall|y: int|
                0 <= y < 64 && #[trigger] strictly_between(p, y, king) implies !member(
                    taken,
                    y,
                ) by {
                lemma_between_either_way(p, y, king);
                lemma_member_ops(self.occupancy(), !bit(s), y);
                lemma_member_ops(bit(s), 0, y);
                lemma_member_bit(s, y);
            }
            assert(here.attacks_from(p, king, taken));
            self.lemma_squares_after(m, p);
            self.lemma_squares_after(m, king);
            assert forall|y: int|
                0 <= y < 64 && #[trigger] strictly_between(p, y, king) && member(
                    there.occupancy_for_attacks(enemy),
                    y,
                ) implies member(taken, y) by {
                there.lemma_taken_for_attacks(enemy, y);
                self.lemma_squares_after(m, y);
                lemma_member_ops(self.occupancy(), !bit(s), y);
                lemma_member_ops(bit(s), 0, y);
                lemma_member_bit(s, y);
                here.lemma_sets(y);
            }
            self.lemma_still_checks(after, p, king, taken);
            assert(there.holds_color(p, enemy));
            assert(false);
        }
    }

    /// The flag of a move that follows the rules is the flag that the
    /// generator gives to the move from its start to its end.
    proof fn lemma_flag_fits(self, m: Move)
        requires
            self.passing_rank(),
            self.follows_rules(m),
        ensures
            self.moves_to(m.start(), self.squares[m.start()]->0.kind, m.end()).contains(m),
    {
        let s = m.start();
        let e = m.end();
        let kind = self.squares[s]->0.kind;
        let listed = self.moves_to(s, kind, e);
        m.lemma_of_parts();
        if kind == PieceType::Pawn && (rank_of(e) == 0 || rank_of(e) == 7) {
            assert(m.flag().promotion() is Some);
            match m.flag() {
                MoveFlag::PromoteQueen => {
                    assert(listed[0] == m);
                },
                MoveFlag::PromoteRook => {
                    assert(listed[1] == m);
                },
                MoveFlag::PromoteBishop => {
                    assert(listed[2] == m);
                },
                _ => {
                    assert(listed[3] == m);
                },
            }
        } else {
            assert(m.flag() == self.flag_for(s, kind, e));
            assert(listed[0] == m);
        }
    }

    /// Every move that follows the rules and leaves the king of the side
    /// that moves unattacked is in the list. This holds of every position
    /// with one king for the side to move in which the en-passant square,
    /// if there is one, lies behind a pawn that has just passed and in the
    /// way of no check, and that pawn does not alone hide the king from a
    /// rook or queen on its own file. Where it does, the capture in
    /// passing is not in the list although the rules allow it: the
    /// generator tries it with both pawns off the board.
    pub proof fn lemma_lawful_listed(self, m: Move, after: Position)
        requires
            self.one_king(),
            self.passing_rank(),
            self.passing_blocks_no_check(),
            !self.passed_pawn_hides_file(),
            self.follows_rules(m),
            self.made(m, after),
            after.check_state(self.turn) == CheckState::NoCheck,
        ensures
            self.legal_moves().contains(m),
    {
        let s = m.start();
        let e = m.end();
        let kind = self.squares[s]->0.kind;
        if kind == PieceType::King {
            self.lemma_king_move_listed(m, after);
        } else {
            self.lemma_double_needs_king(m, after);
            self.lemma_answers_check(m, after);
            let lines = self.pin_lines(self.turn);
            assert forall|j: int|
                0 <= j < lines.len() && member((#[trigger] lines[j]).0, s) implies member(
                    lines[j].0,
                    e,
                ) by {
                self.lemma_stays_on_lines(m, after, j);
            }
            Self::lemma_on_pin_lines(lines, s, self.checked_targets(s, kind), lines.len(), e);
            self.lemma_flag_fits(m);
            self.lemma_listed(m);
        }
    }

    /// Every move in the list follows the rules.
    pub proof fn lemma_listed_follows_rules(self, i: int)
        requires
            self.shaped(),
            self.one_king(),
            self.passing_rank(),
            0 <= i < self.legal_moves().len(),
        ensures
            self.follows_rules(self.legal_moves()[i]),
    {
        let m = self.legal_moves()[i];
        let color = self.turn;
        self.lemma_legal_moves();
        assert(self.admits(m));
        let s = m.start();
        let e = m.end();
        let kind = self.squares[s]->0.kind;
        let friendly = self.colors(color);
        self.lemma_one_king(s);
        if self.check_state(color) == CheckState::Double {
            lemma_member_ops(king_pattern(s as u64) & !friendly, !self.attacks(self.enemy()), e);
            lemma_member_ops(king_pattern(s as u64), !friendly, e);
            lemma_patterns(s, e);
            assert(kind == PieceType::King);
            assert(king_step(s, e) && m.flag() == MoveFlag::Normal);
        } else {
            Self::lemma_pinned_targets(
                self.pin_lines(color),
                s,
                self.checked_targets(s, kind),
                self.pin_lines(color).len(),
                e,
            );
            self.lemma_checked_targets(s, kind, e);
            match kind {
                PieceType::King => {
                    self.lemma_king_targets(s, e);
                    self.lemma_king_step(s, e);
                    assert(m.flag() == self.flag_for(s, kind, e));
                },
                PieceType::Pawn => {
                    self.lemma_pawn_targets(s, e);
                    self.lemma_pawn_step(s, e);
                    if rank_of(e) == 0 || rank_of(e) == 7 {
                        assert(m.flag().promotion() is Some);
                    } else {
                        assert(m.flag() == self.flag_for(s, kind, e));
                    }
                },
                _ => {
                    lemma_member_ops(
                        attack_set(color, kind, s as u64, self.occupancy()),
                        !friendly,
                        e,
                    );
                    lemma_attack_set(color, kind, s, e, self.occupancy());
                    assert(m.flag() == MoveFlag::Normal);
                },
            }
        }
    }

    /// A square the king may go to is a king's step away, or where the
    /// king castles to.
    proof fn lemma_king_step(self, sq: int, to: int)
        requires
            self.shaped(),
            0 <= sq < 64,
            member(self.king_targets(sq), to),
        ensures
            king_step(sq, to) || (sq == home_of(self.turn) + 4 && ((to == sq + 2
                && self.can_castle(true)) || (to == sq - 2 && self.can_castle(false)))),
    {
        let home = home_of(self.turn);
        let friendly = self.colors(self.turn);
        let attacked = self.attacks(self.enemy());
        let step = (king_pattern(sq as u64) & !friendly) & !attacked;
        let short: u64 = if sq == home + 4 && self.can_castle(true) {
            bit(home + 6)
        } else {
            0
        };
        let long: u64 = if sq == home + 4 && self.can_castle(false) {
            bit(home + 2)
        } else {
            0
        };
        lemma_member_ops(step, short | long, to);
        lemma_member_ops(short, long, to);
        lemma_member_ops(king_pattern(sq as u64) & !friendly, !attacked, to);
        lemma_member_ops(king_pattern(sq as u64), !friendly, to);
        lemma_member_ops(0, 0, to);
        lemma_member_bit(home + 6, to);
        lemma_member_bit(home + 2, to);
        lemma_patterns(sq, to);
    }

    /// A square a pawn may go to is one that the rules give it.
    proof fn lemma_pawn_step(self, sq: int, to: int)
        requires
            self.shaped(),
            0 <= sq < 64,
            self.holds(sq, Piece { color: self.turn, kind: PieceType::Pawn }),
            member(self.pawn_targets(sq), to),
        ensures
            ({
                let color = self.turn;
                let ahead = if color == PieceColor::White {
                    8int
                } else {
                    -8int
                };
                ||| (pawn_capture(color, sq, to) && self.holds_color(to, self.enemy()))
                ||| (to == sq + ahead && self.empty_at(to))
                ||| (to == sq + 2 * ahead && rank_of(sq) == (if color == PieceColor::White {
                    1int
                } else {
                    6int
                }) && self.empty_at(sq + ahead) && self.empty_at(to))
                ||| (pawn_capture(color, sq, to) && self.state().ep_square() == Some(to)
                    && self.empty_at(to) && self.holds(
                    passed_pawn_square(sq, to),
                    Piece { color: self.enemy(), kind: PieceType::Pawn },
                ))
            }),
    {
        let friendly = self.colors(self.turn);
        let enemies = self.colors(self.enemy());
        let pattern = attack_set(self.turn, PieceType::Pawn, sq as u64, 0);
        let passing: u64 = if self.can_pass(sq) {
            self.state().enpassant.0
        } else {
            0
        };
        let pushes = self.pawn_pushes(sq);
        lemma_member_ops(((pattern & !friendly) & enemies) | passing, pushes, to);
        lemma_member_ops((pattern & !friendly) & enemies, passing, to);
        lemma_member_ops(pattern & !friendly, enemies, to);
        lemma_member_ops(pattern, !friendly, to);
        lemma_member_ops(0, 0, to);
        lemma_patterns(sq, to);
        self.placement().lemma_sets(to);
        if self.can_pass(sq) {
            Self::lemma_one_square(self.state().enpassant);
            let ep = self.state().ep_square()->0;
            lemma_member_bit(ep, to);
            lemma_member_ops(pattern & !friendly, 0, ep);
            lemma_member_ops(pattern, !friendly, ep);
            lemma_patterns(sq, ep);
        }
        match self.turn {
            PieceColor::White => {
                if rank_of(sq) < 7 && self.empty_at(sq + 8) {
                    let dash: u64 = if rank_of(sq) == 1 && self.empty_at(sq + 16) {
                        bit(sq + 16)
                    } else {
                        0
                    };
                    lemma_member_ops(bit(sq + 8), dash, to);
                    lemma_member_bit(sq + 8, to);
                    if rank_of(sq) == 1 {
                        lemma_member_bit(sq + 16, to);
                    }
                }
            },
            PieceColor::Black => {
                if rank_of(sq) > 0 && self.empty_at(sq - 8) {
                    let dash: u64 = if rank_of(sq) == 6 && self.empty_at(sq - 16) {
                        bit(sq - 16)
                    } else {
                        0
                    };
                    lemma_member_ops(bit(sq - 8), dash, to);
                    lemma_member_bit(sq - 8, to);
                    if rank_of(sq) == 6 {
                        lemma_member_bit(sq - 16, to);
                    }
                }
            },
        }
    }
}

/// Every move in the list of a position follows the rules.
pub proof fn lemma_listed_follows_rules_of(pos: Position, i: int)
    requires
        pos.shaped(),
        pos.one_king(),
        pos.passing_rank(),
        0 <= i < pos.legal_moves().len(),
    ensures
        pos.follows_rules(pos.legal_moves()[i]),
{
    pos.lemma_listed_follows_rules(i);
}

} // verus!
