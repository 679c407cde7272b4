use crate::engine::bitboard::Bitboard;
use crate::engine::bitboard::bits::{
    lemma_members_done, lemma_members_step, lemma_squares_of, squares_of,
};
use crate::engine::board::Board;
use crate::engine::board::position::{CheckState, Position};
use crate::engine::piece::{Piece, PieceColor, PieceType};
use vstd::prelude::*;

verus! {

impl<'a> Board<'a> {
    /// Whether `other` differs from this board in derived quantities only.
    pub open spec fn same_placement(&self, other: &Board<'a>) -> bool {
        &&& self.same_core(other)
        &&& self@ == other@
    }

    /// Brings the lines of a side's sliders up to date.
    pub fn update_rays(&mut self, color: PieceColor)
        requires
            old(self).placement_ok(),
            old(self).computed.wf(),
        ensures
            final(self).same_placement(old(self)),
            final(self).rays@ == old(self).rays@.update(
                color.spec_index(),
                Bitboard(old(self)@.rays(color)),
            ),
            final(self).attacks == old(self).attacks,
            final(self).pin_lines == old(self).pin_lines,
            final(self).check_state == old(self).check_state,
    {
        let side = color.index();
        let ghost pos = self@;
        let ghost from = squares_of(self.colors[side as int].0);
        let ghost mut k: nat = 0;
        let mut rays = Bitboard::new();
        let mut rest = self.colors[side];
        proof {
            assert(from.subrange(0, from.len() as int) =~= from);
        }
        while rest.0 != 0
            invariant
                self.placement_ok(),
                self.computed.wf(),
                pos == self@,
                side == color.spec_index(),
                from == squares_of(self.colors[side as int].0),
                0 <= k <= from.len(),
                from.subrange(k as int, from.len() as int) == squares_of(rest.0),
                rays.0 == pos.placement().rays_over(from, k),
            decreases rest.0,
        {
            proof {
                lemma_members_step(from, k as int, rest.0);
                lemma_squares_of(self.colors[side as int].0);
                pos.placement().lemma_sets(from[k as int]);
            }
            match rest.next() {
                Some(square) => {
                    let index = square as usize;
                    let mut lines = Bitboard::new();
                    match self.squares[index] {
                        Some(piece) => {
                            let kind = piece.get_type();
                            let orthogonal = if kind.is_orthogonal_slider() {
                                self.computed.rays.ranks[index] | self.computed.rays.files[index]
                            } else {
                                Bitboard::new()
                            };
                            let diagonal = if kind.is_diagonal_slider() {
                                self.computed.rays.diagonals[index]
                                    | self.computed.rays.antidiags[index]
                            } else {
                                Bitboard::new()
                            };
                            lines = orthogonal | diagonal;
                        },
                        None => {},
                    }
                    rays = rays | lines;
                    proof {
                        k = k + 1;
                    }
                },
                None => {},
            }
        }
        proof {
            lemma_members_done(from, k as int);
        }
        self.rays[side] = rays;
    }

    /// Brings a side's attacked squares up to date, and with them the check
    /// state of the other side's king. Attacks are taken with that king off
    /// the board, so that the squares behind it along an attacker's line
    /// count as attacked.
    pub fn update_attacks(&mut self, color: PieceColor)
        requires
            old(self).placement_ok(),
            old(self).computed.wf(),
        ensures
            final(self).same_placement(old(self)),
            final(self).attacks@ == old(self).attacks@.update(
                color.spec_index(),
                Bitboard(old(self)@.attacks(color)),
            ),
            final(self).check_state@ == old(self).check_state@.update(
                color.spec_opposite().spec_index(),
                old(self)@.check_state(color.spec_opposite()),
            ),
            final(self).rays == old(self).rays,
            final(self).pin_lines == old(self).pin_lines,
    {
        let side = color.index();
        let enemy = color.opposite();
        let enemy_king = self.pieces[Piece::new(enemy, PieceType::King).get_pieces_index()];
        let occupancy = (self.colors[0] | self.colors[1]) ^ enemy_king;
        let ghost pos = self@;
        let ghost from = squares_of(self.colors[side as int].0);
        let ghost mut k: nat = 0;
        let mut attacks = Bitboard::new();
        let mut check_state = CheckState::NoCheck;
        let mut rest = self.colors[side];
        proof {
            assert(from.subrange(0, from.len() as int) =~= from);
        }
        while rest.0 != 0
            invariant
                self.placement_ok(),
                self.computed.wf(),
                pos == self@,
                side == color.spec_index(),
                from == squares_of(self.colors[side as int].0),
                0 <= k <= from.len(),
                from.subrange(k as int, from.len() as int) == squares_of(rest.0),
                attacks.0 == pos.placement().attacks_over(from, occupancy.0, k),
                check_state == pos.placement().checks_over(from, occupancy.0, enemy_king.0, k),
            decreases rest.0,
        {
            proof {
                lemma_members_step(from, k as int, rest.0);
                lemma_squares_of(self.colors[side as int].0);
                pos.placement().lemma_sets(from[k as int]);
            }
            match rest.next() {
                Some(square) => {
                    let mut reached = Bitboard::new();
                    match self.squares[square as usize] {
                        Some(piece) => {
                            reached =
                            self.computed.attacks.get(
                                piece.get_color(),
                                piece.get_type(),
                                square,
                                occupancy,
                            );
                        },
                        None => {},
                    }
                    attacks = attacks | reached;
                    if (reached & enemy_king).is_some() {
                        check_state =
                        match check_state {
                            CheckState::NoCheck => CheckState::Single(square),
                            _ => CheckState::Double,
                        };
                    }
                    proof {
                        k = k + 1;
                    }
                },
                None => {},
            }
        }
        proof {
            lemma_members_done(from, k as int);
        }
        self.check_state[enemy.index()] = check_state;
        self.attacks[side] = attacks;
    }

    /// Brings a side's pin lines up to date: for every slider of the other
    /// side that would attack the king if one piece of the side stepped
    /// away, the squares between the two and the slider's own square.
    pub fn update_pin_lines(&mut self, color: PieceColor)
        requires
            old(self).placement_ok(),
            old(self).computed.wf(),
        ensures
            final(self).same_placement(old(self)),
            final(self).pin_lines[color.spec_index()]@ == old(self)@.pin_lines(color),
            final(self).pin_lines[color.spec_opposite().spec_index()] == old(self).pin_lines[color.spec_opposite().spec_index()],
            final(self).rays == old(self).rays,
            final(self).attacks == old(self).attacks,
            final(self).check_state == old(self).check_state,
    {
        let mut pin_lines: Vec<Bitboard> = Vec::new();
        let enemy = color.opposite();
        let side = color.index();
        match self.pieces[Piece::new(color, PieceType::King).get_pieces_index()].to_square() {
            Ok(king_square) => {
                let friendlies = self.colors[side];
                let occupancy = self.colors[0] | self.colors[1];
                let queens = self.pieces[Piece::new(enemy, PieceType::Queen).get_pieces_index()];
                let rooks = self.pieces[Piece::new(enemy, PieceType::Rook).get_pieces_index()];
                let bishops = self.pieces[Piece::new(enemy, PieceType::Bishop).get_pieces_index()];

                let mut pinners = self.computed.xray_orthogonal_attacks(
                    occupancy,
                    friendlies,
                    king_square,
                );
                pinners = pinners & (queens | rooks);
                self.clear_pinners(&mut pin_lines, &mut pinners, king_square);

                let mut pinners = self.computed.xray_diagonal_attacks(
                    occupancy,
                    friendlies,
                    king_square,
                );
                pinners = pinners & (queens | bishops);
                self.clear_pinners(&mut pin_lines, &mut pinners, king_square);
                assert(pin_lines@ =~= self@.pin_lines(color));
            },
            Err(_) => {},
        }
        self.pin_lines[side] = pin_lines;
    }

    /// Takes the pinners out of `pinners` one by one, least square first,
    /// and appends the pin line of each to `pin_lines`.
    pub fn clear_pinners(
        &self,
        pin_lines: &mut Vec<Bitboard>,
        pinners: &mut Bitboard,
        king_square: u8,
    )
        requires
            self.computed.wf(),
            king_square < 64,
        ensures
            final(pin_lines)@ == old(pin_lines)@ + Position::lines_over(
                squares_of(old(pinners).0),
                king_square as int,
                squares_of(old(pinners).0).len(),
            ),
            final(pinners).0 == 0,
    {
        let ghost from = squares_of(pinners.0);
        let ghost before = pin_lines@;
        let ghost mut k: nat = 0;
        proof {
            assert(from.subrange(0, from.len() as int) =~= from);
            assert(pin_lines@ =~= before + Position::lines_over(from, king_square as int, 0));
        }
        while pinners.0 != 0
            invariant
                self.computed.wf(),
                king_square < 64,
                0 <= k <= from.len(),
                from.subrange(k as int, from.len() as int) == squares_of(pinners.0),
                pin_lines@ == before + Position::lines_over(from, king_square as int, k),
            decreases pinners.0,
        {
            proof {
                lemma_members_step(from, k as int, pinners.0);
            }
            match pinners.next() {
                Some(pinner) => {
                    let line = self.computed.betweens.get(pinner, king_square)
                        | Bitboard::from_square(pinner);
                    pin_lines.push(line);
                    proof {
                        k = k + 1;
                        assert(pin_lines@ =~= before + Position::lines_over(
                            from,
                            king_square as int,
                            k,
                        ));
                    }
                },
                None => {},
            }
        }
        proof {
            lemma_members_done(from, k as int);
        }
    }

    /// Brings everything derived from the placement up to date, for both
    /// sides.
    pub fn refresh(&mut self)
        requires
            old(self).placement_ok(),
            old(self).computed.wf(),
        ensures
            final(self).same_placement(old(self)),
            final(self).derived_ok(),
    {
        self.update_rays(PieceColor::White);
        self.update_attacks(PieceColor::White);
        self.update_pin_lines(PieceColor::White);
        self.update_rays(PieceColor::Black);
        self.update_attacks(PieceColor::Black);
        self.update_pin_lines(PieceColor::Black);
    }
}

} // verus!
