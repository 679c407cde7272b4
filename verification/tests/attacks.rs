use itertools::Itertools;
use therook::{Attacks, Bitboard, PieceColor, PieceType, Rays};

#[test]
fn attacks_kings() {
    let masks = Attacks::new();

    for index in 0..64u8 {
        let bitboard = Bitboard::from_square(index);
        let rank = index >> 3;
        let file = index & 7;

        let mut expected = Bitboard::new();

        if rank != 7 {
            expected = expected | (bitboard << 8u8);
        }

        if rank != 7 && file != 7 {
            expected = expected | (bitboard << 9u8);
        }

        if file != 7 {
            expected = expected | (bitboard << 1u8);
        }

        if rank != 0 && file != 7 {
            expected = expected | (bitboard >> 7u8);
        }

        if rank != 0 {
            expected = expected | (bitboard >> 8u8);
        }

        if rank != 0 && file != 0 {
            expected = expected | (bitboard >> 9u8);
        }

        if file != 0 {
            expected = expected | (bitboard >> 1u8);
        }

        if rank != 7 && file != 0 {
            expected = expected | (bitboard << 7u8);
        }

        assert_eq!(
            masks.get(PieceColor::White, PieceType::King, index, bitboard),
            expected
        );
    }
}

#[test]
fn attacks_knights() {
    let masks = Attacks::new();

    for index in 0..64u8 {
        let bitboard = Bitboard::from_square(index);
        let rank = index >> 3;
        let file = index & 7;

        let mut expected = Bitboard::new();

        if rank < 6 && file > 0 {
            expected = expected | (bitboard << 15u8);
        }

        if rank < 6 && file < 7 {
            expected = expected | (bitboard << 17u8);
        }

        if rank < 7 && file < 6 {
            expected = expected | (bitboard << 10u8);
        }

        if rank > 0 && file < 6 {
            expected = expected | (bitboard >> 6u8);
        }

        if rank > 1 && file < 7 {
            expected = expected | (bitboard >> 15u8);
        }

        if rank > 1 && file > 0 {
            expected = expected | (bitboard >> 17u8);
        }

        if rank > 0 && file > 1 {
            expected = expected | (bitboard >> 10u8);
        }

        if rank < 7 && file > 1 {
            expected = expected | (bitboard << 6u8);
        }

        assert_eq!(
            masks.get(PieceColor::White, PieceType::Knight, index, bitboard),
            expected
        );
    }
}

#[test]
fn attacks_white_pawns() {
    let masks = Attacks::new();

    for index in 8..55u8 {
        let bitboard = Bitboard::from_square(index);
        let file = index & 7;

        let mut expected = Bitboard::new();
        if file != 0 {
            expected = expected | (bitboard << 7u8);
        }

        if file != 7 {
            expected = expected | (bitboard << 9u8);
        }

        assert_eq!(
            masks.get(PieceColor::White, PieceType::Pawn, index, bitboard),
            expected
        );
    }
}

#[test]
fn attacks_black_pawns() {
    let masks = Attacks::new();

    for index in 8..55u8 {
        let bitboard = Bitboard::from_square(index);

        let mut expected = Bitboard::new();
        if index & 7 != 0 {
            expected = expected | (bitboard >> 9u8);
        }

        if index & 7 != 7 {
            expected = expected | (bitboard >> 7u8);
        }

        assert_eq!(
            masks.get(PieceColor::Black, PieceType::Pawn, index, bitboard),
            expected
        );
    }
}

#[test]
fn attacks_ranks_files_alone() {
    let masks = Attacks::new();
    let rays = Rays::new();

    for index in 0..64u8 {
        let bitboard = Bitboard::from_square(index);
        assert_eq!(
            (rays.ranks[index as usize] | rays.files[index as usize]) ^ bitboard,
            masks.get(PieceColor::White, PieceType::Rook, index, bitboard)
        );
    }
}

#[test]
fn attacks_ranks_files_with_pieces() {
    let masks = Attacks::new();

    for index in 0..64u8 {
        for rank_occupancy in 0..256u64 {
            if rank_occupancy & 1 << (7 - (index >> 3)) == 0 {
                continue;
            }

            for file_occupancy in 0..256u64 {
                if file_occupancy & 1 << (index & 7) == 0 {
                    continue;
                }

                let occupancy = Bitboard::from(rank_occupancy) << (index & 56)
                    | Bitboard::from(file_occupancy).clockwise() << (index & 7);

                assert_eq!(
                    masks.get(PieceColor::White, PieceType::Rook, index, occupancy),
                    attacks_walk_directions(vec![8, 1, -8, -1], index, occupancy)
                );
            }
        }
    }
}

#[test]
fn attacks_diagonals_antidiags_alone() {
    let masks = Attacks::new();
    let rays = Rays::new();

    for index in 0..64u8 {
        let bitboard = Bitboard::from_square(index);
        assert_eq!(
            (rays.diagonals[index as usize] | rays.antidiags[index as usize]) ^ bitboard,
            masks.get(PieceColor::White, PieceType::Bishop, index, bitboard)
        );
    }
}

#[test]
fn attacks_diagonals_antidiags_with_pieces() {
    let masks = Attacks::new();
    let rays = Rays::new();

    for index in 0..64u8 {
        let bitboard = Bitboard::from_square(index);

        let diagonal = rays.diagonals[index as usize];
        let diagonal_occupancies = (1..=diagonal.count())
            .flat_map(|l| diagonal.squares().into_iter().combinations(l))
            .map(|ts| {
                ts.iter()
                    .fold(Bitboard::new(), |acc, el| acc | Bitboard::from_square(*el))
            })
            .filter(|b| (*b & bitboard).is_some())
            .collect::<Vec<_>>();

        let antidiag = rays.antidiags[index as usize];
        let antidiag_occupancies = (1..=antidiag.count())
            .flat_map(|l| antidiag.squares().into_iter().combinations(l))
            .map(|ts| {
                ts.iter()
                    .fold(Bitboard::new(), |acc, el| acc | Bitboard::from_square(*el))
            })
            .filter(|b| (*b & bitboard).is_some())
            .collect::<Vec<_>>();

        for diagonal_occupancy in &diagonal_occupancies {
            for antidiag_occupancy in &antidiag_occupancies {
                let occupancy = (*diagonal_occupancy | *antidiag_occupancy) ^ bitboard;

                assert_eq!(
                    masks.get(PieceColor::White, PieceType::Bishop, index, occupancy),
                    attacks_walk_directions(vec![7, 9, -7, -9], index, occupancy),
                );
            }
        }
    }
}

fn attacks_walk_directions(directions: Vec<i8>, square: u8, occupancy: Bitboard) -> Bitboard {
    let mut expected = Bitboard::new();

    for direction in directions {
        let mut target_index = square as i8;
        let mut target_rank = target_index >> 3;
        let mut target_file = target_index & 7;

        while !attacks_will_leave_board(direction, target_rank, target_file) {
            target_index += direction;
            target_rank = target_index >> 3;
            target_file = target_index & 7;

            let target_bitboard = Bitboard::from_square(target_index as u8);

            expected = expected | target_bitboard;

            if (occupancy & target_bitboard).is_some() {
                break;
            }
        }
    }

    expected
}

fn attacks_will_leave_board(direction: i8, rank: i8, file: i8) -> bool {
    match direction {
        8 => rank == 7,
        9 => rank == 7 || file == 7,
        1 => file == 7,
        -7 => rank == 0 || file == 7,
        -8 => rank == 0,
        -9 => rank == 0 || file == 0,
        -1 => file == 0,
        7 => rank == 7 || file == 0,
        _ => unreachable!(),
    }
}
