use therook::{Attacks, Betweens, Bitboard, PieceColor, PieceType, Rays};

#[test]
fn betweens_orthogonals() {
    let attacks = Attacks::new();
    let betweens = Betweens::new();

    for square in 0..64u8 {
        let bitboard = Bitboard::from_square(square);

        let reachable = attacks.get(PieceColor::White, PieceType::Rook, square, bitboard);
        let beside = attacks.get(PieceColor::White, PieceType::King, square, bitboard);

        for _square in (reachable & !beside).squares() {
            if square >> 3 == _square >> 3 {
                // Same rank
                let mut obstructions = Bitboard::new();
                for i in (square.min(_square) + 1)..square.max(_square) {
                    obstructions = obstructions | (1u64 << i);
                }

                assert_eq!(betweens.get(square, _square), obstructions);
            } else {
                // Same file
                let mut obstructions = Bitboard::new();
                for i in ((square.min(_square) + 8)..square.max(_square)).step_by(8) {
                    obstructions = obstructions | (1u64 << i);
                }

                assert_eq!(betweens.get(square, _square), obstructions);
            }
        }
    }
}

#[test]
fn betweens_diagonals() {
    let rays = Rays::new();
    let attacks = Attacks::new();
    let betweens = Betweens::new();

    for square in 0..64u8 {
        let bitboard = Bitboard::from_square(square);

        let reachable = attacks.get(PieceColor::White, PieceType::Bishop, square, bitboard);
        let beside = attacks.get(PieceColor::White, PieceType::King, square, bitboard);

        for _square in (reachable & !beside).squares() {
            if rays.diagonals[square as usize] == rays.diagonals[_square as usize] {
                // Same diagonal
                let mut obstructions = Bitboard::new();
                for i in ((square.min(_square) + 9)..square.max(_square)).step_by(9) {
                    obstructions = obstructions | (1u64 << i);
                }

                assert_eq!(betweens.get(square, _square), obstructions);
            } else {
                // Same antidiag
                let mut obstructions = Bitboard::new();
                for i in ((square.min(_square) + 7)..square.max(_square)).step_by(7) {
                    obstructions = obstructions | (1u64 << i);
                }

                assert_eq!(betweens.get(square, _square), obstructions);
            }
        }
    }
}

#[test]
fn betweens_unreachable() {
    let attacks = Attacks::new();
    let betweens = Betweens::new();

    let empty = Bitboard::new();

    for square in 0..64u8 {
        let bitboard = Bitboard::from_square(square);

        let reachable = attacks.get(PieceColor::White, PieceType::Queen, square, bitboard);
        let beside = attacks.get(PieceColor::White, PieceType::King, square, bitboard);

        for _square in (!reachable | beside).squares() {
            assert_eq!(betweens.get(square, _square), empty);
        }

        for _square in (reachable & !beside).squares() {
            assert_ne!(betweens.get(square, _square), empty);
        }
    }
}
