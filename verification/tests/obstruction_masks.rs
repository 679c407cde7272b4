use therook::{AttackMasks, ObstructionMasks, Bitboard, PieceColor, PieceType, Rays, Tile};

#[test]
fn obstruction_masks_orthogonals() {
    let attacks = AttackMasks::new();
    let betweens = ObstructionMasks::new();

    for square in 0..64u8 {
        let bitboard = Bitboard::from_square(square);

        let reachable = attacks.get(PieceColor::White, PieceType::Rook, Tile::from(square), bitboard);
        let beside = attacks.get(PieceColor::White, PieceType::King, Tile::from(square), bitboard);

        for _square in (reachable & !beside).squares() {
            if square >> 3 == _square >> 3 {
                // Same rank
                let mut obstructions = Bitboard::new();
                for i in (square.min(_square) + 1)..square.max(_square) {
                    obstructions = obstructions | (1u64 << i);
                }

                assert_eq!(betweens.get(Tile::from(square), Tile::from(_square)), obstructions);
            } else {
                // Same file
                let mut obstructions = Bitboard::new();
                for i in ((square.min(_square) + 8)..square.max(_square)).step_by(8) {
                    obstructions = obstructions | (1u64 << i);
                }

                assert_eq!(betweens.get(Tile::from(square), Tile::from(_square)), obstructions);
            }
        }
    }
}

#[test]
fn obstruction_masks_diagonals() {
    let rays = Rays::new();
    let attacks = AttackMasks::new();
    let betweens = ObstructionMasks::new();

    for square in 0..64u8 {
        let bitboard = Bitboard::from_square(square);

        let reachable = attacks.get(PieceColor::White, PieceType::Bishop, Tile::from(square), bitboard);
        let beside = attacks.get(PieceColor::White, PieceType::King, Tile::from(square), bitboard);

        for _square in (reachable & !beside).squares() {
            if rays.diagonals[square as usize] == rays.diagonals[_square as usize] {
                // Same diagonal
                let mut obstructions = Bitboard::new();
                for i in ((square.min(_square) + 9)..square.max(_square)).step_by(9) {
                    obstructions = obstructions | (1u64 << i);
                }

                assert_eq!(betweens.get(Tile::from(square), Tile::from(_square)), obstructions);
            } else {
                // Same antidiag
                let mut obstructions = Bitboard::new();
                for i in ((square.min(_square) + 7)..square.max(_square)).step_by(7) {
                    obstructions = obstructions | (1u64 << i);
                }

                assert_eq!(betweens.get(Tile::from(square), Tile::from(_square)), obstructions);
            }
        }
    }
}

#[test]
fn obstruction_masks_unreachable() {
    let attacks = AttackMasks::new();
    let betweens = ObstructionMasks::new();

    let empty = Bitboard::new();

    for square in 0..64u8 {
        let bitboard = Bitboard::from_square(square);

        let reachable = attacks.get(PieceColor::White, PieceType::Queen, Tile::from(square), bitboard);
        let beside = attacks.get(PieceColor::White, PieceType::King, Tile::from(square), bitboard);

        for _square in (!reachable | beside).squares() {
            assert_eq!(betweens.get(Tile::from(square), Tile::from(_square)), empty);
        }

        for _square in (reachable & !beside).squares() {
            assert_ne!(betweens.get(Tile::from(square), Tile::from(_square)), empty);
        }
    }
}
