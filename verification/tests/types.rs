use therook::{
    BoardState, Castling, CastlingDirection, Computed, Move, MoveFlag, Piece, PieceColor,
    PieceType, SquareError, Team, Tile,
};

#[test]
fn teams() {
    assert_eq!(Team::White.code(), 'w');
    assert_eq!(Team::Black.code(), 'b');
    assert_eq!(Team::White.opposite(), Team::Black);
    assert_eq!(Team::Black.opposite(), Team::White);
}

#[test]
fn colors() {
    assert_eq!(PieceColor::White.opposite(), PieceColor::Black);
    assert_eq!(PieceColor::Black.opposite(), PieceColor::White);
    assert_eq!(PieceColor::White.get_home_row(), 0);
    assert_eq!(PieceColor::Black.get_home_row(), 7);
    assert_eq!(PieceColor::White.index(), 0);
    assert_eq!(PieceColor::Black.index(), 1);
    assert_eq!(PieceColor::White.letter(), 'w');
    assert_eq!(PieceColor::Black.letter(), 'b');
}

#[test]
fn pieces() {
    let kinds = [
        PieceType::King,
        PieceType::Queen,
        PieceType::Rook,
        PieceType::Bishop,
        PieceType::Knight,
        PieceType::Pawn,
    ];
    let mut index = 0;
    for color in [PieceColor::White, PieceColor::Black] {
        for kind in kinds {
            let piece = color | kind;
            assert_eq!(piece, Piece::new(color, kind));
            assert_eq!(piece.get_color(), color);
            assert_eq!(piece.get_type(), kind);
            assert_eq!(piece.get_pieces_index(), index);
            assert_eq!(piece.is_orthogonal_slider(), kind.is_orthogonal_slider());
            assert_eq!(piece.is_diagonal_slider(), kind.is_diagonal_slider());
            assert_eq!(piece.is_slider(), kind.is_slider());
            index += 1;
        }
    }
    assert!(PieceType::Queen.is_orthogonal_slider() && PieceType::Queen.is_diagonal_slider());
    assert!(PieceType::Rook.is_orthogonal_slider() && !PieceType::Rook.is_diagonal_slider());
    assert!(!PieceType::Bishop.is_orthogonal_slider() && PieceType::Bishop.is_diagonal_slider());
    assert!(!PieceType::King.is_slider());
    assert!(!PieceType::Knight.is_slider());
    assert!(!PieceType::Pawn.is_slider());
    assert_eq!(Piece::new(PieceColor::White, PieceType::King).get_castle_index(), 0);
    assert_eq!(Piece::new(PieceColor::White, PieceType::Queen).get_castle_index(), 1);
    assert_eq!(Piece::new(PieceColor::Black, PieceType::King).get_castle_index(), 2);
    assert_eq!(Piece::new(PieceColor::Black, PieceType::Queen).get_castle_index(), 3);
    assert_eq!(Piece::new(PieceColor::White, PieceType::King).figurine(), '\u{265A}');
    assert_eq!(Piece::new(PieceColor::Black, PieceType::Pawn).figurine(), '\u{2659}');
}

#[test]
fn moves_keep_their_parts() {
    let flags = [
        MoveFlag::Normal,
        MoveFlag::EnPassant,
        MoveFlag::Castle,
        MoveFlag::PawnDash,
        MoveFlag::PromoteQueen,
        MoveFlag::PromoteRook,
        MoveFlag::PromoteBishop,
        MoveFlag::PromoteKnight,
    ];
    for start in 0..64u8 {
        for end in 0..64u8 {
            for (code, flag) in flags.iter().enumerate() {
                let m = Move::new(start, end, *flag);
                assert_eq!(m.get_start(), start);
                assert_eq!(m.get_end(), end);
                assert_eq!(m.get_flag(), *flag);
                assert_eq!(flag.code(), code as u16);
                assert_eq!(MoveFlag::from_code(code as u16), *flag);
            }
        }
    }
    assert_eq!(
        Move::new(0, 1, MoveFlag::PromoteQueen).get_promote_piece_type(),
        Some(PieceType::Queen)
    );
    assert_eq!(
        Move::new(0, 1, MoveFlag::PromoteRook).get_promote_piece_type(),
        Some(PieceType::Rook)
    );
    assert_eq!(
        Move::new(0, 1, MoveFlag::PromoteBishop).get_promote_piece_type(),
        Some(PieceType::Bishop)
    );
    assert_eq!(
        Move::new(0, 1, MoveFlag::PromoteKnight).get_promote_piece_type(),
        Some(PieceType::Knight)
    );
    assert_eq!(Move::new(0, 1, MoveFlag::Castle).get_promote_piece_type(), None);
}

#[test]
fn moves_have_a_text() {
    assert_eq!(Move::new(12, 28, MoveFlag::PawnDash).to_text(), "e2e4");
    assert_eq!(Move::new(48, 56, MoveFlag::PromoteQueen).to_text(), "a7a8q");
    assert_eq!(Move::new(15, 7, MoveFlag::PromoteKnight).to_text(), "h2h1n");
    assert_eq!(Move::new(55, 62, MoveFlag::PromoteRook).to_text(), "h7g8r");
    assert_eq!(Move::new(9, 0, MoveFlag::PromoteBishop).to_text(), "b2a1b");
    assert_eq!(Move::format_square(0), "a1");
    assert_eq!(Move::format_square(63), "h8");
    assert_eq!(Move::format_square(26), "c4");
    assert_eq!(Move::format_promotion(None), "");
    assert_eq!(Move::format_promotion(Some(PieceType::Queen)), "q");
}

#[test]
fn castling_rights() {
    let all = [
        CastlingDirection::WhiteKing,
        CastlingDirection::WhiteQueen,
        CastlingDirection::BlackKing,
        CastlingDirection::BlackQueen,
    ];
    for direction in all {
        assert!(!Castling::new().can(direction));
        assert!(Castling::initial().can(direction));
        let one = Castling::new() | direction;
        for other in all {
            assert_eq!(one.can(other), other == direction);
        }
    }
    assert_eq!(u8::from(Castling::initial()), 15);
    assert_eq!(u8::from(Castling::new() | CastlingDirection::WhiteKing), 8);
    assert_eq!(
        CastlingDirection::from_piece(Piece::new(PieceColor::White, PieceType::King)),
        CastlingDirection::WhiteKing
    );
    assert_eq!(
        CastlingDirection::from_piece(Piece::new(PieceColor::White, PieceType::Queen)),
        CastlingDirection::WhiteQueen
    );
    assert_eq!(
        CastlingDirection::from_piece(Piece::new(PieceColor::Black, PieceType::King)),
        CastlingDirection::BlackKing
    );
    assert_eq!(
        CastlingDirection::from_piece(Piece::new(PieceColor::Black, PieceType::Queen)),
        CastlingDirection::BlackQueen
    );
}

#[test]
fn tiles_know_their_lines() {
    let computed = Computed::new();
    for square in 0..64u8 {
        let tile = Tile::from(square);
        assert_eq!(u8::from(tile), square);
        assert_eq!(tile.get_rank(), computed.rays.ranks[square as usize]);
        assert_eq!(tile.get_file(), computed.rays.files[square as usize]);
        assert_eq!(tile.get_diagonal(), computed.rays.diagonals[square as usize]);
        assert_eq!(tile.get_antidiag(), computed.rays.antidiags[square as usize]);
        for other in 0..64u8 {
            let (r, f) = ((square >> 3) as i8, (square & 7) as i8);
            let (s, g) = ((other >> 3) as i8, (other & 7) as i8);
            assert_eq!(tile.get_rank().has_square(other), r == s);
            assert_eq!(tile.get_file().has_square(other), f == g);
            assert_eq!(tile.get_diagonal().has_square(other), r - f == s - g);
            assert_eq!(tile.get_antidiag().has_square(other), r + f == s + g);
        }
        assert_eq!(Tile::from_bitboard(therook::Bitboard::from_square(square)), Ok(tile));
    }
    assert_eq!(Tile::from_bitboard(therook::Bitboard::new()), Err(SquareError::Empty));
    assert_eq!(
        Tile::from_bitboard(therook::Bitboard::from(3u64)),
        Err(SquareError::Multiple)
    );
}

#[test]
fn a_new_state_is_the_first() {
    let state = BoardState::new();
    assert_eq!(state.castling, [false; 4]);
    assert!(state.enpassant.is_none());
    assert_eq!(state.halfmove, 0);
    assert_eq!(state.fullmove, 1);
    assert_eq!(state.captured, None);
}

#[test]
fn tiles_make_sets() {
    let a = Tile::from(3);
    let b = Tile::from(12);
    assert_eq!((a | b).squares(), vec![3, 12]);
    assert_eq!((!a).count(), 63);
    assert!(!(!a).has_square(3));
    assert_eq!(a << 8, Tile::from(11));
    assert_eq!(b >> 8, Tile::from(4));
    let set = therook::Bitboard::from(0b1111u64);
    assert_eq!((set & a).squares(), vec![3]);
    assert_eq!((set | b).squares(), vec![0, 1, 2, 3, 12]);
    assert_eq!((set ^ a).squares(), vec![0, 1, 2]);
}

#[test]
fn pieces_have_tags() {
    assert_eq!(PieceType::King.code(), 16);
    assert_eq!(PieceType::Queen.code(), 12);
    assert_eq!(PieceType::Rook.code(), 8);
    assert_eq!(PieceType::Bishop.code(), 4);
    assert_eq!(PieceType::Knight.code(), 2);
    assert_eq!(PieceType::Pawn.code(), 1);
    for code in [16u8, 12, 8, 4, 2, 1] {
        assert_eq!(PieceType::from_code(code).code(), code);
    }
    assert_eq!(Piece::new(PieceColor::White, PieceType::Queen).code(), 12);
    assert_eq!(Piece::new(PieceColor::Black, PieceType::Queen).code(), 44);
    assert_eq!(Piece::new(PieceColor::Black, PieceType::Pawn).code(), 33);
    assert_eq!(PieceColor::from_index(0), PieceColor::White);
    assert_eq!(PieceColor::from_index(1), PieceColor::Black);
}
