use therook::{Bitboard, Board, CheckState, Computed, Move, MoveFlag, Piece, PieceType};

const D6: u8 = 43;
const E5: u8 = 36;
const F6: u8 = 45;

fn consistent(board: &Board) {
    assert!((board.colors[0] & board.colors[1]).is_none());
    for square in 0..64u8 {
        let holders: Vec<usize> = (0..12)
            .filter(|i| board.pieces[*i].has_square(square))
            .collect();
        match board.squares[square as usize] {
            Some(piece) => {
                assert_eq!(holders, vec![piece.get_pieces_index()]);
                assert!(board.colors[piece.get_color().index()].has_square(square));
                assert!(!board.colors[piece.get_color().opposite().index()].has_square(square));
            }
            None => {
                assert!(holders.is_empty());
                assert!(!(board.colors[0] | board.colors[1]).has_square(square));
            }
        }
    }
}

fn walk(board: &mut Board, depth: u8) {
    consistent(board);
    if depth == 0 {
        return;
    }
    for m in board.calculate_moves() {
        let before = board.clone();
        board.make_move(m);
        walk(board, depth - 1);
        board.undo_move(m);
        assert_eq!(board.turn, before.turn);
        assert_eq!(board.squares, before.squares);
        assert_eq!(board.pieces, before.pieces);
        assert_eq!(board.colors, before.colors);
        assert_eq!(board.rays, before.rays);
        assert_eq!(board.attacks, before.attacks);
        assert_eq!(board.pin_lines, before.pin_lines);
        assert_eq!(board.check_state, before.check_state);
        assert_eq!(board.states, before.states);
    }
}

#[test]
fn placement_stays_consistent_and_undo_restores_every_field() {
    let computed = Computed::new();
    for text in [
        "rnbqkbnr/pppppppp/8/8/8/8/PPPPPPPP/RNBQKBNR w KQkq - 0 1",
        "r3k2r/p1ppqpb1/bn2pnp1/3PN3/1p2P3/2N2Q1p/PPPBBPPP/R3K2R w KQkq - 0 1",
        "r3k2r/Pppp1ppp/1b3nbN/nP6/BBP1P3/q4N2/Pp1P2PP/R2Q1RK1 w kq - 0 1",
        "8/2p5/3p4/KP5r/1R3p1k/8/4P1P1/8 w - - 0 1",
    ] {
        let mut board = Board::from_fen(text, &computed).unwrap();
        walk(&mut board, 2);
    }
}

#[test]
fn a_pawn_pinned_on_a_diagonal_does_not_capture_en_passant_off_it() {
    let computed = Computed::new();
    let board = Board::from_fen("4k3/2b5/8/4Pp2/8/6K1/8/8 w - f6 0 1", &computed).unwrap();
    assert_eq!(board.pin_lines[0].len(), 1);
    assert!(board.pin_lines[0][0].has_square(E5));
    assert!(!board.pin_lines[0][0].has_square(F6));
    let moves = board.calculate_moves();
    assert!(moves.iter().all(|m| m.get_start() != E5));

    let free = Board::from_fen("4k3/8/8/4Pp2/8/6K1/8/8 w - f6 0 1", &computed).unwrap();
    assert!(free
        .calculate_moves()
        .contains(&Move::new(E5, F6, MoveFlag::EnPassant)));
}

#[test]
fn a_pinned_pawn_captures_en_passant_along_its_pin_line() {
    let computed = Computed::new();
    let board = Board::from_fen("4k3/2b5/8/3pP3/8/6K1/8/8 w - d6 0 1", &computed).unwrap();
    assert!(board.pin_lines[0][0].has_square(D6));
    let moves = board.calculate_moves();
    let pawn: Vec<&Move> = moves.iter().filter(|m| m.get_start() == E5).collect();
    assert_eq!(pawn, vec![&Move::new(E5, D6, MoveFlag::EnPassant)]);
}

#[test]
fn pinned_pieces_stay_on_their_lines() {
    let computed = Computed::new();
    let board = Board::from_fen("4r2k/8/8/7b/8/4N3/4KB2/8 w - - 0 1", &computed).unwrap();
    let king = Piece::new(board.turn, PieceType::King);
    for m in board.calculate_moves() {
        if board.squares[m.get_start() as usize] == Some(king) {
            continue;
        }
        for line in &board.pin_lines[0] {
            if line.has_square(m.get_start()) {
                assert!(line.has_square(m.get_end()));
            }
        }
    }
    assert_eq!(board.pin_lines[0], vec![Bitboard::from(0x1010_1010_1010_0000u64)]);
}

#[test]
fn in_double_check_only_the_king_moves() {
    let computed = Computed::new();
    for text in [
        "4k3/8/8/8/1b6/4r3/8/4K3 w - - 0 1",
        "4k3/8/1b6/4r3/8/4K3/r7/4n3 w - - 0 1",
        "R3k3/8/3N4/8/8/8/8/4K3 b - - 0 1",
    ] {
        let board = Board::from_fen(text, &computed).unwrap();
        let side = board.turn.index();
        assert_eq!(board.check_state[side], CheckState::Double);
        let king = board.king_square(board.turn).unwrap();
        let moves = board.calculate_moves();
        assert!(!moves.is_empty());
        assert!(moves.iter().all(|m| m.get_start() == king && m.get_flag() == MoveFlag::Normal));
    }
}

fn castles(text: &str) -> Vec<u8> {
    let computed = Computed::new();
    let board = Board::from_fen(text, &computed).unwrap();
    board
        .calculate_moves()
        .iter()
        .filter(|m| m.get_flag() == MoveFlag::Castle)
        .map(|m| m.get_end())
        .collect()
}

#[test]
fn castling_is_denied_without_the_right_or_across_an_attack() {
    assert_eq!(castles("r3k2r/8/8/8/8/8/8/R3K2R w KQkq - 0 1"), vec![2, 6]);
    assert_eq!(castles("r3k2r/8/8/8/8/8/8/R3K2R b KQkq - 0 1"), vec![58, 62]);
    assert_eq!(castles("r3k2r/8/8/8/8/8/8/R3K2R w - - 0 1"), vec![]);
    assert_eq!(castles("r3k2r/8/8/8/8/8/8/R3K2R w Kq - 0 1"), vec![6]);
    assert_eq!(castles("r3k2r/8/8/8/8/8/8/R3K2R b Kq - 0 1"), vec![58]);
    // the king is in check
    assert_eq!(castles("4k3/8/8/8/8/8/4r3/R3K2R w KQ - 0 1"), vec![]);
    // the square the king crosses is attacked
    assert_eq!(castles("4k3/8/8/8/8/8/5r2/R3K2R w KQ - 0 1"), vec![2]);
    assert_eq!(castles("4k3/8/8/8/8/8/3r4/R3K2R w KQ - 0 1"), vec![6]);
    // the square the king reaches is attacked
    assert_eq!(castles("4k3/8/8/8/8/8/6r1/R3K2R w KQ - 0 1"), vec![2]);
    assert_eq!(castles("4k3/8/8/8/8/8/2r5/R3K2R w KQ - 0 1"), vec![6]);
    // only the rook's way is attacked
    assert_eq!(castles("4k3/8/8/8/8/8/1r6/R3K2R w KQ - 0 1"), vec![2, 6]);
    // a piece stands in between
    assert_eq!(castles("4k3/8/8/8/8/8/8/RN2K1NR w KQ - 0 1"), vec![]);
    // the rook is gone, the right is not
    assert_eq!(castles("4k3/8/8/8/8/8/8/4K2R w KQ - 0 1"), vec![6]);
}

#[test]
fn passing_is_tried_with_both_pawns_off_the_board() {
    let computed = Computed::new();
    // on the king's rank the two pawns are all that shields it
    let rank = Board::from_fen("7k/8/8/K2Pp2r/8/8/8/8 w - e6 0 1", &computed).unwrap();
    assert!(!rank
        .calculate_moves()
        .contains(&Move::new(35, 44, MoveFlag::EnPassant)));
    // without the rook the capture is there
    let free = Board::from_fen("7k/8/8/K2Pp3/8/8/8/8 w - e6 0 1", &computed).unwrap();
    assert!(free
        .calculate_moves()
        .contains(&Move::new(35, 44, MoveFlag::EnPassant)));
    // a rook behind the passed pawn on its file counts as well
    let file = Board::from_fen("4r2k/8/8/3Pp3/8/8/8/4K3 w - e6 0 1", &computed).unwrap();
    assert!(!file
        .calculate_moves()
        .contains(&Move::new(35, 44, MoveFlag::EnPassant)));
}

fn stays_sound(board: &mut Board, depth: u8) {
    assert!(board.is_sound());
    if depth == 0 {
        return;
    }
    // the side that has just moved is never left in check
    assert_eq!(board.check_state[board.turn.opposite().index()], CheckState::NoCheck);
    for m in board.calculate_moves() {
        board.make_move(m);
        stays_sound(board, depth - 1);
        board.undo_move(m);
    }
}

#[test]
fn listed_moves_lead_from_sound_positions_to_sound_positions() {
    let computed = Computed::new();
    for text in [
        "rnbqkbnr/pppppppp/8/8/8/8/PPPPPPPP/RNBQKBNR w KQkq - 0 1",
        "r3k2r/p1ppqpb1/bn2pnp1/3PN3/1p2P3/2N2Q1p/PPPBBPPP/R3K2R w KQkq - 0 1",
        "8/2p5/3p4/KP5r/1R3p1k/8/4P1P1/8 w - - 0 1",
        "rnbq1k1r/pp1Pbppp/2p5/8/2B5/8/PPP1NnPP/RNBQK2R w KQ - 1 8",
        "rnbqkbnr/ppp1pppp/8/3pP3/8/8/PPPP1PPP/RNBQKBNR w KQkq d6 0 2",
    ] {
        let mut board = Board::from_fen(text, &computed).unwrap();
        stays_sound(&mut board, 2);
    }
}

#[test]
fn positions_that_no_game_reaches_are_not_sound() {
    let computed = Computed::new();
    for text in [
        // the side that has just moved is in check
        "4k3/4R3/8/8/8/8/8/4K3 w - - 0 1",
        // a side without a king
        "8/8/8/8/8/8/8/4K3 w - - 0 1",
        "4k3/8/8/8/8/8/8/8 w - - 0 1",
        // an en-passant square where no pawn has just passed
        "4k3/8/8/8/8/8/8/4K3 w - e3 0 1",
        "4k3/8/8/8/8/8/8/4K3 b - e6 0 1",
        // the passed pawn alone shields the king from a bishop
        "4k2b/8/8/3Pp3/8/8/8/K7 w - e6 0 1",
    ] {
        let board = Board::from_fen(text, &computed).unwrap();
        assert!(!board.is_sound(), "{text}");
    }
    let shielded_twice =
        Board::from_fen("4k2b/6n1/8/3Pp3/8/8/8/K7 w - e6 0 1", &computed).unwrap();
    assert!(shielded_twice.is_sound());
}
