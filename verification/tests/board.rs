use therook::{
    Bitboard, Board, CheckState, Computed, Move, MoveFlag, Piece, PieceColor, PieceType,
};

const A1: u8 = 0;
const E1: u8 = 4;
const E2: u8 = 12;
const E4: u8 = 28;
const E5: u8 = 36;
const E7: u8 = 52;
const E8: u8 = 60;
const G1: u8 = 6;

#[test]
fn a_new_board_is_empty() {
    let computed = Computed::new();
    let board = Board::new(&computed);
    assert_eq!(board.turn, PieceColor::White);
    assert!(board.squares.iter().all(|square| square.is_none()));
    assert!(board.pieces.iter().all(|set| set.is_none()));
    assert!(board.colors.iter().all(|set| set.is_none()));
    assert!(board.states.is_empty());
}

#[test]
fn squares_are_set_and_cleared() {
    let computed = Computed::new();
    let mut board = Board::new(&computed);
    let rook = Piece::new(PieceColor::Black, PieceType::Rook);
    board.set_square(E4, rook);
    assert_eq!(board.squares[E4 as usize], Some(rook));
    assert_eq!(board.pieces[rook.get_pieces_index()], Bitboard::from_square(E4));
    assert_eq!(board.colors[1], Bitboard::from_square(E4));
    assert!(board.colors[0].is_none());
    board.set_square(A1, rook);
    assert_eq!(board.pieces[rook.get_pieces_index()].squares(), vec![A1, E4]);
    board.clear_square(E4, rook);
    assert_eq!(board.squares[E4 as usize], None);
    assert_eq!(board.pieces[rook.get_pieces_index()], Bitboard::from_square(A1));
    assert_eq!(board.colors[1], Bitboard::from_square(A1));
}

#[test]
fn derived_quantities_follow_the_placement() {
    let computed = Computed::new();
    let mut board = Board::from_fen("4k3/8/8/8/8/8/4R3/4K3 w - - 0 1", &computed).unwrap();
    assert_eq!(board.check_state[1], CheckState::Single(E2));
    assert_eq!(board.check_state[0], CheckState::NoCheck);
    assert_eq!(*board.get_state(), board.states[0]);
    // the rook attacks its file up to and through the king, and its rank
    let file_e: u64 = 0x1010_1010_1010_1010;
    let rook = (file_e | 0xFF00) & !(1u64 << E2);
    let king = 0x3828u64;
    assert_eq!(board.attacks[0], Bitboard::from(rook | king));
    assert_eq!(board.rays[0], Bitboard::from(file_e | 0xFF00));
    assert!(board.rays[1].is_none());

    let rook = Piece::new(PieceColor::White, PieceType::Rook);
    board.clear_square(E2, rook);
    board.update_attacks(PieceColor::White);
    board.update_rays(PieceColor::White);
    assert_eq!(board.check_state[1], CheckState::NoCheck);
    assert_eq!(board.attacks[0], Bitboard::from(0x3828u64));
    assert!(board.rays[0].is_none());
}

#[test]
fn pin_lines_run_from_the_pinner_to_the_king() {
    let computed = Computed::new();
    let mut board =
        Board::from_fen("4r2k/8/8/7b/8/4N3/4KB2/8 w - - 0 1", &computed).unwrap();
    // the knight is pinned by the rook; the bishop on h5 attacks the king outright
    assert_eq!(board.pin_lines[0], vec![Bitboard::from(0x1010_1010_1010_0000u64)]);
    assert!(board.pin_lines[1].is_empty());
    assert_eq!(board.check_state[0], CheckState::Single(39));

    let mut lines = vec![Bitboard::new()];
    let mut pinners = Bitboard::from_square(E8) | Bitboard::from_square(39);
    board.clear_pinners(&mut lines, &mut pinners, E2);
    assert!(pinners.is_none());
    assert_eq!(
        lines,
        vec![
            Bitboard::new(),
            Bitboard::from(0x0000_0080_4020_0000u64),
            Bitboard::from(0x1010_1010_1010_0000u64),
        ]
    );

    let knight = Piece::new(PieceColor::White, PieceType::Knight);
    board.clear_square(20, knight);
    board.update_pin_lines(PieceColor::White);
    assert!(board.pin_lines[0].is_empty());
}

#[test]
fn x_rays_see_through_one_blocker() {
    let computed = Computed::new();
    let occupancy = Bitboard::from_square(E1)
        | Bitboard::from_square(E4)
        | Bitboard::from_square(E7)
        | Bitboard::from_square(G1);
    let blockers = Bitboard::from_square(E4) | Bitboard::from_square(G1);
    assert_eq!(
        computed.xray_orthogonal_attacks(occupancy, blockers, E1),
        Bitboard::from_square(E5)
            | Bitboard::from_square(44)
            | Bitboard::from_square(E7)
            | Bitboard::from_square(7)
    );
    assert!(computed
        .xray_orthogonal_attacks(occupancy, Bitboard::new(), E1)
        .is_none());
    assert!(computed
        .xray_diagonal_attacks(occupancy, blockers, E1)
        .is_none());
    let diagonal = Bitboard::from_square(E1) | Bitboard::from_square(13) | Bitboard::from_square(31);
    assert_eq!(
        computed.xray_diagonal_attacks(diagonal, Bitboard::from_square(13), E1),
        Bitboard::from_square(22) | Bitboard::from_square(31)
    );
}

#[test]
fn only_moves_that_fit_the_position_are_accepted() {
    let computed = Computed::new();
    let mut board = Board::initial(&computed);
    let before = board.to_fen();
    for m in board.calculate_moves() {
        assert!(board.accepts(m));
    }
    for m in [
        Move::new(E4, E5, MoveFlag::Normal),
        Move::new(E2, E2, MoveFlag::Normal),
        Move::new(E7, E5, MoveFlag::PawnDash),
        Move::new(E1, E2, MoveFlag::Normal),
        Move::new(E2, E5, MoveFlag::PawnDash),
        Move::new(E1, G1, MoveFlag::Castle),
        Move::new(E2, 21, MoveFlag::EnPassant),
        Move::new(1, 18, MoveFlag::PromoteQueen),
    ] {
        assert!(!board.accepts(m));
        assert!(!board.try_make_move(m));
        assert_eq!(board.to_fen(), before);
    }
    assert!(board.try_make_move(Move::new(E2, E4, MoveFlag::PawnDash)));
    assert_eq!(
        board.to_fen(),
        "rnbqkbnr/pppppppp/8/8/4P3/8/PPPP1PPP/RNBQKBNR b KQkq e3 0 1"
    );

    let mut late = Board::from_fen("4k3/8/8/8/8/8/8/4K1N1 w - - 255 9", &computed).unwrap();
    assert!(late.accepts(Move::new(G1, 21, MoveFlag::Normal)));
    assert!(!late.has_room(Move::new(G1, 21, MoveFlag::Normal)));
    assert!(!late.try_make_move(Move::new(G1, 21, MoveFlag::Normal)));
}

#[test]
fn a_full_counter_stops_only_the_moves_that_raise_it() {
    let computed = Computed::new();
    let fen = "4k3/8/8/8/8/5n2/4P3/4K1N1 w - - 255 255";
    let mut board = Board::from_fen(fen, &computed).unwrap();
    // A quiet move of a piece would raise the full clock.
    let quiet = Move::new(G1, 23, MoveFlag::Normal);
    assert!(board.accepts(quiet) && !board.has_room(quiet));
    assert!(!board.try_make_move(quiet));
    assert_eq!(board.to_fen(), fen);
    // A capture sets the clock back, and White leaves the number of the
    // move as it is.
    let capture = Move::new(G1, 21, MoveFlag::Normal);
    assert!(board.has_room(capture));
    board.make_move(capture);
    assert_eq!(board.to_fen(), "4k3/8/8/8/8/5N2/4P3/4K3 b - - 0 255");
    // Black would raise the full number of the move.
    let reply = Move::new(E8, E7, MoveFlag::Normal);
    assert!(board.accepts(reply) && !board.has_room(reply));
    assert!(!board.try_make_move(reply));
    board.undo_move(capture);
    assert_eq!(board.to_fen(), fen);
    // So does a pawn move set the clock back.
    let dash = Move::new(E2, E4, MoveFlag::PawnDash);
    assert!(board.try_make_move(dash));
    assert_eq!(board.to_fen(), "4k3/8/8/8/4P3/5n2/8/4K1N1 b - e3 0 255");

    let mut black = Board::from_fen("4k3/4p3/8/8/8/8/8/4K3 b - - 255 7", &computed).unwrap();
    assert!(!black.try_make_move(Move::new(E8, 59, MoveFlag::Normal)));
    assert!(black.try_make_move(Move::new(E7, 44, MoveFlag::Normal)));
    assert_eq!(black.to_fen(), "4k3/8/4p3/8/8/8/8/4K3 w - - 0 8");
}

#[test]
fn the_clock_counts_moves_without_pawn_or_capture() {
    let computed = Computed::new();
    let mut board =
        Board::from_fen("4k3/8/8/8/8/2n5/4P3/1N2K3 w - - 7 3", &computed).unwrap();
    board.make_move(Move::new(E1, 3, MoveFlag::Normal));
    assert_eq!(board.to_fen(), "4k3/8/8/8/8/2n5/4P3/1N1K4 b - - 8 3");
    board.make_move(Move::new(E8, E7, MoveFlag::Normal));
    assert_eq!(board.to_fen(), "8/4k3/8/8/8/2n5/4P3/1N1K4 w - - 9 4");
    board.make_move(Move::new(1, 18, MoveFlag::Normal));
    assert_eq!(board.to_fen(), "8/4k3/8/8/8/2N5/4P3/3K4 b - - 0 4");
    board.make_move(Move::new(E7, E8, MoveFlag::Normal));
    board.make_move(Move::new(E2, 20, MoveFlag::Normal));
    assert_eq!(board.to_fen(), "4k3/8/8/8/8/2N1P3/8/3K4 b - - 0 5");
}

#[test]
fn only_the_last_move_is_taken_back() {
    let computed = Computed::new();
    let mut board = Board::initial(&computed);
    let first = Move::new(E2, E4, MoveFlag::PawnDash);
    let second = Move::new(E7, E5, MoveFlag::PawnDash);
    assert!(!board.can_undo(first));
    assert!(!board.try_undo_move(first));
    board.make_move(first);
    board.make_move(second);
    let after = board.to_fen();
    assert!(!board.can_undo(first));
    assert!(!board.try_undo_move(first));
    assert_eq!(board.to_fen(), after);
    assert!(board.can_undo(second));
    assert!(board.try_undo_move(second));
    assert!(board.try_undo_move(first));
    assert_eq!(
        board.to_fen(),
        "rnbqkbnr/pppppppp/8/8/8/8/PPPPPPPP/RNBQKBNR w KQkq - 0 1"
    );
    assert!(!board.try_undo_move(first));
}

#[test]
fn the_start_position_is_sound() {
    let computed = Computed::new();
    let board = Board::initial(&computed);
    assert!(board.is_sound());
    assert_eq!(board.king_square(PieceColor::White), Some(E1));
    assert_eq!(board.king_square(PieceColor::Black), Some(E8));
    assert_eq!(board.ep_square(), None);
}
