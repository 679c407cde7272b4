use therook::{Board, Computed, Move, MoveFlag};

const A1: u8 = 0;
const A7: u8 = 48;
const A8: u8 = 56;
const B1: u8 = 1;
const B8: u8 = 57;
const C1: u8 = 2;
const C8: u8 = 58;
const D1: u8 = 3;
const D4: u8 = 27;
const D5: u8 = 35;
const D6: u8 = 43;
const D7: u8 = 51;
const D8: u8 = 59;
const E1: u8 = 4;
const E2: u8 = 12;
const E4: u8 = 28;
const E5: u8 = 36;
const E8: u8 = 60;
const G1: u8 = 6;
const G8: u8 = 62;
const H1: u8 = 7;
const H8: u8 = 63;

#[test]
fn captured_pawn_disappears() {
    let computed = Computed::new();
    let mut board = Board::from_fen("rnbqkbnr/ppp1pppp/8/3pP3/8/8/PPPP1PPP/RNBQKBNR w KQkq d6 0 1", &computed).unwrap();

    board.make_move(Move::new(E5, D6, MoveFlag::EnPassant));
    assert_eq!(board.to_fen(), "rnbqkbnr/ppp1pppp/3P4/8/8/8/PPPP1PPP/RNBQKBNR b KQkq - 0 1");
}

#[test]
fn pawn_dash_sets_enpassant_square() {
    let computed = Computed::new();
    let mut board = Board::initial(&computed);

    board.make_move(Move::new(E2, E4, MoveFlag::PawnDash));
    assert_eq!(board.to_fen(), "rnbqkbnr/pppppppp/8/8/4P3/8/PPPP1PPP/RNBQKBNR b KQkq e3 0 1");

    board.make_move(Move::new(D7, D5, MoveFlag::PawnDash));
    assert_eq!(board.to_fen(), "rnbqkbnr/ppp1pppp/8/3p4/4P3/8/PPPP1PPP/RNBQKBNR w KQkq d6 0 2");
}

#[test]
fn move_after_enpassant_resets_enpassant_square() {
    let computed = Computed::new();
    let mut board = Board::initial(&computed);

    board.make_move(Move::new(E2, E4, MoveFlag::PawnDash));
    assert_eq!(board.to_fen(), "rnbqkbnr/pppppppp/8/8/4P3/8/PPPP1PPP/RNBQKBNR b KQkq e3 0 1");

    board.make_move(Move::new(D7, D6, MoveFlag::Normal));
    assert_eq!(board.to_fen(), "rnbqkbnr/ppp1pppp/3p4/8/4P3/8/PPPP1PPP/RNBQKBNR w KQkq - 0 2");
}

#[test]
fn _make_move_kingside() {
    let computed = Computed::new();
    let mut board = Board::from_fen("r3k2r/pppppppp/8/8/8/8/PPPPPPPP/R3K2R w KQkq - 0 1", &computed).unwrap();

    board.make_move(Move::new(E1, G1, MoveFlag::Castle));
    assert_eq!(board.to_fen(), "r3k2r/pppppppp/8/8/8/8/PPPPPPPP/R4RK1 b kq - 1 1");

    board.make_move(Move::new(E8, G8, MoveFlag::Castle));
    assert_eq!(board.to_fen(), "r4rk1/pppppppp/8/8/8/8/PPPPPPPP/R4RK1 w - - 2 2");
}

#[test]
fn _make_move_queenside() {
    let computed = Computed::new();
    let mut board = Board::from_fen("r3k2r/pppppppp/8/8/8/8/PPPPPPPP/R3K2R w KQkq - 0 1", &computed).unwrap();

    board.make_move(Move::new(E1, C1, MoveFlag::Castle));
    assert_eq!(board.to_fen(), "r3k2r/pppppppp/8/8/8/8/PPPPPPPP/2KR3R b kq - 1 1");

    board.make_move(Move::new(E8, C8, MoveFlag::Castle));
    assert_eq!(board.to_fen(), "2kr3r/pppppppp/8/8/8/8/PPPPPPPP/2KR3R w - - 2 2");
}

#[test]
fn moving_rook_loses_rights() {
    let computed = Computed::new();
    let mut board = Board::from_fen("r3k2r/pppppppp/8/8/8/8/PPPPPPPP/R3K2R w KQkq - 0 1", &computed).unwrap();

    board.make_move(Move::new(H1, G1, MoveFlag::Normal));
    assert_eq!(board.to_fen(), "r3k2r/pppppppp/8/8/8/8/PPPPPPPP/R3K1R1 b Qkq - 1 1");

    board.make_move(Move::new(H8, G8, MoveFlag::Normal));
    assert_eq!(board.to_fen(), "r3k1r1/pppppppp/8/8/8/8/PPPPPPPP/R3K1R1 w Qq - 2 2");

    board.make_move(Move::new(A1, B1, MoveFlag::Normal));
    assert_eq!(board.to_fen(), "r3k1r1/pppppppp/8/8/8/8/PPPPPPPP/1R2K1R1 b q - 3 2");

    board.make_move(Move::new(A8, B8, MoveFlag::Normal));
    assert_eq!(board.to_fen(), "1r2k1r1/pppppppp/8/8/8/8/PPPPPPPP/1R2K1R1 w - - 4 3");
}

#[test]
fn moving_king_loses_rights() {
    let computed = Computed::new();
    let mut board = Board::from_fen("r3k2r/pppppppp/8/8/8/8/PPPPPPPP/R3K2R w KQkq - 0 1", &computed).unwrap();

    board.make_move(Move::new(E1, D1, MoveFlag::Normal));
    assert_eq!(board.to_fen(), "r3k2r/pppppppp/8/8/8/8/PPPPPPPP/R2K3R b kq - 1 1");

    board.make_move(Move::new(E8, D8, MoveFlag::Normal));
    assert_eq!(board.to_fen(), "r2k3r/pppppppp/8/8/8/8/PPPPPPPP/R2K3R w - - 2 2");
}

#[test]
fn capturing_rook_revokes_rights() {
    let computed = Computed::new();
    let mut board =
        Board::from_fen("r3k2r/8/8/3BB3/3bb3/8/8/R3K2R w KQkq - 0 1", &computed).unwrap();

    board.make_move(Move::new(E5, H8, MoveFlag::Normal));
    assert_eq!(board.to_fen(), "r3k2B/8/8/3B4/3bb3/8/8/R3K2R b KQq - 0 1");

    board.make_move(Move::new(E4, H1, MoveFlag::Normal));
    assert_eq!(board.to_fen(), "r3k2B/8/8/3B4/3b4/8/8/R3K2b w Qq - 0 2");

    board.make_move(Move::new(D5, A8, MoveFlag::Normal));
    assert_eq!(board.to_fen(), "B3k2B/8/8/8/3b4/8/8/R3K2b b Q - 0 2");

    board.make_move(Move::new(D4, A1, MoveFlag::Normal));
    assert_eq!(board.to_fen(), "B3k2B/8/8/8/8/8/8/b3K2b w - - 0 3");
}

#[test]
fn _make_move_queen() {
    let computed = Computed::new();
    let mut board = Board::from_fen("4k3/P7/8/8/8/8/8/4K3 w - - 0 1", &computed).unwrap();

    board.make_move(Move::new(A7, A8, MoveFlag::PromoteQueen));
    assert_eq!(board.to_fen(), "Q3k3/8/8/8/8/8/8/4K3 b - - 0 1");
}

#[test]
fn _make_move_rook() {
    let computed = Computed::new();
    let mut board = Board::from_fen("4k3/P7/8/8/8/8/8/4K3 w - - 0 1", &computed).unwrap();

    board.make_move(Move::new(A7, A8, MoveFlag::PromoteRook));
    assert_eq!(board.to_fen(), "R3k3/8/8/8/8/8/8/4K3 b - - 0 1");
}

#[test]
fn _make_move_bishop() {
    let computed = Computed::new();
    let mut board = Board::from_fen("4k3/P7/8/8/8/8/8/4K3 w - - 0 1", &computed).unwrap();

    board.make_move(Move::new(A7, A8, MoveFlag::PromoteBishop));
    assert_eq!(board.to_fen(), "B3k3/8/8/8/8/8/8/4K3 b - - 0 1");
}

#[test]
fn _make_move_knight() {
    let computed = Computed::new();
    let mut board = Board::from_fen("4k3/P7/8/8/8/8/8/4K3 w - - 0 1", &computed).unwrap();

    board.make_move(Move::new(A7, A8, MoveFlag::PromoteKnight));
    assert_eq!(board.to_fen(), "N3k3/8/8/8/8/8/8/4K3 b - - 0 1");
}

#[test]
fn _make_move_queen_with_capture() {
    let computed = Computed::new();
    let mut board = Board::from_fen("1n2k3/P7/8/8/8/8/8/4K3 w - - 0 1", &computed).unwrap();

    board.make_move(Move::new(A7, B8, MoveFlag::PromoteQueen));
    assert_eq!(board.to_fen(), "1Q2k3/8/8/8/8/8/8/4K3 b - - 0 1");
}

