use therook::{Board, Computed, Move, MoveFlag};

const A1: u8 = 0;
const A7: u8 = 48;
const A8: u8 = 56;
const B1: u8 = 1;
const B8: u8 = 57;
const C1: u8 = 2;
const C8: u8 = 58;
const D1: u8 = 3;
const D4: u8 = 27;
const D5: u8 = 35;
const D6: u8 = 43;
const D8: u8 = 59;
const E1: u8 = 4;
const E4: u8 = 28;
const E5: u8 = 36;
const E8: u8 = 60;
const G1: u8 = 6;
const G8: u8 = 62;
const H1: u8 = 7;
const H8: u8 = 63;

#[test]
fn resets() {
    let fen = "rnbqkbnr/ppp1pppp/8/3pP3/8/8/PPPP1PPP/RNBQKBNR w KQkq d6 0 1";
    let computed = Computed::new();
    let mut board = Board::from_fen(fen, &computed).unwrap();
    let m = Move::new(E5, D6, MoveFlag::EnPassant);

    board.make_move(m);

    board.undo_move(m);

    assert_eq!(board.to_fen(), fen);
}

#[test]
fn _undo_move_kingside() {
    let fen = "r3k2r/pppppppp/8/8/8/8/PPPPPPPP/R3K2R w KQkq - 0 1";
    let computed = Computed::new();
    let mut board = Board::from_fen(fen, &computed).unwrap();
    let white_move = Move::new(E1, G1, MoveFlag::Castle);
    let black_move = Move::new(E8, G8, MoveFlag::Castle);

    board.make_move(white_move);
    board.make_move(black_move);

    board.undo_move(black_move);
    board.undo_move(white_move);

    assert_eq!(board.to_fen(), fen);
}

#[test]
fn _undo_move_queenside() {
    let fen = "r3k2r/pppppppp/8/8/8/8/PPPPPPPP/R3K2R w KQkq - 0 1";
    let computed = Computed::new();
    let mut board = Board::from_fen(fen, &computed).unwrap();
    let white_move = Move::new(E1, C1, MoveFlag::Castle);
    let black_move = Move::new(E8, C8, MoveFlag::Castle);

    board.make_move(white_move);
    board.make_move(black_move);

    board.undo_move(black_move);
    board.undo_move(white_move);

    assert_eq!(board.to_fen(), fen);
}

#[test]
fn reset_castling_rights_when_moving_rooks() {
    let fen = "r3k2r/pppppppp/8/8/8/8/PPPPPPPP/R3K2R w KQkq - 0 1";
    let computed = Computed::new();
    let mut board = Board::from_fen(fen, &computed).unwrap();
    let h1_move = Move::new(H1, G1, MoveFlag::Normal);
    let h8_move = Move::new(H8, G8, MoveFlag::Normal);
    let a1_move = Move::new(A1, B1, MoveFlag::Normal);
    let a8_move = Move::new(A8, B8, MoveFlag::Normal);

    board.make_move(h1_move);
    board.make_move(h8_move);
    board.make_move(a1_move);
    board.make_move(a8_move);

    board.undo_move(a8_move);
    board.undo_move(a1_move);
    board.undo_move(h8_move);
    board.undo_move(h1_move);

    assert_eq!(board.to_fen(), fen);
}

#[test]
fn reset_castling_rights_when_moving_king() {
    let fen = "r3k2r/pppppppp/8/8/8/8/PPPPPPPP/R3K2R w KQkq - 0 1";
    let computed = Computed::new();
    let mut board = Board::from_fen(fen, &computed).unwrap();
    let white_move = Move::new(E1, D1, MoveFlag::Normal);
    let black_move = Move::new(E8, D8, MoveFlag::Normal);

    board.make_move(white_move);
    board.make_move(black_move);

    board.undo_move(black_move);
    board.undo_move(white_move);

    assert_eq!(board.to_fen(), fen);
}

#[test]
fn reset_castling_rights_after_rooks_captured() {
    let fen = "r3k2r/8/8/3BB3/3bb3/8/8/R3K2R w KQkq - 0 1";
    let computed = Computed::new();
    let mut board = Board::from_fen(fen, &computed).unwrap();
    let h8_capture = Move::new(E5, H8, MoveFlag::Normal);
    let h1_capture = Move::new(E4, H1, MoveFlag::Normal);
    let a8_capture = Move::new(D5, A8, MoveFlag::Normal);
    let a1_capture = Move::new(D4, A1, MoveFlag::Normal);

    board.make_move(h8_capture);
    board.make_move(h1_capture);
    board.make_move(a8_capture);
    board.make_move(a1_capture);

    board.undo_move(a1_capture);
    board.undo_move(a8_capture);
    board.undo_move(h1_capture);
    board.undo_move(h8_capture);

    assert_eq!(board.to_fen(), fen);
}

#[test]
fn _undo_move_queen() {
    let fen = "4k3/P7/8/8/8/8/8/4K3 w - - 0 1";
    let computed = Computed::new();
    let mut board = Board::from_fen(fen, &computed).unwrap();
    let m = Move::new(A7, A8, MoveFlag::PromoteQueen);

    board.make_move(m);

    board.undo_move(m);

    assert_eq!(board.to_fen(), fen);
}

#[test]
fn _undo_move_rook() {
    let fen = "4k3/P7/8/8/8/8/8/4K3 w - - 0 1";
    let computed = Computed::new();
    let mut board = Board::from_fen(fen, &computed).unwrap();
    let m = Move::new(A7, A8, MoveFlag::PromoteRook);

    board.make_move(m);

    board.undo_move(m);

    assert_eq!(board.to_fen(), fen);
}

#[test]
fn _undo_move_bishop() {
    let fen = "4k3/P7/8/8/8/8/8/4K3 w - - 0 1";
    let computed = Computed::new();
    let mut board = Board::from_fen(fen, &computed).unwrap();
    let m = Move::new(A7, A8, MoveFlag::PromoteBishop);

    board.make_move(m);

    board.undo_move(m);

    assert_eq!(board.to_fen(), fen);
}

#[test]
fn _undo_move_knight() {
    let fen = "4k3/P7/8/8/8/8/8/4K3 w - - 0 1";
    let computed = Computed::new();
    let mut board = Board::from_fen(fen, &computed).unwrap();
    let m = Move::new(A7, A8, MoveFlag::PromoteKnight);

    board.make_move(m);

    board.undo_move(m);

    assert_eq!(board.to_fen(), fen);
}

#[test]
fn _undo_move_queen_with_capture() {
    let fen = "1n2k3/P7/8/8/8/8/8/4K3 w - - 0 1";
    let computed = Computed::new();
    let mut board = Board::from_fen(fen, &computed).unwrap();
    let m = Move::new(A7, B8, MoveFlag::PromoteQueen);

    board.make_move(m);

    board.undo_move(m);

    assert_eq!(board.to_fen(), fen);
}

