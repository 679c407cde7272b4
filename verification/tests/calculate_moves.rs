use therook::{Board, CheckState, Computed, Move, MoveFlag};

const A2: u8 = 8;
const A7: u8 = 48;
const C3: u8 = 18;
const D1: u8 = 3;
const D6: u8 = 43;
const E1: u8 = 4;
const E3: u8 = 20;
const E5: u8 = 36;
const F1: u8 = 5;
const F2: u8 = 13;
const F4: u8 = 29;

#[test]
fn double_check() {
    let computed = Computed::new();
    let mut board = Board::from_fen("4k3/8/8/8/1b6/4r3/8/4K3 w - - 0 1", &computed).unwrap();
    assert_eq!(board.check_state[0], CheckState::Double);
    board.check_state[0] = CheckState::Double;

    assert_eq!(
        board.calculate_moves(),
        vec![
            Move::new(E1, D1, MoveFlag::Normal),
            Move::new(E1, F1, MoveFlag::Normal),
            Move::new(E1, F2, MoveFlag::Normal),
        ]
    );
}

#[test]
fn double_check_forced() {
    let computed = Computed::new();
    let mut board = Board::from_fen("4k3/8/1b6/4r3/8/4K3/r7/4n3 w - - 0 1", &computed).unwrap();
    assert_eq!(board.check_state[0], CheckState::Double);
    board.check_state[0] = CheckState::Double;

    assert_eq!(
        board.calculate_moves(),
        vec![Move::new(E3, F4, MoveFlag::Normal)]
    );
}

#[test]
fn _calculate_moves_allowed() {
    let computed = Computed::new();
    let board = Board::from_fen("4k3/8/8/3pP3/4K3/8/8/8 w - d6 0 1", &computed).unwrap();
    let moves = board.calculate_moves();

    assert_eq!(
        moves.iter().find(|m| m.get_flag() == MoveFlag::EnPassant),
        Some(&Move::new(E5, D6, MoveFlag::EnPassant))
    );

    let board = Board::from_fen("r3k2r/8/8/8/8/8/8/R3K2R w KQkq - 0 1", &computed).unwrap();
    let moves = board.calculate_moves();

    assert_eq!(
        moves
            .iter()
            .filter(|m| m.get_flag() == MoveFlag::Castle)
            .count(),
        2
    );
}

#[test]
fn disallowed_when_orthogonal_pinned() {
    let computed = Computed::new();
    let board = Board::from_fen("4k3/8/8/2rpPK2/8/8/8/8 w - d6 0 1", &computed).unwrap();
    let moves = board.calculate_moves();

    assert_eq!(
        moves.iter().find(|m| m.get_start() == E5
            && m.get_end() == D6
            && m.get_flag() == MoveFlag::EnPassant),
        None
    );
}

#[test]
fn disallowed_when_diagonal_pinned() {
    let computed = Computed::new();
    let board = Board::from_fen("4k3/8/2b5/3pP3/4K3/8/8/8 w - - 0 1", &computed).unwrap();
    let moves = board.calculate_moves();

    assert_eq!(
        moves.iter().find(|m| m.get_start() == E5
            && m.get_end() == D6
            && m.get_flag() == MoveFlag::EnPassant),
        None
    );
}

#[test]
fn disallowed_when_both_pinned() {
    let computed = Computed::new();
    let board = Board::from_fen("8/6bb/8/8/R1pP2k1/4P3/P7/K7 b - d3 0 1", &computed).unwrap();
    let moves = board.calculate_moves();

    assert_eq!(
        moves.iter().find(|m| m.get_start() == E5
            && m.get_end() == D6
            && m.get_flag() == MoveFlag::EnPassant),
        None
    );
}

#[test]
fn allowed_when_file_b_attacked() {
    let computed = Computed::new();
    let board = Board::from_fen("4k3/8/8/8/4b3/8/8/R3K2R w KQ - 0 1", &computed).unwrap();
    let moves = board.calculate_moves();

    assert_eq!(
        moves
            .iter()
            .filter(|m| m.get_flag() == MoveFlag::Castle)
            .count(),
        2
    );
}

#[test]
fn disallowed_when_king_checked() {
    let computed = Computed::new();
    let mut board = Board::from_fen("4k3/8/8/8/8/2b5/8/R3K2R w KQ - 0 1", &computed).unwrap();
    assert_eq!(board.check_state[0], CheckState::Single(C3));
    board.check_state[0] = CheckState::Single(C3);

    let moves = board.calculate_moves();

    assert_eq!(
        moves
            .iter()
            .filter(|m| m.get_flag() == MoveFlag::Castle)
            .count(),
        0
    );
}

#[test]
fn disallowed_when_target_square_checked() {
    let computed = Computed::new();
    let board = Board::from_fen("4k3/8/8/8/8/4b3/8/R3K2R w KQ - 0 1", &computed).unwrap();
    let moves = board.calculate_moves();

    assert_eq!(
        moves
            .iter()
            .filter(|m| m.get_flag() == MoveFlag::Castle)
            .count(),
        0
    );

    let board = Board::from_fen("4k3/8/8/8/8/8/4b3/R3K2R w KQ - 0 1", &computed).unwrap();
    let moves = board.calculate_moves();

    assert_eq!(
        moves
            .iter()
            .filter(|m| m.get_flag() == MoveFlag::Castle)
            .count(),
        0
    );
}

#[test]
fn white() {
    let computed = Computed::new();
    let board = Board::from_fen("4k3/P7/8/8/8/8/8/4K3 w - - 0 1", &computed).unwrap();
    let moves = board.calculate_moves();

    assert_eq!(moves.iter().filter(|m| m.get_start() == A7).count(), 4);
}

#[test]
fn black() {
    let computed = Computed::new();
    let board = Board::from_fen("4k3/8/8/8/8/8/p7/4K3 b - - 0 1", &computed).unwrap();
    let moves = board.calculate_moves();

    assert_eq!(moves.iter().filter(|m| m.get_start() == A2).count(), 4);
}
