use therook::{Board, Computed};

fn perft(fen: &str, depth: u8) -> u64 {
    let computed = Computed::new();
    let mut board = Board::from_fen(fen, &computed).unwrap();
    let before = board.clone();
    let nodes = board.perft_iter(1, depth);
    assert_eq!(board.to_fen(), before.to_fen());
    assert_eq!(board.squares, before.squares);
    assert_eq!(board.pieces, before.pieces);
    assert_eq!(board.colors, before.colors);
    assert_eq!(board.rays, before.rays);
    assert_eq!(board.attacks, before.attacks);
    assert_eq!(board.pin_lines, before.pin_lines);
    assert_eq!(board.check_state, before.check_state);
    assert_eq!(board.states, before.states);
    assert_eq!(board.turn, before.turn);
    nodes
}

const START: &str = "rnbqkbnr/pppppppp/8/8/8/8/PPPPPPPP/RNBQKBNR w KQkq - 0 1";
const KIWIPETE: &str = "r3k2r/p1ppqpb1/bn2pnp1/3PN3/1p2P3/2N2Q1p/PPPBBPPP/R3K2R w KQkq -";
const ENDGAME: &str = "8/2p5/3p4/KP5r/1R3p1k/8/4P1P1/8 w - - 0 1";
const POSITION_4: &str = "r3k2r/Pppp1ppp/1b3nbN/nP6/BBP1P3/q4N2/Pp1P2PP/R2Q1RK1 w kq - 0 1";
const POSITION_5: &str = "rnbq1k1r/pp1Pbppp/2p5/8/2B5/8/PPP1NnPP/RNBQK2R w KQ - 1 8";
const POSITION_6: &str =
    "r4rk1/1pp1qppp/p1np1n2/2b1p1B1/2B1P1b1/P1NP1N2/1PP1QPPP/R4RK1 w - - 0 10";

#[test]
fn no_ply_counts_the_position_itself() {
    assert_eq!(perft(START, 0), 1);
}

#[test]
fn perft_position_1() {
    assert_eq!(perft(START, 1), 20);
    assert_eq!(perft(START, 2), 400);
    assert_eq!(perft(START, 3), 8_902);
    assert_eq!(perft(START, 4), 197_281);
}

#[test]
fn perft_position_2() {
    assert_eq!(perft(KIWIPETE, 1), 48);
    assert_eq!(perft(KIWIPETE, 2), 2_039);
    assert_eq!(perft(KIWIPETE, 3), 97_862);
}

#[test]
fn perft_position_3() {
    assert_eq!(perft(ENDGAME, 1), 14);
    assert_eq!(perft(ENDGAME, 2), 191);
    assert_eq!(perft(ENDGAME, 3), 2_812);
    assert_eq!(perft(ENDGAME, 4), 43_238);
}

#[test]
fn perft_position_4() {
    assert_eq!(perft(POSITION_4, 1), 6);
    assert_eq!(perft(POSITION_4, 2), 264);
    assert_eq!(perft(POSITION_4, 3), 9_467);
}

#[test]
fn perft_position_5() {
    assert_eq!(perft(POSITION_5, 1), 44);
    assert_eq!(perft(POSITION_5, 2), 1_486);
    assert_eq!(perft(POSITION_5, 3), 62_379);
}

#[test]
fn perft_position_6() {
    assert_eq!(perft(POSITION_6, 1), 46);
    assert_eq!(perft(POSITION_6, 2), 2_079);
    assert_eq!(perft(POSITION_6, 3), 89_890);
}
