use therook::{Board, Computed, FenError, FenSection, ParsedFen, PieceColor};

const START: &str = "rnbqkbnr/pppppppp/8/8/8/8/PPPPPPPP/RNBQKBNR w KQkq - 0 1";

fn error_of(text: &str) -> FenError {
    let computed = Computed::new();
    match Board::from_fen(text, &computed) {
        Ok(_) => panic!("the text was read: {text}"),
        Err(e) => e,
    }
}

fn round_trip(text: &str) -> String {
    let computed = Computed::new();
    Board::from_fen(text, &computed).unwrap().to_fen()
}

#[test]
fn initial_is_the_start_position() {
    let computed = Computed::new();
    let board = Board::initial(&computed);
    assert_eq!(board.to_fen(), START);
    let read = Board::from_fen(START, &computed).unwrap();
    assert_eq!(read.squares, board.squares);
    assert_eq!(read.pieces, board.pieces);
    assert_eq!(read.colors, board.colors);
    assert_eq!(read.attacks, board.attacks);
    assert_eq!(read.states, board.states);
}

#[test]
fn written_text_reads_back() {
    for text in [
        START,
        "r3k2r/p1ppqpb1/bn2pnp1/3PN3/1p2P3/2N2Q1p/PPPBBPPP/R3K2R w KQkq - 0 1",
        "8/2p5/3p4/KP5r/1R3p1k/8/4P1P1/8 w - - 0 1",
        "rnbq1k1r/pp1Pbppp/2p5/8/2B5/8/PPP1NnPP/RNBQK2R w KQ - 1 8",
        "rnbqkbnr/ppp1pppp/8/3pP3/8/8/PPPP1PPP/RNBQKBNR w KQkq d6 0 2",
        "4k3/8/8/8/8/8/8/4K3 b Qk - 255 200",
        "8/8/8/8/8/8/8/8 w - - 100 10",
    ] {
        assert_eq!(round_trip(text), text);
    }
}

#[test]
fn reading_twice_changes_nothing() {
    for text in [
        "4k3/8/8/8/8/8/8/4K3",
        "4k3/8/8/8/8/8/8/4K3 b",
        "4k3/8/8/8/8/8/8/4K3 b qQkK",
        "4k3/8/8/8/8/8/8/4K3 w KK e3",
        "4k3/8/8/8/8/8/8/4K3 w - - 007",
        "4k3/8/8/8/8/8/8/4K3 w - - 7 0012",
    ] {
        let once = round_trip(text);
        assert_eq!(round_trip(&once), once);
    }
    assert_eq!(round_trip("4k3/8/8/8/8/8/8/4K3"), "4k3/8/8/8/8/8/8/4K3 w - - 0 1");
    assert_eq!(round_trip("4k3/8/8/8/8/8/8/4K3 b qQkK"), "4k3/8/8/8/8/8/8/4K3 b KQkq - 0 1");
    assert_eq!(round_trip("4k3/8/8/8/8/8/8/4K3 w - - 007 0012"), "4k3/8/8/8/8/8/8/4K3 w - - 7 12");
}

#[test]
fn fields_left_out_have_their_first_values() {
    let parsed = ParsedFen::parse("r3k2r/p1ppqpb1/bn2pnp1/3PN3/1p2P3/2N2Q1p/PPPBBPPP/R3K2R w KQkq -").unwrap();
    assert_eq!(parsed.turn, PieceColor::White);
    assert_eq!(parsed.castling, [true; 4]);
    assert_eq!(parsed.enpassant, None);
    assert_eq!(parsed.halfmove, 0);
    assert_eq!(parsed.fullmove, 1);
    let parsed = ParsedFen::parse("4k3/8/8/8/8/8/8/4K3 b - h6 12 34").unwrap();
    assert_eq!(parsed.turn, PieceColor::Black);
    assert_eq!(parsed.castling, [false; 4]);
    assert_eq!(parsed.enpassant, Some(47));
    assert_eq!(parsed.halfmove, 12);
    assert_eq!(parsed.fullmove, 34);
}

#[test]
fn wrong_square_count_in_a_rank() {
    assert_eq!(error_of("9/8/8/8/8/8/8/8 w - - 0 1"), FenError::RankOverflow(7));
    assert_eq!(error_of("8/4k4/8/8/8/8/8/8 w - - 0 1"), FenError::RankOverflow(6));
    assert_eq!(error_of("8/8/8/8/8/8/8/7KK w - - 0 1"), FenError::RankOverflow(0));
    assert_eq!(error_of("8/7/8/8/8/8/8/8 w - - 0 1"), FenError::RankIncomplete(6));
    assert_eq!(error_of("8/8/8/8/8/8/8/8/8 w - - 0 1"), FenError::TooManyRanks);
    assert_eq!(error_of("8/8/8/8/8/8/8 w - - 0 1"), FenError::PlacementIncomplete);
    assert_eq!(error_of("8/8/8/8/8/8/8/7 w - - 0 1"), FenError::PlacementIncomplete);
    assert_eq!(error_of(""), FenError::PlacementIncomplete);
}

#[test]
fn duplicate_king() {
    assert_eq!(
        error_of("4k3/8/8/8/8/8/8/3KK3 w - - 0 1"),
        FenError::DuplicateKing(PieceColor::White)
    );
    assert_eq!(
        error_of("4kk2/8/8/8/8/8/8/4K3 w - - 0 1"),
        FenError::DuplicateKing(PieceColor::Black)
    );
}

#[test]
fn unknown_piece_letter() {
    assert_eq!(error_of("4k3/8/8/8/8/8/8/4X3 w - - 0 1"), FenError::UnknownPiece('X'));
    assert_eq!(error_of("4k3/8/8/8/8/8/8/4K3\n"), FenError::UnknownPiece('\n'));
    assert_eq!(error_of(" 4k3/8/8/8/8/8/8/4K3"), FenError::PlacementIncomplete);
}

#[test]
fn missing_field() {
    assert_eq!(
        error_of("4k3/8/8/8/8/8/8/4K3 "),
        FenError::Missing(FenSection::ActiveColor)
    );
    assert_eq!(
        error_of("4k3/8/8/8/8/8/8/4K3 w  - 0 1"),
        FenError::Missing(FenSection::CastlingRights)
    );
    assert_eq!(
        error_of("4k3/8/8/8/8/8/8/4K3 w - "),
        FenError::Missing(FenSection::PossibleEnPassantTargets)
    );
    assert_eq!(
        error_of("4k3/8/8/8/8/8/8/4K3 w - -  1"),
        FenError::Missing(FenSection::HalfMoveClock)
    );
    assert_eq!(
        error_of("4k3/8/8/8/8/8/8/4K3 w - - 0 "),
        FenError::Missing(FenSection::FullMoveNumber)
    );
}

#[test]
fn malformed_field() {
    assert_eq!(
        error_of("4k3/8/8/8/8/8/8/4K3 x - - 0 1"),
        FenError::Malformed(FenSection::ActiveColor)
    );
    assert_eq!(
        error_of("4k3/8/8/8/8/8/8/4K3 wb - - 0 1"),
        FenError::Malformed(FenSection::ActiveColor)
    );
    assert_eq!(
        error_of("4k3/8/8/8/8/8/8/4K3 w KQx - 0 1"),
        FenError::Malformed(FenSection::CastlingRights)
    );
    assert_eq!(
        error_of("4k3/8/8/8/8/8/8/4K3 w K- - 0 1"),
        FenError::Malformed(FenSection::CastlingRights)
    );
    assert_eq!(
        error_of("4k3/8/8/8/8/8/8/4K3 w - - x 1"),
        FenError::Malformed(FenSection::HalfMoveClock)
    );
    assert_eq!(
        error_of("4k3/8/8/8/8/8/8/4K3 w - - 256 1"),
        FenError::Malformed(FenSection::HalfMoveClock)
    );
    assert_eq!(
        error_of("4k3/8/8/8/8/8/8/4K3 w - - 0 1x"),
        FenError::Malformed(FenSection::FullMoveNumber)
    );
    assert_eq!(
        error_of("4k3/8/8/8/8/8/8/4K3 w - - 0 99999999999999999999"),
        FenError::Malformed(FenSection::FullMoveNumber)
    );
}

#[test]
fn out_of_range_en_passant_square() {
    for text in [
        "4k3/8/8/8/8/8/8/4K3 w - i3 0 1",
        "4k3/8/8/8/8/8/8/4K3 w - a9 0 1",
        "4k3/8/8/8/8/8/8/4K3 w - a0 0 1",
        "4k3/8/8/8/8/8/8/4K3 w - e 0 1",
        "4k3/8/8/8/8/8/8/4K3 w - e33 0 1",
        "4k3/8/8/8/8/8/8/4K3 w - E3 0 1",
    ] {
        assert_eq!(
            error_of(text),
            FenError::Malformed(FenSection::PossibleEnPassantTargets)
        );
    }
}

#[test]
fn trailing_characters() {
    assert_eq!(
        error_of("4k3/8/8/8/8/8/8/4K3 w - - 0 1 "),
        FenError::TrailingCharacters
    );
    assert_eq!(
        error_of("4k3/8/8/8/8/8/8/4K3 w - - 0 1 extra"),
        FenError::TrailingCharacters
    );
}

#[test]
fn errors_say_what_is_wrong() {
    assert_eq!(
        FenError::DuplicateKing(PieceColor::White).describe(),
        "Invalid piece placement: White King already exists"
    );
    assert_eq!(
        FenError::UnknownPiece('x').describe(),
        "Invalid piece placement: Unknown character x"
    );
    assert_eq!(
        FenError::RankOverflow(6).describe(),
        "Invalid piece placement: a rank exceeds 8 files: rank 7"
    );
    assert_eq!(
        FenError::Missing(FenSection::ActiveColor).describe(),
        "Missing field: active color"
    );
    assert_eq!(
        FenError::Malformed(FenSection::HalfMoveClock).describe(),
        "Invalid field: half move clock"
    );
    assert_eq!(
        FenError::TrailingCharacters.describe(),
        "Invalid FEN: Extra characters provided at the end of the string"
    );
    assert_eq!(FenError::TrailingCharacters.section(), FenSection::Finished);
    assert_eq!(FenError::TooManyRanks.section(), FenSection::PiecePlacement);
}
