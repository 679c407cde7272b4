use crate::engine::piece::{Piece, PieceColor, PieceType};
use crate::interfaces::strings::{char_after, push_char};
use vstd::prelude::*;
use vstd::string::StringExecFns;

verus! {

/// The six fields of a position's text, and the end after them.
#[derive(Clone, Copy, Debug, PartialEq, Eq, Structural)]
pub enum FenSection {
    PiecePlacement,
    ActiveColor,
    CastlingRights,
    PossibleEnPassantTargets,
    HalfMoveClock,
    FullMoveNumber,
    Finished,
}

/// Why a text is not a position.
#[derive(Clone, Copy, Debug, PartialEq, Eq, Structural)]
pub enum FenError {
    /// A rank of the placement describes more than eight squares. Ranks are
    /// numbered from 0, the first rank.
    RankOverflow(u8),
    /// A rank of the placement ends before its eighth square.
    RankIncomplete(u8),
    /// The placement goes on after its eighth rank.
    TooManyRanks,
    /// The placement ends before its last square.
    PlacementIncomplete,
    /// A second king of one colour.
    DuplicateKing(PieceColor),
    /// A character in the placement that is no piece letter, digit or `/`.
    UnknownPiece(char),
    /// A field is there but empty.
    Missing(FenSection),
    /// A field holds something else than it may.
    Malformed(FenSection),
    /// The text goes on after the last field.
    TrailingCharacters,
}

impl FenSection {
    /// The name of the field.
    pub open spec fn spec_name(self) -> Seq<char> {
        match self {
            FenSection::PiecePlacement => "piece placement"@,
            FenSection::ActiveColor => "active color"@,
            FenSection::CastlingRights => "castling rights"@,
            FenSection::PossibleEnPassantTargets => "possible en passant targets"@,
            FenSection::HalfMoveClock => "half move clock"@,
            FenSection::FullMoveNumber => "full move number"@,
            FenSection::Finished => "end"@,
        }
    }

    /// The name of the field.
    pub fn name(self) -> (r: &'static str)
        ensures
            r@ == self.spec_name(),
    {
        match self {
            FenSection::PiecePlacement => "piece placement",
            FenSection::ActiveColor => "active color",
            FenSection::CastlingRights => "castling rights",
            FenSection::PossibleEnPassantTargets => "possible en passant targets",
            FenSection::HalfMoveClock => "half move clock",
            FenSection::FullMoveNumber => "full move number",
            FenSection::Finished => "end",
        }
    }
}

impl FenError {
    /// The field of the text in which the fault lies.
    pub open spec fn spec_section(self) -> FenSection {
        match self {
            FenError::Missing(section) => section,
            FenError::Malformed(section) => section,
            FenError::TrailingCharacters => FenSection::Finished,
            _ => FenSection::PiecePlacement,
        }
    }

    /// The field of the text in which the fault lies.
    #[verifier::when_used_as_spec(spec_section)]
    pub fn section(self) -> (r: FenSection)
        ensures
            r == self.spec_section(),
    {
        match self {
            FenError::Missing(section) => section,
            FenError::Malformed(section) => section,
            FenError::TrailingCharacters => FenSection::Finished,
            _ => FenSection::PiecePlacement,
        }
    }

    /// What is wrong, in words.
    pub open spec fn description(self) -> Seq<char> {
        match self {
            FenError::RankOverflow(rank) => "Invalid piece placement: a rank exceeds 8 files: rank "@
                + seq![(rank % 8 + '1' as int) as char],
            FenError::RankIncomplete(rank) =>
                "Invalid piece placement: a rank does not contain 8 files: rank "@ + seq![
                    (rank % 8 + '1' as int) as char,
                ],
            FenError::TooManyRanks => "Invalid piece placement: more than 8 ranks"@,
            FenError::PlacementIncomplete =>
                "Invalid piece placement: Not all ranks and files have been filled up"@,
            FenError::DuplicateKing(PieceColor::White) =>
                "Invalid piece placement: White King already exists"@,
            FenError::DuplicateKing(PieceColor::Black) =>
                "Invalid piece placement: Black King already exists"@,
            FenError::UnknownPiece(c) => "Invalid piece placement: Unknown character "@ + seq![c],
            FenError::Missing(section) => "Missing field: "@ + section.spec_name(),
            FenError::Malformed(section) => "Invalid field: "@ + section.spec_name(),
            FenError::TrailingCharacters =>
                "Invalid FEN: Extra characters provided at the end of the string"@,
        }
    }

    /// What is wrong, in words.
    pub fn describe(self) -> (r: String)
        ensures
            r@ == self.description(),
    {
        let mut text = String::new();
        match self {
            FenError::RankOverflow(rank) => {
                text.append("Invalid piece placement: a rank exceeds 8 files: rank ");
                push_char(&mut text, char_after(49, rank % 8));
            },
            FenError::RankIncomplete(rank) => {
                text.append("Invalid piece placement: a rank does not contain 8 files: rank ");
                push_char(&mut text, char_after(49, rank % 8));
            },
            FenError::TooManyRanks => {
                text.append("Invalid piece placement: more than 8 ranks");
            },
            FenError::PlacementIncomplete => {
                text.append(
                    "Invalid piece placement: Not all ranks and files have been filled up",
                );
            },
            FenError::DuplicateKing(color) => {
                match color {
                    PieceColor::White => {
                        text.append("Invalid piece placement: White King already exists");
                    },
                    PieceColor::Black => {
                        text.append("Invalid piece placement: Black King already exists");
                    },
                }
            },
            FenError::UnknownPiece(c) => {
                text.append("Invalid piece placement: Unknown character ");
                push_char(&mut text, c);
            },
            FenError::Missing(section) => {
                text.append("Missing field: ");
                text.append(section.name());
            },
            FenError::Malformed(section) => {
                text.append("Invalid field: ");
                text.append(section.name());
            },
            FenError::TrailingCharacters => {
                text.append("Invalid FEN: Extra characters provided at the end of the string");
            },
        }
        proof {
            assert(text@ =~= self.description());
        }
        text
    }
}

/// What a position's text says: the placement, the side to move, the four
/// castling rights, the en-passant square and the two counters.
pub struct Setup {
    pub squares: Seq<Option<Piece>>,
    pub turn: PieceColor,
    pub castling: Seq<bool>,
    pub enpassant: Option<int>,
    pub halfmove: int,
    pub fullmove: int,
}

/// The piece that a letter of the placement stands for: upper case for
/// White, lower case for Black.
pub open spec fn piece_of_letter(c: char) -> Option<Piece> {
    if c == 'K' {
        Some(Piece { color: PieceColor::White, kind: PieceType::King })
    } else if c == 'Q' {
        Some(Piece { color: PieceColor::White, kind: PieceType::Queen })
    } else if c == 'R' {
        Some(Piece { color: PieceColor::White, kind: PieceType::Rook })
    } else if c == 'B' {
        Some(Piece { color: PieceColor::White, kind: PieceType::Bishop })
    } else if c == 'N' {
        Some(Piece { color: PieceColor::White, kind: PieceType::Knight })
    } else if c == 'P' {
        Some(Piece { color: PieceColor::White, kind: PieceType::Pawn })
    } else if c == 'k' {
        Some(Piece { color: PieceColor::Black, kind: PieceType::King })
    } else if c == 'q' {
        Some(Piece { color: PieceColor::Black, kind: PieceType::Queen })
    } else if c == 'r' {
        Some(Piece { color: PieceColor::Black, kind: PieceType::Rook })
    } else if c == 'b' {
        Some(Piece { color: PieceColor::Black, kind: PieceType::Bishop })
    } else if c == 'n' {
        Some(Piece { color: PieceColor::Black, kind: PieceType::Knight })
    } else if c == 'p' {
        Some(Piece { color: PieceColor::Black, kind: PieceType::Pawn })
    } else {
        None
    }
}

/// The letter that stands for a piece in the placement.
pub open spec fn letter_of_piece(piece: Piece) -> char {
    match (piece.color, piece.kind) {
        (PieceColor::White, PieceType::King) => 'K',
        (PieceColor::White, PieceType::Queen) => 'Q',
        (PieceColor::White, PieceType::Rook) => 'R',
        (PieceColor::White, PieceType::Bishop) => 'B',
        (PieceColor::White, PieceType::Knight) => 'N',
        (PieceColor::White, PieceType::Pawn) => 'P',
        (PieceColor::Black, PieceType::King) => 'k',
        (PieceColor::Black, PieceType::Queen) => 'q',
        (PieceColor::Black, PieceType::Rook) => 'r',
        (PieceColor::Black, PieceType::Bishop) => 'b',
        (PieceColor::Black, PieceType::Knight) => 'n',
        (PieceColor::Black, PieceType::Pawn) => 'p',
    }
}

/// The value of a decimal digit.
pub open spec fn digit_value(c: char) -> Option<int> {
    if '0' <= c && c <= '9' {
        Some(c as int - '0' as int)
    } else {
        None
    }
}

/// The decimal digit of a value below ten.
pub open spec fn digit_char(value: int) -> char {
    (value + '0' as int) as char
}

/// Where the field that starts at `from` ends: at the next space, or at
/// the end of the text.
pub open spec fn field_end(text: Seq<char>, from: int) -> int
    decreases text.len() - from,
{
    if from >= text.len() {
        text.len() as int
    } else if text[from] == ' ' {
        from
    } else {
        field_end(text, from + 1)
    }
}

/// Reads the placement from its `i`-th character on: `rank` and `file`
/// say which square comes next, `squares` holds what was read so far, and
/// the two flags whether a white and a black king were read. Ranks come
/// from the eighth down, files from the a-file up; a digit stands for as
/// many empty squares, `/` ends a rank.
pub open spec fn scan_placement(
    field: Seq<char>,
    i: int,
    rank: int,
    file: int,
    squares: Seq<Option<Piece>>,
    white_king: bool,
    black_king: bool,
) -> Result<Seq<Option<Piece>>, FenError>
    decreases field.len() - i,
{
    if i >= field.len() {
        if rank == 0 && file == 8 {
            Ok(squares)
        } else {
            Err(FenError::PlacementIncomplete)
        }
    } else if digit_value(field[i]) is Some {
        if file + digit_value(field[i])->0 > 8 {
            Err(FenError::RankOverflow(rank as u8))
        } else {
            scan_placement(
                field,
                i + 1,
                rank,
                file + digit_value(field[i])->0,
                squares,
                white_king,
                black_king,
            )
        }
    } else if field[i] == '/' {
        if file != 8 {
            Err(FenError::RankIncomplete(rank as u8))
        } else if rank == 0 {
            Err(FenError::TooManyRanks)
        } else {
            scan_placement(field, i + 1, rank - 1, 0, squares, white_king, black_king)
        }
    } else {
        match piece_of_letter(field[i]) {
            Some(piece) => {
                if file == 8 {
                    Err(FenError::RankOverflow(rank as u8))
                } else if piece.kind == PieceType::King && (if piece.color == PieceColor::White {
                    white_king
                } else {
                    black_king
                }) {
                    Err(FenError::DuplicateKing(piece.color))
                } else {
                    scan_placement(
                        field,
                        i + 1,
                        rank,
                        file + 1,
                        squares.update(rank * 8 + file, Some(piece)),
                        white_king || piece == (Piece {
                            color: PieceColor::White,
                            kind: PieceType::King,
                        }),
                        black_king || piece == (Piece {
                            color: PieceColor::Black,
                            kind: PieceType::King,
                        }),
                    )
                }
            },
            None => Err(FenError::UnknownPiece(field[i])),
        }
    }
}

/// A board of sixty-four empty squares.
pub open spec fn empty_squares() -> Seq<Option<Piece>> {
    Seq::new(64, |sq: int| None::<Piece>)
}

/// The placement that a field says.
pub open spec fn parse_placement(field: Seq<char>) -> Result<Seq<Option<Piece>>, FenError> {
    scan_placement(field, 0, 7, 0, empty_squares(), false, false)
}

/// The side to move that a field says: `w` or `b`.
pub open spec fn parse_color(field: Seq<char>) -> Result<PieceColor, FenError> {
    if field.len() == 0 {
        Err(FenError::Missing(FenSection::ActiveColor))
    } else if field.len() == 1 && field[0] == 'w' {
        Ok(PieceColor::White)
    } else if field.len() == 1 && field[0] == 'b' {
        Ok(PieceColor::Black)
    } else {
        Err(FenError::Malformed(FenSection::ActiveColor))
    }
}

/// Whether the first `k` characters of a field are castling letters.
pub open spec fn castling_letters(field: Seq<char>, k: int) -> bool
    decreases k,
{
    if k <= 0 {
        true
    } else {
        castling_letters(field, k - 1) && (field[k - 1] == 'K' || field[k - 1] == 'Q' || field[k
            - 1] == 'k' || field[k - 1] == 'q')
    }
}

/// Whether `c` stands among the first `k` characters of a field.
pub open spec fn has_letter(field: Seq<char>, c: char, k: int) -> bool
    decreases k,
{
    if k <= 0 {
        false
    } else {
        has_letter(field, c, k - 1) || field[k - 1] == c
    }
}

/// The castling rights that a field says: `-` for none, else the letters
/// of the rights that hold, `K` and `Q` for White's king's and queen's
/// side, `k` and `q` for Black's.
pub open spec fn parse_castling(field: Seq<char>) -> Result<Seq<bool>, FenError> {
    let n = field.len() as int;
    if n == 0 {
        Err(FenError::Missing(FenSection::CastlingRights))
    } else if n == 1 && field[0] == '-' {
        Ok(seq![false, false, false, false])
    } else if castling_letters(field, n) {
        Ok(
            seq![
                has_letter(field, 'K', n),
                has_letter(field, 'Q', n),
                has_letter(field, 'k', n),
                has_letter(field, 'q', n),
            ],
        )
    } else {
        Err(FenError::Malformed(FenSection::CastlingRights))
    }
}

/// The en-passant square that a field says: `-` for none, else a file
/// letter from `a` to `h` and a rank digit from `1` to `8`.
pub open spec fn parse_enpassant(field: Seq<char>) -> Result<Option<int>, FenError> {
    if field.len() == 0 {
        Err(FenError::Missing(FenSection::PossibleEnPassantTargets))
    } else if field.len() == 1 && field[0] == '-' {
        Ok(None)
    } else if field.len() == 2 && 'a' <= field[0] && field[0] <= 'h' && '1' <= field[1] && field[1]
        <= '8' {
        Ok(Some((field[1] as int - '1' as int) * 8 + (field[0] as int - 'a' as int)))
    } else {
        Err(FenError::Malformed(FenSection::PossibleEnPassantTargets))
    }
}

/// Whether the first `k` characters of a field are decimal digits.
pub open spec fn all_digits(field: Seq<char>, k: int) -> bool
    decreases k,
{
    if k <= 0 {
        true
    } else {
        all_digits(field, k - 1) && digit_value(field[k - 1]) is Some
    }
}

/// The number that the first `k` digits of a field say.
pub open spec fn decimal(field: Seq<char>, k: int) -> int
    decreases k,
{
    if k <= 0 {
        0
    } else {
        decimal(field, k - 1) * 10 + digit_value(field[k - 1])->0
    }
}

/// The counter that a field says: decimal digits with a value of at most
/// 255.
pub open spec fn parse_counter(field: Seq<char>, section: FenSection) -> Result<int, FenError> {
    let n = field.len() as int;
    if n == 0 {
        Err(FenError::Missing(section))
    } else if all_digits(field, n) && decimal(field, n) <= 255 {
        Ok(decimal(field, n))
    } else {
        Err(FenError::Malformed(section))
    }
}

/// What a text says. The six fields stand in order with one space
/// between them. The text may end after any field: the fields that are
/// left out then have their first values, White to move, no rights, no
/// en-passant square, clock 0, move 1.
pub open spec fn parse_fen(text: Seq<char>) -> Result<Setup, FenError> {
    let n = text.len() as int;
    let e0 = field_end(text, 0);
    let e1 = field_end(text, e0 + 1);
    let e2 = field_end(text, e1 + 1);
    let e3 = field_end(text, e2 + 1);
    let e4 = field_end(text, e3 + 1);
    let e5 = field_end(text, e4 + 1);
    let first = Setup {
        squares: empty_squares(),
        turn: PieceColor::White,
        castling: seq![false, false, false, false],
        enpassant: None,
        halfmove: 0,
        fullmove: 1,
    };
    match parse_placement(text.subrange(0, e0)) {
        Err(e) => Err(e),
        Ok(squares) => if e0 >= n {
            Ok(Setup { squares, ..first })
        } else {
            match parse_color(text.subrange(e0 + 1, e1)) {
                Err(e) => Err(e),
                Ok(turn) => if e1 >= n {
                    Ok(Setup { squares, turn, ..first })
                } else {
                    match parse_castling(text.subrange(e1 + 1, e2)) {
                        Err(e) => Err(e),
                        Ok(castling) => if e2 >= n {
                            Ok(Setup { squares, turn, castling, ..first })
                        } else {
                            match parse_enpassant(text.subrange(e2 + 1, e3)) {
                                Err(e) => Err(e),
                                Ok(enpassant) => if e3 >= n {
                                    Ok(Setup { squares, turn, castling, enpassant, ..first })
                                } else {
                                    match parse_counter(
                                        text.subrange(e3 + 1, e4),
                                        FenSection::HalfMoveClock,
                                    ) {
                                        Err(e) => Err(e),
                                        Ok(halfmove) => if e4 >= n {
                                            Ok(
                                                Setup {
                                                    squares,
                                                    turn,
                                                    castling,
                                                    enpassant,
                                                    halfmove,
                                                    ..first
                                                },
                                            )
                                        } else {
                                            match parse_counter(
                                                text.subrange(e4 + 1, e5),
                                                FenSection::FullMoveNumber,
                                            ) {
                                                Err(e) => Err(e),
                                                Ok(fullmove) => if e5 >= n {
                                                    Ok(
                                                        Setup {
                                                            squares,
                                                            turn,
                                                            castling,
                                                            enpassant,
                                                            halfmove,
                                                            fullmove,
                                                        },
                                                    )
                                                } else {
                                                    Err(FenError::TrailingCharacters)
                                                },
                                            }
                                        },
                                    }
                                },
                            }
                        },
                    }
                },
            }
        },
    }
}

/// The text of one rank of the placement from `file` on, after `run`
/// empty squares: pieces by their letters, runs of empty squares by their
/// length.
pub open spec fn rank_text(squares: Seq<Option<Piece>>, rank: int, file: int, run: int) -> Seq<char>
    decreases 8 - file,
{
    let gap = if run > 0 {
        seq![digit_char(run)]
    } else {
        Seq::empty()
    };
    if file >= 8 {
        gap
    } else {
        match squares[rank * 8 + file] {
            Some(piece) => gap + seq![letter_of_piece(piece)] + rank_text(
                squares,
                rank,
                file + 1,
                0,
            ),
            None => rank_text(squares, rank, file + 1, run + 1),
        }
    }
}

/// The text of the ranks from `rank` down to the first, with `/` between
/// them.
pub open spec fn ranks_text(squares: Seq<Option<Piece>>, rank: int) -> Seq<char>
    decreases rank,
{
    if rank <= 0 {
        rank_text(squares, 0, 0, 0)
    } else {
        rank_text(squares, rank, 0, 0) + seq!['/'] + ranks_text(squares, rank - 1)
    }
}

/// The text of the castling rights.
pub open spec fn castling_text(castling: Seq<bool>) -> Seq<char> {
    if !castling[0] && !castling[1] && !castling[2] && !castling[3] {
        seq!['-']
    } else {
        (if castling[0] {
            seq!['K']
        } else {
            Seq::empty()
        }) + (if castling[1] {
            seq!['Q']
        } else {
            Seq::empty()
        }) + (if castling[2] {
            seq!['k']
        } else {
            Seq::empty()
        }) + (if castling[3] {
            seq!['q']
        } else {
            Seq::empty()
        })
    }
}

/// The text of the en-passant square.
pub open spec fn enpassant_text(enpassant: Option<int>) -> Seq<char> {
    match enpassant {
        Some(sq) => seq![(sq % 8 + 'a' as int) as char, (sq / 8 + '1' as int) as char],
        None => seq!['-'],
    }
}

/// The decimal digits of a counter.
pub open spec fn counter_text(value: int) -> Seq<char> {
    if value >= 100 {
        seq![digit_char(value / 100), digit_char((value / 10) % 10), digit_char(value % 10)]
    } else if value >= 10 {
        seq![digit_char(value / 10), digit_char(value % 10)]
    } else {
        seq![digit_char(value)]
    }
}

/// The text of a setup: the six fields with one space between them.
pub open spec fn fen_text(setup: Setup) -> Seq<char> {
    ranks_text(setup.squares, 7) + seq![' '] + seq![
        if setup.turn == PieceColor::White {
            'w'
        } else {
            'b'
        },
    ] + seq![' '] + castling_text(setup.castling) + seq![' '] + enpassant_text(setup.enpassant)
        + seq![' '] + counter_text(setup.halfmove) + seq![' '] + counter_text(setup.fullmove)
}


/// Characters that stop being digits at some point do not start again.
pub proof fn lemma_digits_stop(field: Seq<char>, k: int, n: int)
    requires
        0 <= k <= n,
        !all_digits(field, k),
    ensures
        !all_digits(field, n),
    decreases n - k,
{
    if k < n {
        lemma_digits_stop(field, k + 1, n);
    }
}

/// The number that a run of digits says is not negative.
pub proof fn lemma_decimal_positive(field: Seq<char>, k: int)
    requires
        all_digits(field, k),
    ensures
        0 <= decimal(field, k),
    decreases k,
{
    if k > 0 {
        lemma_decimal_positive(field, k - 1);
    }
}

/// The digits before a digit are digits, and the number they say is not
/// greater than the number that all the digits say.
pub proof fn lemma_decimal_grows(field: Seq<char>, k: int, n: int)
    requires
        0 <= k <= n,
        all_digits(field, n),
    ensures
        all_digits(field, k),
        0 <= decimal(field, k) <= decimal(field, n),
    decreases n - k,
{
    if k < n {
        lemma_decimal_grows(field, k, n - 1);
    } else {
        lemma_decimal_positive(field, k);
    }
}

} // verus!
