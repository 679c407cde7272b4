use crate::engine::bitboard::Bitboard;
use crate::engine::bitboard::bits::{lemma_bit_alone, lemma_lowest, lowest};
use crate::engine::board::Board;
use crate::engine::board::position::{BoardState, Position};
use crate::engine::computed::geometry::strictly_between;
use crate::engine::computed::Computed;
use crate::engine::piece::{Piece, PieceColor, PieceType};
use crate::interfaces::notation::{
    all_digits, castling_letters, castling_text, counter_text, decimal, digit_value, empty_squares,
    enpassant_text, fen_text, field_end, has_letter, lemma_decimal_grows, lemma_digits_stop,
    letter_of_piece, parse_castling, parse_color, parse_counter, parse_enpassant, parse_fen,
    parse_placement, piece_of_letter, rank_text, ranks_text, scan_placement, FenError, FenSection,
    Setup,
};
use crate::interfaces::strings::{char_after, code_of, push_char};
use vstd::prelude::*;
use vstd::string::StrSliceExecFns;

verus! {

/// The characters of a text.
pub fn text_chars(text: &str) -> (chars: Vec<char>)
    ensures
        chars@ == text@,
{
    let n = text.unicode_len();
    let mut chars: Vec<char> = Vec::new();
    let mut i: usize = 0;
    while i < n
        invariant
            n == text@.len(),
            i <= n,
            chars@ == text@.subrange(0, i as int),
        decreases n - i,
    {
        chars.push(text.get_char(i));
        i += 1;
        assert(chars@ =~= text@.subrange(0, i as int));
    }
    assert(text@.subrange(0, n as int) =~= text@);
    chars
}

/// Where the field that starts at `from` ends.
fn find_field_end(chars: &Vec<char>, from: usize) -> (end: usize)
    ensures
        end == field_end(chars@, from as int),
        from <= chars@.len() ==> from <= end <= chars@.len(),
        from > chars@.len() ==> end == chars@.len(),
        forall|j: int| from <= j < end ==> chars@[j] != ' ',
        end < chars@.len() ==> chars@[end as int] == ' ',
{
    if from >= chars.len() {
        return chars.len();
    }
    let mut i: usize = from;
    while i < chars.len() && chars[i] != ' '
        invariant
            from <= i <= chars@.len(),
            field_end(chars@, from as int) == field_end(chars@, i as int),
            forall|j: int| from <= j < i ==> chars@[j] != ' ',
        decreases chars@.len() - i,
    {
        i += 1;
    }
    i
}

/// The piece that a letter of the placement stands for.
fn piece_from_letter(c: char) -> (r: Option<Piece>)
    ensures
        r == piece_of_letter(c),
{
    if c == 'K' {
        Some(Piece::new(PieceColor::White, PieceType::King))
    } else if c == 'Q' {
        Some(Piece::new(PieceColor::White, PieceType::Queen))
    } else if c == 'R' {
        Some(Piece::new(PieceColor::White, PieceType::Rook))
    } else if c == 'B' {
        Some(Piece::new(PieceColor::White, PieceType::Bishop))
    } else if c == 'N' {
        Some(Piece::new(PieceColor::White, PieceType::Knight))
    } else if c == 'P' {
        Some(Piece::new(PieceColor::White, PieceType::Pawn))
    } else if c == 'k' {
        Some(Piece::new(PieceColor::Black, PieceType::King))
    } else if c == 'q' {
        Some(Piece::new(PieceColor::Black, PieceType::Queen))
    } else if c == 'r' {
        Some(Piece::new(PieceColor::Black, PieceType::Rook))
    } else if c == 'b' {
        Some(Piece::new(PieceColor::Black, PieceType::Bishop))
    } else if c == 'n' {
        Some(Piece::new(PieceColor::Black, PieceType::Knight))
    } else if c == 'p' {
        Some(Piece::new(PieceColor::Black, PieceType::Pawn))
    } else {
        None
    }
}

/// The value of a decimal digit.
fn digit_from(c: char) -> (r: Option<u8>)
    ensures
        match r {
            Some(d) => digit_value(c) == Some(d as int) && d <= 9,
            None => digit_value(c) is None,
        },
{
    let code: u32 = c as u32;
    if 48 <= code && code <= 57 {
        Some((code - 48) as u8)
    } else {
        None
    }
}

/// Reads the placement that stands in `chars` from `start` to `end`.
fn read_placement(chars: &Vec<char>, start: usize, end: usize) -> (r: Result<
    [Option<Piece>; 64],
    FenError,
>)
    requires
        start <= end <= chars@.len(),
    ensures
        match parse_placement(chars@.subrange(start as int, end as int)) {
            Ok(squares) => r is Ok && r->Ok_0@ == squares,
            Err(e) => r is Err && r->Err_0 == e,
        },
{
    let ghost field = chars@.subrange(start as int, end as int);
    let mut squares: [Option<Piece>; 64] = [None;64];
    let mut rank: u8 = 7;
    let mut file: u8 = 0;
    let mut white_king = false;
    let mut black_king = false;
    let mut i: usize = start;
    proof {
        assert(squares@ =~= empty_squares());
    }
    while i < end
        invariant
            start <= i <= end <= chars@.len(),
            field == chars@.subrange(start as int, end as int),
            rank <= 7,
            file <= 8,
            parse_placement(field) == scan_placement(
                field,
                i - start,
                rank as int,
                file as int,
                squares@,
                white_king,
                black_king,
            ),
        decreases end - i,
    {
        let c = chars[i];
        assert(field[i - start] == c);
        match digit_from(c) {
            Some(number) => {
                if number + file > 8 {
                    return Err(FenError::RankOverflow(rank));
                }
                file = file + number;
            },
            None => {
                if c == '/' {
                    if file != 8 {
                        return Err(FenError::RankIncomplete(rank));
                    }
                    if rank == 0 {
                        return Err(FenError::TooManyRanks);
                    }
                    rank = rank - 1;
                    file = 0;
                } else {
                    match piece_from_letter(c) {
                        Some(piece) => {
                            if file == 8 {
                                return Err(FenError::RankOverflow(rank));
                            }
                            let is_king = piece.get_type() == PieceType::King;
                            let is_white = piece.get_color() == PieceColor::White;
                            if is_king && (if is_white {
                                white_king
                            } else {
                                black_king
                            }) {
                                return Err(FenError::DuplicateKing(piece.get_color()));
                            }
                            squares[(rank * 8 + file) as usize] = Some(piece);
                            white_king = white_king || (is_king && is_white);
                            black_king = black_king || (is_king && !is_white);
                            file = file + 1;
                        },
                        None => {
                            return Err(FenError::UnknownPiece(c));
                        },
                    }
                }
            },
        }
        i += 1;
    }
    if rank == 0 && file == 8 {
        Ok(squares)
    } else {
        Err(FenError::PlacementIncomplete)
    }
}

/// Reads the side to move that stands in `chars` from `start` to `end`.
fn read_color(chars: &Vec<char>, start: usize, end: usize) -> (r: Result<PieceColor, FenError>)
    requires
        start <= end <= chars@.len(),
    ensures
        r == parse_color(chars@.subrange(start as int, end as int)),
{
    let ghost field = chars@.subrange(start as int, end as int);
    if end == start {
        return Err(FenError::Missing(FenSection::ActiveColor));
    }
    assert(field[0] == chars@[start as int]);
    if end - start == 1 && chars[start] == 'w' {
        Ok(PieceColor::White)
    } else if end - start == 1 && chars[start] == 'b' {
        Ok(PieceColor::Black)
    } else {
        Err(FenError::Malformed(FenSection::ActiveColor))
    }
}

/// Reads the castling rights that stand in `chars` from `start` to `end`.
fn read_castling(chars: &Vec<char>, start: usize, end: usize) -> (r: Result<[bool; 4], FenError>)
    requires
        start <= end <= chars@.len(),
    ensures
        match parse_castling(chars@.subrange(start as int, end as int)) {
            Ok(castling) => r is Ok && r->Ok_0@ == castling,
            Err(e) => r is Err && r->Err_0 == e,
        },
{
    let ghost field = chars@.subrange(start as int, end as int);
    let mut castling: [bool; 4] = [false;4];
    if end == start {
        return Err(FenError::Missing(FenSection::CastlingRights));
    }
    assert(field[0] == chars@[start as int]);
    if end - start == 1 && chars[start] == '-' {
        assert(castling@ =~= seq![false, false, false, false]);
        return Ok(castling);
    }
    let mut i: usize = start;
    while i < end
        invariant
            start <= i <= end <= chars@.len(),
            field == chars@.subrange(start as int, end as int),
            field.len() > 0,
            !(field.len() == 1 && field[0] == '-'),
            castling_letters(field, i - start),
            castling@[0] == has_letter(field, 'K', i - start),
            castling@[1] == has_letter(field, 'Q', i - start),
            castling@[2] == has_letter(field, 'k', i - start),
            castling@[3] == has_letter(field, 'q', i - start),
        decreases end - i,
    {
        let c = chars[i];
        assert(field[i - start] == c);
        if c == 'K' {
            castling[0] = true;
        } else if c == 'Q' {
            castling[1] = true;
        } else if c == 'k' {
            castling[2] = true;
        } else if c == 'q' {
            castling[3] = true;
        } else {
            proof {
                assert(!castling_letters(field, i - start + 1));
                lemma_castling_letters(field, i - start + 1, field.len() as int);
            }
            return Err(FenError::Malformed(FenSection::CastlingRights));
        }
        i += 1;
    }
    proof {
        assert(castling@ =~= seq![
            has_letter(field, 'K', field.len() as int),
            has_letter(field, 'Q', field.len() as int),
            has_letter(field, 'k', field.len() as int),
            has_letter(field, 'q', field.len() as int),
        ]);
    }
    Ok(castling)
}

/// Letters that stop being castling letters at some point do not start
/// again.
proof fn lemma_castling_letters(field: Seq<char>, k: int, n: int)
    requires
        0 <= k <= n,
        !castling_letters(field, k),
    ensures
        !castling_letters(field, n),
    decreases n - k,
{
    if k < n {
        lemma_castling_letters(field, k + 1, n);
    }
}

/// Reads the en-passant square that stands in `chars` from `start` to
/// `end`.
fn read_enpassant(chars: &Vec<char>, start: usize, end: usize) -> (r: Result<Option<u8>, FenError>)
    requires
        start <= end <= chars@.len(),
    ensures
        match parse_enpassant(chars@.subrange(start as int, end as int)) {
            Ok(Some(sq)) => r == Ok::<Option<u8>, FenError>(Some(sq as u8)) && 0 <= sq < 64,
            Ok(None) => r == Ok::<Option<u8>, FenError>(None),
            Err(e) => r == Err::<Option<u8>, FenError>(e),
        },
{
    let ghost field = chars@.subrange(start as int, end as int);
    if end == start {
        return Err(FenError::Missing(FenSection::PossibleEnPassantTargets));
    }
    assert(field[0] == chars@[start as int]);
    if end - start == 1 && chars[start] == '-' {
        return Ok(None);
    }
    if end - start == 2 {
        assert(field[1] == chars@[start + 1]);
        let file_letter: char = chars[start];
        let rank_digit: char = chars[start + 1];
        let file: u32 = code_of(file_letter);
        let rank: u32 = code_of(rank_digit);
        if 97 <= file && file <= 104 && 49 <= rank && rank <= 56 {
            return Ok(Some(((rank - 49) * 8 + (file - 97)) as u8));
        }
    }
    Err(FenError::Malformed(FenSection::PossibleEnPassantTargets))
}

/// Reads the counter that stands in `chars` from `start` to `end`.
fn read_counter(chars: &Vec<char>, start: usize, end: usize, section: FenSection) -> (r: Result<
    u8,
    FenError,
>)
    requires
        start <= end <= chars@.len(),
    ensures
        match parse_counter(chars@.subrange(start as int, end as int), section) {
            Ok(value) => r == Ok::<u8, FenError>(value as u8) && 0 <= value <= 255,
            Err(e) => r == Err::<u8, FenError>(e),
        },
{
    let ghost field = chars@.subrange(start as int, end as int);
    if end == start {
        return Err(FenError::Missing(section));
    }
    let mut value: u32 = 0;
    let mut i: usize = start;
    while i < end
        invariant
            start <= i <= end <= chars@.len(),
            field == chars@.subrange(start as int, end as int),
            all_digits(field, i - start),
            value == decimal(field, i - start),
            value <= 255,
        decreases end - i,
    {
        let c = chars[i];
        assert(field[i - start] == c);
        match digit_from(c) {
            Some(digit) => {
                value = value * 10 + digit as u32;
                if value > 255 {
                    proof {
                        if all_digits(field, field.len() as int) {
                            lemma_decimal_grows(field, i - start + 1, field.len() as int);
                        }
                    }
                    return Err(FenError::Malformed(section));
                }
            },
            None => {
                proof {
                    assert(!all_digits(field, i - start + 1));
                    lemma_digits_stop(field, i - start + 1, field.len() as int);
                }
                return Err(FenError::Malformed(section));
            },
        }
        i += 1;
    }
    Ok(value as u8)
}

/// What a text says, as plain values.
pub struct ParsedFen {
    pub squares: [Option<Piece>; 64],
    pub turn: PieceColor,
    pub castling: [bool; 4],
    pub enpassant: Option<u8>,
    pub halfmove: u8,
    pub fullmove: u8,
}

impl View for ParsedFen {
    type V = Setup;

    open spec fn view(&self) -> Setup {
        Setup {
            squares: self.squares@,
            turn: self.turn,
            castling: self.castling@,
            enpassant: match self.enpassant {
                Some(sq) => Some(sq as int),
                None => None,
            },
            halfmove: self.halfmove as int,
            fullmove: self.fullmove as int,
        }
    }
}

impl ParsedFen {
    /// The en-passant square, if there is one, is on the board.
    pub open spec fn wf(&self) -> bool {
        self.enpassant is Some ==> self.enpassant->0 < 64
    }

    /// Reads a position's text. The result is what `parse_fen` says of
    /// the text: the setup it describes, or the first fault in it.
    pub fn parse(text: &str) -> (r: Result<ParsedFen, FenError>)
        ensures
            match parse_fen(text@) {
                Ok(setup) => r is Ok && r->Ok_0@ == setup && r->Ok_0.wf(),
                Err(e) => r is Err && r->Err_0 == e,
            },
    {
        let chars = text_chars(text);
        let n = chars.len();
        let mut parsed = ParsedFen {
            squares: [None;64],
            turn: PieceColor::White,
            castling: [false;4],
            enpassant: None,
            halfmove: 0,
            fullmove: 1,
        };
        proof {
            assert(parsed.castling@ =~= seq![false, false, false, false]);
        }
        let e0 = find_field_end(&chars, 0);
        match read_placement(&chars, 0, e0) {
            Ok(squares) => {
                parsed.squares = squares;
            },
            Err(e) => {
                return Err(e);
            },
        }
        if e0 >= n {
            return Ok(parsed);
        }
        let e1 = find_field_end(&chars, e0 + 1);
        match read_color(&chars, e0 + 1, e1) {
            Ok(turn) => {
                parsed.turn = turn;
            },
            Err(e) => {
                return Err(e);
            },
        }
        if e1 >= n {
            return Ok(parsed);
        }
        let e2 = find_field_end(&chars, e1 + 1);
        match read_castling(&chars, e1 + 1, e2) {
            Ok(castling) => {
                parsed.castling = castling;
            },
            Err(e) => {
                return Err(e);
            },
        }
        if e2 >= n {
            return Ok(parsed);
        }
        let e3 = find_field_end(&chars, e2 + 1);
        match read_enpassant(&chars, e2 + 1, e3) {
            Ok(enpassant) => {
                parsed.enpassant = enpassant;
            },
            Err(e) => {
                return Err(e);
            },
        }
        if e3 >= n {
            return Ok(parsed);
        }
        let e4 = find_field_end(&chars, e3 + 1);
        match read_counter(&chars, e3 + 1, e4, FenSection::HalfMoveClock) {
            Ok(halfmove) => {
                parsed.halfmove = halfmove;
            },
            Err(e) => {
                return Err(e);
            },
        }
        if e4 >= n {
            return Ok(parsed);
        }
        let e5 = find_field_end(&chars, e4 + 1);
        match read_counter(&chars, e4 + 1, e5, FenSection::FullMoveNumber) {
            Ok(fullmove) => {
                parsed.fullmove = fullmove;
            },
            Err(e) => {
                return Err(e);
            },
        }
        if e5 >= n {
            return Ok(parsed);
        }
        Err(FenError::TrailingCharacters)
    }
}


/// The letter that stands for a piece in the placement.
fn letter_from_piece(piece: Piece) -> (r: char)
    ensures
        r == letter_of_piece(piece),
{
    match (piece.get_color(), piece.get_type()) {
        (PieceColor::White, PieceType::King) => 'K',
        (PieceColor::White, PieceType::Queen) => 'Q',
        (PieceColor::White, PieceType::Rook) => 'R',
        (PieceColor::White, PieceType::Bishop) => 'B',
        (PieceColor::White, PieceType::Knight) => 'N',
        (PieceColor::White, PieceType::Pawn) => 'P',
        (PieceColor::Black, PieceType::King) => 'k',
        (PieceColor::Black, PieceType::Queen) => 'q',
        (PieceColor::Black, PieceType::Rook) => 'r',
        (PieceColor::Black, PieceType::Bishop) => 'b',
        (PieceColor::Black, PieceType::Knight) => 'n',
        (PieceColor::Black, PieceType::Pawn) => 'p',
    }
}

/// Appends the text of one rank of the placement.
fn push_rank(out: &mut String, squares: &[Option<Piece>; 64], rank: u8)
    requires
        rank < 8,
    ensures
        final(out)@ == old(out)@ + rank_text(squares@, rank as int, 0, 0),
{
    let ghost before = out@;
    let ghost whole = rank_text(squares@, rank as int, 0, 0);
    let mut stack: u8 = 0;
    let mut file: u8 = 0;
    proof {
        assert(out@ + whole =~= before + whole);
    }
    while file < 8
        invariant
            rank < 8,
            file <= 8,
            stack <= file,
            out@ + rank_text(squares@, rank as int, file as int, stack as int) == before + whole,
        decreases 8 - file,
    {
        let ghost so_far = out@;
        let ghost run = stack as int;
        match squares[(rank * 8 + file) as usize] {
            Some(piece) => {
                if stack > 0 {
                    out.push(char_after(48, stack));
                    stack = 0;
                }
                out.push(letter_from_piece(piece));
                proof {
                    assert(out@ + rank_text(squares@, rank as int, file as int + 1, 0) =~= so_far
                        + rank_text(squares@, rank as int, file as int, run));
                }
            },
            None => {
                stack = stack + 1;
            },
        }
        file += 1;
    }
    if stack > 0 {
        out.push(char_after(48, stack));
    }
    proof {
        assert(out@ =~= before + whole);
    }
}


/// Appends the text of the placement: the ranks from the eighth down.
fn push_placement(out: &mut String, squares: &[Option<Piece>; 64])
    ensures
        final(out)@ == old(out)@ + ranks_text(squares@, 7),
{
    let ghost before = out@;
    let ghost whole = ranks_text(squares@, 7);
    let mut rank: u8 = 7;
    proof {
        assert(out@ + whole =~= before + whole);
    }
    while rank > 0
        invariant
            rank <= 7,
            out@ + ranks_text(squares@, rank as int) == before + whole,
        decreases rank,
    {
        let ghost so_far = out@;
        push_rank(out, squares, rank);
        out.push('/');
        proof {
            assert(out@ + ranks_text(squares@, rank as int - 1) =~= so_far + ranks_text(
                squares@,
                rank as int,
            ));
        }
        rank -= 1;
    }
    let ghost so_far = out@;
    push_rank(out, squares, 0);
    proof {
        assert(out@ =~= so_far + ranks_text(squares@, 0));
    }
}

/// Appends the decimal digits of a counter.
fn push_counter(out: &mut String, value: u8)
    ensures
        final(out)@ == old(out)@ + counter_text(value as int),
{
    let ghost before = out@;
    if value >= 100 {
        out.push(char_after(48, value / 100));
        out.push(char_after(48, (value / 10) % 10));
        out.push(char_after(48, value % 10));
    } else if value >= 10 {
        out.push(char_after(48, value / 10));
        out.push(char_after(48, value % 10));
    } else {
        out.push(char_after(48, value));
    }
    proof {
        assert(out@ =~= before + counter_text(value as int));
    }
}

/// Appends the text of the castling rights.
fn push_castling(out: &mut String, castling: &[bool; 4])
    ensures
        final(out)@ == old(out)@ + castling_text(castling@),
{
    let ghost before = out@;
    if !castling[0] && !castling[1] && !castling[2] && !castling[3] {
        out.push('-');
    } else {
        if castling[0] {
            out.push('K');
        }
        if castling[1] {
            out.push('Q');
        }
        if castling[2] {
            out.push('k');
        }
        if castling[3] {
            out.push('q');
        }
    }
    proof {
        assert(out@ =~= before + castling_text(castling@));
    }
}

/// Appends the text of the en-passant square.
fn push_enpassant(out: &mut String, enpassant: Option<u8>)
    requires
        enpassant is Some ==> enpassant->0 < 64,
    ensures
        final(out)@ == old(out)@ + enpassant_text(
            match enpassant {
                Some(sq) => Some(sq as int),
                None => None,
            },
        ),
{
    let ghost before = out@;
    match enpassant {
        Some(square) => {
            out.push(char_after(97, square % 8));
            out.push(char_after(49, square / 8));
            proof {
                assert(out@ =~= before + enpassant_text(Some(square as int)));
            }
        },
        None => {
            out.push('-');
            proof {
                assert(out@ =~= before + enpassant_text(None));
            }
        },
    }
}

impl ParsedFen {
    /// The text of the setup: the six fields with one space between them.
    pub fn to_text(&self) -> (r: String)
        requires
            self.wf(),
        ensures
            r@ == fen_text(self@),
    {
        let mut fen = String::new();
        proof {
            assert(fen@ + ranks_text(self.squares@, 7) =~= ranks_text(self.squares@, 7));
        }
        push_placement(&mut fen, &self.squares);
        push_char(&mut fen, ' ');
        push_char(&mut fen, self.turn.letter());
        push_char(&mut fen, ' ');
        push_castling(&mut fen, &self.castling);
        push_char(&mut fen, ' ');
        push_enpassant(&mut fen, self.enpassant);
        push_char(&mut fen, ' ');
        push_counter(&mut fen, self.halfmove);
        push_char(&mut fen, ' ');
        push_counter(&mut fen, self.fullmove);
        fen
    }
}

impl<'a> Board<'a> {
    /// What the board's text says: placement, side to move, and rights,
    /// en-passant square and counters of the current state.
    pub open spec fn setup(&self) -> Setup {
        let state = self@.state();
        Setup {
            squares: self@.squares,
            turn: self@.turn,
            castling: state.castling@,
            enpassant: if state.enpassant.0 == 0 {
                None
            } else {
                Some(lowest(state.enpassant.0))
            },
            halfmove: state.halfmove as int,
            fullmove: state.fullmove as int,
        }
    }

    /// The board that a setup describes, with one state and everything
    /// derived from the placement in order.
    pub fn from_parsed(parsed: &ParsedFen, computed: &'a Computed) -> (board: Self)
        requires
            parsed.wf(),
            computed.wf(),
        ensures
            board.wf(),
            board.computed == computed,
            board.setup() == parsed@,
            board.states@.len() == 1,
            board@.state().captured is None,
    {
        let mut board = Board::new(computed);
        let mut square: u8 = 0;
        while square < 64
            invariant
                square <= 64,
                board.computed == computed,
                board.placement_ok(),
                board.states@.len() == 0,
                board.turn == PieceColor::White,
                forall|sq: int| 0 <= sq < square ==> board.squares[sq] == parsed.squares[sq],
                forall|sq: int| square <= sq < 64 ==> board.squares[sq] is None,
            decreases 64 - square,
        {
            match parsed.squares[square as usize] {
                Some(piece) => {
                    board.set_square(square, piece);
                },
                None => {},
            }
            square += 1;
        }
        let enpassant = match parsed.enpassant {
            Some(sq) => {
                proof {
                    lemma_bit_alone(sq as int);
                }
                Bitboard::from_square(sq)
            },
            None => Bitboard::new(),
        };
        board.turn = parsed.turn;
        board.states.push(
            BoardState {
                castling: parsed.castling,
                enpassant,
                halfmove: parsed.halfmove,
                fullmove: parsed.fullmove,
                captured: None,
            },
        );
        board.refresh();
        proof {
            assert(board@.squares =~= parsed@.squares);
        }
        board
    }

    /// The board at the start of a game.
    pub fn initial(computed: &'a Computed) -> (board: Self)
        requires
            computed.wf(),
        ensures
            board.wf(),
            board.computed == computed,
            board.setup() == initial_setup(),
            board.states@.len() == 1,
            board@.state().captured is None,
            board@.sound(),
    {
        let back: [PieceType; 8] = [
            PieceType::Rook,
            PieceType::Knight,
            PieceType::Bishop,
            PieceType::Queen,
            PieceType::King,
            PieceType::Bishop,
            PieceType::Knight,
            PieceType::Rook,
        ];
        let mut squares: [Option<Piece>; 64] = [None;64];
        let mut file: usize = 0;
        while file < 8
            invariant
                file <= 8,
                back@ == back_rank(),
                forall|sq: int|
                    0 <= sq < 64 ==> squares[sq] == (if sq % 8 < file {
                        initial_piece(sq)
                    } else {
                        None
                    }),
            decreases 8 - file,
        {
            squares[file] = Some(Piece::new(PieceColor::White, back[file]));
            squares[8 + file] = Some(Piece::new(PieceColor::White, PieceType::Pawn));
            squares[48 + file] = Some(Piece::new(PieceColor::Black, PieceType::Pawn));
            squares[56 + file] = Some(Piece::new(PieceColor::Black, back[file]));
            file += 1;
        }
        let parsed = ParsedFen {
            squares,
            turn: PieceColor::White,
            castling: [true;4],
            enpassant: None,
            halfmove: 0,
            fullmove: 1,
        };
        proof {
            assert(parsed@.squares =~= initial_setup().squares);
            assert(parsed@.castling =~= initial_setup().castling);
        }
        let board = Board::from_parsed(&parsed, computed);
        proof {
            lemma_initial_is_sound(board@);
        }
        board
    }

    /// Reads a board from a position's text: piece placement by rank from
    /// the eighth down, side to move, castling rights, en-passant square,
    /// halfmove clock and move number, with one space between the fields.
    /// The result is the board that `parse_fen` describes for the text, or
    /// the first fault that it finds.
    pub fn from_fen(text: &str, computed: &'a Computed) -> (r: Result<Self, FenError>)
        requires
            computed.wf(),
        ensures
            match parse_fen(text@) {
                Ok(setup) => {
                    &&& r is Ok
                    &&& r->Ok_0.wf()
                    &&& r->Ok_0.computed == computed
                    &&& r->Ok_0.setup() == setup
                    &&& r->Ok_0.states@.len() == 1
                    &&& r->Ok_0@.state().captured is None
                },
                Err(e) => r is Err && r->Err_0 == e,
            },
    {
        match ParsedFen::parse(text) {
            Ok(parsed) => Ok(Board::from_parsed(&parsed, computed)),
            Err(e) => Err(e),
        }
    }

    /// The board's text: the six fields with one space between them.
    pub fn to_fen(&self) -> (r: String)
        requires
            self.states@.len() > 0,
        ensures
            r@ == fen_text(self.setup()),
    {
        let state = self.get_state();
        let enpassant = if state.enpassant.0 == 0 {
            None
        } else {
            proof {
                lemma_lowest(state.enpassant.0);
            }
            Some(state.enpassant.0.trailing_zeros() as u8)
        };
        let parsed = ParsedFen {
            squares: self.squares,
            turn: self.turn,
            castling: state.castling,
            enpassant,
            halfmove: state.halfmove,
            fullmove: state.fullmove,
        };
        parsed.to_text()
    }
}

/// The kinds of the pieces on a side's first rank, from the a-file on.
pub open spec fn back_rank() -> Seq<PieceType> {
    seq![
        PieceType::Rook,
        PieceType::Knight,
        PieceType::Bishop,
        PieceType::Queen,
        PieceType::King,
        PieceType::Bishop,
        PieceType::Knight,
        PieceType::Rook,
    ]
}

/// What stands on a square at the start of a game.
pub open spec fn initial_piece(sq: int) -> Option<Piece> {
    if sq / 8 == 0 {
        Some(Piece { color: PieceColor::White, kind: back_rank()[sq % 8] })
    } else if sq / 8 == 1 {
        Some(Piece { color: PieceColor::White, kind: PieceType::Pawn })
    } else if sq / 8 == 6 {
        Some(Piece { color: PieceColor::Black, kind: PieceType::Pawn })
    } else if sq / 8 == 7 {
        Some(Piece { color: PieceColor::Black, kind: back_rank()[sq % 8] })
    } else {
        None
    }
}

/// The setup at the start of a game: all pieces on their first squares,
/// White to move, all four castling rights, clock 0, move 1.
pub open spec fn initial_setup() -> Setup {
    Setup {
        squares: Seq::new(64, |sq: int| initial_piece(sq)),
        turn: PieceColor::White,
        castling: seq![true, true, true, true],
        enpassant: None,
        halfmove: 0,
        fullmove: 1,
    }
}


/// The position at the start of a game is sound: both kings stand on
/// their squares, there is no en-passant square, and no white piece
/// attacks the black king.
pub proof fn lemma_initial_is_sound(pos: Position)
    requires
        pos.squares == initial_setup().squares,
        pos.turn == PieceColor::White,
        pos.states.len() == 1,
        pos.state().enpassant.0 == 0,
    ensures
        pos.sound(),
{
    let here = pos.placement();
    let white = Piece { color: PieceColor::White, kind: PieceType::King };
    let black = Piece { color: PieceColor::Black, kind: PieceType::King };
    assert forall|x: int| 0 <= x < 64 implies (#[trigger] pos.squares[x] == Some(white)) == (x
        == 4) by {}
    assert forall|x: int| 0 <= x < 64 implies (#[trigger] pos.squares[x] == Some(black)) == (x
        == 60) by {}
    pos.lemma_king_found(PieceColor::White, 4);
    pos.lemma_king_found(PieceColor::Black, 60);
    here.lemma_check_state(PieceColor::Black);
    assert forall|s: int| here.holds_color(s, PieceColor::White) implies !here.gives_check(
        s,
        PieceColor::Black,
    ) by {
        if here.gives_check(s, PieceColor::Black) {
            let k = choose|k: int|
                here.holds(k, black) && #[trigger] here.attacks_from(
                    s,
                    k,
                    here.occupancy_for_attacks(PieceColor::White),
                );
            assert(k == 60);
            here.lemma_taken_for_attacks(PieceColor::White, 12);
            here.lemma_taken_for_attacks(PieceColor::White, 52);
            assert(pos.squares[12] is Some && pos.squares[52] is Some);
            if s / 8 == 0 {
                if s % 8 == 4 {
                    assert(strictly_between(s, 12, 60));
                }
            } else {
                assert(s / 8 == 1);
                if s % 8 == 4 {
                    assert(strictly_between(s, 52, 60));
                }
            }
            assert(false);
        }
    }
}

} // verus!
