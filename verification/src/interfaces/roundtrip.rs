use crate::engine::piece::{Piece, PieceColor, PieceType};
use crate::interfaces::notation::{
    all_digits, castling_letters, castling_text, counter_text, decimal, digit_char, digit_value,
    empty_squares, enpassant_text, fen_text, field_end, has_letter, lemma_decimal_positive,
    letter_of_piece, parse_castling, parse_color, parse_counter, parse_enpassant, parse_fen,
    parse_placement, piece_of_letter, rank_text, ranks_text, scan_placement, FenError, FenSection,
    Setup,
};
use vstd::prelude::*;

verus! {

/// The white king.
pub open spec fn white_king() -> Piece {
    Piece { color: PieceColor::White, kind: PieceType::King }
}

/// The black king.
pub open spec fn black_king() -> Piece {
    Piece { color: PieceColor::Black, kind: PieceType::King }
}

/// Whether at most one square holds `piece`.
pub open spec fn at_most_one(squares: Seq<Option<Piece>>, piece: Piece) -> bool {
    forall|a: int, b: int|
        0 <= a < 64 && 0 <= b < 64 && #[trigger] squares[a] == Some(piece) && #[trigger] squares[b]
            == Some(piece) ==> a == b
}

impl Setup {
    /// What holds of every setup that a text describes: sixty-four
    /// squares, at most one king a side, four rights, an en-passant square
    /// on the board if any, and counters of at most 255.
    pub open spec fn valid(self) -> bool {
        &&& self.squares.len() == 64
        &&& at_most_one(self.squares, white_king())
        &&& at_most_one(self.squares, black_king())
        &&& self.castling.len() == 4
        &&& (self.enpassant is Some ==> 0 <= self.enpassant->0 < 64)
        &&& 0 <= self.halfmove <= 255
        &&& 0 <= self.fullmove <= 255
    }
}

/// Whether the reading of the placement has passed square `sq` when it
/// stands before file `file` of rank `rank`.
pub open spec fn passed(sq: int, rank: int, file: int) -> bool {
    sq / 8 > rank || (sq / 8 == rank && sq % 8 < file)
}

/// The squares of `squares` that the reading has passed, the others
/// empty.
pub open spec fn read_so_far(squares: Seq<Option<Piece>>, rank: int, file: int) -> Seq<
    Option<Piece>,
> {
    Seq::new(
        64,
        |sq: int|
            if passed(sq, rank, file) {
                squares[sq]
            } else {
                None
            },
    )
}

/// Whether `piece` stands on a square that the reading has passed.
pub open spec fn seen(squares: Seq<Option<Piece>>, piece: Piece, rank: int, file: int) -> bool {
    exists|sq: int| 0 <= sq < 64 && passed(sq, rank, file) && #[trigger] squares[sq] == Some(piece)
}

/// A piece's letter stands for the piece, and is no digit, `/` or space.
proof fn lemma_letters(piece: Piece)
    ensures
        piece_of_letter(letter_of_piece(piece)) == Some(piece),
        digit_value(letter_of_piece(piece)) is None,
        letter_of_piece(piece) != '/',
        letter_of_piece(piece) != ' ',
{
}

/// A digit's value is the value it was written for, and a digit is no
/// `/` or space.
proof fn lemma_digits(value: int)
    requires
        0 <= value <= 9,
    ensures
        digit_value(digit_char(value)) == Some(value),
        digit_char(value) != ' ',
        digit_char(value) != '/',
{
}

/// Reading the text of the rest of a rank brings the reading to the end
/// of the rank, with the rank's squares read.
proof fn lemma_scan_rank(
    field: Seq<char>,
    i: int,
    squares: Seq<Option<Piece>>,
    rank: int,
    file: int,
    run: int,
)
    requires
        squares.len() == 64,
        at_most_one(squares, white_king()),
        at_most_one(squares, black_king()),
        0 <= rank < 8,
        0 <= run <= file <= 8,
        0 <= i,
        i + rank_text(squares, rank, file, run).len() <= field.len(),
        field.subrange(i, i + rank_text(squares, rank, file, run).len()) == rank_text(
            squares,
            rank,
            file,
            run,
        ),
        forall|j: int| file - run <= j < file ==> (#[trigger] squares[rank * 8 + j]) is None,
    ensures
        scan_placement(
            field,
            i,
            rank,
            file - run,
            read_so_far(squares, rank, file - run),
            seen(squares, white_king(), rank, file - run),
            seen(squares, black_king(), rank, file - run),
        ) == scan_placement(
            field,
            i + rank_text(squares, rank, file, run).len(),
            rank,
            8,
            read_so_far(squares, rank, 8),
            seen(squares, white_king(), rank, 8),
            seen(squares, black_king(), rank, 8),
        ),
    decreases 8 - file,
{
    let text = rank_text(squares, rank, file, run);
    let start = file - run;
    let before = read_so_far(squares, rank, start);
    let gap: Seq<char> = if run > 0 {
        seq![digit_char(run)]
    } else {
        Seq::empty()
    };
    if run > 0 {
        lemma_digits(run);
    }
    let wk = seen(squares, white_king(), rank, start);
    let bk = seen(squares, black_king(), rank, start);
    if file >= 8 {
        assert(text == gap);
        lemma_same_reading(squares, rank, start, 8);
        if run > 0 {
            assert(field[i] == text[0]);
            assert(scan_placement(field, i, rank, start, before, wk, bk) == scan_placement(
                field,
                i + 1,
                rank,
                start + run,
                before,
                wk,
                bk,
            ));
        }
    } else {
        match squares[rank * 8 + file] {
            Some(piece) => {
                let rest = rank_text(squares, rank, file + 1, 0);
                assert(text == gap + seq![letter_of_piece(piece)] + rest);
                lemma_letters(piece);
                lemma_same_reading(squares, rank, start, file);
                let at = i + gap.len();
                assert(field[at] == text[gap.len() as int]);
                if run > 0 {
                    assert(field[i] == text[0]);
                    assert(scan_placement(field, i, rank, start, before, wk, bk)
                        == scan_placement(field, i + 1, rank, start + run, before, wk, bk));
                }
                assert(field.subrange(at + 1, at + 1 + rest.len()) =~= rest) by {
                    assert forall|j: int| 0 <= j < rest.len() implies field[at + 1 + j]
                        == rest[j] by {
                        assert(field[at + 1 + j] == text[gap.len() + 1 + j]);
                    }
                }
                lemma_step_reading(squares, rank, file, piece);
                let here_read = read_so_far(squares, rank, file);
                let wk_here = seen(squares, white_king(), rank, file);
                let bk_here = seen(squares, black_king(), rank, file);
                assert(scan_placement(field, at, rank, file, here_read, wk_here, bk_here)
                    == scan_placement(
                    field,
                    at + 1,
                    rank,
                    file + 1,
                    here_read.update(rank * 8 + file, Some(piece)),
                    wk_here || piece == white_king(),
                    bk_here || piece == black_king(),
                ));
                lemma_scan_rank(field, at + 1, squares, rank, file + 1, 0);
                assert(text.len() == gap.len() + 1 + rest.len());
            },
            None => {
                assert(text == rank_text(squares, rank, file + 1, run + 1));
                assert forall|j: int| (file + 1) - (run + 1) <= j < file + 1 implies (
                #[trigger] squares[rank * 8 + j]) is None by {}
                lemma_scan_rank(field, i, squares, rank, file + 1, run + 1);
            },
        }
    }
}

/// Empty squares do not change what has been read.
proof fn lemma_same_reading(squares: Seq<Option<Piece>>, rank: int, from: int, to: int)
    requires
        squares.len() == 64,
        0 <= rank < 8,
        0 <= from <= to <= 8,
        forall|j: int| from <= j < to ==> (#[trigger] squares[rank * 8 + j]) is None,
    ensures
        read_so_far(squares, rank, from) == read_so_far(squares, rank, to),
        seen(squares, white_king(), rank, from) == seen(squares, white_king(), rank, to),
        seen(squares, black_king(), rank, from) == seen(squares, black_king(), rank, to),
{
    assert forall|sq: int| 0 <= sq < 64 && passed(sq, rank, to) && !passed(
        sq,
        rank,
        from,
    ) implies squares[sq] is None by {
        assert(sq == rank * 8 + sq % 8);
    }
    assert(read_so_far(squares, rank, from) =~= read_so_far(squares, rank, to));
    lemma_same_seen(squares, white_king(), rank, from, to);
    lemma_same_seen(squares, black_king(), rank, from, to);
}

/// Empty squares do not change whether a piece was seen.
proof fn lemma_same_seen(squares: Seq<Option<Piece>>, piece: Piece, rank: int, from: int, to: int)
    requires
        squares.len() == 64,
        0 <= rank < 8,
        0 <= from <= to <= 8,
        forall|sq: int|
            0 <= sq < 64 && passed(sq, rank, to) && !passed(sq, rank, from) ==> (
            #[trigger] squares[sq]) is None,
    ensures
        seen(squares, piece, rank, from) == seen(squares, piece, rank, to),
{
    if seen(squares, piece, rank, from) {
        let sq = choose|sq: int|
            0 <= sq < 64 && passed(sq, rank, from) && #[trigger] squares[sq] == Some(piece);
        assert(passed(sq, rank, to));
    }
    if seen(squares, piece, rank, to) {
        let sq = choose|sq: int|
            0 <= sq < 64 && passed(sq, rank, to) && #[trigger] squares[sq] == Some(piece);
        assert(passed(sq, rank, from));
    }
}

/// Reading one piece adds its square to what has been read, and no king
/// is read twice.
proof fn lemma_step_reading(squares: Seq<Option<Piece>>, rank: int, file: int, piece: Piece)
    requires
        squares.len() == 64,
        at_most_one(squares, white_king()),
        at_most_one(squares, black_king()),
        0 <= rank < 8,
        0 <= file < 8,
        squares[rank * 8 + file] == Some(piece),
    ensures
        read_so_far(squares, rank, file).update(rank * 8 + file, Some(piece)) == read_so_far(
            squares,
            rank,
            file + 1,
        ),
        seen(squares, white_king(), rank, file + 1) == (seen(squares, white_king(), rank, file)
            || piece == white_king()),
        seen(squares, black_king(), rank, file + 1) == (seen(squares, black_king(), rank, file)
            || piece == black_king()),
        piece == white_king() ==> !seen(squares, white_king(), rank, file),
        piece == black_king() ==> !seen(squares, black_king(), rank, file),
{
    let here = rank * 8 + file;
    assert(read_so_far(squares, rank, file).update(here, Some(piece)) =~= read_so_far(
        squares,
        rank,
        file + 1,
    )) by {
        assert forall|sq: int| 0 <= sq < 64 implies (passed(sq, rank, file + 1) <==> (passed(
            sq,
            rank,
            file,
        ) || sq == here)) by {
            if sq / 8 == rank && sq % 8 == file {
                assert(sq == here);
            }
        }
    }
    lemma_step_seen(squares, rank, file, piece, white_king());
    lemma_step_seen(squares, rank, file, piece, black_king());
}

/// A piece is seen after one more square if it was seen before or stands
/// on that square.
proof fn lemma_step_seen(
    squares: Seq<Option<Piece>>,
    rank: int,
    file: int,
    piece: Piece,
    king: Piece,
)
    requires
        squares.len() == 64,
        at_most_one(squares, king),
        0 <= rank < 8,
        0 <= file < 8,
        squares[rank * 8 + file] == Some(piece),
    ensures
        seen(squares, king, rank, file + 1) == (seen(squares, king, rank, file) || piece == king),
        piece == king ==> !seen(squares, king, rank, file),
{
    let here = rank * 8 + file;
    assert(passed(here, rank, file + 1));
    assert(!passed(here, rank, file));
    if seen(squares, king, rank, file) {
        let sq = choose|sq: int|
            0 <= sq < 64 && passed(sq, rank, file) && #[trigger] squares[sq] == Some(king);
        assert(passed(sq, rank, file + 1));
        if piece == king {
            assert(sq == here);
        }
    }
    if seen(squares, king, rank, file + 1) {
        let sq = choose|sq: int|
            0 <= sq < 64 && passed(sq, rank, file + 1) && #[trigger] squares[sq] == Some(king);
        if sq != here {
            assert(sq / 8 > rank || (sq / 8 == rank && sq % 8 < file + 1));
            if sq / 8 == rank && sq % 8 == file {
                assert(sq == here);
            }
            assert(passed(sq, rank, file));
        }
    }
}


/// The text of a rank holds no space.
proof fn lemma_rank_text(squares: Seq<Option<Piece>>, rank: int, file: int, run: int)
    requires
        0 <= run <= file <= 8,
    ensures
        forall|j: int|
            0 <= j < rank_text(squares, rank, file, run).len() ==> #[trigger] rank_text(
                squares,
                rank,
                file,
                run,
            )[j] != ' ',
    decreases 8 - file,
{
    let text = rank_text(squares, rank, file, run);
    let gap: Seq<char> = if run > 0 {
        seq![digit_char(run)]
    } else {
        Seq::empty()
    };
    if run > 0 {
        lemma_digits(run);
    }
    if file < 8 {
        match squares[rank * 8 + file] {
            Some(piece) => {
                lemma_letters(piece);
                lemma_rank_text(squares, rank, file + 1, 0);
                let rest = rank_text(squares, rank, file + 1, 0);
                assert(text == gap + seq![letter_of_piece(piece)] + rest);
                assert forall|j: int| 0 <= j < text.len() implies #[trigger] text[j] != ' ' by {
                    if j < gap.len() {
                        assert(text[j] == gap[j]);
                    } else if j == gap.len() {
                        assert(text[j] == letter_of_piece(piece));
                    } else {
                        assert(text[j] == rest[j - gap.len() - 1]);
                    }
                }
            },
            None => {
                lemma_rank_text(squares, rank, file + 1, run + 1);
                assert(text == rank_text(squares, rank, file + 1, run + 1));
            },
        }
    } else {
        assert(text == gap);
    }
}

/// The text of the placement holds no space.
proof fn lemma_ranks_text(squares: Seq<Option<Piece>>, rank: int)
    requires
        0 <= rank < 8,
    ensures
        forall|j: int|
            0 <= j < ranks_text(squares, rank).len() ==> #[trigger] ranks_text(squares, rank)[j]
                != ' ',
    decreases rank,
{
    lemma_rank_text(squares, rank, 0, 0);
    let first = rank_text(squares, rank, 0, 0);
    let text = ranks_text(squares, rank);
    if rank > 0 {
        lemma_ranks_text(squares, rank - 1);
        let rest = ranks_text(squares, rank - 1);
        assert(text == first + seq!['/'] + rest);
        assert forall|j: int| 0 <= j < text.len() implies #[trigger] text[j] != ' ' by {
            if j < first.len() {
                assert(text[j] == first[j]);
            } else if j == first.len() {
                assert(text[j] == '/');
            } else {
                assert(text[j] == rest[j - first.len() - 1]);
            }
        }
    } else {
        assert(text == first);
    }
}

/// Reading the text of the ranks from `rank` down, which ends the field,
/// gives the placement.
proof fn lemma_scan_ranks(field: Seq<char>, i: int, squares: Seq<Option<Piece>>, rank: int)
    requires
        squares.len() == 64,
        at_most_one(squares, white_king()),
        at_most_one(squares, black_king()),
        0 <= rank < 8,
        0 <= i,
        i + ranks_text(squares, rank).len() == field.len(),
        field.subrange(i, field.len() as int) == ranks_text(squares, rank),
    ensures
        scan_placement(
            field,
            i,
            rank,
            0,
            read_so_far(squares, rank, 0),
            seen(squares, white_king(), rank, 0),
            seen(squares, black_king(), rank, 0),
        ) == Ok::<Seq<Option<Piece>>, FenError>(squares),
    decreases rank,
{
    let first = rank_text(squares, rank, 0, 0);
    let all = ranks_text(squares, rank);
    let done = read_so_far(squares, rank, 8);
    let wk = seen(squares, white_king(), rank, 8);
    let bk = seen(squares, black_king(), rank, 8);
    if rank > 0 {
        let rest = ranks_text(squares, rank - 1);
        assert(all == first + seq!['/'] + rest);
        assert(field.subrange(i, i + first.len()) =~= first) by {
            assert forall|j: int| 0 <= j < first.len() implies field[i + j] == first[j] by {
                assert(field[i + j] == all[j]);
            }
        }
        lemma_scan_rank(field, i, squares, rank, 0, 0);
        let at = i + first.len();
        assert(field[at] == all[first.len() as int]);
        assert(scan_placement(field, at, rank, 8, done, wk, bk) == scan_placement(
            field,
            at + 1,
            rank - 1,
            0,
            done,
            wk,
            bk,
        ));
        lemma_next_rank(squares, rank);
        assert(field.subrange(at + 1, field.len() as int) =~= rest) by {
            assert forall|j: int| 0 <= j < rest.len() implies field[at + 1 + j] == rest[j] by {
                assert(field[at + 1 + j] == all[first.len() + 1 + j]);
            }
        }
        lemma_scan_ranks(field, at + 1, squares, rank - 1);
    } else {
        assert(all == first);
        assert(field.subrange(i, i + first.len()) =~= first);
        lemma_scan_rank(field, i, squares, 0, 0, 0);
        assert(done =~= squares);
    }
}

/// What has been read at the end of a rank is what has been read at the
/// start of the next.
proof fn lemma_next_rank(squares: Seq<Option<Piece>>, rank: int)
    requires
        squares.len() == 64,
        0 < rank < 8,
    ensures
        read_so_far(squares, rank, 8) == read_so_far(squares, rank - 1, 0),
        seen(squares, white_king(), rank, 8) == seen(squares, white_king(), rank - 1, 0),
        seen(squares, black_king(), rank, 8) == seen(squares, black_king(), rank - 1, 0),
{
    assert forall|sq: int| 0 <= sq < 64 implies (passed(sq, rank, 8) <==> passed(
        sq,
        rank - 1,
        0,
    )) by {}
    assert(read_so_far(squares, rank, 8) =~= read_so_far(squares, rank - 1, 0));
    lemma_next_seen(squares, white_king(), rank);
    lemma_next_seen(squares, black_king(), rank);
}

/// What was seen at the end of a rank was seen at the start of the next.
proof fn lemma_next_seen(squares: Seq<Option<Piece>>, piece: Piece, rank: int)
    requires
        0 < rank < 8,
    ensures
        seen(squares, piece, rank, 8) == seen(squares, piece, rank - 1, 0),
{
    if seen(squares, piece, rank, 8) {
        let sq = choose|sq: int|
            0 <= sq < 64 && passed(sq, rank, 8) && #[trigger] squares[sq] == Some(piece);
        assert(passed(sq, rank - 1, 0));
    }
    if seen(squares, piece, rank - 1, 0) {
        let sq = choose|sq: int|
            0 <= sq < 64 && passed(sq, rank - 1, 0) && #[trigger] squares[sq] == Some(piece);
        assert(passed(sq, rank, 8));
    }
}

/// Reading the text of a placement gives the placement back.
pub proof fn lemma_placement_round_trip(squares: Seq<Option<Piece>>)
    requires
        squares.len() == 64,
        at_most_one(squares, white_king()),
        at_most_one(squares, black_king()),
    ensures
        parse_placement(ranks_text(squares, 7)) == Ok::<Seq<Option<Piece>>, FenError>(squares),
{
    let field = ranks_text(squares, 7);
    assert(field.subrange(0, field.len() as int) =~= field);
    lemma_scan_ranks(field, 0, squares, 7);
    assert(read_so_far(squares, 7, 0) =~= empty_squares());
    assert(!seen(squares, white_king(), 7, 0));
    assert(!seen(squares, black_king(), 7, 0));
}

/// Reading the text of castling rights gives the rights back.
pub proof fn lemma_castling_round_trip(castling: Seq<bool>)
    requires
        castling.len() == 4,
    ensures
        parse_castling(castling_text(castling)) == Ok::<Seq<bool>, FenError>(castling),
        forall|j: int|
            0 <= j < castling_text(castling).len() ==> #[trigger] castling_text(castling)[j]
                != ' ',
{
    let text = castling_text(castling);
    let n = text.len() as int;
    reveal_with_fuel(castling_letters, 5);
    reveal_with_fuel(has_letter, 5);
    if !castling[0] && !castling[1] && !castling[2] && !castling[3] {
        assert(castling =~= seq![false, false, false, false]);
    } else {
        assert(castling_letters(text, n));
        assert(castling =~= seq![
            has_letter(text, 'K', n),
            has_letter(text, 'Q', n),
            has_letter(text, 'k', n),
            has_letter(text, 'q', n),
        ]);
    }
}

/// Reading the text of an en-passant square gives the square back.
pub proof fn lemma_enpassant_round_trip(enpassant: Option<int>)
    requires
        enpassant is Some ==> 0 <= enpassant->0 < 64,
    ensures
        parse_enpassant(enpassant_text(enpassant)) == Ok::<Option<int>, FenError>(enpassant),
        forall|j: int|
            0 <= j < enpassant_text(enpassant).len() ==> #[trigger] enpassant_text(enpassant)[j]
                != ' ',
{
}

/// Reading the digits of a counter gives the counter back.
pub proof fn lemma_counter_round_trip(value: int, section: FenSection)
    requires
        0 <= value <= 255,
    ensures
        parse_counter(counter_text(value), section) == Ok::<int, FenError>(value),
        forall|j: int|
            0 <= j < counter_text(value).len() ==> #[trigger] counter_text(value)[j] != ' ',
{
    let text = counter_text(value);
    reveal_with_fuel(all_digits, 4);
    reveal_with_fuel(decimal, 4);
    lemma_digits(value % 10);
    lemma_digits((value / 10) % 10);
    lemma_digits(value / 100);
    if value >= 100 {
        assert(decimal(text, 3) == (value / 100) * 100 + ((value / 10) % 10) * 10 + value % 10);
    } else if value >= 10 {
        assert(decimal(text, 2) == (value / 10) * 10 + value % 10);
    } else {
        assert(decimal(text, 1) == value);
    }
}


/// A field without spaces that stands in a text from `from` on, followed
/// by a space or by the end of the text, ends where it ends.
proof fn lemma_field(text: Seq<char>, from: int, field: Seq<char>)
    requires
        0 <= from,
        from + field.len() <= text.len(),
        text.subrange(from, from + field.len()) == field,
        forall|j: int| 0 <= j < field.len() ==> #[trigger] field[j] != ' ',
        from + field.len() == text.len() || text[from + field.len()] == ' ',
    ensures
        field_end(text, from) == from + field.len(),
    decreases field.len(),
{
    if field.len() > 0 {
        assert(text[from] == field[0]);
        let rest = field.subrange(1, field.len() as int);
        assert(text.subrange(from + 1, from + 1 + rest.len()) =~= rest) by {
            assert forall|j: int| 0 <= j < rest.len() implies text[from + 1 + j] == rest[j] by {
                assert(text[from + 1 + j] == field[1 + j]);
            }
        }
        lemma_field(text, from + 1, rest);
    }
}

/// Reading the text of a valid setup gives the setup back.
pub proof fn lemma_round_trip(setup: Setup)
    requires
        setup.valid(),
    ensures
        parse_fen(fen_text(setup)) == Ok::<Setup, FenError>(setup),
{
    let placement = ranks_text(setup.squares, 7);
    let color = seq![
        if setup.turn == PieceColor::White {
            'w'
        } else {
            'b'
        },
    ];
    let castling = castling_text(setup.castling);
    let enpassant = enpassant_text(setup.enpassant);
    let halfmove = counter_text(setup.halfmove);
    let fullmove = counter_text(setup.fullmove);
    let space = seq![' '];
    let text = fen_text(setup);
    assert(text == placement + space + color + space + castling + space + enpassant + space
        + halfmove + space + fullmove);
    lemma_ranks_text(setup.squares, 7);
    lemma_placement_round_trip(setup.squares);
    lemma_castling_round_trip(setup.castling);
    lemma_enpassant_round_trip(setup.enpassant);
    lemma_counter_round_trip(setup.halfmove, FenSection::HalfMoveClock);
    lemma_counter_round_trip(setup.fullmove, FenSection::FullMoveNumber);

    let e0 = placement.len() as int;
    let e1 = e0 + 2;
    let e2 = e1 + 1 + castling.len();
    let e3 = e2 + 1 + enpassant.len();
    let e4 = e3 + 1 + halfmove.len();
    let e5 = e4 + 1 + fullmove.len();
    assert(text.len() == e5);
    assert(text.subrange(0, e0) =~= placement);
    assert(text.subrange(e0 + 1, e1) =~= color);
    assert(text.subrange(e1 + 1, e2) =~= castling);
    assert(text.subrange(e2 + 1, e3) =~= enpassant);
    assert(text.subrange(e3 + 1, e4) =~= halfmove);
    assert(text.subrange(e4 + 1, e5) =~= fullmove);
    assert(text[e0] == ' ');
    assert(text[e1] == ' ');
    assert(text[e2] == ' ');
    assert(text[e3] == ' ');
    assert(text[e4] == ' ');
    lemma_field(text, 0, placement);
    lemma_field(text, e0 + 1, color);
    lemma_field(text, e1 + 1, castling);
    lemma_field(text, e2 + 1, enpassant);
    lemma_field(text, e3 + 1, halfmove);
    lemma_field(text, e4 + 1, fullmove);
    assert(parse_color(color) == Ok::<PieceColor, FenError>(setup.turn));
}

/// The squares read so far hold at most one king a side, and the flags
/// know of every king among them: then so does the placement that the
/// reading ends with.
proof fn lemma_scan_valid(
    field: Seq<char>,
    i: int,
    rank: int,
    file: int,
    squares: Seq<Option<Piece>>,
    white: bool,
    black: bool,
)
    requires
        0 <= i,
        0 <= rank < 8,
        0 <= file <= 8,
        squares.len() == 64,
        at_most_one(squares, white_king()),
        at_most_one(squares, black_king()),
        (exists|sq: int| 0 <= sq < 64 && #[trigger] squares[sq] == Some(white_king())) ==> white,
        (exists|sq: int| 0 <= sq < 64 && #[trigger] squares[sq] == Some(black_king())) ==> black,
    ensures
        match scan_placement(field, i, rank, file, squares, white, black) {
            Ok(read) => read.len() == 64 && at_most_one(read, white_king()) && at_most_one(
                read,
                black_king(),
            ),
            Err(_) => true,
        },
    decreases field.len() - i,
{
    if i < field.len() {
        let c = field[i];
        if digit_value(c) is Some {
            if file + digit_value(c)->0 <= 8 {
                lemma_scan_valid(field, i + 1, rank, file + digit_value(c)->0, squares, white, black);
            }
        } else if c == '/' {
            if file == 8 && rank != 0 {
                lemma_scan_valid(field, i + 1, rank - 1, 0, squares, white, black);
            }
        } else {
            match piece_of_letter(c) {
                Some(piece) => {
                    let taken = piece.kind == PieceType::King && (if piece.color
                        == PieceColor::White {
                        white
                    } else {
                        black
                    });
                    if file < 8 && !taken {
                        let here = rank * 8 + file;
                        let next = squares.update(here, Some(piece));
                        assert forall|a: int, b: int|
                            0 <= a < 64 && 0 <= b < 64 && #[trigger] next[a] == Some(white_king())
                                && #[trigger] next[b] == Some(white_king()) implies a == b by {
                            if a != here {
                                assert(squares[a] == Some(white_king()));
                            }
                            if b != here {
                                assert(squares[b] == Some(white_king()));
                            }
                        }
                        assert forall|a: int, b: int|
                            0 <= a < 64 && 0 <= b < 64 && #[trigger] next[a] == Some(black_king())
                                && #[trigger] next[b] == Some(black_king()) implies a == b by {
                            if a != here {
                                assert(squares[a] == Some(black_king()));
                            }
                            if b != here {
                                assert(squares[b] == Some(black_king()));
                            }
                        }
                        assert((exists|sq: int|
                            0 <= sq < 64 && #[trigger] next[sq] == Some(white_king())) ==> (white
                            || piece == white_king())) by {
                            if exists|sq: int|
                                0 <= sq < 64 && #[trigger] next[sq] == Some(white_king()) {
                                let sq = choose|sq: int|
                                    0 <= sq < 64 && #[trigger] next[sq] == Some(white_king());
                                if sq != here {
                                    assert(squares[sq] == Some(white_king()));
                                }
                            }
                        }
                        assert((exists|sq: int|
                            0 <= sq < 64 && #[trigger] next[sq] == Some(black_king())) ==> (black
                            || piece == black_king())) by {
                            if exists|sq: int|
                                0 <= sq < 64 && #[trigger] next[sq] == Some(black_king()) {
                                let sq = choose|sq: int|
                                    0 <= sq < 64 && #[trigger] next[sq] == Some(black_king());
                                if sq != here {
                                    assert(squares[sq] == Some(black_king()));
                                }
                            }
                        }
                        lemma_scan_valid(
                            field,
                            i + 1,
                            rank,
                            file + 1,
                            next,
                            white || piece == white_king(),
                            black || piece == black_king(),
                        );
                    }
                },
                None => {},
            }
        }
    }
}

/// Every setup that a text describes is valid.
pub proof fn lemma_parse_valid(text: Seq<char>)
    requires
        parse_fen(text) is Ok,
    ensures
        parse_fen(text)->Ok_0.valid(),
{
    let e0 = field_end(text, 0);
    let e1 = field_end(text, e0 + 1);
    let e2 = field_end(text, e1 + 1);
    let e3 = field_end(text, e2 + 1);
    let e4 = field_end(text, e3 + 1);
    let e5 = field_end(text, e4 + 1);
    let empty = empty_squares();
    assert(!(exists|sq: int| 0 <= sq < 64 && #[trigger] empty[sq] == Some(white_king())));
    assert(!(exists|sq: int| 0 <= sq < 64 && #[trigger] empty[sq] == Some(black_king())));
    lemma_scan_valid(text.subrange(0, e0), 0, 7, 0, empty, false, false);
    let half = text.subrange(e3 + 1, e4);
    let full = text.subrange(e4 + 1, e5);
    if all_digits(half, half.len() as int) {
        lemma_decimal_positive(half, half.len() as int);
    }
    if all_digits(full, full.len() as int) {
        lemma_decimal_positive(full, full.len() as int);
    }
}

/// Writing what a text says and reading it again gives what the text
/// says, so that writing it once more gives the same text: reading and
/// writing do not change a text that was written once.
pub proof fn lemma_text_round_trip(text: Seq<char>)
    requires
        parse_fen(text) is Ok,
    ensures
        parse_fen(fen_text(parse_fen(text)->Ok_0)) == parse_fen(text),
        fen_text(parse_fen(fen_text(parse_fen(text)->Ok_0))->Ok_0) == fen_text(
            parse_fen(text)->Ok_0,
        ),
{
    lemma_parse_valid(text);
    lemma_round_trip(parse_fen(text)->Ok_0);
}

} // verus!
