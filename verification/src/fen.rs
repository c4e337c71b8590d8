//! Position strings: six fields separated by single blanks.
//!
//! The first field is the piece placement: the eight ranks from rank 8 down
//! to rank 1, separated by `/`, each a run of piece letters (`K Q R B N P`
//! for White, `k q r b n p` for Black) and of digits `1`..`8` that stand for
//! that many empty squares, eight squares in all. The second field is the
//! side to move, `w` or `b`. The fourth is the en-passant target, a
//! coordinate or `-`. The third, fifth and sixth fields (castling
//! availability and the two move counters) are accepted as they come and
//! not interpreted.

use vstd::prelude::*;
use crate::coord::{
    is_rank_digit, lemma_parse_square_text, parse_coordinate, parse_square, push_coordinate,
    rank_digit, square_text,
};
use crate::error::ChessError;
use crate::game::{status_of, CastlingRights, Game, Position};
use crate::piece::{from_symbol, spec_from_symbol, spec_symbol, symbol, Color, Piece, PieceType};
use crate::text::{
    chars_of, join, lemma_join_push, lemma_split_join, push_char, split, split_chars, views,
};

verus! {

/// What a position string says of a game.
pub struct Setup {
    /// The occupant of each of the 64 squares.
    pub board: Seq<Piece>,
    /// The side to move.
    pub turn: Color,
    /// The en-passant target, if there is one.
    pub en_passant: Option<int>,
}

/// `count` empty squares.
pub open spec fn empties(count: int) -> Seq<Piece> {
    Seq::new(count as nat, |i: int| Piece::Empty)
}

/// The squares that one character of a rank stands for.
pub open spec fn char_squares(c: char) -> Option<Seq<Piece>> {
    if is_rank_digit(c) {
        Some(empties(c as u8 - '0' as u8))
    } else {
        match spec_from_symbol(c) {
            Some(piece) => Some(seq![piece]),
            None => None,
        }
    }
}

/// The squares that the text of a rank stands for, if every character of
/// it is a piece letter or a digit `1`..`8`.
pub open spec fn rank_squares(text: Seq<char>) -> Option<Seq<Piece>>
    decreases text.len(),
{
    if text.len() == 0 {
        Some(Seq::<Piece>::empty())
    } else {
        match (char_squares(text[0]), rank_squares(text.drop_first())) {
            (Some(head), Some(rest)) => Some(head + rest),
            _ => None,
        }
    }
}

/// The text of a rank stands for exactly eight squares.
pub open spec fn valid_rank(text: Seq<char>) -> bool {
    rank_squares(text) matches Some(row) && row.len() == 8
}

/// The board that a placement field stands for, if it is made of eight
/// valid ranks.
pub open spec fn parse_placement(text: Seq<char>) -> Option<Seq<Piece>> {
    let ranks = split(text, '/');
    if ranks.len() == 8 && (forall|r: int| 0 <= r < 8 ==> valid_rank(#[trigger] ranks[r])) {
        Some(Seq::new(64, |s: int| rank_squares(ranks[s / 8]).unwrap()[s % 8]))
    } else {
        None
    }
}

/// The side that the second field names.
pub open spec fn parse_turn(text: Seq<char>) -> Option<Color> {
    if text == seq!['w'] {
        Some(Color::White)
    } else if text == seq!['b'] {
        Some(Color::Black)
    } else {
        None
    }
}

/// The en-passant target that the fourth field names: none for `-`, a
/// square for a coordinate.
pub open spec fn parse_en_passant(text: Seq<char>) -> Option<Option<int>> {
    if text == seq!['-'] {
        Some(None)
    } else {
        match parse_square(text) {
            Some(square) => Some(Some(square)),
            None => None,
        }
    }
}

/// What the position string `text` says, if it is well formed: six fields,
/// a placement of eight valid ranks, a side to move, and an en-passant
/// target.
pub open spec fn parse_position(text: Seq<char>) -> Option<Setup> {
    let fields = split(text, ' ');
    if fields.len() != 6 {
        None
    } else {
        match (parse_placement(fields[0]), parse_turn(fields[1]), parse_en_passant(fields[3])) {
            (Some(board), Some(turn), Some(en_passant)) => Some(Setup { board, turn, en_passant }),
            _ => None,
        }
    }
}

/// The digit for a run of `run` empty squares, and nothing for no run.
pub open spec fn run_text(run: int) -> Seq<char> {
    if run > 0 {
        seq![rank_digit(run)]
    } else {
        Seq::<char>::empty()
    }
}

/// The text of the squares `row`, which follow `run` empty squares of the
/// same rank that are not yet written: a letter for each man, and for each
/// longest run of empty squares the digit of its length.
pub open spec fn rank_text(row: Seq<Piece>, run: int) -> Seq<char>
    decreases row.len(),
{
    if row.len() == 0 {
        run_text(run)
    } else if row[0] == Piece::Empty {
        rank_text(row.drop_first(), run + 1)
    } else {
        run_text(run) + seq![spec_symbol(row[0])] + rank_text(row.drop_first(), 0)
    }
}

/// The eight squares of row `r` of a board.
pub open spec fn board_rank(board: Seq<Piece>, r: int) -> Seq<Piece> {
    board.subrange(8 * r, 8 * r + 8)
}

/// The texts of the eight ranks of a board.
pub open spec fn rank_texts(board: Seq<Piece>) -> Seq<Seq<char>> {
    Seq::new(8, |r: int| rank_text(board_rank(board, r), 0))
}

/// The placement field of a board.
pub open spec fn placement_text(board: Seq<Piece>) -> Seq<char> {
    join(rank_texts(board), '/')
}

/// The field that names the side to move.
pub open spec fn turn_text(turn: Color) -> Seq<char> {
    match turn {
        Color::White => seq!['w'],
        Color::Black => seq!['b'],
    }
}

/// The letter of a castling right that is held, and nothing for one that
/// is not.
pub open spec fn right_text(held: bool, letter: char) -> Seq<char> {
    if held {
        seq![letter]
    } else {
        Seq::<char>::empty()
    }
}

/// The castling field: the letters `K`, `Q`, `k`, `q` of the rights that
/// are held, or `-` if none is.
pub open spec fn castling_text(castling: CastlingRights) -> Seq<char> {
    let letters = right_text(castling.white_king, 'K') + right_text(castling.white_queen, 'Q')
        + right_text(castling.black_king, 'k') + right_text(castling.black_queen, 'q');
    if letters.len() == 0 {
        seq!['-']
    } else {
        letters
    }
}

/// The field that names the en-passant target.
pub open spec fn en_passant_text(target: Option<int>) -> Seq<char> {
    match target {
        Some(square) => square_text(square),
        None => seq!['-'],
    }
}

/// The six fields of the position string of a game. The two move counters
/// are not kept, and are written as `0` and `1`.
pub open spec fn position_fields(position: Position) -> Seq<Seq<char>> {
    seq![
        placement_text(position.board),
        turn_text(position.turn),
        castling_text(position.castling),
        en_passant_text(position.en_passant),
        seq!['0'],
        seq!['1'],
    ]
}

/// The position string of a game.
pub open spec fn position_text(position: Position) -> Seq<char> {
    join(position_fields(position), ' ')
}

/// Six joined fields, written out.
proof fn lemma_join_six(fields: Seq<Seq<char>>, sep: char)
    requires
        fields.len() == 6,
    ensures
        join(fields, sep) == fields[0] + seq![sep] + fields[1] + seq![sep] + fields[2] + seq![sep]
            + fields[3] + seq![sep] + fields[4] + seq![sep] + fields[5],
{
    lemma_join_push(fields.take(1), fields[1], sep);
    lemma_join_push(fields.take(2), fields[2], sep);
    lemma_join_push(fields.take(3), fields[3], sep);
    lemma_join_push(fields.take(4), fields[4], sep);
    lemma_join_push(fields.take(5), fields[5], sep);
    assert(join(fields.take(1), sep) == fields[0]);
    assert(fields.take(2) =~= fields.take(1).push(fields[1]));
    assert(fields.take(3) =~= fields.take(2).push(fields[2]));
    assert(fields.take(4) =~= fields.take(3).push(fields[3]));
    assert(fields.take(5) =~= fields.take(4).push(fields[4]));
    assert(fields =~= fields.take(5).push(fields[5]));
}

/// The squares of two texts written one after the other are the squares
/// of the first followed by those of the second.
pub proof fn lemma_rank_squares_concat(first: Seq<char>, second: Seq<char>)
    ensures
        rank_squares(first + second) == match (rank_squares(first), rank_squares(second)) {
            (Some(head), Some(rest)) => Some(head + rest),
            _ => None,
        },
    decreases first.len(),
{
    if first.len() == 0 {
        assert(first + second =~= second);
        if rank_squares(second) is Some {
            assert(Seq::<Piece>::empty() + rank_squares(second).unwrap() =~= rank_squares(
                second,
            ).unwrap());
        }
    } else {
        let whole = first + second;
        assert(whole[0] == first[0]);
        assert(whole.drop_first() =~= first.drop_first() + second);
        lemma_rank_squares_concat(first.drop_first(), second);
        match (
            char_squares(first[0]),
            rank_squares(first.drop_first()),
            rank_squares(second),
        ) {
            (Some(a), Some(b), Some(c)) => {
                assert(a + (b + c) =~= (a + b) + c);
            },
            _ => {},
        }
    }
}

/// The squares of a single character.
proof fn lemma_rank_squares_single(c: char)
    ensures
        rank_squares(seq![c]) == char_squares(c),
{
    let text = seq![c];
    assert(text.drop_first() =~= Seq::<char>::empty());
    assert(rank_squares(text.drop_first()) == Some(Seq::<Piece>::empty()));
    if char_squares(c) is Some {
        assert(char_squares(c).unwrap() + Seq::<Piece>::empty() =~= char_squares(c).unwrap());
    }
}

/// The text of a rank stands for its squares, and holds neither `/` nor a
/// blank.
pub proof fn lemma_rank_round_trip(row: Seq<Piece>, run: int)
    requires
        0 <= run,
        run + row.len() <= 8,
    ensures
        rank_squares(rank_text(row, run)) == Some(empties(run) + row),
        !rank_text(row, run).contains('/'),
        !rank_text(row, run).contains(' '),
    decreases row.len(),
{
    lemma_run_text(run);
    if row.len() == 0 {
        assert(empties(run) + row =~= empties(run));
    } else {
        let rest = row.drop_first();
        if row[0] == Piece::Empty {
            lemma_rank_round_trip(rest, run + 1);
            assert(empties(run + 1) + rest =~= empties(run) + row);
        } else {
            lemma_rank_round_trip(rest, 0);
            let letter = seq![spec_symbol(row[0])];
            let tail = rank_text(rest, 0);
            lemma_rank_squares_single(spec_symbol(row[0]));
            lemma_rank_squares_concat(letter, tail);
            lemma_rank_squares_concat(run_text(run), letter + tail);
            assert(run_text(run) + letter + tail =~= run_text(run) + (letter + tail));
            assert(empties(run) + (seq![row[0]] + (empties(0) + rest)) =~= empties(run) + row);
            let text = rank_text(row, run);
            assert forall|c: char| c == '/' || c == ' ' implies !text.contains(c) by {
                if text.contains(c) {
                    let i = choose|i: int| 0 <= i < text.len() && text[i] == c;
                    if i < run_text(run).len() {
                        assert(run_text(run).contains(c));
                    } else if i == run_text(run).len() {
                    } else {
                        assert(tail[i - run_text(run).len() - 1] == c);
                        assert(tail.contains(c));
                    }
                }
            }
        }
    }
}

/// The digit of a run stands for that many empty squares.
proof fn lemma_run_text(run: int)
    requires
        0 <= run <= 8,
    ensures
        rank_squares(run_text(run)) == Some(empties(run)),
        !run_text(run).contains('/'),
        !run_text(run).contains(' '),
{
    if run > 0 {
        lemma_rank_squares_single(rank_digit(run));
        assert(is_rank_digit(rank_digit(run)));
        assert(rank_digit(run) as u8 - '0' as u8 == run);
    } else {
        assert(empties(0) =~= Seq::<Piece>::empty());
    }
}

/// A character of a joined text is the separator or a character of one of
/// the fields.
pub proof fn lemma_join_chars(parts: Seq<Seq<char>>, sep: char, c: char)
    requires
        c != sep,
        forall|i: int| 0 <= i < parts.len() ==> !(#[trigger] parts[i]).contains(c),
    ensures
        !join(parts, sep).contains(c),
    decreases parts.len(),
{
    if parts.len() == 0 {
    } else if parts.len() == 1 {
    } else {
        let rest = parts.drop_first();
        assert forall|i: int| 0 <= i < rest.len() implies !(#[trigger] rest[i]).contains(c) by {
            assert(rest[i] == parts[i + 1]);
        }
        lemma_join_chars(rest, sep, c);
        let text = join(parts, sep);
        if text.contains(c) {
            let i = choose|i: int| 0 <= i < text.len() && text[i] == c;
            if i < parts[0].len() {
                assert(parts[0].contains(c));
            } else if i == parts[0].len() {
            } else {
                assert(join(rest, sep)[i - parts[0].len() - 1] == c);
                assert(join(rest, sep).contains(c));
            }
        }
    }
}

/// A board of 64 squares comes back from its placement field, which holds
/// no blank.
pub proof fn lemma_placement_round_trip(board: Seq<Piece>)
    requires
        board.len() == 64,
    ensures
        parse_placement(placement_text(board)) == Some(board),
        !placement_text(board).contains(' '),
{
    let ranks = rank_texts(board);
    assert forall|r: int| 0 <= r < 8 implies !(#[trigger] ranks[r]).contains('/') && !ranks[r].contains(
        ' ',
    ) && rank_squares(ranks[r]) == Some(board_rank(board, r)) by {
        lemma_rank_round_trip(board_rank(board, r), 0);
        assert(empties(0) + board_rank(board, r) =~= board_rank(board, r));
    }
    lemma_split_join(ranks, '/');
    lemma_join_chars(ranks, '/', ' ');
    assert forall|r: int| 0 <= r < 8 implies valid_rank(#[trigger] ranks[r]) by {}
    assert(Seq::new(64, |s: int| rank_squares(ranks[s / 8]).unwrap()[s % 8]) =~= board);
}

/// Round trip: the position string of a game says again what the board,
/// the side to move and the en-passant target of the game are.
pub proof fn lemma_position_round_trip(position: Position)
    requires
        position.wf(),
    ensures
        parse_position(position_text(position)) == Some(
            Setup {
                board: position.board,
                turn: position.turn,
                en_passant: position.en_passant,
            },
        ),
{
    let fields = position_fields(position);
    lemma_placement_round_trip(position.board);
    assert(!castling_text(position.castling).contains(' ')) by {
        let text = castling_text(position.castling);
        if text.contains(' ') {
            let i = choose|i: int| 0 <= i < text.len() && text[i] == ' ';
            assert(text[i] == 'K' || text[i] == 'Q' || text[i] == 'k' || text[i] == 'q' || text[i]
                == '-');
        }
    }
    match position.en_passant {
        Some(square) => {
            lemma_parse_square_text(square);
            assert(square_text(square).len() == 2);
            assert(!square_text(square).contains(' ')) by {
                let text = square_text(square);
                if text.contains(' ') {
                    let i = choose|i: int| 0 <= i < text.len() && text[i] == ' ';
                    assert(text[i] == text[0] || text[i] == text[1]);
                }
            }
        },
        None => {},
    }
    assert forall|i: int| 0 <= i < fields.len() implies !(#[trigger] fields[i]).contains(' ') by {
        if fields[i].contains(' ') {
            let j = choose|j: int| 0 <= j < fields[i].len() && fields[i][j] == ' ';
            assert(i == 1 || i == 3 || i == 4 || i == 5);
        }
    }
    lemma_split_join(fields, ' ');
    assert(split(position_text(position), ' ') == fields);
    assert(fields.len() == 6);
    assert(parse_placement(fields[0]) == Some(position.board));
    assert(parse_turn(fields[1]) == Some(position.turn)) by {
        assert(seq!['b'][0] != seq!['w'][0]);
    }
    assert(parse_en_passant(fields[3]) == Some(position.en_passant)) by {
        if position.en_passant is Some {
            assert(fields[3].len() != seq!['-'].len());
        }
    }
}

/// The squares that the text of a rank stands for.
fn decode_rank(text: &Vec<char>) -> (row: Option<Vec<Piece>>)
    ensures
        match row {
            Some(squares) => rank_squares(text@) == Some(squares@),
            None => rank_squares(text@) is None,
        },
{
    let mut squares: Vec<Piece> = Vec::new();
    let mut i: usize = 0;
    assert(text@.skip(0) =~= text@);
    while i < text.len()
        invariant
            i <= text.len(),
            rank_squares(text@) == match rank_squares(text@.skip(i as int)) {
                Some(rest) => Some(squares@ + rest),
                None => None,
            },
        decreases text.len() - i,
    {
        let c = text[i];
        let ghost before = squares@;
        let ghost tail = text@.skip(i as int);
        assert(tail[0] == c);
        assert(tail.drop_first() =~= text@.skip(i + 1));
        if '1' <= c && c <= '8' {
            let count: u8 = c as u8 - '0' as u8;
            let mut n: u8 = 0;
            while n < count
                invariant
                    n <= count,
                    squares@ == before + empties(n as int),
                decreases count - n,
            {
                squares.push(Piece::Empty);
                assert(empties(n + 1) =~= empties(n as int).push(Piece::Empty));
                n = n + 1;
            }
            proof {
                if rank_squares(text@.skip(i + 1)) is Some {
                    let rest = rank_squares(text@.skip(i + 1)).unwrap();
                    assert(before + (empties(count as int) + rest) =~= squares@ + rest);
                }
            }
        } else {
            match from_symbol(c) {
                Some(piece) => {
                    squares.push(piece);
                    proof {
                        if rank_squares(text@.skip(i + 1)) is Some {
                            let rest = rank_squares(text@.skip(i + 1)).unwrap();
                            assert(before + (seq![piece] + rest) =~= squares@ + rest);
                        }
                    }
                },
                None => {
                    return None;
                },
            }
        }
        i = i + 1;
    }
    assert(text@.skip(i as int) =~= Seq::<char>::empty());
    assert(squares@ + Seq::<Piece>::empty() =~= squares@);
    Some(squares)
}

/// The board that the placement field `text` stands for.
fn decode_placement(text: &Vec<char>) -> (board: Option<Vec<Piece>>)
    ensures
        match board {
            Some(squares) => parse_placement(text@) == Some(squares@),
            None => parse_placement(text@) is None,
        },
{
    let ranks = split_chars(text, '/');
    if ranks.len() != 8 {
        return None;
    }
    let ghost texts = split(text@, '/');
    let mut squares: Vec<Piece> = Vec::new();
    let mut r: usize = 0;
    while r < 8
        invariant
            r <= 8,
            ranks.len() == 8,
            texts == views(ranks@),
            texts == split(text@, '/'),
            squares.len() == 8 * r,
            forall|q: int| 0 <= q < r ==> valid_rank(#[trigger] texts[q]),
            forall|s: int|
                0 <= s < 8 * r ==> #[trigger] squares@[s] == rank_squares(
                    texts[s / 8],
                ).unwrap()[s % 8],
        decreases 8 - r,
    {
        assert(texts[r as int] == ranks@[r as int]@);
        let row = match decode_rank(&ranks[r]) {
            Some(row) => row,
            None => {
                assert(!valid_rank(texts[r as int]));
                return None;
            },
        };
        if row.len() != 8 {
            assert(!valid_rank(texts[r as int]));
            return None;
        }
        let mut c: usize = 0;
        while c < 8
            invariant
                c <= 8,
                r < 8,
                row.len() == 8,
                texts.len() == 8,
                rank_squares(texts[r as int]) == Some(row@),
                squares.len() == 8 * r + c,
                forall|s: int|
                    0 <= s < 8 * r + c ==> #[trigger] squares@[s] == rank_squares(
                        texts[s / 8],
                    ).unwrap()[s % 8],
            decreases 8 - c,
        {
            squares.push(row[c]);
            c = c + 1;
        }
        r = r + 1;
    }
    assert(squares@ =~= Seq::new(64, |s: int| rank_squares(texts[s / 8]).unwrap()[s % 8]));
    Some(squares)
}

/// What the position string `text` says.
fn decode_position(text: &Vec<char>) -> (setup: Option<(Vec<Piece>, Color, Option<u8>)>)
    ensures
        match setup {
            Some((board, turn, en_passant)) => parse_position(text@) == Some(
                Setup {
                    board: board@,
                    turn,
                    en_passant: match en_passant {
                        Some(square) => Some(square as int),
                        None => None,
                    },
                },
            ) && board.len() == 64 && (en_passant matches Some(square) ==> square < 64),
            None => parse_position(text@) is None,
        },
{
    let fields = split_chars(text, ' ');
    if fields.len() != 6 {
        return None;
    }
    let ghost texts = split(text@, ' ');
    assert(texts[0] == fields@[0]@);
    assert(texts[1] == fields@[1]@);
    assert(texts[3] == fields@[3]@);
    let board = match decode_placement(&fields[0]) {
        Some(board) => board,
        None => {
            return None;
        },
    };
    let side = &fields[1];
    let turn = if side.len() == 1 && side[0] == 'w' {
        assert(side@ =~= seq!['w']);
        Color::White
    } else if side.len() == 1 && side[0] == 'b' {
        assert(side@ =~= seq!['b']);
        Color::Black
    } else {
        assert(side@ != seq!['w'] && side@ != seq!['b']) by {
            if side@ == seq!['w'] {
                assert(side@.len() == 1 && side@[0] == 'w');
            }
            if side@ == seq!['b'] {
                assert(side@.len() == 1 && side@[0] == 'b');
            }
        }
        return None;
    };
    let target = &fields[3];
    let en_passant = if target.len() == 1 && target[0] == '-' {
        assert(target@ =~= seq!['-']);
        None
    } else {
        assert(target@ != seq!['-']) by {
            if target@ == seq!['-'] {
                assert(target@.len() == 1 && target@[0] == '-');
            }
        }
        match parse_coordinate(target) {
            Some(square) => Some(square),
            None => {
                return None;
            },
        }
    };
    Some((board, turn, en_passant))
}

impl Game {
    /// Loads the position that the string `fen` describes: the board, the
    /// side to move and the en-passant target are taken from it, and the
    /// status is brought up to date; the promotion piece and the castling
    /// rights stay. A string that is not well formed is refused with
    /// `MalformedPosition`, and the game stays as it was.
    pub fn apply_fen(&mut self, fen: &str) -> (done: Result<(), ChessError>)
        requires
            old(self).wf(),
        ensures
            final(self).wf(),
            match parse_position(fen@) {
                Some(setup) => done == Ok::<(), ChessError>(()) && final(self)@ == (Position {
                    board: setup.board,
                    turn: setup.turn,
                    state: status_of(setup.board, setup.turn),
                    en_passant: setup.en_passant,
                    ..old(self)@
                }),
                None => done == Err::<(), ChessError>(ChessError::MalformedPosition) && final(self)@ == old(self)@,
            },
    {
        let chars = chars_of(fen);
        match decode_position(&chars) {
            Some((board, turn, en_passant)) => {
                self.board = board;
                self.turn = turn;
                self.enpassant = en_passant;
                self.check_checkstate();
                Ok(())
            },
            None => Err(ChessError::MalformedPosition),
        }
    }
    /// A game in the position that the string `fen` describes, with the
    /// queen as promotion piece and all four castling rights.
    /// `MalformedPosition` if the string is not well formed.
    pub fn new_board(fen: &str) -> (game: Result<Game, ChessError>)
        ensures
            match parse_position(fen@) {
                Some(setup) => game matches Ok(made) && made.wf() && made@ == (Position {
                    board: setup.board,
                    turn: setup.turn,
                    state: status_of(setup.board, setup.turn),
                    promotion: PieceType::Queen,
                    en_passant: setup.en_passant,
                    castling: CastlingRights::all(),
                }),
                None => game matches Err(e) && e == ChessError::MalformedPosition,
            },
    {
        let mut game = Game::new();
        match game.apply_fen(fen) {
            Ok(()) => Ok(game),
            Err(e) => Err(e),
        }
    }

    /// Appends the text of row `r` of the board to `out`.
    fn push_rank(&self, out: &mut String, r: usize)
        requires
            self@.wf(),
            r < 8,
        ensures
            final(out)@ == old(out)@ + rank_text(board_rank(self@.board, r as int), 0),
    {
        let ghost row = board_rank(self@.board, r as int);
        let ghost start = out@;
        let mut c: usize = 0;
        let mut run: u8 = 0;
        assert(row.skip(0) =~= row);
        while c < 8
            invariant
                c <= 8,
                r < 8,
                run <= c,
                self@.wf(),
                row == board_rank(self@.board, r as int),
                out@ + rank_text(row.skip(c as int), run as int) == start + rank_text(row, 0),
            decreases 8 - c,
        {
            let piece = self.board[8 * r + c];
            let ghost tail = row.skip(c as int);
            let ghost before = out@;
            assert(tail[0] == piece);
            assert(tail.drop_first() =~= row.skip(c + 1));
            match piece {
                Piece::Empty => {
                    run = run + 1;
                },
                Piece::Occupied { kind, color } => {
                    if run > 0 {
                        push_char(out, ('0' as u8 + run) as char);
                    }
                    push_char(out, symbol(piece));
                    assert(out@ =~= before + run_text(run as int) + seq![spec_symbol(piece)]);
                    assert(out@ + rank_text(row.skip(c + 1), 0) =~= before + (run_text(run as int)
                        + seq![spec_symbol(piece)] + rank_text(row.skip(c + 1), 0)));
                    run = 0;
                },
            }
            c = c + 1;
        }
        let ghost before = out@;
        assert(row.skip(8).len() == 0);
        if run > 0 {
            push_char(out, ('0' as u8 + run) as char);
        }
        assert(out@ =~= before + run_text(run as int));
    }

    /// Appends the placement field of the board to `out`.
    fn push_placement(&self, out: &mut String)
        requires
            self@.wf(),
        ensures
            final(out)@ == old(out)@ + placement_text(self@.board),
    {
        let ghost start = out@;
        let ghost ranks = rank_texts(self@.board);
        let mut r: usize = 0;
        assert(ranks.take(0) =~= Seq::<Seq<char>>::empty());
        assert(out@ =~= start + join(ranks.take(0), '/'));
        while r < 8
            invariant
                r <= 8,
                self@.wf(),
                ranks == rank_texts(self@.board),
                out@ == start + join(ranks.take(r as int), '/'),
            decreases 8 - r,
        {
            let ghost before = out@;
            if r > 0 {
                push_char(out, '/');
            }
            self.push_rank(out, r);
            proof {
                lemma_join_push(ranks.take(r as int), ranks[r as int], '/');
                assert(ranks.take(r + 1) =~= ranks.take(r as int).push(ranks[r as int]));
                if r > 0 {
                    assert(out@ =~= start + (join(ranks.take(r as int), '/') + seq!['/']
                        + ranks[r as int]));
                } else {
                    assert(out@ =~= start + ranks[r as int]);
                }
            }
            r = r + 1;
        }
        assert(ranks.take(8) =~= ranks);
    }

    /// Appends the castling field to `out`.
    fn push_castling(&self, out: &mut String)
        ensures
            final(out)@ == old(out)@ + castling_text(self@.castling),
    {
        if self.castling.white_king {
            push_char(out, 'K');
        }
        if self.castling.white_queen {
            push_char(out, 'Q');
        }
        if self.castling.black_king {
            push_char(out, 'k');
        }
        if self.castling.black_queen {
            push_char(out, 'q');
        }
        if !(self.castling.white_king || self.castling.white_queen || self.castling.black_king
            || self.castling.black_queen) {
            push_char(out, '-');
        }
        assert(out@ =~= old(out)@ + castling_text(self@.castling));
    }

    /// Appends the field of the side to move to `out`.
    fn push_turn(&self, out: &mut String)
        ensures
            final(out)@ == old(out)@ + turn_text(self@.turn),
    {
        match self.turn {
            Color::White => push_char(out, 'w'),
            Color::Black => push_char(out, 'b'),
        }
        assert(out@ =~= old(out)@ + turn_text(self@.turn));
    }

    /// Appends the en-passant field to `out`.
    fn push_en_passant(&self, out: &mut String)
        requires
            self@.wf(),
        ensures
            final(out)@ == old(out)@ + en_passant_text(self@.en_passant),
    {
        match self.enpassant {
            Some(square) => push_coordinate(out, square),
            None => {
                push_char(out, '-');
                assert(out@ =~= old(out)@ + seq!['-']);
            },
        }
    }

    /// The position string of the game: the placement, the side to move,
    /// the castling rights, the en-passant target, and the move counters
    /// `0` and `1`.
    pub fn to_fen(&self) -> (fen: String)
        requires
            self@.wf(),
        ensures
            fen@ == position_text(self@),
    {
        let mut fen = String::new();
        let ghost fields = position_fields(self@);
        self.push_placement(&mut fen);
        assert(fen@ =~= fields[0]);
        push_char(&mut fen, ' ');
        self.push_turn(&mut fen);
        assert(fen@ =~= fields[0] + seq![' '] + fields[1]);
        push_char(&mut fen, ' ');
        self.push_castling(&mut fen);
        assert(fen@ =~= fields[0] + seq![' '] + fields[1] + seq![' '] + fields[2]);
        push_char(&mut fen, ' ');
        self.push_en_passant(&mut fen);
        assert(fen@ =~= fields[0] + seq![' '] + fields[1] + seq![' '] + fields[2] + seq![' ']
            + fields[3]);
        push_char(&mut fen, ' ');
        push_char(&mut fen, '0');
        assert(fen@ =~= fields[0] + seq![' '] + fields[1] + seq![' '] + fields[2] + seq![' ']
            + fields[3] + seq![' '] + fields[4]);
        push_char(&mut fen, ' ');
        push_char(&mut fen, '1');
        assert(fen@ =~= fields[0] + seq![' '] + fields[1] + seq![' '] + fields[2] + seq![' ']
            + fields[3] + seq![' '] + fields[4] + seq![' '] + fields[5]);
        proof {
            lemma_join_six(fields, ' ');
        }
        fen
    }
}

} // verus!
