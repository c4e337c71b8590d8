//! The coordinate mapper: between square indices and coordinates made of a
//! file letter `A`..`H` and a rank `1`..`8`.
//!
//! File `A` is column 0; rank 8 is row 0, so that `A8` is square 0, `H8`
//! square 7, `A1` square 56 and `H1` square 63.

use vstd::prelude::*;
use crate::error::ChessError;
use crate::rules::{col_of, is_square, row_of, square_at};
use crate::text::push_char;

verus! {

/// `file` is the letter of a file.
pub open spec fn is_file(file: char) -> bool {
    'A' <= file <= 'H'
}

/// `rank` is the number of a rank.
pub open spec fn is_rank(rank: int) -> bool {
    1 <= rank <= 8
}

/// `digit` is the digit of a rank.
pub open spec fn is_rank_digit(digit: char) -> bool {
    '1' <= digit <= '8'
}

/// The square on file `file` and rank `rank`.
pub open spec fn coordinate_square(file: char, rank: int) -> int {
    square_at(8 - rank, file as u8 - 'A' as u8)
}

/// The letter of the file of `square`.
pub open spec fn file_of(square: int) -> char {
    ('A' as u8 + col_of(square)) as u8 as char
}

/// The rank of `square`.
pub open spec fn rank_of(square: int) -> int {
    8 - row_of(square)
}

/// The digit that names the rank `rank`.
pub open spec fn rank_digit(rank: int) -> char {
    ('0' as u8 + rank) as u8 as char
}

/// The square that a coordinate string names: a file letter followed by a
/// rank digit, and nothing else.
pub open spec fn parse_square(text: Seq<char>) -> Option<int> {
    if text.len() == 2 && is_file(text[0]) && is_rank_digit(text[1]) {
        Some(coordinate_square(text[0], text[1] as u8 - '0' as u8))
    } else {
        None
    }
}

/// The coordinate string of `square`.
pub open spec fn square_text(square: int) -> Seq<char> {
    seq![file_of(square), rank_digit(rank_of(square))]
}

/// The index of the square on file `file` and rank `rank`.
pub fn to_index(file: char, rank: u8) -> (square: Result<u8, ChessError>)
    ensures
        is_file(file) && is_rank(rank as int) ==> square == Ok::<u8, ChessError>(
            coordinate_square(file, rank as int) as u8,
        ) && is_square(coordinate_square(file, rank as int)),
        !(is_file(file) && is_rank(rank as int)) ==> square == Err::<u8, ChessError>(
            ChessError::InvalidCoordinate,
        ),
{
    if 'A' <= file && file <= 'H' && 1 <= rank && rank <= 8 {
        Ok((8 - rank) * 8 + (file as u8 - 'A' as u8))
    } else {
        Err(ChessError::InvalidCoordinate)
    }
}

/// The file and rank of the square with index `square`.
pub fn to_coordinate(square: u8) -> (coordinate: Result<(char, u8), ChessError>)
    ensures
        square < 64 ==> coordinate == Ok::<(char, u8), ChessError>(
            (file_of(square as int), rank_of(square as int) as u8),
        ),
        square >= 64 ==> coordinate == Err::<(char, u8), ChessError>(
            ChessError::InvalidCoordinate,
        ),
{
    if square < 64 {
        Ok((('A' as u8 + square % 8) as char, 8 - square / 8))
    } else {
        Err(ChessError::InvalidCoordinate)
    }
}

/// The two mappings are inverses of each other: a coordinate comes back
/// from its square.
pub proof fn lemma_coordinate_of_index(file: char, rank: int)
    requires
        is_file(file),
        is_rank(rank),
    ensures
        is_square(coordinate_square(file, rank)),
        file_of(coordinate_square(file, rank)) == file,
        rank_of(coordinate_square(file, rank)) == rank,
{
}

/// The two mappings are inverses of each other: a square comes back from
/// its coordinate.
pub proof fn lemma_index_of_coordinate(square: int)
    requires
        is_square(square),
    ensures
        is_file(file_of(square)),
        is_rank(rank_of(square)),
        coordinate_square(file_of(square), rank_of(square)) == square,
{
}

/// A square comes back from its coordinate string.
pub proof fn lemma_parse_square_text(square: int)
    requires
        is_square(square),
    ensures
        parse_square(square_text(square)) == Some(square),
{
    lemma_index_of_coordinate(square);
}

/// The square that the characters `text` name, if they are a coordinate.
pub fn parse_coordinate(text: &Vec<char>) -> (square: Option<u8>)
    ensures
        match square {
            Some(index) => parse_square(text@) == Some(index as int) && index < 64,
            None => parse_square(text@) is None,
        },
{
    if text.len() != 2 {
        return None;
    }
    let file = text[0];
    let digit = text[1];
    if 'A' <= file && file <= 'H' && '1' <= digit && digit <= '8' {
        let rank: u8 = digit as u8 - '0' as u8;
        Some((8 - rank) * 8 + (file as u8 - 'A' as u8))
    } else {
        None
    }
}

/// Appends the coordinate string of `square` to `out`.
pub(crate) fn push_coordinate(out: &mut String, square: u8)
    requires
        square < 64,
    ensures
        final(out)@ == old(out)@ + square_text(square as int),
{
    let file: char = ('A' as u8 + square % 8) as char;
    let digit: char = ('0' as u8 + (8 - square / 8)) as char;
    push_char(out, file);
    push_char(out, digit);
    assert(out@ =~= old(out)@ + square_text(square as int));
}

} // verus!
