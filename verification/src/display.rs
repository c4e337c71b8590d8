//! A picture of the board in plain text, for a caller that wants to show
//! it: a line that names the files, then one line for each rank from 8
//! down to 1.

use vstd::prelude::*;
use crate::coord::rank_digit;
use crate::game::Game;
use crate::piece::{spec_symbol, symbol, Piece};
use crate::text::push_char;

verus! {

/// The first `count` cells of a line: each a character followed by a blank.
pub open spec fn cells(marks: Seq<char>, count: int) -> Seq<char> {
    Seq::new((2 * count) as nat, |i: int| if i % 2 == 0 { marks[i / 2] } else { ' ' })
}

/// The letters of the eight files.
pub open spec fn file_letters() -> Seq<char> {
    seq!['A', 'B', 'C', 'D', 'E', 'F', 'G', 'H']
}

/// The letters of the men on row `r`, a blank for each empty square.
pub open spec fn row_symbols(board: Seq<Piece>, r: int) -> Seq<char> {
    Seq::new(8, |c: int| spec_symbol(board[8 * r + c]))
}

/// The first line of the picture: three blanks, then a cell for each file.
pub open spec fn picture_header() -> Seq<char> {
    seq![' ', ' ', ' '] + cells(file_letters(), 8)
}

/// The line of row `r`: a line feed, the digit of the rank, two blanks,
/// then a cell for each square.
pub open spec fn picture_row(board: Seq<Piece>, r: int) -> Seq<char> {
    seq!['\n', rank_digit(8 - r), ' ', ' '] + cells(row_symbols(board, r), 8)
}

/// The lines of the first `count` rows.
pub open spec fn picture_rows(board: Seq<Piece>, count: int) -> Seq<char>
    decreases count,
{
    if count <= 0 {
        Seq::<char>::empty()
    } else {
        picture_rows(board, count - 1) + picture_row(board, count - 1)
    }
}

/// The picture of a board.
pub open spec fn picture(board: Seq<Piece>) -> Seq<char> {
    picture_header() + picture_rows(board, 8)
}

impl Game {
    /// The picture of the board: the file letters, then the ranks from 8
    /// down to 1, each with its digit and the letters of its men, upper
    /// case for White and lower case for Black.
    pub fn board_picture(&self) -> (text: String)
        requires
            self@.wf(),
        ensures
            text@ == picture(self@.board),
    {
        let ghost board = self@.board;
        let mut text = String::new();
        push_char(&mut text, ' ');
        push_char(&mut text, ' ');
        push_char(&mut text, ' ');
        let mut c: u8 = 0;
        assert(text@ =~= seq![' ', ' ', ' '] + cells(file_letters(), 0));
        while c < 8
            invariant
                c <= 8,
                text@ == seq![' ', ' ', ' '] + cells(file_letters(), c as int),
            decreases 8 - c,
        {
            push_char(&mut text, ('A' as u8 + c) as char);
            push_char(&mut text, ' ');
            assert(text@ =~= seq![' ', ' ', ' '] + cells(file_letters(), c + 1));
            c = c + 1;
        }
        let mut r: usize = 0;
        assert(text@ =~= picture_header() + picture_rows(board, 0));
        while r < 8
            invariant
                r <= 8,
                self@.wf(),
                board == self@.board,
                text@ == picture_header() + picture_rows(board, r as int),
            decreases 8 - r,
        {
            let ghost before = text@;
            push_char(&mut text, '\n');
            push_char(&mut text, ('0' as u8 + (8 - r) as u8) as char);
            push_char(&mut text, ' ');
            push_char(&mut text, ' ');
            let ghost start = text@;
            let ghost marks = row_symbols(board, r as int);
            let mut c: usize = 0;
            assert(text@ =~= start + cells(marks, 0));
            while c < 8
                invariant
                    c <= 8,
                    r < 8,
                    self@.wf(),
                    board == self@.board,
                    marks == row_symbols(board, r as int),
                    text@ == start + cells(marks, c as int),
                decreases 8 - c,
            {
                push_char(&mut text, symbol(self.board[8 * r + c]));
                push_char(&mut text, ' ');
                assert(text@ =~= start + cells(marks, c + 1));
                c = c + 1;
            }
            assert(text@ =~= before + picture_row(board, r as int));
            assert(text@ =~= picture_header() + (picture_rows(board, r as int) + picture_row(
                board,
                r as int,
            )));
            r = r + 1;
        }
        text
    }
}

} // verus!
