//! The turn state machine: choosing the promotion piece, listing the legal
//! moves of a man, and applying a move.

use vstd::prelude::*;
use crate::coord::{parse_coordinate, parse_square, push_coordinate, square_text};
use crate::error::ChessError;
use crate::fen::{lemma_position_round_trip, parse_position, position_text, Setup};
use crate::game::{status_of, Game, GameState, Position};
use crate::piece::{spec_color_of, Color, Piece, PieceType};
use crate::rules::{is_square, legal_target, move_order, promotion_row, row_of};
use crate::text::chars_of;

verus! {

/// The kind that a promotion letter names: `q`, `r`, `b`, `n` or `p`, in
/// either case.
pub open spec fn promotion_kind(letter: char) -> Option<PieceType> {
    if letter == 'q' || letter == 'Q' {
        Some(PieceType::Queen)
    } else if letter == 'b' || letter == 'B' {
        Some(PieceType::Bishop)
    } else if letter == 'n' || letter == 'N' {
        Some(PieceType::Knight)
    } else if letter == 'r' || letter == 'R' {
        Some(PieceType::Rook)
    } else if letter == 'p' || letter == 'P' {
        Some(PieceType::Pawn)
    } else {
        None
    }
}

/// The move from `from` to `to` is a pawn's double step.
pub open spec fn is_double_step(board: Seq<Piece>, from: int, to: int) -> bool {
    &&& board[from] matches Piece::Occupied { kind: PieceType::Pawn, color }
    &&& (to - from == 16 || from - to == 16)
}

/// The man that stands on `to` once the man on `from` has moved there: the
/// man itself, or, for a pawn that reaches its farthest row, a man of the
/// kind `promotion` and of the pawn's color.
pub open spec fn arriving(board: Seq<Piece>, promotion: PieceType, from: int, to: int) -> Piece {
    match board[from] {
        Piece::Occupied { kind: PieceType::Pawn, color } => if row_of(to) == promotion_row(color) {
            Piece::Occupied { kind: promotion, color }
        } else {
            board[from]
        },
        other => other,
    }
}

/// The board after the man on `from` has moved to `to`.
pub open spec fn board_after(board: Seq<Piece>, promotion: PieceType, from: int, to: int) -> Seq<
    Piece,
> {
    board.update(to, arriving(board, promotion, from, to)).update(from, Piece::Empty)
}

impl Position {
    /// The move from `from` to `to` is legal: the side to move has a man on
    /// `from`, and `to` is among its legal destinations.
    pub open spec fn legal_move(self, from: int, to: int) -> bool {
        &&& is_square(from)
        &&& is_square(to)
        &&& spec_color_of(self.board[from]) == Some(self.turn)
        &&& legal_target(self.board, self.state == GameState::Check, from, to)
    }

    /// The position after the legal move from `from` to `to`: the man has
    /// moved, a pawn on its farthest row is promoted, the square that a
    /// double step skipped is the en-passant target and no other move leaves
    /// one, the other side is to move, and the status tells whether that
    /// side is in check.
    pub open spec fn after_move(self, from: int, to: int) -> Position {
        let board = board_after(self.board, self.promotion, from, to);
        let turn = self.turn.spec_opposite();
        Position {
            board,
            turn,
            state: status_of(board, turn),
            promotion: self.promotion,
            en_passant: if is_double_step(self.board, from, to) {
                Some((from + to) / 2)
            } else {
                None
            },
            castling: self.castling,
        }
    }
}

/// The position after each of `moves`, a list of pairs of squares, has been
/// played in turn from the start of a game; none if one of them is not
/// legal where it is played.
pub open spec fn played(moves: Seq<(int, int)>) -> Option<Position>
    decreases moves.len(),
{
    if moves.len() == 0 {
        Some(Position::standard())
    } else {
        match played(moves.drop_last()) {
            Some(before) => if before.legal_move(moves.last().0, moves.last().1) {
                Some(before.after_move(moves.last().0, moves.last().1))
            } else {
                None
            },
            None => None,
        }
    }
}

/// A legal move leaves a valid position, with the other side to move and
/// a status that tells whether that side is in check.
pub proof fn lemma_after_move_wf(position: Position, from: int, to: int)
    requires
        position.wf(),
        position.legal_move(from, to),
    ensures
        position.after_move(from, to).wf(),
        position.after_move(from, to).status_current(),
        position.after_move(from, to).turn == position.turn.spec_opposite(),
        position.after_move(from, to).board[from] == Piece::Empty,
        position.after_move(from, to).board[to] != Piece::Empty,
{
}

/// Every position reached by legal moves from the start of a game is
/// valid, and its status tells whether the side to move is in check.
pub proof fn lemma_played_wf(moves: Seq<(int, int)>)
    ensures
        played(moves) matches Some(position) ==> position.wf() && position.status_current(),
    decreases moves.len(),
{
    if moves.len() > 0 {
        lemma_played_wf(moves.drop_last());
        match played(moves.drop_last()) {
            Some(before) => {
                if before.legal_move(moves.last().0, moves.last().1) {
                    lemma_after_move_wf(before, moves.last().0, moves.last().1);
                }
            },
            None => {},
        }
    }
}

/// Round trip: for every position reached by legal moves from the start of
/// a game, reading its position string gives its board, its side to move
/// and its en-passant target again.
pub proof fn lemma_played_round_trip(moves: Seq<(int, int)>)
    ensures
        played(moves) matches Some(position) ==> parse_position(position_text(position)) == Some(
            Setup {
                board: position.board,
                turn: position.turn,
                en_passant: position.en_passant,
            },
        ),
{
    lemma_played_wf(moves);
    match played(moves) {
        Some(position) => {
            lemma_position_round_trip(position);
        },
        None => {},
    }
}

impl Game {
    /// The occupant of the square that `tile` names; `InvalidCoordinate`
    /// if `tile` names no square.
    pub fn piece_at(&self, tile: &str) -> (piece: Result<Piece, ChessError>)
        requires
            self@.wf(),
        ensures
            match piece {
                Ok(found) => parse_square(tile@) matches Some(square) && found
                    == self@.board[square],
                Err(e) => parse_square(tile@) is None && e == ChessError::InvalidCoordinate,
            },
    {
        match Game::grid_to_vector(tile) {
            Ok(square) => Ok(self.board[square as usize]),
            Err(e) => Err(e),
        }
    }

    /// The square index that a coordinate string names, if it names one: a
    /// file letter `A`..`H` followed by a rank digit `1`..`8`.
    pub fn parse_to_index(position: &str) -> (index: Option<usize>)
        ensures
            match index {
                Some(square) => parse_square(position@) == Some(square as int),
                None => parse_square(position@) is None,
            },
    {
        let chars = chars_of(position);
        match parse_coordinate(&chars) {
            Some(square) => Some(square as usize),
            None => None,
        }
    }

    /// The square index that a coordinate string names; `InvalidCoordinate`
    /// if it names none.
    pub fn grid_to_vector(tile: &str) -> (index: Result<u8, ChessError>)
        ensures
            match index {
                Ok(square) => parse_square(tile@) == Some(square as int),
                Err(e) => parse_square(tile@) is None && e == ChessError::InvalidCoordinate,
            },
    {
        let chars = chars_of(tile);
        match parse_coordinate(&chars) {
            Some(square) => Ok(square),
            None => Err(ChessError::InvalidCoordinate),
        }
    }

    /// The coordinate string of the square with index `input`;
    /// `InvalidCoordinate` if `input` is not below 64.
    pub fn vector_to_grid(input: u8) -> (tile: Result<String, ChessError>)
        ensures
            match tile {
                Ok(text) => input < 64 && text@ == square_text(input as int),
                Err(e) => input >= 64 && e == ChessError::InvalidCoordinate,
            },
    {
        if input >= 64 {
            return Err(ChessError::InvalidCoordinate);
        }
        let mut text = String::new();
        push_coordinate(&mut text, input);
        assert(text@ =~= square_text(input as int));
        Ok(text)
    }

    /// Chooses what a pawn becomes on reaching the farthest row, from now
    /// on: `q`, `r`, `b`, `n` or `p`, in either case. Any other letter is
    /// refused with `InvalidPromotion`, and the game stays as it was.
    pub fn set_promotion(&mut self, piece: char) -> (done: Result<(), ChessError>)
        requires
            old(self).wf(),
        ensures
            final(self).wf(),
            match promotion_kind(piece) {
                Some(kind) => done == Ok::<(), ChessError>(()) && final(self)@ == (Position {
                    promotion: kind,
                    ..old(self)@
                }),
                None => done == Err::<(), ChessError>(ChessError::InvalidPromotion) && final(self)@
                    == old(self)@,
            },
    {
        let kind = if piece == 'q' || piece == 'Q' {
            PieceType::Queen
        } else if piece == 'b' || piece == 'B' {
            PieceType::Bishop
        } else if piece == 'n' || piece == 'N' {
            PieceType::Knight
        } else if piece == 'r' || piece == 'R' {
            PieceType::Rook
        } else if piece == 'p' || piece == 'P' {
            PieceType::Pawn
        } else {
            return Err(ChessError::InvalidPromotion);
        };
        self.promotion = kind;
        Ok(())
    }

    /// The legal destinations of the man on square `index`: for a king, one
    /// step in any direction onto a square that the other side does not
    /// attack; for any other man, the destinations of its kind, and none
    /// while the status is `Check`. The list stands in the order of the
    /// generator of that kind.
    pub fn legal_moves(&self, index: usize) -> (moves: Vec<u8>)
        requires
            self@.wf(),
        ensures
            moves@.no_duplicates(),
            forall|t: u8| #[trigger]
                moves@.contains(t) <==> legal_target(
                    self@.board,
                    self@.state == GameState::Check,
                    index as int,
                    t as int,
                ),
            forall|i: int, j: int|
                0 <= i < j < moves.len() ==> move_order(self@.board, index as int, moves@[i] as int)
                    < move_order(self@.board, index as int, moves@[j] as int),
    {
        if index >= 64 {
            return Vec::new();
        }
        match self.board[index] {
            Piece::Empty => Vec::new(),
            Piece::Occupied { kind, color } => {
                if kind == PieceType::King {
                    self.king_moves(index, color)
                } else if self.state == GameState::Check {
                    Vec::new()
                } else {
                    self.candidate_moves(index)
                }
            },
        }
    }

    /// The legal destinations of the man on the square that `tile` names,
    /// or `None` if that square is empty; `InvalidCoordinate` if `tile`
    /// names no square.
    pub fn get_valid_moves(&self, tile: &str) -> (moves: Result<Option<Vec<u8>>, ChessError>)
        requires
            self@.wf(),
        ensures
            match moves {
                Ok(Some(list)) => {
                    &&& parse_square(tile@) matches Some(from)
                    &&& self@.board[from] != Piece::Empty
                    &&& list@.no_duplicates()
                    &&& forall|t: u8| #[trigger]
                        list@.contains(t) <==> legal_target(
                            self@.board,
                            self@.state == GameState::Check,
                            from,
                            t as int,
                        )
                    &&& forall|i: int, j: int|
                        0 <= i < j < list.len() ==> move_order(self@.board, from, list@[i] as int)
                            < move_order(self@.board, from, list@[j] as int)
                },
                Ok(None) => {
                    &&& parse_square(tile@) matches Some(from)
                    &&& self@.board[from] == Piece::Empty
                },
                Err(e) => parse_square(tile@) is None && e == ChessError::InvalidCoordinate,
            },
    {
        let from = match Game::grid_to_vector(tile) {
            Ok(square) => square,
            Err(e) => {
                return Err(e);
            },
        };
        if self.board[from as usize] == Piece::Empty {
            Ok(None)
        } else {
            Ok(Some(self.legal_moves(from as usize)))
        }
    }

    /// Clears the square with index `square`.
    fn remove_piece(&mut self, square: u8)
        requires
            old(self)@.wf(),
            square < 64,
        ensures
            final(self)@.wf(),
            final(self)@ == (Position {
                board: old(self)@.board.update(square as int, Piece::Empty),
                ..old(self)@
            }),
    {
        self.board.set(square as usize, Piece::Empty);
    }

    /// Brings the status up to date: `Check` if a king of the side to move
    /// stands on a square that the other side attacks, `InProgress` if not.
    pub fn check_checkstate(&mut self)
        requires
            old(self)@.wf(),
        ensures
            final(self).wf(),
            final(self)@ == (Position {
                state: status_of(old(self)@.board, old(self)@.turn),
                ..old(self)@
            }),
    {
        let checked = self.is_in_check(self.turn);
        if checked {
            self.state = GameState::Check;
        } else {
            self.state = GameState::InProgress;
        }
    }

    /// Applies the move from the square that `current_tile` names to the
    /// square that `new_tile` names, if it is a legal move of the side to
    /// move. A refused move leaves the game as it was: `InvalidCoordinate`
    /// if a coordinate names no square, `IllegalMove` if the side to move
    /// has no man on the first square or the second is none of its legal
    /// destinations.
    pub fn move_piece(&mut self, current_tile: &str, new_tile: &str) -> (done: Result<
        (),
        ChessError,
    >)
        requires
            old(self).wf(),
        ensures
            final(self).wf(),
            match (parse_square(current_tile@), parse_square(new_tile@)) {
                (Some(from), Some(to)) => if old(self)@.legal_move(from, to) {
                    done == Ok::<(), ChessError>(()) && final(self)@ == old(self)@.after_move(
                        from,
                        to,
                    )
                } else {
                    done == Err::<(), ChessError>(ChessError::IllegalMove) && final(self)@ == old(self)@
                },
                _ => done == Err::<(), ChessError>(ChessError::InvalidCoordinate) && final(self)@
                    == old(self)@,
            },
    {
        let from = match Game::grid_to_vector(current_tile) {
            Ok(square) => square,
            Err(e) => {
                return Err(e);
            },
        };
        let to = match Game::grid_to_vector(new_tile) {
            Ok(square) => square,
            Err(e) => {
                return Err(e);
            },
        };
        let moving = self.board[from as usize];
        let (kind, color) = match moving {
            Piece::Empty => {
                return Err(ChessError::IllegalMove);
            },
            Piece::Occupied { kind, color } => (kind, color),
        };
        if color != self.turn {
            return Err(ChessError::IllegalMove);
        }
        let moves = self.legal_moves(from as usize);
        if !contains_square(&moves, to) {
            return Err(ChessError::IllegalMove);
        }
        let ghost before = self@;
        let double_step = kind == PieceType::Pawn && (to == from + 16 || from == to + 16);
        let last_row: u8 = match color {
            Color::White => 0,
            Color::Black => 7,
        };
        let arrived = if kind == PieceType::Pawn && to / 8 == last_row {
            Piece::Occupied { kind: self.promotion, color }
        } else {
            moving
        };
        self.board.set(to as usize, arrived);
        self.remove_piece(from);
        self.enpassant = if double_step {
            Some((from + to) / 2)
        } else {
            None
        };
        self.turn = color.opposite();
        self.check_checkstate();
        assert(self@.board =~= before.after_move(from as int, to as int).board);
        Ok(())
    }
}

/// Whether `square` is among `squares`.
fn contains_square(squares: &Vec<u8>, square: u8) -> (found: bool)
    ensures
        found == squares@.contains(square),
{
    let mut i: usize = 0;
    while i < squares.len()
        invariant
            i <= squares.len(),
            forall|j: int| 0 <= j < i ==> squares@[j] != square,
        decreases squares.len() - i,
    {
        if squares[i] == square {
            return true;
        }
        i = i + 1;
    }
    false
}

} // verus!
