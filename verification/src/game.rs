//! The game: a board of 64 squares, the side to move, and the bookkeeping
//! that applying a move keeps up to date.

use vstd::prelude::*;
use crate::piece::{spec_color_of, Color, Piece, PieceType};
use crate::rules::{
    attacked, col_delta, col_of, distance, in_check, is_square, legal_target, piece_target,
    ray_square, row_delta, row_of, sign,
};

verus! {

/// The status of a game.
#[derive(Clone, Copy, Debug, PartialEq, Eq, Structural)]
pub enum GameState {
    /// The side to move is not in check.
    InProgress,
    /// A king of the side to move stands on an attacked square.
    Check,
    /// The game has ended. No game of this library reaches this status:
    /// the end of a game is not detected.
    GameOver,
}

/// The four castling rights. They are kept and written out, but no move
/// uses or clears one.
#[derive(Clone, Copy, Debug, PartialEq, Eq, Structural)]
pub struct CastlingRights {
    pub white_king: bool,
    pub white_queen: bool,
    pub black_king: bool,
    pub black_queen: bool,
}

/// The mathematical content of a game.
pub struct Position {
    /// The occupant of each of the 64 squares.
    pub board: Seq<Piece>,
    /// The side to move.
    pub turn: Color,
    /// Whether the side to move is in check.
    pub state: GameState,
    /// What a pawn becomes on reaching the farthest row.
    pub promotion: PieceType,
    /// The square that a pawn skipped on the last move, if it made a double step.
    pub en_passant: Option<int>,
    /// The castling rights.
    pub castling: CastlingRights,
}

/// A game of chess. It owns its board; the only way to change it is to
/// apply a move, to load a position, or to choose the promotion piece.
pub struct Game {
    pub(crate) board: Vec<Piece>,
    pub(crate) state: GameState,
    pub(crate) turn: Color,
    pub(crate) castling: CastlingRights,
    pub(crate) promotion: PieceType,
    pub(crate) enpassant: Option<u8>,
}

/// The status of a position: `Check` when a king of the side to move stands
/// on an attacked square, `InProgress` otherwise.
pub open spec fn status_of(board: Seq<Piece>, turn: Color) -> GameState {
    if in_check(board, turn) {
        GameState::Check
    } else {
        GameState::InProgress
    }
}

impl View for Game {
    type V = Position;

    open(crate) spec fn view(&self) -> Position {
        Position {
            board: self.board@,
            turn: self.turn,
            state: self.state,
            promotion: self.promotion,
            en_passant: match self.enpassant {
                Some(square) => Some(square as int),
                None => None,
            },
            castling: self.castling,
        }
    }
}

impl CastlingRights {
    /// What `all` returns.
    pub open spec fn spec_all() -> CastlingRights {
        CastlingRights { white_king: true, white_queen: true, black_king: true, black_queen: true }
    }

    /// All four rights.
    #[verifier::when_used_as_spec(spec_all)]
    pub fn all() -> (rights: CastlingRights)
        ensures
            rights == CastlingRights::spec_all(),
    {
        CastlingRights { white_king: true, white_queen: true, black_king: true, black_queen: true }
    }
}

/// The kind of the man that starts on column `col` of a back row.
pub open spec fn back_row_kind(col: int) -> PieceType {
    if col == 0 || col == 7 {
        PieceType::Rook
    } else if col == 1 || col == 6 {
        PieceType::Knight
    } else if col == 2 || col == 5 {
        PieceType::Bishop
    } else if col == 3 {
        PieceType::Queen
    } else {
        PieceType::King
    }
}

/// The occupant of `square` at the start of a game: Black's men on rows 0
/// and 1, White's on rows 6 and 7, pawns in front.
pub open spec fn standard_piece(square: int) -> Piece {
    let row = row_of(square);
    let col = col_of(square);
    if row == 0 {
        Piece::Occupied { kind: back_row_kind(col), color: Color::Black }
    } else if row == 1 {
        Piece::Occupied { kind: PieceType::Pawn, color: Color::Black }
    } else if row == 6 {
        Piece::Occupied { kind: PieceType::Pawn, color: Color::White }
    } else if row == 7 {
        Piece::Occupied { kind: back_row_kind(col), color: Color::White }
    } else {
        Piece::Empty
    }
}

/// The board at the start of a game.
pub open spec fn standard_board() -> Seq<Piece> {
    Seq::new(64, |square: int| standard_piece(square))
}

impl Position {
    /// The position at the start of a game: the standard board, White to
    /// move, the queen as promotion piece, no en-passant target, all four
    /// castling rights.
    pub open spec fn standard() -> Position {
        Position {
            board: standard_board(),
            turn: Color::White,
            state: GameState::InProgress,
            promotion: PieceType::Queen,
            en_passant: None,
            castling: CastlingRights::spec_all(),
        }
    }

    /// The shape of a position: 64 squares, a promotion piece other than
    /// the king, and an en-passant target on the board.
    pub open spec fn wf(self) -> bool {
        &&& self.board.len() == 64
        &&& self.promotion != PieceType::King
        &&& self.en_passant matches Some(square) ==> is_square(square)
    }

    /// The status tells whether the side to move is in check.
    pub open spec fn status_current(self) -> bool {
        self.state == status_of(self.board, self.turn)
    }
}

/// At the start of a game no man of either side has a square beyond the
/// two rows in front of its own pawns among its destinations: the sliding
/// men are shut in, and knights and pawns reach no farther.
pub proof fn lemma_standard_reach(from: int, target: int)
    requires
        piece_target(standard_board(), from, target),
    ensures
        2 <= row_of(target) <= 5,
{
    let board = standard_board();
    assert(board[from] == standard_piece(from));
    assert(board[target] == standard_piece(target));
    match board[from] {
        Piece::Empty => {},
        Piece::Occupied { kind, color } => {
            if kind != PieceType::Knight && kind != PieceType::Pawn {
                let dr = sign(row_delta(from, target));
                let dc = sign(col_delta(from, target));
                if distance(from, target) > 1 {
                    let next = ray_square(from, dr, dc, 1);
                    assert(is_square(next));
                    assert(board[next] == standard_piece(next));
                    assert(board[next] == Piece::Empty);
                }
            }
        },
    }
}

/// At the start of a game the kings have no legal destination.
pub proof fn lemma_standard_king_shut_in(origin: int, target: int)
    requires
        standard_board()[origin] matches Piece::Occupied { kind: PieceType::King, color },
    ensures
        !legal_target(standard_board(), false, origin, target),
{
    if legal_target(standard_board(), false, origin, target) {
        lemma_standard_reach(origin, target);
        assert(standard_board()[origin] == standard_piece(origin));
    }
}

/// At the start of a game neither side is in check.
pub proof fn lemma_standard_status(side: Color)
    ensures
        !in_check(standard_board(), side),
        status_of(standard_board(), side) == GameState::InProgress,
{
    let board = standard_board();
    if in_check(board, side) {
        let square = choose|square: int|
            is_square(square) && board[square] == (Piece::Occupied {
                kind: PieceType::King,
                color: side,
            }) && #[trigger] attacked(board, side.spec_opposite(), square);
        let from = choose|from: int|
            is_square(from) && spec_color_of(board[from]) == Some(side.spec_opposite())
                && #[trigger] piece_target(board, from, square);
        lemma_standard_reach(from, square);
        assert(board[square] == standard_piece(square));
    }
}

/// The kind of the man that starts on column `col` of a back row.
fn back_row(col: usize) -> (kind: PieceType)
    requires
        col < 8,
    ensures
        kind == back_row_kind(col as int),
{
    if col == 0 || col == 7 {
        PieceType::Rook
    } else if col == 1 || col == 6 {
        PieceType::Knight
    } else if col == 2 || col == 5 {
        PieceType::Bishop
    } else if col == 3 {
        PieceType::Queen
    } else {
        PieceType::King
    }
}

impl Game {
    /// The validity of a game: its position has the shape of one, and its
    /// status tells whether the side to move is in check. Every constructor
    /// establishes it and every method keeps it.
    pub open spec fn wf(&self) -> bool {
        self@.wf() && self@.status_current()
    }

    /// A game at its start.
    pub fn new() -> (game: Game)
        ensures
            game.wf(),
            game@ == Position::standard(),
    {
        let mut board: Vec<Piece> = Vec::new();
        let mut square: usize = 0;
        while square < 64
            invariant
                square <= 64,
                board.len() == square,
                forall|s: int| 0 <= s < square ==> board@[s] == standard_piece(s),
            decreases 64 - square,
        {
            let row = square / 8;
            let col = square % 8;
            let piece = if row == 0 {
                Piece::Occupied { kind: back_row(col), color: Color::Black }
            } else if row == 1 {
                Piece::Occupied { kind: PieceType::Pawn, color: Color::Black }
            } else if row == 6 {
                Piece::Occupied { kind: PieceType::Pawn, color: Color::White }
            } else if row == 7 {
                Piece::Occupied { kind: back_row(col), color: Color::White }
            } else {
                Piece::Empty
            };
            board.push(piece);
            square = square + 1;
        }
        assert(board@ =~= standard_board());
        proof {
            lemma_standard_status(Color::White);
        }
        Game {
            board,
            state: GameState::InProgress,
            turn: Color::White,
            castling: CastlingRights::all(),
            promotion: PieceType::Queen,
            enpassant: None,
        }
    }

    /// The side to move.
    pub fn turn(&self) -> (turn: Color)
        ensures
            turn == self@.turn,
    {
        self.turn
    }

    /// What a pawn becomes on reaching the farthest row.
    pub fn promotion(&self) -> (kind: PieceType)
        ensures
            kind == self@.promotion,
    {
        self.promotion
    }

    /// The index of the en-passant target, if there is one.
    pub fn en_passant(&self) -> (target: Option<u8>)
        ensures
            match target {
                Some(square) => self@.en_passant == Some(square as int),
                None => self@.en_passant is None,
            },
    {
        self.enpassant
    }

    /// The castling rights.
    pub fn castling(&self) -> (rights: CastlingRights)
        ensures
            rights == self@.castling,
    {
        self.castling
    }

    /// The current status.
    pub fn get_state(&self) -> (state: GameState)
        ensures
            state == self@.state,
    {
        self.state
    }
}

} // verus!
