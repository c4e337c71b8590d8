//! The geometry of the board and the destinations of each kind of man,
//! stated over a board snapshot of 64 occupants.
//!
//! Squares are numbered row by row from the corner of file A on rank 8:
//! `square = row * 8 + column`, where row 0 is rank 8 and column 0 is file A.
//! White advances towards row 0, Black towards row 7.

use vstd::prelude::*;
use crate::piece::{spec_color_of, Color, Piece, PieceType};

verus! {

/// `square` is the index of a square of the board.
pub open spec fn is_square(square: int) -> bool {
    0 <= square < 64
}

/// The row of a square: 0 for rank 8, 7 for rank 1.
pub open spec fn row_of(square: int) -> int {
    square / 8
}

/// The column of a square: 0 for file A, 7 for file H.
pub open spec fn col_of(square: int) -> int {
    square % 8
}

/// The board has a square on this row and column.
pub open spec fn on_board(row: int, col: int) -> bool {
    0 <= row < 8 && 0 <= col < 8
}

/// The index of the square on this row and column.
pub open spec fn square_at(row: int, col: int) -> int {
    row * 8 + col
}

/// The direction of a difference: -1, 0 or 1.
pub open spec fn sign(delta: int) -> int {
    if delta > 0 {
        1
    } else if delta < 0 {
        -1
    } else {
        0
    }
}

/// The size of a difference.
pub open spec fn magnitude(delta: int) -> int {
    if delta < 0 {
        -delta
    } else {
        delta
    }
}

/// `steps` taken in the direction of `unit`: forwards, backwards or not at all.
pub open spec fn toward(unit: int, steps: int) -> int {
    if unit > 0 {
        steps
    } else if unit < 0 {
        -steps
    } else {
        0
    }
}

/// How many rows `target` lies below `origin`.
pub open spec fn row_delta(origin: int, target: int) -> int {
    row_of(target) - row_of(origin)
}

/// How many columns `target` lies to the right of `origin`.
pub open spec fn col_delta(origin: int, target: int) -> int {
    col_of(target) - col_of(origin)
}

/// The number of king steps between two squares.
pub open spec fn distance(origin: int, target: int) -> int {
    let rows = magnitude(row_delta(origin, target));
    let cols = magnitude(col_delta(origin, target));
    if rows >= cols {
        rows
    } else {
        cols
    }
}

/// Two different squares on one rank or one file.
pub open spec fn on_rank_or_file(origin: int, target: int) -> bool {
    origin != target && (row_delta(origin, target) == 0 || col_delta(origin, target) == 0)
}

/// Two different squares on one diagonal.
pub open spec fn on_diagonal(origin: int, target: int) -> bool {
    origin != target && magnitude(row_delta(origin, target)) == magnitude(
        col_delta(origin, target),
    )
}

/// The square `steps` steps away from `origin` in the direction `(dr, dc)`,
/// each of `dr` and `dc` being -1, 0 or 1.
pub open spec fn ray_square(origin: int, dr: int, dc: int, steps: int) -> int {
    square_at(row_of(origin) + toward(dr, steps), col_of(origin) + toward(dc, steps))
}

/// The direction from `origin` to `target` is `(dr, dc)`.
pub open spec fn heading(origin: int, target: int, dr: int, dc: int) -> bool {
    sign(row_delta(origin, target)) == dr && sign(col_delta(origin, target)) == dc
}

/// The place of the direction `(dr, dc)` in the round of the compass that
/// starts in the north, towards row 0, and turns by way of the east: north
/// 0, north-east 1, east 2, and so on to north-west 7.
pub open spec fn compass(dr: int, dc: int) -> int {
    if dr < 0 && dc == 0 {
        0
    } else if dr < 0 && dc > 0 {
        1
    } else if dr == 0 && dc > 0 {
        2
    } else if dr > 0 && dc > 0 {
        3
    } else if dr > 0 && dc == 0 {
        4
    } else if dr > 0 && dc < 0 {
        5
    } else if dr == 0 && dc < 0 {
        6
    } else {
        7
    }
}

/// The place of `target` among the squares around `origin` when they are
/// taken ray by ray round the compass, and on each ray from the nearest
/// outwards.
pub open spec fn ray_order(origin: int, target: int) -> int {
    compass(row_delta(origin, target), col_delta(origin, target)) * 8 + distance(origin, target)
}

/// The place of the leap by `dr` rows and `dc` columns among the eight
/// leaps of a knight, taken clockwise from the one that goes two rows up
/// and one column left.
pub open spec fn leap_place(dr: int, dc: int) -> int {
    if dr == -2 && dc == -1 {
        0
    } else if dr == -2 && dc == 1 {
        1
    } else if dr == -1 && dc == 2 {
        2
    } else if dr == 1 && dc == 2 {
        3
    } else if dr == 2 && dc == 1 {
        4
    } else if dr == 2 && dc == -1 {
        5
    } else if dr == 1 && dc == -2 {
        6
    } else {
        7
    }
}

/// The place of `target` among the leaps of a knight on `origin`.
pub open spec fn leap_order(origin: int, target: int) -> int {
    leap_place(row_delta(origin, target), col_delta(origin, target))
}

/// The place of `target` among the moves of a pawn on `origin`: the push,
/// the double push, the capture towards file A, the capture towards file H.
pub open spec fn pawn_order(origin: int, target: int) -> int {
    if col_delta(origin, target) == 0 {
        magnitude(row_delta(origin, target))
    } else if col_delta(origin, target) < 0 {
        3
    } else {
        4
    }
}

/// The place of `target` among the destinations of the man on `origin`,
/// by which the generators order their lists.
pub open spec fn move_order(board: Seq<Piece>, origin: int, target: int) -> int {
    match board[origin] {
        Piece::Occupied { kind: PieceType::Knight, color } => leap_order(origin, target),
        Piece::Occupied { kind: PieceType::Pawn, color } => pawn_order(origin, target),
        _ => ray_order(origin, target),
    }
}

/// Every square strictly between `origin` and `target`, which lie on one
/// line, is empty.
pub open spec fn path_clear(board: Seq<Piece>, origin: int, target: int) -> bool {
    forall|j: int|
        1 <= j < distance(origin, target) ==> board[#[trigger] ray_square(
            origin,
            sign(row_delta(origin, target)),
            sign(col_delta(origin, target)),
            j,
        )] == Piece::Empty
}

/// A man stands on `origin`, and `target` does not hold a man of its color.
pub open spec fn may_land(board: Seq<Piece>, origin: int, target: int) -> bool {
    board[origin] != Piece::Empty && spec_color_of(board[target]) != spec_color_of(board[origin])
}

/// `target` is a destination of the man on `origin` when it moves along the
/// lines that the flags permit: `target` lies on such a line, within one
/// step unless `multi`, nothing stands between the two squares, and `target`
/// is empty or holds a man of the other color.
pub open spec fn sliding_target(
    board: Seq<Piece>,
    origin: int,
    diagonal: bool,
    orthogonal: bool,
    multi: bool,
    target: int,
) -> bool {
    &&& is_square(origin)
    &&& is_square(target)
    &&& (orthogonal && on_rank_or_file(origin, target)) || (diagonal && on_diagonal(
        origin,
        target,
    ))
    &&& multi || distance(origin, target) == 1
    &&& path_clear(board, origin, target)
    &&& may_land(board, origin, target)
}

/// `target` is a knight's leap away from the man on `origin` and is empty
/// or holds a man of the other color.
pub open spec fn knight_target(board: Seq<Piece>, origin: int, target: int) -> bool {
    let rows = magnitude(row_delta(origin, target));
    let cols = magnitude(col_delta(origin, target));
    &&& is_square(origin)
    &&& is_square(target)
    &&& (rows == 1 && cols == 2) || (rows == 2 && cols == 1)
    &&& may_land(board, origin, target)
}

/// The change of row when a pawn of `color` advances one rank.
pub open spec fn forward(color: Color) -> int {
    match color {
        Color::White => -1,
        Color::Black => 1,
    }
}

/// The row on which the pawns of `color` start.
pub open spec fn start_row(color: Color) -> int {
    match color {
        Color::White => 6,
        Color::Black => 1,
    }
}

/// The row on which a pawn of `color` is promoted.
pub open spec fn promotion_row(color: Color) -> int {
    match color {
        Color::White => 0,
        Color::Black => 7,
    }
}

/// `target` is the empty square straight ahead of a pawn of `color`.
pub open spec fn pawn_push(board: Seq<Piece>, origin: int, color: Color, target: int) -> bool {
    &&& col_delta(origin, target) == 0
    &&& row_delta(origin, target) == forward(color)
    &&& board[target] == Piece::Empty
}

/// `target` is two squares straight ahead of a pawn of `color` that stands
/// on its starting row, and both squares ahead are empty.
pub open spec fn pawn_double_push(
    board: Seq<Piece>,
    origin: int,
    color: Color,
    target: int,
) -> bool {
    &&& col_delta(origin, target) == 0
    &&& row_delta(origin, target) == 2 * forward(color)
    &&& row_of(origin) == start_row(color)
    &&& board[square_at(row_of(origin) + forward(color), col_of(origin))] == Piece::Empty
    &&& board[target] == Piece::Empty
}

/// `target` is diagonally ahead of a pawn of `color` and holds a man of the
/// other color.
pub open spec fn pawn_capture(board: Seq<Piece>, origin: int, color: Color, target: int) -> bool {
    &&& magnitude(col_delta(origin, target)) == 1
    &&& row_delta(origin, target) == forward(color)
    &&& spec_color_of(board[target]) == Some(color.spec_opposite())
}

/// `target` is a destination of the pawn on `origin`: a push, a double push
/// or a capture. A square that holds no pawn has no such destination.
pub open spec fn pawn_target(board: Seq<Piece>, origin: int, target: int) -> bool {
    &&& is_square(origin)
    &&& is_square(target)
    &&& board[origin] matches Piece::Occupied { kind: PieceType::Pawn, color }
    &&& {
        ||| pawn_push(board, origin, color, target)
        ||| pawn_double_push(board, origin, color, target)
        ||| pawn_capture(board, origin, color, target)
    }
}

/// `target` is a destination of the man on `origin` by the geometry of its
/// kind alone, whether or not the move would leave a king attacked.
pub open spec fn piece_target(board: Seq<Piece>, origin: int, target: int) -> bool {
    is_square(origin) && match board[origin] {
        Piece::Empty => false,
        Piece::Occupied { kind, color } => match kind {
            PieceType::King => sliding_target(board, origin, true, true, false, target),
            PieceType::Queen => sliding_target(board, origin, true, true, true, target),
            PieceType::Bishop => sliding_target(board, origin, true, false, true, target),
            PieceType::Rook => sliding_target(board, origin, false, true, true, target),
            PieceType::Knight => knight_target(board, origin, target),
            PieceType::Pawn => pawn_target(board, origin, target),
        },
    }
}

/// Some man of `attacker` has `target` among its destinations.
pub open spec fn attacked(board: Seq<Piece>, attacker: Color, target: int) -> bool {
    exists|from: int|
        is_square(from) && spec_color_of(board[from]) == Some(attacker) && #[trigger] piece_target(
            board,
            from,
            target,
        )
}

/// `target` is a destination of the king on `origin`: one step in any
/// direction onto a square that no man of the other color attacks.
pub open spec fn king_target(board: Seq<Piece>, origin: int, target: int) -> bool {
    &&& sliding_target(board, origin, true, true, false, target)
    &&& board[origin] matches Piece::Occupied { kind, color }
    &&& !attacked(board, color.spec_opposite(), target)
}

/// Some king of `side` stands on a square that the other side attacks.
pub open spec fn in_check(board: Seq<Piece>, side: Color) -> bool {
    exists|square: int|
        is_square(square) && board[square] == (Piece::Occupied {
            kind: PieceType::King,
            color: side,
        }) && #[trigger] attacked(board, side.spec_opposite(), square)
}

/// `target` is a legal destination of the man on `origin`. A king never
/// steps onto an attacked square. While the side to move is in check
/// (`checked`), only kings have legal destinations.
pub open spec fn legal_target(board: Seq<Piece>, checked: bool, origin: int, target: int) -> bool {
    is_square(origin) && match board[origin] {
        Piece::Empty => false,
        Piece::Occupied { kind, color } => if kind == PieceType::King {
            king_target(board, origin, target)
        } else {
            !checked && piece_target(board, origin, target)
        },
    }
}

/// Sliding containment: a destination of a sliding man is a square of the
/// board other than the origin, a whole number of steps away along one
/// direction, so that its row and its column are those that the direction
/// and the number of steps give, and no move wraps round an edge. A man
/// that moves along ranks and files only keeps its row or its column; one
/// that moves along diagonals only changes both by the same amount; one
/// that takes single steps stays next to its origin; and from file A
/// nothing goes west, from file H nothing east.
pub proof fn lemma_sliding_containment(
    board: Seq<Piece>,
    origin: int,
    diagonal: bool,
    orthogonal: bool,
    multi: bool,
    target: int,
)
    requires
        sliding_target(board, origin, diagonal, orthogonal, multi, target),
    ensures
        is_square(target),
        target != origin,
        on_board(row_of(target), col_of(target)),
        1 <= distance(origin, target) <= 7,
        row_of(target) == row_of(origin) + toward(
            sign(row_delta(origin, target)),
            distance(origin, target),
        ),
        col_of(target) == col_of(origin) + toward(
            sign(col_delta(origin, target)),
            distance(origin, target),
        ),
        !diagonal ==> row_of(target) == row_of(origin) || col_of(target) == col_of(origin),
        !orthogonal ==> magnitude(row_delta(origin, target)) == magnitude(
            col_delta(origin, target),
        ),
        !multi ==> distance(origin, target) == 1,
        col_of(origin) == 0 ==> col_delta(origin, target) >= 0,
        col_of(origin) == 7 ==> col_delta(origin, target) <= 0,
{
}

/// Capture and block, first half: of two destinations on one ray, the
/// nearer one is empty. So a ray holds at most one occupied destination,
/// and that one is its last.
pub proof fn lemma_ray_ends_at_capture(
    board: Seq<Piece>,
    origin: int,
    diagonal: bool,
    orthogonal: bool,
    multi: bool,
    near: int,
    far: int,
)
    requires
        sliding_target(board, origin, diagonal, orthogonal, multi, near),
        sliding_target(board, origin, diagonal, orthogonal, multi, far),
        sign(row_delta(origin, near)) == sign(row_delta(origin, far)),
        sign(col_delta(origin, near)) == sign(col_delta(origin, far)),
        distance(origin, near) < distance(origin, far),
    ensures
        board[near] == Piece::Empty,
{
    let dr = sign(row_delta(origin, far));
    let dc = sign(col_delta(origin, far));
    let k = distance(origin, near);
    lemma_sliding_containment(board, origin, diagonal, orthogonal, multi, near);
    assert(near == ray_square(origin, dr, dc, k));
    assert(board[ray_square(origin, dr, dc, k)] == Piece::Empty);
}

/// Capture and block, second half: the first occupied square on a ray,
/// that is a square on a permitted line within reach, with nothing between
/// it and the origin, is a destination if and only if it holds a man of
/// the other color.
pub proof fn lemma_first_occupied(
    board: Seq<Piece>,
    origin: int,
    diagonal: bool,
    orthogonal: bool,
    multi: bool,
    target: int,
    mover: Color,
)
    requires
        is_square(origin),
        is_square(target),
        spec_color_of(board[origin]) == Some(mover),
        board[target] != Piece::Empty,
        (orthogonal && on_rank_or_file(origin, target)) || (diagonal && on_diagonal(
            origin,
            target,
        )),
        multi || distance(origin, target) == 1,
        path_clear(board, origin, target),
    ensures
        sliding_target(board, origin, diagonal, orthogonal, multi, target) <==> spec_color_of(
            board[target],
        ) == Some(mover.spec_opposite()),
{
}

/// An occupied destination of a sliding man is the first occupied square
/// on its ray and holds a man of the other color.
pub proof fn lemma_occupied_target_is_capture(
    board: Seq<Piece>,
    origin: int,
    diagonal: bool,
    orthogonal: bool,
    multi: bool,
    target: int,
)
    requires
        sliding_target(board, origin, diagonal, orthogonal, multi, target),
        board[target] != Piece::Empty,
    ensures
        path_clear(board, origin, target),
        board[origin] matches Piece::Occupied { kind, color } && spec_color_of(board[target])
            == Some(color.spec_opposite()),
{
}

/// Knight bounds: of the eight leaps from the corner A1, square 56, only
/// the two to B3 and C2, squares 41 and 50, stay on the board; each is a
/// destination unless it holds a man of the knight's color.
pub proof fn lemma_knight_in_corner(board: Seq<Piece>, target: int)
    requires
        board[56] != Piece::Empty,
    ensures
        knight_target(board, 56, target) <==> (target == 41 || target == 50) && spec_color_of(
            board[target],
        ) != spec_color_of(board[56]),
{
}

/// Double-step gating: a pawn that does not stand on its starting row has
/// no destination two rows away, whatever stands ahead of it; nor has any
/// pawn such a destination unless both squares ahead of it are empty.
pub proof fn lemma_double_step_gating(board: Seq<Piece>, origin: int, target: int, color: Color)
    requires
        board[origin] == (Piece::Occupied { kind: PieceType::Pawn, color }),
        magnitude(row_delta(origin, target)) == 2,
    ensures
        row_of(origin) != start_row(color) ==> !pawn_target(board, origin, target),
        pawn_target(board, origin, target) ==> pawn_double_push(board, origin, color, target),
        forall|checked: bool|
            row_of(origin) != start_row(color) ==> !legal_target(board, checked, origin, target),
{
}

/// A pawn moves one or two rows forwards, never backwards or sideways, and
/// leaves its column only by one, to capture.
pub proof fn lemma_pawn_advances(board: Seq<Piece>, origin: int, target: int, color: Color)
    requires
        board[origin] == (Piece::Occupied { kind: PieceType::Pawn, color }),
        pawn_target(board, origin, target),
    ensures
        row_delta(origin, target) == forward(color) || row_delta(origin, target) == 2 * forward(
            color,
        ),
        magnitude(col_delta(origin, target)) <= 1,
        col_delta(origin, target) != 0 ==> board[target] != Piece::Empty,
        col_delta(origin, target) == 0 ==> board[target] == Piece::Empty,
{
}

/// No destination of any man holds a man of its own color, and none is
/// the square it stands on.
pub proof fn lemma_never_onto_friend(board: Seq<Piece>, origin: int, target: int)
    requires
        piece_target(board, origin, target),
    ensures
        is_square(origin),
        is_square(target),
        target != origin,
        board[origin] != Piece::Empty,
        spec_color_of(board[target]) != spec_color_of(board[origin]),
{
}

/// A king never has an attacked square among its legal destinations.
pub proof fn lemma_king_avoids_attack(
    board: Seq<Piece>,
    checked: bool,
    origin: int,
    target: int,
    color: Color,
)
    requires
        board[origin] == (Piece::Occupied { kind: PieceType::King, color }),
        legal_target(board, checked, origin, target),
    ensures
        !attacked(board, color.spec_opposite(), target),
        distance(origin, target) == 1,
{
}

} // verus!
