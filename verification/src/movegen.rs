//! The move generators: sliding men, the knight and the pawn.

use vstd::prelude::*;
use crate::game::Game;
use crate::piece::{spec_color_of, Color, Piece, PieceType};
use crate::rules::{
    col_delta, col_of, compass, distance, forward, heading, is_square, knight_target, leap_order,
    leap_place, on_diagonal, on_rank_or_file, path_clear, pawn_capture, pawn_double_push, pawn_order,
    pawn_push, pawn_target, ray_order, ray_square, row_delta, row_of, sliding_target, square_at,
    toward,
};

verus! {

/// `target` is reached from `origin` along the ray in direction `(dr, dc)`.
#[verifier::opaque]
spec fn ray_target(
    board: Seq<Piece>,
    origin: int,
    dr: int,
    dc: int,
    multi: bool,
    target: int,
) -> bool {
    &&& heading(origin, target, dr, dc)
    &&& sliding_target(board, origin, true, true, multi, target)
}

/// The three orders in which the generators list their destinations.
enum Manner {
    /// Ray by ray round the compass, and along each ray outwards.
    Slide,
    /// Leap by leap, clockwise.
    Leap,
    /// Push, double push, capture towards file A, capture towards file H.
    March,
}

/// The place of `target` among the destinations from `origin` in the
/// order of `manner`.
spec fn place(manner: Manner, origin: int, target: int) -> int {
    match manner {
        Manner::Slide => ray_order(origin, target),
        Manner::Leap => leap_order(origin, target),
        Manner::March => pawn_order(origin, target),
    }
}

/// The squares `tiles` stand in ascending order of their places, none of
/// them beyond the place `limit`.
#[verifier::opaque]
spec fn ordered_below(tiles: Seq<u8>, manner: Manner, origin: int, limit: int) -> bool {
    &&& forall|i: int, j: int|
        0 <= i < j < tiles.len() ==> place(manner, origin, tiles[i] as int) < place(
            manner,
            origin,
            tiles[j] as int,
        )
    &&& forall|i: int|
        0 <= i < tiles.len() ==> place(manner, origin, #[trigger] tiles[i] as int) <= limit
}

/// A list in order stays in order when a square of a later place is put
/// behind it; and it holds no square of a later place.
proof fn lemma_ordered_push(tiles: Seq<u8>, manner: Manner, origin: int, limit: int, square: u8)
    requires
        ordered_below(tiles, manner, origin, limit),
        limit < place(manner, origin, square as int),
    ensures
        ordered_below(tiles.push(square), manner, origin, place(manner, origin, square as int)),
        !tiles.contains(square),
{
    reveal(ordered_below);
}

/// A list in order below one place is in order below every later place.
proof fn lemma_ordered_weaken(tiles: Seq<u8>, manner: Manner, origin: int, limit: int, later: int)
    requires
        ordered_below(tiles, manner, origin, limit),
        limit <= later,
    ensures
        ordered_below(tiles, manner, origin, later),
{
    reveal(ordered_below);
}

/// The empty list is in order.
proof fn lemma_ordered_empty(manner: Manner, origin: int, limit: int)
    ensures
        ordered_below(Seq::<u8>::empty(), manner, origin, limit),
{
    reveal(ordered_below);
}

/// The square `dr` rows and `dc` columns away from `origin` is the one
/// with that row and column, if the board has it.
proof fn lemma_leap(origin: int, dr: int, dc: int, target: int)
    requires
        is_square(origin),
    ensures
        leap(origin, target, dr, dc) <==> 0 <= row_of(origin) + dr < 8 && 0 <= col_of(origin) + dc
            < 8 && target == (row_of(origin) + dr) * 8 + col_of(origin) + dc,
{
    let row = row_of(origin) + dr;
    let col = col_of(origin) + dc;
    if 0 <= row < 8 && 0 <= col < 8 {
        let square = row * 8 + col;
        assert(row_of(square) == row && col_of(square) == col);
    }
    if is_square(target) {
        assert(target == row_of(target) * 8 + col_of(target));
    }
}

/// `target` lies `dr` rows and `dc` columns away from `origin`, on the board.
spec fn leap(origin: int, target: int, dr: int, dc: int) -> bool {
    is_square(target) && row_delta(origin, target) == dr && col_delta(origin, target) == dc
}

/// The square `k` steps along a ray that stays on the board lies in the
/// direction of the ray, on its line, at distance `k`.
proof fn lemma_ray_step(origin: int, dr: int, dc: int, k: int)
    requires
        is_square(origin),
        -1 <= dr <= 1,
        -1 <= dc <= 1,
        dr != 0 || dc != 0,
        1 <= k,
        0 <= row_of(origin) + toward(dr, k) < 8,
        0 <= col_of(origin) + toward(dc, k) < 8,
    ensures
        is_square(ray_square(origin, dr, dc, k)),
        ray_square(origin, dr, dc, k) == (row_of(origin) + toward(dr, k)) * 8 + col_of(origin)
            + toward(dc, k),
        heading(origin, ray_square(origin, dr, dc, k), dr, dc),
        distance(origin, ray_square(origin, dr, dc, k)) == k,
        ray_order(origin, ray_square(origin, dr, dc, k)) == compass(dr, dc) * 8 + k,
        on_rank_or_file(origin, ray_square(origin, dr, dc, k)) || on_diagonal(
            origin,
            ray_square(origin, dr, dc, k),
        ),
{
    let row = row_of(origin) + toward(dr, k);
    let col = col_of(origin) + toward(dc, k);
    let square = ray_square(origin, dr, dc, k);
    assert(square == row * 8 + col);
    assert(row_of(square) == row && col_of(square) == col);
    assert(row_delta(origin, square) == toward(dr, k));
    assert(col_delta(origin, square) == toward(dc, k));
}

/// A square that lies on a line with `origin`, in the direction `(dr, dc)`,
/// is the square of the ray in that direction at its distance.
proof fn lemma_on_ray(origin: int, target: int, dr: int, dc: int)
    requires
        is_square(origin),
        is_square(target),
        heading(origin, target, dr, dc),
        on_rank_or_file(origin, target) || on_diagonal(origin, target),
    ensures
        1 <= distance(origin, target) <= 7,
        row_of(target) == row_of(origin) + toward(dr, distance(origin, target)),
        col_of(target) == col_of(origin) + toward(dc, distance(origin, target)),
        target == ray_square(origin, dr, dc, distance(origin, target)),
{
}

/// `target` is reached along the ray in direction `(dr, dc)` in fewer than
/// `k` steps.
#[verifier::opaque]
spec fn ray_within(
    board: Seq<Piece>,
    origin: int,
    dr: int,
    dc: int,
    multi: bool,
    k: int,
    target: int,
) -> bool {
    ray_target(board, origin, dr, dc, multi, target) && distance(origin, target) < k
}

/// The state of a walk along a ray before its step `k`: the squares passed
/// are empty, and `tiles` holds, behind the squares of `start`, the
/// destinations that lie fewer than `k` steps away, in order.
#[verifier::opaque]
spec fn walk_state(
    board: Seq<Piece>,
    origin: int,
    dr: int,
    dc: int,
    multi: bool,
    k: int,
    start: Seq<u8>,
    tiles: Seq<u8>,
) -> bool {
    &&& tiles.no_duplicates()
    &&& multi || k == 1
    &&& forall|j: int|
        1 <= j < k ==> board[#[trigger] ray_square(origin, dr, dc, j)] == Piece::Empty
    &&& forall|t: u8| #[trigger]
        tiles.contains(t) <==> start.contains(t) || ray_within(
            board,
            origin,
            dr,
            dc,
            multi,
            k,
            t as int,
        )
    &&& ordered_below(tiles, Manner::Slide, origin, compass(dr, dc) * 8 + k - 1)
}

/// The result of a walk along a ray: `tiles` holds, behind the squares of
/// `start`, the destinations on the ray, in order.
#[verifier::opaque]
spec fn walk_done(
    board: Seq<Piece>,
    origin: int,
    dr: int,
    dc: int,
    multi: bool,
    start: Seq<u8>,
    tiles: Seq<u8>,
) -> bool {
    &&& tiles.no_duplicates()
    &&& forall|t: u8| #[trigger]
        tiles.contains(t) <==> start.contains(t) || ray_target(
            board,
            origin,
            dr,
            dc,
            multi,
            t as int,
        )
    &&& ordered_below(tiles, Manner::Slide, origin, compass(dr, dc) * 8 + 7)
}

/// What a walk starts from: a man on `origin`, and a direction.
spec fn walk_setting(board: Seq<Piece>, origin: int, dr: int, dc: int) -> bool {
    &&& board.len() == 64
    &&& is_square(origin)
    &&& board[origin] != Piece::Empty
    &&& -1 <= dr <= 1
    &&& -1 <= dc <= 1
    &&& dr != 0 || dc != 0
}

/// The ray has a square at step `k`.
spec fn walk_on_board(origin: int, dr: int, dc: int, k: int) -> bool {
    &&& 0 <= row_of(origin) + toward(dr, k) < 8
    &&& 0 <= col_of(origin) + toward(dc, k) < 8
}

/// Before its first step a walk has added nothing.
proof fn lemma_walk_start(
    board: Seq<Piece>,
    origin: int,
    dr: int,
    dc: int,
    multi: bool,
    start: Seq<u8>,
)
    requires
        start.no_duplicates(),
        ordered_below(start, Manner::Slide, origin, compass(dr, dc) * 8),
    ensures
        walk_state(board, origin, dr, dc, multi, 1, start, start),
{
    reveal(walk_state);
    reveal(ray_within);
    reveal(ray_target);
}

/// Where the ray leaves the board, the walk is done.
proof fn lemma_walk_edge(
    board: Seq<Piece>,
    origin: int,
    dr: int,
    dc: int,
    multi: bool,
    k: int,
    start: Seq<u8>,
    tiles: Seq<u8>,
)
    requires
        walk_setting(board, origin, dr, dc),
        1 <= k <= 8,
        walk_state(board, origin, dr, dc, multi, k, start, tiles),
        !walk_on_board(origin, dr, dc, k),
    ensures
        walk_done(board, origin, dr, dc, multi, start, tiles),
{
    reveal(walk_state);
    reveal(walk_done);
    lemma_ordered_weaken(
        tiles,
        Manner::Slide,
        origin,
        compass(dr, dc) * 8 + k - 1,
        compass(dr, dc) * 8 + 7,
    );
    assert forall|t: u8|
        ray_target(board, origin, dr, dc, multi, t as int) implies ray_within(
        board,
        origin,
        dr,
        dc,
        multi,
        k,
        t as int,
    ) by {
        reveal(ray_within);
        reveal(ray_target);
        lemma_on_ray(origin, t as int, dr, dc);
    }
    assert forall|t: u8|
        ray_within(board, origin, dr, dc, multi, k, t as int) implies ray_target(
        board,
        origin,
        dr,
        dc,
        multi,
        t as int,
    ) by {
        reveal(ray_within);
    }
}

/// What the square at step `k` of a ray, clear up to there, means for the
/// destinations on that ray: it is the only candidate at distance `k`, it
/// is a destination unless it holds a man of the mover's color, and there
/// are destinations beyond it only if it is empty and the walk goes on.
proof fn lemma_ray_at(
    board: Seq<Piece>,
    origin: int,
    dr: int,
    dc: int,
    multi: bool,
    k: int,
    target: int,
)
    requires
        walk_setting(board, origin, dr, dc),
        1 <= k,
        multi || k == 1,
        walk_on_board(origin, dr, dc, k),
        forall|j: int|
            1 <= j < k ==> board[#[trigger] ray_square(origin, dr, dc, j)] == Piece::Empty,
    ensures
        ray_within(board, origin, dr, dc, multi, k + 1, target) <==> ray_within(
            board,
            origin,
            dr,
            dc,
            multi,
            k,
            target,
        ) || (target == ray_square(origin, dr, dc, k) && spec_color_of(board[target])
            != spec_color_of(board[origin])),
        !multi || board[ray_square(origin, dr, dc, k)] != Piece::Empty ==> (ray_target(
            board,
            origin,
            dr,
            dc,
            multi,
            target,
        ) <==> ray_within(board, origin, dr, dc, multi, k + 1, target)),
{
    reveal(ray_within);
    reveal(ray_target);
    let square = ray_square(origin, dr, dc, k);
    lemma_ray_step(origin, dr, dc, k);
    assert(path_clear(board, origin, square));
    if ray_target(board, origin, dr, dc, multi, target) {
        lemma_on_ray(origin, target, dr, dc);
        if distance(origin, target) > k {
            assert(board[ray_square(origin, dr, dc, k)] == Piece::Empty);
        }
    }
}

/// One step of a walk: the square at step `k` is added unless it holds a
/// man of the mover's color, and the walk goes on only from an empty
/// square, and only if it takes more than one step.
proof fn lemma_walk_step(
    board: Seq<Piece>,
    origin: int,
    dr: int,
    dc: int,
    multi: bool,
    k: int,
    start: Seq<u8>,
    tiles: Seq<u8>,
    square: u8,
)
    requires
        walk_setting(board, origin, dr, dc),
        1 <= k <= 8,
        walk_state(board, origin, dr, dc, multi, k, start, tiles),
        walk_on_board(origin, dr, dc, k),
        square as int == ray_square(origin, dr, dc, k),
    ensures
        k <= 7,
        square < 64,
        board[square as int] == Piece::Empty && multi ==> walk_state(
            board,
            origin,
            dr,
            dc,
            multi,
            k + 1,
            start,
            tiles.push(square),
        ),
        board[square as int] == Piece::Empty && !multi ==> walk_done(
            board,
            origin,
            dr,
            dc,
            multi,
            start,
            tiles.push(square),
        ),
        board[square as int] != Piece::Empty && spec_color_of(board[square as int])
            != spec_color_of(board[origin]) ==> walk_done(
            board,
            origin,
            dr,
            dc,
            multi,
            start,
            tiles.push(square),
        ),
        spec_color_of(board[square as int]) == spec_color_of(board[origin]) ==> walk_done(
            board,
            origin,
            dr,
            dc,
            multi,
            start,
            tiles,
        ),
{
    reveal(walk_state);
    reveal(walk_done);
    lemma_ray_step(origin, dr, dc, k);
    let spot = compass(dr, dc) * 8 + k;
    let landed = spec_color_of(board[square as int]) != spec_color_of(board[origin]);
    let after = if landed {
        tiles.push(square)
    } else {
        tiles
    };
    if landed {
        lemma_ordered_push(tiles, Manner::Slide, origin, spot - 1, square);
    } else {
        lemma_ordered_weaken(tiles, Manner::Slide, origin, spot - 1, spot);
    }
    lemma_ordered_weaken(after, Manner::Slide, origin, spot, compass(dr, dc) * 8 + 7);
    assert forall|t: u8| #[trigger]
        after.contains(t) <==> start.contains(t) || ray_within(
            board,
            origin,
            dr,
            dc,
            multi,
            k + 1,
            t as int,
        ) by {
        lemma_ray_at(board, origin, dr, dc, multi, k, t as int);
        if landed {
            vstd::seq_lib::lemma_seq_contains_after_push(tiles, square, t);
        }
    }
    if !multi || board[square as int] != Piece::Empty {
        assert forall|t: u8|
            ray_target(board, origin, dr, dc, multi, t as int) <==> ray_within(
                board,
                origin,
                dr,
                dc,
                multi,
                k + 1,
                t as int,
            ) by {
            lemma_ray_at(board, origin, dr, dc, multi, k, t as int);
        }
    }
}

/// The destinations of a sliding man are those of the rays that its flags
/// permit.
proof fn lemma_sliding_by_rays(
    board: Seq<Piece>,
    origin: int,
    diagonal: bool,
    orthogonal: bool,
    multi: bool,
    target: int,
)
    ensures
        sliding_target(board, origin, diagonal, orthogonal, multi, target) <==> {
            ||| orthogonal && ray_target(board, origin, -1, 0, multi, target)
            ||| diagonal && ray_target(board, origin, -1, 1, multi, target)
            ||| orthogonal && ray_target(board, origin, 0, 1, multi, target)
            ||| diagonal && ray_target(board, origin, 1, 1, multi, target)
            ||| orthogonal && ray_target(board, origin, 1, 0, multi, target)
            ||| diagonal && ray_target(board, origin, 1, -1, multi, target)
            ||| orthogonal && ray_target(board, origin, 0, -1, multi, target)
            ||| diagonal && ray_target(board, origin, -1, -1, multi, target)
        },
{
    reveal(ray_target);
}

impl Game {
    /// The destinations of the man on square `index` when it moves like a
    /// sliding piece: along ranks and files if `is_linear`, along diagonals
    /// if `is_diagonal`, any number of squares if `is_continous` and one
    /// square otherwise. A rook is linear and continuous, a bishop diagonal
    /// and continuous, a queen both and continuous, a king both and not
    /// continuous. Each ray ends at the edge of the board, before a man of
    /// the same color, or on a man of the other color. An empty square, or
    /// an index off the board, has no destinations. The list goes ray by
    /// ray round the compass from the north, and along each ray outwards.
    pub fn get_surrounding_tiles(
        &self,
        index: usize,
        is_diagonal: bool,
        is_linear: bool,
        is_continous: bool,
    ) -> (tiles: Vec<u8>)
        requires
            self@.wf(),
        ensures
            tiles@.no_duplicates(),
            forall|t: u8| #[trigger]
                tiles@.contains(t) <==> sliding_target(
                    self@.board,
                    index as int,
                    is_diagonal,
                    is_linear,
                    is_continous,
                    t as int,
                ),
            forall|i: int, j: int|
                0 <= i < j < tiles.len() ==> ray_order(index as int, tiles@[i] as int) < ray_order(
                    index as int,
                    tiles@[j] as int,
                ),
    {
        let mut tiles: Vec<u8> = Vec::new();
        if index >= 64 {
            return tiles;
        }
        let origin: u8 = index as u8;
        proof {
            reveal(ordered_below);
        }
        match self.board[index] {
            Piece::Empty => {},
            Piece::Occupied { kind, color } => {
                if is_linear {
                    self.walk_ray(origin, color, -1, 0, is_continous, &mut tiles);
                }
                if is_diagonal {
                    self.walk_ray(origin, color, -1, 1, is_continous, &mut tiles);
                }
                if is_linear {
                    self.walk_ray(origin, color, 0, 1, is_continous, &mut tiles);
                }
                if is_diagonal {
                    self.walk_ray(origin, color, 1, 1, is_continous, &mut tiles);
                }
                if is_linear {
                    self.walk_ray(origin, color, 1, 0, is_continous, &mut tiles);
                }
                if is_diagonal {
                    self.walk_ray(origin, color, 1, -1, is_continous, &mut tiles);
                }
                if is_linear {
                    self.walk_ray(origin, color, 0, -1, is_continous, &mut tiles);
                }
                if is_diagonal {
                    self.walk_ray(origin, color, -1, -1, is_continous, &mut tiles);
                }
            },
        }
        proof {
            assert forall|t: u8| #[trigger]
                tiles@.contains(t) <==> sliding_target(
                    self@.board,
                    index as int,
                    is_diagonal,
                    is_linear,
                    is_continous,
                    t as int,
                ) by {
                lemma_sliding_by_rays(
                    self@.board,
                    index as int,
                    is_diagonal,
                    is_linear,
                    is_continous,
                    t as int,
                );
            }
        }
        tiles
    }

    /// The destinations of the man on square `index` when it moves like a
    /// knight: the squares one row and two columns away, or two rows and one
    /// column, that lie on the board and hold no man of its color. An empty
    /// square, or an index off the board, has no destinations. The list goes
    /// clockwise from the leap two rows up and one column left.
    pub fn get_knight_moves(&self, index: usize) -> (moves: Vec<u8>)
        requires
            self@.wf(),
        ensures
            moves@.no_duplicates(),
            forall|t: u8| #[trigger]
                moves@.contains(t) <==> knight_target(self@.board, index as int, t as int),
            forall|i: int, j: int|
                0 <= i < j < moves.len() ==> leap_order(index as int, moves@[i] as int)
                    < leap_order(index as int, moves@[j] as int),
    {
        let mut moves: Vec<u8> = Vec::new();
        if index >= 64 {
            return moves;
        }
        let origin: u8 = index as u8;
        proof {
            lemma_ordered_empty(Manner::Leap, index as int, -1);
        }
        match self.board[index] {
            Piece::Empty => {},
            Piece::Occupied { kind, color } => {
                self.try_leap(origin, color, -2, -1, &mut moves);
                self.try_leap(origin, color, -2, 1, &mut moves);
                self.try_leap(origin, color, -1, 2, &mut moves);
                self.try_leap(origin, color, 1, 2, &mut moves);
                self.try_leap(origin, color, 2, 1, &mut moves);
                self.try_leap(origin, color, 2, -1, &mut moves);
                self.try_leap(origin, color, 1, -2, &mut moves);
                self.try_leap(origin, color, -1, -2, &mut moves);
            },
        }
        proof {
            reveal(ordered_below);
        }
        moves
    }

    /// Appends the square `dr` rows and `dc` columns away from `origin` to
    /// `moves` if it lies on the board and holds no man of the color `mine`.
    fn try_leap(&self, origin: u8, mine: Color, dr: i8, dc: i8, moves: &mut Vec<u8>)
        requires
            self@.wf(),
            origin < 64,
            spec_color_of(self@.board[origin as int]) == Some(mine),
            -2 <= dr <= 2,
            -2 <= dc <= 2,
            old(moves)@.no_duplicates(),
            ordered_below(
                old(moves)@,
                Manner::Leap,
                origin as int,
                leap_place(dr as int, dc as int) - 1,
            ),
        ensures
            final(moves)@.no_duplicates(),
            ordered_below(
                final(moves)@,
                Manner::Leap,
                origin as int,
                leap_place(dr as int, dc as int),
            ),
            forall|t: u8| #[trigger]
                final(moves)@.contains(t) <==> old(moves)@.contains(t) || (leap(
                    origin as int,
                    t as int,
                    dr as int,
                    dc as int,
                ) && spec_color_of(self@.board[t as int]) != Some(mine)),
    {
        let ghost o = origin as int;
        let ghost before = moves@;
        let ghost spot = leap_place(dr as int, dc as int);
        let r: i8 = (origin / 8) as i8 + dr;
        let c: i8 = (origin % 8) as i8 + dc;
        let mut added = false;
        if 0 <= r && r < 8 && 0 <= c && c < 8 {
            let square: u8 = (r * 8 + c) as u8;
            let blocked = match self.board[square as usize] {
                Piece::Empty => false,
                Piece::Occupied { kind, color } => color == mine,
            };
            if !blocked {
                proof {
                    lemma_leap(o, dr as int, dc as int, square as int);
                    lemma_ordered_push(before, Manner::Leap, o, spot - 1, square);
                }
                moves.push(square);
                added = true;
            }
        }
        proof {
            if !added {
                lemma_ordered_weaken(before, Manner::Leap, o, spot - 1, spot);
            }
            assert forall|t: u8| #[trigger]
                moves@.contains(t) <==> before.contains(t) || (leap(
                    o,
                    t as int,
                    dr as int,
                    dc as int,
                ) && spec_color_of(self@.board[t as int]) != Some(mine)) by {
                lemma_leap(o, dr as int, dc as int, t as int);
                if added {
                    vstd::seq_lib::lemma_seq_contains_after_push(before, moves@.last(), t);
                }
            }
        }
    }

    /// The destinations of the pawn on square `index`: the square straight
    /// ahead if it is empty; the square two ahead if the pawn stands on its
    /// starting row and both are empty; and each square diagonally ahead
    /// that holds a man of the other color. White advances towards row 0,
    /// Black towards row 7. A square that holds no pawn, or an index off the
    /// board, has no destinations. The list holds the push first, then the
    /// double push, the capture towards file A and the capture towards
    /// file H.
    pub fn get_pawn_moves(&self, index: usize) -> (moves: Vec<u8>)
        requires
            self@.wf(),
        ensures
            moves@.no_duplicates(),
            forall|t: u8| #[trigger]
                moves@.contains(t) <==> pawn_target(self@.board, index as int, t as int),
            forall|i: int, j: int|
                0 <= i < j < moves.len() ==> pawn_order(index as int, moves@[i] as int)
                    < pawn_order(index as int, moves@[j] as int),
    {
        if index >= 64 {
            return Vec::new();
        }
        match self.board[index] {
            Piece::Occupied { kind: PieceType::Pawn, color } => {
                let mut moves: Vec<u8> = Vec::new();
                proof {
                    lemma_ordered_empty(Manner::March, index as int, 0);
                }
                self.pawn_step(index as u8, color, 1, &mut moves);
                let home: usize = match color {
                    Color::White => 6,
                    Color::Black => 1,
                };
                let ghost pushed = moves@;
                if moves.len() == 1 && index / 8 == home {
                    self.pawn_step(index as u8, color, 2, &mut moves);
                } else {
                    proof {
                        lemma_ordered_weaken(moves@, Manner::March, index as int, 1, 2);
                    }
                }
                let ghost doubled = moves@;
                self.pawn_take(index as u8, color, -1, &mut moves);
                self.pawn_take(index as u8, color, 1, &mut moves);
                proof {
                    reveal(ordered_below);
                    let board = self@.board;
                    let o = index as int;
                    let ahead = square_at(row_of(o) + forward(color), col_of(o));
                    lemma_leap(o, forward(color), 0, ahead);
                    let clear = leap(o, ahead, forward(color), 0) && board[ahead] == Piece::Empty;
                    assert(clear <==> pushed.len() == 1) by {
                        if pushed.len() == 1 {
                            assert(pushed.contains(pushed[0]));
                            lemma_leap(o, forward(color), 0, pushed[0] as int);
                        }
                        if clear {
                            assert(pushed.contains(ahead as u8));
                        }
                    }
                    assert forall|t: u8| #[trigger]
                        moves@.contains(t) <==> pawn_target(board, o, t as int) by {
                        lemma_leap(o, forward(color), 0, t as int);
                        lemma_leap(o, 2 * forward(color), 0, t as int);
                        assert(pushed.contains(t) <==> is_square(t as int) && pawn_push(
                            board,
                            o,
                            color,
                            t as int,
                        ));
                        assert(doubled.contains(t) <==> pushed.contains(t) || (is_square(t as int)
                            && pawn_double_push(board, o, color, t as int)));
                    }
                }
                moves
            },
            _ => Vec::new(),
        }
    }

    /// Appends the square `steps` rows ahead of the pawn of `color` on
    /// `origin` to `moves`, if it lies on the board and is empty.
    fn pawn_step(&self, origin: u8, color: Color, steps: i8, moves: &mut Vec<u8>)
        requires
            self@.wf(),
            origin < 64,
            steps == 1 || steps == 2,
            old(moves)@.no_duplicates(),
            ordered_below(old(moves)@, Manner::March, origin as int, steps - 1),
        ensures
            final(moves)@.no_duplicates(),
            ordered_below(final(moves)@, Manner::March, origin as int, steps as int),
            final(moves).len() <= old(moves).len() + 1,
            forall|t: u8| #[trigger]
                final(moves)@.contains(t) <==> old(moves)@.contains(t) || (leap(
                    origin as int,
                    t as int,
                    steps * forward(color),
                    0,
                ) && self@.board[t as int] == Piece::Empty),
    {
        let ghost o = origin as int;
        let ghost before = moves@;
        let step: i8 = match color {
            Color::White => -steps,
            Color::Black => steps,
        };
        let r: i8 = (origin / 8) as i8 + step;
        let c: i8 = (origin % 8) as i8;
        let mut added = false;
        if 0 <= r && r < 8 {
            let square: u8 = (r * 8 + c) as u8;
            if self.board[square as usize] == Piece::Empty {
                proof {
                    lemma_leap(o, step as int, 0, square as int);
                    lemma_ordered_push(before, Manner::March, o, steps - 1, square);
                }
                moves.push(square);
                added = true;
            }
        }
        proof {
            if !added {
                lemma_ordered_weaken(before, Manner::March, o, steps - 1, steps as int);
            }
            assert forall|t: u8| #[trigger]
                moves@.contains(t) <==> before.contains(t) || (leap(o, t as int, step as int, 0)
                    && self@.board[t as int] == Piece::Empty) by {
                lemma_leap(o, step as int, 0, t as int);
                if added {
                    vstd::seq_lib::lemma_seq_contains_after_push(before, moves@.last(), t);
                }
            }
        }
    }

    /// Appends the capture of the pawn of `color` on `origin` towards the
    /// column `side` (-1 or 1) to `moves`, if there is one.
    fn pawn_take(&self, origin: u8, color: Color, side: i8, moves: &mut Vec<u8>)
        requires
            self@.wf(),
            origin < 64,
            side == -1 || side == 1,
            old(moves)@.no_duplicates(),
            ordered_below(old(moves)@, Manner::March, origin as int, if side < 0 {
                2int
            } else {
                3int
            }),
        ensures
            final(moves)@.no_duplicates(),
            ordered_below(final(moves)@, Manner::March, origin as int, if side < 0 {
                3int
            } else {
                4int
            }),
            forall|t: u8| #[trigger]
                final(moves)@.contains(t) <==> old(moves)@.contains(t) || (is_square(t as int)
                    && col_delta(origin as int, t as int) == side && pawn_capture(
                    self@.board,
                    origin as int,
                    color,
                    t as int,
                )),
    {
        let ghost o = origin as int;
        let ghost before = moves@;
        let ghost spot = if side < 0 {
            3int
        } else {
            4int
        };
        let step: i8 = match color {
            Color::White => -1,
            Color::Black => 1,
        };
        let r: i8 = (origin / 8) as i8 + step;
        let c: i8 = (origin % 8) as i8 + side;
        let mut added = false;
        if 0 <= r && r < 8 && 0 <= c && c < 8 {
            let square: u8 = (r * 8 + c) as u8;
            let takes = match self.board[square as usize] {
                Piece::Empty => false,
                Piece::Occupied { kind, color: other } => other != color,
            };
            if takes {
                proof {
                    lemma_leap(o, step as int, side as int, square as int);
                    lemma_ordered_push(before, Manner::March, o, spot - 1, square);
                }
                moves.push(square);
                added = true;
            }
        }
        proof {
            if !added {
                lemma_ordered_weaken(before, Manner::March, o, spot - 1, spot);
            }
            assert forall|t: u8| #[trigger]
                moves@.contains(t) <==> before.contains(t) || (is_square(t as int) && col_delta(
                    o,
                    t as int,
                ) == side && pawn_capture(self@.board, o, color, t as int)) by {
                lemma_leap(o, step as int, side as int, t as int);
                if added {
                    vstd::seq_lib::lemma_seq_contains_after_push(before, moves@.last(), t);
                }
            }
        }
    }

    /// Walks from `origin` in the direction `(dr, dc)` and appends every
    /// destination on that ray to `tiles`.
    fn walk_ray(&self, origin: u8, mine: Color, dr: i8, dc: i8, multi: bool, tiles: &mut Vec<u8>)
        requires
            self@.wf(),
            origin < 64,
            spec_color_of(self@.board[origin as int]) == Some(mine),
            -1 <= dr <= 1,
            -1 <= dc <= 1,
            dr != 0 || dc != 0,
            old(tiles)@.no_duplicates(),
            ordered_below(old(tiles)@, Manner::Slide, origin as int, compass(dr as int, dc as int) * 8),
        ensures
            final(tiles)@.no_duplicates(),
            forall|t: u8| #[trigger]
                final(tiles)@.contains(t) <==> old(tiles)@.contains(t) || ray_target(
                    self@.board,
                    origin as int,
                    dr as int,
                    dc as int,
                    multi,
                    t as int,
                ),
            ordered_below(final(tiles)@, Manner::Slide, origin as int, compass(dr as int, dc as int) * 8 + 7),
    {
        let row: i8 = (origin / 8) as i8;
        let col: i8 = (origin % 8) as i8;
        let mut r: i8 = row + dr;
        let mut c: i8 = col + dc;
        let mut k: u8 = 1;
        let ghost board = self@.board;
        let ghost o = origin as int;
        let ghost start = tiles@;
        proof {
            lemma_walk_start(board, o, dr as int, dc as int, multi, start);
        }
        loop
            invariant_except_break
                1 <= k <= 8,
                r == row + toward(dr as int, k as int),
                c == col + toward(dc as int, k as int),
                walk_state(board, o, dr as int, dc as int, multi, k as int, start, tiles@),
            invariant
                walk_setting(board, o, dr as int, dc as int),
                board == self.board@,
                o == origin as int,
                row == row_of(o),
                col == col_of(o),
                spec_color_of(board[o]) == Some(mine),
            ensures
                walk_done(board, o, dr as int, dc as int, multi, start, tiles@),
            decreases 8 - k,
        {
            if !(0 <= r && r < 8 && 0 <= c && c < 8) {
                proof {
                    lemma_walk_edge(board, o, dr as int, dc as int, multi, k as int, start, tiles@);
                }
                break;
            }
            let square: u8 = (r * 8 + c) as u8;
            proof {
                lemma_walk_step(
                    board,
                    o,
                    dr as int,
                    dc as int,
                    multi,
                    k as int,
                    start,
                    tiles@,
                    square,
                );
            }
            let stop = match self.board[square as usize] {
                Piece::Empty => {
                    tiles.push(square);
                    !multi
                },
                Piece::Occupied { kind, color } => {
                    if color != mine {
                        tiles.push(square);
                    }
                    true
                },
            };
            if stop {
                break;
            }
            r = r + dr;
            c = c + dc;
            k = k + 1;
        }
        proof {
            reveal(walk_done);
        }
    }
}

} // verus!
