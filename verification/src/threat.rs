//! The threat scan: which squares a side attacks, and what that leaves to
//! a king.

use vstd::prelude::*;
use crate::game::Game;
use crate::piece::{spec_color_of, Color, Piece, PieceType};
use crate::rules::{
    attacked, in_check, is_square, king_target, move_order, piece_target, ray_order,
};

verus! {

/// Some man of `attacker` on a square below `limit` has `target` among its
/// destinations.
spec fn attacked_below(
    board: Seq<Piece>,
    attacker: Color,
    limit: int,
    target: int,
) -> bool {
    exists|from: int|
        0 <= from < limit && is_square(from) && spec_color_of(board[from]) == Some(attacker)
            && #[trigger] piece_target(board, from, target)
}

/// Some king of `side` on a square below `limit` stands attacked.
spec fn in_check_below(board: Seq<Piece>, side: Color, limit: int) -> bool {
    exists|square: int|
        0 <= square < limit && is_square(square) && board[square] == (Piece::Occupied {
            kind: PieceType::King,
            color: side,
        }) && #[trigger] attacked(board, side.spec_opposite(), square)
}

/// Sets the entry of `table` for every square in `moves`.
fn mark(table: &mut Vec<bool>, moves: &Vec<u8>)
    requires
        old(table).len() == 64,
        forall|t: u8| #[trigger] moves@.contains(t) ==> t < 64,
    ensures
        final(table).len() == 64,
        forall|t: u8|
            t < 64 ==> (#[trigger] final(table)@[t as int] <==> old(table)@[t as int]
                || moves@.contains(t)),
{
    let mut i: usize = 0;
    while i < moves.len()
        invariant
            i <= moves.len(),
            table.len() == 64,
            forall|t: u8| #[trigger] moves@.contains(t) ==> t < 64,
            forall|t: u8|
                t < 64 ==> (#[trigger] table@[t as int] <==> old(table)@[t as int] || moves@.take(
                    i as int,
                ).contains(t)),
        decreases moves.len() - i,
    {
        let square = moves[i];
        assert(moves@.contains(square));
        let ghost before = table@;
        table.set(square as usize, true);
        proof {
            assert(moves@.take(i + 1) =~= moves@.take(i as int).push(square));
            assert forall|t: u8| t < 64 implies (#[trigger] table@[t as int] <==> old(
                table,
            )@[t as int] || moves@.take(i + 1).contains(t)) by {
                vstd::seq_lib::lemma_seq_contains_after_push(moves@.take(i as int), square, t);
            }
        }
        i = i + 1;
    }
    assert(moves@.take(moves.len() as int) =~= moves@);
}

/// The squares of `raw` whose entry in `table` is not set, in their order.
fn keep_unmarked(raw: &Vec<u8>, table: &Vec<bool>, Ghost(origin): Ghost<int>) -> (kept: Vec<u8>)
    requires
        table.len() == 64,
        raw@.no_duplicates(),
        forall|t: u8| #[trigger] raw@.contains(t) ==> t < 64,
        forall|i: int, j: int|
            0 <= i < j < raw.len() ==> ray_order(origin, raw@[i] as int) < ray_order(
                origin,
                raw@[j] as int,
            ),
    ensures
        kept@.no_duplicates(),
        forall|t: u8| #[trigger] kept@.contains(t) <==> raw@.contains(t) && !table@[t as int],
        forall|i: int, j: int|
            0 <= i < j < kept.len() ==> ray_order(origin, kept@[i] as int) < ray_order(
                origin,
                kept@[j] as int,
            ),
{
    let mut kept: Vec<u8> = Vec::new();
    let mut i: usize = 0;
    while i < raw.len()
        invariant
            i <= raw.len(),
            table.len() == 64,
            raw@.no_duplicates(),
            forall|t: u8| #[trigger] raw@.contains(t) ==> t < 64,
            kept@.no_duplicates(),
            forall|t: u8| #[trigger]
                kept@.contains(t) <==> raw@.take(i as int).contains(t) && !table@[t as int],
            forall|a: int, b: int|
                0 <= a < b < raw.len() ==> ray_order(origin, raw@[a] as int) < ray_order(
                    origin,
                    raw@[b] as int,
                ),
            forall|a: int, b: int|
                0 <= a < b < kept.len() ==> ray_order(origin, kept@[a] as int) < ray_order(
                    origin,
                    kept@[b] as int,
                ),
            forall|a: int|
                0 <= a < kept.len() && i < raw.len() ==> ray_order(origin, #[trigger] kept@[a] as int)
                    < ray_order(origin, raw@[i as int] as int),
        decreases raw.len() - i,
    {
        let square = raw[i];
        assert(raw@.contains(square));
        let ghost before = kept@;
        proof {
            assert(raw@.take(i + 1) =~= raw@.take(i as int).push(square));
            assert forall|t: u8|
                raw@.take(i + 1).contains(t) <==> raw@.take(i as int).contains(t) || t
                    == square by {
                vstd::seq_lib::lemma_seq_contains_after_push(raw@.take(i as int), square, t);
            }
            if raw@.take(i as int).contains(square) {
                let j = choose|j: int| 0 <= j < i && raw@.take(i as int)[j] == square;
                assert(raw@[j] == raw@[i as int]);
            }
            assert(!raw@.take(i as int).contains(square));
            assert(!before.contains(square));
        }
        if !table[square as usize] {
            kept.push(square);
            proof {
                assert forall|t: u8| #[trigger]
                    kept@.contains(t) <==> before.contains(t) || t == square by {
                    vstd::seq_lib::lemma_seq_contains_after_push(before, square, t);
                }
            }
        }
        i = i + 1;
    }
    assert(raw@.take(raw.len() as int) =~= raw@);
    kept
}

impl Game {
    /// The destinations of the man on square `index` by the geometry of its
    /// kind alone: a king one step in any direction, a queen, bishop or
    /// rook along its lines, a knight by its leaps, a pawn by its pushes and
    /// captures. An empty square, or an index off the board, has none. The
    /// list stands in the order of the generator of that kind.
    pub fn candidate_moves(&self, index: usize) -> (moves: Vec<u8>)
        requires
            self@.wf(),
        ensures
            moves@.no_duplicates(),
            forall|t: u8| #[trigger]
                moves@.contains(t) <==> piece_target(self@.board, index as int, t as int),
            forall|i: int, j: int|
                0 <= i < j < moves.len() ==> move_order(self@.board, index as int, moves@[i] as int)
                    < move_order(self@.board, index as int, moves@[j] as int),
    {
        if index >= 64 {
            return Vec::new();
        }
        match self.board[index] {
            Piece::Empty => Vec::new(),
            Piece::Occupied { kind, color } => match kind {
                PieceType::King => self.get_surrounding_tiles(index, true, true, false),
                PieceType::Queen => self.get_surrounding_tiles(index, true, true, true),
                PieceType::Bishop => self.get_surrounding_tiles(index, true, false, true),
                PieceType::Rook => self.get_surrounding_tiles(index, false, true, true),
                PieceType::Knight => self.get_knight_moves(index),
                PieceType::Pawn => self.get_pawn_moves(index),
            },
        }
    }

    /// For each square, whether some man of `attacker` has it among its
    /// destinations.
    fn threat_table(&self, attacker: Color) -> (table: Vec<bool>)
        requires
            self@.wf(),
        ensures
            table.len() == 64,
            forall|t: u8|
                t < 64 ==> (#[trigger] table@[t as int] <==> attacked(
                    self@.board,
                    attacker,
                    t as int,
                )),
    {
        let ghost board = self@.board;
        let mut table: Vec<bool> = Vec::new();
        while table.len() < 64
            invariant
                table.len() <= 64,
                forall|t: int| 0 <= t < table.len() ==> !table@[t],
            decreases 64 - table.len(),
        {
            table.push(false);
        }
        let mut from: usize = 0;
        while from < 64
            invariant
                from <= 64,
                self@.wf(),
                board == self@.board,
                table.len() == 64,
                forall|t: u8|
                    t < 64 ==> (#[trigger] table@[t as int] <==> attacked_below(
                        board,
                        attacker,
                        from as int,
                        t as int,
                    )),
            decreases 64 - from,
        {
            let ghost before = table@;
            let attacks = match self.board[from] {
                Piece::Empty => false,
                Piece::Occupied { kind, color } => color == attacker,
            };
            if attacks {
                let moves = self.candidate_moves(from);
                mark(&mut table, &moves);
            }
            proof {
                assert forall|t: u8| t < 64 implies (#[trigger] table@[t as int]
                    <==> attacked_below(board, attacker, from + 1, t as int)) by {
                    let here = spec_color_of(board[from as int]) == Some(attacker) && piece_target(
                        board,
                        from as int,
                        t as int,
                    );
                    assert(table@[t as int] <==> before[t as int] || here);
                    if attacked_below(board, attacker, from + 1, t as int) {
                        let f = choose|f: int|
                            0 <= f < from + 1 && is_square(f) && spec_color_of(board[f]) == Some(
                                attacker,
                            ) && #[trigger] piece_target(board, f, t as int);
                        if f < from {
                            assert(attacked_below(board, attacker, from as int, t as int));
                        }
                    }
                    if here {
                        assert(attacked_below(board, attacker, from + 1, t as int));
                    }
                    if attacked_below(board, attacker, from as int, t as int) {
                        let f = choose|f: int|
                            0 <= f < from && is_square(f) && spec_color_of(board[f]) == Some(
                                attacker,
                            ) && #[trigger] piece_target(board, f, t as int);
                        assert(attacked_below(board, attacker, from + 1, t as int));
                    }
                }
            }
            from = from + 1;
        }
        proof {
            assert forall|t: u8| t < 64 implies (attacked_below(board, attacker, 64, t as int)
                <==> attacked(board, attacker, t as int)) by {
                if attacked(board, attacker, t as int) {
                    let f = choose|f: int|
                        is_square(f) && spec_color_of(board[f]) == Some(attacker)
                            && #[trigger] piece_target(board, f, t as int);
                    assert(attacked_below(board, attacker, 64, t as int));
                }
            }
        }
        table
    }

    /// The squares that the men of `attacking_color` attack, in ascending
    /// order: every square that is a destination of one of them by the
    /// geometry of its kind. The board is not changed.
    pub fn threatened_squares(&self, attacking_color: Color) -> (squares: Vec<u8>)
        requires
            self@.wf(),
        ensures
            forall|i: int, j: int| 0 <= i < j < squares.len() ==> squares@[i] < squares@[j],
            forall|t: u8| #[trigger]
                squares@.contains(t) <==> attacked(self@.board, attacking_color, t as int),
    {
        let table = self.threat_table(attacking_color);
        let ghost board = self@.board;
        let mut squares: Vec<u8> = Vec::new();
        let mut t: u8 = 0;
        while t < 64
            invariant
                t <= 64,
                table.len() == 64,
                forall|u: u8|
                    u < 64 ==> (#[trigger] table@[u as int] <==> attacked(
                        board,
                        attacking_color,
                        u as int,
                    )),
                forall|i: int, j: int| 0 <= i < j < squares.len() ==> squares@[i] < squares@[j],
                forall|i: int| 0 <= i < squares.len() ==> squares@[i] < t,
                forall|u: u8| #[trigger]
                    squares@.contains(u) <==> u < t && attacked(board, attacking_color, u as int),
            decreases 64 - t,
        {
            let ghost before = squares@;
            if table[t as usize] {
                squares.push(t);
                proof {
                    assert forall|u: u8| #[trigger]
                        squares@.contains(u) <==> before.contains(u) || u == t by {
                        vstd::seq_lib::lemma_seq_contains_after_push(before, t, u);
                    }
                }
            }
            t = t + 1;
        }
        proof {
            assert forall|u: u8| attacked(board, attacking_color, u as int) implies u < 64 by {
                let f = choose|f: int|
                    is_square(f) && spec_color_of(board[f]) == Some(attacking_color)
                        && #[trigger] piece_target(board, f, u as int);
                lemma_targets_on_board(board, f, u as int);
            }
        }
        squares
    }

    /// The destinations of the king on square `index`: one step in any
    /// direction, onto a square that holds no man of its color and that no
    /// man of the other color attacks.
    pub(crate) fn king_moves(&self, index: usize, color: Color) -> (moves: Vec<u8>)
        requires
            self@.wf(),
            index < 64,
            spec_color_of(self@.board[index as int]) == Some(color),
        ensures
            moves@.no_duplicates(),
            forall|t: u8| #[trigger]
                moves@.contains(t) <==> king_target(self@.board, index as int, t as int),
            forall|i: int, j: int|
                0 <= i < j < moves.len() ==> ray_order(index as int, moves@[i] as int) < ray_order(
                    index as int,
                    moves@[j] as int,
                ),
    {
        let raw = self.get_surrounding_tiles(index, true, true, false);
        let table = self.threat_table(color.opposite());
        keep_unmarked(&raw, &table, Ghost(index as int))
    }

    /// Whether a king of `side` stands on a square that the other side
    /// attacks.
    pub fn is_in_check(&self, side: Color) -> (checked: bool)
        requires
            self@.wf(),
        ensures
            checked == in_check(self@.board, side),
    {
        let table = self.threat_table(side.opposite());
        let ghost board = self@.board;
        let mut square: usize = 0;
        while square < 64
            invariant
                square <= 64,
                self@.wf(),
                board == self@.board,
                table.len() == 64,
                forall|t: u8|
                    t < 64 ==> (#[trigger] table@[t as int] <==> attacked(
                        board,
                        side.spec_opposite(),
                        t as int,
                    )),
                !in_check_below(board, side, square as int),
            decreases 64 - square,
        {
            let king = match self.board[square] {
                Piece::Empty => false,
                Piece::Occupied { kind, color } => kind == PieceType::King && color == side,
            };
            if king && table[square] {
                assert(table@[square as u8 as int]);
                assert(attacked(board, side.spec_opposite(), square as int));
                return true;
            }
            proof {
                assert(table@[square as u8 as int] == table@[square as int]);
                if in_check_below(board, side, square + 1) {
                    let s = choose|s: int|
                        0 <= s < square + 1 && is_square(s) && board[s] == (Piece::Occupied {
                            kind: PieceType::King,
                            color: side,
                        }) && #[trigger] attacked(board, side.spec_opposite(), s);
                    if s < square {
                        assert(in_check_below(board, side, square as int));
                    }
                }
            }
            square = square + 1;
        }
        proof {
            if in_check(board, side) {
                let s = choose|s: int|
                    is_square(s) && board[s] == (Piece::Occupied {
                        kind: PieceType::King,
                        color: side,
                    }) && #[trigger] attacked(board, side.spec_opposite(), s);
                assert(in_check_below(board, side, 64));
            }
        }
        false
    }
}

/// Every destination of a man lies on the board.
pub proof fn lemma_targets_on_board(board: Seq<Piece>, origin: int, target: int)
    requires
        piece_target(board, origin, target),
    ensures
        is_square(origin),
        is_square(target),
        target != origin,
{
}

} // verus!
