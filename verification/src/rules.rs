//! The board model and the movement rules stated over it.
//!
//! A board is a sequence of 64 optional pieces, indexed rank-major:
//! square (file, rank) lives at index `(rank - 1) * 8 + (file - 1)`.
//! Empty squares hold `None`. Over this model the module defines
//! obstruction ([`blocked`]), pseudo-legality ([`pseudo_legal`]) and the
//! king-threat test ([`threatened`]).

use vstd::prelude::*;

use crate::pieces::Color;
use crate::pieces::Piece;
use crate::square::on_board;
use crate::square::Position;

verus! {

/// A board: what stands on each of the 64 squares.
pub type Board = Seq<Option<Piece>>;

/// The board index of a valid square.
pub open spec fn board_index(p: Position) -> int {
    (p.rank - 1) * 8 + (p.file - 1)
}

/// The square stored at a board index.
pub open spec fn index_square(j: int) -> Position {
    Position { file: (j % 8 + 1) as u8, rank: (j / 8 + 1) as u8 }
}

/// Board indices identify valid squares uniquely.
pub proof fn lemma_board_index(p: Position)
    requires
        p.valid(),
    ensures
        0 <= board_index(p) < 64,
        index_square(board_index(p)) == p,
{
    let f = p.file as int;
    let r = p.rank as int;
    assert(((r - 1) * 8 + (f - 1)) / 8 == r - 1 && ((r - 1) * 8 + (f - 1)) % 8 == f - 1)
        by (nonlinear_arith)
        requires
            1 <= f <= 8,
            1 <= r <= 8,
    ;
}

/// The piece on coordinates (f, r), `None` off the board or on an empty
/// square.
pub open spec fn at_coords(b: Board, f: int, r: int) -> Option<Piece> {
    if on_board(f, r) {
        b[(r - 1) * 8 + (f - 1)]
    } else {
        None
    }
}

/// The piece on a square, `None` for an empty square or an off-board
/// position.
pub open spec fn at(b: Board, p: Position) -> Option<Piece> {
    at_coords(b, p.file as int, p.rank as int)
}

/// Coordinates (f, r) lie on the board and hold a piece.
pub open spec fn occupied(b: Board, f: int, r: int) -> bool {
    at_coords(b, f, r) is Some
}

/// The sign of an offset: the unit step along it.
pub open spec fn sign(x: int) -> int {
    if x > 0 {
        1
    } else if x < 0 {
        -1
    } else {
        0
    }
}

/// The larger of the absolute offsets between two squares: how many
/// unit steps a straight or diagonal move takes.
pub open spec fn steps_between(from: Position, to: Position) -> int {
    let df = to.file as int - from.file as int;
    let dr = to.rank as int - from.rank as int;
    if df >= dr && df >= -dr {
        df
    } else if -df >= dr && -df >= -dr {
        -df
    } else if dr >= 0 {
        dr
    } else {
        -dr
    }
}

/// The i-th square on the walk from `from` towards `to`, stepping one
/// square at a time along each axis that moves.
pub open spec fn walk_file(from: Position, to: Position, i: int) -> int {
    from.file as int + i * sign(to.file as int - from.file as int)
}

/// See [`walk_file`].
pub open spec fn walk_rank(from: Position, to: Position, i: int) -> int {
    from.rank as int + i * sign(to.rank as int - from.rank as int)
}

/// Some square strictly between `from` and `to` on the straight or
/// diagonal walk from one to the other is occupied. This is how bishops
/// test obstruction; for straight moves the walk follows the shared
/// file or rank.
pub open spec fn walk_blocked(b: Board, from: Position, to: Position) -> bool {
    exists|i: int|
        1 <= i < steps_between(from, to) && occupied(
            b,
            #[trigger] walk_file(from, to, i),
            walk_rank(from, to, i),
        )
}

/// `x` lies strictly between `a` and `b`, in whichever order those
/// stand.
pub open spec fn strictly_between(a: int, x: int, b: int) -> bool {
    a < x < b || b < x < a
}

/// Some square strictly between the two squares on their shared file or
/// shared rank is occupied. This is how rooks and pawns test
/// obstruction; a pair sharing neither file nor rank is never blocked
/// by this test.
pub open spec fn straight_blocked(b: Board, from: Position, to: Position) -> bool {
    ||| (from.file == to.file && exists|r: int|
        strictly_between(from.rank as int, r, to.rank as int) && #[trigger] occupied(
            b,
            from.file as int,
            r,
        ))
    ||| (from.rank == to.rank && exists|f: int|
        strictly_between(from.file as int, f, to.file as int) && #[trigger] occupied(
            b,
            f,
            from.rank as int,
        ))
}

/// A piece standing on `from` is obstructed on its way to `to`: some
/// intermediate square of its path is occupied. Kings and knights are
/// never obstructed; bishops walk the diagonal; rooks and pawns walk
/// the shared file or rank; queens are obstructed if either test says
/// so.
pub open spec fn blocked(b: Board, piece: Piece, from: Position, to: Position) -> bool {
    match piece {
        Piece::King(_) => false,
        Piece::Knight(_) => false,
        Piece::Queen(_) => walk_blocked(b, from, to) || straight_blocked(b, from, to),
        Piece::Bishop(_) => walk_blocked(b, from, to),
        Piece::Rook(_) => straight_blocked(b, from, to),
        Piece::Pawn(_) => straight_blocked(b, from, to),
    }
}

/// The piece on `from` (there must be one) may move to `to` as far as
/// geometry, occupancy and obstruction go, ignoring king safety:
/// the destination must be geometrically reachable and unobstructed;
/// an occupied destination must hold an opposing piece, and a pawn
/// cannot capture straight ahead; an empty destination is open to every
/// piece except a pawn moving diagonally.
pub open spec fn pseudo_legal(b: Board, from: Position, to: Position) -> bool {
    match at(b, from) {
        Some(p) => p.reaches(from, to) && match at(b, to) {
            Some(q) => !(p.is_pawn() && from.file == to.file) && q.color_spec() != p.color_spec()
                && !blocked(b, p, from, to),
            None => if p.is_pawn() {
                from.file == to.file && !blocked(b, p, from, to)
            } else {
                !blocked(b, p, from, to)
            },
        },
        None => false,
    }
}

/// The king of `color` is threatened: some piece on the board has a
/// pseudo-legal move onto a square holding that king. (Such a piece
/// necessarily belongs to the opposing color, since no piece may
/// capture its own.)
pub open spec fn threatened(b: Board, color: Color) -> bool {
    exists|from: Position, to: Position|
        #[trigger] pseudo_legal(b, from, to) && at(b, to) == Some(Piece::King(color))
}

} // verus!
