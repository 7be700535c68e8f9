//! The piece catalog: six piece kinds in two colors, and the purely
//! geometric movement pattern of each kind.

use vstd::prelude::*;

use crate::square::nth_square;
use crate::square::squares_matching;
use crate::square::Position;

verus! {

/// The two sides of a match.
#[derive(Debug, Clone, Copy, PartialEq, Eq, Structural)]
pub enum Color {
    White,
    Black,
}

impl Color {
    /// The forward direction of the color's pawns: +1 for White, -1 for
    /// Black.
    pub open spec fn dir_spec(self) -> int {
        match self {
            Color::White => 1,
            Color::Black => -1,
        }
    }

    /// The forward direction of the color's pawns.
    pub fn direction(&self) -> (d: i32)
        ensures
            d as int == self.dir_spec(),
    {
        match self {
            Color::White => 1,
            Color::Black => -1,
        }
    }

    /// The opposing color.
    pub open spec fn other(self) -> Color {
        match self {
            Color::White => Color::Black,
            Color::Black => Color::White,
        }
    }

    /// The opposing color.
    pub fn opposite(&self) -> (c: Color)
        ensures
            c == self.other(),
    {
        match self {
            Color::White => Color::Black,
            Color::Black => Color::White,
        }
    }
}

/// A chess piece: a kind together with the color that owns it. Pieces
/// are immutable values; moving one places a copy on another square.
#[derive(Debug, Clone, Copy, PartialEq, Eq, Structural)]
pub enum Piece {
    King(Color),
    Queen(Color),
    Rook(Color),
    Bishop(Color),
    Knight(Color),
    Pawn(Color),
}

impl Piece {
    /// The color that owns the piece.
    pub open spec fn color_spec(self) -> Color {
        match self {
            Piece::King(c) => c,
            Piece::Queen(c) => c,
            Piece::Rook(c) => c,
            Piece::Bishop(c) => c,
            Piece::Knight(c) => c,
            Piece::Pawn(c) => c,
        }
    }

    /// The color that owns the piece.
    pub fn color(&self) -> (c: Color)
        ensures
            c == self.color_spec(),
    {
        match self {
            Piece::King(c) => *c,
            Piece::Queen(c) => *c,
            Piece::Rook(c) => *c,
            Piece::Bishop(c) => *c,
            Piece::Knight(c) => *c,
            Piece::Pawn(c) => *c,
        }
    }

    /// The piece is a king.
    pub open spec fn is_king(self) -> bool {
        self matches Piece::King(_)
    }

    /// The piece is a pawn.
    pub open spec fn is_pawn(self) -> bool {
        self matches Piece::Pawn(_)
    }

    /// The display symbol of each (kind, color) pair.
    pub open spec fn symbol_spec(self) -> char {
        match self {
            Piece::King(Color::White) => '♚',
            Piece::King(Color::Black) => '♔',
            Piece::Queen(Color::White) => '♛',
            Piece::Queen(Color::Black) => '♕',
            Piece::Rook(Color::White) => '♜',
            Piece::Rook(Color::Black) => '♖',
            Piece::Bishop(Color::White) => '♝',
            Piece::Bishop(Color::Black) => '♗',
            Piece::Knight(Color::White) => '♞',
            Piece::Knight(Color::Black) => '♘',
            Piece::Pawn(Color::White) => '♟',
            Piece::Pawn(Color::Black) => '♙',
        }
    }

    /// The unicode symbol for the piece (white pieces use the filled
    /// glyphs).
    pub fn symbol(&self) -> (c: char)
        ensures
            c == self.symbol_spec(),
    {
        match self {
            Piece::King(Color::White) => '♚',
            Piece::King(Color::Black) => '♔',
            Piece::Queen(Color::White) => '♛',
            Piece::Queen(Color::Black) => '♕',
            Piece::Rook(Color::White) => '♜',
            Piece::Rook(Color::Black) => '♖',
            Piece::Bishop(Color::White) => '♝',
            Piece::Bishop(Color::Black) => '♗',
            Piece::Knight(Color::White) => '♞',
            Piece::Knight(Color::Black) => '♘',
            Piece::Pawn(Color::White) => '♟',
            Piece::Pawn(Color::Black) => '♙',
        }
    }

    /// The piece standing on `from` can geometrically reach `to`,
    /// ignoring every other piece on the board. Kings step one square
    /// in any direction; rooks stay on a file or rank; bishops on a
    /// diagonal; queens combine both; knights jump; pawns go one square
    /// forward (two from rank 2 or 7) or one square diagonally forward.
    /// The origin square is never reachable from itself.
    pub open spec fn reaches(self, from: Position, to: Position) -> bool {
        let df = to.file as int - from.file as int;
        let dr = to.rank as int - from.rank as int;
        to.valid() && !(df == 0 && dr == 0) && match self {
            Piece::King(_) => -1 <= df <= 1 && -1 <= dr <= 1,
            Piece::Queen(_) => df == 0 || dr == 0 || df == dr || df == -dr,
            Piece::Rook(_) => df == 0 || dr == 0,
            Piece::Bishop(_) => df == dr || df == -dr,
            Piece::Knight(_) => ((df == 1 || df == -1) && (dr == 2 || dr == -2)) || ((df == 2 || df
                == -2) && (dr == 1 || dr == -1)),
            Piece::Pawn(c) => (df == 0 && (dr == c.dir_spec() || ((from.rank == 2 || from.rank == 7)
                && dr == 2 * c.dir_spec()))) || ((df == 1 || df == -1) && dr == c.dir_spec()),
        }
    }

    /// Decide geometric reachability.
    pub fn can_reach(&self, from: &Position, to: &Position) -> (b: bool)
        ensures
            b == self.reaches(*from, *to),
    {
        if !to.is_valid() {
            return false;
        }
        let df: i32 = to.file as i32 - from.file as i32;
        let dr: i32 = to.rank as i32 - from.rank as i32;
        if df == 0 && dr == 0 {
            return false;
        }
        match self {
            Piece::King(_) => -1 <= df && df <= 1 && -1 <= dr && dr <= 1,
            Piece::Queen(_) => df == 0 || dr == 0 || df == dr || df == -dr,
            Piece::Rook(_) => df == 0 || dr == 0,
            Piece::Bishop(_) => df == dr || df == -dr,
            Piece::Knight(_) => ((df == 1 || df == -1) && (dr == 2 || dr == -2)) || ((df == 2 || df
                == -2) && (dr == 1 || dr == -1)),
            Piece::Pawn(c) => {
                let dir = c.direction();
                (df == 0 && (dr == dir || ((from.rank == 2 || from.rank == 7) && dr == 2 * dir)))
                    || ((df == 1 || df == -1) && dr == dir)
            },
        }
    }

    /// The geometrically reachable destinations of the piece, as seen
    /// by [`Piece::reaches`].
    pub open spec fn destinations_spec(self, from: Position) -> Seq<Position> {
        squares_matching(|q: Position| self.reaches(from, q), 64)
    }

    /// Every destination on the board the piece could reach from `pos`
    /// if the board were otherwise empty, in textual order. Occupancy,
    /// captures and king safety are not considered here.
    #[verifier::loop_isolation(false)]
    pub fn valid_destinations(&self, pos: &Position) -> (r: Vec<Position>)
        requires
            pos.valid(),
        ensures
            r@ == self.destinations_spec(*pos),
    {
        let ghost pred = |q: Position| self.reaches(*pos, q);
        let mut out: Vec<Position> = Vec::new();
        let mut k: usize = 0;
        while k < 64
            invariant
                k <= 64,
                out@ == squares_matching(pred, k as int),
            decreases 64 - k,
        {
            let q = Position { file: (k / 8 + 1) as u8, rank: (k % 8 + 1) as u8 };
            proof {
                assert(q == nth_square(k as int));
            }
            if self.can_reach(pos, &q) {
                out.push(q);
            }
            k = k + 1;
        }
        out
    }
}

} // verus!
