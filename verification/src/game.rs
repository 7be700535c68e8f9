//! The game state and the engine around it: setup, move generation,
//! move execution, promotion preferences, and check/checkmate
//! detection.

use vstd::prelude::*;

use crate::pieces::Color;
use crate::pieces::Piece;
use crate::rules::at;
use crate::rules::blocked;
use crate::rules::board_index;
use crate::rules::index_square;
use crate::rules::lemma_board_index;
use crate::rules::occupied;
use crate::rules::pseudo_legal;
use crate::rules::sign;
use crate::rules::steps_between;
use crate::rules::straight_blocked;
use crate::rules::strictly_between;
use crate::rules::threatened;
use crate::rules::walk_blocked;
use crate::rules::walk_file;
use crate::rules::walk_rank;
use crate::rules::Board;
use crate::square::lemma_nth_square;
use crate::square::lemma_square_index;
use crate::square::lemma_squares_matching_contains;
use crate::square::lower_char;
use crate::square::lower_text;
use crate::square::nth_square;
use crate::square::parse_spec;
use crate::square::square_index;
use crate::square::squares_matching;
use crate::square::Position;

verus! {

/// The coarse state of a game. `CheckMate` is only ever set by
/// [`Game::get_game_state`], which performs the exhaustive search;
/// after a checkmating move the cached state still reads `Check` until
/// queried.
#[derive(Debug, Clone, Copy, PartialEq, Eq, Structural)]
pub enum GameState {
    InProgress,
    Check,
    CheckMate,
}

/// Why a move was rejected. A rejected move leaves the game unchanged.
#[derive(Debug, Clone, Copy, PartialEq, Eq, Structural)]
pub enum MoveError {
    /// One of the two coordinate strings does not name a square.
    InvalidPosition,
    /// The source square is empty.
    NoPieceAtSource,
    /// The piece on the source square belongs to the inactive color.
    WrongTurn,
    /// The destination is not pseudo-legal for the piece.
    IllegalDestination,
    /// The destination holds a king; kings are never captured.
    CannotCaptureKing,
    /// The move would leave the mover's own king threatened.
    SelfCheck,
}

/// Why a promotion preference was rejected.
#[derive(Debug, Clone, Copy, PartialEq, Eq, Structural)]
pub enum PromotionError {
    /// The piece name is not one of queen, rook, bishop, knight.
    InvalidPieceName,
}

/// A chess match: the board, whose turn it is, each color's promotion
/// preference, and the cached coarse state.
#[derive(Debug, Clone, PartialEq)]
pub struct Game {
    /// What stands on each square, indexed rank-major: square
    /// (file, rank) is entry `(rank - 1) * 8 + (file - 1)`.
    pub board: Vec<Option<Piece>>,
    /// The color whose turn it is.
    pub active_color: Color,
    /// The piece a pawn of each color turns into on the far rank; one
    /// entry per color.
    pub promotion: [Piece; 2],
    /// The cached game state. Call [`Game::get_game_state`] to detect
    /// checkmate.
    pub state: GameState,
}

/// The piece the standard starting arrangement puts on a back-rank
/// file.
pub open spec fn back_rank_piece(f: int, c: Color) -> Piece {
    if f == 1 || f == 8 {
        Piece::Rook(c)
    } else if f == 2 || f == 7 {
        Piece::Knight(c)
    } else if f == 3 || f == 6 {
        Piece::Bishop(c)
    } else if f == 4 {
        Piece::Queen(c)
    } else {
        Piece::King(c)
    }
}

/// What the standard starting arrangement puts on a square: White's
/// pieces on rank 1, pawns on ranks 2 and 7, Black's pieces on rank 8.
pub open spec fn starting_piece(p: Position) -> Option<Piece> {
    if p.rank == 1 {
        Some(back_rank_piece(p.file as int, Color::White))
    } else if p.rank == 2 {
        Some(Piece::Pawn(Color::White))
    } else if p.rank == 7 {
        Some(Piece::Pawn(Color::Black))
    } else if p.rank == 8 {
        Some(back_rank_piece(p.file as int, Color::Black))
    } else {
        None
    }
}

impl Game {
    /// The board representation is intact: one entry per square.
    pub open spec fn wf(self) -> bool {
        self.board@.len() == 64
    }

    /// The piece on a square.
    pub open spec fn piece_at_spec(self, p: Position) -> Option<Piece> {
        at(self.board@, p)
    }

    /// `p` holds a piece of color `c`.
    pub open spec fn has_piece_of(self, p: Position, c: Color) -> bool {
        match at(self.board@, p) {
            Some(piece) => piece.color_spec() == c,
            None => false,
        }
    }

    /// The piece pawns of color `c` promote to: the first preference
    /// slot owned by `c`, or a queen if no slot is.
    pub open spec fn promo_spec(self, c: Color) -> Piece {
        if self.promotion[0].color_spec() == c {
            self.promotion[0]
        } else if self.promotion[1].color_spec() == c {
            self.promotion[1]
        } else {
            Piece::Queen(c)
        }
    }
}

/// Read a square of a board.
fn board_at(board: &Vec<Option<Piece>>, p: &Position) -> (r: Option<Piece>)
    requires
        board@.len() == 64,
    ensures
        r == at(board@, *p),
{
    if p.is_valid() {
        proof {
            lemma_board_index(*p);
        }
        let j: usize = (p.rank as usize - 1) * 8 + (p.file as usize - 1);
        board[j]
    } else {
        None
    }
}

/// Read a square of a board given by raw coordinates, which may lie off
/// the board.
fn board_occupied(board: &Vec<Option<Piece>>, f: i32, r: i32) -> (b: bool)
    requires
        board@.len() == 64,
    ensures
        b == occupied(board@, f as int, r as int),
{
    if 1 <= f && f <= 8 && 1 <= r && r <= 8 {
        let j: usize = (r as usize - 1) * 8 + (f as usize - 1);
        board[j].is_some()
    } else {
        false
    }
}

/// An identical copy of a board.
#[verifier::loop_isolation(false)]
fn copy_board(board: &Vec<Option<Piece>>) -> (r: Vec<Option<Piece>>)
    ensures
        r@ == board@,
{
    let mut out: Vec<Option<Piece>> = Vec::new();
    let mut k: usize = 0;
    while k < board.len()
        invariant
            k <= board@.len(),
            out@ =~= board@.take(k as int),
        decreases board@.len() - k,
    {
        out.push(board[k]);
        k = k + 1;
    }
    proof {
        assert(out@ =~= board@);
    }
    out
}

/// Walk the straight or diagonal line from `from` towards `to`, one
/// step per square, and report whether any square strictly between them
/// is occupied.
#[verifier::loop_isolation(false)]
fn board_walk_blocked(board: &Vec<Option<Piece>>, from: &Position, to: &Position) -> (b: bool)
    requires
        board@.len() == 64,
    ensures
        b == walk_blocked(board@, *from, *to),
{
    let df: i32 = to.file as i32 - from.file as i32;
    let dr: i32 = to.rank as i32 - from.rank as i32;
    let sf: i32 = if df > 0 {
        1
    } else if df < 0 {
        -1
    } else {
        0
    };
    let sr: i32 = if dr > 0 {
        1
    } else if dr < 0 {
        -1
    } else {
        0
    };
    let m: i32 = if df >= dr && df >= -dr {
        df
    } else if -df >= dr && -df >= -dr {
        -df
    } else if dr >= 0 {
        dr
    } else {
        -dr
    };
    proof {
        assert(m as int == steps_between(*from, *to));
        assert(sf as int == sign(df as int) && sr as int == sign(dr as int));
    }
    let mut i: i32 = 1;
    while i < m
        invariant
            1 <= i,
            i <= m || i == 1,
            forall|j: int|
                1 <= j < i ==> !occupied(
                    board@,
                    #[trigger] walk_file(*from, *to, j),
                    walk_rank(*from, *to, j),
                ),
        decreases m - i,
    {
        let fx: i32 = from.file as i32 + i * sf;
        let rx: i32 = from.rank as i32 + i * sr;
        proof {
            assert(fx as int == walk_file(*from, *to, i as int));
            assert(rx as int == walk_rank(*from, *to, i as int));
        }
        if board_occupied(board, fx, rx) {
            proof {
                assert(occupied(board@, walk_file(*from, *to, i as int), walk_rank(*from, *to, i as int)));
            }
            return true;
        }
        i = i + 1;
    }
    false
}

/// Report whether any square strictly between `from` and `to` on their
/// shared file or shared rank is occupied.
#[verifier::loop_isolation(false)]
fn board_straight_blocked(board: &Vec<Option<Piece>>, from: &Position, to: &Position) -> (b: bool)
    requires
        board@.len() == 64,
    ensures
        b == straight_blocked(board@, *from, *to),
{
    if from.file == to.file {
        let lo: i32 = if from.rank <= to.rank {
            from.rank as i32
        } else {
            to.rank as i32
        };
        let hi: i32 = if from.rank <= to.rank {
            to.rank as i32
        } else {
            from.rank as i32
        };
        let mut r: i32 = lo + 1;
        while r < hi
            invariant
                lo < r,
                r <= hi || r == lo + 1,
                forall|x: int| lo < x < r ==> !#[trigger] occupied(board@, from.file as int, x),
            decreases hi - r,
        {
            if board_occupied(board, from.file as i32, r) {
                proof {
                    assert(strictly_between(from.rank as int, r as int, to.rank as int));
                }
                return true;
            }
            r = r + 1;
        }
        proof {
            assert forall|x: int|
                strictly_between(from.rank as int, x, to.rank as int) implies !occupied(
                board@,
                from.file as int,
                x,
            ) by {}
        }
    }
    if from.rank == to.rank {
        let lo: i32 = if from.file <= to.file {
            from.file as i32
        } else {
            to.file as i32
        };
        let hi: i32 = if from.file <= to.file {
            to.file as i32
        } else {
            from.file as i32
        };
        let mut f: i32 = lo + 1;
        while f < hi
            invariant
                lo < f,
                f <= hi || f == lo + 1,
                forall|x: int| lo < x < f ==> !#[trigger] occupied(board@, x, from.rank as int),
            decreases hi - f,
        {
            if board_occupied(board, f, from.rank as i32) {
                proof {
                    assert(strictly_between(from.file as int, f as int, to.file as int));
                }
                return true;
            }
            f = f + 1;
        }
        proof {
            assert forall|x: int|
                strictly_between(from.file as int, x, to.file as int) implies !occupied(
                board@,
                x,
                from.rank as int,
            ) by {}
        }
    }
    false
}

/// Decide the obstruction test for a piece moving between two squares.
fn board_blocked(board: &Vec<Option<Piece>>, piece: &Piece, from: &Position, to: &Position) -> (b:
    bool)
    requires
        board@.len() == 64,
    ensures
        b == blocked(board@, *piece, *from, *to),
{
    match piece {
        Piece::King(_) => false,
        Piece::Knight(_) => false,
        Piece::Queen(_) => board_walk_blocked(board, from, to) || board_straight_blocked(
            board,
            from,
            to,
        ),
        Piece::Bishop(_) => board_walk_blocked(board, from, to),
        Piece::Rook(_) => board_straight_blocked(board, from, to),
        Piece::Pawn(_) => board_straight_blocked(board, from, to),
    }
}

/// Decide pseudo-legality of a move on a board.
fn board_pseudo_legal(board: &Vec<Option<Piece>>, from: &Position, to: &Position) -> (b: bool)
    requires
        board@.len() == 64,
    ensures
        b == pseudo_legal(board@, *from, *to),
{
    match board_at(board, from) {
        None => false,
        Some(p) => {
            if !p.can_reach(from, to) {
                return false;
            }
            let is_pawn = matches!(p, Piece::Pawn(_));
            match board_at(board, to) {
                Some(q) => {
                    if is_pawn && from.file == to.file {
                        false
                    } else {
                        q.color() != p.color() && !board_blocked(board, &p, from, to)
                    }
                },
                None => {
                    if is_pawn {
                        from.file == to.file && !board_blocked(board, &p, from, to)
                    } else {
                        !board_blocked(board, &p, from, to)
                    }
                },
            }
        },
    }
}

impl Game {
    /// A new game: the standard starting arrangement, White to move,
    /// both promotion preferences set to the queen, state in progress.
    #[verifier::loop_isolation(false)]
    pub fn new() -> (g: Game)
        ensures
            g.wf(),
            g.active_color == Color::White,
            g.state == GameState::InProgress,
            g.promotion@ =~= seq![
                Piece::Queen(Color::White),
                Piece::Queen(Color::Black),
            ],
            forall|p: Position| p.valid() ==> #[trigger] at(g.board@, p) == starting_piece(p),
    {
        let mut board: Vec<Option<Piece>> = Vec::new();
        let mut k: usize = 0;
        while k < 64
            invariant
                k <= 64,
                board@.len() == k,
                forall|j: int| 0 <= j < k ==> #[trigger] board@[j] == starting_piece(
                    index_square(j),
                ),
            decreases 64 - k,
        {
            let f: u8 = (k % 8 + 1) as u8;
            let r: u8 = (k / 8 + 1) as u8;
            let piece: Option<Piece> = if r == 1 || r == 8 {
                let c = if r == 1 {
                    Color::White
                } else {
                    Color::Black
                };
                Some(
                    if f == 1 || f == 8 {
                        Piece::Rook(c)
                    } else if f == 2 || f == 7 {
                        Piece::Knight(c)
                    } else if f == 3 || f == 6 {
                        Piece::Bishop(c)
                    } else if f == 4 {
                        Piece::Queen(c)
                    } else {
                        Piece::King(c)
                    },
                )
            } else if r == 2 {
                Some(Piece::Pawn(Color::White))
            } else if r == 7 {
                Some(Piece::Pawn(Color::Black))
            } else {
                None
            };
            proof {
                assert(Position { file: f, rank: r } == index_square(k as int));
                assert(piece == starting_piece(index_square(k as int)));
            }
            board.push(piece);
            k = k + 1;
        }
        let g = Game {
            board,
            active_color: Color::White,
            promotion: [Piece::Queen(Color::White), Piece::Queen(Color::Black)],
            state: GameState::InProgress,
        };
        proof {
            assert forall|p: Position| p.valid() implies #[trigger] at(g.board@, p)
                == starting_piece(p) by {
                lemma_board_index(p);
            }
        }
        g
    }

    /// The piece on a square, `None` for an empty square or an
    /// off-board position.
    pub fn piece_at(&self, p: &Position) -> (r: Option<Piece>)
        requires
            self.wf(),
        ensures
            r == self.piece_at_spec(*p),
    {
        board_at(&self.board, p)
    }

    /// Whether a piece standing on `position` would be obstructed on
    /// its way to `destination` by some piece strictly between the two
    /// squares.
    pub fn _is_piece_in_way(&self, piece: &Piece, position: &Position, destination: &Position) -> (b:
        bool)
        requires
            self.wf(),
        ensures
            b == blocked(self.board@, *piece, *position, *destination),
    {
        board_blocked(&self.board, piece, position, destination)
    }

    /// The pseudo-legal destinations of the piece on `from`, in textual
    /// order.
    pub open spec fn pseudo_seq(self, from: Position) -> Seq<Position> {
        squares_matching(|q: Position| pseudo_legal(self.board@, from, q), 64)
    }

    /// The pseudo-legal destinations of the piece on `position`, in
    /// textual order: these respect geometry, occupancy and
    /// obstruction, but may expose the mover's own king. `None` if no
    /// piece stands there; an empty list if a piece does but cannot
    /// move.
    #[verifier::loop_isolation(false)]
    pub fn _get_possible_moves(&self, position: &Position) -> (r: Option<Vec<Position>>)
        requires
            self.wf(),
        ensures
            match self.piece_at_spec(*position) {
                None => r is None,
                Some(_) => r matches Some(v) && v@ == self.pseudo_seq(*position),
            },
    {
        if board_at(&self.board, position).is_none() {
            return None;
        }
        let ghost pred = |q: Position| pseudo_legal(self.board@, *position, q);
        let mut out: Vec<Position> = Vec::new();
        let mut k: usize = 0;
        while k < 64
            invariant
                k <= 64,
                out@ == squares_matching(pred, k as int),
            decreases 64 - k,
        {
            let q = Position { file: (k / 8 + 1) as u8, rank: (k % 8 + 1) as u8 };
            proof {
                assert(q == nth_square(k as int));
            }
            if board_pseudo_legal(&self.board, position, &q) {
                out.push(q);
            }
            k = k + 1;
        }
        Some(out)
    }
}

impl Game {
    /// The piece that lands on `to` when the piece on `from` moves
    /// there: the mover itself, or the active color's promotion piece
    /// for a pawn reaching rank 1 or 8.
    pub open spec fn moved_piece_spec(self, from: Position, to: Position) -> Piece {
        let p = at(self.board@, from)->Some_0;
        if p.is_pawn() && (to.rank == 1 || to.rank == 8) {
            self.promo_spec(self.active_color)
        } else {
            p
        }
    }

    /// The board after the piece on `from` moves to `to`: the moved
    /// piece replaces whatever stood on `to`, and `from` becomes empty.
    pub open spec fn board_after_spec(self, from: Position, to: Position) -> Board {
        self.board@.update(board_index(to), Some(self.moved_piece_spec(from, to))).update(
            board_index(from),
            None,
        )
    }

    /// The destination is legal for the piece on `from`: pseudo-legal,
    /// not onto a king, and — when the piece belongs to the active
    /// color — not leaving the mover's own king threatened after the
    /// move. A query for the inactive color skips the king-safety
    /// filter (such queries are informational; the filter would recurse
    /// into itself otherwise).
    pub open spec fn legal_spec(self, from: Position, to: Position) -> bool {
        &&& pseudo_legal(self.board@, from, to)
        &&& !(at(self.board@, to) matches Some(q) && q.is_king())
        &&& match at(self.board@, from) {
            Some(p) => p.color_spec() != self.active_color || !threatened(
                self.board_after_spec(from, to),
                self.active_color,
            ),
            None => false,
        }
    }

    /// The legal destinations of the piece on `from`, in textual order.
    pub open spec fn legal_seq(self, from: Position) -> Seq<Position> {
        squares_matching(|q: Position| self.legal_spec(from, q), 64)
    }

    /// The configured promotion piece for `c`: the first preference
    /// slot owned by `c`, or a queen if no slot is.
    pub fn promotion_piece(&self, c: Color) -> (p: Piece)
        ensures
            p == self.promo_spec(c),
    {
        if self.promotion[0].color() == c {
            self.promotion[0]
        } else if self.promotion[1].color() == c {
            self.promotion[1]
        } else {
            Piece::Queen(c)
        }
    }

    /// The board after moving the piece on `from` to `to`, with
    /// promotion substituted. The game itself is untouched.
    fn board_after(&self, from: &Position, to: &Position) -> (nb: Vec<Option<Piece>>)
        requires
            self.wf(),
            from.valid(),
            to.valid(),
            self.piece_at_spec(*from) is Some,
        ensures
            nb@ == self.board_after_spec(*from, *to),
    {
        let p: Piece = board_at(&self.board, from).unwrap();
        let moved: Piece = if matches!(p, Piece::Pawn(_)) && (to.rank == 1 || to.rank == 8) {
            self.promotion_piece(self.active_color)
        } else {
            p
        };
        let mut nb = copy_board(&self.board);
        proof {
            lemma_board_index(*to);
            lemma_board_index(*from);
        }
        let jt: usize = (to.rank as usize - 1) * 8 + (to.file as usize - 1);
        nb.set(jt, Some(moved));
        let jf: usize = (from.rank as usize - 1) * 8 + (from.file as usize - 1);
        nb.set(jf, None);
        nb
    }

    /// The king-safety filter: a pseudo-legal move of the active
    /// color's piece is acceptable only if the position after it does
    /// not threaten the mover's own king. For the inactive color's
    /// pieces the filter reports acceptance without looking.
    fn _ok_to_make_move(&self, from: &Position, to: &Position) -> (b: bool)
        requires
            self.wf(),
            pseudo_legal(self.board@, *from, *to),
        ensures
            b == (at(self.board@, *from)->Some_0.color_spec() != self.active_color || !threatened(
                self.board_after_spec(*from, *to),
                self.active_color,
            )),
    {
        proof {
            assert(from.valid() && to.valid());
        }
        let p: Piece = board_at(&self.board, from).unwrap();
        if p.color() != self.active_color {
            return true;
        }
        let nb = self.board_after(from, to);
        !board_threatened(&nb, self.active_color)
    }

    /// The legal destinations of the piece on `from`, in textual order.
    #[verifier::loop_isolation(false)]
    fn legal_positions(&self, from: &Position) -> (r: Vec<Position>)
        requires
            self.wf(),
            self.piece_at_spec(*from) is Some,
        ensures
            r@ == self.legal_seq(*from),
    {
        let ghost pred = |q: Position| self.legal_spec(*from, q);
        let mut out: Vec<Position> = Vec::new();
        let mut k: usize = 0;
        while k < 64
            invariant
                k <= 64,
                out@ == squares_matching(pred, k as int),
            decreases 64 - k,
        {
            let q = Position { file: (k / 8 + 1) as u8, rank: (k % 8 + 1) as u8 };
            proof {
                assert(q == nth_square(k as int));
            }
            let mut keep = false;
            if board_pseudo_legal(&self.board, from, &q) {
                let dest_is_king = matches!(board_at(&self.board, &q), Some(Piece::King(_)));
                if !dest_is_king {
                    keep = self._ok_to_make_move(from, &q);
                }
            }
            proof {
                assert(keep == pred(q));
            }
            if keep {
                out.push(q);
            }
            k = k + 1;
        }
        out
    }

    /// If a piece stands on the named square, all legal destinations of
    /// that piece, in textual form and lexicographic order (an empty
    /// list if it has none). `None` if the text does not name a square
    /// or the square is empty.
    #[verifier::loop_isolation(false)]
    pub fn get_possible_moves(&self, _position: String) -> (r: Option<Vec<String>>)
        requires
            self.wf(),
        ensures
            match parse_spec(_position@) {
                Ok(p) => match self.piece_at_spec(p) {
                    Some(_) => r matches Some(v) && v.deep_view() == self.legal_seq(p).map_values(
                        |q: Position| q.text(),
                    ),
                    None => r is None,
                },
                Err(_) => r is None,
            },
    {
        let p = match Position::from_string(_position) {
            Ok(p) => p,
            Err(_) => { return None },
        };
        if board_at(&self.board, &p).is_none() {
            return None;
        }
        let moves = self.legal_positions(&p);
        let ghost target = self.legal_seq(p).map_values(|q: Position| q.text());
        let mut out: Vec<String> = Vec::new();
        let mut i: usize = 0;
        while i < moves.len()
            invariant
                i <= moves@.len(),
                out.deep_view() =~~= target.take(i as int),
            decreases moves@.len() - i,
        {
            let q = moves[i];
            proof {
                assert(moves@.contains(q));
                lemma_squares_matching_contains(
                    |x: Position| self.legal_spec(p, x),
                    64,
                    q,
                );
            }
            out.push(q.to_string());
            proof {
                assert(out.deep_view() =~~= target.take(i + 1 as int));
            }
            i = i + 1;
        }
        proof {
            assert(target.take(moves@.len() as int) =~~= target);
        }
        Some(out)
    }
}

/// The piece a promotion name denotes for color `c`: the names queen,
/// rook, bishop and knight are accepted in any ASCII case.
pub open spec fn promotion_piece_named(s: Seq<char>, c: Color) -> Option<Piece> {
    if lower_text(s) == "queen"@ {
        Some(Piece::Queen(c))
    } else if lower_text(s) == "rook"@ {
        Some(Piece::Rook(c))
    } else if lower_text(s) == "bishop"@ {
        Some(Piece::Bishop(c))
    } else if lower_text(s) == "knight"@ {
        Some(Piece::Knight(c))
    } else {
        None
    }
}

/// Compare a string case-insensitively (ASCII) against a target that is
/// already lowercase.
#[verifier::loop_isolation(false)]
fn lower_eq(s: &str, t: &str) -> (b: bool)
    ensures
        b == (lower_text(s@) == t@),
{
    let n = s.unicode_len();
    if n != t.unicode_len() {
        proof {
            assert(lower_text(s@).len() == s@.len());
        }
        return false;
    }
    let mut i: usize = 0;
    while i < n
        invariant
            i <= n,
            forall|j: int| 0 <= j < i ==> lower_char(s@[j]) == t@[j],
        decreases n - i,
    {
        let cs = s.get_char(i);
        let ct = t.get_char(i);
        let vs = cs as u32;
        let lvs: u32 = if 65 <= vs && vs <= 90 {
            vs + 32
        } else {
            vs
        };
        if lvs != ct as u32 {
            proof {
                assert(lower_text(s@)[i as int] == lower_char(s@[i as int]));
                assert(lower_char(cs) as u32 == lvs);
            }
            return false;
        }
        proof {
            assert(lower_char(cs) as u32 == lvs);
            assert(lower_char(s@[i as int]) == t@[i as int]);
        }
        i = i + 1;
    }
    proof {
        assert(lower_text(s@) =~= t@);
    }
    true
}

impl Game {
    /// The preference slot owned by `c`: the first of the two whose
    /// piece has color `c`, if any has.
    pub open spec fn promo_slot_spec(self, c: Color) -> Option<int> {
        if self.promotion[0].color_spec() == c {
            Some(0int)
        } else if self.promotion[1].color_spec() == c {
            Some(1int)
        } else {
            None
        }
    }

    /// Set the promotion piece for the active color. The name must be
    /// queen, rook, bishop or knight, in any ASCII case; any other name
    /// is rejected and nothing changes. (If no preference slot belongs
    /// to the active color, the request is accepted and ignored; a
    /// fresh game always has one slot per color.)
    pub fn set_promotion(&mut self, _piece: String) -> (r: Result<(), PromotionError>)
        ensures
            final(self).board@ == old(self).board@,
            final(self).active_color == old(self).active_color,
            final(self).state == old(self).state,
            match r {
                Ok(_) => match old(self).promo_slot_spec(old(self).active_color) {
                    None => final(self).promotion == old(self).promotion,
                    Some(slot) => promotion_piece_named(_piece@, old(self).active_color) matches Some(
                        np,
                    ) && final(self).promotion@ == old(self).promotion@.update(slot, np),
                },
                Err(e) => {
                    &&& e == PromotionError::InvalidPieceName
                    &&& promotion_piece_named(_piece@, old(self).active_color) is None
                    &&& old(self).promo_slot_spec(old(self).active_color) is Some
                    &&& final(self).promotion == old(self).promotion
                },
            },
    {
        let c = self.active_color;
        let slot: usize = if self.promotion[0].color() == c {
            0
        } else if self.promotion[1].color() == c {
            1
        } else {
            return Ok(());
        };
        let np: Piece = if lower_eq(_piece.as_str(), "queen") {
            Piece::Queen(c)
        } else if lower_eq(_piece.as_str(), "rook") {
            Piece::Rook(c)
        } else if lower_eq(_piece.as_str(), "bishop") {
            Piece::Bishop(c)
        } else if lower_eq(_piece.as_str(), "knight") {
            Piece::Knight(c)
        } else {
            return Err(PromotionError::InvalidPieceName);
        };
        if slot == 0 {
            self.promotion = [np, self.promotion[1]];
        } else {
            self.promotion = [self.promotion[0], np];
        }
        proof {
            assert(self.promotion@ =~= old(self).promotion@.update(slot as int, np));
        }
        Ok(())
    }

    /// The failure a move request runs into, `None` when the move is
    /// acceptable. The checks run in order: both texts must name
    /// squares; the source must hold a piece; the piece must belong to
    /// the active color; the destination must be pseudo-legal; the
    /// destination must not hold a king; the move must not leave the
    /// mover's own king threatened.
    pub open spec fn move_error_spec(self, fs: Seq<char>, ts: Seq<char>) -> Option<MoveError> {
        match (parse_spec(fs), parse_spec(ts)) {
            (Ok(from), Ok(to)) => match at(self.board@, from) {
                None => Some(MoveError::NoPieceAtSource),
                Some(p) => if p.color_spec() != self.active_color {
                    Some(MoveError::WrongTurn)
                } else if !pseudo_legal(self.board@, from, to) {
                    Some(MoveError::IllegalDestination)
                } else if at(self.board@, to) matches Some(q) && q.is_king() {
                    Some(MoveError::CannotCaptureKing)
                } else if threatened(self.board_after_spec(from, to), self.active_color) {
                    Some(MoveError::SelfCheck)
                } else {
                    None
                },
            },
            _ => Some(MoveError::InvalidPosition),
        }
    }

    /// Move the piece on `_from` to `_to` if the move is legal for the
    /// active color. On success the captured piece (if any) is
    /// returned, the board is updated — with the active color's
    /// promotion piece substituted for a pawn reaching the far rank —
    /// the state becomes `Check` exactly when the move threatens the
    /// opponent's king, and the turn passes to the opponent. On failure
    /// the game is left entirely unchanged and the error says which
    /// check failed.
    pub fn make_move(&mut self, _from: String, _to: String) -> (r: Result<
        Option<Piece>,
        MoveError,
    >)
        requires
            old(self).wf(),
        ensures
            final(self).wf(),
            match r {
                Err(e) => {
                    &&& old(self).move_error_spec(_from@, _to@) == Some(e)
                    &&& final(self).board@ == old(self).board@
                    &&& final(self).active_color == old(self).active_color
                    &&& final(self).promotion == old(self).promotion
                    &&& final(self).state == old(self).state
                },
                Ok(captured) => {
                    &&& old(self).move_error_spec(_from@, _to@) is None
                    &&& parse_spec(_from@) matches Ok(from) && parse_spec(_to@) matches Ok(to) && {
                        &&& captured == at(old(self).board@, to)
                        &&& final(self).board@ == old(self).board_after_spec(from, to)
                        &&& final(self).state == (if threatened(
                            final(self).board@,
                            old(self).active_color.other(),
                        ) {
                            GameState::Check
                        } else {
                            GameState::InProgress
                        })
                    }
                    &&& final(self).active_color == old(self).active_color.other()
                    &&& final(self).promotion == old(self).promotion
                },
            },
    {
        let from = match Position::from_string(_from) {
            Ok(p) => p,
            Err(_) => { return Err(MoveError::InvalidPosition) },
        };
        let to = match Position::from_string(_to) {
            Ok(p) => p,
            Err(_) => { return Err(MoveError::InvalidPosition) },
        };
        let piece = match board_at(&self.board, &from) {
            Some(p) => p,
            None => { return Err(MoveError::NoPieceAtSource) },
        };
        if piece.color() != self.active_color {
            return Err(MoveError::WrongTurn);
        }
        if !board_pseudo_legal(&self.board, &from, &to) {
            return Err(MoveError::IllegalDestination);
        }
        if matches!(board_at(&self.board, &to), Some(Piece::King(_))) {
            return Err(MoveError::CannotCaptureKing);
        }
        let captured = board_at(&self.board, &to);
        proof {
            assert(from.valid() && to.valid());
        }
        let nb = self.board_after(&from, &to);
        if board_threatened(&nb, self.active_color) {
            return Err(MoveError::SelfCheck);
        }
        self.board = nb;
        self.state = GameState::InProgress;
        let opponent = self.active_color.opposite();
        if board_threatened(&self.board, opponent) {
            self.state = GameState::Check;
        }
        self.active_color = opponent;
        Ok(captured)
    }

    /// `color` has no legal move anywhere on the board: this is the
    /// engine's sole checkmate criterion (it does not distinguish
    /// stalemate).
    pub open spec fn checkmate_spec(self, color: Color) -> bool {
        forall|from: Position, to: Position|
            !(self.has_piece_of(from, color) && #[trigger] self.legal_spec(from, to))
    }

    /// Whether `color` is checkmated: every piece of that color is
    /// searched exhaustively for a legal move, and none has one.
    #[verifier::loop_isolation(false)]
    pub fn _is_checkmate(&self, color: Color) -> (b: bool)
        requires
            self.wf(),
        ensures
            b == self.checkmate_spec(color),
    {
        let mut k: usize = 0;
        while k < 64
            invariant
                k <= 64,
                forall|p: Position, q: Position|
                    p.valid() && square_index(p) < k ==> !(self.has_piece_of(p, color)
                        && #[trigger] self.legal_spec(p, q)),
            decreases 64 - k,
        {
            let from = Position { file: (k / 8 + 1) as u8, rank: (k % 8 + 1) as u8 };
            proof {
                assert(from == nth_square(k as int));
                lemma_nth_square(k as int);
            }
            let of_color = match board_at(&self.board, &from) {
                Some(p) => p.color() == color,
                None => false,
            };
            if of_color {
                let moves = self.legal_positions(&from);
                if moves.len() > 0 {
                    proof {
                        let q = moves@[0];
                        assert(moves@.contains(q));
                        lemma_squares_matching_contains(
                            |x: Position| self.legal_spec(from, x),
                            64,
                            q,
                        );
                        assert(self.has_piece_of(from, color) && self.legal_spec(from, q));
                    }
                    return false;
                }
                proof {
                    assert forall|q: Position| !(#[trigger] self.legal_spec(from, q)) by {
                        if self.legal_spec(from, q) {
                            assert(q.valid());
                            lemma_squares_matching_contains(
                                |x: Position| self.legal_spec(from, x),
                                64,
                                q,
                            );
                        }
                    }
                }
            }
            k = k + 1;
        }
        proof {
            assert forall|p: Position, q: Position|
                !(self.has_piece_of(p, color) && #[trigger] self.legal_spec(p, q)) by {
                if self.has_piece_of(p, color) {
                    assert(p.valid());
                    lemma_square_index(p);
                }
            }
        }
        true
    }

    /// The current game state. A checkmate of the active color is
    /// detected here, on the query, not inside `make_move`: until this
    /// is called the cached state of a finished game still reads
    /// `Check`.
    pub fn get_game_state(&mut self) -> (s: GameState)
        requires
            old(self).wf(),
        ensures
            final(self).wf(),
            final(self).board@ == old(self).board@,
            final(self).active_color == old(self).active_color,
            final(self).promotion == old(self).promotion,
            s == final(self).state,
            final(self).state == (if old(self).checkmate_spec(old(self).active_color) {
                GameState::CheckMate
            } else {
                old(self).state
            }),
    {
        if self._is_checkmate(self.active_color) {
            self.state = GameState::CheckMate;
        }
        self.state
    }
}

/// The piece on `from` has a pseudo-legal move onto a square holding
/// the king of `color`.
pub open spec fn piece_threatens_king(b: Board, from: Position, color: Color) -> bool {
    exists|to: Position|
        #[trigger] pseudo_legal(b, from, to) && at(b, to) == Some(Piece::King(color))
}

/// Decide whether the piece on `from` (if any) threatens the king of
/// `color`.
#[verifier::loop_isolation(false)]
fn board_piece_threatens_king(board: &Vec<Option<Piece>>, from: &Position, color: Color) -> (b:
    bool)
    requires
        board@.len() == 64,
    ensures
        b == piece_threatens_king(board@, *from, color),
{
    let mut j: usize = 0;
    while j < 64
        invariant
            j <= 64,
            forall|q: Position|
                q.valid() && square_index(q) < j ==> !(#[trigger] pseudo_legal(board@, *from, q)
                    && at(board@, q) == Some(Piece::King(color))),
        decreases 64 - j,
    {
        let to = Position { file: (j / 8 + 1) as u8, rank: (j % 8 + 1) as u8 };
        proof {
            assert(to == nth_square(j as int));
            lemma_nth_square(j as int);
        }
        if board_pseudo_legal(board, from, &to) {
            if let Some(Piece::King(c)) = board_at(board, &to) {
                if c == color {
                    proof {
                        assert(pseudo_legal(board@, *from, to) && at(board@, to) == Some(
                            Piece::King(color),
                        ));
                    }
                    return true;
                }
            }
        }
        j = j + 1;
    }
    proof {
        assert forall|q: Position| !(#[trigger] pseudo_legal(board@, *from, q) && at(board@, q)
            == Some(Piece::King(color))) by {
            if q.valid() {
                lemma_square_index(q);
            }
        }
    }
    false
}

/// Decide whether the king of `color` is threatened on this board:
/// every square is asked whether its piece threatens that king.
#[verifier::loop_isolation(false)]
fn board_threatened(board: &Vec<Option<Piece>>, color: Color) -> (b: bool)
    requires
        board@.len() == 64,
    ensures
        b == threatened(board@, color),
{
    let mut k: usize = 0;
    while k < 64
        invariant
            k <= 64,
            forall|p: Position|
                p.valid() && square_index(p) < k ==> !#[trigger] piece_threatens_king(
                    board@,
                    p,
                    color,
                ),
        decreases 64 - k,
    {
        let from = Position { file: (k / 8 + 1) as u8, rank: (k % 8 + 1) as u8 };
        proof {
            assert(from == nth_square(k as int));
            lemma_nth_square(k as int);
        }
        if board_piece_threatens_king(board, &from, color) {
            proof {
                let to = choose|to: Position|
                    #[trigger] pseudo_legal(board@, from, to) && at(board@, to) == Some(
                        Piece::King(color),
                    );
                assert(pseudo_legal(board@, from, to) && at(board@, to) == Some(
                    Piece::King(color),
                ));
            }
            return true;
        }
        k = k + 1;
    }
    proof {
        assert(!threatened(board@, color)) by {
            if threatened(board@, color) {
                let (p, q): (Position, Position) = choose|p: Position, q: Position|
                    #[trigger] pseudo_legal(board@, p, q) && at(board@, q) == Some(
                        Piece::King(color),
                    );
                assert(p.valid());
                lemma_square_index(p);
                assert(piece_threatens_king(board@, p, color));
            }
        }
    }
    false
}

} // verus!
