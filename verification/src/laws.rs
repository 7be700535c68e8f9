//! Laws that relate the engine's operations to one another, stated and
//! proved over the same specifications the operations' own contracts
//! use.

use vstd::prelude::*;

use crate::game::Game;
use crate::pieces::Piece;
use crate::rules::at;
use crate::rules::blocked;
use crate::rules::occupied;
use crate::rules::pseudo_legal;
use crate::rules::sign;
use crate::rules::steps_between;
use crate::rules::straight_blocked;
use crate::rules::strictly_between;
use crate::rules::walk_blocked;
use crate::rules::walk_file;
use crate::rules::walk_rank;
use crate::rules::Board;
use crate::square::all_digits;
use crate::square::digits_val;
use crate::square::file_letter;
use crate::square::is_digit;
use crate::square::is_file_char;
use crate::square::lemma_square_index;
use crate::square::lemma_squares_matching_contains;
use crate::square::lemma_squares_matching_sorted;
use crate::square::lower_char;
use crate::square::parse_spec;
use crate::square::rank_digit;
use crate::square::rank_of_text;
use crate::square::text_lt;
use crate::square::ParseError;
use crate::square::Position;

verus! {

/// Round trip: the textual form of any valid square parses back to
/// exactly that square.
pub proof fn lemma_text_parses_back(p: Position)
    requires
        p.valid(),
    ensures
        parse_spec(p.text()) == Ok::<Position, ParseError>(p),
{
    let s = p.text();
    let c = file_letter(p.file as int);
    let d = rank_digit(p.rank as int);
    assert(is_file_char(c));
    let body = s.subrange(1, 2);
    assert(body =~= seq![d]);
    assert(body[0] != '+');
    assert(is_digit(d));
    assert(all_digits(body));
    assert(body.len() == 1 && body.last() == d);
    assert(body.drop_last() =~= Seq::<char>::empty());
    assert(digits_val(body.drop_last()) == 0);
    assert(digits_val(body) == digits_val(body.drop_last()) * 10 + (d as int - 48));
    assert(rank_of_text(body) == Some(p.rank));
}

/// Normalization: whatever text a square was parsed from, the square's
/// own textual form is that text's canonical shape — the file letter
/// lowercased and the rank written as its single canonical digit.
pub proof fn lemma_parse_normalizes(s: Seq<char>, p: Position)
    requires
        parse_spec(s) == Ok::<Position, ParseError>(p),
    ensures
        p.valid(),
        p.text() == seq![lower_char(s[0]), rank_digit(p.rank as int)],
{
    assert(is_file_char(s[0]));
    assert(p.text() =~= seq![lower_char(s[0]), rank_digit(p.rank as int)]);
}

/// A move request is accepted exactly when its destination is among the
/// legal moves of its source square, as computed immediately
/// beforehand. (That a rejected request leaves the game unchanged is
/// part of `make_move`'s own contract.)
pub proof fn lemma_move_accepted_iff_legal(g: Game, from: Position, to: Position)
    requires
        g.wf(),
        to.valid(),
        g.has_piece_of(from, g.active_color),
    ensures
        g.move_error_spec(from.text(), to.text()) is None <==> g.legal_seq(from).contains(to),
{
    assert(from.valid());
    lemma_text_parses_back(from);
    lemma_text_parses_back(to);
    lemma_square_index(to);
    lemma_squares_matching_contains(|x: Position| g.legal_spec(from, x), 64, to);
}

/// Move lists are sorted: any two entries of a square's legal-move
/// list stand in strictly increasing lexicographic order of their
/// textual forms (so the list also never repeats a destination).
pub proof fn lemma_move_list_sorted(g: Game, from: Position, i: int, j: int)
    requires
        0 <= i < j < g.legal_seq(from).len(),
    ensures
        text_lt(g.legal_seq(from)[i].text(), g.legal_seq(from)[j].text()),
{
    lemma_squares_matching_sorted(|x: Position| g.legal_spec(from, x), 64);
    let p = g.legal_seq(from)[i];
    let q = g.legal_seq(from)[j];
    assert(forall|f: int| 1 <= f <= 8 ==> #[trigger] file_letter(f) as int == 96 + f);
    assert(forall|r: int| 1 <= r <= 8 ==> #[trigger] rank_digit(r) as int == 48 + r);
    assert(p.file < q.file || (p.file == q.file && p.rank < q.rank));
}

/// Kings and knights are never rejected for obstruction: the
/// obstruction test holds for no board and no pair of squares.
pub proof fn lemma_jump_pieces_never_blocked(b: Board, piece: Piece, from: Position, to: Position)
    requires
        piece matches Piece::King(_) || piece matches Piece::Knight(_),
    ensures
        !blocked(b, piece, from, to),
{
}

/// A bishop, rook or queen move across an occupied intermediate square
/// is rejected: if any square strictly between source and destination
/// on the move's own line is occupied, the move is not pseudo-legal.
/// The intermediate square is named by its step index `i` on the walk
/// from `from` towards `to`.
pub proof fn lemma_occupied_path_rejected(b: Board, from: Position, to: Position, i: int)
    requires
        from.valid(),
        to.valid(),
        at(b, from) matches Some(p) && (p matches Piece::Queen(_) || p matches Piece::Rook(_)
            || p matches Piece::Bishop(_)) && p.reaches(from, to),
        1 <= i < steps_between(from, to),
        occupied(b, walk_file(from, to, i), walk_rank(from, to, i)),
    ensures
        !pseudo_legal(b, from, to),
{
    let p = at(b, from)->Some_0;
    let df = to.file as int - from.file as int;
    let dr = to.rank as int - from.rank as int;
    let wf = walk_file(from, to, i);
    let wr = walk_rank(from, to, i);
    if df == 0 && dr != 0 {
        assert(sign(df) == 0 && wf == from.file as int);
        if dr > 0 {
            assert(sign(dr) == 1 && wr == from.rank as int + i);
        } else {
            assert(sign(dr) == -1);
            assert(i * sign(to.rank as int - from.rank as int) == -i) by (nonlinear_arith)
                requires
                    sign(to.rank as int - from.rank as int) == -1,
            ;
            assert(wr == from.rank as int - i);
        }
        assert(strictly_between(from.rank as int, wr, to.rank as int));
        assert(straight_blocked(b, from, to)) by {
            assert(occupied(b, from.file as int, wr));
        }
    } else if dr == 0 && df != 0 {
        assert(sign(dr) == 0 && wr == from.rank as int);
        if df > 0 {
            assert(sign(df) == 1 && wf == from.file as int + i);
        } else {
            assert(sign(df) == -1);
            assert(i * sign(to.file as int - from.file as int) == -i) by (nonlinear_arith)
                requires
                    sign(to.file as int - from.file as int) == -1,
            ;
            assert(wf == from.file as int - i);
        }
        assert(strictly_between(from.file as int, wf, to.file as int));
        assert(straight_blocked(b, from, to)) by {
            assert(occupied(b, wf, from.rank as int));
        }
    } else {
        assert(walk_blocked(b, from, to));
    }
    assert(blocked(b, p, from, to));
}

} // verus!

