//! Board coordinates: a square is a (file, rank) pair, each in 1..=8, and
//! its textual form is a file letter `a`-`h` followed by a rank digit.

use vstd::prelude::*;
use vstd::string::StrSliceExecFns;
use vstd::string::StringExecFns;

verus! {

/// Why a coordinate string failed to parse.
#[derive(Debug, Clone, Copy, PartialEq, Eq, Structural)]
pub enum ParseError {
    /// Fewer than two characters were given.
    InvalidFormat,
    /// The first character is not a file letter `a`-`h` (or `A`-`H`).
    InvalidFile,
    /// The rest is not a rank number between 1 and 8.
    InvalidRank,
}

/// A square on the board.
///
/// Any square actually referenced on the board has both components in
/// 1..=8; off-board results of offset arithmetic are `None`, never an
/// out-of-range `Position`.
#[derive(Debug, Clone, Copy, PartialEq, Eq, Structural)]
pub struct Position {
    /// The column: 1-8 for files a-h.
    pub file: u8,
    /// The row: 1-8, rank 1 on White's side.
    pub rank: u8,
}

/// Both coordinates lie on the 8x8 board.
pub open spec fn on_board(f: int, r: int) -> bool {
    1 <= f <= 8 && 1 <= r <= 8
}

/// The character is a decimal digit.
pub open spec fn is_digit(c: char) -> bool {
    48 <= c as int <= 57
}

/// Every character of the sequence is a decimal digit.
pub open spec fn all_digits(s: Seq<char>) -> bool {
    forall|i: int| 0 <= i < s.len() ==> is_digit(#[trigger] s[i])
}

/// The number a sequence of decimal digits denotes.
pub open spec fn digits_val(s: Seq<char>) -> int
    decreases s.len(),
{
    if s.len() == 0 {
        0
    } else {
        digits_val(s.drop_last()) * 10 + (s.last() as int - 48)
    }
}

/// The numeric part of a rank text: an optional leading `+`, then at
/// least one digit, denoting a value in 1..=8.
pub open spec fn rank_of_text(s: Seq<char>) -> Option<u8> {
    let body = if s.len() > 0 && s[0] == '+' {
        s.subrange(1, s.len() as int)
    } else {
        s
    };
    if body.len() > 0 && all_digits(body) && 1 <= digits_val(body) <= 8 {
        Some(digits_val(body) as u8)
    } else {
        None
    }
}

/// The character is a file letter, in either case.
pub open spec fn is_file_char(c: char) -> bool {
    (97 <= c as int <= 104) || (65 <= c as int <= 72)
}

/// The file a file letter denotes: 1 for `a`/`A` up to 8 for `h`/`H`.
pub open spec fn file_of_char(c: char) -> int {
    if 97 <= c as int {
        c as int - 96
    } else {
        c as int - 64
    }
}

/// The ASCII-lowercase form of a character.
pub open spec fn lower_char(c: char) -> char {
    if 65 <= c as int <= 90 {
        (c as int + 32) as char
    } else {
        c
    }
}

/// A text with every character ASCII-lowercased.
pub open spec fn lower_text(s: Seq<char>) -> Seq<char> {
    s.map_values(|c: char| lower_char(c))
}

/// The file letter of a file in 1..=8.
pub open spec fn file_letter(f: int) -> char {
    if f == 1 {
        'a'
    } else if f == 2 {
        'b'
    } else if f == 3 {
        'c'
    } else if f == 4 {
        'd'
    } else if f == 5 {
        'e'
    } else if f == 6 {
        'f'
    } else if f == 7 {
        'g'
    } else {
        'h'
    }
}

/// The digit character of a rank in 1..=8.
pub open spec fn rank_digit(r: int) -> char {
    if r == 1 {
        '1'
    } else if r == 2 {
        '2'
    } else if r == 3 {
        '3'
    } else if r == 4 {
        '4'
    } else if r == 5 {
        '5'
    } else if r == 6 {
        '6'
    } else if r == 7 {
        '7'
    } else {
        '8'
    }
}

/// The `k`-th square, for `k` in 0..64, in textual order: `a1`, `a2`,
/// ..., `a8`, `b1`, ... This is the order in which move lists are
/// reported, and it coincides with the lexicographic order of the
/// squares' textual forms.
pub open spec fn nth_square(k: int) -> Position {
    Position { file: (k / 8 + 1) as u8, rank: (k % 8 + 1) as u8 }
}

/// The index of a valid square in the textual enumeration.
pub open spec fn square_index(p: Position) -> int {
    (p.file - 1) * 8 + (p.rank - 1)
}

/// The squares among the first `k` of the textual enumeration that
/// satisfy `pred`, in enumeration order.
pub open spec fn squares_matching(pred: spec_fn(Position) -> bool, k: int) -> Seq<Position>
    decreases k,
{
    if k <= 0 {
        Seq::empty()
    } else {
        let rest = squares_matching(pred, k - 1);
        if pred(nth_square(k - 1)) {
            rest.push(nth_square(k - 1))
        } else {
            rest
        }
    }
}

/// The textual enumeration hits every valid square exactly once.
pub proof fn lemma_square_index(p: Position)
    requires
        p.valid(),
    ensures
        0 <= square_index(p) < 64,
        nth_square(square_index(p)) == p,
{
    let f = p.file as int;
    let r = p.rank as int;
    assert(((f - 1) * 8 + (r - 1)) / 8 == f - 1 && ((f - 1) * 8 + (r - 1)) % 8 == r - 1)
        by (nonlinear_arith)
        requires
            1 <= f <= 8,
            1 <= r <= 8,
    ;
}

/// Each of the first 64 enumerated squares is valid and sits at its own
/// index.
pub proof fn lemma_nth_square(k: int)
    requires
        0 <= k < 64,
    ensures
        nth_square(k).valid(),
        square_index(nth_square(k)) == k,
{
    assert(0 <= k / 8 < 8 && 0 <= k % 8 < 8 && (k / 8) * 8 + k % 8 == k) by (nonlinear_arith)
        requires
            0 <= k < 64,
    ;
}

/// The lexicographic order on two-character texts.
pub open spec fn text_lt(a: Seq<char>, b: Seq<char>) -> bool {
    (a[0] as int) < (b[0] as int) || (a[0] == b[0] && (a[1] as int) < (b[1] as int))
}

/// The listed squares appear in enumeration order: indices grow
/// strictly along the list, and stay below `k`.
pub proof fn lemma_squares_matching_sorted(pred: spec_fn(Position) -> bool, k: int)
    requires
        0 <= k <= 64,
    ensures
        forall|i: int|
            0 <= i < squares_matching(pred, k).len() ==> (#[trigger] squares_matching(pred, k)[i]).valid()
                && square_index(squares_matching(pred, k)[i]) < k,
        forall|i: int, j: int|
            0 <= i < j < squares_matching(pred, k).len() ==> square_index(
                #[trigger] squares_matching(pred, k)[i],
            ) < square_index(#[trigger] squares_matching(pred, k)[j]),
    decreases k,
{
    if k > 0 {
        lemma_squares_matching_sorted(pred, k - 1);
        lemma_nth_square(k - 1);
        let rest = squares_matching(pred, k - 1);
        let s = squares_matching(pred, k);
        if pred(nth_square(k - 1)) {
            assert(s == rest.push(nth_square(k - 1)));
            assert forall|i: int| 0 <= i < s.len() implies (#[trigger] s[i]).valid()
                && square_index(s[i]) < k by {
                if i < rest.len() {
                    assert(s[i] == rest[i]);
                } else {
                    assert(s[i] == nth_square(k - 1));
                }
            }
            assert forall|i: int, j: int| 0 <= i < j < s.len() implies square_index(
                #[trigger] s[i],
            ) < square_index(#[trigger] s[j]) by {
                if j < rest.len() {
                    assert(s[i] == rest[i] && s[j] == rest[j]);
                } else {
                    assert(s[j] == nth_square(k - 1));
                    assert(s[i] == rest[i]);
                    assert(square_index(rest[i]) < k - 1);
                }
            }
        } else {
            assert(s == rest);
        }
    }
}

/// A square is listed among the first `k` iff it is a valid square,
/// its index is below `k`, and it satisfies the predicate.
pub proof fn lemma_squares_matching_contains(pred: spec_fn(Position) -> bool, k: int, q: Position)
    requires
        0 <= k <= 64,
    ensures
        squares_matching(pred, k).contains(q) <==> (q.valid() && square_index(q) < k && pred(q)),
    decreases k,
{
    if k > 0 {
        vstd::seq_lib::lemma_seq_contains_after_push(
            squares_matching(pred, k - 1),
            nth_square(k - 1),
            q,
        );
        lemma_squares_matching_contains(pred, k - 1, q);
        lemma_nth_square(k - 1);
        if q.valid() {
            lemma_square_index(q);
        }
    }
}

/// What parsing a coordinate text yields: the square, or the first
/// failure in the order format, file, rank.
pub open spec fn parse_spec(s: Seq<char>) -> Result<Position, ParseError> {
    if s.len() < 2 {
        Err(ParseError::InvalidFormat)
    } else if !is_file_char(s[0]) {
        Err(ParseError::InvalidFile)
    } else {
        match rank_of_text(s.subrange(1, s.len() as int)) {
            Some(r) => Ok(Position { file: file_of_char(s[0]) as u8, rank: r }),
            None => Err(ParseError::InvalidRank),
        }
    }
}

impl Position {
    /// The square lies on the board.
    pub open spec fn valid(self) -> bool {
        on_board(self.file as int, self.rank as int)
    }

    /// If the position is located on the chess board.
    pub fn is_valid(&self) -> (r: bool)
        ensures
            r == self.valid(),
    {
        1 <= self.file && self.file <= 8 && 1 <= self.rank && self.rank <= 8
    }

    /// The position offset by the given deltas, or `None` if the result
    /// would leave the board.
    pub fn relative_pos(&self, file_offset: i32, rank_offset: i32) -> (r: Option<Position>)
        ensures
            r matches Some(p) ==> p.file as int == self.file as int + file_offset
                && p.rank as int == self.rank as int + rank_offset
                && p.valid(),
            r is None ==> !on_board(
                self.file as int + file_offset,
                self.rank as int + rank_offset,
            ),
    {
        let file: i64 = self.file as i64 + file_offset as i64;
        let rank: i64 = self.rank as i64 + rank_offset as i64;
        if 1 <= file && file <= 8 && 1 <= rank && rank <= 8 {
            Some(Position { file: file as u8, rank: rank as u8 })
        } else {
            None
        }
    }

    /// The two-character textual form of the square.
    pub open spec fn text(self) -> Seq<char> {
        seq![file_letter(self.file as int), rank_digit(self.rank as int)]
    }

    /// Parse a coordinate text: a file letter `a`-`h` (either case),
    /// then a rank number 1-8.
    #[verifier::loop_isolation(false)]
    pub fn from_string(text: String) -> (r: Result<Position, ParseError>)
        ensures
            r == parse_spec(text@),
    {
        let st: &str = text.as_str();
        let n: usize = st.unicode_len();
        if n < 2 {
            return Err(ParseError::InvalidFormat);
        }
        let c0: char = st.get_char(0);
        let v0: u32 = c0 as u32;
        let file: u8 = if 97 <= v0 && v0 <= 104 {
            (v0 - 96) as u8
        } else if 65 <= v0 && v0 <= 72 {
            (v0 - 64) as u8
        } else {
            return Err(ParseError::InvalidFile);
        };
        let c1: char = st.get_char(1);
        let mut i: usize = 1;
        if c1 as u32 == 43 {
            proof {
                assert(c1 == '+');
            }
            i = 2;
        }
        let ghost start: int = i as int;
        let ghost body: Seq<char> = text@.subrange(start, n as int);
        proof {
            assert(text@.subrange(1, n as int).subrange(1, n as int - 1) =~= text@.subrange(
                2,
                n as int,
            ));
            assert(rank_of_text(text@.subrange(1, n as int)) == (if body.len() > 0 && all_digits(
                body,
            ) && 1 <= digits_val(body) <= 8 {
                Some(digits_val(body) as u8)
            } else {
                None
            }));
        }
        if i >= n {
            return Err(ParseError::InvalidRank);
        }
        let mut val: u32 = 0;
        while i < n
            invariant
                start <= i <= n,
                all_digits(text@.subrange(start, i as int)),
                digits_val(text@.subrange(start, i as int)) <= 8 ==> val == digits_val(
                    text@.subrange(start, i as int),
                ),
                digits_val(text@.subrange(start, i as int)) > 8 ==> val == 9,
                val <= 9,
            decreases n - i,
        {
            let c: char = st.get_char(i);
            let d: u32 = c as u32;
            if d < 48 || d > 57 {
                proof {
                    assert(body[i - start] == text@[i as int]);
                    assert(!is_digit(body[i - start]));
                }
                return Err(ParseError::InvalidRank);
            }
            proof {
                let pre = text@.subrange(start, i as int);
                let post = text@.subrange(start, i + 1 as int);
                assert(post.drop_last() =~= pre);
                assert(post.last() == text@[i as int]);
                assert(digits_val(post) == digits_val(pre) * 10 + (c as int - 48));
            }
            val = val * 10 + (d - 48);
            if val > 8 {
                val = 9;
            }
            i += 1;
        }
        proof {
            assert(text@.subrange(start, n as int) =~= body);
        }
        if val < 1 || val > 8 {
            return Err(ParseError::InvalidRank);
        }
        Ok(Position { file, rank: val as u8 })
    }

    /// The textual form: file letter, then rank digit. Always two
    /// characters.
    pub fn to_string(&self) -> (r: String)
        requires
            self.valid(),
        ensures
            r@ == self.text(),
    {
        let f: &str = match self.file {
            1 => "a",
            2 => "b",
            3 => "c",
            4 => "d",
            5 => "e",
            6 => "f",
            7 => "g",
            _ => "h",
        };
        let d: &str = match self.rank {
            1 => "1",
            2 => "2",
            3 => "3",
            4 => "4",
            5 => "5",
            6 => "6",
            7 => "7",
            _ => "8",
        };
        proof {
            reveal_strlit("a");
            reveal_strlit("b");
            reveal_strlit("c");
            reveal_strlit("d");
            reveal_strlit("e");
            reveal_strlit("f");
            reveal_strlit("g");
            reveal_strlit("h");
            reveal_strlit("1");
            reveal_strlit("2");
            reveal_strlit("3");
            reveal_strlit("4");
            reveal_strlit("5");
            reveal_strlit("6");
            reveal_strlit("7");
            reveal_strlit("8");
        }
        let mut out: String = f.to_owned();
        out.append(d);
        proof {
            assert(out@ =~= self.text());
        }
        out
    }
}

} // verus!
