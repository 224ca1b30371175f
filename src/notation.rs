//! Reading a move typed by a player: castling as `O-O` / `O-O-O` (or with
//! zeros), a destination square alone for a pawn push, or source and
//! destination squares. Letter case and surrounding spaces do not matter.

use vstd::prelude::*;
use crate::board::Board;
use crate::engine::{is_space, is_space_char, skip_spaces};
use crate::error::ChessError;
use crate::moves::Move;
use crate::pieces::Player;
use crate::position::{file_index, file_of_char, rank_index, rank_of_char, Position};
use crate::rules::home_rank;

verus! {

/// Upper-case file letters and `O` read as their lower-case forms.
pub open spec fn fold_case(c: char) -> char {
    if c == 'A' { 'a' }
    else if c == 'B' { 'b' }
    else if c == 'C' { 'c' }
    else if c == 'D' { 'd' }
    else if c == 'E' { 'e' }
    else if c == 'F' { 'f' }
    else if c == 'G' { 'g' }
    else if c == 'H' { 'h' }
    else if c == 'O' { 'o' }
    else { c }
}

/// The end of `s` once trailing spaces down to index `lo` are dropped.
pub open spec fn trim_end(s: Seq<char>, lo: int, j: int) -> int
    decreases j - lo,
{
    if lo < j && j <= s.len() && is_space(s[j - 1]) { trim_end(s, lo, j - 1) } else { j }
}

/// The text without surrounding spaces, with letter case folded.
pub open spec fn normalized(s: Seq<char>) -> Seq<char> {
    let lo = skip_spaces(s, 0);
    let hi = trim_end(s, lo, s.len() as int);
    Seq::new((hi - lo) as nat, |i: int| fold_case(s[lo + i]))
}

/// The square that two characters name, if they do.
pub open spec fn square_of(t: Seq<char>) -> Option<Position> {
    if t.len() == 2 && file_of_char(t[0]) is Some && rank_of_char(t[1]) is Some {
        Some(Position { file: file_of_char(t[0])->Some_0, rank: rank_of_char(t[1])->Some_0 })
    } else {
        None
    }
}

/// The rank a pawn of `side` is taken to come from when only its destination
/// is given: two squares back onto its starting rank for a double step, else
/// one square back.
pub open spec fn pawn_source_rank(side: Player, to_rank: int) -> int {
    match side {
        Player::White => if to_rank == 3 { 1 } else { to_rank - 1 },
        Player::Black => if to_rank == 4 { 6 } else { to_rank + 1 },
    }
}

/// Source and destination squares that normalized move text `t` names for `side`.
pub open spec fn read_notation(t: Seq<char>, side: Player) -> Result<(Position, Position), ChessError> {
    let h = home_rank(side) as u8;
    if t == seq!['o', '-', 'o'] || t == seq!['0', '-', '0'] {
        Ok((Position { file: 4, rank: h }, Position { file: 6, rank: h }))
    } else if t == seq!['o', '-', 'o', '-', 'o'] || t == seq!['0', '-', '0', '-', '0'] {
        Ok((Position { file: 4, rank: h }, Position { file: 2, rank: h }))
    } else if t.len() == 2 {
        match square_of(t) {
            None => Err(ChessError::InvalidNotation),
            Some(to) => {
                let fr = pawn_source_rank(side, to.rank as int);
                if 0 <= fr <= 7 {
                    Ok((Position { file: to.file, rank: fr as u8 }, to))
                } else {
                    Err(ChessError::InvalidCoordinate)
                }
            },
        }
    } else if t.len() == 4 {
        match (square_of(t.subrange(0, 2)), square_of(t.subrange(2, 4))) {
            (Some(a), Some(b)) => Ok((a, b)),
            _ => Err(ChessError::InvalidNotation),
        }
    } else {
        Err(ChessError::InvalidNotation)
    }
}

fn fold_char(c: char) -> (r: char)
    ensures
        r == fold_case(c),
{
    if c == 'A' { 'a' }
    else if c == 'B' { 'b' }
    else if c == 'C' { 'c' }
    else if c == 'D' { 'd' }
    else if c == 'E' { 'e' }
    else if c == 'F' { 'f' }
    else if c == 'G' { 'g' }
    else if c == 'H' { 'h' }
    else if c == 'O' { 'o' }
    else { c }
}

/// The characters of the text without surrounding spaces, case folded.
fn normalize(s: &str) -> (t: Vec<char>)
    ensures
        t@ == normalized(s@),
{
    let n = s.unicode_len();
    let mut lo: usize = 0;
    while lo < n && is_space_char(s.get_char(lo))
        invariant
            n == s@.len(),
            lo <= n,
            skip_spaces(s@, lo as int) == skip_spaces(s@, 0),
        decreases n - lo,
    {
        lo += 1;
    }
    let mut hi: usize = n;
    while lo < hi && is_space_char(s.get_char(hi - 1))
        invariant
            n == s@.len(),
            lo <= hi <= n,
            trim_end(s@, lo as int, hi as int) == trim_end(s@, lo as int, n as int),
        decreases hi - lo,
    {
        hi -= 1;
    }
    let mut t: Vec<char> = Vec::new();
    let mut i = lo;
    while i < hi
        invariant
            n == s@.len(),
            lo <= i <= hi <= n,
            t@.len() == i - lo,
            forall|k: int| 0 <= k < i - lo ==> t@[k] == fold_case(s@[lo + k]),
        decreases hi - i,
    {
        t.push(fold_char(s.get_char(i)));
        i += 1;
    }
    assert(t@ =~= normalized(s@));
    t
}

fn chars_are(t: &Vec<char>, want: &[char]) -> (r: bool)
    ensures
        r == (t@ == want@),
{
    if t.len() != want.len() {
        return false;
    }
    let mut i: usize = 0;
    while i < t.len()
        invariant
            t@.len() == want@.len(),
            i <= t@.len(),
            forall|k: int| 0 <= k < i ==> t@[k] == want@[k],
        decreases t@.len() - i,
    {
        if t[i] != want[i] {
            return false;
        }
        i += 1;
    }
    assert(t@ =~= want@);
    true
}

fn square_at(t: &Vec<char>, i: usize) -> (r: Option<Position>)
    requires
        i <= 2,
        i + 2 <= t@.len(),
    ensures
        r == square_of(t@.subrange(i as int, i + 2)),
{
    let ghost u = t@.subrange(i as int, i + 2);
    assert(u[0] == t@[i as int] && u[1] == t@[i + 1]);
    match (file_index(t[i]), rank_index(t[i + 1])) {
        (Some(f), Some(r)) => Some(Position { file: f, rank: r }),
        _ => None,
    }
}

/// Reads a move typed by the player whose turn it is on `board`.
pub fn parse_algebraic_notation(notation: &str, board: &Board) -> (r: Result<Move, ChessError>)
    ensures
        match read_notation(normalized(notation@), board@.side) {
            Ok((from, to)) => r matches Ok(m) && m.source() == from && m.target() == to && m.promo() is None
                && !m.capture_flag() && !m.castling_flag() && !m.en_passant_flag(),
            Err(e) => r == Err::<Move, ChessError>(e),
        },
{
    let t = normalize(notation);
    let side = board.current_player();
    let h: u8 = match side {
        Player::White => 0,
        Player::Black => 7,
    };
    let ghost tv = t@;
    if chars_are(&t, &['o', '-', 'o']) || chars_are(&t, &['0', '-', '0']) {
        return Ok(Move::new(Position { file: 4, rank: h }, Position { file: 6, rank: h }, None));
    }
    if chars_are(&t, &['o', '-', 'o', '-', 'o']) || chars_are(&t, &['0', '-', '0', '-', '0']) {
        return Ok(Move::new(Position { file: 4, rank: h }, Position { file: 2, rank: h }, None));
    }
    if t.len() == 2 {
        assert(tv.subrange(0, 2) =~= tv);
        let to = match square_at(&t, 0) {
            Some(p) => p,
            None => {
                return Err(ChessError::InvalidNotation);
            },
        };
        let from_rank: u8 = match side {
            Player::White => {
                if to.rank == 3 {
                    1
                } else if to.rank == 0 {
                    return Err(ChessError::InvalidCoordinate);
                } else {
                    to.rank - 1
                }
            },
            Player::Black => {
                if to.rank == 4 {
                    6
                } else if to.rank == 7 {
                    return Err(ChessError::InvalidCoordinate);
                } else {
                    to.rank + 1
                }
            },
        };
        return Ok(Move::new(Position { file: to.file, rank: from_rank }, to, None));
    }
    if t.len() == 4 {
        let from = square_at(&t, 0);
        let to = square_at(&t, 2);
        return match (from, to) {
            (Some(a), Some(b)) => Ok(Move::new(a, b, None)),
            _ => Err(ChessError::InvalidNotation),
        };
    }
    Err(ChessError::InvalidNotation)
}

} // verus!
