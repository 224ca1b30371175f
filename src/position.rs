use vstd::prelude::*;
use crate::error::ChessError;
use crate::text::push_char;

verus! {

/// A square of the board: `file` 0..=7 is `a`..`h`, `rank` 0..=7 is `1`..`8`.
#[derive(Debug, Clone, Copy, PartialEq, Eq, Structural, Hash)]
pub struct Position {
    pub file: u8,
    pub rank: u8,
}

/// The letter of file `f` (0 is `a`).
pub open spec fn file_char(f: int) -> char {
    if f == 0 { 'a' }
    else if f == 1 { 'b' }
    else if f == 2 { 'c' }
    else if f == 3 { 'd' }
    else if f == 4 { 'e' }
    else if f == 5 { 'f' }
    else if f == 6 { 'g' }
    else { 'h' }
}

/// The digit of rank `r` (0 is `1`).
pub open spec fn rank_char(r: int) -> char {
    if r == 0 { '1' }
    else if r == 1 { '2' }
    else if r == 2 { '3' }
    else if r == 3 { '4' }
    else if r == 4 { '5' }
    else if r == 5 { '6' }
    else if r == 6 { '7' }
    else { '8' }
}

/// The file index of a file letter, if it is one.
pub open spec fn file_of_char(c: char) -> Option<u8> {
    if c == 'a' { Some(0u8) }
    else if c == 'b' { Some(1u8) }
    else if c == 'c' { Some(2u8) }
    else if c == 'd' { Some(3u8) }
    else if c == 'e' { Some(4u8) }
    else if c == 'f' { Some(5u8) }
    else if c == 'g' { Some(6u8) }
    else if c == 'h' { Some(7u8) }
    else { None }
}

/// The rank index of a rank digit, if it is one.
pub open spec fn rank_of_char(c: char) -> Option<u8> {
    if c == '1' { Some(0u8) }
    else if c == '2' { Some(1u8) }
    else if c == '3' { Some(2u8) }
    else if c == '4' { Some(3u8) }
    else if c == '5' { Some(4u8) }
    else if c == '6' { Some(5u8) }
    else if c == '7' { Some(6u8) }
    else if c == '8' { Some(7u8) }
    else { None }
}

impl Position {
    pub open spec fn valid(self) -> bool {
        self.file <= 7 && self.rank <= 7
    }

    /// Index of the square in rank-major order: `a1` is 0, `h8` is 63.
    pub open spec fn index(self) -> int {
        self.rank as int * 8 + self.file as int
    }

    /// Algebraic text of the square, such as `e4`.
    pub open spec fn text(self) -> Seq<char> {
        seq![file_char(self.file as int), rank_char(self.rank as int)]
    }

    pub fn new(file: u8, rank: u8) -> (r: Result<Position, ChessError>)
        ensures
            file <= 7 && rank <= 7 ==> r == Ok::<Position, ChessError>(Position { file, rank }),
            !(file <= 7 && rank <= 7) ==> r == Err::<Position, ChessError>(ChessError::InvalidCoordinate),
    {
        if file > 7 || rank > 7 {
            return Err(ChessError::InvalidCoordinate);
        }
        Ok(Position { file, rank })
    }

    /// Parses two characters: a file letter `a`-`h` then a rank digit `1`-`8`.
    pub fn from_algebraic(notation: &str) -> (r: Result<Position, ChessError>)
        ensures
            r.is_ok() <==> (exists|p: Position| p.valid() && p.text() == notation@),
            r matches Ok(p) ==> p.valid() && p.text() == notation@,
            r matches Err(e) ==> e == ChessError::InvalidNotation,
    {
        if notation.unicode_len() != 2 {
            proof {
                assert forall|p: Position| !(p.valid() && p.text() == notation@) by {
                    assert(p.text().len() == 2);
                }
            }
            return Err(ChessError::InvalidNotation);
        }
        let fc = notation.get_char(0);
        let rc = notation.get_char(1);
        let file = match file_index(fc) {
            Some(f) => f,
            None => {
                proof {
                    assert forall|p: Position| !(p.valid() && p.text() == notation@) by {
                        if p.valid() && p.text() == notation@ {
                            assert(p.text()[0] == fc);
                        }
                    }
                }
                return Err(ChessError::InvalidNotation);
            }
        };
        let rank = match rank_index(rc) {
            Some(r) => r,
            None => {
                proof {
                    assert forall|p: Position| !(p.valid() && p.text() == notation@) by {
                        if p.valid() && p.text() == notation@ {
                            assert(p.text()[1] == rc);
                        }
                    }
                }
                return Err(ChessError::InvalidNotation);
            }
        };
        let p = Position { file, rank };
        assert(p.text() =~= notation@);
        Ok(p)
    }

    pub fn to_algebraic(&self) -> (r: String)
        requires
            self.valid(),
        ensures
            r@ == self.text(),
    {
        let mut s = String::new();
        push_char(&mut s, file_letter(self.file));
        push_char(&mut s, rank_digit(self.rank));
        assert(s@ =~= self.text());
        s
    }

    pub fn is_valid(&self) -> (r: bool)
        ensures
            r == self.valid(),
    {
        self.file <= 7 && self.rank <= 7
    }
}

/// A square is recovered from its text: two valid squares with the same
/// algebraic text are the same square, so parsing the text of a square gives
/// back that square.
pub proof fn lemma_square_text_round_trip(p: Position, q: Position)
    requires
        p.valid(),
        q.valid(),
        q.text() == p.text(),
    ensures
        q == p,
{
    assert(q.text()[0] == p.text()[0]);
    assert(q.text()[1] == p.text()[1]);
}

pub fn file_letter(f: u8) -> (c: char)
    requires
        f <= 7,
    ensures
        c == file_char(f as int),
{
    if f == 0 { 'a' }
    else if f == 1 { 'b' }
    else if f == 2 { 'c' }
    else if f == 3 { 'd' }
    else if f == 4 { 'e' }
    else if f == 5 { 'f' }
    else if f == 6 { 'g' }
    else { 'h' }
}

pub fn rank_digit(r: u8) -> (c: char)
    requires
        r <= 7,
    ensures
        c == rank_char(r as int),
{
    if r == 0 { '1' }
    else if r == 1 { '2' }
    else if r == 2 { '3' }
    else if r == 3 { '4' }
    else if r == 4 { '5' }
    else if r == 5 { '6' }
    else if r == 6 { '7' }
    else { '8' }
}

pub fn file_index(c: char) -> (r: Option<u8>)
    ensures
        r == file_of_char(c),
        r matches Some(f) ==> f <= 7 && file_char(f as int) == c,
        r is None ==> forall|f: int| 0 <= f <= 7 ==> file_char(f) != c,
{
    if c == 'a' { Some(0) }
    else if c == 'b' { Some(1) }
    else if c == 'c' { Some(2) }
    else if c == 'd' { Some(3) }
    else if c == 'e' { Some(4) }
    else if c == 'f' { Some(5) }
    else if c == 'g' { Some(6) }
    else if c == 'h' { Some(7) }
    else { None }
}

pub fn rank_index(c: char) -> (r: Option<u8>)
    ensures
        r == rank_of_char(c),
        r matches Some(k) ==> k <= 7 && rank_char(k as int) == c,
        r is None ==> forall|k: int| 0 <= k <= 7 ==> rank_char(k) != c,
{
    if c == '1' { Some(0) }
    else if c == '2' { Some(1) }
    else if c == '3' { Some(2) }
    else if c == '4' { Some(3) }
    else if c == '5' { Some(4) }
    else if c == '6' { Some(5) }
    else if c == '7' { Some(6) }
    else if c == '8' { Some(7) }
    else { None }
}

} // verus!
