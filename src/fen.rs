//! The single-line position text that the engine protocol consumes: piece
//! placement, side to move, castling rights, en-passant target, halfmove clock
//! and fullmove number.

use vstd::prelude::*;
use crate::board::Board;
use crate::error::ChessError;
use crate::pieces::{piece_letter, Piece, PieceType, Player};
use crate::position::{file_char, file_index, file_of_char, rank_char, rank_index, rank_of_char, Position};
use crate::rules::{consistent, BoardView, CastlingRights};
use crate::text::{decimal, digit_char, digit_to_char, digit_value, push_char, push_decimal};

verus! {

/// The text of rank `r` from file `f` on, after `empty` empty squares not yet
/// written: runs of empty squares as a digit, pieces as their letters.
pub open spec fn rank_text(v: BoardView, r: int, f: int, empty: nat) -> Seq<char>
    decreases 8 - f,
{
    let run = if empty > 0 { seq![digit_char(empty as int)] } else { Seq::<char>::empty() };
    if f >= 8 {
        run
    } else {
        match v.at(f, r) {
            Some(p) => run + seq![piece_letter(p)] + rank_text(v, r, f + 1, 0),
            None => rank_text(v, r, f + 1, empty + 1),
        }
    }
}

/// The placement of ranks `r` down to the first, separated by `/`.
pub open spec fn placement_text(v: BoardView, r: int) -> Seq<char>
    decreases r,
{
    if r <= 0 {
        rank_text(v, 0, 0, 0)
    } else {
        rank_text(v, r, 0, 0) + seq!['/'] + placement_text(v, r - 1)
    }
}

pub open spec fn side_letter(s: Player) -> char {
    match s {
        Player::White => 'w',
        Player::Black => 'b',
    }
}

/// The castling rights as letters in the order `KQkq`, or `-` when none is left.
#[verifier::opaque]
pub open spec fn castling_text(c: CastlingRights) -> Seq<char> {
    let t = (if c.white_kingside { seq!['K'] } else { Seq::<char>::empty() })
        + (if c.white_queenside { seq!['Q'] } else { Seq::<char>::empty() })
        + (if c.black_kingside { seq!['k'] } else { Seq::<char>::empty() })
        + (if c.black_queenside { seq!['q'] } else { Seq::<char>::empty() });
    if t.len() == 0 { seq!['-'] } else { t }
}

pub open spec fn en_passant_text(e: Option<Position>) -> Seq<char> {
    match e {
        Some(p) => p.text(),
        None => seq!['-'],
    }
}

/// The full position text of a board state.
pub open spec fn position_text(v: BoardView) -> Seq<char> {
    placement_text(v, 7) + seq![' ', side_letter(v.side), ' '] + castling_text(v.castling) + seq![' ']
        + en_passant_text(v.en_passant) + seq![' '] + decimal(v.halfmove as nat) + seq![' ']
        + decimal(v.fullmove as nat)
}

impl Board {
    fn push_rank(&self, out: &mut String, r: u8)
        requires
            r <= 7,
        ensures
            final(out)@ == old(out)@ + rank_text(self@, r as int, 0, 0),
    {
        let ghost start = out@;
        let mut empty: u8 = 0;
        let mut f: u8 = 0;
        while f < 8
            invariant
                r <= 7,
                f <= 8,
                empty <= f,
                out@ + rank_text(self@, r as int, f as int, empty as nat) == start + rank_text(self@, r as int, 0, 0),
            decreases 8 - f,
        {
            let ghost before = out@;
            match self.piece_at(Position { file: f, rank: r }) {
                Some(p) => {
                    if empty > 0 {
                        push_char(out, digit_to_char(empty as u64));
                    }
                    push_char(out, p.letter());
                    assert(out@ + rank_text(self@, r as int, f + 1, 0) =~= before + rank_text(self@, r as int, f as int, empty as nat));
                    empty = 0;
                },
                None => {
                    empty += 1;
                },
            }
            f += 1;
        }
        if empty > 0 {
            push_char(out, digit_to_char(empty as u64));
        }
        assert(out@ =~= start + rank_text(self@, r as int, 0, 0));
    }

    fn push_placement(&self, out: &mut String)
        ensures
            final(out)@ == old(out)@ + placement_text(self@, 7),
    {
        let ghost start = out@;
        let mut k: u8 = 8;
        while k > 0
            invariant
                k <= 8,
                k == 8 ==> out@ == start,
                0 < k < 8 ==> out@ + placement_text(self@, k as int - 1) == start + placement_text(self@, 7),
                k == 0 ==> out@ == start + placement_text(self@, 7),
            decreases k,
        {
            let ghost before = out@;
            let r = k - 1;
            self.push_rank(out, r);
            if r > 0 {
                push_char(out, '/');
                assert(out@ + placement_text(self@, r as int - 1) =~= before + placement_text(self@, r as int));
            } else {
                assert(out@ =~= before + placement_text(self@, 0));
            }
            k = r;
        }
    }

    /// The position text of the board, as the engine protocol consumes it.
    pub fn to_fen(&self) -> (s: String)
        ensures
            s@ == position_text(self@),
            text_of(s@, self@),
    {
        proof {
            use_type_invariant(self);
        }
        let mut out = String::new();
        self.push_placement(&mut out);
        push_char(&mut out, ' ');
        push_char(&mut out, if self.current_player() == Player::White { 'w' } else { 'b' });
        push_char(&mut out, ' ');
        push_castling(&mut out, self.castling_rights());
        push_char(&mut out, ' ');
        push_en_passant(&mut out, self.en_passant_target());
        push_char(&mut out, ' ');
        push_decimal(&mut out, self.halfmove_clock() as u64);
        push_char(&mut out, ' ');
        push_decimal(&mut out, self.move_count() as u64);
        assert(out@ =~= position_text(self@));
        out
    }
}

fn push_castling(out: &mut String, c: CastlingRights)
    ensures
        final(out)@ == old(out)@ + castling_text(c),
{
    reveal(castling_text);
    let ghost before_rights = out@;
    if c.white_kingside {
        push_char(out, 'K');
    }
    if c.white_queenside {
        push_char(out, 'Q');
    }
    if c.black_kingside {
        push_char(out, 'k');
    }
    if c.black_queenside {
        push_char(out, 'q');
    }
    if !(c.white_kingside || c.white_queenside || c.black_kingside || c.black_queenside) {
        push_char(out, '-');
    }
    assert(out@ =~= before_rights + castling_text(c));
}

fn push_en_passant(out: &mut String, e: Option<Position>)
    requires
        e matches Some(p) ==> p.valid(),
    ensures
        final(out)@ == old(out)@ + en_passant_text(e),
{
    match e {
        Some(p) => {
            push_char(out, crate::position::file_letter(p.file));
            push_char(out, crate::position::rank_digit(p.rank));
            assert(out@ =~= old(out)@ + en_passant_text(e));
        },
        None => {
            push_char(out, '-');
            assert(out@ =~= old(out)@ + en_passant_text(e));
        },
    }
}

/// The piece that a letter of position text stands for.
fn piece_of_letter(c: char) -> (r: Option<Piece>)
    ensures
        r matches Some(p) ==> piece_letter(p) == c,
        forall|p: Piece| piece_letter(p) == c ==> r == Some(p),
{
    let (kind, player) = if c == 'P' {
        (PieceType::Pawn, Player::White)
    } else if c == 'N' {
        (PieceType::Knight, Player::White)
    } else if c == 'B' {
        (PieceType::Bishop, Player::White)
    } else if c == 'R' {
        (PieceType::Rook, Player::White)
    } else if c == 'Q' {
        (PieceType::Queen, Player::White)
    } else if c == 'K' {
        (PieceType::King, Player::White)
    } else if c == 'p' {
        (PieceType::Pawn, Player::Black)
    } else if c == 'n' {
        (PieceType::Knight, Player::Black)
    } else if c == 'b' {
        (PieceType::Bishop, Player::Black)
    } else if c == 'r' {
        (PieceType::Rook, Player::Black)
    } else if c == 'q' {
        (PieceType::Queen, Player::Black)
    } else if c == 'k' {
        (PieceType::King, Player::Black)
    } else {
        return None;
    };
    Some(Piece { piece_type: kind, player })
}

/// The value of a decimal digit character.
fn digit_of(c: char) -> (r: Option<u32>)
    ensures
        r matches Some(d) ==> d <= 9 && digit_value(c) == Some(d as int),
        r is None ==> digit_value(c) is None,
{
    if c == '0' { Some(0) }
    else if c == '1' { Some(1) }
    else if c == '2' { Some(2) }
    else if c == '3' { Some(3) }
    else if c == '4' { Some(4) }
    else if c == '5' { Some(5) }
    else if c == '6' { Some(6) }
    else if c == '7' { Some(7) }
    else if c == '8' { Some(8) }
    else if c == '9' { Some(9) }
    else { None }
}

pub open spec fn processed(k: int, rank: int, file: int) -> bool {
    k / 8 > rank || (k / 8 == rank && k % 8 < file)
}

/// Reading the placement of `v` has come to `(rank, file)` at index `i`: the
/// rest of the text is what remains of the placement, then the fields, and the
/// squares read so far agree with `v`.
pub open spec fn placement_state(t: Seq<char>, v: BoardView, i: int, rank: int, file: int, sq: Seq<Option<Piece>>) -> bool {
    &&& 0 <= i <= t.len()
    &&& t.subrange(i, t.len() as int) == rank_text(v, rank, file, 0) + below_rank(v, rank) + fields_text(v)
    &&& sq.len() == 64
    &&& forall|k: int| 0 <= k < 64 ==> #[trigger] sq[k] == if processed(k, rank, file) { v.squares[k] } else { None }
}

pub proof fn lemma_letter_not_separator(p: Piece)
    ensures
        piece_letter(p) != ' ',
        piece_letter(p) != '/',
        digit_value(piece_letter(p)) is None,
{
}

pub proof fn lemma_step_end_of_rank(t: Seq<char>, v: BoardView, i: int, rank: int, sq: Seq<Option<Piece>>)
    requires
        text_of(t, v),
        placement_state(t, v, i, rank, 8, sq),
        0 <= rank <= 7,
    ensures
        i < t.len(),
        rank == 0 ==> t[i] == ' ' && t.subrange(i, t.len() as int) == fields_text(v),
        rank > 0 ==> t[i] == '/' && placement_state(t, v, i + 1, rank - 1, 0, sq),
{
    let n = t.len() as int;
    let rest = t.subrange(i, n);
    reveal(fields_text);
    assert(fields_text(v)[0] == ' ');
    assert(rank_text(v, rank, 8, 0) =~= Seq::<char>::empty());
    assert(rest =~= below_rank(v, rank) + fields_text(v));
    assert(fields_text(v).len() >= 3);
    assert(rest.len() == n - i);
    assert(rest[0] == t[i]);
    if rank > 0 {
        lemma_placement_split(v, rank - 1);
        assert(t.subrange(i + 1, n) =~= rest.subrange(1, rest.len() as int));
        assert(rest.subrange(1, rest.len() as int) =~= rank_text(v, rank - 1, 0, 0) + below_rank(v, rank - 1) + fields_text(v));
        assert forall|k: int| 0 <= k < 64 implies #[trigger] sq[k] == if processed(k, rank - 1, 0) { v.squares[k] } else { None } by {
            assert(processed(k, rank - 1, 0) == processed(k, rank, 8));
        }
    } else {
        assert(rest =~= fields_text(v));
    }
}

pub proof fn lemma_step_piece(t: Seq<char>, v: BoardView, i: int, rank: int, file: int, sq: Seq<Option<Piece>>)
    requires
        text_of(t, v),
        placement_state(t, v, i, rank, file, sq),
        0 <= rank <= 7,
        0 <= file < 8,
        v.at(file, rank) is Some,
    ensures
        i < t.len(),
        t[i] == piece_letter(v.at(file, rank)->Some_0),
        placement_state(t, v, i + 1, rank, file + 1, sq.update(rank * 8 + file, v.at(file, rank))),
{
    let n = t.len() as int;
    let rest = t.subrange(i, n);
    let tail = below_rank(v, rank) + fields_text(v);
    let p = v.at(file, rank)->Some_0;
    assert(rank_text(v, rank, file, 0) =~= seq![piece_letter(p)] + rank_text(v, rank, file + 1, 0));
    assert(rest =~= seq![piece_letter(p)] + (rank_text(v, rank, file + 1, 0) + tail));
    assert(rest[0] == t[i]);
    assert(t.subrange(i + 1, n) =~= rest.subrange(1, rest.len() as int));
    assert(rest.subrange(1, rest.len() as int) =~= rank_text(v, rank, file + 1, 0) + below_rank(v, rank) + fields_text(v));
    let sq2 = sq.update(rank * 8 + file, v.at(file, rank));
    assert forall|k: int| 0 <= k < 64 implies #[trigger] sq2[k] == if processed(k, rank, file + 1) { v.squares[k] } else { None } by {
        if k == rank * 8 + file {
            assert(k / 8 == rank && k % 8 == file);
        } else {
            assert(sq2[k] == sq[k]);
            assert(processed(k, rank, file + 1) == processed(k, rank, file));
        }
    }
}

pub proof fn lemma_step_run(t: Seq<char>, v: BoardView, i: int, rank: int, file: int, sq: Seq<Option<Piece>>)
    requires
        text_of(t, v),
        placement_state(t, v, i, rank, file, sq),
        0 <= rank <= 7,
        0 <= file < 8,
        v.at(file, rank) is None,
    ensures
        i < t.len(),
        file < next_piece(v, rank, file) <= 8,
        t[i] == digit_char(next_piece(v, rank, file) - file),
        placement_state(t, v, i + 1, rank, next_piece(v, rank, file), sq),
{
    let n = t.len() as int;
    let rest = t.subrange(i, n);
    let tail = below_rank(v, rank) + fields_text(v);
    lemma_rank_run(v, rank, file, 0);
    reveal(fields_text);
    let g = next_piece(v, rank, file);
    if g < 8 {
        lemma_rank_run(v, rank, g, 0);
        let p = v.at(g, rank)->Some_0;
        assert(rank_text(v, rank, g, 0) =~= seq![piece_letter(p)] + rank_text(v, rank, g + 1, 0));
    } else {
        assert(rank_text(v, rank, g, 0) =~= Seq::<char>::empty());
    }
    assert(rest =~= seq![digit_char(g - file)] + (rank_text(v, rank, g, 0) + tail));
    assert(rest[0] == t[i]);
    assert(t.subrange(i + 1, n) =~= rest.subrange(1, rest.len() as int));
    assert(rest.subrange(1, rest.len() as int) =~= rank_text(v, rank, g, 0) + below_rank(v, rank) + fields_text(v));
    assert forall|k: int| 0 <= k < 64 implies #[trigger] sq[k] == if processed(k, rank, g) { v.squares[k] } else { None } by {
        if k / 8 == rank && file <= k % 8 < g {
            assert(v.at(k % 8, rank) is None);
            assert(rank * 8 + k % 8 == k);
        }
    }
}

/// One character of the placement of `v`, seen from where the reading stands.
pub proof fn lemma_placement_step(t: Seq<char>, v: BoardView, i: int, rank: int, file: int, sq: Seq<Option<Piece>>)
    requires
        text_of(t, v),
        placement_state(t, v, i, rank, file, sq),
        0 <= rank <= 7,
        0 <= file <= 8,
    ensures
        i < t.len(),
        rank == 0 && file == 8 ==> t[i] == ' ' && t.subrange(i, t.len() as int) == fields_text(v),
        file == 8 && rank > 0 ==> t[i] == '/' && placement_state(t, v, i + 1, rank - 1, 0, sq),
        file < 8 && v.at(file, rank) is Some ==> {
            &&& t[i] == piece_letter(v.at(file, rank)->Some_0)
            &&& placement_state(t, v, i + 1, rank, file + 1, sq.update(rank * 8 + file, v.at(file, rank)))
        },
        file < 8 && v.at(file, rank) is None ==> {
            &&& file < next_piece(v, rank, file) <= 8
            &&& t[i] == digit_char(next_piece(v, rank, file) - file)
            &&& placement_state(t, v, i + 1, rank, next_piece(v, rank, file), sq)
        },
{
    if file == 8 {
        lemma_step_end_of_rank(t, v, i, rank, sq);
    } else if v.at(file, rank) is Some {
        lemma_step_piece(t, v, i, rank, file, sq);
    } else {
        lemma_step_run(t, v, i, rank, file, sq);
    }
}

/// Reads the piece placement that starts the text; returns the squares and the
/// index just after it.
fn read_placement(text: &str, n: usize) -> (r: Option<(Vec<Option<Piece>>, usize)>)
    requires
        n == text@.len(),
    ensures
        r matches Some((sq, i)) ==> sq@.len() == 64 && i <= n,
        forall|v: BoardView| #[trigger] text_of(text@, v) ==> {
            &&& r matches Some((sq, i))
            &&& sq@ == v.squares
            &&& text@.subrange(i as int, n as int) == fields_text(v)
        },
{
    let ghost t = text@;
    let mut squares: Vec<Option<Piece>> = Vec::new();
    let mut k: usize = 0;
    while k < 64
        invariant
            k <= 64,
            squares@.len() == k,
            forall|j: int| 0 <= j < k ==> squares@[j] is None,
        decreases 64 - k,
    {
        squares.push(None);
        k += 1;
    }
    let mut i: usize = 0;
    let mut rank: usize = 7;
    let mut file: usize = 0;
    proof {
        assert forall|v: BoardView| #[trigger] text_of(t, v) implies placement_state(t, v, 0, 7, 0, squares@) by {
            lemma_position_text_split(v);
            assert(t.subrange(0, n as int) =~= t);
        }
    }
    while i < n && text.get_char(i) != ' '
        invariant
            n == t.len(),
            t == text@,
            i <= n,
            squares@.len() == 64,
            rank <= 7,
            file <= 8,
            forall|v: BoardView| #[trigger] text_of(t, v) ==> placement_state(t, v, i as int, rank as int, file as int, squares@),
        decreases n - i,
    {
        let c = text.get_char(i);
        let ghost sq0 = squares@;
        if c == '/' {
            if file != 8 || rank == 0 {
                proof {
                    assert forall|v: BoardView| #[trigger] text_of(t, v) implies false by {
                        lemma_placement_step(t, v, i as int, rank as int, file as int, sq0);
                        if file < 8 {
                            if v.at(file as int, rank as int) is Some {
                                lemma_letter_not_separator(v.at(file as int, rank as int)->Some_0);
                            } else {
                                lemma_digit_round_trip(next_piece(v, rank as int, file as int) - file);
                            }
                        }
                    }
                }
                return None;
            }
            proof {
                assert forall|v: BoardView| #[trigger] text_of(t, v) implies placement_state(t, v, i + 1, rank - 1, 0, squares@) by {
                    lemma_placement_step(t, v, i as int, rank as int, file as int, sq0);
                }
            }
            rank -= 1;
            file = 0;
        } else {
            match digit_of(c) {
                Some(d) => {
                    if d == 0 || file + d as usize > 8 {
                        proof {
                            assert forall|v: BoardView| #[trigger] text_of(t, v) implies false by {
                                lemma_placement_step(t, v, i as int, rank as int, file as int, sq0);
                                if file < 8 {
                                    if v.at(file as int, rank as int) is Some {
                                        lemma_letter_not_separator(v.at(file as int, rank as int)->Some_0);
                                    } else {
                                        lemma_digit_round_trip(next_piece(v, rank as int, file as int) - file);
                                    }
                                }
                            }
                        }
                        return None;
                    }
                    proof {
                        assert forall|v: BoardView| #[trigger] text_of(t, v) implies placement_state(t, v, i + 1, rank as int, file + d, squares@) by {
                            lemma_placement_step(t, v, i as int, rank as int, file as int, sq0);
                            if file < 8 && v.at(file as int, rank as int) is Some {
                                lemma_letter_not_separator(v.at(file as int, rank as int)->Some_0);
                            } else if file < 8 {
                                lemma_digit_round_trip(next_piece(v, rank as int, file as int) - file);
                            }
                        }
                    }
                    file += d as usize;
                },
                None => match piece_of_letter(c) {
                    Some(p) => {
                        if file >= 8 {
                            proof {
                                assert forall|v: BoardView| #[trigger] text_of(t, v) implies false by {
                                    lemma_placement_step(t, v, i as int, rank as int, file as int, sq0);
                                }
                            }
                            return None;
                        }
                        squares.set(rank * 8 + file, Some(p));
                        proof {
                            assert forall|v: BoardView| #[trigger] text_of(t, v) implies placement_state(t, v, i + 1, rank as int, file + 1, squares@) by {
                                lemma_placement_step(t, v, i as int, rank as int, file as int, sq0);
                                if v.at(file as int, rank as int) is None {
                                    lemma_digit_round_trip(next_piece(v, rank as int, file as int) - file);
                                }
                            }
                        }
                        file += 1;
                    },
                    None => {
                        proof {
                            assert forall|v: BoardView| #[trigger] text_of(t, v) implies false by {
                                lemma_placement_step(t, v, i as int, rank as int, file as int, sq0);
                                if file < 8 && v.at(file as int, rank as int) is None {
                                    lemma_digit_round_trip(next_piece(v, rank as int, file as int) - file);
                                }
                            }
                        }
                        return None;
                    },
                },
            }
        }
        i += 1;
    }
    if rank != 0 || file != 8 {
        proof {
            assert forall|v: BoardView| #[trigger] text_of(t, v) implies false by {
                lemma_placement_step(t, v, i as int, rank as int, file as int, squares@);
                if file < 8 {
                    if v.at(file as int, rank as int) is Some {
                        lemma_letter_not_separator(v.at(file as int, rank as int)->Some_0);
                    } else {
                        lemma_digit_round_trip(next_piece(v, rank as int, file as int) - file);
                    }
                }
            }
        }
        return None;
    }
    proof {
        assert forall|v: BoardView| #[trigger] text_of(t, v) implies squares@ == v.squares
            && t.subrange(i as int, n as int) == fields_text(v) by {
            lemma_placement_step(t, v, i as int, rank as int, file as int, squares@);
            assert forall|k: int| 0 <= k < 64 implies processed(k, 0, 8) by {}
            assert(squares@ =~= v.squares);
        }
    }
    Some((squares, i))
}

pub open spec fn any_right(c: CastlingRights) -> bool {
    c.white_kingside || c.white_queenside || c.black_kingside || c.black_queenside
}

pub open spec fn bit(b: bool) -> int {
    if b { 1 } else { 0 }
}

/// Where each letter of the castling field stands.
pub proof fn lemma_castling_letters(c: CastlingRights)
    ensures
        !any_right(c) ==> castling_text(c) == seq!['-'],
        any_right(c) ==> {
            let o1 = bit(c.white_kingside);
            let o2 = o1 + bit(c.white_queenside);
            let o3 = o2 + bit(c.black_kingside);
            let o4 = o3 + bit(c.black_queenside);
            &&& castling_text(c).len() == o4
            &&& castling_text(c)[0] != '-'
            &&& c.white_kingside ==> castling_text(c)[0] == 'K'
            &&& c.white_queenside ==> castling_text(c)[o1] == 'Q'
            &&& c.black_kingside ==> castling_text(c)[o2] == 'k'
            &&& c.black_queenside ==> castling_text(c)[o3] == 'q'
            &&& forall|k: int| 0 <= k < o4 ==> castling_text(c)[k] != ' '
            &&& o1 < o4 ==> castling_text(c)[o1] != 'K'
            &&& o2 < o4 ==> castling_text(c)[o2] != 'K' && castling_text(c)[o2] != 'Q'
            &&& o3 < o4 ==> castling_text(c)[o3] != 'K' && castling_text(c)[o3] != 'Q' && castling_text(c)[o3] != 'k'
            &&& !c.white_kingside ==> castling_text(c)[0] != 'K'
        },
{
    reveal(castling_text);
    if c.white_kingside {
        if c.white_queenside {
            if c.black_kingside {
                if c.black_queenside {
                    assert(castling_text(c) =~= seq!['K', 'Q', 'k', 'q']);
                } else {
                    assert(castling_text(c) =~= seq!['K', 'Q', 'k']);
                }
            } else {
                if c.black_queenside {
                    assert(castling_text(c) =~= seq!['K', 'Q', 'q']);
                } else {
                    assert(castling_text(c) =~= seq!['K', 'Q']);
                }
            }
        } else {
            if c.black_kingside {
                if c.black_queenside {
                    assert(castling_text(c) =~= seq!['K', 'k', 'q']);
                } else {
                    assert(castling_text(c) =~= seq!['K', 'k']);
                }
            } else {
                if c.black_queenside {
                    assert(castling_text(c) =~= seq!['K', 'q']);
                } else {
                    assert(castling_text(c) =~= seq!['K']);
                }
            }
        }
    } else {
        if c.white_queenside {
            if c.black_kingside {
                if c.black_queenside {
                    assert(castling_text(c) =~= seq!['Q', 'k', 'q']);
                } else {
                    assert(castling_text(c) =~= seq!['Q', 'k']);
                }
            } else {
                if c.black_queenside {
                    assert(castling_text(c) =~= seq!['Q', 'q']);
                } else {
                    assert(castling_text(c) =~= seq!['Q']);
                }
            }
        } else {
            if c.black_kingside {
                if c.black_queenside {
                    assert(castling_text(c) =~= seq!['k', 'q']);
                } else {
                    assert(castling_text(c) =~= seq!['k']);
                }
            } else {
                if c.black_queenside {
                    assert(castling_text(c) =~= seq!['q']);
                } else {
                    assert(castling_text(c) =~= seq!['-']);
                }
            }
        }
    }
}

/// The decimal text of `h` stands at index `i` of `t`, followed by a space or the end.
#[verifier::opaque]
pub open spec fn decimal_at(t: Seq<char>, i: int, h: nat) -> bool {
    &&& h <= u32::MAX
    &&& 0 <= i
    &&& i + decimal(h).len() <= t.len()
    &&& t.subrange(i, i + decimal(h).len()) == decimal(h)
    &&& (i + decimal(h).len() == t.len() || t[i + decimal(h).len()] == ' ')
}

/// Reads a decimal number that starts at `i` and ends at a space or at the end.
fn read_number(text: &str, n: usize, i: usize) -> (r: Option<(u32, usize)>)
    requires
        n == text@.len(),
        i <= n,
    ensures
        r matches Some((_, j)) ==> i < j <= n,
        forall|h: nat| #[trigger] decimal_at(text@, i as int, h) ==> r == Some((h as u32, (i + decimal(h).len()) as usize)),
{
    reveal(decimal_at);
    let ghost t = text@;
    let mut value: u32 = 0;
    let mut j = i;
    while j < n && text.get_char(j) != ' '
        invariant
            n == t.len(),
            t == text@,
            i <= j <= n,
            value as nat == digits_value(t.subrange(i as int, j as int)),
            forall|h: nat| #[trigger] decimal_at(t, i as int, h) ==> j - i <= decimal(h).len(),
        decreases n - j,
    {
        let c = text.get_char(j);
        proof {
            assert(t.subrange(i as int, j + 1).drop_last() =~= t.subrange(i as int, j as int));
            assert forall|h: nat| #[trigger] decimal_at(t, i as int, h) implies j - i < decimal(h).len()
                && digit_value(c) is Some
                && digits_value(t.subrange(i as int, j + 1)) <= h by {
                reveal(decimal_at);
                lemma_decimal_digits(h);
                let d = decimal(h);
                if j - i == d.len() {
                    assert(t[j as int] == ' ');
                }
                assert(t.subrange(i as int, i + d.len())[j - i] == t[j as int]);
                assert(t.subrange(i as int, j + 1) =~= d.subrange(0, j - i + 1));
            }
        }
        match digit_of(c) {
            Some(d) => {
                if value > (u32::MAX - d) / 10 {
                    proof {
                        assert forall|h: nat| #[trigger] decimal_at(t, i as int, h) implies false by {
                            reveal(decimal_at);
                            assert(digits_value(t.subrange(i as int, j + 1)) == value * 10 + d);
                        }
                    }
                    return None;
                }
                value = value * 10 + d;
            },
            None => {
                return None;
            },
        }
        j += 1;
    }
    proof {
        assert forall|h: nat| #[trigger] decimal_at(t, i as int, h) implies j - i == decimal(h).len()
            && value == h by {
            lemma_decimal_digits(h);
            let d = decimal(h);
            if j - i < d.len() {
                assert(t.subrange(i as int, i + d.len())[j - i] == t[j as int]);
            }
            assert(t.subrange(i as int, j as int) =~= d);
        }
    }
    if j == i {
        return None;
    }
    Some((value, j))
}

proof fn lemma_rank_text_fresh(v: BoardView, r: int, f: int, e: nat)
    ensures
        rank_text(v.fresh(), r, f, e) == rank_text(v, r, f, e),
    decreases 8 - f,
{
    if f < 8 {
        lemma_rank_text_fresh(v, r, f + 1, 0);
        lemma_rank_text_fresh(v, r, f + 1, e + 1);
    }
}

proof fn lemma_placement_fresh(v: BoardView, r: int)
    ensures
        placement_text(v.fresh(), r) == placement_text(v, r),
    decreases r,
{
    lemma_rank_text_fresh(v, r, 0, 0);
    lemma_rank_text_fresh(v, 0, 0, 0);
    if r > 0 {
        lemma_placement_fresh(v, r - 1);
    }
}

/// The position text does not depend on the earlier positions.
pub proof fn lemma_position_text_fresh(v: BoardView)
    ensures
        position_text(v.fresh()) == position_text(v),
{
    lemma_placement_fresh(v, 7);
}

/// The castling field for `c` stands at index `i` of `t`, followed by a space.
#[verifier::opaque]
pub open spec fn castling_at(t: Seq<char>, i: int, c: CastlingRights) -> bool {
    let ct = castling_text(c);
    &&& 0 <= i
    &&& i + ct.len() < t.len()
    &&& t.subrange(i, i + ct.len()) == ct
    &&& t[i + ct.len()] == ' '
}

/// The en-passant field for `e` stands at index `i` of `t`, followed by a space.
#[verifier::opaque]
pub open spec fn en_passant_at(t: Seq<char>, i: int, e: Option<Position>) -> bool {
    let et = en_passant_text(e);
    &&& (e matches Some(p) ==> p.valid())
    &&& 0 <= i
    &&& i + et.len() < t.len()
    &&& t.subrange(i, i + et.len()) == et
    &&& t[i + et.len()] == ' '
}

/// Where each field of the text of `v` stands, the placement ending at `i`.
pub open spec fn fields_layout(t: Seq<char>, v: BoardView, i: int) -> bool {
    &&& i + 3 <= t.len()
    &&& t[i] == ' '
    &&& t[i + 1] == side_letter(v.side)
    &&& t[i + 2] == ' '
    &&& castling_at(t, i + 3, v.castling)
    &&& en_passant_at(t, i + 4 + castling_text(v.castling).len(), v.en_passant)
    &&& decimal_at(t, i + 5 + castling_text(v.castling).len() + en_passant_text(v.en_passant).len(),
        v.halfmove as nat)
    &&& decimal_at(t, i + 6 + castling_text(v.castling).len() + en_passant_text(v.en_passant).len()
        + decimal(v.halfmove as nat).len(), v.fullmove as nat)
    &&& i + 6 + castling_text(v.castling).len() + en_passant_text(v.en_passant).len()
        + decimal(v.halfmove as nat).len() + decimal(v.fullmove as nat).len() == t.len()
}

pub proof fn lemma_fields_layout(t: Seq<char>, v: BoardView, i: int)
    requires
        v.wf(),
        0 <= i <= t.len(),
        t.subrange(i, t.len() as int) == fields_text(v),
    ensures
        i + 3 <= t.len(),
        t[i] == ' ',
        t[i + 1] == side_letter(v.side),
        t[i + 2] == ' ',
        castling_at(t, i + 3, v.castling),
        en_passant_at(t, i + 4 + castling_text(v.castling).len(), v.en_passant),
        decimal_at(t, i + 5 + castling_text(v.castling).len() + en_passant_text(v.en_passant).len(),
            v.halfmove as nat),
        decimal_at(t, i + 6 + castling_text(v.castling).len() + en_passant_text(v.en_passant).len()
            + decimal(v.halfmove as nat).len(), v.fullmove as nat),
        i + 6 + castling_text(v.castling).len() + en_passant_text(v.en_passant).len()
            + decimal(v.halfmove as nat).len() + decimal(v.fullmove as nat).len() == t.len(),
{
    reveal(fields_text);
    reveal(castling_at);
    reveal(en_passant_at);
    reveal(decimal_at);
    let f = t.subrange(i, t.len() as int);
    let ct = castling_text(v.castling);
    let et = en_passant_text(v.en_passant);
    let dh = decimal(v.halfmove as nat);
    let df = decimal(v.fullmove as nat);
    let a: int = 3;
    let b: int = a + ct.len() + 1;
    let c: int = b + et.len() + 1;
    let d: int = c + dh.len() + 1;
    assert(f.len() == d + df.len());
    assert(f[0] == ' ' && f[1] == side_letter(v.side) && f[2] == ' ');
    assert(f.subrange(a, a + ct.len()) =~= ct);
    assert(f[a + ct.len()] == ' ');
    assert(f.subrange(b, b + et.len()) =~= et);
    assert(f[b + et.len()] == ' ');
    assert(f.subrange(c, c + dh.len()) =~= dh);
    assert(f[c + dh.len()] == ' ');
    assert(f.subrange(d, d + df.len()) =~= df);
    assert(t.subrange(i + a, i + a + ct.len()) =~= f.subrange(a, a + ct.len()));
    assert(t.subrange(i + b, i + b + et.len()) =~= f.subrange(b, b + et.len()));
    assert(t.subrange(i + c, i + c + dh.len()) =~= f.subrange(c, c + dh.len()));
    assert(t.subrange(i + d, i + d + df.len()) =~= f.subrange(d, d + df.len()));
    assert(t[i] == f[0] && t[i + 1] == f[1] && t[i + 2] == f[2]);
    assert(t[i + a + ct.len()] == f[a + ct.len()]);
    assert(t[i + b + et.len()] == f[b + et.len()]);
    assert(t[i + c + dh.len()] == f[c + dh.len()]);
}

pub proof fn lemma_castling_char(t: Seq<char>, i: int, c: CastlingRights, k: int)
    requires
        castling_at(t, i, c),
        0 <= k <= castling_text(c).len(),
    ensures
        k < castling_text(c).len() ==> t[i + k] == castling_text(c)[k],
        k == castling_text(c).len() ==> t[i + k] == ' ',
        i + k < t.len(),
{
    reveal(castling_at);
    let ct = castling_text(c);
    if k < ct.len() {
        assert(t.subrange(i, i + ct.len())[k] == t[i + k]);
    }
}

/// Reads the castling field that starts at `i`; returns the rights and the
/// index of the space after the field.
fn read_castling(text: &str, n: usize, i: usize) -> (r: Option<(CastlingRights, usize)>)
    requires
        n == text@.len(),
        i <= n,
    ensures
        r matches Some((_, j)) ==> i <= j < n && text@[j as int] == ' ',
        forall|c: CastlingRights| #[trigger] castling_at(text@, i as int, c)
            ==> r == Some((c, (i + castling_text(c).len()) as usize)),
{
    let ghost t = text@;
    let mut rights = CastlingRights {
        white_kingside: false,
        white_queenside: false,
        black_kingside: false,
        black_queenside: false,
    };
    let mut j = i;
    if j < n && text.get_char(j) == '-' {
        proof {
            assert forall|c: CastlingRights| #[trigger] castling_at(t, i as int, c) implies !any_right(c) by {
                lemma_castling_letters(c);
                lemma_castling_char(t, i as int, c, 0);
            }
        }
        j += 1;
    } else {
        proof {
            assert forall|c: CastlingRights| #[trigger] castling_at(t, i as int, c) implies any_right(c) by {
                lemma_castling_letters(c);
                lemma_castling_char(t, i as int, c, 0);
            }
        }
        if j < n && text.get_char(j) == 'K' {
            rights.white_kingside = true;
            j += 1;
        }
        proof {
            assert forall|c: CastlingRights| #[trigger] castling_at(t, i as int, c) implies
                rights.white_kingside == c.white_kingside && j == i + bit(c.white_kingside) by {
                lemma_castling_letters(c);
                lemma_castling_char(t, i as int, c, 0);
            }
        }
        if j < n && text.get_char(j) == 'Q' {
            rights.white_queenside = true;
            j += 1;
        }
        proof {
            assert forall|c: CastlingRights| #[trigger] castling_at(t, i as int, c) implies
                rights.white_kingside == c.white_kingside && rights.white_queenside == c.white_queenside
                && j == i + bit(c.white_kingside) + bit(c.white_queenside) by {
                lemma_castling_letters(c);
                lemma_castling_char(t, i as int, c, bit(c.white_kingside));
            }
        }
        if j < n && text.get_char(j) == 'k' {
            rights.black_kingside = true;
            j += 1;
        }
        proof {
            assert forall|c: CastlingRights| #[trigger] castling_at(t, i as int, c) implies
                rights.white_kingside == c.white_kingside && rights.white_queenside == c.white_queenside
                && rights.black_kingside == c.black_kingside
                && j == i + bit(c.white_kingside) + bit(c.white_queenside) + bit(c.black_kingside) by {
                lemma_castling_letters(c);
                lemma_castling_char(t, i as int, c, bit(c.white_kingside) + bit(c.white_queenside));
            }
        }
        if j < n && text.get_char(j) == 'q' {
            rights.black_queenside = true;
            j += 1;
        }
        proof {
            assert forall|c: CastlingRights| #[trigger] castling_at(t, i as int, c) implies
                rights == c && j == i + castling_text(c).len() by {
                lemma_castling_letters(c);
                lemma_castling_char(t, i as int, c, bit(c.white_kingside) + bit(c.white_queenside)
                    + bit(c.black_kingside));
            }
        }
    }
    proof {
        assert forall|c: CastlingRights| #[trigger] castling_at(t, i as int, c) implies
            rights == c && j == i + castling_text(c).len() && j < n && t[j as int] == ' ' by {
            lemma_castling_letters(c);
            lemma_castling_char(t, i as int, c, castling_text(c).len() as int);
        }
    }
    if j >= n || text.get_char(j) != ' ' {
        return None;
    }
    Some((rights, j))
}

pub proof fn lemma_square_chars(p: Position)
    requires
        p.valid(),
    ensures
        file_of_char(file_char(p.file as int)) == Some(p.file),
        rank_of_char(rank_char(p.rank as int)) == Some(p.rank),
        file_char(p.file as int) != '-',
{
}

/// Reads the en-passant field that starts at `i`; returns the square and the
/// index of the space after the field.
fn read_en_passant(text: &str, n: usize, i: usize) -> (r: Option<(Option<Position>, usize)>)
    requires
        n == text@.len(),
        i <= n,
    ensures
        r matches Some((e, j)) ==> i <= j < n && text@[j as int] == ' ' && (e matches Some(p) ==> p.valid()),
        forall|e: Option<Position>| #[trigger] en_passant_at(text@, i as int, e)
            ==> r == Some((e, (i + en_passant_text(e).len()) as usize)),
{
    reveal(en_passant_at);
    let ghost t = text@;
    if i >= n {
        return None;
    }
    let (e, j) = if text.get_char(i) == '-' {
        (None, i + 1)
    } else {
        if n - i < 2 {
            return None;
        }
        let f = match file_index(text.get_char(i)) {
            Some(f) => f,
            None => {
                proof {
                    assert forall|e: Option<Position>| #[trigger] en_passant_at(t, i as int, e) implies false by {
                        if let Some(p) = e {
                            lemma_square_chars(p);
                            assert(t.subrange(i as int, i + 2)[0] == t[i as int]);
                        } else {
                            assert(t.subrange(i as int, i + 1)[0] == t[i as int]);
                        }
                    }
                }
                return None;
            },
        };
        let r = match rank_index(text.get_char(i + 1)) {
            Some(r) => r,
            None => {
                proof {
                    assert forall|e: Option<Position>| #[trigger] en_passant_at(t, i as int, e) implies false by {
                        if let Some(p) = e {
                            lemma_square_chars(p);
                            assert(t.subrange(i as int, i + 2)[0] == t[i as int]);
                            assert(t.subrange(i as int, i + 2)[1] == t[i + 1]);
                        } else {
                            assert(t.subrange(i as int, i + 1)[0] == t[i as int]);
                        }
                    }
                }
                return None;
            },
        };
        (Some(Position { file: f, rank: r }), i + 2)
    };
    proof {
        assert forall|e2: Option<Position>| #[trigger] en_passant_at(t, i as int, e2)
            implies e == e2 && j == i + en_passant_text(e2).len() by {
            let et = en_passant_text(e2);
            assert(t.subrange(i as int, i + et.len())[0] == t[i as int]);
            if let Some(p) = e2 {
                lemma_square_chars(p);
                assert(t.subrange(i as int, i + et.len())[1] == t[i + 1]);
            }
        }
    }
    if j >= n || text.get_char(j) != ' ' {
        return None;
    }
    Some((e, j))
}

/// Reads the fields of position text; the result still has to be checked
/// against the text.
#[verifier::rlimit(50)]
fn read_fields(text: &str) -> (r: Option<Board>)
    ensures
        forall|v: BoardView| #[trigger] text_of(text@, v) ==> (r matches Some(b) && b@ == v.fresh()),
{
    let ghost t = text@;
    let n = text.unicode_len();
    let (squares, i) = match read_placement(text, n) {
        Some(x) => x,
        None => {
            return None;
        },
    };
    proof {
        assert forall|v: BoardView| #[trigger] text_of(t, v) implies fields_layout(t, v, i as int) by {
            lemma_fields_layout(t, v, i as int);
        }
    }
    if n - i < 3 {
        return None;
    }
    let side = if text.get_char(i + 1) == 'w' {
        Some(Player::White)
    } else if text.get_char(i + 1) == 'b' {
        Some(Player::Black)
    } else {
        None
    };
    let spaced = text.get_char(i) == ' ' && text.get_char(i + 2) == ' ';
    let castling = read_castling(text, n, i + 3);
    let (side, castling, j) = match (spaced, side, castling) {
        (true, Some(s), Some((c, j))) => (s, c, j),
        _ => {
            return None;
        },
    };
    let (en_passant, k) = match read_en_passant(text, n, j + 1) {
        Some(x) => x,
        None => {
            return None;
        },
    };
    let (halfmove, l) = match read_number(text, n, k + 1) {
        Some(x) => x,
        None => {
            return None;
        },
    };
    if l >= n {
        return None;
    }
    let (fullmove, m) = match read_number(text, n, l + 1) {
        Some(x) => x,
        None => {
            return None;
        },
    };
    if m != n {
        return None;
    }
    let b = Board::from_parts(squares, side, castling, en_passant, halfmove, fullmove);
    proof {
        assert forall|v: BoardView| #[trigger] text_of(t, v) implies b@ == v.fresh() by {
            assert(fields_layout(t, v, i as int));
        }
    }
    Some(b)
}

impl Board {
    /// Rebuilds a board from its position text. Only the canonical text of a
    /// consistent board is accepted (one king on each side, an en-passant
    /// target only where a pawn just skipped), so the board returned has
    /// exactly that text; the text of any such board gives back that board,
    /// with no earlier positions.
    pub fn from_fen(text: &str) -> (r: Result<Board, ChessError>)
        ensures
            r matches Ok(b) ==> position_text(b@) == text@ && consistent(b@),
            r is Err ==> r == Err::<Board, ChessError>(ChessError::InvalidPositionText),
            forall|v: BoardView| #[trigger] text_of(text@, v) && consistent(v)
                ==> (r matches Ok(b) && b@ == v.fresh()),
    {
        proof {
            assert forall|v: BoardView| #[trigger] text_of(text@, v) implies position_text(v.fresh()) == text@ by {
                lemma_position_text_fresh(v);
            }
        }
        match read_fields(text) {
            Some(b) => {
                let canonical = b.to_fen();
                if canonical == String::from_str(text) && b.is_consistent() {
                    Ok(b)
                } else {
                    Err(ChessError::InvalidPositionText)
                }
            },
            None => Err(ChessError::InvalidPositionText),
        }
    }
}

/// What follows the placement of rank `r`: a slash and the lower ranks, or
/// nothing after the first rank.
pub open spec fn below_rank(v: BoardView, r: int) -> Seq<char> {
    if r > 0 { seq!['/'] + placement_text(v, r - 1) } else { Seq::<char>::empty() }
}

/// The fields that follow the piece placement, with the space before them.
#[verifier::opaque]
pub open spec fn fields_text(v: BoardView) -> Seq<char> {
    seq![' ', side_letter(v.side), ' '] + castling_text(v.castling) + seq![' '] + en_passant_text(v.en_passant)
        + seq![' '] + decimal(v.halfmove as nat) + seq![' '] + decimal(v.fullmove as nat)
}

/// `t` is the position text of the well-formed state `v`.
pub open spec fn text_of(t: Seq<char>, v: BoardView) -> bool {
    v.wf() && position_text(v) == t
}

/// The first file at or after `f` on rank `r` that holds a piece, or 8.
pub open spec fn next_piece(v: BoardView, r: int, f: int) -> int
    decreases 8 - f,
{
    if f >= 8 { 8 } else if v.at(f, r) is Some { f } else { next_piece(v, r, f + 1) }
}

pub open spec fn run_text(k: int) -> Seq<char> {
    if k > 0 { seq![digit_char(k)] } else { Seq::<char>::empty() }
}

/// The text of a rank from file `f` on is the run of empty squares up to the
/// next piece, then that piece and the rest of the rank.
pub proof fn lemma_rank_run(v: BoardView, r: int, f: int, e: nat)
    requires
        v.wf(),
        0 <= r < 8,
        0 <= f <= 8,
    ensures
        f <= next_piece(v, r, f) <= 8,
        forall|k: int| f <= k < next_piece(v, r, f) ==> v.at(k, r) is None,
        next_piece(v, r, f) < 8 ==> v.at(next_piece(v, r, f), r) is Some,
        rank_text(v, r, f, e) == run_text(e + next_piece(v, r, f) - f) + if next_piece(v, r, f) < 8 {
            seq![piece_letter(v.at(next_piece(v, r, f), r)->Some_0)] + rank_text(v, r, next_piece(v, r, f) + 1, 0)
        } else {
            Seq::<char>::empty()
        },
    decreases 8 - f,
{
    if f < 8 && v.at(f, r) is None {
        lemma_rank_run(v, r, f + 1, e + 1);
    }
    if f >= 8 {
        assert(rank_text(v, r, f, e) =~= run_text(e as int));
    }
}

pub proof fn lemma_placement_split(v: BoardView, r: int)
    requires
        0 <= r,
    ensures
        placement_text(v, r) == rank_text(v, r, 0, 0) + below_rank(v, r),
{
    if r <= 0 {
        assert(placement_text(v, r) =~= rank_text(v, r, 0, 0) + below_rank(v, r));
    } else {
        assert(placement_text(v, r) =~= rank_text(v, r, 0, 0) + below_rank(v, r));
    }
}

pub proof fn lemma_position_text_split(v: BoardView)
    ensures
        position_text(v) == rank_text(v, 7, 0, 0) + below_rank(v, 7) + fields_text(v),
{
    reveal(fields_text);
    lemma_placement_split(v, 7);
    assert(position_text(v) =~= rank_text(v, 7, 0, 0) + below_rank(v, 7) + fields_text(v));
}

/// The value of a run of decimal digits.
pub open spec fn digits_value(s: Seq<char>) -> nat
    decreases s.len(),
{
    if s.len() == 0 {
        0
    } else {
        digits_value(s.drop_last()) * 10 + match digit_value(s.last()) {
            Some(d) => d as nat,
            None => 0,
        }
    }
}

pub proof fn lemma_digit_round_trip(d: int)
    requires
        0 <= d <= 9,
    ensures
        digit_value(digit_char(d)) == Some(d),
        digit_char(d) != ' ' && digit_char(d) != '/',
{
    if d == 0 {} else if d == 1 {} else if d == 2 {} else if d == 3 {} else if d == 4 {}
    else if d == 5 {} else if d == 6 {} else if d == 7 {} else if d == 8 {} else {}
}

pub proof fn lemma_decimal_digits(n: nat)
    ensures
        decimal(n).len() >= 1,
        forall|k: int| 0 <= k < decimal(n).len() ==> (#[trigger] digit_value(decimal(n)[k])) is Some,
        forall|k: int| 0 <= k < decimal(n).len() ==> decimal(n)[k] != ' ',
        forall|k: int| 0 <= k <= decimal(n).len() ==> #[trigger] digits_value(decimal(n).subrange(0, k)) <= n,
        digits_value(decimal(n)) == n,
    decreases n,
{
    let d = decimal(n);
    lemma_digit_round_trip((n % 10) as int);
    if n < 10 {
        lemma_digit_round_trip(n as int);
        assert(d.subrange(0, 0).len() == 0);
        assert(d.subrange(0, 1) =~= d);
        assert(d.drop_last() =~= Seq::<char>::empty());
        assert(digits_value(Seq::<char>::empty()) == 0);
        assert(digits_value(d) == n);
        assert(d.subrange(0, 0) =~= Seq::<char>::empty());
    } else {
        lemma_decimal_digits(n / 10);
        let p = decimal(n / 10);
        assert(d.drop_last() =~= p);
        assert(n == (n / 10) * 10 + n % 10);
        assert(digits_value(d) == n);
        assert forall|k: int| 0 <= k < d.len() implies (#[trigger] digit_value(d[k])) is Some by {
            if k < p.len() {
                assert(d[k] == p[k]);
            }
        }
        assert forall|k: int| 0 <= k <= d.len() implies #[trigger] digits_value(d.subrange(0, k)) <= n by {
            if k < d.len() {
                assert(d.subrange(0, k) =~= p.subrange(0, k));
            } else {
                assert(d.subrange(0, k) =~= d);
            }
        }
    }
}

} // verus!
