use vstd::prelude::*;
use crate::pieces::{Piece, PieceType, Player};
use crate::position::Position;
use crate::error::ChessError;
use crate::moves::Move;
use crate::rules::{
    abs, after, attacked_by, attacker, can_move, captures, castle_move, castles, describes,
    en_passant_capture, has_legal_move, in_check, insufficient_material, is_light,
    king_attacked, legal, lemma_index_unique, lemma_lists_push, lists, max, minor_count, names,
    consistent, king_at, king_count, lemma_king_count_one, lemma_moves_keep_board_consistent, occurrences, on_board, one_king_each, path_clear, pawn_move, promotion_fits, reaches, rights_after, squares_after,
    threefold_repetition, BoardView, CastlingRights, PositionKey,
};

verus! {

/// The outcome of a position for the side to move.
#[derive(Debug, Clone, Copy, PartialEq, Eq, Structural)]
pub enum GameState {
    InProgress,
    Checkmate,
    Stalemate,
    Draw,
}

/// What the game has come to, for the side to move: mate or stalemate when it
/// has no legal move; otherwise a draw under the fifty-move rule or for want of
/// mating material or on the third repetition of a position; otherwise still
/// in progress.
pub open spec fn outcome(v: BoardView) -> GameState {
    if !has_legal_move(v) {
        if in_check(v, v.side) {
            GameState::Checkmate
        } else {
            GameState::Stalemate
        }
    } else if v.halfmove >= 100 || insufficient_material(v) || threefold_repetition(v) {
        GameState::Draw
    } else {
        GameState::InProgress
    }
}

/// The kind on file `f` of a back rank in the starting position.
pub open spec fn back_rank_kind(f: int) -> PieceType {
    if f == 0 || f == 7 {
        PieceType::Rook
    } else if f == 1 || f == 6 {
        PieceType::Knight
    } else if f == 2 || f == 5 {
        PieceType::Bishop
    } else if f == 3 {
        PieceType::Queen
    } else {
        PieceType::King
    }
}

/// The piece on square index `i` in the starting position.
pub open spec fn initial_square(i: int) -> Option<Piece> {
    let f = i % 8;
    let r = i / 8;
    if r == 0 {
        Some(Piece { piece_type: back_rank_kind(f), player: Player::White })
    } else if r == 1 {
        Some(Piece { piece_type: PieceType::Pawn, player: Player::White })
    } else if r == 6 {
        Some(Piece { piece_type: PieceType::Pawn, player: Player::Black })
    } else if r == 7 {
        Some(Piece { piece_type: back_rank_kind(f), player: Player::Black })
    } else {
        None
    }
}

/// The standard starting position, White to move.
pub open spec fn initial_view() -> BoardView {
    BoardView {
        squares: Seq::new(64, |i: int| initial_square(i)),
        side: Player::White,
        castling: CastlingRights {
            white_kingside: true,
            white_queenside: true,
            black_kingside: true,
            black_queenside: true,
        },
        en_passant: None,
        halfmove: 0,
        fullmove: 1,
        history: Seq::empty(),
    }
}

/// A past position, kept for the repetition rule.
#[derive(Debug, Clone)]
struct Snapshot {
    squares: Vec<Option<Piece>>,
    side: Player,
    castling: CastlingRights,
    en_passant: Option<Position>,
}

impl View for Snapshot {
    type V = PositionKey;

    closed spec fn view(&self) -> PositionKey {
        (self.squares@, self.side, self.castling, self.en_passant)
    }
}

fn copy_cells(cells: &Vec<Option<Piece>>) -> (r: Vec<Option<Piece>>)
    ensures
        r@ == cells@,
{
    let mut r: Vec<Option<Piece>> = Vec::new();
    let mut i: usize = 0;
    while i < cells.len()
        invariant
            0 <= i <= cells.len(),
            r@ == cells@.subrange(0, i as int),
        decreases cells.len() - i,
    {
        r.push(cells[i]);
        i += 1;
        assert(r@ =~= cells@.subrange(0, i as int));
    }
    assert(r@ =~= cells@);
    r
}

fn same_cells(a: &Vec<Option<Piece>>, b: &Vec<Option<Piece>>) -> (r: bool)
    ensures
        r == (a@ == b@),
{
    if a.len() != b.len() {
        return false;
    }
    let mut i: usize = 0;
    while i < a.len()
        invariant
            a@.len() == b@.len(),
            0 <= i <= a.len(),
            forall|k: int| 0 <= k < i ==> a@[k] == b@[k],
        decreases a.len() - i,
    {
        if !same_contents(a[i], b[i]) {
            return false;
        }
        i += 1;
    }
    assert(a@ =~= b@);
    true
}

fn copy_history(h: &Vec<Snapshot>) -> (r: Vec<Snapshot>)
    ensures
        r@.map_values(|s: Snapshot| s@) == h@.map_values(|s: Snapshot| s@),
{
    let mut r: Vec<Snapshot> = Vec::new();
    let mut i: usize = 0;
    while i < h.len()
        invariant
            0 <= i <= h.len(),
            r@.len() == i,
            forall|k: int| 0 <= k < i ==> (#[trigger] r@[k])@ == h@[k]@,
        decreases h.len() - i,
    {
        let s = &h[i];
        r.push(Snapshot {
            squares: copy_cells(&s.squares),
            side: s.side,
            castling: s.castling,
            en_passant: s.en_passant,
        });
        i += 1;
    }
    assert(r@.map_values(|s: Snapshot| s@) =~= h@.map_values(|s: Snapshot| s@));
    r
}

/// The full mutable state of a game.
#[derive(Debug)]
pub struct Board {
    squares: Vec<Option<Piece>>,
    current_player: Player,
    move_count: u32,
    halfmove_clock: u32,
    castling_rights: CastlingRights,
    en_passant_target: Option<Position>,
    history: Vec<Snapshot>,
}

impl View for Board {
    type V = BoardView;

    closed spec fn view(&self) -> BoardView {
        BoardView {
            squares: self.squares@,
            side: self.current_player,
            castling: self.castling_rights,
            en_passant: self.en_passant_target,
            halfmove: self.halfmove_clock,
            fullmove: self.move_count,
            history: self.history@.map_values(|s: Snapshot| s@),
        }
    }
}

impl Board {
    #[verifier::type_invariant]
    pub(crate) open spec fn inv(&self) -> bool {
        self@.wf()
    }

    /// The piece on `(f, r)`.
    fn at(&self, f: i32, r: i32) -> (p: Option<Piece>)
        requires
            on_board(f as int, r as int),
        ensures
            p == self@.at(f as int, r as int),
    {
        proof {
            use_type_invariant(self);
        }
        self.squares[(r * 8 + f) as usize]
    }

    pub fn piece_at(&self, position: Position) -> (r: Option<Piece>)
        ensures
            position.valid() ==> r == self@.at_pos(position),
            !position.valid() ==> r is None,
    {
        if position.file > 7 || position.rank > 7 {
            return None;
        }
        self.at(position.file as i32, position.rank as i32)
    }

    fn path_is_clear(&self, f0: i32, r0: i32, f1: i32, r1: i32) -> (b: bool)
        requires
            on_board(f0 as int, r0 as int),
            on_board(f1 as int, r1 as int),
        ensures
            b == path_clear(self@, f0 as int, r0 as int, f1 as int, r1 as int),
    {
        let mut f = f0;
        let mut r = r0;
        loop
            invariant
                on_board(f as int, r as int),
                on_board(f1 as int, r1 as int),
                path_clear(self@, f0 as int, r0 as int, f1 as int, r1 as int)
                    == path_clear(self@, f as int, r as int, f1 as int, r1 as int),
            decreases max(abs(f1 - f), abs(r1 - r)),
        {
            if f == f1 && r == r1 {
                return true;
            }
            let nf = if f1 < f { f - 1 } else if f1 > f { f + 1 } else { f };
            let nr = if r1 < r { r - 1 } else if r1 > r { r + 1 } else { r };
            if nf == f1 && nr == r1 {
                return true;
            }
            if self.at(nf, nr).is_some() {
                return false;
            }
            f = nf;
            r = nr;
        }
    }

    fn piece_reaches(&self, k: PieceType, s: Player, f0: i32, r0: i32, f1: i32, r1: i32) -> (b: bool)
        requires
            on_board(f0 as int, r0 as int),
            on_board(f1 as int, r1 as int),
        ensures
            b == reaches(self@, k, s, f0 as int, r0 as int, f1 as int, r1 as int),
    {
        let df = f1 - f0;
        let dr = r1 - r0;
        let adf = if df < 0 { -df } else { df };
        let adr = if dr < 0 { -dr } else { dr };
        match k {
            PieceType::Pawn => {
                let fwd: i32 = match s {
                    Player::White => 1,
                    Player::Black => -1,
                };
                dr == fwd && adf == 1
            },
            PieceType::Knight => (adf == 1 && adr == 2) || (adf == 2 && adr == 1),
            PieceType::Bishop => adf == adr && df != 0 && self.path_is_clear(f0, r0, f1, r1),
            PieceType::Rook => (df == 0) != (dr == 0) && self.path_is_clear(f0, r0, f1, r1),
            PieceType::Queen => ((adf == adr && df != 0) || (df == 0) != (dr == 0))
                && self.path_is_clear(f0, r0, f1, r1),
            PieceType::King => adf <= 1 && adr <= 1 && !(df == 0 && dr == 0),
        }
    }

    /// Whether some piece of `s` attacks `(f, r)`.
    fn is_attacked_by(&self, f: i32, r: i32, s: Player) -> (b: bool)
        requires
            on_board(f as int, r as int),
        ensures
            b == attacked_by(self@, f as int, r as int, s),
    {
        proof {
            use_type_invariant(self);
        }
        let mut a: usize = 0;
        while a < 64
            invariant
                0 <= a <= 64,
                self@.wf(),
                on_board(f as int, r as int),
                forall|b: int| 0 <= b < a ==> !#[trigger] attacker(self@, b, f as int, r as int, s),
            decreases 64 - a,
        {
            if let Some(p) = self.squares[a] {
                if p.player == s && self.piece_reaches(
                    p.piece_type,
                    s,
                    (a % 8) as i32,
                    (a / 8) as i32,
                    f,
                    r,
                ) {
                    assert(attacker(self@, a as int, f as int, r as int, s));
                    return true;
                }
            }
            a += 1;
        }
        false
    }

    /// Whether the king of `side` is attacked by a piece of the other side.
    pub fn is_in_check(&self, side: Player) -> (b: bool)
        ensures
            b == in_check(self@, side),
    {
        proof {
            use_type_invariant(self);
        }
        let other = side.opposite();
        let mut k: usize = 0;
        while k < 64
            invariant
                0 <= k <= 64,
                self@.wf(),
                other == side.opp(),
                forall|j: int| 0 <= j < k ==> !#[trigger] king_attacked(self@, j, side),
            decreases 64 - k,
        {
            if let Some(p) = self.squares[k] {
                if p.piece_type == PieceType::King && p.player == side
                    && self.is_attacked_by((k % 8) as i32, (k / 8) as i32, other) {
                    assert(king_attacked(self@, k as int, side));
                    return true;
                }
            }
            k += 1;
        }
        false
    }
    fn pawn_can_move(&self, from: Position, to: Position) -> (b: bool)
        requires
            from.valid(),
            to.valid(),
        ensures
            b == pawn_move(self@, from, to),
    {
        let side = self.current_player;
        let fwd: i32 = match side {
            Player::White => 1,
            Player::Black => -1,
        };
        let start: i32 = match side {
            Player::White => 1,
            Player::Black => 6,
        };
        let f0 = from.file as i32;
        let r0 = from.rank as i32;
        let f1 = to.file as i32;
        let r1 = to.rank as i32;
        let df = f1 - f0;
        let dr = r1 - r0;
        let target_empty = self.at(f1, r1).is_none();
        if df == 0 && dr == fwd && target_empty {
            return true;
        }
        if df == 0 && r0 == start && dr == 2 * fwd && target_empty && self.at(f0, r0 + fwd).is_none() {
            return true;
        }
        if (df == 1 || df == -1) && dr == fwd {
            if !target_empty {
                return true;
            }
            let ep_here = match self.en_passant_target {
                Some(e) => e == to,
                None => false,
            };
            if ep_here {
                match self.at(f1, r0) {
                    Some(q) => {
                        return q.piece_type == PieceType::Pawn && q.player == side.opposite();
                    },
                    None => {
                        return false;
                    },
                }
            }
        }
        false
    }

    fn castle_allowed(&self, from: Position, to: Position) -> (b: bool)
        requires
            from.valid(),
            to.valid(),
        ensures
            b == castle_move(self@, from, to),
    {
        let side = self.current_player;
        let other = side.opposite();
        let h: i32 = match side {
            Player::White => 0,
            Player::Black => 7,
        };
        if !(from.file == 4 && from.rank as i32 == h && to.rank as i32 == h) {
            return false;
        }
        if self.is_attacked_by(4, h, other) {
            return false;
        }
        let (kingside, queenside) = match side {
            Player::White => (self.castling_rights.white_kingside, self.castling_rights.white_queenside),
            Player::Black => (self.castling_rights.black_kingside, self.castling_rights.black_queenside),
        };
        let rook_on = |f: i32| -> (b: bool)
            requires
                0 <= f < 8,
                0 <= h < 8,
            ensures
                b == (self@.at(f as int, h as int) == Some(Piece { piece_type: PieceType::Rook, player: side })),
        {
            match self.at(f, h) {
                Some(q) => q.piece_type == PieceType::Rook && q.player == side,
                None => false,
            }
        };
        if to.file == 6 {
            kingside && self.at(5, h).is_none() && self.at(6, h).is_none() && rook_on(7)
                && !self.is_attacked_by(5, h, other) && !self.is_attacked_by(6, h, other)
        } else if to.file == 2 {
            queenside && self.at(1, h).is_none() && self.at(2, h).is_none() && self.at(3, h).is_none()
                && rook_on(0) && !self.is_attacked_by(3, h, other) && !self.is_attacked_by(2, h, other)
        } else {
            false
        }
    }

    /// Whether the move fits the pattern of the moving piece (check-safety aside).
    fn fits_pattern(&self, from: Position, to: Position, promo: Option<PieceType>) -> (b: bool)
        ensures
            b == can_move(self@, from, to, promo),
    {
        if !from.is_valid() || !to.is_valid() {
            return false;
        }
        let side = self.current_player;
        let f0 = from.file as i32;
        let r0 = from.rank as i32;
        let f1 = to.file as i32;
        let r1 = to.rank as i32;
        let p = match self.at(f0, r0) {
            None => {
                return false;
            },
            Some(p) => p,
        };
        if p.player != side {
            return false;
        }
        if let Some(q) = self.at(f1, r1) {
            if q.player == side || q.piece_type == PieceType::King {
                return false;
            }
        }
        match p.piece_type {
            PieceType::Pawn => {
                let last: u8 = match side {
                    Player::White => 7,
                    Player::Black => 0,
                };
                let promo_ok = if to.rank == last {
                    match promo {
                        Some(k) => k == PieceType::Queen || k == PieceType::Rook || k == PieceType::Bishop
                            || k == PieceType::Knight,
                        None => false,
                    }
                } else {
                    promo.is_none()
                };
                assert(promo_ok == promotion_fits(side, to, promo));
                promo_ok && self.pawn_can_move(from, to)
            },
            PieceType::King => promo.is_none() && (self.piece_reaches(PieceType::King, side, f0, r0, f1, r1)
                || self.castle_allowed(from, to)),
            k => promo.is_none() && self.piece_reaches(k, side, f0, r0, f1, r1),
        }
    }

    /// The current position, as kept for the repetition rule.
    fn snapshot(&self) -> (r: Snapshot)
        ensures
            r@ == self@.key(),
    {
        Snapshot {
            squares: copy_cells(&self.squares),
            side: self.current_player,
            castling: self.castling_rights,
            en_passant: self.en_passant_target,
        }
    }

    /// A scratch copy of the board with the move played; the board itself is untouched.
    fn played(&self, from: Position, to: Position, promo: Option<PieceType>) -> (b: Board)
        requires
            from.valid(),
            to.valid(),
            self@.at_pos(from) is Some,
        ensures
            b@ == after(self@, from, to, promo),
    {
        proof {
            use_type_invariant(self);
        }
        let ghost v = self@;
        let side = self.current_player;
        let f0 = from.file as i32;
        let r0 = from.rank as i32;
        let f1 = to.file as i32;
        let r1 = to.rank as i32;
        let p = self.at(f0, r0).unwrap();
        let target = self.at(f1, r1);
        let landed = match promo {
            Some(k) => Piece { piece_type: k, player: p.player },
            None => p,
        };
        let pawn = p.piece_type == PieceType::Pawn;
        let en_passant = pawn && f0 != f1 && target.is_none();
        let castling = p.piece_type == PieceType::King && (f1 - f0 == 2 || f0 - f1 == 2);
        let mut squares = copy_cells(&self.squares);
        squares.set((r0 * 8 + f0) as usize, None);
        squares.set((r1 * 8 + f1) as usize, Some(landed));
        if en_passant {
            squares.set((r0 * 8 + f1) as usize, None);
        }
        if castling {
            let rook = Some(Piece { piece_type: PieceType::Rook, player: p.player });
            if f1 == 6 {
                squares.set((r0 * 8 + 7) as usize, None);
                squares.set((r0 * 8 + 5) as usize, rook);
            } else {
                squares.set((r0 * 8) as usize, None);
                squares.set((r0 * 8 + 3) as usize, rook);
            }
        }
        assert(squares@ =~= squares_after(v, from, to, promo));
        let c = self.castling_rights;
        let touches = |f: u8, r: u8| -> (b: bool)
            ensures
                b == ((from.file == f && from.rank == r) || (to.file == f && to.rank == r)),
        {
            (from.file == f && from.rank == r) || (to.file == f && to.rank == r)
        };
        let rights = CastlingRights {
            white_kingside: c.white_kingside && !touches(4, 0) && !touches(7, 0),
            white_queenside: c.white_queenside && !touches(4, 0) && !touches(0, 0),
            black_kingside: c.black_kingside && !touches(4, 7) && !touches(7, 7),
            black_queenside: c.black_queenside && !touches(4, 7) && !touches(0, 7),
        };
        assert(rights == rights_after(c, from, to));
        let en_passant_target = if pawn && (r1 - r0 == 2 || r0 - r1 == 2) {
            Some(Position { file: from.file, rank: (from.rank + to.rank) / 2 })
        } else {
            None
        };
        let halfmove_clock = if pawn || target.is_some() || en_passant {
            0
        } else if self.halfmove_clock == u32::MAX {
            self.halfmove_clock
        } else {
            self.halfmove_clock + 1
        };
        let move_count = if side == Player::Black && self.move_count < u32::MAX {
            self.move_count + 1
        } else {
            self.move_count
        };
        let history = if pawn || target.is_some() || en_passant {
            let h: Vec<Snapshot> = Vec::new();
            assert(h@.map_values(|s: Snapshot| s@) =~= Seq::<PositionKey>::empty());
            h
        } else {
            let mut h = copy_history(&self.history);
            let ghost before = h@;
            h.push(self.snapshot());
            assert(h@.map_values(|s: Snapshot| s@) =~= before.map_values(|s: Snapshot| s@).push(v.key()));
            h
        };
        Board {
            squares,
            current_player: side.opposite(),
            move_count,
            halfmove_clock,
            castling_rights: rights,
            en_passant_target,
            history,
        }
    }

    /// Whether the move is legal for the side to move.
    fn legal_triple(&self, from: Position, to: Position, promo: Option<PieceType>) -> (b: bool)
        ensures
            b == legal(self@, from, to, promo),
    {
        if !self.fits_pattern(from, to, promo) {
            return false;
        }
        let next = self.played(from, to, promo);
        !next.is_in_check(self.current_player)
    }

    /// Whether the move is among the legal moves: squares and promotion decide,
    /// the flags of the move do not.
    pub fn is_legal_move(&self, chess_move: &Move) -> (b: bool)
        ensures
            b == legal(self@, chess_move.source(), chess_move.target(), chess_move.promo()),
    {
        self.legal_triple(chess_move.from(), chess_move.to(), chess_move.promotion())
    }

    /// Plays a legal move; an illegal one is refused and the board is left as it was.
    pub fn make_move(&mut self, chess_move: &Move) -> (r: Result<(), ChessError>)
        ensures
            legal(old(self)@, chess_move.source(), chess_move.target(), chess_move.promo()) ==> {
                &&& r is Ok
                &&& final(self)@ == after(old(self)@, chess_move.source(), chess_move.target(),
                    chess_move.promo())
            },
            !legal(old(self)@, chess_move.source(), chess_move.target(), chess_move.promo()) ==> {
                &&& r == Err::<(), ChessError>(ChessError::IllegalMove)
                &&& final(self)@ == old(self)@
            },
            consistent(old(self)@) ==> consistent(final(self)@),
    {
        let from = chess_move.from();
        let to = chess_move.to();
        let promo = chess_move.promotion();
        if !self.legal_triple(from, to, promo) {
            return Err(ChessError::IllegalMove);
        }
        proof {
            use_type_invariant(&*self);
            if consistent(self@) {
                lemma_moves_keep_board_consistent(self@, from, to, promo);
            }
        }
        *self = self.played(from, to, promo);
        Ok(())
    }
    /// The legal move from `from` to `to` with `promo`, its flags set.
    fn describe_move(&self, from: Position, to: Position, promo: Option<PieceType>) -> (m: Move)
        requires
            from.valid(),
            to.valid(),
        ensures
            names(m, from, to, promo),
            m.capture_flag() == captures(self@, from, to),
            m.castling_flag() == castles(self@, from, to),
            m.en_passant_flag() == en_passant_capture(self@, from, to),
    {
        let f0 = from.file as i32;
        let r0 = from.rank as i32;
        let f1 = to.file as i32;
        let r1 = to.rank as i32;
        let mover = self.at(f0, r0);
        let target_empty = self.at(f1, r1).is_none();
        let (pawn, king) = match mover {
            Some(p) => (p.piece_type == PieceType::Pawn, p.piece_type == PieceType::King),
            None => (false, false),
        };
        let en_passant = pawn && f0 != f1 && target_empty;
        let mut m = Move::new(from, to, promo);
        if !target_empty || en_passant {
            m = m.with_capture();
        }
        if king && (f1 - f0 == 2 || f0 - f1 == 2) {
            m = m.with_castling();
        }
        if en_passant {
            m = m.with_en_passant();
        }
        m
    }

    /// Appends the move to `moves` if it is legal.
    fn consider(&self, from: Position, to: Position, promo: Option<PieceType>, moves: &mut Vec<Move>)
        requires
            from.valid(),
            to.valid(),
            forall|i: int| 0 <= i < old(moves).len() ==> describes(self@, #[trigger] old(moves)[i]),
        ensures
            forall|i: int| 0 <= i < final(moves).len() ==> describes(self@, #[trigger] final(moves)[i]),
            forall|f: Position, t: Position, p: Option<PieceType>|
                lists(old(moves)@, f, t, p) ==> #[trigger] lists(final(moves)@, f, t, p),
            legal(self@, from, to, promo) ==> lists(final(moves)@, from, to, promo),
            final(moves).len() == old(moves).len() || final(moves).len() == old(moves).len() + 1,
            forall|k: int| 0 <= k < old(moves).len() ==> final(moves)@[k] == old(moves)@[k],
            final(moves).len() > old(moves).len() ==> names(final(moves)@[old(moves).len() as int], from, to, promo),
    {
        if self.legal_triple(from, to, promo) {
            let m = self.describe_move(from, to, promo);
            proof {
                lemma_lists_push(moves@, m);
            }
            moves.push(m);
        }
    }

    /// Appends every legal move from `from` to `to`: one per promotion choice
    /// for a pawn reaching its last rank, one otherwise.
    fn add_moves_between(&self, from: Position, to: Position, moves: &mut Vec<Move>)
        requires
            from.valid(),
            to.valid(),
            forall|i: int| 0 <= i < old(moves).len() ==> describes(self@, #[trigger] old(moves)[i]),
        ensures
            forall|i: int| 0 <= i < final(moves).len() ==> describes(self@, #[trigger] final(moves)[i]),
            forall|f: Position, t: Position, p: Option<PieceType>|
                lists(old(moves)@, f, t, p) ==> #[trigger] lists(final(moves)@, f, t, p),
            forall|p: Option<PieceType>| legal(self@, from, to, p) ==> #[trigger] lists(final(moves)@, from, to, p),
            old(moves).len() <= final(moves).len(),
            forall|k: int| 0 <= k < old(moves).len() ==> final(moves)@[k] == old(moves)@[k],
            forall|k: int| old(moves).len() <= k < final(moves).len() ==> {
                &&& (#[trigger] final(moves)@[k]).source() == from
                &&& final(moves)@[k].target() == to
            },
            forall|a: int, b: int| old(moves).len() <= a < b < final(moves).len()
                ==> (#[trigger] final(moves)@[a]).promo() != (#[trigger] final(moves)@[b]).promo(),
    {
        let ghost start = moves@;
        self.consider(from, to, None, moves);
        let ghost s1 = moves@;
        assert(forall|k: int| start.len() <= k < s1.len() ==> s1[k].promo() == None::<PieceType>);
        self.consider(from, to, Some(PieceType::Queen), moves);
        let ghost s2 = moves@;
        assert(forall|k: int| start.len() <= k < s2.len() ==> s2[k].promo() == None::<PieceType>
            || s2[k].promo() == Some(PieceType::Queen));
        self.consider(from, to, Some(PieceType::Rook), moves);
        let ghost s3 = moves@;
        assert(forall|k: int| start.len() <= k < s3.len() ==> s3[k].promo() == None::<PieceType>
            || s3[k].promo() == Some(PieceType::Queen) || s3[k].promo() == Some(PieceType::Rook));
        self.consider(from, to, Some(PieceType::Bishop), moves);
        let ghost s4 = moves@;
        assert(forall|k: int| start.len() <= k < s4.len() ==> s4[k].promo() == None::<PieceType>
            || s4[k].promo() == Some(PieceType::Queen) || s4[k].promo() == Some(PieceType::Rook)
            || s4[k].promo() == Some(PieceType::Bishop));
        self.consider(from, to, Some(PieceType::Knight), moves);
        assert forall|p: Option<PieceType>| legal(self@, from, to, p) implies #[trigger] lists(moves@, from, to, p) by {
            if p == Some(PieceType::King) || p == Some(PieceType::Pawn) {
                assert(!can_move(self@, from, to, p));
            }
        }
    }

    /// Every legal move of the side to move, each once, with its flags set.
    pub fn get_legal_moves(&self) -> (moves: Vec<Move>)
        ensures
            forall|i: int| 0 <= i < moves.len() ==> describes(self@, #[trigger] moves[i]),
            forall|from: Position, to: Position, promo: Option<PieceType>|
                #[trigger] legal(self@, from, to, promo) ==> lists(moves@, from, to, promo),
            forall|a: int, b: int| 0 <= a < b < moves.len() ==> !names(
                #[trigger] moves@[b],
                (#[trigger] moves@[a]).source(),
                moves@[a].target(),
                moves@[a].promo(),
            ),
    {
        let mut moves: Vec<Move> = Vec::new();
        let mut i: u8 = 0;
        while i < 64
            invariant
                0 <= i <= 64,
                forall|k: int| 0 <= k < moves.len() ==> describes(self@, #[trigger] moves[k]),
                forall|from: Position, to: Position, promo: Option<PieceType>|
                    #[trigger] legal(self@, from, to, promo) && from.index() < i ==> lists(moves@, from, to, promo),
                forall|k: int| 0 <= k < moves.len() ==> (#[trigger] moves@[k]).source().index() < i,
                forall|a: int, b: int| 0 <= a < b < moves.len() ==> !names(
                    #[trigger] moves@[b],
                    (#[trigger] moves@[a]).source(),
                    moves@[a].target(),
                    moves@[a].promo(),
                ),
            decreases 64 - i,
        {
            let from = Position { file: i % 8, rank: i / 8 };
            let own = match self.at(from.file as i32, from.rank as i32) {
                Some(p) => p.player == self.current_player,
                None => false,
            };
            if own {
                let mut j: u8 = 0;
                while j < 64
                    invariant
                        0 <= i < 64,
                        0 <= j <= 64,
                        from == (Position { file: i % 8, rank: i / 8 }),
                        forall|k: int| 0 <= k < moves.len() ==> describes(self@, #[trigger] moves[k]),
                        forall|f: Position, t: Position, promo: Option<PieceType>|
                            #[trigger] legal(self@, f, t, promo) && (f.index() < i || (f.index() == i && t.index() < j))
                                ==> lists(moves@, f, t, promo),
                        forall|k: int| 0 <= k < moves.len() ==> (#[trigger] moves@[k]).source().index() < i
                            || (moves@[k].source().index() == i && moves@[k].target().index() < j),
                        forall|a: int, b: int| 0 <= a < b < moves.len() ==> !names(
                            #[trigger] moves@[b],
                            (#[trigger] moves@[a]).source(),
                            moves@[a].target(),
                            moves@[a].promo(),
                        ),
                    decreases 64 - j,
                {
                    let to = Position { file: j % 8, rank: j / 8 };
                    let ghost before = moves@;
                    self.add_moves_between(from, to, &mut moves);
                    assert(from.index() == i && to.index() == j);
                    assert forall|a: int, b: int| 0 <= a < b < moves.len() implies !names(
                        #[trigger] moves@[b],
                        (#[trigger] moves@[a]).source(),
                        moves@[a].target(),
                        moves@[a].promo(),
                    ) by {
                        if b >= before.len() && a < before.len() {
                            assert(moves@[a] == before[a]);
                            assert(before[a].source().index() < i || before[a].target().index() < j);
                        } else if b < before.len() {
                            assert(moves@[a] == before[a] && moves@[b] == before[b]);
                        }
                    }
                    assert forall|k: int| 0 <= k < moves.len() implies (#[trigger] moves@[k]).source().index() < i
                        || (moves@[k].source().index() == i && moves@[k].target().index() < j + 1) by {
                        if k < before.len() {
                            assert(moves@[k] == before[k]);
                        }
                    }
                    assert forall|f: Position, t: Position, promo: Option<PieceType>|
                        #[trigger] legal(self@, f, t, promo) && (f.index() < i || (f.index() == i && t.index() < j + 1))
                            implies lists(moves@, f, t, promo) by {
                        if f.index() == i && t.index() == j {
                            lemma_index_unique(f, from);
                            lemma_index_unique(t, to);
                        }
                    }
                    j += 1;
                }
            }
            assert forall|f: Position, t: Position, promo: Option<PieceType>|
                #[trigger] legal(self@, f, t, promo) && f.index() < i + 1 implies lists(moves@, f, t, promo) by {
                if f.index() == i {
                    lemma_index_unique(f, from);
                }
            }
            i += 1;
        }
        moves
    }

    /// Whether only kings remain, with at most one bishop or knight.
    fn lacks_mating_material(&self) -> (b: bool)
        ensures
            b == insufficient_material(self@),
    {
        proof {
            use_type_invariant(self);
        }
        let mut minors: u32 = 0;
        let mut i: usize = 0;
        while i < 64
            invariant
                0 <= i <= 64,
                self.squares@.len() == 64,
                minors == minor_count(self.squares@.subrange(0, i as int)),
                minors <= i,
                forall|k: int| 0 <= k < i ==> is_light(#[trigger] self.squares@[k]),
            decreases 64 - i,
        {
            let sq = self.squares[i];
            assert(self.squares@.subrange(0, i + 1).drop_last() =~= self.squares@.subrange(0, i as int));
            match sq {
                Some(p) => {
                    if p.piece_type == PieceType::Bishop || p.piece_type == PieceType::Knight {
                        minors += 1;
                    } else if p.piece_type != PieceType::King {
                        return false;
                    }
                },
                None => {},
            }
            i += 1;
        }
        assert(self.squares@.subrange(0, 64) =~= self.squares@);
        minors <= 1
    }

    /// Whether the current position stood twice before since the last pawn
    /// move or capture.
    fn repeated_thrice(&self) -> (b: bool)
        ensures
            b == threefold_repetition(self@),
    {
        let ghost h = self@.history;
        let ghost k = self@.key();
        let mut count: usize = 0;
        let mut i: usize = 0;
        while i < self.history.len()
            invariant
                0 <= i <= self.history.len(),
                h == self.history@.map_values(|s: Snapshot| s@),
                k == self@.key(),
                count == occurrences(h.subrange(0, i as int), k),
                count <= i,
            decreases self.history.len() - i,
        {
            let s = &self.history[i];
            assert(h.subrange(0, i + 1).drop_last() =~= h.subrange(0, i as int));
            assert(h[i as int] == s@);
            if same_cells(&s.squares, &self.squares) && s.side == self.current_player
                && s.castling == self.castling_rights && s.en_passant == self.en_passant_target {
                count += 1;
            }
            i += 1;
        }
        assert(h.subrange(0, h.len() as int) =~= h);
        count >= 2
    }

    /// Whether each side has exactly one king.
    pub fn has_one_king_each(&self) -> (b: bool)
        ensures
            b == one_king_each(self@),
    {
        proof {
            use_type_invariant(self);
        }
        let mut white: usize = 0;
        let mut black: usize = 0;
        let mut i: usize = 0;
        while i < 64
            invariant
                0 <= i <= 64,
                self.squares@.len() == 64,
                white == king_count(self.squares@.subrange(0, i as int), Player::White),
                black == king_count(self.squares@.subrange(0, i as int), Player::Black),
                white <= i,
                black <= i,
            decreases 64 - i,
        {
            assert(self.squares@.subrange(0, i + 1).drop_last() =~= self.squares@.subrange(0, i as int));
            if let Some(p) = self.squares[i] {
                if p.piece_type == PieceType::King {
                    match p.player {
                        Player::White => {
                            white += 1;
                        },
                        Player::Black => {
                            black += 1;
                        },
                    }
                }
            }
            i += 1;
        }
        assert(self.squares@.subrange(0, 64) =~= self.squares@);
        white == 1 && black == 1
    }

    /// Whether each side has exactly one king and the en-passant target, if
    /// any, is the empty square just behind an enemy pawn on the rank a double
    /// step reaches.
    pub fn is_consistent(&self) -> (b: bool)
        ensures
            b == consistent(self@),
    {
        proof {
            use_type_invariant(self);
        }
        if !self.has_one_king_each() {
            return false;
        }
        match self.en_passant_target {
            None => true,
            Some(p) => {
                let (rank, behind): (u8, u8) = match self.current_player {
                    Player::White => (5, 4),
                    Player::Black => (2, 3),
                };
                if p.rank != rank || p.file > 7 {
                    return false;
                }
                let empty = self.at(p.file as i32, rank as i32).is_none();
                let pawn = match self.at(p.file as i32, behind as i32) {
                    Some(q) => q.piece_type == PieceType::Pawn && q.player == self.current_player.opposite(),
                    None => false,
                };
                empty && pawn
            },
        }
    }

    /// The state of the game for the side to move.
    pub fn game_state(&self) -> (r: GameState)
        ensures
            r == outcome(self@),
    {
        let moves = self.get_legal_moves();
        if moves.len() == 0 {
            assert(!has_legal_move(self@));
            if self.is_in_check(self.current_player) {
                GameState::Checkmate
            } else {
                GameState::Stalemate
            }
        } else {
            assert(describes(self@, moves[0]));
            assert(legal(self@, moves[0].source(), moves[0].target(), moves[0].promo()));
            if self.halfmove_clock >= 100 || self.lacks_mating_material() || self.repeated_thrice() {
                GameState::Draw
            } else {
                GameState::InProgress
            }
        }
    }

    fn setup_initial_position() -> (squares: Vec<Option<Piece>>)
        ensures
            squares@ == Seq::new(64, |i: int| initial_square(i)),
    {
        let mut squares: Vec<Option<Piece>> = Vec::new();
        let mut i: u8 = 0;
        while i < 64
            invariant
                0 <= i <= 64,
                squares@.len() == i,
                forall|k: int| 0 <= k < i ==> squares@[k] == initial_square(k),
            decreases 64 - i,
        {
            let f = i % 8;
            let r = i / 8;
            let back = if f == 0 || f == 7 {
                PieceType::Rook
            } else if f == 1 || f == 6 {
                PieceType::Knight
            } else if f == 2 || f == 5 {
                PieceType::Bishop
            } else if f == 3 {
                PieceType::Queen
            } else {
                PieceType::King
            };
            let sq = if r == 0 {
                Some(Piece::new(back, Player::White))
            } else if r == 1 {
                Some(Piece::new(PieceType::Pawn, Player::White))
            } else if r == 6 {
                Some(Piece::new(PieceType::Pawn, Player::Black))
            } else if r == 7 {
                Some(Piece::new(back, Player::Black))
            } else {
                None
            };
            squares.push(sq);
            i += 1;
        }
        assert(squares@ =~= Seq::new(64, |i: int| initial_square(i)));
        squares
    }

    /// A board with the given parts.
    pub(crate) fn from_parts(
        squares: Vec<Option<Piece>>,
        side: Player,
        castling: CastlingRights,
        en_passant: Option<Position>,
        halfmove: u32,
        fullmove: u32,
    ) -> (b: Board)
        requires
            squares@.len() == 64,
            en_passant matches Some(p) ==> p.valid(),
        ensures
            b@ == (BoardView {
                squares: squares@,
                side,
                castling,
                en_passant,
                halfmove,
                fullmove,
                history: Seq::empty(),
            }),
    {
        let history: Vec<Snapshot> = Vec::new();
        assert(history@.map_values(|s: Snapshot| s@) =~= Seq::<PositionKey>::empty());
        Board {
            squares,
            current_player: side,
            move_count: fullmove,
            halfmove_clock: halfmove,
            castling_rights: castling,
            en_passant_target: en_passant,
            history,
        }
    }

    /// A board in the standard starting position, White to move.
    pub fn new() -> (b: Board)
        ensures
            b@ == initial_view(),
            consistent(b@),
    {
        proof {
            let sq = initial_view().squares;
            assert forall|j: int| 0 <= j < sq.len() && j != 4 implies king_at(#[trigger] sq[j], Player::White) == 0 by {
                if j / 8 == 0 {
                    assert(j % 8 != 4);
                }
            }
            assert forall|j: int| 0 <= j < sq.len() && j != 60 implies king_at(#[trigger] sq[j], Player::Black) == 0 by {
                if j / 8 == 7 {
                    assert(j % 8 != 4);
                }
            }
            lemma_king_count_one(sq, 4, Player::White);
            lemma_king_count_one(sq, 60, Player::Black);
        }
        let history: Vec<Snapshot> = Vec::new();
        assert(history@.map_values(|s: Snapshot| s@) =~= Seq::<PositionKey>::empty());
        Board {
            squares: Board::setup_initial_position(),
            current_player: Player::White,
            move_count: 1,
            halfmove_clock: 0,
            castling_rights: CastlingRights {
                white_kingside: true,
                white_queenside: true,
                black_kingside: true,
                black_queenside: true,
            },
            en_passant_target: None,
            history,
        }
    }

    pub fn current_player(&self) -> (r: Player)
        ensures
            r == self@.side,
    {
        self.current_player
    }

    /// The fullmove number: 1 at the start, one more after each move of Black.
    pub fn move_count(&self) -> (r: u32)
        ensures
            r == self@.fullmove,
    {
        self.move_count
    }

    /// Half-moves since the last pawn move or capture.
    pub fn halfmove_clock(&self) -> (r: u32)
        ensures
            r == self@.halfmove,
    {
        self.halfmove_clock
    }

    pub fn castling_rights(&self) -> (r: CastlingRights)
        ensures
            r == self@.castling,
    {
        self.castling_rights
    }

    /// The square a pawn skipped on the previous half-move, if it advanced two squares.
    pub fn en_passant_target(&self) -> (r: Option<Position>)
        ensures
            r == self@.en_passant,
            r matches Some(p) ==> p.valid(),
    {
        proof {
            use_type_invariant(self);
        }
        self.en_passant_target
    }
}


fn same_contents(a: Option<Piece>, b: Option<Piece>) -> (r: bool)
    ensures
        r == (a == b),
{
    match (a, b) {
        (Some(p), Some(q)) => p.piece_type == q.piece_type && p.player == q.player,
        (None, None) => true,
        _ => false,
    }
}

impl Clone for Board {
    /// A copy of the board, earlier positions included.
    fn clone(&self) -> (r: Board)
        ensures
            r@ == self@,
    {
        proof {
            use_type_invariant(self);
        }
        Board {
            squares: copy_cells(&self.squares),
            current_player: self.current_player,
            move_count: self.move_count,
            halfmove_clock: self.halfmove_clock,
            castling_rights: self.castling_rights,
            en_passant_target: self.en_passant_target,
            history: copy_history(&self.history),
        }
    }
}

impl PartialEq for Board {
    /// Two boards are equal when they hold the same position with the same
    /// clocks; the positions that led there do not count.
    fn eq(&self, other: &Board) -> (r: bool) {
        proof {
            use_type_invariant(self);
            use_type_invariant(other);
        }
        if self.current_player != other.current_player || self.move_count != other.move_count
            || self.halfmove_clock != other.halfmove_clock || self.castling_rights != other.castling_rights
            || self.en_passant_target != other.en_passant_target {
            return false;
        }
        let mut i: usize = 0;
        while i < 64
            invariant
                0 <= i <= 64,
                self.squares@.len() == 64,
                other.squares@.len() == 64,
                forall|k: int| 0 <= k < i ==> self.squares@[k] == other.squares@[k],
            decreases 64 - i,
        {
            if !same_contents(self.squares[i], other.squares[i]) {
                return false;
            }
            i += 1;
        }
        assert(self.squares@ =~= other.squares@);
        assert(self@.fresh() == other@.fresh());
        true
    }
}

impl vstd::std_specs::cmp::PartialEqSpecImpl for Board {
    open spec fn obeys_eq_spec() -> bool {
        true
    }

    open spec fn eq_spec(&self, other: &Board) -> bool {
        self@.same_state(other@)
    }
}

} // verus!
