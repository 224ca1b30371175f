//! The rules of chess as spec functions over a mathematical view of the board.

use vstd::prelude::*;
use crate::pieces::{Piece, PieceType, Player};
use crate::moves::Move;
use crate::position::Position;

verus! {

/// Which castling moves each side may still make.
#[derive(Debug, Clone, Copy, PartialEq, Eq, Structural)]
pub struct CastlingRights {
    pub white_kingside: bool,
    pub white_queenside: bool,
    pub black_kingside: bool,
    pub black_queenside: bool,
}

/// What makes two positions the same for the repetition rule: placement, side
/// to move, castling rights and en-passant target.
pub type PositionKey = (Seq<Option<Piece>>, Player, CastlingRights, Option<Position>);

/// The full game state: `squares[8 * rank + file]` holds the piece on that
/// square; `history` holds the keys of the earlier positions since the last
/// pawn move or capture, oldest first.
pub ghost struct BoardView {
    pub squares: Seq<Option<Piece>>,
    pub side: Player,
    pub castling: CastlingRights,
    pub en_passant: Option<Position>,
    pub halfmove: u32,
    pub fullmove: u32,
    pub history: Seq<PositionKey>,
}

pub open spec fn on_board(f: int, r: int) -> bool {
    0 <= f < 8 && 0 <= r < 8
}

pub open spec fn abs(x: int) -> int {
    if x < 0 { -x } else { x }
}

pub open spec fn sign(x: int) -> int {
    if x < 0 { -1 } else if x > 0 { 1 } else { 0 }
}

pub open spec fn max(a: int, b: int) -> int {
    if a < b { b } else { a }
}

/// Rank direction in which pawns of `s` advance.
pub open spec fn forward(s: Player) -> int {
    match s {
        Player::White => 1,
        Player::Black => -1,
    }
}

/// Rank on which the pawns of `s` start.
pub open spec fn pawn_rank(s: Player) -> int {
    match s {
        Player::White => 1,
        Player::Black => 6,
    }
}

/// Rank on which the king and rooks of `s` start.
pub open spec fn home_rank(s: Player) -> int {
    match s {
        Player::White => 0,
        Player::Black => 7,
    }
}

/// Rank on which the pawns of `s` promote.
pub open spec fn last_rank(s: Player) -> int {
    match s {
        Player::White => 7,
        Player::Black => 0,
    }
}

pub open spec fn same_square(p: Position, f: int, r: int) -> bool {
    p.file as int == f && p.rank as int == r
}

impl BoardView {
    pub open spec fn wf(self) -> bool {
        &&& self.squares.len() == 64
        &&& (self.en_passant matches Some(p) ==> p.valid())
    }

    pub open spec fn key(self) -> PositionKey {
        (self.squares, self.side, self.castling, self.en_passant)
    }

    /// The same state without its history.
    pub open spec fn fresh(self) -> BoardView {
        BoardView { history: Seq::empty(), ..self }
    }

    /// Two states hold the same position, clocks included; their histories
    /// may differ.
    pub open spec fn same_state(self, o: BoardView) -> bool {
        self.fresh() == o.fresh()
    }

    pub open spec fn at(self, f: int, r: int) -> Option<Piece> {
        self.squares[r * 8 + f]
    }

    pub open spec fn at_pos(self, p: Position) -> Option<Piece> {
        self.at(p.file as int, p.rank as int)
    }

    pub open spec fn kingside(self, s: Player) -> bool {
        match s {
            Player::White => self.castling.white_kingside,
            Player::Black => self.castling.black_kingside,
        }
    }

    pub open spec fn queenside(self, s: Player) -> bool {
        match s {
            Player::White => self.castling.white_queenside,
            Player::Black => self.castling.black_queenside,
        }
    }
}

/// Every square strictly between `(f, r)` and `(tf, tr)` is empty, walking one
/// step at a time towards the target.
pub open spec fn path_clear(v: BoardView, f: int, r: int, tf: int, tr: int) -> bool
    decreases max(abs(tf - f), abs(tr - r)),
{
    if f == tf && r == tr {
        true
    } else {
        let nf = f + sign(tf - f);
        let nr = r + sign(tr - r);
        if nf == tf && nr == tr {
            true
        } else {
            v.at(nf, nr) is None && path_clear(v, nf, nr, tf, tr)
        }
    }
}

/// A piece of kind `k` and side `s` on `(f0, r0)` attacks `(f1, r1)` under the
/// current occupancy.
pub open spec fn reaches(v: BoardView, k: PieceType, s: Player, f0: int, r0: int, f1: int, r1: int) -> bool {
    let df = f1 - f0;
    let dr = r1 - r0;
    match k {
        PieceType::Pawn => dr == forward(s) && abs(df) == 1,
        PieceType::Knight => (abs(df) == 1 && abs(dr) == 2) || (abs(df) == 2 && abs(dr) == 1),
        PieceType::Bishop => abs(df) == abs(dr) && df != 0 && path_clear(v, f0, r0, f1, r1),
        PieceType::Rook => (df == 0) != (dr == 0) && path_clear(v, f0, r0, f1, r1),
        PieceType::Queen => ((abs(df) == abs(dr) && df != 0) || (df == 0) != (dr == 0))
            && path_clear(v, f0, r0, f1, r1),
        PieceType::King => abs(df) <= 1 && abs(dr) <= 1 && !(df == 0 && dr == 0),
    }
}

/// The piece on square index `a` belongs to `s` and attacks `(f, r)`.
pub open spec fn attacker(v: BoardView, a: int, f: int, r: int, s: Player) -> bool {
    match v.squares[a] {
        Some(p) => p.player == s && reaches(v, p.piece_type, s, a % 8, a / 8, f, r),
        None => false,
    }
}

/// Some piece of `s` attacks `(f, r)`.
pub open spec fn attacked_by(v: BoardView, f: int, r: int, s: Player) -> bool {
    exists|a: int| 0 <= a < 64 && #[trigger] attacker(v, a, f, r, s)
}

/// Square index `k` holds a king of `s` that the other side attacks.
pub open spec fn king_attacked(v: BoardView, k: int, s: Player) -> bool {
    v.squares[k] == Some(Piece { piece_type: PieceType::King, player: s })
        && attacked_by(v, k % 8, k / 8, s.opp())
}

/// The king of `s` is attacked.
pub open spec fn in_check(v: BoardView, s: Player) -> bool {
    exists|k: int| 0 <= k < 64 && #[trigger] king_attacked(v, k, s)
}

/// A pawn of the side to move on `from` may go to `to`: one step forward to an
/// empty square, two steps from its starting rank over two empty squares, or
/// one step diagonally onto an enemy piece or onto the en-passant target (with
/// the enemy pawn beside it).
pub open spec fn pawn_move(v: BoardView, from: Position, to: Position) -> bool {
    let s = v.side;
    let df = to.file as int - from.file as int;
    let dr = to.rank as int - from.rank as int;
    ||| df == 0 && dr == forward(s) && v.at_pos(to) is None
    ||| df == 0 && from.rank as int == pawn_rank(s) && dr == 2 * forward(s)
        && v.at(from.file as int, from.rank as int + forward(s)) is None && v.at_pos(to) is None
    ||| abs(df) == 1 && dr == forward(s) && (v.at_pos(to) is Some || (v.en_passant == Some(to)
        && v.at(to.file as int, from.rank as int) == Some(Piece { piece_type: PieceType::Pawn, player: s.opp() })))
}

/// The promotion choice fits the move: a kind a pawn may become when it reaches
/// the last rank, and none otherwise.
pub open spec fn promotion_fits(s: Player, to: Position, promo: Option<PieceType>) -> bool {
    if to.rank as int == last_rank(s) {
        match promo {
            Some(k) => k == PieceType::Queen || k == PieceType::Rook || k == PieceType::Bishop
                || k == PieceType::Knight,
            None => false,
        }
    } else {
        promo is None
    }
}

/// Castling of the side to move from `from` to `to`: the king stands on its
/// start square, the right is kept, the rook stands in its corner, the squares
/// between king and rook are empty, and the king's start, transit and end
/// squares are not attacked.
pub open spec fn castle_move(v: BoardView, from: Position, to: Position) -> bool {
    let s = v.side;
    let h = home_rank(s);
    let rook = Some(Piece { piece_type: PieceType::Rook, player: s });
    &&& same_square(from, 4, h)
    &&& to.rank as int == h
    &&& !attacked_by(v, 4, h, s.opp())
    &&& {
        ||| to.file == 6 && v.kingside(s) && v.at(5, h) is None && v.at(6, h) is None && v.at(7, h) == rook
            && !attacked_by(v, 5, h, s.opp()) && !attacked_by(v, 6, h, s.opp())
        ||| to.file == 2 && v.queenside(s) && v.at(1, h) is None && v.at(2, h) is None && v.at(3, h) is None
            && v.at(0, h) == rook && !attacked_by(v, 3, h, s.opp()) && !attacked_by(v, 2, h, s.opp())
    }
}

/// The move fits the movement pattern of the piece of the side to move on
/// `from`, given the occupancy, and captures neither a piece of its own side
/// nor a king.
/// It does not consider whether the mover's king is left attacked.
pub open spec fn can_move(v: BoardView, from: Position, to: Position, promo: Option<PieceType>) -> bool {
    &&& from.valid()
    &&& to.valid()
    &&& match v.at_pos(from) {
        None => false,
        Some(p) => {
            &&& p.player == v.side
            &&& !(v.at_pos(to) matches Some(q) && q.player == v.side)
            &&& !(v.at_pos(to) matches Some(q) && q.piece_type == PieceType::King)
            &&& match p.piece_type {
                PieceType::Pawn => pawn_move(v, from, to) && promotion_fits(v.side, to, promo),
                PieceType::King => promo is None && (reaches(v, PieceType::King, v.side, from.file as int,
                    from.rank as int, to.file as int, to.rank as int) || castle_move(v, from, to)),
                k => promo is None && reaches(v, k, v.side, from.file as int, from.rank as int,
                    to.file as int, to.rank as int),
            }
        },
    }
}

pub open spec fn piece_kind_is(v: BoardView, p: Position, k: PieceType) -> bool {
    v.at_pos(p) matches Some(q) && q.piece_type == k
}

/// The move is a pawn capturing en passant: a diagonal pawn step to an empty square.
pub open spec fn en_passant_capture(v: BoardView, from: Position, to: Position) -> bool {
    piece_kind_is(v, from, PieceType::Pawn) && from.file != to.file && v.at_pos(to) is None
}

/// The move takes a piece.
pub open spec fn captures(v: BoardView, from: Position, to: Position) -> bool {
    v.at_pos(to) is Some || en_passant_capture(v, from, to)
}

/// The move is a king moving two files: castling.
pub open spec fn castles(v: BoardView, from: Position, to: Position) -> bool {
    piece_kind_is(v, from, PieceType::King) && abs(to.file as int - from.file as int) == 2
}

pub open spec fn idx(f: int, r: int) -> int {
    r * 8 + f
}

/// The move starts or ends on `(f, r)`.
pub open spec fn touches(from: Position, to: Position, f: int, r: int) -> bool {
    same_square(from, f, r) || same_square(to, f, r)
}

/// Castling rights after a move: a right is lost for good once its king's or
/// rook's home square is left or captured on.
pub open spec fn rights_after(c: CastlingRights, from: Position, to: Position) -> CastlingRights {
    CastlingRights {
        white_kingside: c.white_kingside && !touches(from, to, 4, 0) && !touches(from, to, 7, 0),
        white_queenside: c.white_queenside && !touches(from, to, 4, 0) && !touches(from, to, 0, 0),
        black_kingside: c.black_kingside && !touches(from, to, 4, 7) && !touches(from, to, 7, 7),
        black_queenside: c.black_queenside && !touches(from, to, 4, 7) && !touches(from, to, 0, 7),
    }
}

pub open spec fn saturating_inc(n: u32) -> u32 {
    if n == u32::MAX { n } else { (n + 1) as u32 }
}

/// Piece placement after moving the piece on `from` to `to`: the mover lands
/// (promoted, if asked), a pawn taken en passant leaves the square beside the
/// mover's start, and a castling rook jumps to the other side of the king.
pub open spec fn squares_after(v: BoardView, from: Position, to: Position, promo: Option<PieceType>) -> Seq<Option<Piece>> {
    let p = v.at_pos(from)->Some_0;
    let landed = match promo {
        Some(k) => Piece { piece_type: k, player: p.player },
        None => p,
    };
    let s1 = v.squares.update(from.index(), None).update(to.index(), Some(landed));
    let s2 = if en_passant_capture(v, from, to) {
        s1.update(idx(to.file as int, from.rank as int), None)
    } else {
        s1
    };
    let r = from.rank as int;
    let rook = Some(Piece { piece_type: PieceType::Rook, player: p.player });
    if castles(v, from, to) {
        if to.file as int == 6 {
            s2.update(idx(7, r), None).update(idx(5, r), rook)
        } else {
            s2.update(idx(0, r), None).update(idx(3, r), rook)
        }
    } else {
        s2
    }
}

/// The state after the side to move plays the piece on `from` to `to`.
pub open spec fn after(v: BoardView, from: Position, to: Position, promo: Option<PieceType>) -> BoardView {
    let pawn = piece_kind_is(v, from, PieceType::Pawn);
    BoardView {
        squares: squares_after(v, from, to, promo),
        side: v.side.opp(),
        castling: rights_after(v.castling, from, to),
        en_passant: if pawn && abs(to.rank as int - from.rank as int) == 2 {
            Some(Position { file: from.file, rank: ((from.rank as int + to.rank as int) / 2) as u8 })
        } else {
            None
        },
        halfmove: if pawn || captures(v, from, to) { 0 } else { saturating_inc(v.halfmove) },
        fullmove: if v.side == Player::Black { saturating_inc(v.fullmove) } else { v.fullmove },
        history: if pawn || captures(v, from, to) { Seq::empty() } else { v.history.push(v.key()) },
    }
}

/// A legal move of the side to move: it fits the piece's pattern and does not
/// leave the mover's own king attacked.
pub open spec fn legal(v: BoardView, from: Position, to: Position, promo: Option<PieceType>) -> bool {
    can_move(v, from, to, promo) && !in_check(after(v, from, to, promo), v.side)
}

/// The move goes from `from` to `to` with promotion `promo`.
pub open spec fn names(m: Move, from: Position, to: Position, promo: Option<PieceType>) -> bool {
    m.source() == from && m.target() == to && m.promo() == promo
}

/// Some move of the list goes from `from` to `to` with promotion `promo`.
pub open spec fn lists(moves: Seq<Move>, from: Position, to: Position, promo: Option<PieceType>) -> bool {
    exists|i: int| 0 <= i < moves.len() && #[trigger] names(moves[i], from, to, promo)
}

/// The move is legal and its flags tell what it does.
pub open spec fn describes(v: BoardView, m: Move) -> bool {
    &&& legal(v, m.source(), m.target(), m.promo())
    &&& m.capture_flag() == captures(v, m.source(), m.target())
    &&& m.castling_flag() == castles(v, m.source(), m.target())
    &&& m.en_passant_flag() == en_passant_capture(v, m.source(), m.target())
}

/// The side to move has a legal move.
pub open spec fn has_legal_move(v: BoardView) -> bool {
    exists|from: Position, to: Position, promo: Option<PieceType>| #[trigger] legal(v, from, to, promo)
}

pub open spec fn is_minor(o: Option<Piece>) -> bool {
    o matches Some(p) && (p.piece_type == PieceType::Bishop || p.piece_type == PieceType::Knight)
}

/// A king, a bishop, a knight, or an empty square.
pub open spec fn is_light(o: Option<Piece>) -> bool {
    match o {
        None => true,
        Some(p) => p.piece_type == PieceType::King || p.piece_type == PieceType::Bishop
            || p.piece_type == PieceType::Knight,
    }
}

/// Number of bishops and knights on the squares.
pub open spec fn minor_count(s: Seq<Option<Piece>>) -> nat
    decreases s.len(),
{
    if s.len() == 0 {
        0
    } else {
        minor_count(s.drop_last()) + if is_minor(s.last()) { 1nat } else { 0nat }
    }
}

/// Neither side can ever mate: only kings remain, with at most one bishop or
/// knight beside them.
pub open spec fn insufficient_material(v: BoardView) -> bool {
    &&& forall|i: int| 0 <= i < v.squares.len() ==> is_light(#[trigger] v.squares[i])
    &&& minor_count(v.squares) <= 1
}

/// How often `k` occurs in `h`.
pub open spec fn occurrences(h: Seq<PositionKey>, k: PositionKey) -> nat
    decreases h.len(),
{
    if h.len() == 0 {
        0
    } else {
        occurrences(h.drop_last(), k) + if h.last() == k { 1nat } else { 0nat }
    }
}

/// The current position is on the board for the third time since the last
/// pawn move or capture.
pub open spec fn threefold_repetition(v: BoardView) -> bool {
    occurrences(v.history, v.key()) >= 2
}

/// Number of kings of `side` on the squares.
pub open spec fn king_count(s: Seq<Option<Piece>>, side: Player) -> nat
    decreases s.len(),
{
    if s.len() == 0 {
        0
    } else {
        king_count(s.drop_last(), side) + if s.last() == Some(Piece { piece_type: PieceType::King, player: side }) {
            1nat
        } else {
            0nat
        }
    }
}

/// Each side has exactly one king.
pub open spec fn one_king_each(v: BoardView) -> bool {
    king_count(v.squares, Player::White) == 1 && king_count(v.squares, Player::Black) == 1
}

/// Two squares with the same index are the same square.
pub proof fn lemma_index_unique(p: Position, q: Position)
    requires
        p.valid(),
        q.valid(),
        p.index() == q.index(),
    ensures
        p == q,
{
}

pub proof fn lemma_lists_push(s: Seq<Move>, m: Move)
    ensures
        forall|f: Position, t: Position, p: Option<PieceType>| lists(s, f, t, p) ==> #[trigger] lists(s.push(m), f, t, p),
        lists(s.push(m), m.source(), m.target(), m.promo()),
{
    assert forall|f: Position, t: Position, p: Option<PieceType>| lists(s, f, t, p) implies #[trigger] lists(s.push(m), f, t, p) by {
        let i = choose|i: int| 0 <= i < s.len() && #[trigger] names(s[i], f, t, p);
        assert(s.push(m)[i] == s[i]);
    }
    assert(names(s.push(m)[s.len() as int], m.source(), m.target(), m.promo()));
}

/// Every move in a list of legal moves of a state is accepted as legal when
/// played on that state, and it leaves the mover's own king unattacked.
pub proof fn lemma_listed_moves_are_safe(v: BoardView, moves: Seq<Move>, i: int)
    requires
        0 <= i < moves.len(),
        forall|k: int| 0 <= k < moves.len() ==> describes(v, #[trigger] moves[k]),
    ensures
        legal(v, moves[i].source(), moves[i].target(), moves[i].promo()),
        !in_check(after(v, moves[i].source(), moves[i].target(), moves[i].promo()), v.side),
{
    assert(describes(v, moves[i]));
}

/// After a pawn advances two squares the en-passant target is the square it
/// skipped; after any other move there is none.
pub proof fn lemma_en_passant_target(v: BoardView, from: Position, to: Position, promo: Option<PieceType>)
    requires
        v.wf(),
        legal(v, from, to, promo),
    ensures
        piece_kind_is(v, from, PieceType::Pawn) && abs(to.rank as int - from.rank as int) == 2 ==> {
            &&& after(v, from, to, promo).en_passant == Some(Position {
                file: from.file,
                rank: ((from.rank as int + to.rank as int) / 2) as u8,
            })
            &&& to.file == from.file
            &&& from.rank as int + forward(v.side) == (from.rank as int + to.rank as int) / 2
        },
        !(piece_kind_is(v, from, PieceType::Pawn) && abs(to.rank as int - from.rank as int) == 2)
            ==> after(v, from, to, promo).en_passant is None,
{
}

/// A pawn that moves diagonally onto the en-passant target of a consistent
/// board captures en passant: it takes the enemy pawn beside its start square
/// and lands, unpromoted, on the empty target square.
pub proof fn lemma_en_passant_capture(v: BoardView, from: Position, to: Position, promo: Option<PieceType>)
    requires
        v.wf(),
        consistent(v),
        legal(v, from, to, promo),
        piece_kind_is(v, from, PieceType::Pawn),
        from.file != to.file,
        v.en_passant == Some(to),
    ensures
        en_passant_capture(v, from, to),
        promo is None,
        v.at_pos(to) is None,
        v.at(to.file as int, from.rank as int) == Some(Piece { piece_type: PieceType::Pawn, player: v.side.opp() }),
        after(v, from, to, promo).at(to.file as int, from.rank as int) is None,
        after(v, from, to, promo).at_pos(to) == Some(Piece { piece_type: PieceType::Pawn, player: v.side }),
        after(v, from, to, promo).at_pos(from) is None,
{
}

/// A board with nothing but kings lacks mating material (the condition under
/// which a position with a legal move is a draw).
pub proof fn lemma_bare_kings_draw(v: BoardView)
    requires
        v.wf(),
        forall|i: int| 0 <= i < 64 ==> (#[trigger] v.squares[i] matches Some(p) ==> p.piece_type == PieceType::King),
    ensures
        insufficient_material(v),
{
    lemma_no_minor(v.squares);
}

proof fn lemma_no_minor(s: Seq<Option<Piece>>)
    requires
        forall|i: int| 0 <= i < s.len() ==> (#[trigger] s[i] matches Some(p) ==> p.piece_type == PieceType::King),
    ensures
        minor_count(s) == 0,
    decreases s.len(),
{
    if s.len() > 0 {
        lemma_no_minor(s.drop_last());
    }
}

/// Castling rights are only ever lost: no move gives one back. A move that
/// leaves or lands on the home square of a king or rook loses the rights that
/// piece takes part in, for good.
pub proof fn lemma_castling_rights_only_lost(v: BoardView, from: Position, to: Position, promo: Option<PieceType>)
    ensures
        after(v, from, to, promo).castling.white_kingside ==> v.castling.white_kingside,
        after(v, from, to, promo).castling.white_queenside ==> v.castling.white_queenside,
        after(v, from, to, promo).castling.black_kingside ==> v.castling.black_kingside,
        after(v, from, to, promo).castling.black_queenside ==> v.castling.black_queenside,
        touches(from, to, 4, 0) || touches(from, to, 7, 0) ==> !after(v, from, to, promo).castling.white_kingside,
        touches(from, to, 4, 0) || touches(from, to, 0, 0) ==> !after(v, from, to, promo).castling.white_queenside,
        touches(from, to, 4, 7) || touches(from, to, 7, 7) ==> !after(v, from, to, promo).castling.black_kingside,
        touches(from, to, 4, 7) || touches(from, to, 0, 7) ==> !after(v, from, to, promo).castling.black_queenside,
{
}

/// The piece on `o` is a king of `side`, counted as 1 or 0.
pub open spec fn king_at(o: Option<Piece>, side: Player) -> int {
    if o == Some(Piece { piece_type: PieceType::King, player: side }) { 1 } else { 0 }
}

proof fn lemma_king_count_update(s: Seq<Option<Piece>>, i: int, x: Option<Piece>, side: Player)
    requires
        0 <= i < s.len(),
    ensures
        king_count(s.update(i, x), side) as int == king_count(s, side) as int - king_at(s[i], side) + king_at(x, side),
    decreases s.len(),
{
    let u = s.update(i, x);
    if i == s.len() - 1 {
        assert(u.drop_last() =~= s.drop_last());
    } else {
        lemma_king_count_update(s.drop_last(), i, x, side);
        assert(u.drop_last() =~= s.drop_last().update(i, x));
    }
}

pub(crate) proof fn lemma_king_count_one(s: Seq<Option<Piece>>, i: int, side: Player)
    requires
        0 <= i < s.len(),
        king_at(s[i], side) == 1,
        forall|j: int| 0 <= j < s.len() && j != i ==> king_at(#[trigger] s[j], side) == 0,
    ensures
        king_count(s, side) == 1,
    decreases s.len(),
{
    if i < s.len() - 1 {
        lemma_king_count_one(s.drop_last(), i, side);
    } else {
        lemma_king_count_none(s.drop_last(), side);
    }
}

proof fn lemma_king_count_none(s: Seq<Option<Piece>>, side: Player)
    requires
        forall|j: int| 0 <= j < s.len() ==> king_at(#[trigger] s[j], side) == 0,
    ensures
        king_count(s, side) == 0,
    decreases s.len(),
{
    if s.len() > 0 {
        lemma_king_count_none(s.drop_last(), side);
    }
}

/// Each side has exactly one king, and an en-passant target is the empty
/// square just behind an enemy pawn on the rank a double step reaches.
pub open spec fn consistent(v: BoardView) -> bool {
    &&& one_king_each(v)
    &&& match v.en_passant {
        None => true,
        Some(p) => {
            &&& p.rank as int == last_rank(v.side) - 2 * forward(v.side)
            &&& v.at_pos(p) is None
            &&& v.at(p.file as int, p.rank as int - forward(v.side))
                == Some(Piece { piece_type: PieceType::Pawn, player: v.side.opp() })
        },
    }
}

proof fn lemma_move_keeps_king_count(v: BoardView, from: Position, to: Position, promo: Option<PieceType>, side: Player)
    requires
        v.wf(),
        can_move(v, from, to, promo),
    ensures
        king_count(squares_after(v, from, to, promo), side) == king_count(v.squares, side),
{
    let p = v.at_pos(from)->Some_0;
    let landed = match promo {
        Some(k) => Piece { piece_type: k, player: p.player },
        None => p,
    };
    let fi = from.index();
    let ti = to.index();
    let s0 = v.squares;
    let s1 = s0.update(fi, None);
    let s1b = s1.update(ti, Some(landed));
    lemma_king_count_update(s0, fi, None, side);
    lemma_king_count_update(s1, ti, Some(landed), side);
    assert(fi != ti);
    assert(king_at(s0[ti], side) == 0);
    assert(king_at(Some(landed), side) == king_at(s0[fi], side));
    let s2 = if en_passant_capture(v, from, to) {
        s1b.update(idx(to.file as int, from.rank as int), None)
    } else {
        s1b
    };
    if en_passant_capture(v, from, to) {
        let e = idx(to.file as int, from.rank as int);
        assert(e != fi && e != ti);
        lemma_king_count_update(s1b, e, None, side);
    }
    assert(king_count(s2, side) == king_count(s0, side));
    let r = from.rank as int;
    let rook = Some(Piece { piece_type: PieceType::Rook, player: p.player });
    if castles(v, from, to) {
        assert(castle_move(v, from, to));
        if to.file as int == 6 {
            let s3 = s2.update(idx(7, r), None);
            lemma_king_count_update(s2, idx(7, r), None, side);
            lemma_king_count_update(s3, idx(5, r), rook, side);
        } else {
            let s3 = s2.update(idx(0, r), None);
            lemma_king_count_update(s2, idx(0, r), None, side);
            lemma_king_count_update(s3, idx(3, r), rook, side);
        }
    }
}

/// Moves keep a board consistent: each side keeps exactly one king, and the
/// en-passant target stays the square a pawn just skipped, or none.
pub proof fn lemma_moves_keep_board_consistent(v: BoardView, from: Position, to: Position, promo: Option<PieceType>)
    requires
        v.wf(),
        consistent(v),
        can_move(v, from, to, promo),
    ensures
        consistent(after(v, from, to, promo)),
{
    lemma_move_keeps_king_count(v, from, to, promo, Player::White);
    lemma_move_keeps_king_count(v, from, to, promo, Player::Black);
    let a = after(v, from, to, promo);
    if let Some(e) = a.en_passant {
        let mid = idx(from.file as int, e.rank as int);
        assert(mid != from.index() && mid != to.index());
        assert(to.index() == idx(e.file as int, e.rank as int - forward(a.side)));
    }
}

} // verus!
