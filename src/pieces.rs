use vstd::prelude::*;

verus! {

/// A side of the game.
#[derive(Debug, Clone, Copy, PartialEq, Eq, Structural, Hash)]
pub enum Player {
    White,
    Black,
}

impl Player {
    pub open spec fn opp(self) -> Player {
        match self {
            Player::White => Player::Black,
            Player::Black => Player::White,
        }
    }

    pub fn opposite(&self) -> (r: Player)
        ensures
            r == self.opp(),
    {
        match self {
            Player::White => Player::Black,
            Player::Black => Player::White,
        }
    }
}

#[derive(Debug, Clone, Copy, PartialEq, Eq, Structural, Hash)]
pub enum PieceType {
    Pawn,
    Rook,
    Knight,
    Bishop,
    Queen,
    King,
}

#[derive(Debug, Clone, Copy, PartialEq, Eq, Structural, Hash)]
pub struct Piece {
    pub piece_type: PieceType,
    pub player: Player,
}

/// The display symbol of a piece: the chess figurine of its kind, outlined for
/// White and filled for Black.
pub open spec fn figurine(p: Piece) -> char {
    match (p.player, p.piece_type) {
        (Player::White, PieceType::King) => '♔',
        (Player::White, PieceType::Queen) => '♕',
        (Player::White, PieceType::Rook) => '♖',
        (Player::White, PieceType::Bishop) => '♗',
        (Player::White, PieceType::Knight) => '♘',
        (Player::White, PieceType::Pawn) => '♙',
        (Player::Black, PieceType::King) => '♚',
        (Player::Black, PieceType::Queen) => '♛',
        (Player::Black, PieceType::Rook) => '♜',
        (Player::Black, PieceType::Bishop) => '♝',
        (Player::Black, PieceType::Knight) => '♞',
        (Player::Black, PieceType::Pawn) => '♟',
    }
}

/// The letter of a kind in position text and move text: `P N B R Q K`.
pub open spec fn kind_letter(k: PieceType) -> char {
    match k {
        PieceType::Pawn => 'P',
        PieceType::Knight => 'N',
        PieceType::Bishop => 'B',
        PieceType::Rook => 'R',
        PieceType::Queen => 'Q',
        PieceType::King => 'K',
    }
}

/// The lower-case letter of a kind.
pub open spec fn kind_letter_lower(k: PieceType) -> char {
    match k {
        PieceType::Pawn => 'p',
        PieceType::Knight => 'n',
        PieceType::Bishop => 'b',
        PieceType::Rook => 'r',
        PieceType::Queen => 'q',
        PieceType::King => 'k',
    }
}

/// The letter of a piece in position text: upper case for White, lower case for Black.
pub open spec fn piece_letter(p: Piece) -> char {
    match p.player {
        Player::White => kind_letter(p.piece_type),
        Player::Black => kind_letter_lower(p.piece_type),
    }
}

impl Piece {
    pub fn new(piece_type: PieceType, player: Player) -> (r: Piece)
        ensures
            r == (Piece { piece_type, player }),
    {
        Piece { piece_type, player }
    }

    pub fn unicode_symbol(&self) -> (r: char)
        ensures
            r == figurine(*self),
    {
        match (self.player, self.piece_type) {
            (Player::White, PieceType::King) => '♔',
            (Player::White, PieceType::Queen) => '♕',
            (Player::White, PieceType::Rook) => '♖',
            (Player::White, PieceType::Bishop) => '♗',
            (Player::White, PieceType::Knight) => '♘',
            (Player::White, PieceType::Pawn) => '♙',
            (Player::Black, PieceType::King) => '♚',
            (Player::Black, PieceType::Queen) => '♛',
            (Player::Black, PieceType::Rook) => '♜',
            (Player::Black, PieceType::Bishop) => '♝',
            (Player::Black, PieceType::Knight) => '♞',
            (Player::Black, PieceType::Pawn) => '♟',
        }
    }

    /// The letter of this piece in position text.
    pub fn letter(&self) -> (r: char)
        ensures
            r == piece_letter(*self),
    {
        match (self.player, self.piece_type) {
            (Player::White, PieceType::King) => 'K',
            (Player::White, PieceType::Queen) => 'Q',
            (Player::White, PieceType::Rook) => 'R',
            (Player::White, PieceType::Bishop) => 'B',
            (Player::White, PieceType::Knight) => 'N',
            (Player::White, PieceType::Pawn) => 'P',
            (Player::Black, PieceType::King) => 'k',
            (Player::Black, PieceType::Queen) => 'q',
            (Player::Black, PieceType::Rook) => 'r',
            (Player::Black, PieceType::Bishop) => 'b',
            (Player::Black, PieceType::Knight) => 'n',
            (Player::Black, PieceType::Pawn) => 'p',
        }
    }
}

} // verus!
