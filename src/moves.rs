use vstd::prelude::*;
use crate::pieces::PieceType;
use crate::position::Position;
use crate::text::{push_char, push_text};

verus! {

/// A move from one square to another, with an optional promotion kind and
/// flags that describe it (capture, castling, en passant).
#[derive(Debug, Clone, PartialEq, Eq, Structural)]
pub struct Move {
    from: Position,
    to: Position,
    promotion: Option<PieceType>,
    is_capture: bool,
    is_castling: bool,
    is_en_passant: bool,
}

/// Promotion letter in display text; a kind that cannot be promoted to is shown as a queen.
pub open spec fn promotion_letter(k: PieceType) -> char {
    match k {
        PieceType::Rook => 'R',
        PieceType::Bishop => 'B',
        PieceType::Knight => 'N',
        _ => 'Q',
    }
}

/// Promotion letter in protocol text; a kind that cannot be promoted to is sent as a queen.
pub open spec fn promotion_letter_lower(k: PieceType) -> char {
    match k {
        PieceType::Rook => 'r',
        PieceType::Bishop => 'b',
        PieceType::Knight => 'n',
        _ => 'q',
    }
}

impl Move {
    pub closed spec fn source(self) -> Position {
        self.from
    }

    pub closed spec fn target(self) -> Position {
        self.to
    }

    pub closed spec fn promo(self) -> Option<PieceType> {
        self.promotion
    }

    pub closed spec fn capture_flag(self) -> bool {
        self.is_capture
    }

    pub closed spec fn castling_flag(self) -> bool {
        self.is_castling
    }

    pub closed spec fn en_passant_flag(self) -> bool {
        self.is_en_passant
    }

    pub fn new(from: Position, to: Position, promotion: Option<PieceType>) -> (r: Move)
        ensures
            r.source() == from,
            r.target() == to,
            r.promo() == promotion,
            !r.capture_flag(),
            !r.castling_flag(),
            !r.en_passant_flag(),
    {
        Move {
            from,
            to,
            promotion,
            is_capture: false,
            is_castling: false,
            is_en_passant: false,
        }
    }

    pub fn with_capture(self) -> (r: Move)
        ensures
            r.source() == self.source(),
            r.target() == self.target(),
            r.promo() == self.promo(),
            r.capture_flag(),
            r.castling_flag() == self.castling_flag(),
            r.en_passant_flag() == self.en_passant_flag(),
    {
        Move { is_capture: true, ..self }
    }

    pub fn with_castling(self) -> (r: Move)
        ensures
            r.source() == self.source(),
            r.target() == self.target(),
            r.promo() == self.promo(),
            r.capture_flag() == self.capture_flag(),
            r.castling_flag(),
            r.en_passant_flag() == self.en_passant_flag(),
    {
        Move { is_castling: true, ..self }
    }

    pub fn with_en_passant(self) -> (r: Move)
        ensures
            r.source() == self.source(),
            r.target() == self.target(),
            r.promo() == self.promo(),
            r.capture_flag() == self.capture_flag(),
            r.castling_flag() == self.castling_flag(),
            r.en_passant_flag(),
    {
        Move { is_en_passant: true, ..self }
    }

    pub fn from(&self) -> (r: Position)
        ensures
            r == self.source(),
    {
        self.from
    }

    pub fn to(&self) -> (r: Position)
        ensures
            r == self.target(),
    {
        self.to
    }

    pub fn promotion(&self) -> (r: Option<PieceType>)
        ensures
            r == self.promo(),
    {
        self.promotion
    }

    pub fn is_capture(&self) -> (r: bool)
        ensures
            r == self.capture_flag(),
    {
        self.is_capture
    }

    pub fn is_castling(&self) -> (r: bool)
        ensures
            r == self.castling_flag(),
    {
        self.is_castling
    }

    pub fn is_en_passant(&self) -> (r: bool)
        ensures
            r == self.en_passant_flag(),
    {
        self.is_en_passant
    }

    /// Display text: `O-O` / `O-O-O` for castling, otherwise the destination
    /// square followed by `=` and the promotion letter, if any.
    pub open spec fn display_text(self) -> Seq<char> {
        if self.castling_flag() {
            if self.target().file == 6 {
                seq!['O', '-', 'O']
            } else {
                seq!['O', '-', 'O', '-', 'O']
            }
        } else {
            match self.promo() {
                Some(k) => self.target().text() + seq!['=', promotion_letter(k)],
                None => self.target().text(),
            }
        }
    }

    /// Protocol text: source square, destination square, and the lower-case
    /// promotion letter, if any.
    pub open spec fn protocol_text(self) -> Seq<char> {
        match self.promo() {
            Some(k) => self.source().text() + self.target().text() + seq![promotion_letter_lower(k)],
            None => self.source().text() + self.target().text(),
        }
    }

    pub fn to_algebraic(&self) -> (r: String)
        requires
            self.target().valid(),
        ensures
            r@ == self.display_text(),
    {
        let mut result = String::new();
        if self.is_castling {
            if self.to.file == 6 {
                push_text(&mut result, "O-O");
                proof {
                    reveal_strlit("O-O");
                }
                assert(result@ =~= self.display_text());
            } else {
                push_text(&mut result, "O-O-O");
                proof {
                    reveal_strlit("O-O-O");
                }
                assert(result@ =~= self.display_text());
            }
            return result;
        }
        let square = self.to.to_algebraic();
        push_text(&mut result, square.as_str());
        if let Some(k) = self.promotion {
            push_char(&mut result, '=');
            let c = match k {
                PieceType::Rook => 'R',
                PieceType::Bishop => 'B',
                PieceType::Knight => 'N',
                _ => 'Q',
            };
            push_char(&mut result, c);
        }
        assert(result@ =~= self.display_text());
        result
    }

    pub fn to_uci(&self) -> (r: String)
        requires
            self.source().valid(),
            self.target().valid(),
        ensures
            r@ == self.protocol_text(),
    {
        let mut result = self.from.to_algebraic();
        let square = self.to.to_algebraic();
        push_text(&mut result, square.as_str());
        if let Some(k) = self.promotion {
            let c = match k {
                PieceType::Rook => 'r',
                PieceType::Bishop => 'b',
                PieceType::Knight => 'n',
                _ => 'q',
            };
            push_char(&mut result, c);
        }
        assert(result@ =~= self.protocol_text());
        result
    }
}

} // verus!
