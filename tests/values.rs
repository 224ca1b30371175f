use chess_cli::{ChessError, Move, Piece, PieceType, Player, Position};

#[test]
fn position_new_checks_bounds() {
    assert_eq!(Position::new(0, 0), Ok(Position { file: 0, rank: 0 }));
    assert_eq!(Position::new(7, 7), Ok(Position { file: 7, rank: 7 }));
    assert_eq!(Position::new(8, 0), Err(ChessError::InvalidCoordinate));
    assert_eq!(Position::new(0, 8), Err(ChessError::InvalidCoordinate));
}

#[test]
fn position_from_algebraic_parses_squares() {
    assert_eq!(Position::from_algebraic("e4"), Ok(Position { file: 4, rank: 3 }));
    assert_eq!(Position::from_algebraic("a1"), Ok(Position { file: 0, rank: 0 }));
    assert_eq!(Position::from_algebraic("h8"), Ok(Position { file: 7, rank: 7 }));
}

#[test]
fn position_from_algebraic_rejects_bad_text() {
    for bad in ["", "e", "e44", "i1", "a9", "a0", "E4", "4e"] {
        assert_eq!(Position::from_algebraic(bad), Err(ChessError::InvalidNotation), "{}", bad);
    }
}

#[test]
fn position_text_round_trips_on_every_square() {
    for file in 0..8u8 {
        for rank in 0..8u8 {
            let p = Position::new(file, rank).unwrap();
            assert!(p.is_valid());
            assert_eq!(Position::from_algebraic(&p.to_algebraic()), Ok(p));
        }
    }
    assert_eq!(Position { file: 2, rank: 5 }.to_algebraic(), "c6");
    assert!(!Position { file: 9, rank: 0 }.is_valid());
}

#[test]
fn move_display_text() {
    let e7 = Position::from_algebraic("e7").unwrap();
    let e8 = Position::from_algebraic("e8").unwrap();
    let e2 = Position::from_algebraic("e2").unwrap();
    let e4 = Position::from_algebraic("e4").unwrap();
    assert_eq!(Move::new(e2, e4, None).to_algebraic(), "e4");
    assert_eq!(Move::new(e7, e8, Some(PieceType::Queen)).to_algebraic(), "e8=Q");
    assert_eq!(Move::new(e7, e8, Some(PieceType::Rook)).to_algebraic(), "e8=R");
    assert_eq!(Move::new(e7, e8, Some(PieceType::Bishop)).to_algebraic(), "e8=B");
    assert_eq!(Move::new(e7, e8, Some(PieceType::Knight)).to_algebraic(), "e8=N");
    assert_eq!(Move::new(e7, e8, Some(PieceType::King)).to_algebraic(), "e8=Q");
}

#[test]
fn move_castling_text() {
    let e1 = Position::from_algebraic("e1").unwrap();
    let g1 = Position::from_algebraic("g1").unwrap();
    let c1 = Position::from_algebraic("c1").unwrap();
    assert_eq!(Move::new(e1, g1, None).with_castling().to_algebraic(), "O-O");
    assert_eq!(Move::new(e1, c1, None).with_castling().to_algebraic(), "O-O-O");
    assert_eq!(Move::new(e1, g1, None).to_algebraic(), "g1");
}

#[test]
fn move_protocol_text() {
    let e7 = Position::from_algebraic("e7").unwrap();
    let d8 = Position::from_algebraic("d8").unwrap();
    let g1 = Position::from_algebraic("g1").unwrap();
    let f3 = Position::from_algebraic("f3").unwrap();
    assert_eq!(Move::new(g1, f3, None).to_uci(), "g1f3");
    assert_eq!(Move::new(e7, d8, Some(PieceType::Knight)).to_uci(), "e7d8n");
    assert_eq!(Move::new(e7, d8, Some(PieceType::Queen)).to_uci(), "e7d8q");
    assert_eq!(Move::new(e7, d8, Some(PieceType::Pawn)).to_uci(), "e7d8q");
}

#[test]
fn move_flags_and_accessors() {
    let a = Position::from_algebraic("a2").unwrap();
    let b = Position::from_algebraic("b3").unwrap();
    let m = Move::new(a, b, None);
    assert_eq!(m.from(), a);
    assert_eq!(m.to(), b);
    assert_eq!(m.promotion(), None);
    assert!(!m.is_capture() && !m.is_castling() && !m.is_en_passant());
    let m = m.with_capture().with_en_passant();
    assert!(m.is_capture() && m.is_en_passant() && !m.is_castling());
    assert_eq!(m.from(), a);
}

#[test]
fn piece_symbols_and_sides() {
    assert_eq!(Piece::new(PieceType::King, Player::White).unicode_symbol(), '♔');
    assert_eq!(Piece::new(PieceType::Pawn, Player::Black).unicode_symbol(), '♟');
    assert_eq!(Piece::new(PieceType::Knight, Player::Black).unicode_symbol(), '♞');
    assert_eq!(Piece::new(PieceType::Knight, Player::White).letter(), 'N');
    assert_eq!(Piece::new(PieceType::Queen, Player::Black).letter(), 'q');
    assert_eq!(Player::White.opposite(), Player::Black);
    assert_eq!(Player::Black.opposite(), Player::White);
}
