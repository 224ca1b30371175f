use chess_cli::notation::parse_algebraic_notation;
use chess_cli::{Board, ChessError, Position};

fn sq(text: &str) -> Position {
    Position::from_algebraic(text).unwrap()
}

#[test]
fn notation_castling_forms() {
    let board = Board::new();
    for text in ["O-O", "o-o", "0-0", "  O-O  "] {
        let m = parse_algebraic_notation(text, &board).unwrap();
        assert_eq!((m.from(), m.to()), (sq("e1"), sq("g1")), "{}", text);
        assert!(!m.is_castling() && !m.is_capture() && !m.is_en_passant());
    }
    for text in ["O-O-O", "0-0-0"] {
        let m = parse_algebraic_notation(text, &board).unwrap();
        assert_eq!((m.from(), m.to()), (sq("e1"), sq("c1")), "{}", text);
    }
    let black = Board::from_fen("r3k2r/8/8/8/8/8/8/R3K2R b KQkq - 0 1").unwrap();
    let m = parse_algebraic_notation("o-o-o", &black).unwrap();
    assert_eq!((m.from(), m.to()), (sq("e8"), sq("c8")));
}

#[test]
fn notation_pawn_destination() {
    let board = Board::new();
    let m = parse_algebraic_notation("e4", &board).unwrap();
    assert_eq!((m.from(), m.to()), (sq("e2"), sq("e4")));
    let m = parse_algebraic_notation("E3", &board).unwrap();
    assert_eq!((m.from(), m.to()), (sq("e2"), sq("e3")));
    assert!(board.is_legal_move(&m));
    let mut board = Board::new();
    board.make_move(&parse_algebraic_notation("d4", &board).unwrap()).unwrap();
    let m = parse_algebraic_notation("d5", &board).unwrap();
    assert_eq!((m.from(), m.to()), (sq("d7"), sq("d5")));
    let m = parse_algebraic_notation("c6", &board).unwrap();
    assert_eq!((m.from(), m.to()), (sq("c7"), sq("c6")));
    assert_eq!(parse_algebraic_notation("a8", &board).err(), Some(ChessError::InvalidCoordinate));
    assert_eq!(parse_algebraic_notation("a1", &Board::new()).err(), Some(ChessError::InvalidCoordinate));
}

#[test]
fn notation_source_and_destination() {
    let board = Board::new();
    let m = parse_algebraic_notation("g1f3", &board).unwrap();
    assert_eq!((m.from(), m.to()), (sq("g1"), sq("f3")));
    assert_eq!(m.promotion(), None);
    let m = parse_algebraic_notation(" B1C3\n", &board).unwrap();
    assert_eq!((m.from(), m.to()), (sq("b1"), sq("c3")));
}

#[test]
fn notation_rejects_other_text() {
    let board = Board::new();
    for text in ["", "Nf3", "e9", "z4", "e2e9", "o-o-o-o", "exd5x"] {
        assert_eq!(parse_algebraic_notation(text, &board).err(), Some(ChessError::InvalidNotation), "{}", text);
    }
}
