use chess_cli::engine::parse_uci_move;
use chess_cli::{Board, ChessError, GameState, Move, Piece, PieceType, Player, Position};

const START: &str = "rnbqkbnr/pppppppp/8/8/8/8/PPPPPPPP/RNBQKBNR w KQkq - 0 1";

fn play(board: &mut Board, text: &str) {
    let m = parse_uci_move(text).unwrap();
    assert_eq!(board.make_move(&m), Ok(()), "{}", text);
}

fn sq(text: &str) -> Position {
    Position::from_algebraic(text).unwrap()
}

fn moves_from(board: &Board, from: &str) -> Vec<Move> {
    board.get_legal_moves().into_iter().filter(|m| m.from() == sq(from)).collect()
}

#[test]
fn start_position_has_twenty_moves() {
    let board = Board::new();
    let moves = board.get_legal_moves();
    assert_eq!(moves.len(), 20);
    let pawn_moves = moves
        .iter()
        .filter(|m| board.piece_at(m.from()).unwrap().piece_type == PieceType::Pawn)
        .count();
    let knight_moves = moves
        .iter()
        .filter(|m| board.piece_at(m.from()).unwrap().piece_type == PieceType::Knight)
        .count();
    assert_eq!(pawn_moves, 16);
    assert_eq!(knight_moves, 4);
    assert_eq!(board.game_state(), GameState::InProgress);
}

#[test]
fn start_position_state() {
    let board = Board::new();
    assert_eq!(board.current_player(), Player::White);
    assert_eq!(board.move_count(), 1);
    assert_eq!(board.halfmove_clock(), 0);
    assert_eq!(board.en_passant_target(), None);
    assert_eq!(board.piece_at(sq("e1")), Some(Piece::new(PieceType::King, Player::White)));
    assert_eq!(board.piece_at(sq("d8")), Some(Piece::new(PieceType::Queen, Player::Black)));
    assert_eq!(board.piece_at(sq("e4")), None);
    assert_eq!(board.piece_at(Position { file: 8, rank: 0 }), None);
    assert_eq!(board.to_fen(), START);
    assert!(!board.is_in_check(Player::White));
    assert!(!board.is_in_check(Player::Black));
}

#[test]
fn position_text_after_moves() {
    let mut board = Board::new();
    play(&mut board, "e2e4");
    assert_eq!(board.to_fen(), "rnbqkbnr/pppppppp/8/8/4P3/8/PPPP1PPP/RNBQKBNR b KQkq e3 0 1");
    play(&mut board, "c7c5");
    play(&mut board, "g1f3");
    assert_eq!(board.to_fen(), "rnbqkbnr/pp1ppppp/8/2p5/4P3/5N2/PPPP1PPP/RNBQKB1R b KQkq - 1 2");
    assert_eq!(board.move_count(), 2);
    assert_eq!(board.halfmove_clock(), 1);
}

#[test]
fn illegal_move_leaves_board_unchanged() {
    let mut board = Board::new();
    let m = Move::new(sq("e2"), sq("e5"), None);
    assert!(!board.is_legal_move(&m));
    assert_eq!(board.make_move(&m), Err(ChessError::IllegalMove));
    assert_eq!(board.to_fen(), START);
    let black = Move::new(sq("e7"), sq("e5"), None);
    assert_eq!(board.make_move(&black), Err(ChessError::IllegalMove));
    let own = Move::new(sq("a1"), sq("a2"), None);
    assert_eq!(board.make_move(&own), Err(ChessError::IllegalMove));
    assert_eq!(board.to_fen(), START);
}

#[test]
fn queen_sortie_does_not_check() {
    let mut board = Board::new();
    play(&mut board, "e2e4");
    play(&mut board, "e7e5");
    play(&mut board, "d1h5");
    assert!(!board.is_in_check(Player::Black));
    assert!(!board.is_in_check(Player::White));
    assert_eq!(board.game_state(), GameState::InProgress);
}

#[test]
fn scholars_mate_is_checkmate() {
    let mut board = Board::new();
    for m in ["e2e4", "e7e5", "f1c4", "b8c6", "d1h5", "g8f6", "h5f7"] {
        play(&mut board, m);
    }
    assert!(board.is_in_check(Player::Black));
    assert_eq!(board.game_state(), GameState::Checkmate);
    assert!(board.get_legal_moves().is_empty());
}

#[test]
fn two_kings_are_a_draw() {
    let board = Board::from_fen("8/8/8/4k3/8/8/8/4K3 w - - 0 1").unwrap();
    assert_eq!(board.game_state(), GameState::Draw);
    let moves = board.get_legal_moves();
    assert_eq!(moves.len(), 5);
    assert!(moves.iter().all(|m| !m.is_capture()));
    assert!(moves.iter().all(|m| m.from() == sq("e1")));
}

#[test]
fn king_and_minor_piece_is_a_draw_but_rook_is_not() {
    let knight = Board::from_fen("8/8/8/4k3/8/8/8/3NK3 w - - 0 1").unwrap();
    assert_eq!(knight.game_state(), GameState::Draw);
    let two_bishops = Board::from_fen("8/8/8/4k3/8/8/8/2B1KB2 w - - 0 1").unwrap();
    assert_eq!(two_bishops.game_state(), GameState::InProgress);
    let rook = Board::from_fen("8/8/8/4k3/8/8/8/R3K3 w - - 0 1").unwrap();
    assert_eq!(rook.game_state(), GameState::InProgress);
}

#[test]
fn fifty_move_rule_is_a_draw() {
    let board = Board::from_fen("4k3/8/8/8/8/8/8/R3K3 w - - 100 80").unwrap();
    assert_eq!(board.game_state(), GameState::Draw);
    let board = Board::from_fen("4k3/8/8/8/8/8/8/R3K3 w - - 99 80").unwrap();
    assert_eq!(board.game_state(), GameState::InProgress);
}

#[test]
fn stalemate_is_detected() {
    let board = Board::from_fen("7k/5Q2/6K1/8/8/8/8/8 b - - 0 1").unwrap();
    assert!(!board.is_in_check(Player::Black));
    assert!(board.get_legal_moves().is_empty());
    assert_eq!(board.game_state(), GameState::Stalemate);
}

#[test]
fn pinned_piece_cannot_leave_the_line() {
    let board = Board::from_fen("4k3/4r3/8/8/8/8/4B3/4K3 w - - 0 1").unwrap();
    assert!(!board.is_legal_move(&Move::new(sq("e2"), sq("d3"), None)));
    assert!(moves_from(&board, "e2").is_empty());
    for m in board.get_legal_moves() {
        let mut after = Board::from_fen(&board.to_fen()).unwrap();
        assert_eq!(after.make_move(&m), Ok(()));
        assert!(!after.is_in_check(Player::White));
    }
}

#[test]
fn en_passant_target_and_capture() {
    let mut board = Board::new();
    play(&mut board, "e2e4");
    assert_eq!(board.en_passant_target(), Some(sq("e3")));
    play(&mut board, "a7a6");
    assert_eq!(board.en_passant_target(), None);
    play(&mut board, "e4e5");
    assert_eq!(board.en_passant_target(), None);
    play(&mut board, "d7d5");
    assert_eq!(board.en_passant_target(), Some(sq("d6")));
    let capture = moves_from(&board, "e5")
        .into_iter()
        .find(|m| m.to() == sq("d6"))
        .unwrap();
    assert!(capture.is_en_passant());
    assert!(capture.is_capture());
    assert_eq!(board.make_move(&capture), Ok(()));
    assert_eq!(board.piece_at(sq("d5")), None);
    assert_eq!(board.piece_at(sq("e5")), None);
    assert_eq!(board.piece_at(sq("d6")), Some(Piece::new(PieceType::Pawn, Player::White)));
    assert_eq!(board.en_passant_target(), None);
    assert_eq!(board.halfmove_clock(), 0);
}

#[test]
fn en_passant_expires_after_one_half_move() {
    let mut board = Board::new();
    for m in ["e2e4", "a7a6", "e4e5", "d7d5", "h2h3", "h7h6"] {
        play(&mut board, m);
    }
    assert!(!board.is_legal_move(&Move::new(sq("e5"), sq("d6"), None)));
}

#[test]
fn castling_moves_king_and_rook() {
    let mut board = Board::new();
    for m in ["e2e4", "e7e5", "g1f3", "b8c6", "f1c4", "g8f6"] {
        play(&mut board, m);
    }
    let castle = moves_from(&board, "e1")
        .into_iter()
        .find(|m| m.to() == sq("g1"))
        .unwrap();
    assert!(castle.is_castling());
    assert_eq!(castle.to_algebraic(), "O-O");
    assert_eq!(board.make_move(&castle), Ok(()));
    assert_eq!(board.piece_at(sq("g1")), Some(Piece::new(PieceType::King, Player::White)));
    assert_eq!(board.piece_at(sq("f1")), Some(Piece::new(PieceType::Rook, Player::White)));
    assert_eq!(board.piece_at(sq("h1")), None);
    let rights = board.castling_rights();
    assert!(!rights.white_kingside && !rights.white_queenside);
    assert!(rights.black_kingside && rights.black_queenside);
}

#[test]
fn castling_rights_lost_for_good() {
    let mut board = Board::new();
    for m in ["e2e4", "e7e5", "e1e2", "h7h6", "e2e1", "a7a6"] {
        play(&mut board, m);
    }
    let rights = board.castling_rights();
    assert!(!rights.white_kingside && !rights.white_queenside);
    assert!(board.to_fen().contains(" kq "));
    for m in ["g1f3", "g8f6", "f1e2", "h8g8", "b1c3", "g8h8"] {
        play(&mut board, m);
    }
    let rights = board.castling_rights();
    assert!(!rights.black_kingside && rights.black_queenside);
    assert!(board.to_fen().contains(" q "));
}

#[test]
fn castling_not_through_attacked_square() {
    let board = Board::from_fen("4k3/8/8/8/8/8/5r2/4K2R w K - 0 1").unwrap();
    assert!(!board.is_legal_move(&Move::new(sq("e1"), sq("g1"), None)));
    let board = Board::from_fen("4k3/8/8/8/8/8/8/4K2R w K - 0 1").unwrap();
    assert!(board.is_legal_move(&Move::new(sq("e1"), sq("g1"), None)));
    let board = Board::from_fen("4k3/8/8/8/8/8/8/4K2R w - - 0 1").unwrap();
    assert!(!board.is_legal_move(&Move::new(sq("e1"), sq("g1"), None)));
}

#[test]
fn promotion_offers_four_kinds() {
    let mut board = Board::from_fen("8/4P3/8/8/8/8/k7/4K3 w - - 0 1").unwrap();
    let moves = moves_from(&board, "e7");
    assert_eq!(moves.len(), 4);
    assert!(!board.is_legal_move(&Move::new(sq("e7"), sq("e8"), None)));
    assert!(!board.is_legal_move(&Move::new(sq("e7"), sq("e8"), Some(PieceType::King))));
    play(&mut board, "e7e8n");
    assert_eq!(board.piece_at(sq("e8")), Some(Piece::new(PieceType::Knight, Player::White)));
    assert_eq!(board.piece_at(sq("e7")), None);
}

#[test]
fn fullmove_number_counts_black_moves() {
    let mut board = Board::new();
    play(&mut board, "g1f3");
    assert_eq!(board.move_count(), 1);
    assert_eq!(board.current_player(), Player::Black);
    play(&mut board, "g8f6");
    assert_eq!(board.move_count(), 2);
    assert_eq!(board.current_player(), Player::White);
    assert_eq!(board.halfmove_clock(), 2);
}

#[test]
fn position_text_round_trips_through_from_fen() {
    let mut board = Board::new();
    for m in ["e2e4", "d7d5", "e4d5", "g8f6", "f1b5"] {
        play(&mut board, m);
    }
    let text = board.to_fen();
    let rebuilt = Board::from_fen(&text).unwrap();
    assert_eq!(rebuilt.to_fen(), text);
    assert!(rebuilt == board);
    assert_eq!(Board::from_fen(START).unwrap().to_fen(), START);
    assert!(Board::from_fen(START).unwrap() == Board::new());
}

#[test]
fn from_fen_rejects_malformed_text() {
    for bad in [
        "",
        "rnbqkbnr/pppppppp/8/8/8/8/PPPPPPPP/RNBQKBNR w KQkq - 0",
        "rnbqkbnr/pppppppp/44/8/8/8/PPPPPPPP/RNBQKBNR w KQkq - 0 1",
        "rnbqkbnr/pppppppp/8/8/8/8/PPPPPPPP w KQkq - 0 1",
        "rnbqkbnr/pppppppp/8/8/8/8/PPPPPPPP/RNBQKBNR x KQkq - 0 1",
        "rnbqkbnr/pppppppp/8/8/8/8/PPPPPPPP/RNBQKBNR w QKkq - 0 1",
        "rnbqkbnr/pppppppp/9/8/8/8/PPPPPPPP/RNBQKBNR w KQkq - 0 1",
        "rnbqkbnr/pppppppp/8/8/8/8/PPPPPPPP/RNBQKBNR w KQkq - 0 01",
        "8/8/8/8/8/8/8/8 w - - 0 1",
        "4k3/8/8/8/8/8/8/3KK3 w - - 0 1",
        "8/8/8/8/8/8/8/4K3 w - - 0 1",
        "rnbqkbnr/pppppppp/8/8/4P3/8/PPPP1PPP/RNBQKBNR w KQkq e3 0 1",
        "rnbqkbnr/pppppppp/8/8/4P3/8/PPPP1PPP/RNBQKBNR b KQkq e4 0 1",
        "rnbqkbnr/pppppppp/8/8/4P3/8/PPPP1PPP/RNBQKBNR b KQkq d3 0 1",
        "rnbqkbnr/pppppppp/8/8/8/4N3/PPPP1PPP/RNBQKB1R b KQkq e3 0 1",
    ] {
        assert_eq!(Board::from_fen(bad).err(), Some(ChessError::InvalidPositionText), "{}", bad);
    }
}

#[test]
fn threefold_repetition_is_a_draw() {
    let mut board = Board::new();
    for m in ["g1f3", "g8f6", "f3g1", "f6g8"] {
        play(&mut board, m);
    }
    assert_eq!(board.game_state(), GameState::InProgress);
    for m in ["g1f3", "g8f6", "f3g1"] {
        play(&mut board, m);
    }
    assert_eq!(board.game_state(), GameState::InProgress);
    play(&mut board, "f6g8");
    assert_eq!(board.game_state(), GameState::Draw);
    assert_eq!(board.to_fen(), "rnbqkbnr/pppppppp/8/8/8/8/PPPPPPPP/RNBQKBNR w KQkq - 8 5");
}

#[test]
fn pawn_move_clears_repetition_count() {
    let mut board = Board::new();
    for m in ["g1f3", "g8f6", "f3g1", "f6g8", "e2e4", "e7e5"] {
        play(&mut board, m);
    }
    // The position after e7e5 has an en-passant target, so it does not repeat.
    for _ in 0..2 {
        for m in ["g1f3", "g8f6", "f3g1", "f6g8"] {
            play(&mut board, m);
        }
        assert_eq!(board.game_state(), GameState::InProgress);
    }
    for m in ["g1f3", "g8f6", "f3g1", "f6g8"] {
        play(&mut board, m);
    }
    assert_eq!(board.game_state(), GameState::Draw);
}

#[test]
fn boards_with_different_state_differ() {
    let a = Board::from_fen("4k3/8/8/8/8/8/8/4K3 w - - 0 1").unwrap();
    let b = Board::from_fen("4k3/8/8/8/8/8/8/4K3 b - - 0 1").unwrap();
    let c = Board::from_fen("4k3/8/8/8/8/8/8/4K3 w - - 1 1").unwrap();
    let d = Board::from_fen("4k3/8/8/8/8/8/8/3K4 w - - 0 1").unwrap();
    assert!(a == Board::from_fen("4k3/8/8/8/8/8/8/4K3 w - - 0 1").unwrap());
    assert!(!(a == b));
    assert!(!(a == c));
    assert!(!(a == d));
}

#[test]
fn en_passant_target_text_is_accepted_where_a_pawn_skipped() {
    let text = "rnbqkbnr/pppppppp/8/8/4P3/8/PPPP1PPP/RNBQKBNR b KQkq e3 0 1";
    let board = Board::from_fen(text).unwrap();
    assert!(board.is_consistent());
    assert_eq!(board.en_passant_target(), Some(sq("e3")));
}

#[test]
fn a_king_is_never_captured() {
    let board = Board::from_fen("4k3/8/8/8/8/8/8/4R1K1 w - - 0 1").unwrap();
    assert!(!board.is_legal_move(&Move::new(sq("e1"), sq("e8"), None)));
    assert!(board.get_legal_moves().iter().all(|m| m.to() != sq("e8")));
}

#[test]
fn boards_reached_by_moves_stay_consistent() {
    let mut board = Board::new();
    assert!(board.is_consistent());
    for m in ["e2e4", "d7d5", "e4e5", "f7f5", "e5f6", "e8f7", "f6g7", "f7e6", "g7h8q"] {
        play(&mut board, m);
        assert!(board.is_consistent(), "{}", m);
        let copy = board.clone();
        assert!(copy == board);
        assert!(Board::from_fen(&board.to_fen()).unwrap() == board);
    }
}
