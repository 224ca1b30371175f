use chess_cli::engine::{parse_uci_move, EngineError, EnginePhase, EngineSession, EngineStep};
use chess_cli::{Board, PieceType, Position};

fn ready_session() -> EngineSession {
    let (mut session, first) = EngineSession::start();
    assert_eq!(first, "uci");
    assert_eq!(session.on_line("id name Scripted"), EngineStep::Wait);
    assert_eq!(session.on_line("uciok"), EngineStep::Send("isready".to_string()));
    assert_eq!(session.phase(), EnginePhase::AwaitingReady);
    assert_eq!(session.on_line("readyok"), EngineStep::Ready);
    assert_eq!(session.phase(), EnginePhase::Ready);
    session
}

#[test]
fn scripted_engine_returns_best_move() {
    let mut session = ready_session();
    let board = Board::new();
    let (position, go) = session.request_move(&board, 1000);
    assert_eq!(position, "position fen rnbqkbnr/pppppppp/8/8/8/8/PPPPPPPP/RNBQKBNR w KQkq - 0 1");
    assert_eq!(go, "go movetime 1000");
    assert_eq!(session.phase(), EnginePhase::Searching);
    assert_eq!(session.on_line("info depth 10 score cp 30"), EngineStep::Wait);
    match session.on_line("bestmove e2e4") {
        EngineStep::BestMove(Some(m)) => {
            assert_eq!(m.from(), Position::from_algebraic("e2").unwrap());
            assert_eq!(m.to(), Position::from_algebraic("e4").unwrap());
            assert_eq!(m.promotion(), None);
        }
        other => panic!("unexpected step {:?}", other),
    }
    assert_eq!(session.phase(), EnginePhase::Ready);
}

#[test]
fn scripted_engine_reports_no_move() {
    let mut session = ready_session();
    session.request_move(&Board::new(), 50);
    assert_eq!(session.on_line("bestmove (none)"), EngineStep::BestMove(None));
}

#[test]
fn result_line_without_move_is_malformed() {
    let mut session = ready_session();
    session.request_move(&Board::new(), 50);
    assert_eq!(session.on_line("bestmove"), EngineStep::Failed(EngineError::MalformedReply));
    session.request_move(&Board::new(), 50);
    assert_eq!(session.on_line("bestmove   "), EngineStep::Failed(EngineError::MalformedReply));
}

#[test]
fn result_line_with_ponder_and_promotion() {
    let mut session = ready_session();
    session.request_move(&Board::new(), 5);
    match session.on_line("bestmove e7e8q ponder d2d4") {
        EngineStep::BestMove(Some(m)) => {
            assert_eq!(m.promotion(), Some(PieceType::Queen));
            assert_eq!(m.to_uci(), "e7e8q");
        }
        other => panic!("unexpected step {:?}", other),
    }
}

#[test]
fn malformed_result_is_an_error() {
    let mut session = ready_session();
    session.request_move(&Board::new(), 5);
    assert_eq!(session.on_line("bestmove e9e4"), EngineStep::Failed(EngineError::MalformedReply));
    session.request_move(&Board::new(), 5);
    assert_eq!(session.on_line("bestmove e2e4x"), EngineStep::Failed(EngineError::MalformedReply));
}

#[test]
fn output_ending_early_is_reported() {
    let (mut session, _) = EngineSession::start();
    assert_eq!(session.on_end_of_output(), Some(EngineError::HandshakeFailed));
    assert_eq!(session.phase(), EnginePhase::Terminated);
    let mut session = ready_session();
    session.request_move(&Board::new(), 5);
    assert_eq!(session.on_end_of_output(), Some(EngineError::StreamEnded));
    let mut session = ready_session();
    assert_eq!(session.on_end_of_output(), None);
}

#[test]
fn lines_outside_a_search_are_ignored() {
    let mut session = ready_session();
    assert_eq!(session.on_line("bestmove e2e4"), EngineStep::Wait);
    assert_eq!(session.quit(), "quit");
    assert_eq!(session.phase(), EnginePhase::Terminated);
    assert_eq!(session.on_line("readyok"), EngineStep::Wait);
}

#[test]
fn protocol_move_text_parses() {
    let m = parse_uci_move("g1f3").unwrap();
    assert_eq!(m.from(), Position { file: 6, rank: 0 });
    assert_eq!(m.to(), Position { file: 5, rank: 2 });
    assert_eq!(parse_uci_move("a7a8n").unwrap().promotion(), Some(PieceType::Knight));
    assert_eq!(parse_uci_move("e7e8q").unwrap().promotion(), Some(PieceType::Queen));
    assert_eq!(parse_uci_move("e7e8r").unwrap().promotion(), Some(PieceType::Rook));
    assert_eq!(parse_uci_move("e7e8b").unwrap().promotion(), Some(PieceType::Bishop));
    assert_eq!(parse_uci_move("e2e4").unwrap().promotion(), None);
    for bad in ["", "e2", "e2e", "e2e4e5", "z2e4", "e2e4k", "e0e4"] {
        assert_eq!(parse_uci_move(bad), Err(EngineError::MalformedReply), "{}", bad);
    }
}

#[test]
fn deadline_ends_a_waiting_session() {
    let (mut session, _) = EngineSession::start();
    assert_eq!(session.on_deadline(), Some(EngineError::Timeout));
    assert_eq!(session.phase(), EnginePhase::Terminated);
    let mut session = ready_session();
    assert_eq!(session.on_deadline(), None);
    assert_eq!(session.phase(), EnginePhase::Ready);
    session.request_move(&Board::new(), 5);
    assert_eq!(session.on_deadline(), Some(EngineError::Timeout));
    assert_eq!(session.phase(), EnginePhase::Terminated);
}
