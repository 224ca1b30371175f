//! Decisions of the line-based protocol spoken with an external move-search
//! process. The session is a state machine: it is told each line the process
//! writes (or that its output ended) and answers with what to do next. Running
//! the process and moving the lines is left to the caller.

use vstd::prelude::*;
use crate::board::Board;
use crate::fen::position_text;
use crate::moves::Move;
use crate::pieces::PieceType;
use crate::position::{file_index, file_of_char, rank_index, rank_of_char, Position};
use crate::text::{decimal, push_decimal, push_text};

verus! {

/// Where a session stands in its lifetime.
#[derive(Debug, Clone, Copy, PartialEq, Eq, Structural)]
pub enum EnginePhase {
    /// The initialization command was sent; its acknowledgement is awaited.
    AwaitingHandshake,
    /// The readiness check was sent; its acknowledgement is awaited.
    AwaitingReady,
    /// Idle: a search may be requested.
    Ready,
    /// A search was requested; its result line is awaited.
    Searching,
    /// The process was told to quit, or its output ended.
    Terminated,
}

/// Failures of a session with the engine process.
#[derive(Debug, Clone, Copy, PartialEq, Eq, Structural)]
pub enum EngineError {
    /// The process could not be started.
    SpawnFailed,
    /// The output ended before both acknowledgements of the handshake came.
    HandshakeFailed,
    /// The output ended before a result line came.
    StreamEnded,
    /// The result line carries a move text that does not parse.
    MalformedReply,
    /// No awaited line came before the caller's deadline.
    Timeout,
    /// Reading from or writing to the process failed.
    Io,
}

/// What the caller does after handing a line to the session.
#[derive(Debug, Clone, PartialEq, Eq)]
pub enum EngineStep {
    /// Read the next line.
    Wait,
    /// Send this command, then read the next line.
    Send(String),
    /// The handshake is complete.
    Ready,
    /// The search ended with this move, or with none.
    BestMove(Option<Move>),
    /// The session failed.
    Failed(EngineError),
}

pub open spec fn is_space(c: char) -> bool {
    c == ' ' || c == '\t' || c == '\n' || c == '\r' || c == '\x0C'
}

/// `needle` occurs somewhere in `hay`.
pub open spec fn contains_text(hay: Seq<char>, needle: Seq<char>) -> bool {
    exists|i: int| 0 <= i && i + needle.len() <= hay.len() && #[trigger] hay.subrange(i, i + needle.len()) == needle
}

pub open spec fn starts_with(s: Seq<char>, prefix: Seq<char>) -> bool {
    prefix.len() <= s.len() && s.subrange(0, prefix.len() as int) == prefix
}

/// The first index at or after `i` that does not hold a space.
pub open spec fn skip_spaces(s: Seq<char>, i: int) -> int
    decreases s.len() - i,
{
    if 0 <= i < s.len() && is_space(s[i]) { skip_spaces(s, i + 1) } else { i }
}

/// The first index at or after `i` that holds a space, or the end.
pub open spec fn word_end(s: Seq<char>, i: int) -> int
    decreases s.len() - i,
{
    if 0 <= i < s.len() && !is_space(s[i]) { word_end(s, i + 1) } else { i }
}

/// The second space-separated word of a line (empty when there is none).
pub open spec fn second_word(s: Seq<char>) -> Seq<char> {
    let a = skip_spaces(s, word_end(s, skip_spaces(s, 0)));
    s.subrange(a, word_end(s, a))
}

pub open spec fn promotion_of_char(c: char) -> Option<PieceType> {
    if c == 'q' { Some(PieceType::Queen) }
    else if c == 'r' { Some(PieceType::Rook) }
    else if c == 'b' { Some(PieceType::Bishop) }
    else if c == 'n' { Some(PieceType::Knight) }
    else { None }
}

/// The promotion kind that move text of the protocol names: the kind of its
/// fifth letter, or none for four letters.
pub open spec fn parsed_promotion(t: Seq<char>) -> Option<PieceType> {
    if t.len() == 5 { promotion_of_char(t[4]) } else { None }
}

/// Move text of the protocol: source square, destination square, and an
/// optional lower-case promotion letter `q r b n`.
pub open spec fn well_formed_move_text(t: Seq<char>) -> bool {
    &&& t.len() == 4 || t.len() == 5
    &&& file_of_char(t[0]) is Some
    &&& rank_of_char(t[1]) is Some
    &&& file_of_char(t[2]) is Some
    &&& rank_of_char(t[3]) is Some
    &&& t.len() == 5 ==> promotion_of_char(t[4]) is Some
}

pub open spec fn init_command() -> Seq<char> {
    seq!['u', 'c', 'i']
}

pub open spec fn ready_command() -> Seq<char> {
    seq!['i', 's', 'r', 'e', 'a', 'd', 'y']
}

pub open spec fn quit_command() -> Seq<char> {
    seq!['q', 'u', 'i', 't']
}

pub open spec fn init_ack() -> Seq<char> {
    seq!['u', 'c', 'i', 'o', 'k']
}

pub open spec fn ready_ack() -> Seq<char> {
    seq!['r', 'e', 'a', 'd', 'y', 'o', 'k']
}

pub open spec fn result_keyword() -> Seq<char> {
    seq!['b', 'e', 's', 't', 'm', 'o', 'v', 'e']
}

pub open spec fn no_move_word() -> Seq<char> {
    seq!['(', 'n', 'o', 'n', 'e', ')']
}

/// The command that sets the position: `position fen <position text>`.
pub open spec fn position_command(v: crate::rules::BoardView) -> Seq<char> {
    seq!['p', 'o', 's', 'i', 't', 'i', 'o', 'n', ' ', 'f', 'e', 'n', ' '] + position_text(v)
}

/// The command that starts a search bounded in time: `go movetime <millis>`.
pub open spec fn search_command(millis: u64) -> Seq<char> {
    seq!['g', 'o', ' ', 'm', 'o', 'v', 'e', 't', 'i', 'm', 'e', ' '] + decimal(millis as nat)
}

pub(crate) fn is_space_char(c: char) -> (b: bool)
    ensures
        b == is_space(c),
{
    c == ' ' || c == '\t' || c == '\n' || c == '\r' || c == '\x0C'
}

/// Whether `needle` occurs in `hay`.
pub fn find_text(hay: &str, needle: &str) -> (b: bool)
    ensures
        b == contains_text(hay@, needle@),
{
    let n = hay.unicode_len();
    let k = needle.unicode_len();
    if k > n {
        return false;
    }
    let mut i: usize = 0;
    while i <= n - k
        invariant
            n == hay@.len(),
            k == needle@.len(),
            k <= n,
            i <= n - k + 1,
            forall|j: int| 0 <= j < i ==> #[trigger] hay@.subrange(j, j + k) != needle@,
        decreases n - i,
    {
        let mut same = true;
        let mut m: usize = 0;
        while m < k
            invariant
                n == hay@.len(),
                k == needle@.len(),
                i + k <= n,
                m <= k,
                same == (forall|q: int| 0 <= q < m ==> hay@[i + q] == needle@[q]),
            decreases k - m,
        {
            if hay.get_char(i + m) != needle.get_char(m) {
                same = false;
            }
            m += 1;
        }
        if same {
            assert(hay@.subrange(i as int, i + k) =~= needle@);
            return true;
        }
        proof {
            if hay@.subrange(i as int, i + k) == needle@ {
                assert forall|q: int| 0 <= q < k implies hay@[i + q] == needle@[q] by {
                    assert(hay@.subrange(i as int, i + k)[q] == hay@[i + q]);
                }
            }
        }
        i += 1;
    }
    false
}

fn starts_with_text(s: &str, prefix: &str) -> (b: bool)
    ensures
        b == starts_with(s@, prefix@),
{
    let n = s.unicode_len();
    let k = prefix.unicode_len();
    if k > n {
        return false;
    }
    let mut i: usize = 0;
    while i < k
        invariant
            n == s@.len(),
            k == prefix@.len(),
            k <= n,
            i <= k,
            forall|q: int| 0 <= q < i ==> s@[q] == prefix@[q],
        decreases k - i,
    {
        if s.get_char(i) != prefix.get_char(i) {
            assert(s@.subrange(0, k as int)[i as int] == s@[i as int]);
            return false;
        }
        i += 1;
    }
    assert(s@.subrange(0, k as int) =~= prefix@);
    true
}

fn skip_spaces_from(s: &str, n: usize, i: usize) -> (r: usize)
    requires
        n == s@.len(),
        i <= n,
    ensures
        r == skip_spaces(s@, i as int),
        i <= r <= n,
{
    let mut j = i;
    while j < n && is_space_char(s.get_char(j))
        invariant
            n == s@.len(),
            i <= j <= n,
            skip_spaces(s@, j as int) == skip_spaces(s@, i as int),
        decreases n - j,
    {
        j += 1;
    }
    j
}

fn word_end_from(s: &str, n: usize, i: usize) -> (r: usize)
    requires
        n == s@.len(),
        i <= n,
    ensures
        r == word_end(s@, i as int),
        i <= r <= n,
{
    let mut j = i;
    while j < n && !is_space_char(s.get_char(j))
        invariant
            n == s@.len(),
            i <= j <= n,
            word_end(s@, j as int) == word_end(s@, i as int),
        decreases n - j,
    {
        j += 1;
    }
    j
}

fn promotion_index(c: char) -> (r: Option<PieceType>)
    ensures
        r == promotion_of_char(c),
{
    if c == 'q' { Some(PieceType::Queen) }
    else if c == 'r' { Some(PieceType::Rook) }
    else if c == 'b' { Some(PieceType::Bishop) }
    else if c == 'n' { Some(PieceType::Knight) }
    else { None }
}

/// Parses move text of the protocol, such as `e2e4` or `e7e8q`.
pub fn parse_uci_move(text: &str) -> (r: Result<Move, EngineError>)
    ensures
        r is Ok <==> well_formed_move_text(text@),
        r matches Ok(m) ==> {
            &&& m.protocol_text() == text@
            &&& m.promo() == parsed_promotion(text@)
            &&& m.source().valid()
            &&& m.target().valid()
            &&& !m.capture_flag() && !m.castling_flag() && !m.en_passant_flag()
        },
        r matches Err(e) ==> e == EngineError::MalformedReply,
{
    let n = text.unicode_len();
    if n != 4 && n != 5 {
        return Err(EngineError::MalformedReply);
    }
    let f0 = match file_index(text.get_char(0)) {
        Some(f) => f,
        None => {
            return Err(EngineError::MalformedReply);
        },
    };
    let r0 = match rank_index(text.get_char(1)) {
        Some(r) => r,
        None => {
            return Err(EngineError::MalformedReply);
        },
    };
    let f1 = match file_index(text.get_char(2)) {
        Some(f) => f,
        None => {
            return Err(EngineError::MalformedReply);
        },
    };
    let r1 = match rank_index(text.get_char(3)) {
        Some(r) => r,
        None => {
            return Err(EngineError::MalformedReply);
        },
    };
    let promotion = if n == 5 {
        match promotion_index(text.get_char(4)) {
            Some(k) => Some(k),
            None => {
                return Err(EngineError::MalformedReply);
            },
        }
    } else {
        None
    };
    let m = Move::new(Position { file: f0, rank: r0 }, Position { file: f1, rank: r1 }, promotion);
    assert(m.protocol_text() =~= text@);
    Ok(m)
}

/// The step that the second word `w` of a result line calls for.
pub open spec fn result_step(w: Seq<char>, step: EngineStep) -> bool {
    if w == no_move_word() {
        step == EngineStep::BestMove(None)
    } else if well_formed_move_text(w) {
        step matches EngineStep::BestMove(Some(m)) && m.protocol_text() == w && m.source().valid()
            && m.target().valid() && m.promo() == parsed_promotion(w)
            && !m.capture_flag() && !m.castling_flag() && !m.en_passant_flag()
    } else {
        step == EngineStep::Failed(EngineError::MalformedReply)
    }
}

/// Reads a result line: its second word is a move, or the sentinel for no
/// move; anything else, an empty word included, is malformed.
fn read_result(line: &str) -> (step: EngineStep)
    ensures
        result_step(second_word(line@), step),
{
    let n = line.unicode_len();
    let a0 = skip_spaces_from(line, n, 0);
    let e0 = word_end_from(line, n, a0);
    let a = skip_spaces_from(line, n, e0);
    let b = word_end_from(line, n, a);
    let word = line.substring_char(a, b);
    proof {
        reveal_strlit("(none)");
        assert("(none)"@ =~= no_move_word());
    }
    assert(word@ == second_word(line@));
    if find_equal(word, "(none)") {
        return EngineStep::BestMove(None);
    }
    match parse_uci_move(word) {
        Ok(m) => EngineStep::BestMove(Some(m)),
        Err(e) => EngineStep::Failed(e),
    }
}

fn find_equal(a: &str, b: &str) -> (r: bool)
    ensures
        r == (a@ == b@),
{
    let n = a.unicode_len();
    if n != b.unicode_len() {
        return false;
    }
    let mut i: usize = 0;
    while i < n
        invariant
            n == a@.len(),
            n == b@.len(),
            i <= n,
            forall|q: int| 0 <= q < i ==> a@[q] == b@[q],
        decreases n - i,
    {
        if a.get_char(i) != b.get_char(i) {
            return false;
        }
        i += 1;
    }
    assert(a@ =~= b@);
    true
}

/// One session with an engine process, from the handshake to the quit command.
pub struct EngineSession {
    phase: EnginePhase,
}

impl View for EngineSession {
    type V = EnginePhase;

    closed spec fn view(&self) -> EnginePhase {
        self.phase
    }
}

impl EngineSession {
    /// A new session and the initialization command to send first.
    pub fn start() -> (r: (EngineSession, String))
        ensures
            r.0@ == EnginePhase::AwaitingHandshake,
            r.1@ == init_command(),
    {
        proof {
            reveal_strlit("uci");
        }
        (EngineSession { phase: EnginePhase::AwaitingHandshake }, String::from_str("uci"))
    }

    pub fn phase(&self) -> (r: EnginePhase)
        ensures
            r == self@,
    {
        self.phase
    }

    /// Takes one line written by the process and says what to do next:
    /// during the handshake a line holding the acknowledgement token moves the
    /// session on; while searching, the result line ends the search; other
    /// lines are read past.
    pub fn on_line(&mut self, line: &str) -> (step: EngineStep)
        ensures
            old(self)@ == EnginePhase::AwaitingHandshake ==> if contains_text(line@, init_ack()) {
                &&& final(self)@ == EnginePhase::AwaitingReady
                &&& step matches EngineStep::Send(c) && c@ == ready_command()
            } else {
                final(self)@ == old(self)@ && step == EngineStep::Wait
            },
            old(self)@ == EnginePhase::AwaitingReady ==> if contains_text(line@, ready_ack()) {
                final(self)@ == EnginePhase::Ready && step == EngineStep::Ready
            } else {
                final(self)@ == old(self)@ && step == EngineStep::Wait
            },
            old(self)@ == EnginePhase::Searching ==> if starts_with(line@, result_keyword()) {
                final(self)@ == EnginePhase::Ready && result_step(second_word(line@), step)
            } else {
                final(self)@ == old(self)@ && step == EngineStep::Wait
            },
            old(self)@ == EnginePhase::Ready || old(self)@ == EnginePhase::Terminated ==> {
                final(self)@ == old(self)@ && step == EngineStep::Wait
            },
    {
        proof {
            reveal_strlit("uciok");
            reveal_strlit("readyok");
            reveal_strlit("bestmove");
            reveal_strlit("isready");
            assert("uciok"@ =~= init_ack());
            assert("readyok"@ =~= ready_ack());
            assert("bestmove"@ =~= result_keyword());
            assert("isready"@ =~= ready_command());
        }
        match self.phase {
            EnginePhase::AwaitingHandshake => {
                if find_text(line, "uciok") {
                    self.phase = EnginePhase::AwaitingReady;
                    EngineStep::Send(String::from_str("isready"))
                } else {
                    EngineStep::Wait
                }
            },
            EnginePhase::AwaitingReady => {
                if find_text(line, "readyok") {
                    self.phase = EnginePhase::Ready;
                    EngineStep::Ready
                } else {
                    EngineStep::Wait
                }
            },
            EnginePhase::Searching => {
                if starts_with_text(line, "bestmove") {
                    self.phase = EnginePhase::Ready;
                    read_result(line)
                } else {
                    EngineStep::Wait
                }
            },
            _ => EngineStep::Wait,
        }
    }

    /// The process's output ended: the session is over, and this says which
    /// failure it is, if something was still awaited.
    pub fn on_end_of_output(&mut self) -> (e: Option<EngineError>)
        ensures
            final(self)@ == EnginePhase::Terminated,
            old(self)@ == EnginePhase::AwaitingHandshake || old(self)@ == EnginePhase::AwaitingReady
                ==> e == Some(EngineError::HandshakeFailed),
            old(self)@ == EnginePhase::Searching ==> e == Some(EngineError::StreamEnded),
            old(self)@ == EnginePhase::Ready || old(self)@ == EnginePhase::Terminated ==> e is None,
    {
        let e = match self.phase {
            EnginePhase::AwaitingHandshake | EnginePhase::AwaitingReady => Some(EngineError::HandshakeFailed),
            EnginePhase::Searching => Some(EngineError::StreamEnded),
            _ => None,
        };
        self.phase = EnginePhase::Terminated;
        e
    }

    /// The caller's deadline for the awaited line passed: the session is over
    /// if a line was awaited, and this says so; an idle session stays as it is.
    pub fn on_deadline(&mut self) -> (e: Option<EngineError>)
        ensures
            old(self)@ == EnginePhase::AwaitingHandshake || old(self)@ == EnginePhase::AwaitingReady
                || old(self)@ == EnginePhase::Searching ==> {
                &&& e == Some(EngineError::Timeout)
                &&& final(self)@ == EnginePhase::Terminated
            },
            old(self)@ == EnginePhase::Ready || old(self)@ == EnginePhase::Terminated ==> {
                &&& e is None
                &&& final(self)@ == old(self)@
            },
    {
        match self.phase {
            EnginePhase::Ready | EnginePhase::Terminated => None,
            _ => {
                self.phase = EnginePhase::Terminated;
                Some(EngineError::Timeout)
            },
        }
    }

    /// Starts a search on the board: the two commands to send, in order.
    pub fn request_move(&mut self, board: &Board, millis: u64) -> (cmds: (String, String))
        requires
            old(self)@ == EnginePhase::Ready,
        ensures
            final(self)@ == EnginePhase::Searching,
            cmds.0@ == position_command(board@),
            cmds.1@ == search_command(millis),
    {
        proof {
            reveal_strlit("position fen ");
            reveal_strlit("go movetime ");
        }
        let mut position = String::from_str("position fen ");
        let text = board.to_fen();
        push_text(&mut position, text.as_str());
        let mut search = String::from_str("go movetime ");
        push_decimal(&mut search, millis);
        assert(position@ =~= position_command(board@));
        assert(search@ =~= search_command(millis));
        self.phase = EnginePhase::Searching;
        (position, search)
    }

    /// Ends the session: the quit command to send.
    pub fn quit(&mut self) -> (cmd: String)
        ensures
            final(self)@ == EnginePhase::Terminated,
            cmd@ == quit_command(),
    {
        proof {
            reveal_strlit("quit");
        }
        self.phase = EnginePhase::Terminated;
        String::from_str("quit")
    }
}

} // verus!
