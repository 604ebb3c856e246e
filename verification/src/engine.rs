//! The engine's state and its reaction to one command at a time.
//!
//! Reading lines, parsing them into commands and printing replies is the
//! caller's part. [`EngineState::step`] decides what a command does to the
//! current position and what is to be answered.

use vstd::prelude::*;
use crate::board::{apply, is_legal, legal_moves, legal_moves_of, position_after, Position};
use crate::select::{choose_move, mate_flags, search_scores, selected, SelectError};

verus! {

/// A parsed command.
#[derive(Debug, PartialEq, Eq)]
pub enum Command {
    /// The handshake that opens a session.
    Handshake,
    /// The question whether the engine is ready.
    IsReady,
    /// The start of a new game.
    NewGame,
    /// Sets the position: from the initial position if `startpos` is set, else
    /// from the current one, followed by `moves`.
    SetPosition { startpos: bool, moves: Vec<chess::ChessMove> },
    /// Asks for a move.
    Go,
    /// Ends the session.
    Quit,
    /// A command that is accepted and has no effect.
    Ignored,
    /// Input that is no command.
    Unknown,
}

/// What the engine answers.
#[derive(Debug, PartialEq, Eq)]
pub enum Reply {
    /// Nothing is answered.
    Silent,
    /// The engine's identification and the acknowledgement of the handshake.
    Identify,
    /// The engine is ready.
    Ready,
    /// The move that the engine plays.
    BestMove(chess::ChessMove),
    /// The position has no legal move.
    NoMove,
    /// A line of information, for input that was not understood or not
    /// accepted.
    Info,
    /// The session is over.
    End,
}

/// The state of the engine: the game's position and what a search needs.
#[derive(Debug)]
pub struct EngineState {
    /// The standard initial position.
    pub initial: Position,
    /// The current position.
    pub current: Position,
    /// The depth of a search, in plies.
    pub depth: usize,
}

/// The position after the first `n` of `moves` from `p`, or `None` if one of
/// them is not legal where it is to be played.
pub open spec fn replayed(p: Position, moves: Seq<chess::ChessMove>, n: nat) -> Option<Position>
    decreases n,
{
    if n == 0 {
        Some(p)
    } else {
        match replayed(p, moves, (n - 1) as nat) {
            None => None,
            Some(q) => if legal_moves_of(q).contains(moves[n - 1]) {
                Some(position_after(q, moves[n - 1]))
            } else {
                None
            },
        }
    }
}

/// Plays `moves` from `p`, one after the other.
pub fn replay(p: &Position, moves: &Vec<chess::ChessMove>) -> (end: Option<Position>)
    ensures
        end == replayed(*p, moves@, moves@.len()),
{
    let mut q: Position = *p;
    let mut i: usize = 0;
    while i < moves.len()
        invariant
            i <= moves.len(),
            replayed(*p, moves@, i as nat) == Some(q),
        decreases moves.len() - i,
    {
        if !is_legal(&q, moves[i]) {
            proof {
                lemma_replay_stays_failed(*p, moves@, (i + 1) as nat, moves@.len());
            }
            return None;
        }
        q = apply(&q, moves[i]);
        i = i + 1;
    }
    Some(q)
}

/// Once a move of the list was not legal, no longer prefix can be played.
pub proof fn lemma_replay_stays_failed(p: Position, moves: Seq<chess::ChessMove>, m: nat, n: nat)
    requires
        m <= n,
        replayed(p, moves, m) is None,
    ensures
        replayed(p, moves, n) is None,
    decreases n,
{
    if m < n {
        lemma_replay_stays_failed(p, moves, m, (n - 1) as nat);
    }
}

/// What is answered when a move is asked for in position `p`: the selected
/// move; where the scores do not match the legal moves, the first legal move;
/// where there is no legal move, that there is none.
pub open spec fn answers_go(p: Position, depth: nat, reply: Reply) -> bool {
    let moves = legal_moves_of(p);
    let scores = search_scores(p, depth);
    match reply {
        Reply::BestMove(m) => selected(p, moves, scores, Ok::<chess::ChessMove, SelectError>(m))
            || (m == moves[0] && selected(
            p,
            moves,
            scores,
            Err::<chess::ChessMove, SelectError>(SelectError::ScoreMismatch),
        )),
        Reply::NoMove => selected(
            p,
            moves,
            scores,
            Err::<chess::ChessMove, SelectError>(SelectError::NoLegalMoves),
        ),
        _ => false,
    }
}

impl EngineState {
    /// The state at the start of a session: the current position is the
    /// initial one.
    pub fn new(initial: Position, depth: usize) -> (state: EngineState)
        ensures
            state.initial == initial,
            state.current == initial,
            state.depth == depth,
    {
        EngineState { initial, current: initial, depth }
    }

    /// What `step` owes: the reply to `cmd` in state `before`, and the state
    /// `after` that it leaves.
    pub open spec fn stepped(before: EngineState, cmd: Command, after: EngineState, reply: Reply) -> bool {
        &&& after.initial == before.initial
        &&& after.depth == before.depth
        &&& match cmd {
            Command::Handshake => reply == Reply::Identify && after.current == before.current,
            Command::IsReady => reply == Reply::Ready && after.current == before.current,
            Command::NewGame => reply == Reply::Ready && after.current == before.initial,
            Command::SetPosition { startpos, moves } => {
                let base = if startpos {
                    before.initial
                } else {
                    before.current
                };
                match replayed(base, moves@, moves@.len()) {
                    Some(end) => reply == Reply::Silent && after.current == end,
                    None => reply == Reply::Info && after.current == before.current,
                }
            },
            Command::Go => {
                &&& after.current == before.current
                &&& answers_go(before.current, before.depth as nat, reply)
            },
            Command::Quit => reply == Reply::End && after.current == before.current,
            Command::Ignored => reply == Reply::Silent && after.current == before.current,
            Command::Unknown => reply == Reply::Info && after.current == before.current,
        }
    }

    /// Reacts to one command: changes the current position as the command
    /// asks and returns what is to be answered.
    pub fn step(&mut self, cmd: &Command) -> (reply: Reply)
        ensures
            Self::stepped(*old(self), *cmd, *final(self), reply),
    {
        match cmd {
            Command::Handshake => Reply::Identify,
            Command::IsReady => Reply::Ready,
            Command::NewGame => {
                self.current = self.initial;
                Reply::Ready
            },
            Command::SetPosition { startpos, moves } => {
                let base: Position = if *startpos {
                    self.initial
                } else {
                    self.current
                };
                match replay(&base, moves) {
                    Some(end) => {
                        self.current = end;
                        Reply::Silent
                    },
                    None => Reply::Info,
                }
            },
            Command::Go => match choose_move(&self.current, self.depth) {
                Ok(m) => Reply::BestMove(m),
                Err(SelectError::NoLegalMoves) => Reply::NoMove,
                Err(SelectError::ScoreMismatch) => {
                    let moves = legal_moves(&self.current);
                    assert(mate_flags(self.current, moves@).len() == moves@.len());
                    Reply::BestMove(moves[0])
                },
            },
            Command::Quit => Reply::End,
            Command::Ignored => Reply::Silent,
            Command::Unknown => Reply::Info,
        }
    }
}

} // verus!
