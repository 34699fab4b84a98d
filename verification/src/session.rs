//! Session protocol state machine.
//!
//! A session starts awaiting the one-shot handshake, then alternates
//! between awaiting a move and awaiting its acknowledgment, and ends in a
//! terminal state that no further message can leave. A rejected move
//! (`Ack { ok: false }`) keeps the turn with the same color, with no
//! bound on retries; a forfeit move terminates the session whatever the
//! acknowledgment carries; and a draw offer on an otherwise accepted
//! move does not by itself end the game — the game is drawn only when
//! the rule engine reports `Draw` in the acknowledgment.

use vstd::prelude::*;

use crate::codec::MsgKind;
use crate::msg::{Ack, ClockTime, GameState, Move, Start};

verus! {

/// The side to move.
#[derive(Debug, Clone, Copy, PartialEq, Eq, Structural)]
pub enum Color {
    White,
    Black,
}

/// The opposite side.
pub open spec fn opposite(c: Color) -> Color {
    match c {
        Color::White => Color::Black,
        Color::Black => Color::White,
    }
}

/// How a terminated session ended. Forfeits are signaled only by the
/// `forfeit` flag of the losing side's move, so the session derives the
/// two forfeit outcomes from which side sent it; the wire-level
/// `GameState` cannot carry them.
#[derive(Debug, Clone, Copy, PartialEq, Eq, Structural)]
pub enum Outcome {
    CheckMate,
    Draw,
    WhiteForfeited,
    BlackForfeited,
}

/// Where a session stands.
#[derive(Debug, Clone, Copy, PartialEq, Eq, Structural)]
pub enum SessionState {
    AwaitingStart,
    AwaitingMove(Color),
    AwaitingAck { mover: Color, forfeit: bool },
    Terminated(Outcome),
}

/// The message kind a session in the given state is prepared to handle.
#[derive(Debug, Clone, Copy, PartialEq, Eq, Structural)]
pub enum Expected {
    ExpectStart,
    ExpectMove,
    ExpectAck,
    ExpectNothing,
}

/// What each state expects next: a terminated session expects nothing.
pub open spec fn expected_of(st: SessionState) -> Expected {
    match st {
        SessionState::AwaitingStart => Expected::ExpectStart,
        SessionState::AwaitingMove(_) => Expected::ExpectMove,
        SessionState::AwaitingAck { .. } => Expected::ExpectAck,
        SessionState::Terminated(_) => Expected::ExpectNothing,
    }
}

/// What a session in the given state expects next.
pub fn expected_now(st: SessionState) -> (r: Expected)
    ensures
        r == expected_of(st),
{
    match st {
        SessionState::AwaitingStart => Expected::ExpectStart,
        SessionState::AwaitingMove(_) => Expected::ExpectMove,
        SessionState::AwaitingAck { .. } => Expected::ExpectAck,
        SessionState::Terminated(_) => Expected::ExpectNothing,
    }
}

/// A message arrived that the session's state does not admit: it says
/// what the session expected and what kind of message came instead.
/// Always fatal to the session; the state machine never guesses intent.
#[derive(Debug, Clone, Copy, PartialEq, Eq, Structural)]
pub struct ProtocolViolation {
    pub expected: Expected,
    pub received: MsgKind,
}

/// The outcome recorded when the given side forfeits.
pub open spec fn forfeit_outcome(c: Color) -> Outcome {
    match c {
        Color::White => Outcome::WhiteForfeited,
        Color::Black => Outcome::BlackForfeited,
    }
}

/// The state after an acknowledgment of a move sent by `mover` with the
/// given `forfeit` flag: a forfeit terminates the session whatever the
/// acknowledgment carries; a rejection keeps the turn with `mover` and
/// ignores `end_state`; an accepted, game-continuing move hands the turn
/// to the opposite side; and a reported `CheckMate` or `Draw` terminates
/// the session with that outcome.
pub open spec fn ack_next(mover: Color, forfeit: bool, a: Ack) -> SessionState {
    if forfeit {
        SessionState::Terminated(forfeit_outcome(mover))
    } else if !a.ok {
        SessionState::AwaitingMove(mover)
    } else {
        match a.end_state {
            None => SessionState::AwaitingMove(opposite(mover)),
            Some(GameState::InProgress) => SessionState::AwaitingMove(opposite(mover)),
            Some(GameState::CheckMate) => SessionState::Terminated(Outcome::CheckMate),
            Some(GameState::Draw) => SessionState::Terminated(Outcome::Draw),
        }
    }
}

/// The side to move, when a side is to move.
pub open spec fn to_move_of(st: SessionState) -> Option<Color> {
    match st {
        SessionState::AwaitingMove(c) => Some(c),
        _ => None,
    }
}

/// The recorded outcome, once the session is terminated.
pub open spec fn outcome_of(st: SessionState) -> Option<Outcome> {
    match st {
        SessionState::Terminated(o) => Some(o),
        _ => None,
    }
}

/// One session of the protocol: its sequencing state and the parameters
/// recorded from the handshake.
#[derive(Debug, Clone)]
pub struct Session {
    /// Where the session stands.
    pub state: SessionState,
    /// The color the handshake assigned to this peer, once received.
    pub assigned_white: Option<bool>,
    /// The peer name carried by the handshake, if any.
    pub name: Option<String>,
    /// The custom starting position carried by the handshake, if any.
    pub fen: Option<String>,
    /// The per-side clock allotment, if the handshake set one.
    pub time: Option<ClockTime>,
    /// The per-move increment, if the handshake set one.
    pub inc: Option<ClockTime>,
}

impl Session {
    /// A fresh session: awaiting the handshake, nothing recorded.
    pub fn new() -> (s: Session)
        ensures
            s.state == SessionState::AwaitingStart,
            s.assigned_white is None,
            s.name is None,
            s.fen is None,
            s.time is None,
            s.inc is None,
    {
        Session {
            state: SessionState::AwaitingStart,
            assigned_white: None,
            name: None,
            fen: None,
            time: None,
            inc: None,
        }
    }

    /// Handles the handshake. Legal exactly in the initial state: the
    /// session records the assigned color, name, starting position and
    /// clock parameters, and White is to move. In any other state —
    /// a terminated session included — the message is refused and the
    /// session is left unchanged.
    pub fn on_start(&mut self, m: Start) -> (r: Result<(), ProtocolViolation>)
        ensures
            old(self).state is AwaitingStart ==> r is Ok && final(self).state
                == SessionState::AwaitingMove(Color::White) && final(self).assigned_white == Some(
                m.is_white,
            ) && final(self).name == m.name && final(self).fen == m.fen && final(self).time
                == m.time && final(self).inc == m.inc,
            !(old(self).state is AwaitingStart) ==> r == Err::<(), ProtocolViolation>(
                ProtocolViolation {
                    expected: expected_of(old(self).state),
                    received: MsgKind::Start,
                },
            ) && *final(self) == *old(self),
            old(self).state is Terminated ==> r is Err && *final(self) == *old(self),
    {
        match self.state {
            SessionState::AwaitingStart => {
                self.state = SessionState::AwaitingMove(Color::White);
                self.assigned_white = Some(m.is_white);
                self.name = m.name;
                self.fen = m.fen;
                self.time = m.time;
                self.inc = m.inc;
                Ok(())
            },
            _ => Err(
                ProtocolViolation { expected: expected_now(self.state), received: MsgKind::Start },
            ),
        }
    }

    /// Handles a move from the side to move. Legal exactly while a side
    /// is to move: the session then awaits the acknowledgment of this
    /// move, remembering who sent it and whether it forfeits. In any
    /// other state the message is refused and the session is left
    /// unchanged.
    pub fn on_move(&mut self, m: Move) -> (r: Result<(), ProtocolViolation>)
        ensures
            old(self).state matches SessionState::AwaitingMove(c) ==> r is Ok && *final(self) == (
            Session {
                state: SessionState::AwaitingAck { mover: c, forfeit: m.forfeit },
                ..*old(self)
            }),
            !(old(self).state is AwaitingMove) ==> r == Err::<(), ProtocolViolation>(
                ProtocolViolation {
                    expected: expected_of(old(self).state),
                    received: MsgKind::Move,
                },
            ) && *final(self) == *old(self),
            old(self).state is Terminated ==> r is Err && *final(self) == *old(self),
    {
        match self.state {
            SessionState::AwaitingMove(c) => {
                self.state = SessionState::AwaitingAck { mover: c, forfeit: m.forfeit };
                Ok(())
            },
            _ => Err(
                ProtocolViolation { expected: expected_now(self.state), received: MsgKind::Move },
            ),
        }
    }

    /// Handles the acknowledgment of the pending move. Legal exactly
    /// while an acknowledgment is awaited; the session moves to
    /// `ack_next` of the pending move and this acknowledgment. In any
    /// other state the message is refused and the session is left
    /// unchanged.
    pub fn on_ack(&mut self, a: Ack) -> (r: Result<(), ProtocolViolation>)
        ensures
            old(self).state matches SessionState::AwaitingAck { mover, forfeit } ==> r is Ok
                && *final(self) == (Session { state: ack_next(mover, forfeit, a), ..*old(self) }),
            !(old(self).state is AwaitingAck) ==> r == Err::<(), ProtocolViolation>(
                ProtocolViolation { expected: expected_of(old(self).state), received: MsgKind::Ack },
            ) && *final(self) == *old(self),
            old(self).state is Terminated ==> r is Err && *final(self) == *old(self),
    {
        match self.state {
            SessionState::AwaitingAck { mover, forfeit } => {
                if forfeit {
                    self.state = SessionState::Terminated(
                        match mover {
                            Color::White => Outcome::WhiteForfeited,
                            Color::Black => Outcome::BlackForfeited,
                        },
                    );
                } else if !a.ok {
                    self.state = SessionState::AwaitingMove(mover);
                } else {
                    self.state = match a.end_state {
                        None => SessionState::AwaitingMove(
                            match mover {
                                Color::White => Color::Black,
                                Color::Black => Color::White,
                            },
                        ),
                        Some(GameState::InProgress) => SessionState::AwaitingMove(
                            match mover {
                                Color::White => Color::Black,
                                Color::Black => Color::White,
                            },
                        ),
                        Some(GameState::CheckMate) => SessionState::Terminated(Outcome::CheckMate),
                        Some(GameState::Draw) => SessionState::Terminated(Outcome::Draw),
                    };
                }
                Ok(())
            },
            _ => Err(
                ProtocolViolation { expected: expected_now(self.state), received: MsgKind::Ack },
            ),
        }
    }

    /// The side to move, while a side is to move.
    pub fn to_move(&self) -> (r: Option<Color>)
        ensures
            r == to_move_of(self.state),
    {
        match self.state {
            SessionState::AwaitingMove(c) => Some(c),
            _ => None,
        }
    }

    /// The recorded outcome, once the session is terminated.
    pub fn outcome(&self) -> (r: Option<Outcome>)
        ensures
            r == outcome_of(self.state),
    {
        match self.state {
            SessionState::Terminated(o) => Some(o),
            _ => None,
        }
    }
}

/// True of a move/acknowledgment round that keeps the game going: no
/// forfeit, the move accepted, and no terminal state reported.
pub open spec fn accepted_round(m: Move, a: Ack) -> bool {
    &&& !m.forfeit
    &&& a.ok
    &&& (a.end_state is None || a.end_state == Some(GameState::InProgress))
}

/// The state after playing a sequence of move/acknowledgment rounds from
/// a position where `c` is to move: each round passes through
/// `AwaitingAck` and lands where `ack_next` says; a round that lands
/// anywhere but `AwaitingMove` stops the run there.
pub open spec fn run_rounds(c: Color, rounds: Seq<(Move, Ack)>) -> SessionState
    decreases rounds.len(),
{
    if rounds.len() == 0 {
        SessionState::AwaitingMove(c)
    } else {
        match ack_next(c, rounds[0].0.forfeit, rounds[0].1) {
            SessionState::AwaitingMove(c2) => run_rounds(c2, rounds.drop_first()),
            st => st,
        }
    }
}

/// The side to move after `k` completed turns, counting from a position
/// where `c` was to move.
pub open spec fn color_after(c: Color, k: int) -> Color {
    if k % 2 == 0 {
        c
    } else {
        opposite(c)
    }
}

/// Turn alternation: over any sequence of accepted, game-continuing,
/// non-forfeit rounds the side to move strictly alternates — after `k`
/// rounds it is the starting side exactly when `k` is even. The
/// handshake puts White to move first, so alternation starts with White.
pub proof fn lemma_turn_alternation(c: Color, rounds: Seq<(Move, Ack)>)
    requires
        forall|i: int|
            0 <= i < rounds.len() ==> #[trigger] accepted_round(rounds[i].0, rounds[i].1),
    ensures
        run_rounds(c, rounds) == SessionState::AwaitingMove(color_after(c, rounds.len() as int)),
    decreases rounds.len(),
{
    if rounds.len() == 0 {
    } else {
        assert(accepted_round(rounds[0].0, rounds[0].1));
        assert(ack_next(c, rounds[0].0.forfeit, rounds[0].1) == SessionState::AwaitingMove(
            opposite(c),
        ));
        lemma_turn_alternation(opposite(c), rounds.drop_first());
        assert(color_after(opposite(c), rounds.len() - 1) == color_after(c, rounds.len() as int));
    }
}

/// Rejected-move idempotence: an acknowledgment with `ok` false keeps
/// the turn with the very color that moved, whatever `end_state` it
/// carries — the same side is expected to retry. (A forfeit move is the
/// one exception: a forfeit terminates the session even if rejected.)
pub proof fn lemma_rejected_keeps_turn(mover: Color, a: Ack)
    requires
        !a.ok,
    ensures
        ack_next(mover, false, a) == SessionState::AwaitingMove(mover),
{
}

} // verus!
