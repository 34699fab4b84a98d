//! Message types of the wire protocol and their well-formedness conditions.
//!
//! Three message kinds cross the wire: `Start` (the one-shot handshake),
//! `Move` (a move submission) and `Ack` (the reply to every `Move`).
//! Board squares are coordinate pairs `(file, rank)` with `(0, 0)` = a1 and
//! `(7, 0)` = h1. Clock amounts are carried as whole seconds plus a
//! nanosecond remainder, so every value of whole-second or coarser
//! granularity round-trips exactly; the nanosecond is the minimum
//! representable sub-second unit.

use vstd::prelude::*;
use vstd::utf8::encode_utf8;

verus! {

/// A span of time on the game clock: whole seconds plus a sub-second
/// remainder in nanoseconds. Well-formed values keep `nanos` below one
/// second (`1_000_000_000`).
#[derive(Debug, Clone, Copy, PartialEq, Eq, Structural)]
pub struct ClockTime {
    pub secs: u64,
    pub nanos: u32,
}

/// A `ClockTime` is well formed when its nanosecond remainder is less
/// than one second.
pub open spec fn clock_wf(c: ClockTime) -> bool {
    c.nanos < 1_000_000_000
}

/// The piece a pawn turns into on reaching the final rank. Present on a
/// `Move` exactly when that move is a pawn promotion.
#[derive(Debug, Clone, Copy, PartialEq, Eq, Structural)]
pub enum PromotionPiece {
    Queen,
    Bishop,
    Knight,
    Rook,
}

/// The game outcome as judged by the rule engine outside this protocol.
/// `InProgress` is permitted on the wire but means the same as an absent
/// `end_state`.
#[derive(Debug, Clone, Copy, PartialEq, Eq, Structural)]
pub enum GameState {
    InProgress,
    CheckMate,
    Draw,
}

/// The one-shot handshake, sent once per session by the color-assigning
/// peer.
///
/// `is_white` is the color assigned to the *recipient*; the sender takes
/// the opposite color. `name` is an optional display name. `fen` is an
/// optional custom starting position; absent means the standard start.
/// `time` is the per-side clock allotment and `inc` the per-move
/// increment; `inc` must be absent whenever `time` is absent.
#[derive(Debug, Clone)]
pub struct Start {
    pub is_white: bool,
    pub name: Option<String>,
    pub fen: Option<String>,
    pub time: Option<ClockTime>,
    pub inc: Option<ClockTime>,
}

/// A move submission, sent by the peer whose turn it is.
///
/// `from` and `to` are board squares, `(file, rank)` in `[0, 7]`; they
/// carry no meaning when `forfeit` or `offer_draw` is set. `promotion` is
/// present exactly when the move promotes a pawn. `forfeit` means "I
/// resign"; `offer_draw` proposes a draw alongside the move.
#[derive(Debug, Clone, Copy, PartialEq, Eq)]
pub struct Move {
    pub from: (u8, u8),
    pub to: (u8, u8),
    pub promotion: Option<PromotionPiece>,
    pub forfeit: bool,
    pub offer_draw: bool,
}

/// The reply to a `Move`: whether it was accepted, and the terminal state
/// it produced, if any. `end_state` is meaningful only when `ok` is true;
/// a rejected move keeps the game where it was.
#[derive(Debug, Clone, Copy, PartialEq, Eq)]
pub struct Ack {
    pub ok: bool,
    pub end_state: Option<GameState>,
}

/// The mathematical value of a `Start`: the same fields with each string
/// taken as its character sequence.
#[verifier::ext_equal]
pub ghost struct StartV {
    pub is_white: bool,
    pub name: Option<Seq<char>>,
    pub fen: Option<Seq<char>>,
    pub time: Option<ClockTime>,
    pub inc: Option<ClockTime>,
}

/// The character sequence carried by an optional string.
pub open spec fn opt_str_view(o: Option<String>) -> Option<Seq<char>> {
    match o {
        Some(s) => Some(s@),
        None => None,
    }
}

impl View for Start {
    type V = StartV;

    open spec fn view(&self) -> StartV {
        StartV {
            is_white: self.is_white,
            name: opt_str_view(self.name),
            fen: opt_str_view(self.fen),
            time: self.time,
            inc: self.inc,
        }
    }
}

/// A `Start` is well formed when each optional string fits the wire's
/// four-byte length field once UTF-8 encoded, each clock amount is well
/// formed, and an increment is only present together with a clock
/// allotment.
pub open spec fn start_wf(s: StartV) -> bool {
    &&& (s.name matches Some(n) ==> encode_utf8(n).len() < 0x1_0000_0000)
    &&& (s.fen matches Some(f) ==> encode_utf8(f).len() < 0x1_0000_0000)
    &&& (s.time matches Some(t) ==> clock_wf(t))
    &&& (s.inc matches Some(i) ==> clock_wf(i))
    &&& (s.inc is Some ==> s.time is Some)
}

/// A `Move` is well formed when all four square coordinates lie on the
/// board, that is in `[0, 7]`.
pub open spec fn move_wf(m: Move) -> bool {
    m.from.0 <= 7 && m.from.1 <= 7 && m.to.0 <= 7 && m.to.1 <= 7
}

} // verus!
