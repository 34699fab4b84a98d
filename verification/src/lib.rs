//! Wire protocol for a two-party turn-based chess session.
//!
//! The crate has two halves:
//! - a binary message schema and codec (`msg`, `codec`): three message
//!   kinds — a session-opening handshake (`Start`), a move submission
//!   (`Move`) and a move acknowledgment (`Ack`) — with a canonical,
//!   self-describing binary encoding that round-trips every well-formed
//!   value and rejects every other byte sequence with a typed error;
//! - a session protocol state machine (`session`) that sequences those
//!   messages, tracks whose turn it is, and reports game termination.

pub mod codec;
pub mod msg;
pub mod session;
pub mod wire;
