//! Cross-checks of the codec against an independent implementation of
//! the same self-describing binary format: `rmp_serde` serializes plain
//! tuples, options, strings and integers through the identical wire
//! forms, so its output must agree byte for byte with this crate's
//! encoders, and it must read this crate's output back unchanged.

use chess_wire::codec::{encode_ack, encode_move, encode_start};
use chess_wire::msg::{Ack, ClockTime, GameState, Move, Start};

#[test]
fn start_agrees_with_rmp_serde() {
    let s = Start {
        is_white: true,
        name: Some("A".to_string()),
        fen: None,
        time: Some(ClockTime { secs: 600, nanos: 0 }),
        inc: Some(ClockTime { secs: 5, nanos: 0 }),
    };
    let ours = encode_start(&s).unwrap();
    let theirs = rmp_serde::to_vec(&(
        true,
        Some("A".to_string()),
        None::<String>,
        Some((600u64, 0u32)),
        Some((5u64, 0u32)),
    ))
    .unwrap();
    assert_eq!(ours, theirs);
}

#[test]
fn start_with_duration_agrees_with_rmp_serde() {
    let s = Start {
        is_white: false,
        name: Some("Bob".to_string()),
        fen: Some("fen".to_string()),
        time: Some(ClockTime { secs: 90, nanos: 250_000_000 }),
        inc: None,
    };
    let ours = encode_start(&s).unwrap();
    let theirs = rmp_serde::to_vec(&(
        false,
        Some("Bob".to_string()),
        Some("fen".to_string()),
        Some(std::time::Duration::new(90, 250_000_000)),
        None::<std::time::Duration>,
    ))
    .unwrap();
    assert_eq!(ours, theirs);
}

#[test]
fn move_agrees_with_rmp_serde() {
    let m = Move {
        from: (4, 1),
        to: (4, 3),
        promotion: Some(chess_wire::msg::PromotionPiece::Queen),
        forfeit: false,
        offer_draw: true,
    };
    let ours = encode_move(&m).unwrap();
    let theirs = rmp_serde::to_vec(&(
        (4u8, 1u8),
        (4u8, 3u8),
        Some("Queen".to_string()),
        false,
        true,
    ))
    .unwrap();
    assert_eq!(ours, theirs);
}

#[test]
fn ack_agrees_with_rmp_serde() {
    let a = Ack { ok: true, end_state: Some(GameState::CheckMate) };
    let ours = encode_ack(&a).unwrap();
    let theirs = rmp_serde::to_vec(&(true, Some("CheckMate".to_string()))).unwrap();
    assert_eq!(ours, theirs);
}

#[test]
fn rmp_serde_reads_our_bytes_back() {
    let s = Start {
        is_white: true,
        name: Some("Carol".to_string()),
        fen: None,
        time: Some(ClockTime { secs: 180, nanos: 0 }),
        inc: Some(ClockTime { secs: 2, nanos: 500_000_000 }),
    };
    let bytes = encode_start(&s).unwrap();
    let (is_white, name, fen, time, inc): (
        bool,
        Option<String>,
        Option<String>,
        Option<std::time::Duration>,
        Option<std::time::Duration>,
    ) = rmp_serde::from_slice(&bytes).unwrap();
    assert_eq!(is_white, true);
    assert_eq!(name, Some("Carol".to_string()));
    assert_eq!(fen, None);
    assert_eq!(time, Some(std::time::Duration::new(180, 0)));
    assert_eq!(inc, Some(std::time::Duration::new(2, 500_000_000)));
}
