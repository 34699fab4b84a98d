use chess_wire::codec::{
    decode_ack, decode_move, decode_start, encode_ack, encode_move, encode_start, MsgKind,
};
use chess_wire::msg::{Ack, ClockTime, GameState, Move, PromotionPiece, Start};

fn start_a() -> Start {
    Start {
        is_white: true,
        name: Some("A".to_string()),
        fen: None,
        time: Some(ClockTime { secs: 600, nanos: 0 }),
        inc: Some(ClockTime { secs: 5, nanos: 0 }),
    }
}

fn move_e2e4() -> Move {
    Move {
        from: (4, 1),
        to: (4, 3),
        promotion: None,
        forfeit: false,
        offer_draw: false,
    }
}

#[test]
fn start_round_trip_all_fields() {
    let s = Start {
        is_white: false,
        name: Some("Alice".to_string()),
        fen: Some("8/8/8/8/8/8/8/8 w - - 0 1".to_string()),
        time: Some(ClockTime { secs: 300, nanos: 500_000_000 }),
        inc: Some(ClockTime { secs: 2, nanos: 0 }),
    };
    let bytes = encode_start(&s).unwrap();
    let d = decode_start(&bytes).unwrap();
    assert_eq!(d.is_white, s.is_white);
    assert_eq!(d.name, s.name);
    assert_eq!(d.fen, s.fen);
    assert_eq!(d.time, s.time);
    assert_eq!(d.inc, s.inc);
}

#[test]
fn start_round_trip_all_absent() {
    let s = Start { is_white: true, name: None, fen: None, time: None, inc: None };
    let bytes = encode_start(&s).unwrap();
    let d = decode_start(&bytes).unwrap();
    assert_eq!(d.is_white, true);
    assert_eq!(d.name, None);
    assert_eq!(d.fen, None);
    assert_eq!(d.time, None);
    assert_eq!(d.inc, None);
}

#[test]
fn start_round_trip_time_without_inc() {
    let s = Start {
        is_white: false,
        name: None,
        fen: Some("start".to_string()),
        time: Some(ClockTime { secs: 60, nanos: 0 }),
        inc: None,
    };
    let bytes = encode_start(&s).unwrap();
    let d = decode_start(&bytes).unwrap();
    assert_eq!(d.is_white, false);
    assert_eq!(d.name, None);
    assert_eq!(d.fen, Some("start".to_string()));
    assert_eq!(d.time, Some(ClockTime { secs: 60, nanos: 0 }));
    assert_eq!(d.inc, None);
}

#[test]
fn start_round_trip_non_ascii_name() {
    let s = Start {
        is_white: true,
        name: Some("Против".to_string()),
        fen: None,
        time: None,
        inc: None,
    };
    let bytes = encode_start(&s).unwrap();
    let d = decode_start(&bytes).unwrap();
    assert_eq!(d.name, Some("Против".to_string()));
}

#[test]
fn move_round_trip_each_promotion() {
    for p in [
        PromotionPiece::Queen,
        PromotionPiece::Bishop,
        PromotionPiece::Knight,
        PromotionPiece::Rook,
    ] {
        let m = Move {
            from: (0, 6),
            to: (0, 7),
            promotion: Some(p),
            forfeit: false,
            offer_draw: false,
        };
        let bytes = encode_move(&m).unwrap();
        assert_eq!(decode_move(&bytes).unwrap(), m);
    }
}

#[test]
fn move_round_trip_flags() {
    let m = Move { from: (7, 7), to: (0, 0), promotion: None, forfeit: true, offer_draw: true };
    let bytes = encode_move(&m).unwrap();
    assert_eq!(decode_move(&bytes).unwrap(), m);
}

#[test]
fn ack_round_trip_every_variant() {
    for ok in [false, true] {
        for end_state in [
            None,
            Some(GameState::InProgress),
            Some(GameState::CheckMate),
            Some(GameState::Draw),
        ] {
            let a = Ack { ok, end_state };
            let bytes = encode_ack(&a).unwrap();
            assert_eq!(decode_ack(&bytes).unwrap(), a);
        }
    }
}

#[test]
fn scenario_a_exact_bytes() {
    let bytes = encode_start(&start_a()).unwrap();
    assert_eq!(
        bytes,
        vec![0x95, 0xc3, 0xa1, 0x41, 0xc0, 0x92, 0xcd, 0x02, 0x58, 0x00, 0x92, 0x05, 0x00]
    );
    let d = decode_start(&bytes).unwrap();
    assert_eq!(d.is_white, true);
    assert_eq!(d.name, Some("A".to_string()));
    assert_eq!(d.fen, None);
    assert_eq!(d.time, Some(ClockTime { secs: 600, nanos: 0 }));
    assert_eq!(d.inc, Some(ClockTime { secs: 5, nanos: 0 }));
}

#[test]
fn move_e2e4_exact_bytes() {
    let bytes = encode_move(&move_e2e4()).unwrap();
    assert_eq!(bytes, vec![0x95, 0x92, 0x04, 0x01, 0x92, 0x04, 0x03, 0xc0, 0xc2, 0xc2]);
}

#[test]
fn ack_exact_bytes() {
    let plain = encode_ack(&Ack { ok: true, end_state: None }).unwrap();
    assert_eq!(plain, vec![0x92, 0xc3, 0xc0]);
    let mate = encode_ack(&Ack { ok: true, end_state: Some(GameState::CheckMate) }).unwrap();
    assert_eq!(
        mate,
        vec![0x92, 0xc3, 0xa9, 0x43, 0x68, 0x65, 0x63, 0x6b, 0x4d, 0x61, 0x74, 0x65]
    );
}

#[test]
fn truncated_start_rejected_at_every_length() {
    let bytes = encode_start(&start_a()).unwrap();
    for k in 0..bytes.len() {
        let err = decode_start(&bytes[..k]).unwrap_err();
        assert_eq!(err.expected, MsgKind::Start);
    }
}

#[test]
fn truncated_move_rejected_at_every_length() {
    let bytes = encode_move(&move_e2e4()).unwrap();
    for k in 0..bytes.len() {
        assert!(decode_move(&bytes[..k]).is_err());
    }
}

#[test]
fn truncated_ack_rejected_at_every_length() {
    let bytes = encode_ack(&Ack { ok: false, end_state: Some(GameState::Draw) }).unwrap();
    for k in 0..bytes.len() {
        assert!(decode_ack(&bytes[..k]).is_err());
    }
}

#[test]
fn unknown_promotion_name_rejected() {
    // a Move whose promotion field holds the string "King": not in the
    // known variant set
    let bytes = vec![
        0x95, 0x92, 0x00, 0x06, 0x92, 0x00, 0x07, 0xa4, 0x4b, 0x69, 0x6e, 0x67, 0xc2, 0xc2,
    ];
    let err = decode_move(&bytes).unwrap_err();
    assert_eq!(err.expected, MsgKind::Move);
}

#[test]
fn unknown_game_state_name_rejected() {
    // an Ack whose end_state holds the string "Resigned"
    let bytes = vec![
        0x92, 0xc3, 0xa8, 0x52, 0x65, 0x73, 0x69, 0x67, 0x6e, 0x65, 0x64,
    ];
    assert!(decode_ack(&bytes).is_err());
}

#[test]
fn wrong_message_type_rejected() {
    let start_bytes = encode_start(&start_a()).unwrap();
    let move_bytes = encode_move(&move_e2e4()).unwrap();
    let ack_bytes = encode_ack(&Ack { ok: true, end_state: None }).unwrap();
    assert_eq!(decode_move(&start_bytes).unwrap_err().expected, MsgKind::Move);
    assert_eq!(decode_ack(&start_bytes).unwrap_err().expected, MsgKind::Ack);
    assert_eq!(decode_start(&move_bytes).unwrap_err().expected, MsgKind::Start);
    assert_eq!(decode_ack(&move_bytes).unwrap_err().expected, MsgKind::Ack);
    assert_eq!(decode_start(&ack_bytes).unwrap_err().expected, MsgKind::Start);
    assert_eq!(decode_move(&ack_bytes).unwrap_err().expected, MsgKind::Move);
}

#[test]
fn trailing_bytes_rejected() {
    let mut bytes = encode_ack(&Ack { ok: true, end_state: None }).unwrap();
    bytes.push(0x00);
    assert!(decode_ack(&bytes).is_err());
}

#[test]
fn non_shortest_integer_form_rejected() {
    // the file coordinate 4 written in the one-byte-tagged form instead
    // of a positive fixint
    let bytes = vec![0x95, 0x92, 0xcc, 0x04, 0x01, 0x92, 0x04, 0x03, 0xc0, 0xc2, 0xc2];
    assert!(decode_move(&bytes).is_err());
}

#[test]
fn invalid_utf8_name_rejected() {
    // a Start whose name is a one-byte string holding 0xff
    let bytes = vec![0x95, 0xc2, 0xa1, 0xff, 0xc0, 0xc0, 0xc0];
    assert!(decode_start(&bytes).is_err());
}

#[test]
fn increment_without_clock_rejected_by_decode() {
    // inc is set while time is nil
    let bytes = vec![0x95, 0xc2, 0xc0, 0xc0, 0xc0, 0x92, 0x05, 0x00];
    assert!(decode_start(&bytes).is_err());
}

#[test]
fn increment_without_clock_rejected_by_encode() {
    let s = Start {
        is_white: true,
        name: None,
        fen: None,
        time: None,
        inc: Some(ClockTime { secs: 5, nanos: 0 }),
    };
    let err = encode_start(&s).unwrap_err();
    assert_eq!(err.kind, MsgKind::Start);
}

#[test]
fn overlong_nanoseconds_rejected_by_encode() {
    let s = Start {
        is_white: true,
        name: None,
        fen: None,
        time: Some(ClockTime { secs: 0, nanos: 2_000_000_000 }),
        inc: None,
    };
    assert!(encode_start(&s).is_err());
}

#[test]
fn overlong_nanoseconds_rejected_by_decode() {
    // time with a nanosecond field of 2_000_000_000
    let bytes = vec![
        0x95, 0xc2, 0xc0, 0xc0, 0x92, 0x00, 0xce, 0x77, 0x35, 0x94, 0x00, 0xc0,
    ];
    assert!(decode_start(&bytes).is_err());
}

#[test]
fn off_board_square_rejected_by_encode() {
    let m = Move { from: (8, 0), to: (0, 0), promotion: None, forfeit: false, offer_draw: false };
    let err = encode_move(&m).unwrap_err();
    assert_eq!(err.kind, MsgKind::Move);
}

#[test]
fn off_board_square_rejected_by_decode() {
    let bytes = vec![0x95, 0x92, 0x08, 0x00, 0x92, 0x04, 0x03, 0xc0, 0xc2, 0xc2];
    assert!(decode_move(&bytes).is_err());
}

#[test]
fn empty_buffer_rejected() {
    assert!(decode_start(&[]).is_err());
    assert!(decode_move(&[]).is_err());
    assert!(decode_ack(&[]).is_err());
}

#[test]
fn long_name_uses_wider_length_form() {
    let name: String = "x".repeat(40);
    let s = Start { is_white: true, name: Some(name.clone()), fen: None, time: None, inc: None };
    let bytes = encode_start(&s).unwrap();
    // a 40-byte string takes the one-byte length form
    assert_eq!(bytes[2], 0xd9);
    assert_eq!(bytes[3], 40);
    let d = decode_start(&bytes).unwrap();
    assert_eq!(d.name, Some(name));
}

#[test]
fn large_clock_values_round_trip() {
    let s = Start {
        is_white: false,
        name: None,
        fen: None,
        time: Some(ClockTime { secs: u64::MAX, nanos: 999_999_999 }),
        inc: Some(ClockTime { secs: 0x1_0000_0000, nanos: 1 }),
    };
    let bytes = encode_start(&s).unwrap();
    let d = decode_start(&bytes).unwrap();
    assert_eq!(d.time, Some(ClockTime { secs: u64::MAX, nanos: 999_999_999 }));
    assert_eq!(d.inc, Some(ClockTime { secs: 0x1_0000_0000, nanos: 1 }));
}
