use chess_wire::codec::MsgKind;
use chess_wire::msg::{Ack, ClockTime, GameState, Move, Start};
use chess_wire::session::{Color, Expected, Outcome, Session};

fn start_a() -> Start {
    Start {
        is_white: true,
        name: Some("A".to_string()),
        fen: None,
        time: Some(ClockTime { secs: 600, nanos: 0 }),
        inc: Some(ClockTime { secs: 5, nanos: 0 }),
    }
}

fn plain_move(from: (u8, u8), to: (u8, u8)) -> Move {
    Move { from, to, promotion: None, forfeit: false, offer_draw: false }
}

#[test]
fn scenario_a_handshake_enters_awaiting_white() {
    let mut session = Session::new();
    assert_eq!(session.to_move(), None);
    session.on_start(start_a()).unwrap();
    assert_eq!(session.to_move(), Some(Color::White));
    assert_eq!(session.assigned_white, Some(true));
    assert_eq!(session.name, Some("A".to_string()));
    assert_eq!(session.fen, None);
    assert_eq!(session.time, Some(ClockTime { secs: 600, nanos: 0 }));
    assert_eq!(session.inc, Some(ClockTime { secs: 5, nanos: 0 }));
}

#[test]
fn scenario_b_accepted_move_passes_turn_to_black() {
    let mut session = Session::new();
    session.on_start(start_a()).unwrap();
    session.on_move(plain_move((4, 1), (4, 3))).unwrap();
    assert_eq!(session.to_move(), None);
    session.on_ack(Ack { ok: true, end_state: None }).unwrap();
    assert_eq!(session.to_move(), Some(Color::Black));
}

#[test]
fn scenario_c_rejected_promotion_keeps_turn() {
    let mut session = Session::new();
    session.on_start(start_a()).unwrap();
    let odd = Move {
        from: (4, 1),
        to: (4, 3),
        promotion: Some(chess_wire::msg::PromotionPiece::Queen),
        forfeit: false,
        offer_draw: false,
    };
    // the odd promotion still encodes and decodes
    let bytes = chess_wire::codec::encode_move(&odd).unwrap();
    assert_eq!(chess_wire::codec::decode_move(&bytes).unwrap(), odd);
    session.on_move(odd).unwrap();
    session.on_ack(Ack { ok: false, end_state: None }).unwrap();
    assert_eq!(session.to_move(), Some(Color::White));
}

#[test]
fn rejected_move_ignores_end_state() {
    let mut session = Session::new();
    session.on_start(start_a()).unwrap();
    session.on_move(plain_move((4, 1), (4, 3))).unwrap();
    session.on_ack(Ack { ok: false, end_state: Some(GameState::CheckMate) }).unwrap();
    assert_eq!(session.to_move(), Some(Color::White));
    assert_eq!(session.outcome(), None);
}

#[test]
fn scenario_d_black_forfeit_terminates_whatever_the_ack_says() {
    for ack in [
        Ack { ok: true, end_state: None },
        Ack { ok: true, end_state: Some(GameState::Draw) },
        Ack { ok: false, end_state: Some(GameState::InProgress) },
    ] {
        let mut session = Session::new();
        session.on_start(start_a()).unwrap();
        session.on_move(plain_move((4, 1), (4, 3))).unwrap();
        session.on_ack(Ack { ok: true, end_state: None }).unwrap();
        let forfeit = Move {
            from: (0, 0),
            to: (0, 0),
            promotion: None,
            forfeit: true,
            offer_draw: false,
        };
        session.on_move(forfeit).unwrap();
        session.on_ack(ack).unwrap();
        assert_eq!(session.outcome(), Some(Outcome::BlackForfeited));
    }
}

#[test]
fn turn_alternation_starts_with_white() {
    let mut session = Session::new();
    session.on_start(start_a()).unwrap();
    let expected = [Color::White, Color::Black, Color::White, Color::Black, Color::White];
    for side in expected {
        assert_eq!(session.to_move(), Some(side));
        session.on_move(plain_move((1, 1), (2, 2))).unwrap();
        session.on_ack(Ack { ok: true, end_state: Some(GameState::InProgress) }).unwrap();
    }
}

#[test]
fn draw_offer_alone_does_not_terminate() {
    let mut session = Session::new();
    session.on_start(start_a()).unwrap();
    let offer = Move { from: (4, 1), to: (4, 3), promotion: None, forfeit: false, offer_draw: true };
    session.on_move(offer).unwrap();
    session.on_ack(Ack { ok: true, end_state: None }).unwrap();
    assert_eq!(session.outcome(), None);
    assert_eq!(session.to_move(), Some(Color::Black));
}

#[test]
fn checkmate_terminates_with_that_outcome() {
    let mut session = Session::new();
    session.on_start(start_a()).unwrap();
    session.on_move(plain_move((5, 1), (5, 2))).unwrap();
    session.on_ack(Ack { ok: true, end_state: Some(GameState::CheckMate) }).unwrap();
    assert_eq!(session.outcome(), Some(Outcome::CheckMate));
}

#[test]
fn engine_reported_draw_terminates() {
    let mut session = Session::new();
    session.on_start(start_a()).unwrap();
    session.on_move(plain_move((5, 1), (5, 2))).unwrap();
    session.on_ack(Ack { ok: true, end_state: Some(GameState::Draw) }).unwrap();
    assert_eq!(session.outcome(), Some(Outcome::Draw));
}

#[test]
fn terminated_session_refuses_everything_and_keeps_outcome() {
    let mut session = Session::new();
    session.on_start(start_a()).unwrap();
    session.on_move(plain_move((5, 1), (5, 2))).unwrap();
    session.on_ack(Ack { ok: true, end_state: Some(GameState::CheckMate) }).unwrap();
    let err = session.on_start(start_a()).unwrap_err();
    assert_eq!(err.expected, Expected::ExpectNothing);
    assert_eq!(err.received, MsgKind::Start);
    let err = session.on_move(plain_move((0, 0), (1, 1))).unwrap_err();
    assert_eq!(err.expected, Expected::ExpectNothing);
    assert_eq!(err.received, MsgKind::Move);
    let err = session.on_ack(Ack { ok: true, end_state: None }).unwrap_err();
    assert_eq!(err.expected, Expected::ExpectNothing);
    assert_eq!(err.received, MsgKind::Ack);
    assert_eq!(session.outcome(), Some(Outcome::CheckMate));
}

#[test]
fn move_before_handshake_is_a_violation() {
    let mut session = Session::new();
    let err = session.on_move(plain_move((4, 1), (4, 3))).unwrap_err();
    assert_eq!(err.expected, Expected::ExpectStart);
    assert_eq!(err.received, MsgKind::Move);
    assert_eq!(session.to_move(), None);
}

#[test]
fn second_handshake_is_a_violation() {
    let mut session = Session::new();
    session.on_start(start_a()).unwrap();
    let err = session.on_start(start_a()).unwrap_err();
    assert_eq!(err.expected, Expected::ExpectMove);
    assert_eq!(err.received, MsgKind::Start);
    assert_eq!(session.to_move(), Some(Color::White));
}

#[test]
fn ack_without_pending_move_is_a_violation() {
    let mut session = Session::new();
    session.on_start(start_a()).unwrap();
    let err = session.on_ack(Ack { ok: true, end_state: None }).unwrap_err();
    assert_eq!(err.expected, Expected::ExpectMove);
    assert_eq!(err.received, MsgKind::Ack);
}
