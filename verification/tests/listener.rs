use uci_bridge::engine::{EngineInput, EngineOutput, Limit};
use uci_bridge::error::BridgeError;
use uci_bridge::io::plugin::{Inp, PosInp, Receiver, Sender};
use uci_bridge::listener::{engine_listener, handle_request, plugin_listener, Relay};
use uci_bridge::position::EnginePos;

const START: &str = "rnbqkbnr/pppppppp/8/8/8/8/PPPPPPPP/RNBQKBNR w KQkq - 0 1";
const AFTER_E4: &str = "rnbqkbnr/pppppppp/8/8/4P3/8/PPPP1PPP/RNBQKBNR b KQkq - 0 1";
const AFTER_E4_E5_NF3: &str = "rnbqkbnr/pppp1ppp/8/4p3/4P3/5N2/PPPP1PPP/RNBQKB1R b KQkq - 1 2";

fn framed(payload: &[u8]) -> Vec<u8> {
    let mut bytes = (payload.len() as u32).to_ne_bytes().to_vec();
    bytes.extend_from_slice(payload);
    bytes
}

fn moves(list: &[&str]) -> Inp {
    Inp::Pos(PosInp::Moves(list.iter().map(|m| m.to_string()).collect()))
}

#[test]
fn position_then_go_then_bestmove() {
    let mut precv = Receiver::new();
    let mut pos = EnginePos::new();
    let mut einp = EngineInput::new();
    let limit = Limit::Movetime(1000);
    precv.feed(&framed(
        br#"{"cmd":"pos","fen":"rnbqkbnr/pppppppp/8/8/8/8/PPPPPPPP/RNBQKBNR w KQkq - 0 1"}"#,
    ));
    precv.feed(&framed(br#"{"cmd":"go"}"#));
    assert_eq!(plugin_listener(&mut precv, &mut pos, &mut einp, limit), Ok(Relay::Waiting));
    assert_eq!(
        einp.take(),
        "position fen rnbqkbnr/pppppppp/8/8/8/8/PPPPPPPP/RNBQKBNR w KQkq - 0 1\ngo movetime 1000\n"
    );

    let mut eout = EngineOutput::new();
    let mut psend = Sender::new();
    eout.feed(b"bestmove d2d4\n");
    assert_eq!(engine_listener(&mut psend, &mut eout), Ok(()));
    assert_eq!(psend.take(), framed(br#"{"bestmove":"d2d4","pondermove":""}"#));
}

#[test]
fn go_uses_the_limit_of_the_session() {
    let mut precv = Receiver::new();
    let mut pos = EnginePos::new();
    let mut einp = EngineInput::new();
    precv.feed(&framed(br#"{"cmd":"go"}"#));
    assert_eq!(plugin_listener(&mut precv, &mut pos, &mut einp, Limit::Node(5000)), Ok(Relay::Waiting));
    assert_eq!(einp.take(), format!("position fen {START}\ngo depth 5000\n"));
    precv.feed(&framed(br#"{"cmd":"go"}"#));
    assert_eq!(plugin_listener(&mut precv, &mut pos, &mut einp, Limit::Depth(9)), Ok(Relay::Waiting));
    assert_eq!(einp.take(), format!("position fen {START}\ngo depth 9\n"));
}

#[test]
fn stop_is_passed_on_at_once() {
    let mut precv = Receiver::new();
    let mut pos = EnginePos::new();
    let mut einp = EngineInput::new();
    precv.feed(&framed(br#"{"cmd":"go"}"#));
    precv.feed(&framed(br#"{"cmd":"stop"}"#));
    assert_eq!(plugin_listener(&mut precv, &mut pos, &mut einp, Limit::Depth(3)), Ok(Relay::Waiting));
    assert_eq!(einp.take(), format!("position fen {START}\ngo depth 3\nstop\n"));
}

#[test]
fn a_change_of_position_sends_nothing() {
    let mut precv = Receiver::new();
    let mut pos = EnginePos::new();
    let mut einp = EngineInput::new();
    precv.feed(&framed(br#"{"cmd":"pos","moves":["e2e4"]}"#));
    assert_eq!(plugin_listener(&mut precv, &mut pos, &mut einp, Limit::Depth(3)), Ok(Relay::Waiting));
    assert_eq!(einp.take(), "");
    assert_eq!(pos.fen(), AFTER_E4);
}

#[test]
fn moves_accumulate_over_requests() {
    let mut precv = Receiver::new();
    let mut pos = EnginePos::new();
    let mut einp = EngineInput::new();
    let limit = Limit::Depth(1);
    precv.feed(&framed(br#"{"cmd":"pos","moves":["e2e4"]}"#));
    assert_eq!(plugin_listener(&mut precv, &mut pos, &mut einp, limit), Ok(Relay::Waiting));
    precv.feed(&framed(br#"{"cmd":"pos","moves":["e7e5","Nf3"]}"#));
    precv.feed(&framed(br#"{"cmd":"go"}"#));
    assert_eq!(plugin_listener(&mut precv, &mut pos, &mut einp, limit), Ok(Relay::Waiting));
    assert_eq!(einp.take(), format!("position fen {AFTER_E4_E5_NF3}\ngo depth 1\n"));
}

#[test]
fn only_the_moves_since_the_last_fen_count() {
    let mut precv = Receiver::new();
    let mut pos = EnginePos::new();
    let mut einp = EngineInput::new();
    let limit = Limit::Depth(1);
    precv.feed(&framed(br#"{"cmd":"pos","moves":["d2d4","d7d5"]}"#));
    precv.feed(&framed(br#"{"cmd":"pos","moves":["c2c4"]}"#));
    precv.feed(&framed(format!("{{\"cmd\":\"pos\",\"fen\":\"{START}\"}}").as_bytes()));
    precv.feed(&framed(br#"{"cmd":"pos","moves":["e2e4"]}"#));
    precv.feed(&framed(br#"{"cmd":"pos","moves":["e7e5","Nf3"]}"#));
    precv.feed(&framed(br#"{"cmd":"go"}"#));
    assert_eq!(plugin_listener(&mut precv, &mut pos, &mut einp, limit), Ok(Relay::Waiting));
    assert_eq!(pos.fen(), AFTER_E4_E5_NF3);
    assert_eq!(einp.take(), format!("position fen {AFTER_E4_E5_NF3}\ngo depth 1\n"));
}

#[test]
fn an_illegal_move_ends_the_relay_and_sends_nothing_more() {
    let mut precv = Receiver::new();
    let mut pos = EnginePos::new();
    let mut einp = EngineInput::new();
    let limit = Limit::Depth(1);
    precv.feed(&framed(br#"{"cmd":"stop"}"#));
    precv.feed(&framed(br#"{"cmd":"pos","moves":["e2e4","e2e4"]}"#));
    precv.feed(&framed(br#"{"cmd":"go"}"#));
    assert_eq!(
        plugin_listener(&mut precv, &mut pos, &mut einp, limit),
        Err(BridgeError::IllegalPosition)
    );
    assert_eq!(einp.take(), "stop\n");
    assert_eq!(pos.fen(), START);
}

#[test]
fn a_malformed_fen_ends_the_relay() {
    let mut precv = Receiver::new();
    let mut pos = EnginePos::new();
    let mut einp = EngineInput::new();
    precv.feed(&framed(br#"{"cmd":"pos","fen":"nothing"}"#));
    precv.feed(&framed(br#"{"cmd":"go"}"#));
    assert_eq!(
        plugin_listener(&mut precv, &mut pos, &mut einp, Limit::Depth(1)),
        Err(BridgeError::IllegalPosition)
    );
    assert_eq!(einp.take(), "");
}

#[test]
fn a_payload_that_is_no_request_ends_the_relay() {
    let mut precv = Receiver::new();
    let mut pos = EnginePos::new();
    let mut einp = EngineInput::new();
    precv.feed(&framed(br#"{"cmd":"go"}"#));
    precv.feed(&framed(br#"{"cmd":"think"}"#));
    precv.feed(&framed(br#"{"cmd":"stop"}"#));
    assert_eq!(
        plugin_listener(&mut precv, &mut pos, &mut einp, Limit::Depth(1)),
        Err(BridgeError::ProtocolViolation)
    );
    assert_eq!(einp.take(), format!("position fen {START}\ngo depth 1\n"));
}

#[test]
fn the_end_of_the_stream_between_requests_finishes_the_session() {
    let mut precv = Receiver::new();
    let mut pos = EnginePos::new();
    let mut einp = EngineInput::new();
    precv.feed(&framed(br#"{"cmd":"stop"}"#));
    precv.close();
    assert_eq!(plugin_listener(&mut precv, &mut pos, &mut einp, Limit::Depth(1)), Ok(Relay::Finished));
    assert_eq!(einp.take(), "stop\n");
}

#[test]
fn the_end_of_the_stream_before_any_request_finishes_the_session() {
    let mut precv = Receiver::new();
    let mut pos = EnginePos::new();
    let mut einp = EngineInput::new();
    precv.close();
    assert_eq!(plugin_listener(&mut precv, &mut pos, &mut einp, Limit::Depth(1)), Ok(Relay::Finished));
    assert_eq!(einp.take(), "");
}

#[test]
fn the_end_of_the_stream_inside_a_frame_is_a_violation() {
    let mut precv = Receiver::new();
    let mut pos = EnginePos::new();
    let mut einp = EngineInput::new();
    let bytes = framed(br#"{"cmd":"stop"}"#);
    precv.feed(&framed(br#"{"cmd":"go"}"#));
    precv.feed(&bytes[..7]);
    assert_eq!(plugin_listener(&mut precv, &mut pos, &mut einp, Limit::Depth(1)), Ok(Relay::Waiting));
    precv.close();
    assert_eq!(
        plugin_listener(&mut precv, &mut pos, &mut einp, Limit::Depth(1)),
        Err(BridgeError::ProtocolViolation)
    );
    assert_eq!(einp.take(), format!("position fen {START}\ngo depth 1\n"));
}

#[test]
fn a_request_in_pieces_is_handled_once_it_is_whole() {
    let mut precv = Receiver::new();
    let mut pos = EnginePos::new();
    let mut einp = EngineInput::new();
    let bytes = framed(br#"{"cmd":"stop"}"#);
    precv.feed(&bytes[..3]);
    assert_eq!(plugin_listener(&mut precv, &mut pos, &mut einp, Limit::Depth(1)), Ok(Relay::Waiting));
    assert_eq!(einp.take(), "");
    precv.feed(&bytes[3..]);
    assert_eq!(plugin_listener(&mut precv, &mut pos, &mut einp, Limit::Depth(1)), Ok(Relay::Waiting));
    assert_eq!(einp.take(), "stop\n");
}

#[test]
fn handle_request_one_by_one() {
    let mut pos = EnginePos::new();
    let mut einp = EngineInput::new();
    let limit = Limit::Movetime(50);
    assert_eq!(handle_request(&mut pos, &mut einp, limit, moves(&["e4"])), Ok(()));
    assert_eq!(einp.take(), "");
    assert_eq!(handle_request(&mut pos, &mut einp, limit, Inp::Go), Ok(()));
    assert_eq!(einp.take(), format!("position fen {AFTER_E4}\ngo movetime 50\n"));
    assert_eq!(handle_request(&mut pos, &mut einp, limit, Inp::Stop), Ok(()));
    assert_eq!(einp.take(), "stop\n");
    assert_eq!(
        handle_request(&mut pos, &mut einp, limit, moves(&["e5", "e5"])),
        Err(BridgeError::IllegalPosition)
    );
    assert_eq!(einp.take(), "");
    assert_eq!(pos.fen(), AFTER_E4);
    assert_eq!(
        handle_request(&mut pos, &mut einp, limit, Inp::Pos(PosInp::Fen("?".to_string()))),
        Err(BridgeError::IllegalPosition)
    );
    assert_eq!(pos.fen(), AFTER_E4);
    assert_eq!(
        handle_request(&mut pos, &mut einp, limit, Inp::Pos(PosInp::Fen(START.to_string()))),
        Ok(())
    );
    assert_eq!(pos.fen(), START);
}

#[test]
fn engine_lines_become_frames_in_order() {
    let mut eout = EngineOutput::new();
    let mut psend = Sender::new();
    eout.feed(b"info depth 1\nbestmove e2e4 ponder e7e5\ninfo de");
    assert_eq!(engine_listener(&mut psend, &mut eout), Ok(()));
    let mut expected = framed(br#"{"info":{"raw":"info depth 1"}}"#);
    expected.extend_from_slice(&framed(br#"{"bestmove":"e2e4","pondermove":"e7e5"}"#));
    assert_eq!(psend.take(), expected);
    eout.feed(b"pth 2\n");
    assert_eq!(engine_listener(&mut psend, &mut eout), Ok(()));
    assert_eq!(psend.take(), framed(br#"{"info":{"raw":"info depth 2"}}"#));
}

#[test]
fn a_line_in_two_reads_is_forwarded_once_and_whole() {
    let mut eout = EngineOutput::new();
    let mut psend = Sender::new();
    eout.feed(b"bestmove d2");
    assert_eq!(engine_listener(&mut psend, &mut eout), Ok(()));
    assert_eq!(psend.take(), Vec::<u8>::new());
    eout.feed(b"d4\n");
    assert_eq!(engine_listener(&mut psend, &mut eout), Ok(()));
    assert_eq!(psend.take(), framed(br#"{"bestmove":"d2d4","pondermove":""}"#));
}

#[test]
fn the_end_of_the_engine_output_is_fatal() {
    let mut eout = EngineOutput::new();
    let mut psend = Sender::new();
    eout.feed(b"bestmove d2d4\nbestmove e2");
    eout.close();
    assert_eq!(engine_listener(&mut psend, &mut eout), Err(BridgeError::EngineStreamClosed));
    assert_eq!(psend.take(), framed(br#"{"bestmove":"d2d4","pondermove":""}"#));
    assert_eq!(engine_listener(&mut psend, &mut eout), Err(BridgeError::EngineStreamClosed));
    assert_eq!(psend.take(), Vec::<u8>::new());
}

#[test]
fn a_bestmove_without_move_ends_the_engine_relay() {
    let mut eout = EngineOutput::new();
    let mut psend = Sender::new();
    eout.feed(b"info a\nbestmove\ninfo b\n");
    assert_eq!(engine_listener(&mut psend, &mut eout), Err(BridgeError::ProtocolViolation));
    assert_eq!(psend.take(), framed(br#"{"info":{"raw":"info a"}}"#));
}
