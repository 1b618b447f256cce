use uci_bridge::error::BridgeError;
use uci_bridge::position::EnginePos;

const START: &str = "rnbqkbnr/pppppppp/8/8/8/8/PPPPPPPP/RNBQKBNR w KQkq - 0 1";
const AFTER_E4: &str = "rnbqkbnr/pppppppp/8/8/4P3/8/PPPP1PPP/RNBQKBNR b KQkq - 0 1";
const AFTER_E4_E5: &str = "rnbqkbnr/pppp1ppp/8/4p3/4P3/8/PPPP1PPP/RNBQKBNR w KQkq - 0 2";
const AFTER_E4_E5_NF3: &str = "rnbqkbnr/pppp1ppp/8/4p3/4P3/5N2/PPPP1PPP/RNBQKB1R b KQkq - 1 2";

fn moves(list: &[&str]) -> Vec<String> {
    list.iter().map(|m| m.to_string()).collect()
}

#[test]
fn new_is_the_starting_position() {
    assert_eq!(EnginePos::new().fen(), START);
}

#[test]
fn play_move_in_short_notation() {
    let mut pos = EnginePos::new();
    assert_eq!(pos.play_move("e4"), Ok(()));
    assert_eq!(pos.fen(), AFTER_E4);
}

#[test]
fn play_move_with_both_squares() {
    let mut pos = EnginePos::new();
    assert_eq!(pos.play_move("e2e4"), Ok(()));
    assert_eq!(pos.fen(), AFTER_E4);
    assert_eq!(pos.play_move("e7e5"), Ok(()));
    assert_eq!(pos.fen(), AFTER_E4_E5);
    assert_eq!(pos.play_move("Ng1f3"), Ok(()));
    assert_eq!(pos.fen(), AFTER_E4_E5_NF3);
}

#[test]
fn play_move_refuses_an_illegal_move() {
    let mut pos = EnginePos::new();
    assert_eq!(pos.play_move("e5"), Err(BridgeError::IllegalPosition));
    assert_eq!(pos.fen(), START);
    assert_eq!(pos.play_move("Ke2"), Err(BridgeError::IllegalPosition));
    assert_eq!(pos.fen(), START);
}

#[test]
fn play_move_refuses_what_is_no_move() {
    let mut pos = EnginePos::new();
    assert_eq!(pos.play_move(""), Err(BridgeError::IllegalPosition));
    assert_eq!(pos.play_move("hello"), Err(BridgeError::IllegalPosition));
    assert_eq!(pos.play_move("--"), Err(BridgeError::IllegalPosition));
    assert_eq!(pos.fen(), START);
}

#[test]
fn play_move_castles() {
    let mut pos = EnginePos::new();
    assert_eq!(pos.play_moves(&moves(&["e4", "e5", "Nf3", "Nc6", "Bc4", "Bc5", "O-O"])), Ok(()));
    assert_eq!(
        pos.fen(),
        "r1bqk1nr/pppp1ppp/2n5/2b1p3/2B1P3/5N2/PPPP1PPP/RNBQ1RK1 b kq - 5 4"
    );
}

#[test]
fn play_move_names_the_en_passant_square_only_for_a_legal_capture() {
    let mut pos = EnginePos::new();
    assert_eq!(pos.play_moves(&moves(&["e4", "a6", "e5", "d5"])), Ok(()));
    assert_eq!(pos.fen(), "rnbqkbnr/1pp1pppp/p7/3pP3/8/8/PPPP1PPP/RNBQKBNR w KQkq d6 0 3");
    assert_eq!(pos.play_move("exd6"), Ok(()));
    assert_eq!(pos.fen(), "rnbqkbnr/1pp1pppp/p2P4/8/8/8/PPPP1PPP/RNBQKBNR b KQkq - 0 3");
}

#[test]
fn play_moves_in_order() {
    let mut pos = EnginePos::new();
    assert_eq!(pos.play_moves(&moves(&["e4", "e5", "Nf3"])), Ok(()));
    assert_eq!(pos.fen(), AFTER_E4_E5_NF3);
}

#[test]
fn play_moves_of_an_empty_list() {
    let mut pos = EnginePos::new();
    assert_eq!(pos.play_moves(&moves(&[])), Ok(()));
    assert_eq!(pos.fen(), START);
}

#[test]
fn play_moves_accumulate_over_calls() {
    let mut one = EnginePos::new();
    assert_eq!(one.play_moves(&moves(&["e4"])), Ok(()));
    assert_eq!(one.play_moves(&moves(&["e5", "Nf3"])), Ok(()));
    let mut other = EnginePos::new();
    assert_eq!(other.play_moves(&moves(&["e4", "e5", "Nf3"])), Ok(()));
    assert_eq!(one.fen(), other.fen());
    assert_eq!(one.fen(), AFTER_E4_E5_NF3);
}

#[test]
fn play_moves_with_an_illegal_move_plays_none() {
    let mut pos = EnginePos::new();
    assert_eq!(pos.play_move("e4"), Ok(()));
    assert_eq!(pos.play_moves(&moves(&["e5", "Nf3", "Nf3"])), Err(BridgeError::IllegalPosition));
    assert_eq!(pos.fen(), AFTER_E4);
}

#[test]
fn set_pos_replaces_the_position() {
    let mut pos = EnginePos::new();
    assert_eq!(pos.play_move("d4"), Ok(()));
    assert_eq!(pos.set_pos(AFTER_E4_E5), Ok(()));
    assert_eq!(pos.fen(), AFTER_E4_E5);
    assert_eq!(pos.play_move("Nf3"), Ok(()));
    assert_eq!(pos.fen(), AFTER_E4_E5_NF3);
}

#[test]
fn set_pos_writes_the_fen_in_full() {
    let mut pos = EnginePos::new();
    assert_eq!(pos.set_pos("4k3/8/8/8/8/8/8/4K3"), Ok(()));
    assert_eq!(pos.fen(), "4k3/8/8/8/8/8/8/4K3 w - - 0 1");
    assert_eq!(pos.set_pos("rnbqkbnr/pppppppp/8/8/8/8/PPPPPPPP/RNBQKBNR_b_KQkq_-_3_7"), Ok(()));
    assert_eq!(pos.fen(), "rnbqkbnr/pppppppp/8/8/8/8/PPPPPPPP/RNBQKBNR b KQkq - 3 7");
}

#[test]
fn set_pos_refuses_a_malformed_fen() {
    let mut pos = EnginePos::new();
    assert_eq!(pos.play_move("e4"), Ok(()));
    assert_eq!(pos.set_pos("not a fen"), Err(BridgeError::IllegalPosition));
    assert_eq!(pos.set_pos(""), Err(BridgeError::IllegalPosition));
    assert_eq!(pos.set_pos("rnbqkbnr/pppppppp/8/8/8/8/PPPPPPPP w KQkq - 0 1"), Err(BridgeError::IllegalPosition));
    assert_eq!(pos.fen(), AFTER_E4);
}

#[test]
fn set_pos_refuses_an_impossible_position() {
    let mut pos = EnginePos::new();
    assert_eq!(pos.set_pos("8/8/8/8/8/8/8/8 w - - 0 1"), Err(BridgeError::IllegalPosition));
    assert_eq!(pos.set_pos("4k3/8/8/8/8/8/8/4K2R w KQ - 0 1"), Err(BridgeError::IllegalPosition));
    assert_eq!(pos.fen(), START);
}

#[test]
fn moves_before_a_fen_are_forgotten() {
    let mut pos = EnginePos::new();
    assert_eq!(pos.play_moves(&moves(&["d4", "d5"])), Ok(()));
    assert_eq!(pos.play_moves(&moves(&["c4"])), Ok(()));
    assert_eq!(pos.set_pos(START), Ok(()));
    assert_eq!(pos.play_moves(&moves(&["e4"])), Ok(()));
    assert_eq!(pos.play_moves(&moves(&["e5", "Nf3"])), Ok(()));
    assert_eq!(pos.fen(), AFTER_E4_E5_NF3);
}

#[test]
fn play_move_reads_algebraic_notation_not_coordinates() {
    let mut pos = EnginePos::new();
    assert_eq!(pos.play_move("g1f3"), Err(BridgeError::IllegalPosition));
    assert_eq!(pos.play_move("Nf3"), Ok(()));
    assert_eq!(pos.fen(), "rnbqkbnr/pppppppp/8/8/8/5N2/PPPPPPPP/RNBQKB1R b KQkq - 1 1");
}
