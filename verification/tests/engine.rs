use liyu::board::BoardState;
use liyu::engine::Engine;
use liyu::engine::score::{ScoreF32, BLACK_WON, INVALID_POS, RED_WON};

fn number(v: f32) -> ScoreF32 {
    ScoreF32::new_from_binary(v.to_bits())
}

#[test]
pub fn ruleset_cannon() {
    let board =
        BoardState::new_from_FEN("1rbakabCr/9/4c2c1/p1p1p1p1p/9/9/P1P1P1P1P/9/9/RNBAKABNR w - - 0 1");
    let val = Engine::evalToDepth(&board, 2);
    assert_ne!(val, RED_WON());
    assert_ne!(val, BLACK_WON());
}

#[test]
pub fn score_test() {
    assert_eq!(RED_WON().binary(), "0b1111111111000000000000000000000");
    assert_eq!(INVALID_POS(), INVALID_POS());
    assert!(!(INVALID_POS() != INVALID_POS()));
    assert_ne!(INVALID_POS(), RED_WON());
    assert_ne!(BLACK_WON(), RED_WON());
    assert!(BLACK_WON() < RED_WON());
    assert!(BLACK_WON() < number(0f32));
    assert!(RED_WON() > number(5f32));
}

#[test]
pub fn engine_starting_position() {
    let starting_board = BoardState::new();
    let score = Engine::evalToDepth(&starting_board, 3);
    assert_ne!(score, INVALID_POS());
    assert!(score.words().is_none());
    let displayResult = format!("{}", f32::from_bits(score.to_bytes()));
    assert_ne!(displayResult, "inf");
    assert_ne!(displayResult, "-inf");
}

#[test]
pub fn engine_mated_position() {
    let mate_one = BoardState::new_from_FEN("R3k4/R8/9/9/9/9/9/9/9/5K3 b - - 0 22");
    let mate_one_score = Engine::evalToDepth(&mate_one, 4);
    assert_eq!(mate_one_score, RED_WON());
}

#[test]
pub fn engine_mate_in_one() {
    let mate_one = BoardState::new_from_FEN(
        "2eakaer1/4h4/4H1h2/p1P1p1p1p/9/8P/P5P2/E3C1H1C/6r2/3AKAE1R r - - 0 22",
    );
    let mate_one_score = Engine::evalToDepth(&mate_one, 4);
    assert_eq!(mate_one_score, RED_WON());
}

#[test]
pub fn engine_mate_in_two() {
    let mate_two = BoardState::new_from_FEN(
        "4P4/4ak3/1r4N2/6p1p/4p4/6P2/Pc3r2P/4CR3/4A4/1RBK1ABN1 w - - 0 1",
    );
    let mate_two_score = Engine::evalToDepth(&mate_two, 5);
    assert_eq!(mate_two_score, RED_WON());
}

#[test]
pub fn engine_mate_in_three() {
    let mate_three = BoardState::new_from_FEN(
        "2C1k4/4a4/4ca3/8R/p8/2P6/P5P1P/4C4/1R2A4/1NBK1ABN1 w - - 0 1",
    );
    let mate_three_score = Engine::evalToDepth(&mate_three, 6);
    assert_eq!(mate_three_score, RED_WON());
}

#[test]
pub fn engine_is_determined() {
    let board = BoardState::new();
    let (first, engine_one) = Engine::evaluate(&board, 2);
    let (second, engine_two) = Engine::evaluate(&board, 2);
    assert_eq!(first, second);
    assert_eq!(engine_one.recentMoveList, engine_two.recentMoveList);
    assert_eq!(engine_one.nodeCount, engine_two.nodeCount);
    assert_eq!(engine_one.recentMoveList.len(), 2);
}

#[test]
pub fn value_of_start() {
    let board = BoardState::new();
    assert_eq!(f32::from_bits(board.getValue().to_bytes()), 0.125f32);
    let black = BoardState::new_from_FEN("4k4/9/9/9/9/9/9/9/9/R3K4 b - - 0 1");
    assert_eq!(f32::from_bits(black.getValue().to_bytes()), 8.5f32);
    let far = BoardState::new_from_FEN("R3k4/9/9/9/9/9/9/9/9/4K4 b - - 0 1");
    assert_eq!(f32::from_bits(far.getValue().to_bytes()), 9.0f32);
    assert_eq!(f32::from_bits(ScoreF32::from_eighths(-29).to_bytes()), -3.625f32);
    assert_eq!(ScoreF32::from_eighths(0).to_bytes(), 0);
}
