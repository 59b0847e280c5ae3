use liyu::board::decimal::{digit_to_char, push_binary, push_decimal};
use liyu::engine::ieee::{compare_numbers, encode_eighths};
use liyu::engine::score::{ScoreF32, BLACK_WON, INVALID_POS, RED_WON};
use std::cmp::Ordering;

fn of_number(v: f32) -> ScoreF32 {
    ScoreF32::new_from_binary(v.to_bits())
}

#[test]
pub fn markers_bound_every_number() {
    for v in [-1.0e30f32, -53.0, -0.125, 0.0, 0.125, 9.0, 1.0e30, f32::INFINITY, f32::NEG_INFINITY] {
        assert!(BLACK_WON() < of_number(v));
        assert!(of_number(v) < RED_WON());
        assert!(of_number(v) > BLACK_WON());
        assert!(RED_WON() > of_number(v));
    }
    assert!(RED_WON() > BLACK_WON());
    assert_eq!(RED_WON().partial_cmp(&RED_WON()), Some(Ordering::Equal));
    assert_eq!(BLACK_WON().partial_cmp(&BLACK_WON()), Some(Ordering::Equal));
}

#[test]
pub fn no_score_compares_with_nothing() {
    for other in [INVALID_POS(), RED_WON(), BLACK_WON(), of_number(1.5)] {
        assert_eq!(INVALID_POS().partial_cmp(&other), None);
        assert_eq!(other.partial_cmp(&INVALID_POS()), None);
        assert!(!(INVALID_POS() < other));
        assert!(!(INVALID_POS() > other));
    }
    assert!(!INVALID_POS().is_above(&RED_WON()));
    assert!(!INVALID_POS().is_below(&RED_WON()));
}

#[test]
pub fn markers_equal_themselves() {
    assert_eq!(RED_WON(), RED_WON());
    assert_eq!(BLACK_WON(), BLACK_WON());
    assert_eq!(INVALID_POS(), INVALID_POS());
    assert_ne!(RED_WON(), BLACK_WON());
    assert_eq!(RED_WON().to_bytes(), 0x7FE0_0000);
    assert_eq!(BLACK_WON().to_bytes(), 0x7FD0_0000);
    assert_eq!(INVALID_POS().to_bytes(), 0xFFF0_0000);
    assert_eq!(ScoreF32::default().to_bytes(), 0);
}

#[test]
pub fn numbers_compare_as_numbers() {
    let values = [-9.0f32, -0.125, -0.0, 0.0, 0.125, 1.75, 8.5, 53.125];
    for a in values {
        for b in values {
            assert_eq!(of_number(a).partial_cmp(&of_number(b)), a.partial_cmp(&b));
            assert_eq!(of_number(a).is_above(&of_number(b)), a > b);
            assert_eq!(of_number(a).is_below(&of_number(b)), a < b);
        }
    }
    assert_eq!(compare_numbers(f32::NAN.to_bits(), 0), None);
    assert_eq!(compare_numbers(1.0f32.to_bits(), 2.0f32.to_bits()), Some(-1));
    assert_eq!(compare_numbers((-0.0f32).to_bits(), 0), Some(0));
    assert_ne!(of_number(-0.0), of_number(0.0));
    assert_eq!(of_number(f32::NAN).partial_cmp(&of_number(1.0)), None);
}

#[test]
pub fn eighths_are_exact() {
    for v in [-16777215i32, -1153, -425, -29, -8, -1, 0, 1, 7, 8, 9, 14, 425, 1153, 16777215] {
        assert_eq!(f32::from_bits(encode_eighths(v)), v as f32 / 8.0);
        assert_eq!(ScoreF32::from_eighths(v).to_bytes(), (v as f32 / 8.0).to_bits());
    }
    assert!(ScoreF32::from_eighths(1) > ScoreF32::from_eighths(0));
    assert!(ScoreF32::from_eighths(-3) < ScoreF32::from_eighths(-2));
}

#[test]
pub fn words_and_patterns() {
    assert_eq!(RED_WON().words(), Some(String::from("Red Wins")));
    assert_eq!(BLACK_WON().words(), Some(String::from("Black Wins")));
    assert_eq!(INVALID_POS().words(), Some(String::from("Invalid position")));
    assert_eq!(of_number(2.5).words(), None);
    assert_eq!(ScoreF32::default().binary(), "0b0");
    assert_eq!(of_number(1.0).binary(), "0b111111100000000000000000000000");
    assert_eq!(INVALID_POS().binary(), "0b11111111111100000000000000000000");
    assert_eq!(
        ScoreF32::new_from_binary(0x7FE0_0000).binary(),
        format!("{:#b}", 0x7FE0_0000u32)
    );
}

#[test]
pub fn numerals() {
    let mut text = String::from("n=");
    push_decimal(&mut text, 0);
    text.push(',');
    push_decimal(&mut text, 7);
    text.push(',');
    push_decimal(&mut text, 16384);
    text.push(',');
    push_decimal(&mut text, 4294967295);
    text.push(',');
    push_binary(&mut text, 5);
    assert_eq!(text, "n=0,7,16384,4294967295,101");
    assert_eq!(digit_to_char(9), '9');
}
