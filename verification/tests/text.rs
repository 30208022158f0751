//! Texts and masks.

use qwen3_rs::mask::{count_full, has_full_attention};
use qwen3_rs::text::{
    chars_of, parse_unsigned, push_decimal, push_hexadecimal, push_signed_decimal, same_text, substitute, trim_text,
};

#[test]
fn numbers_are_written() {
    for n in [0u64, 7, 10, 1234567890, u64::MAX] {
        let mut out = String::from("n=");
        push_decimal(&mut out, n);
        assert_eq!(out, format!("n={n}"));
    }
    for n in [0i32, -1, 42, i32::MIN, i32::MAX] {
        let mut out = String::new();
        push_signed_decimal(&mut out, n);
        assert_eq!(out, format!("{n}"));
    }
    for n in [0u32, 9, 10, 0x616a6331, u32::MAX] {
        let mut out = String::new();
        push_hexadecimal(&mut out, n);
        assert_eq!(out, format!("{n:x}"));
    }
}

#[test]
fn white_space_is_trimmed_at_the_ends() {
    for s in ["", " ", "a", " a b ", "\t\r\na\u{b}\u{c}", "\u{85}\u{a0}x\u{2003}\u{3000}", "\u{200b}a", "ä ö"] {
        assert_eq!(trim_text(s), s.trim());
    }
}

#[test]
fn marks_are_replaced_from_left_to_right() {
    for (s, mark, with) in [
        ("", "%s", "x"),
        ("%s", "%s", ""),
        ("a%sb%s", "%s", "%s%s"),
        ("aaa", "aa", "b"),
        ("%%s", "%s", "x"),
        ("ä%sö", "%s", "ü"),
    ] {
        assert_eq!(substitute(s, mark, with), s.replace(mark, with));
    }
}

#[test]
fn unsigned_numbers_are_parsed() {
    for s in ["", "0", "007", "+5", "-5", "+", "1a", " 1", "18446744073709551615", "18446744073709551616", "٣"] {
        assert_eq!(parse_unsigned(s), s.parse::<u64>().ok());
    }
}

#[test]
fn texts_are_compared() {
    assert!(same_text("silu", "silu"));
    assert!(!same_text("silu", "silU"));
    assert!(!same_text("silu", ""));
    assert_eq!(chars_of("aß"), vec!['a', 'ß']);
}

#[test]
fn masks_are_read_bit_by_bit() {
    assert!(has_full_attention(0x8000_0000_0000_0000, 63));
    assert!(!has_full_attention(0x8000_0000_0000_0000, 62));
    assert_eq!(count_full(0x88_88_88, 24), 6);
    assert_eq!(count_full(0x88_88_88, 3), 0);
    assert_eq!(count_full(u64::MAX, 64), 64);
}

#[test]
fn every_fourth_layer_of_the_2b_model_has_full_attention() {
    let full: Vec<usize> = (0..24).filter(|&i| has_full_attention(0x88_88_88, i)).collect();
    assert_eq!(full, vec![3, 7, 11, 15, 19, 23]);
}
