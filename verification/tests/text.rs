//! Text forms, held against the standard library.

use agentharbor::text::{
    char_vec, digit_text, hex_text, integer_text, is_white_space, join_texts, padded_text,
    same_text, trim,
};

#[test]
fn white_space_is_that_of_char_for_every_character() {
    for code in 0..=0x10ffffu32 {
        if let Some(c) = char::from_u32(code) {
            assert_eq!(is_white_space(c), c.is_whitespace(), "U+{code:04X}");
        }
    }
}

#[test]
fn trim_is_that_of_str() {
    for text in [
        "",
        " ",
        "\t\r\n",
        "a",
        "  a b  ",
        "\u{3000}\u{a0}inner \u{2003} kept\u{85}",
        "\u{200b}zero width is no white space\u{200b}",
        "trailing\n",
        "\nleading",
    ] {
        assert_eq!(trim(text), text.trim());
    }
}

#[test]
fn characters_and_equality_of_texts() {
    assert_eq!(char_vec("aé漢"), vec!['a', 'é', '漢']);
    assert_eq!(char_vec(""), Vec::<char>::new());
    assert!(same_text("abc", "abc"));
    assert!(!same_text("abc", "abd"));
    assert!(!same_text("abc", "ab"));
}

#[test]
fn digits_and_hexadecimal_bytes() {
    let digits: Vec<&str> = (0u8..16).map(digit_text).collect();
    assert_eq!(digits.concat(), "0123456789abcdef");
    assert_eq!(hex_text(&[0x00, 0x0f, 0xf0, 0xff, 0x1a]), "000ff0ff1a");
    assert_eq!(hex_text(&[]), "");
}

#[test]
fn integers_read_as_they_display() {
    for n in [0i64, 7, 10, 99, 100, -1, -10, 1234567890, i64::MAX, i64::MIN] {
        assert_eq!(integer_text(n), n.to_string());
    }
}

#[test]
fn padded_numbers_have_their_width() {
    assert_eq!(padded_text(1, 20), "00000000000000000001");
    assert_eq!(padded_text(u64::MAX, 20), "18446744073709551615");
    assert_eq!(padded_text(1234, 2), "34");
    assert_eq!(padded_text(5, 0), "");
    for n in [0u64, 9, 10, 12345678901234567890] {
        assert_eq!(padded_text(n, 20), format!("{n:020}"));
    }
}

#[test]
fn joined_texts_are_separated() {
    assert_eq!(join_texts(&vec![], ", "), "");
    assert_eq!(join_texts(&vec!["a"], ", "), "a");
    assert_eq!(join_texts(&vec!["a", "b", "c"], ", "), "a, b, c");
}
