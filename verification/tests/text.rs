//! Texts, held against the standard library.

use petphrase::text::{
    blank, chars_of, contains, in_decimal, in_hexadecimal, on_one_line, same, trim, white_space,
};

#[test]
fn white_space_is_that_of_unicode() {
    for n in 0..=0x10ffffu32 {
        if let Some(c) = char::from_u32(n) {
            assert_eq!(white_space(c), c.is_whitespace(), "U+{:04X}", n);
        }
    }
}

#[test]
fn trimming_as_in_the_standard_library() {
    let samples = [
        "", " ", "a", " a", "a ", "  a  ", "a b", "\u{3000}好\u{3000}", "\t\r\n x\ty \n", "\u{a0}",
        "\u{2003}\u{2028}z\u{205f}", "\u{200b}a\u{200b}", "\u{85}q\u{1680}", "⚠ 完 ",
    ];
    for s in samples {
        assert_eq!(trim(s), s.trim(), "{:?}", s);
        assert_eq!(blank(s), s.trim().is_empty(), "{:?}", s);
        assert_eq!(trim(trim(s)), trim(s));
        assert_eq!(chars_of(s), s.chars().collect::<Vec<char>>());
    }
}

#[test]
fn finding_a_part() {
    let samples = ["", "a", "ab", "aab", "⚠ 设置保存失败:磁盘满", "保存失", "保存失败", "失败保存"];
    let parts = ["", "a", "ab", "b", "保存失败", "败"];
    for s in samples {
        for p in parts {
            assert_eq!(contains(s, p), s.contains(p), "{:?} in {:?}", p, s);
            assert_eq!(same(s, p), s == p);
        }
    }
}

#[test]
fn line_breaks_become_spaces() {
    for s in ["", "a", "a\nb", "\n\n", "一\r\n二\n", "no break"] {
        assert_eq!(on_one_line(s), s.replace('\n', " "));
    }
}

#[test]
fn numbers_in_digits() {
    for n in [0u128, 1, 9, 10, 16, 255, 5000, 10_000, 1_700_000_000_000, u64::MAX as u128, u128::MAX] {
        assert_eq!(in_decimal(n), format!("{}", n));
        assert_eq!(in_hexadecimal(n), format!("{:x}", n));
    }
}

#[test]
fn different_numbers_have_different_digits() {
    let mut seen = std::collections::HashSet::new();
    for n in 0..5000u128 {
        assert!(seen.insert(in_hexadecimal(n)));
    }
}
