use licensegate_rs::lines::{break_after, break_before};
use licensegate_rs::text::{
    chars_of, decimal_text, holds_text, is_space, replace_text, same_text, trim_text,
};

#[test]
fn chars_of_gives_every_character() {
    assert_eq!(chars_of("aé☃"), vec!['a', 'é', '☃']);
    assert_eq!(chars_of(""), Vec::<char>::new());
}

#[test]
fn same_text_compares_characters() {
    assert!(same_text("VALID", "VALID"));
    assert!(!same_text("VALID", "valid"));
    assert!(!same_text("VALID", "VALID "));
    assert!(same_text("", ""));
    assert!(same_text("é", "é"));
    assert!(!same_text("é", "e"));
}

#[test]
fn is_space_agrees_with_the_standard_library() {
    let mut n: u32 = 0;
    while n <= 0x10FFFF {
        if let Some(c) = char::from_u32(n) {
            assert_eq!(is_space(c), c.is_whitespace(), "U+{:04X}", n);
        }
        n += 1;
    }
}

#[test]
fn holds_text_finds_a_pattern_anywhere() {
    assert!(holds_text("-----BEGIN PUBLIC KEY-----", "-----BEGIN"));
    assert!(holds_text("xx-----BEGIN", "-----BEGIN"));
    assert!(!holds_text("----BEGIN", "-----BEGIN"));
    assert!(!holds_text("", "a"));
    assert!(holds_text("abc", ""));
    assert!(holds_text("", ""));
    assert!(holds_text("abc", "c"));
    assert!(!holds_text("ab", "abc"));
}

#[test]
fn replace_text_replaces_from_the_left_without_overlap() {
    assert_eq!(replace_text("aaa", "aa", "b"), "ba");
    assert_eq!(replace_text("a\\nb\\nc", "\\n", "\n"), "a\nb\nc");
    assert_eq!(replace_text("abc", "x", "y"), "abc");
    assert_eq!(replace_text("", "x", "y"), "");
    assert_eq!(replace_text("xx", "x", "xx"), "xxxx");
    assert_eq!(replace_text("é-é", "é", "e"), "e-e");
    assert_eq!(replace_text("abc", "abc", ""), "");
}

#[test]
fn replace_text_agrees_with_the_standard_library() {
    let texts = ["", "a", "abab", "aXbXc", "\\\\n", "\\n\\n", "--a--a--", "ébé"];
    let patterns = ["a", "ab", "X", "\\n", "--", "é", "abab"];
    let replacements = ["", "a", "\n", "XY"];
    for t in texts {
        for p in patterns {
            for r in replacements {
                assert_eq!(replace_text(t, p, r), t.replace(p, r), "{:?} {:?} {:?}", t, p, r);
            }
        }
    }
}

#[test]
fn replace_text_leaves_the_text_alone_for_an_empty_pattern() {
    assert_eq!(replace_text("abc", "", "x"), "abc");
}

#[test]
fn trim_text_strips_both_ends_only() {
    assert_eq!(trim_text("  a b \n"), "a b");
    assert_eq!(trim_text("\t\r\n x"), "x");
    assert_eq!(trim_text("x"), "x");
    assert_eq!(trim_text(""), "");
    assert_eq!(trim_text(" \n\t"), "");
    assert_eq!(trim_text("\u{00A0}é\u{3000}"), "é");
}

#[test]
fn trim_text_agrees_with_the_standard_library() {
    let texts = ["", " ", "a", " a", "a ", " a b ", "\n\nkey\n", "\u{2003}x\u{2028}", "\u{200B}x"];
    for t in texts {
        assert_eq!(trim_text(t), t.trim(), "{:?}", t);
    }
}

#[test]
fn decimal_text_writes_numbers_as_the_standard_library_does() {
    assert_eq!(decimal_text(0), "0");
    assert_eq!(decimal_text(7), "7");
    assert_eq!(decimal_text(10), "10");
    assert_eq!(decimal_text(-1), "-1");
    assert_eq!(decimal_text(1700000000123), "1700000000123");
    assert_eq!(decimal_text(i64::MAX), "9223372036854775807");
    assert_eq!(decimal_text(i64::MIN), "-9223372036854775808");
    let samples: [i64; 6] = [1, 9, 99, 100, -100, 1234567890];
    for n in samples {
        assert_eq!(decimal_text(n), format!("{}", n));
    }
}

#[test]
fn break_after_adds_a_line_break_where_none_follows() {
    assert_eq!(break_after("ab-cd", "b"), "ab\n-cd");
    assert_eq!(break_after("ab\ncd", "b"), "ab\ncd");
    assert_eq!(break_after("ab", "b"), "ab");
    assert_eq!(break_after("bbb", "b"), "b\nb\nb");
    assert_eq!(break_after("aaaa", "aa"), "aa\naa");
    assert_eq!(break_after("abc", ""), "abc");
    assert_eq!(break_after("", "b"), "");
    assert_eq!(break_after("xyz", "b"), "xyz");
}

#[test]
fn break_before_adds_a_line_break_where_none_precedes() {
    assert_eq!(break_before("ab-cd", "c"), "ab-\ncd");
    assert_eq!(break_before("ab\ncd", "c"), "ab\ncd");
    assert_eq!(break_before("cd", "c"), "cd");
    assert_eq!(break_before("ccc", "c"), "c\nc\nc");
    assert_eq!(break_before("a\n\nc", "\nc"), "a\n\nc");
    assert_eq!(break_before("a\nc\nc", "\nc"), "a\n\nc\n\nc");
    assert_eq!(break_before("abc", ""), "abc");
    assert_eq!(break_before("", "c"), "");
}
