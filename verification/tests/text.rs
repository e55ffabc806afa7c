use themewalker::text::{
    char_is_whitespace, from_chars, same_text, split_lines, starts_with, strip_cr_slice, text_le,
    to_chars, trim_slice,
};

fn chars(s: &str) -> Vec<char> {
    s.chars().collect()
}

fn string(s: &[char]) -> String {
    s.iter().collect()
}

#[test]
fn whitespace_is_what_the_standard_library_says() {
    for n in 0..=0x3100u32 {
        if let Some(c) = char::from_u32(n) {
            assert_eq!(char_is_whitespace(c), c.is_whitespace(), "U+{:04X}", n);
        }
    }
    for c in ['\u{FEFF}', '\u{180E}', '\u{200B}', '\u{10FFFF}', '😀'] {
        assert_eq!(char_is_whitespace(c), c.is_whitespace());
        assert!(!char_is_whitespace(c));
    }
}

#[test]
fn chars_and_back() {
    for s in ["", "abc", "é😀\n", "a\u{0}b"] {
        assert_eq!(to_chars(s), chars(s));
        assert_eq!(from_chars(&chars(s)), s);
    }
}

#[test]
fn trimming() {
    for s in ["", " ", "a", "  a b \t\r\n", "\u{a0}x\u{3000}", "\u{200B}x ", " \n \t "] {
        assert_eq!(string(trim_slice(&chars(s))), s.trim(), "text {:?}", s);
    }
    assert_eq!(string(trim_slice(&chars("  a b  "))), "a b");
}

#[test]
fn line_splitting() {
    let cases = [
        "",
        "\n",
        "a",
        "a\n",
        "a\nb",
        "a\r\nb\r\n",
        "a\r",
        "a\r\r\n",
        "\r\n\n\r",
        "foo\nbar\n\r\nbaz\r",
        "\n\n",
        "x\ry\n",
    ];
    for s in cases {
        let cs = chars(s);
        let got: Vec<String> = split_lines(&cs).iter().map(|l| string(l)).collect();
        let expected: Vec<String> = s.lines().map(|l| l.to_string()).collect();
        assert_eq!(got, expected, "text {:?}", s);
    }
    let cs = chars("a\r\nb");
    let got: Vec<String> = split_lines(&cs).iter().map(|l| string(l)).collect();
    assert_eq!(got, vec!["a", "b"]);
}

#[test]
fn carriage_return_stripping() {
    assert_eq!(string(strip_cr_slice(&chars("a\r"))), "a");
    assert_eq!(string(strip_cr_slice(&chars("a\r\r"))), "a\r");
    assert_eq!(string(strip_cr_slice(&chars("a"))), "a");
    assert_eq!(string(strip_cr_slice(&chars(""))), "");
}

#[test]
fn prefixes_and_equality() {
    assert!(starts_with(&chars("Current=x"), &chars("Current=")));
    assert!(starts_with(&chars("Current="), &chars("Current=")));
    assert!(starts_with(&chars("x"), &chars("")));
    assert!(!starts_with(&chars("Curren"), &chars("Current=")));
    assert!(!starts_with(&chars("current=x"), &chars("Current=")));
    assert!(same_text(&chars("[Theme]"), &chars("[Theme]")));
    assert!(!same_text(&chars("[Theme]"), &chars("[Theme] ")));
    assert!(!same_text(&chars("[Theme]"), &chars("[theme]")));
    assert!(same_text(&chars(""), &chars("")));
}

#[test]
fn text_order_is_that_of_strings() {
    let words = ["", "a", "ab", "b", "B", "a-b", "a.b", "é", "z", "😀", "\u{ffff}", "aa", "a\u{0}"];
    for a in words {
        for b in words {
            assert_eq!(text_le(&chars(a), &chars(b)), a <= b, "{:?} {:?}", a, b);
        }
    }
    assert!(text_le(&chars("a"), &chars("b")));
    assert!(!text_le(&chars("b"), &chars("a")));
}
