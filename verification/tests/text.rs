use udp_chat::decimal::decimal_string;
use udp_chat::text::{
    copy_range, find_char, from_chars, lines_chars, same_chars, split_chars, to_chars, trim_chars,
    words_chars,
};

fn chars(s: &str) -> Vec<char> {
    s.chars().collect()
}

fn strings(rows: &[Vec<char>]) -> Vec<String> {
    rows.iter().map(|r| r.iter().collect()).collect()
}

const SAMPLES: [&str; 22] = [
    "",
    "a",
    "\n",
    "\r\n",
    "\r",
    "a\n",
    "a\nb",
    "a\r\nb\r\n",
    "a\rb",
    "a\r",
    "a\r\r\n",
    "\n\n",
    "one\n\ntwo\n",
    "  padded  ",
    "\t tab\u{a0}nbsp \u{3000}",
    " \n ",
    "word",
    "two words",
    "  three   spaced\twords\n",
    "héllo wörld",
    "\u{2028}line sep\u{2029}",
    "trailing \r",
];

#[test]
fn to_chars_gives_every_character() {
    for s in SAMPLES {
        assert_eq!(to_chars(s), chars(s));
    }
}

#[test]
fn from_chars_builds_the_same_string() {
    for s in SAMPLES {
        assert_eq!(from_chars(&chars(s)), s);
    }
    assert_eq!(from_chars(&['a', 'b']), "ab");
}

#[test]
fn same_chars_compares_contents() {
    assert!(same_chars(&chars("abc"), &chars("abc")));
    assert!(!same_chars(&chars("abc"), &chars("abd")));
    assert!(!same_chars(&chars("abc"), &chars("ab")));
    assert!(same_chars(&[], &[]));
}

#[test]
fn find_char_finds_the_first_occurrence() {
    let text = chars("a.b.c");
    assert_eq!(find_char(&text, 0, '.'), 1);
    assert_eq!(find_char(&text, 1, '.'), 1);
    assert_eq!(find_char(&text, 2, '.'), 3);
    assert_eq!(find_char(&text, 4, '.'), 5);
    assert_eq!(find_char(&text, 5, '.'), 5);
    assert_eq!(find_char(&text, 0, 'x'), 5);
}

#[test]
fn copy_range_copies_the_part() {
    let text = chars("hello");
    assert_eq!(copy_range(&text, 1, 4), chars("ell"));
    assert_eq!(copy_range(&text, 2, 2), chars(""));
    assert_eq!(copy_range(&text, 0, 5), text);
}

#[test]
fn split_chars_keeps_empty_parts() {
    assert_eq!(strings(&split_chars(&chars("1.2.3.4"), '.')), vec!["1", "2", "3", "4"]);
    assert_eq!(strings(&split_chars(&chars(""), '.')), vec![""]);
    assert_eq!(strings(&split_chars(&chars("."), '.')), vec!["", ""]);
    assert_eq!(strings(&split_chars(&chars("a..b."), '.')), vec!["a", "", "b", ""]);
    assert_eq!(strings(&split_chars(&chars("host:1"), ':')), vec!["host", "1"]);
}

#[test]
fn split_chars_agrees_with_the_standard_library() {
    for s in SAMPLES {
        let expected: Vec<String> = s.split(' ').map(String::from).collect();
        assert_eq!(strings(&split_chars(&chars(s), ' ')), expected);
    }
}

#[test]
fn lines_chars_splits_at_line_endings() {
    assert_eq!(strings(&lines_chars(&chars("a\nb\r\nc"))), vec!["a", "b", "c"]);
    assert_eq!(strings(&lines_chars(&chars("a\n"))), vec!["a"]);
    assert_eq!(strings(&lines_chars(&chars("\n"))), vec![""]);
    assert_eq!(strings(&lines_chars(&chars("a\r"))), vec!["a\r"]);
    assert_eq!(strings(&lines_chars(&chars("a\n\nb"))), vec!["a", "", "b"]);
    assert!(lines_chars(&chars("")).is_empty());
}

#[test]
fn lines_chars_agrees_with_the_standard_library() {
    for s in SAMPLES {
        let expected: Vec<String> = s.lines().map(String::from).collect();
        assert_eq!(strings(&lines_chars(&chars(s))), expected);
    }
}

#[test]
fn trim_chars_removes_whitespace_at_both_ends() {
    assert_eq!(from_chars(&trim_chars(&chars("  padded  "))), "padded");
    assert_eq!(from_chars(&trim_chars(&chars("a b"))), "a b");
    assert_eq!(from_chars(&trim_chars(&chars(" \t\n"))), "");
    assert_eq!(from_chars(&trim_chars(&chars(""))), "");
    assert_eq!(from_chars(&trim_chars(&chars("\u{a0}x\u{3000}"))), "x");
}

#[test]
fn trim_chars_agrees_with_the_standard_library() {
    for s in SAMPLES {
        assert_eq!(from_chars(&trim_chars(&chars(s))), s.trim());
    }
}

#[test]
fn words_chars_splits_at_whitespace() {
    assert_eq!(strings(&words_chars(&chars("add 127.0.0.1 9001\n"))), vec![
        "add",
        "127.0.0.1",
        "9001"
    ]);
    assert_eq!(strings(&words_chars(&chars("  a \t b  "))), vec!["a", "b"]);
    assert!(words_chars(&chars(" \n ")).is_empty());
    assert!(words_chars(&chars("")).is_empty());
}

#[test]
fn words_chars_agrees_with_the_standard_library() {
    for s in SAMPLES {
        let expected: Vec<String> = s.split_whitespace().map(String::from).collect();
        assert_eq!(strings(&words_chars(&chars(s))), expected);
    }
}

#[test]
fn decimal_string_writes_shortest_numerals() {
    assert_eq!(decimal_string(0), "0");
    assert_eq!(decimal_string(7), "7");
    assert_eq!(decimal_string(10), "10");
    assert_eq!(decimal_string(9000), "9000");
    assert_eq!(decimal_string(65535), "65535");
}

#[test]
fn decimal_string_agrees_with_the_standard_library() {
    let mut n: u16 = 0;
    loop {
        assert_eq!(decimal_string(n), n.to_string());
        if n == u16::MAX {
            break;
        }
        n += 1;
    }
}
