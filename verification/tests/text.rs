use file_transfer::text::{chars_equal, chars_of, is_whitespace_char, push_decimal, split_lines, split_words, string_of_chars, trim_whitespace, first_line};

#[test]
fn whitespace_agrees_with_std_on_every_char() {
    for u in 0u32..=0x10FFFF {
        if let Some(c) = char::from_u32(u) {
            assert_eq!(is_whitespace_char(c), c.is_whitespace(), "char {:#x}", u);
        }
    }
}

#[test]
fn words_agree_with_split_whitespace() {
    for s in ["", "   ", "upload  file.txt", "\tlist\n", "a b\u{a0}c\u{3000}d", " x ", "download"] {
        let expected: Vec<String> = s.split_whitespace().map(|w| w.to_string()).collect();
        assert_eq!(split_words(s), expected, "on {:?}", s);
    }
}

#[test]
fn words_of_a_command_line() {
    assert_eq!(split_words("  upload   a.txt  extra\n"), vec!["upload", "a.txt", "extra"]);
}

#[test]
fn lines_agree_with_std_lines() {
    for s in ["", "\n", "a", "a\n", "a\nb", "a\r\nb\r\n", "a\r", "\n\n", "x\ry\n", "\r\n"] {
        let expected: Vec<String> = s.lines().map(|w| w.to_string()).collect();
        assert_eq!(split_lines(s), expected, "on {:?}", s);
    }
}

#[test]
fn first_line_of_text() {
    assert_eq!(first_line("name.txt\ncontent"), Some(String::from("name.txt")));
    assert_eq!(first_line("name.txt\r\n"), Some(String::from("name.txt")));
    assert_eq!(first_line(""), None);
    assert_eq!(first_line("\n"), Some(String::new()));
}

#[test]
fn trim_agrees_with_std_trim() {
    for s in ["", "  ", " a ", "\ta b\n", "x", "\u{2003}y\u{85}", "a  "] {
        assert_eq!(trim_whitespace(s), s.trim(), "on {:?}", s);
    }
}

#[test]
fn decimal_agrees_with_format() {
    for n in [0u64, 7, 10, 99, 100, 12345, u64::MAX] {
        let mut s = String::from("n=");
        push_decimal(&mut s, n);
        assert_eq!(s, format!("n={}", n));
    }
}

#[test]
fn chars_roundtrip() {
    let v = chars_of("olá!");
    assert_eq!(v, vec!['o', 'l', 'á', '!']);
    assert_eq!(string_of_chars(&v), "olá!");
    assert!(chars_equal(&v, "olá!"));
    assert!(!chars_equal(&v, "ola!"));
    assert!(!chars_equal(&v, "olá"));
}
