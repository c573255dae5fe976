use commit_assist::text::{
    append, begins_with, chars_of, decimal, digit, find_in, has_prefix, has_substring, has_text,
    is_space, lowercase, occurs_at, slice_of, split_lines, string_of, trimmed,
};

fn chars(s: &str) -> Vec<char> {
    s.chars().collect()
}

fn text(v: &Vec<char>) -> String {
    v.iter().collect()
}

#[test]
fn conversions_keep_every_character() {
    assert_eq!(chars_of("aé€🐛"), vec!['a', 'é', '€', '🐛']);
    assert_eq!(chars_of(""), Vec::<char>::new());
    assert_eq!(string_of(&vec!['a', 'é', '€', '🐛']), "aé€🐛");
    assert_eq!(string_of(&vec![]), "");
}

#[test]
fn lowercase_follows_unicode() {
    assert_eq!(text(&lowercase(&chars("FEAT: Ärger ΑΣ"))), "feat: ärger ας");
    assert_eq!(text(&lowercase(&chars("İ"))), "i\u{307}");
    assert_eq!(text(&lowercase(&chars(""))), "");
}

#[test]
fn append_and_slice() {
    let mut v = chars("ab");
    append(&mut v, &chars("cd"));
    assert_eq!(text(&v), "abcd");
    append(&mut v, &chars(""));
    assert_eq!(text(&v), "abcd");
    assert_eq!(text(&slice_of(&v, 1, 3)), "bc");
    assert_eq!(text(&slice_of(&v, 2, 2)), "");
    assert_eq!(text(&slice_of(&v, 0, 4)), "abcd");
}

#[test]
fn white_space_is_the_unicode_property() {
    for c in vec![
        '\t', '\n', '\u{0B}', '\u{0C}', '\r', ' ', '\u{85}', '\u{A0}', '\u{1680}', '\u{2000}',
        '\u{2005}', '\u{200A}', '\u{2028}', '\u{2029}', '\u{202F}', '\u{205F}', '\u{3000}',
    ] {
        assert!(is_space(c));
    }
    for c in vec!['a', '\u{08}', '\u{0E}', '\u{1F}', '\u{200B}', '\u{180E}', '\u{FEFF}', '\u{2060}'] {
        assert!(!is_space(c));
    }
    let mut code: u32 = 0;
    while code <= 0x10FFFF {
        if let Some(c) = char::from_u32(code) {
            assert_eq!(is_space(c), c.is_whitespace());
        }
        code += 1;
    }
}

#[test]
fn trimming() {
    assert_eq!(text(&trimmed(&chars("  a b \n"))), "a b");
    assert_eq!(text(&trimmed(&chars("a"))), "a");
    assert_eq!(text(&trimmed(&chars(" \t\r\n"))), "");
    assert_eq!(text(&trimmed(&chars(""))), "");
    assert_eq!(text(&trimmed(&chars("\u{3000}x\u{A0}"))), "x");
    for s in vec!["  a b \n", "", " ", "x", "\n\nx  y\t"] {
        assert_eq!(text(&trimmed(&chars(s))), s.trim());
    }
}

#[test]
fn prefixes_and_substrings() {
    let s = chars("hello world");
    assert!(has_prefix(&s, &chars("hello")));
    assert!(has_prefix(&s, &chars("")));
    assert!(!has_prefix(&s, &chars("world")));
    assert!(!has_prefix(&chars("he"), &chars("hello")));
    assert!(begins_with(&s, "hell"));
    assert!(occurs_at(&s, &chars("world"), 6));
    assert!(!occurs_at(&s, &chars("world"), 7));
    assert!(occurs_at(&s, &chars(""), 11));
    assert!(!occurs_at(&s, &chars(""), 12));
    assert!(has_substring(&s, &chars("o w")));
    assert!(has_substring(&s, &chars("")));
    assert!(has_substring(&chars(""), &chars("")));
    assert!(!has_substring(&s, &chars("worlds")));
    assert!(has_text(&s, "d"));
    assert!(!has_text(&s, "x"));
    assert_eq!(find_in(&s, &chars("o"), 0), Some(4));
    assert_eq!(find_in(&s, &chars("o"), 5), Some(7));
    assert_eq!(find_in(&s, &chars("o"), 8), None);
    assert_eq!(find_in(&s, &chars("d"), 10), Some(10));
    assert_eq!(find_in(&s, &chars(""), 11), Some(11));
    assert_eq!(find_in(&s, &chars(""), 12), None);
    assert_eq!(find_in(&chars("aaa"), &chars("aa"), 1), Some(1));
}

#[test]
fn lines_end_with_a_line_feed() {
    let lines = |s: &str| -> Vec<String> { split_lines(&chars(s)).iter().map(text).collect() };
    assert_eq!(lines("a\nb"), vec!["a", "b"]);
    assert_eq!(lines("a\nb\n"), vec!["a", "b"]);
    assert_eq!(lines("a\r\nb\r\n"), vec!["a", "b"]);
    assert_eq!(lines("a\n\nb"), vec!["a", "", "b"]);
    assert_eq!(lines("\n"), vec![""]);
    assert_eq!(lines("\r\n"), vec![""]);
    assert_eq!(lines(""), Vec::<String>::new());
    assert_eq!(lines("a\r"), vec!["a\r"]);
    assert_eq!(lines("a\r\r\n"), vec!["a\r"]);
    assert_eq!(lines("a\rb\n"), vec!["a\rb"]);
    for s in vec!["a\nb", "a\r\nb\r\n", "", "\n\n", "x\r", "\r\n\r\n", "one\ntwo\r\nthree\r"] {
        let expected: Vec<String> = s.lines().map(|l| l.to_string()).collect();
        assert_eq!(lines(s), expected);
    }
}

#[test]
fn decimal_numerals() {
    assert_eq!(text(&decimal(0)), "0");
    assert_eq!(text(&decimal(7)), "7");
    assert_eq!(text(&decimal(10)), "10");
    assert_eq!(text(&decimal(8000)), "8000");
    assert_eq!(text(&decimal(1234567890)), "1234567890");
    assert_eq!(text(&decimal(usize::MAX)), usize::MAX.to_string());
    for d in 0..10 {
        assert_eq!(digit(d).to_string(), d.to_string());
    }
}
