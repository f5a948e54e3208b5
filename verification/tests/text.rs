use fantom::text::{
    chars_of, contains, is_white_space, join, lines_of, same_ignoring_ascii_case, same_text, split_each,
    strip_prefixes, text_of, trim,
};

const SAMPLES: [&str; 16] = [
    "",
    " ",
    "a",
    " a ",
    "\t a b \r\n",
    "\u{a0}x\u{2003}",
    "\n",
    "a\n",
    "a\nb",
    "a\r\nb\r\n",
    "a\r",
    "a\r\r\nb\r",
    "\n\n",
    "\r\n",
    "0x0x10",
    "na\u{ef}ve \u{1f600}\n\u{3000}",
];

#[test]
fn white_space_is_that_of_unicode() {
    for code in 0..=0x10FFFFu32 {
        if let Some(c) = char::from_u32(code) {
            assert_eq!(is_white_space(c), c.is_whitespace(), "{:x}", code);
        }
    }
}

#[test]
fn trimming_agrees_with_the_standard_library() {
    for s in SAMPLES {
        assert_eq!(trim(s), s.trim());
    }
}

#[test]
fn lines_agree_with_the_standard_library() {
    for s in SAMPLES {
        let expected: Vec<&str> = s.lines().collect();
        assert_eq!(lines_of(s), expected);
    }
    assert_eq!(lines_of("a\n\nb"), ["a", "", "b"]);
    assert_eq!(lines_of("x\r"), ["x\r"]);
}

#[test]
fn splitting_agrees_with_the_standard_library() {
    for s in SAMPLES {
        let expected: Vec<&str> = s.split('\n').collect();
        assert_eq!(split_each(s, '\n'), expected);
    }
}

#[test]
fn pieces_join_to_the_text() {
    for s in SAMPLES {
        let pieces = split_each(s, 'a');
        assert_eq!(join(&pieces, "a"), s);
        assert!(pieces.iter().all(|p| !p.contains('a')));
    }
}

#[test]
fn joining_agrees_with_the_standard_library() {
    let none: Vec<String> = Vec::new();
    assert_eq!(join(&none, ", "), "");
    let parts = vec!["a".to_string(), String::new(), "b".to_string()];
    assert_eq!(join(&parts, ", "), parts.join(", "));
    assert_eq!(join(&parts[..1], ", "), "a");
}

#[test]
fn searching_agrees_with_the_standard_library() {
    for s in SAMPLES {
        for p in ["", "a", "b", "\n", "0x1", "ab", " a", "\u{ef}v"] {
            assert_eq!(contains(s, p), s.contains(p), "{:?} {:?}", s, p);
        }
    }
    assert!(contains("aab", "ab"));
}

#[test]
fn stripping_agrees_with_the_standard_library() {
    for s in ["", "0x", "0x1", "0x0x1", "00x1", "0X1", "0", "0x00x2", "0xx"] {
        assert_eq!(strip_prefixes(s, "0x"), s.trim_start_matches("0x"));
    }
}

#[test]
fn letter_case_is_ignored_for_ascii_only() {
    for (a, b) in [("big", "BIG"), ("", ""), ("big", "bi"), ("\u{e9}", "\u{c9}"), ("k", "\u{212a}"), ("[", "{")] {
        assert_eq!(same_ignoring_ascii_case(a, b), a.eq_ignore_ascii_case(b));
    }
}

#[test]
fn texts_are_the_same_when_their_characters_are() {
    assert!(same_text("", ""));
    assert!(same_text("uint16", "uint16"));
    assert!(!same_text("uint16", "uint1"));
    assert!(!same_text("uint16", "uint17"));
    let v = chars_of("h\u{e9}llo");
    assert_eq!(v.len(), 5);
    assert_eq!(text_of(&v, 1, 3), "\u{e9}l");
}
