use patchcord::text::{
    cat, decimal_text, describe_fault, has_text_prefix, joined, leading_word, parse_number,
    split_lines, stands_before, tail_after_last, text_contains, text_eq, to_lower, to_upper,
    trimmed, white_space, without_prefix, NumberFault,
};

#[test]
fn white_space_agrees_with_the_standard_library() {
    for n in 0..=0x10ffffu32 {
        if let Some(c) = char::from_u32(n) {
            assert_eq!(white_space(c), c.is_whitespace());
        }
    }
}

#[test]
fn lines_agree_with_the_standard_library() {
    for s in ["", "\n", "a", "a\n", "a\r\nb", "a\r", "\r\n\r\n", "x\n\ny\r\n z", "a\rb\n"] {
        let expected: Vec<String> = s.lines().map(|l| l.to_string()).collect();
        assert_eq!(split_lines(s), expected);
    }
}

#[test]
fn trimming_agrees_with_the_standard_library() {
    for s in ["", "  ", " a ", "\t\u{a0}x y\u{2003}\n", "z"] {
        assert_eq!(trimmed(s), s.trim());
        assert_eq!(leading_word(s), s.split_whitespace().next().map(|w| w.to_string()));
    }
}

#[test]
fn case_changes_touch_ascii_alone() {
    let s = "AbZ{@[`ÄöÉ1";
    assert_eq!(to_lower(s), s.to_ascii_lowercase());
    assert_eq!(to_upper(s), s.to_ascii_uppercase());
}

#[test]
fn numbers_are_read_as_the_standard_library_reads_them() {
    for s in ["", "0", "007", "+5", "+", "-", "-1", "4294967295", "4294967296", "99999999999", "1a",
        "a1", " 1", "99999999999x", "x99999999999"]
    {
        let expected = s.parse::<u32>();
        match (parse_number(s), expected) {
            (Ok(n), Ok(m)) => assert_eq!(n, m),
            (Err(fault), Err(e)) => assert_eq!(describe_fault(fault), e.to_string()),
            (got, want) => panic!("{:?} {:?} {:?}", s, got, want),
        }
    }
    assert_eq!(parse_number(""), Err(NumberFault::Empty));
    assert_eq!(parse_number("4294967296"), Err(NumberFault::TooLarge));
    assert_eq!(parse_number("12x"), Err(NumberFault::InvalidDigit));
}

#[test]
fn decimal_digits_are_read_back() {
    for n in [0u32, 1, 9, 10, 99, 100, 65535, 4294967295] {
        assert_eq!(decimal_text(n as u64), n.to_string());
        assert_eq!(parse_number(&decimal_text(n as u64)), Ok(n));
    }
    assert_eq!(decimal_text(u64::MAX), "18446744073709551615");
}

#[test]
fn texts_are_ordered_as_the_standard_library_orders_them() {
    let list = ["", "a", "aa", "ab", "b", "Z", "ä", "\u{10000}", "\u{ffff}"];
    for a in list {
        for b in list {
            assert_eq!(stands_before(a, b), a < b);
            assert_eq!(text_eq(a, b), a == b);
        }
    }
}

#[test]
fn parts_and_prefixes_are_found() {
    assert!(text_contains("already exists", "exists"));
    assert!(text_contains("abc", ""));
    assert!(!text_contains("ab", "abc"));
    assert!(has_text_prefix("Audio/Sink/Virtual", "Audio/Sink"));
    assert!(!has_text_prefix("Audio", "Audio/Sink"));
    assert_eq!(without_prefix("Server Name: x", "Server Name:"), Some(" x".to_string()));
    assert_eq!(without_prefix("x", "Server Name:"), None);
    assert_eq!(tail_after_last("org.mozilla.firefox", '.'), "firefox");
    assert_eq!(tail_after_last("steam", '.'), "steam");
    assert_eq!(tail_after_last("x.", '.'), "");
}

#[test]
fn texts_are_joined() {
    let list = vec!["a".to_string(), "b".to_string(), "c".to_string()];
    assert_eq!(joined(&list, "; "), "a; b; c");
    assert_eq!(joined(&vec![], "; "), "");
    assert_eq!(cat("x", "y"), "xy");
}
