use fake_email_server::text::{
    chars_of, contains, decimal_text, find_char, is_whitespace, join_lines, join_strings,
    lower_string, same_text, split_lines, starts_with, string_of, strip_chars, upper_chars, Strip,
};

#[test]
fn white_space_is_that_of_unicode() {
    for c in '\0'..=char::MAX {
        assert_eq!(is_whitespace(c), c.is_whitespace(), "{:?}", c);
    }
}

#[test]
fn strings_and_characters_convert() {
    let cs = chars_of("aß…😀");
    assert_eq!(cs, vec!['a', 'ß', '…', '😀']);
    assert_eq!(string_of(&cs), "aß…😀");
    assert_eq!(chars_of(""), Vec::<char>::new());
}

#[test]
fn stripping_agrees_with_std() {
    for s in ["", " ", " a b ", "\t\u{3000}x", "a", "< <a> >", "<<>>", "a<"] {
        let cs = chars_of(s);
        assert_eq!(string_of(strip_chars(&cs, Strip::Whitespace)), s.trim());
        let angles = s.trim_matches(|c| c == '<' || c == '>');
        assert_eq!(string_of(strip_chars(&cs, Strip::AngleBrackets)), angles);
    }
}

#[test]
fn lines_agree_with_std() {
    for s in ["", "\n", "a", "a\n", "a\r\n", "a\r", "a\r\r\nb", "\r\n\r\n", "a\n\nb\n", "\ra\rb\n"] {
        let cs = chars_of(s);
        let lines: Vec<String> = split_lines(&cs).iter().map(|l| string_of(l)).collect();
        let expected: Vec<&str> = s.lines().collect();
        assert_eq!(lines, expected, "{:?}", s);
    }
}

#[test]
fn joining_puts_separators_between() {
    let cs = chars_of("a\nb\n\nc");
    let lines = split_lines(&cs);
    assert_eq!(join_lines(&lines, 0), "a\nb\n\nc");
    assert_eq!(join_lines(&lines, 1), "b\n\nc");
    assert_eq!(join_lines(&lines, 4), "");
    let v = vec!["x".to_string(), "y".to_string()];
    assert_eq!(join_strings(&v, ", "), "x, y");
    assert_eq!(join_strings(&Vec::new(), ", "), "");
}

#[test]
fn ascii_case_agrees_with_std() {
    for s in ["MiXed 1!", "@[`{", "Äß"] {
        let cs = chars_of(s);
        assert_eq!(lower_string(&cs), s.to_ascii_lowercase());
        assert_eq!(string_of(&upper_chars(&cs)), s.to_ascii_uppercase());
    }
}

#[test]
fn finding_text() {
    assert_eq!(find_char(&['a', ':', ':'], ':'), 1);
    assert_eq!(find_char(&['a'], ':'), 1);
    assert!(starts_with(&['a', 'b'], "a"));
    assert!(starts_with(&['a'], ""));
    assert!(!starts_with(&['a'], "ab"));
    assert!(same_text(&['a', 'b'], "ab"));
    assert!(!same_text(&['a', 'b'], "a"));
    for (hay, needle) in [("", ""), ("abc", ""), ("abc", "bc"), ("abc", "cb"), ("aab", "ab"), ("a", "aa")] {
        assert_eq!(contains(hay, needle), hay.contains(needle));
    }
}

#[test]
fn numbers_in_decimal() {
    for n in [0, 7, 10, 65535, usize::MAX] {
        assert_eq!(decimal_text(n), n.to_string());
    }
}
