use fake_email_server::message::parse_message;

#[test]
fn parse_message_splits_subject_and_body() {
    let (s, b) = parse_message("Subject: Hi\r\nX-A: 1\r\n\r\nline1\nline2\n");
    assert_eq!(s, "Hi");
    assert_eq!(b, "line1\nline2");
    let (s, b) = parse_message("No-Headers: x\r\n\r\njust body");
    assert_eq!(s, "");
    assert_eq!(b, "just body");
    let (s, _) = parse_message("Subject: Re: long\r\n thing\r\n\r\nb");
    assert_eq!(s, "Re: long thing");
}

#[test]
fn first_subject_wins() {
    let (s, b) = parse_message("Subject: one\nX: 1\nSubject: two\n more\n\nb");
    assert_eq!(s, "one");
    assert_eq!(b, "b");
    let (s, _) = parse_message("Subject: one\nSubject: two\n more\n\nb");
    assert_eq!(s, "one");
}

#[test]
fn subject_name_in_any_case() {
    assert_eq!(parse_message("SUBJECT: a\n\n").0, "a");
    assert_eq!(parse_message("subject:a\n\n").0, "a");
    assert_eq!(parse_message("From: x\nsUbJeCt :  a  \n\n").0, "a");
}

#[test]
fn continuation_lines_append_to_the_previous_header() {
    assert_eq!(parse_message("Subject: a\n  b  \n\tc\nX: d\n e\n\n").0, "a b c");
    assert_eq!(parse_message("Subject:\n a\n\n").0, " a");
    // A line that is no header leaves the previous header in place.
    assert_eq!(parse_message("Subject: a\nnothing\n b\n\n").0, "a b");
    // With no header before it, an indented line is a header of its own.
    assert_eq!(parse_message(" Subject: a\n\n").0, "a");
}

#[test]
fn header_block_ends_at_the_first_blank_line() {
    let (s, b) = parse_message("X: 1\n \t \nSubject: in the body\n\nend");
    assert_eq!(s, "");
    assert_eq!(b, "Subject: in the body\n\nend");
    assert_eq!(parse_message("\nSubject: x"), (String::new(), "Subject: x".to_string()));
}

#[test]
fn message_without_a_blank_line_has_no_body() {
    assert_eq!(parse_message("Subject: a\nrest"), ("a".to_string(), String::new()));
    assert_eq!(parse_message(""), (String::new(), String::new()));
}

#[test]
fn body_is_trimmed_as_a_whole() {
    assert_eq!(parse_message("\n\n\u{a0} a \n\n b \r\n\n").1, "a \n\n b");
}

#[test]
fn subject_and_body_are_read_back() {
    for (s, t) in [("Hi", "b"), ("", ""), ("a: b", "x\ny\n\nz"), ("Grüße", "…\n.")] {
        let raw = format!("Subject: {s}\n\n{t}");
        assert_eq!(parse_message(&raw), (s.to_string(), t.to_string()));
    }
}

#[test]
fn line_ends_do_not_matter() {
    let unix = "From: a\nSubject: s\n t\n\nb\nc\n";
    assert_eq!(parse_message(unix), parse_message(&unix.replace('\n', "\r\n")));
    for open in ["Subject: s\n\nb\nc", "X: 1\nSubject: s\n t", "Subject: s", "\n\nb\n\nc\rd"] {
        assert_eq!(parse_message(open), parse_message(&open.replace('\n', "\r\n")), "{:?}", open);
    }
    assert_eq!(parse_message("Subject: s\r\n\r\nb\r\nc"), ("s".to_string(), "b\nc".to_string()));
}
