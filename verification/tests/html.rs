use fake_email_server::html::{clear, esc, row_html, rows, rows_html, short_subject, stats_html};
use fake_email_server::inbox::{store, store_as, Inbox, Timestamp};
use fake_email_server::search::{messages, RowsQuery};

const EMPTY: &str = "<tr><td colspan=\"3\" class=\"empty\">No mail yet — point an SMTP client at :1025 and it lands here.</td></tr>";

fn query(q: Option<&str>) -> RowsQuery {
    RowsQuery { q: q.map(|s| s.to_string()) }
}

#[test]
fn ui_rows_search_clear_and_stats() {
    store(&mut Inbox::new(), "a@x".to_string(), vec![], "Subject: x\n\nb");
    // A fresh inbox is empty: the empty state renders.
    let fresh = Inbox::new();
    assert!(rows(&fresh, &query(None)).contains("No mail yet"));

    let mut inbox = Inbox::new();
    store(
        &mut inbox,
        "ops@1km.test".to_string(),
        vec!["boss@1km.test".to_string()],
        "Subject: Weekly dues\n\nHello",
    );
    store(&mut inbox, "spam@x".to_string(), vec![], "Subject: x\n\n<b>bold</b>");
    assert!(rows(&inbox, &query(None)).contains("Weekly dues"));
    assert!(rows(&inbox, &query(Some("dues"))).contains("Weekly dues"));
    assert!(rows(&inbox, &query(Some("zzz-no-match"))).contains("No mail yet"));
    // Bodies are HTML-escaped (XSS-safe).
    let html = rows(&inbox, &query(Some("bold")));
    assert!(html.contains("&lt;b&gt;"));
    assert!(!html.contains("<b>bold</b>"));
    assert!(stats_html(&inbox).contains("2</strong> messages"));
    assert!(clear(&mut inbox).contains("No mail yet"));
}

#[test]
fn escaping_replaces_the_four_characters() {
    assert_eq!(esc("a & b"), "a &amp; b");
    assert_eq!(esc("<\">"), "&lt;&quot;&gt;");
    assert_eq!(esc("&lt;"), "&amp;lt;");
    assert_eq!(esc("'ß…"), "'ß…");
    assert_eq!(esc(""), "");
    for s in ["<a href=\"x\">&amp;</a>", "&&<<", "plain"] {
        let replaced = s.replace('&', "&amp;").replace('<', "&lt;").replace('>', "&gt;").replace('"', "&quot;");
        assert_eq!(esc(s), replaced);
    }
}

#[test]
fn escaping_distributes_over_text() {
    assert_eq!(esc("<&"), format!("{}{}", esc("<"), esc("&")));
}

#[test]
fn missing_subject_is_named() {
    assert_eq!(short_subject(""), "(no subject)");
    assert_eq!(short_subject(" "), " ");
    assert_eq!(short_subject("s"), "s");
}

#[test]
fn row_word_for_word() {
    let mut inbox = Inbox::new();
    let at = Timestamp::new(1_700_000_000, 0).unwrap();
    let to = vec!["a@x".to_string(), "<b@x>".to_string()];
    let id = 0x0123_4567_89ab_4cde_8f01_2345_6789_abcd;
    store_as(&mut inbox, "\"me\"".to_string(), to, "X: y\n\n1 < 2", id, at);
    let expected = "<tr><td>a@x, &lt;b@x&gt;</td><td>(no subject)</td><td class=\"at\">14 Nov 22:13:20</td></tr><tr class=\"detail\"><td colspan=\"3\"><details><summary>from: &quot;me&quot;</summary><div class=\"full\">1 &lt; 2</div><div class=\"meta\">id: 01234567-89ab-4cde-8f01-23456789abcd</div></details></td></tr>";
    assert_eq!(rows(&inbox, &query(None)), expected);
    let row = row_html(inbox.get(0), "14 Nov 22:13:20", "01234567-89ab-4cde-8f01-23456789abcd");
    assert_eq!(row, expected);
}

#[test]
fn times_at_the_edges_are_written() {
    for (secs, nanos, text) in [
        (0, 0, "01 Jan 00:00:00"),
        (-1, 999_999_999, "31 Dec 23:59:59"),
        (59, 1_000_000_000, "01 Jan 00:00:60"),
        (-8_334_601_228_800, 0, "01 Jan 00:00:00"),
        (8_210_266_876_799, 1_999_999_999, "31 Dec 23:59:60"),
    ] {
        let mut inbox = Inbox::new();
        let at = Timestamp::new(secs, nanos).unwrap();
        store_as(&mut inbox, String::new(), vec![], "", 0, at);
        let html = rows(&inbox, &query(None));
        assert!(html.contains(&format!("<td class=\"at\">{text}</td>")), "{}", html);
    }
}

#[test]
fn every_message_has_its_row() {
    let mut inbox = Inbox::new();
    for i in 0..3 {
        let at = Timestamp::new(i, 0).unwrap();
        store_as(&mut inbox, format!("f{i}"), vec![], "", i as u128, at);
    }
    let all = messages(&inbox).data;
    let one_by_one: String = (0..3).map(|i| rows_html(&all[i..i + 1])).collect();
    assert_eq!(rows_html(&all), one_by_one);
    assert_eq!(rows_html(&[]), EMPTY);
}

#[test]
fn content_adds_no_markup() {
    let count = |from: &str, raw: &str| {
        let mut inbox = Inbox::new();
        store_as(&mut inbox, from.to_string(), vec![from.to_string()], raw, 7, Timestamp::new(0, 0).unwrap());
        let html = rows(&inbox, &query(None));
        html.chars().filter(|c| ['<', '>', '"'].contains(c)).collect::<String>()
    };
    assert_eq!(count("a", "Subject: b\n\nc"), count("<i>", "Subject: \"x\"\n\n</td><script>"));
}

#[test]
fn tables_of_equal_length_have_the_same_tags() {
    let tags = |from: &str, raw: &str, first: i64, n: i64| {
        let mut inbox = Inbox::new();
        for i in 0..n {
            let at = Timestamp::new(first + 100_000 * i, 5).unwrap();
            store_as(&mut inbox, from.to_string(), vec![from.to_string()], raw, i as u128, at);
        }
        let html = rows(&inbox, &query(None));
        html.chars().filter(|c| ['<', '>', '"'].contains(c)).collect::<String>()
    };
    let one = tags("a", "Subject: b\n\nc", 0, 1);
    assert_eq!(one, "<><><><><><\"\"><><><\"\"><\"\"><><><><\"\"><><\"\"><><><><>");
    assert_eq!(tags("<i>", "Subject: \"x\"\n\n</td><script>", 1_700_000_000, 7), one.repeat(7));
}

#[test]
fn shown_time_ends_in_the_time_of_day() {
    for (secs, nanos, text) in [(86_399, 0, "23:59:59"), (3_661, 999_999_999, "01:01:01"), (-86_400, 0, "00:00:00"), (119, 1_000_000_000, "00:01:60")] {
        let mut inbox = Inbox::new();
        store_as(&mut inbox, String::new(), vec![], "", 0, Timestamp::new(secs, nanos).unwrap());
        let html = rows(&inbox, &query(None));
        let at = html.split("<td class=\"at\">").nth(1).unwrap().split("</td>").next().unwrap();
        assert_eq!(at.len(), 15);
        assert_eq!(&at[7..], text);
        assert!(at[..2].chars().all(|c| c.is_ascii_digit()));
        assert!(at[3..6].chars().all(|c| c.is_ascii_alphabetic()));
        assert_eq!((&at[2..3], &at[6..7]), (" ", " "));
    }
}

#[test]
fn stats_count_messages() {
    let mut inbox = Inbox::new();
    assert_eq!(stats_html(&inbox), "<strong>0</strong> messages");
    store(&mut inbox, String::new(), vec![], "");
    assert_eq!(stats_html(&inbox), "<strong>1</strong> message");
    for _ in 0..11 {
        store(&mut inbox, String::new(), vec![], "");
    }
    assert_eq!(stats_html(&inbox), "<strong>12</strong> messages");
}

#[test]
fn cleared_inbox_shows_no_mail() {
    let mut inbox = Inbox::new();
    store(&mut inbox, String::new(), vec![], "Subject: a\n\n");
    assert_eq!(clear(&mut inbox), EMPTY);
    assert!(inbox.is_empty());
    assert_eq!(rows(&inbox, &query(None)), EMPTY);
    assert_eq!(rows(&inbox, &query(Some("a"))), EMPTY);
    assert_eq!(stats_html(&inbox), "<strong>0</strong> messages");
}
