use fake_email_server::inbox::{store_as, Email, Inbox, Timestamp};
use fake_email_server::search::{filtered, messages, ordered, search_text, RowsQuery, SearchText};

fn put(inbox: &mut Inbox, id: u128, secs: i64, nanos: u32, raw: &str) {
    let at = Timestamp::new(secs, nanos).unwrap();
    store_as(inbox, "Desk@x".to_string(), vec!["Ops@y".to_string(), "Boss@z".to_string()], raw, id, at);
}

fn ids(v: &[Email]) -> Vec<u128> {
    v.iter().map(|m| m.id).collect()
}

fn ask(inbox: &Inbox, q: &str) -> Vec<u128> {
    ids(&filtered(inbox, &RowsQuery { q: Some(q.to_string()) }))
}

#[test]
fn newest_first_and_stable() {
    let mut inbox = Inbox::new();
    put(&mut inbox, 1, 10, 0, "");
    put(&mut inbox, 2, 30, 5, "");
    put(&mut inbox, 3, 10, 0, "");
    put(&mut inbox, 4, 30, 9, "");
    put(&mut inbox, 5, -1, 0, "");
    put(&mut inbox, 6, 10, 0, "");
    let listing = messages(&inbox);
    assert_eq!(ids(&listing.data), vec![4, 2, 1, 3, 6, 5]);
    assert_eq!(listing.total, 6);
    let refs: Vec<u128> = ordered(&inbox).iter().map(|m| m.id).collect();
    assert_eq!(refs, vec![4, 2, 1, 3, 6, 5]);
}

#[test]
fn arrival_order_is_reversed() {
    let mut inbox = Inbox::new();
    for i in 0..20 {
        put(&mut inbox, i, i as i64, 0, "");
    }
    let expected: Vec<u128> = (0..20).rev().collect();
    assert_eq!(ids(&messages(&inbox).data), expected);
}

#[test]
fn empty_inbox_lists_nothing() {
    let listing = messages(&Inbox::new());
    assert!(listing.data.is_empty());
    assert_eq!(listing.total, 0);
}

#[test]
fn search_looks_at_all_texts_in_any_case() {
    let mut inbox = Inbox::new();
    put(&mut inbox, 1, 1, 0, "Subject: Weekly Dues\n\nHello");
    put(&mut inbox, 2, 2, 0, "Subject: other\n\nWORLD");
    assert_eq!(ask(&inbox, "dues"), vec![1]);
    assert_eq!(ask(&inbox, "DUES"), vec![1]);
    assert_eq!(ask(&inbox, "world"), vec![2]);
    assert_eq!(ask(&inbox, "desk@"), vec![2, 1]);
    assert_eq!(ask(&inbox, "BOSS@Z"), vec![2, 1]);
    assert_eq!(ask(&inbox, "ops@y"), vec![2, 1]);
    assert_eq!(ask(&inbox, "ops@y, boss"), Vec::<u128>::new());
    assert_eq!(ask(&inbox, "zzz-no-match"), Vec::<u128>::new());
}

#[test]
fn no_query_shows_all() {
    let mut inbox = Inbox::new();
    put(&mut inbox, 1, 1, 0, "");
    put(&mut inbox, 2, 2, 0, "");
    assert_eq!(ids(&filtered(&inbox, &RowsQuery { q: None })), vec![2, 1]);
    assert_eq!(ask(&inbox, ""), vec![2, 1]);
}

#[test]
fn case_is_that_of_unicode() {
    let mut inbox = Inbox::new();
    put(&mut inbox, 1, 1, 0, "Subject: ÄRGER ΣΑΣ\n\n");
    assert_eq!(ask(&inbox, "ärger"), vec![1]);
    assert_eq!(ask(&inbox, "Ärger"), vec![1]);
    assert_eq!(ask(&inbox, "σας"), vec![1]);
    let t = search_text(inbox.get(0));
    assert_eq!(t.subject, "ÄRGER ΣΑΣ".to_lowercase());
    assert_eq!(t.to, vec!["ops@y", "boss@z"]);
    assert_eq!(t.from, "desk@x");
}

#[test]
fn ascii_query_in_any_case_among_other_texts() {
    let mut inbox = Inbox::new();
    put(&mut inbox, 1, 1, 0, "Subject: Grüße\n\nWeekly DUES");
    put(&mut inbox, 2, 2, 0, "Subject: ÄRGER\n\nnothing");
    put(&mut inbox, 3, 3, 0, "Subject: plain\n\nDues");
    for q in ["dues", "DUES", "dUeS"] {
        assert_eq!(ask(&inbox, q), vec![3, 1], "{}", q);
    }
    for q in ["RGER", "rger"] {
        assert_eq!(ask(&inbox, q), vec![2], "{}", q);
    }
}

#[test]
fn lowered_texts_match_a_needle() {
    let t = SearchText {
        to: vec!["a".to_string(), "bcd".to_string()],
        subject: "e".to_string(),
        from: "f".to_string(),
        body: "g\nh".to_string(),
    };
    for needle in ["", "a", "cd", "e", "f", "g\nh"] {
        assert!(t.matches(needle), "{}", needle);
    }
    for needle in ["ab", "B", "ef", "gh"] {
        assert!(!t.matches(needle), "{}", needle);
    }
}

#[test]
fn stored_mail_is_listed_on_top() {
    let mut inbox = Inbox::new();
    for i in 0..1100 {
        put(&mut inbox, i, i as i64, 0, "");
        if i % 100 == 0 || (i > 995 && i < 1005) {
            let listing = messages(&inbox);
            assert_eq!(listing.data[0].id, i);
            assert_eq!(listing.total, inbox.len());
        }
    }
}
