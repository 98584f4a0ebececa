use fake_email_server::inbox::{receive, receive_as, store, store_as, Inbox, Timestamp, MAX_KEPT};
use fake_email_server::smtp::addr;

#[test]
fn inbox_caps_newest_and_addr_trims_brackets() {
    let mut inbox = Inbox::new();
    for i in 0..(MAX_KEPT + 3) {
        store(
            &mut inbox,
            format!("{i}@x"),
            vec![],
            &format!("Subject: s{i}\n\nb"),
        );
    }
    assert_eq!(inbox.len(), MAX_KEPT);
    assert_eq!(inbox.last().unwrap().from, format!("{}@x", MAX_KEPT + 2));
    assert_eq!(addr("RCPT TO:<ops@1km.test>"), "ops@1km.test");
    assert_eq!(addr("MAIL FROM: boss@1km.test"), "boss@1km.test");
}

#[test]
fn oldest_are_evicted_in_order() {
    let mut inbox = Inbox::new();
    let at = Timestamp::new(0, 0).unwrap();
    for i in 0..(MAX_KEPT + 3) {
        store_as(&mut inbox, format!("{i}"), vec![], "", i as u128, at);
    }
    for i in 0..MAX_KEPT {
        assert_eq!(inbox.get(i).id, (i + 3) as u128);
    }
}

#[test]
fn stored_message_holds_what_came() {
    let mut inbox = Inbox::new();
    let at = Timestamp::new(5, 6).unwrap();
    let to = vec!["b".to_string(), "c".to_string()];
    store_as(&mut inbox, "a".to_string(), to, "Subject: s\n\nt\n", 9, at);
    let m = inbox.last().unwrap();
    assert_eq!((m.id, m.from.as_str(), m.subject.as_str(), m.body.as_str()), (9, "a", "s", "t"));
    assert_eq!(m.to, vec!["b", "c"]);
    assert_eq!((m.received_at.secs(), m.received_at.nanos()), (5, 6));
}

#[test]
fn received_message_is_kept_as_it_is() {
    let at = Timestamp::new(5, 6).unwrap();
    let m = receive_as("a".to_string(), vec!["b".to_string()], "Subject: s\n\nt\n", 9, at);
    assert_eq!((m.id, m.from.as_str(), m.subject.as_str(), m.body.as_str()), (9, "a", "s", "t"));
    assert_eq!(m.to, vec!["b"]);
    assert_eq!((m.received_at.secs(), m.received_at.nanos()), (5, 6));
    let mut inbox = Inbox::new();
    inbox.keep(m.clone());
    assert_eq!(format!("{:?}", inbox.last().unwrap()), format!("{:?}", m));

    let drawn = receive("a".to_string(), vec![], "Subject: u\n\nv");
    assert_eq!((drawn.from.as_str(), drawn.subject.as_str(), drawn.body.as_str()), ("a", "u", "v"));
    assert_eq!(uuid::Uuid::from_u128(drawn.id).get_version(), Some(uuid::Version::Random));
    inbox.keep(drawn.clone());
    assert_eq!(inbox.len(), 2);
    assert_eq!(inbox.last().unwrap().id, drawn.id);
    assert_eq!(inbox.get(0).id, 9);
}

#[test]
fn identifiers_are_random_uuids() {
    let mut inbox = Inbox::new();
    for _ in 0..50 {
        store(&mut inbox, String::new(), vec![], "");
    }
    for i in 0..50 {
        let id = uuid::Uuid::from_u128(inbox.get(i).id);
        assert_eq!(id.get_version(), Some(uuid::Version::Random));
        assert_eq!(id.get_variant(), uuid::Variant::RFC4122);
        for j in 0..i {
            assert_ne!(inbox.get(i).id, inbox.get(j).id);
        }
    }
}

#[test]
fn messages_carry_the_time_of_the_clock() {
    let mut inbox = Inbox::new();
    let before = chrono::Utc::now();
    store(&mut inbox, String::new(), vec![], "");
    let after = chrono::Utc::now();
    let t = inbox.get(0).received_at;
    let at = chrono::DateTime::from_timestamp(t.secs(), t.nanos()).unwrap();
    assert!(before <= at && at <= after);
}

#[test]
fn timestamps_are_those_of_chrono() {
    let edges = [-8_334_601_228_801, -8_334_601_228_800, -1, 0, 59, 60, 8_210_266_876_799, 8_210_266_876_800];
    let nanos = [0, 999_999_999, 1_000_000_000, 1_999_999_999, 2_000_000_000];
    for s in edges {
        for n in nanos {
            let ours = Timestamp::new(s, n).map(|t| (t.secs(), t.nanos()));
            let theirs = chrono::DateTime::from_timestamp(s, n)
                .map(|t| (t.timestamp(), t.timestamp_subsec_nanos()));
            assert_eq!(ours, theirs, "{} {}", s, n);
        }
    }
    assert!(Timestamp::new(i64::MIN, 0).is_none());
    assert!(Timestamp::new(i64::MAX, 0).is_none());
}

#[test]
fn cleared_inbox_is_empty() {
    let mut inbox = Inbox::new();
    assert!(inbox.is_empty());
    assert!(inbox.last().is_none());
    store(&mut inbox, String::new(), vec![], "");
    assert!(!inbox.is_empty());
    inbox.clear();
    assert!(inbox.is_empty());
    assert_eq!(inbox.len(), 0);
}

#[test]
fn clone_keeps_all_fields() {
    let mut inbox = Inbox::new();
    let at = Timestamp::new(1, 2).unwrap();
    store_as(&mut inbox, "a".to_string(), vec!["b".to_string()], "Subject: s\n\nt", 3, at);
    let m = inbox.get(0).clone();
    assert_eq!(format!("{:?}", m), format!("{:?}", inbox.get(0)));
}
