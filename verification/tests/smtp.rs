use fake_email_server::inbox::{store, Inbox};
use fake_email_server::smtp::{addr, command, Action, Command, Reply, Session};

/// What the server answers to a line, after it has done what the line asks for.
fn say(session: &mut Session, inbox: &mut Inbox, line: &str) -> String {
    match session.receive(line) {
        Action::Wait => String::new(),
        Action::Send(reply) => reply.wire(),
        Action::Store { from, to, raw, reply } => {
            store(inbox, from, to, &raw);
            reply.wire()
        }
        Action::Close(reply) => format!("{}closed", reply.wire()),
    }
}

#[test]
fn full_send_lands_parsed() {
    let mut session = Session::new();
    let mut inbox = Inbox::new();
    assert!(Reply::Ready.wire().starts_with("220"));
    assert!(say(&mut session, &mut inbox, "EHLO test").starts_with("250"));
    assert!(say(&mut session, &mut inbox, "MAIL FROM:<desk@1km.test>").starts_with("250"));
    for rcpt in ["ops@1km.test", "boss@1km.test"] {
        assert!(say(&mut session, &mut inbox, &format!("RCPT TO:<{rcpt}>")).starts_with("250"));
    }
    assert!(say(&mut session, &mut inbox, "DATA").starts_with("354"));
    for line in ["From: desk@1km.test", "Subject: Weekly dues", "", "Hello", "world"] {
        assert_eq!(say(&mut session, &mut inbox, line), "");
    }
    assert!(say(&mut session, &mut inbox, ".").starts_with("250"));
    assert!(say(&mut session, &mut inbox, "QUIT").starts_with("221"));
    assert_eq!(inbox.len(), 1);
    assert_eq!(inbox.get(0).from, "desk@1km.test");
    assert_eq!(inbox.get(0).to, vec!["ops@1km.test", "boss@1km.test"]);
    assert_eq!(inbox.get(0).subject, "Weekly dues");
    assert_eq!(inbox.get(0).body, "Hello\nworld");
}

#[test]
fn rset_clears_envelope_and_unknown_rejected() {
    let mut session = Session::new();
    let mut inbox = Inbox::new();
    assert!(Reply::Ready.wire().starts_with("220"));
    assert!(say(&mut session, &mut inbox, "MAIL FROM:<a@x>").starts_with("250"));
    assert!(say(&mut session, &mut inbox, "RSET").starts_with("250"));
    assert!(say(&mut session, &mut inbox, "FROBNICATE").starts_with("502"));
    assert!(say(&mut session, &mut inbox, "QUIT").starts_with("221"));
    assert!(inbox.is_empty());
}

#[test]
fn replies_word_for_word() {
    assert_eq!(Reply::Ready.wire(), "220 fake-email-server ESMTP\r\n");
    assert_eq!(Reply::Hello.wire(), "250 Hello\r\n");
    assert_eq!(Reply::Okay.wire(), "250 OK\r\n");
    assert_eq!(Reply::StartData.wire(), "354 End with . on its own line\r\n");
    assert_eq!(Reply::Queued.wire(), "250 OK queued\r\n");
    assert_eq!(Reply::Bye.wire(), "221 Bye\r\n");
    assert_eq!(Reply::NotImplemented.wire(), "502 Command not implemented\r\n");
    assert_eq!(Reply::Bye.text(), "221 Bye");
}

#[test]
fn commands_in_any_case() {
    assert_eq!(command("EHLO"), Command::Hello);
    assert_eq!(command("helo there"), Command::Hello);
    assert_eq!(command("Mail From: a"), Command::Mail);
    assert_eq!(command("rcpt to:<a>"), Command::Recipient);
    assert_eq!(command("data"), Command::Data);
    assert_eq!(command("rSeT"), Command::Reset);
    assert_eq!(command("noop"), Command::Noop);
    assert_eq!(command("quit"), Command::Quit);
}

#[test]
fn commands_that_are_not_known() {
    for line in ["", "DATA ", "NOOP x", "MAIL FROM", "RCPT", "VRFY a", " QUIT", "."] {
        assert_eq!(command(line), Command::Unknown);
    }
}

#[test]
fn addresses_lose_brackets_and_white_space() {
    assert_eq!(addr("MAIL FROM:<a@x>"), "a@x");
    assert_eq!(addr("MAIL FROM: < a@x > "), "a@x");
    assert_eq!(addr("MAIL FROM:<>"), "");
    assert_eq!(addr("MAIL FROM:a:b"), "a:b");
    assert_eq!(addr("MAIL FROM:<a@x> SIZE=1"), "a@x> SIZE=1");
    assert_eq!(addr("no colon"), "");
}

#[test]
fn leading_dots_are_unstuffed() {
    let mut session = Session::new();
    session.receive("DATA");
    for line in ["..", "..a", ".b", "c.", ""] {
        assert!(matches!(session.receive(line), Action::Wait));
    }
    match session.receive(".") {
        Action::Store { from, to, raw, reply } => {
            assert_eq!(from, "");
            assert_eq!(to, Vec::<String>::new());
            assert_eq!(raw, ".\n.a\nb\nc.\n\n");
            assert_eq!(reply, Reply::Queued);
        }
        other => panic!("{:?}", other),
    }
}

#[test]
fn commands_within_a_message_are_text() {
    let mut session = Session::new();
    session.receive("DATA");
    assert!(matches!(session.receive("QUIT"), Action::Wait));
    assert!(matches!(session.receive("RSET"), Action::Wait));
    assert!(matches!(session.receive("."), Action::Store { .. }));
}

#[test]
fn each_message_starts_with_an_empty_envelope() {
    let mut session = Session::new();
    session.receive("MAIL FROM:<a>");
    session.receive("RCPT TO:<b>");
    session.receive("DATA");
    session.receive(".");
    session.receive("DATA");
    match session.receive(".") {
        Action::Store { from, to, raw, .. } => {
            assert_eq!(from, "");
            assert!(to.is_empty());
            assert_eq!(raw, "");
        }
        other => panic!("{:?}", other),
    }
}

#[test]
fn mail_from_forgets_earlier_recipients() {
    let mut session = Session::new();
    session.receive("RCPT TO:<b>");
    session.receive("MAIL FROM:<a>");
    session.receive("NOOP");
    session.receive("EHLO x");
    session.receive("RCPT TO:<c>");
    session.receive("DATA");
    match session.receive(".") {
        Action::Store { from, to, .. } => {
            assert_eq!(from, "a");
            assert_eq!(to, vec!["c"]);
        }
        other => panic!("{:?}", other),
    }
}

#[test]
fn only_quit_closes() {
    let mut session = Session::new();
    for line in ["EHLO x", "NOOP", "RSET", "nonsense"] {
        assert!(matches!(session.receive(line), Action::Send(_)));
    }
    assert!(matches!(session.receive("QUIT"), Action::Close(Reply::Bye)));
}
