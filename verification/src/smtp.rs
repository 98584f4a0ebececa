//! The SMTP dialogue of one connection: which reply each line of the client
//! gets, and when a message is complete.

use vstd::prelude::*;
use vstd::slice::slice_subrange;

use crate::text;
use crate::text::{
    chars_of, find_char, same_text, starts_with, string_of, strip_chars, upper_chars, Strip,
};

verus! {

/// What the server says to the client.
#[derive(Clone, Copy, Debug, PartialEq, Eq, Structural)]
pub enum Reply {
    Ready,
    Hello,
    Okay,
    StartData,
    Queued,
    Bye,
    NotImplemented,
}

impl Reply {
    /// The reply as one line of text, without its line end.
    pub open spec fn line(self) -> Seq<char> {
        match self {
            Reply::Ready => "220 fake-email-server ESMTP"@,
            Reply::Hello => "250 Hello"@,
            Reply::Okay => "250 OK"@,
            Reply::StartData => "354 End with . on its own line"@,
            Reply::Queued => "250 OK queued"@,
            Reply::Bye => "221 Bye"@,
            Reply::NotImplemented => "502 Command not implemented"@,
        }
    }

    /// The reply as one line of text, without its line end.
    pub fn text(self) -> (s: &'static str)
        ensures
            s@ == self.line(),
    {
        match self {
            Reply::Ready => "220 fake-email-server ESMTP",
            // A single line: a greeting of several lines puts naive clients
            // out of step.
            Reply::Hello => "250 Hello",
            Reply::Okay => "250 OK",
            Reply::StartData => "354 End with . on its own line",
            Reply::Queued => "250 OK queued",
            Reply::Bye => "221 Bye",
            Reply::NotImplemented => "502 Command not implemented",
        }
    }

    /// The reply as it goes over the wire: the line and `\r\n`.
    pub fn wire(self) -> (s: String)
        ensures
            s@ == self.line() + "\r\n"@,
    {
        let mut s = String::new();
        s.append(self.text());
        s.append("\r\n");
        assert(s@ == self.line() + "\r\n"@);
        s
    }
}

/// What a line of the client asks for.
#[derive(Clone, Copy, Debug, PartialEq, Eq, Structural)]
pub enum Command {
    Hello,
    Mail,
    Recipient,
    Data,
    Reset,
    Noop,
    Quit,
    Unknown,
}

/// The command of a line, in whatever case it is written. `EHLO`, `HELO`,
/// `MAIL FROM:` and `RCPT TO:` may be followed by anything; the others stand
/// alone on their line.
pub open spec fn command_of(line: Seq<char>) -> Command {
    let upper = text::ascii_upper(line);
    if "EHLO"@.is_prefix_of(upper) || "HELO"@.is_prefix_of(upper) {
        Command::Hello
    } else if "MAIL FROM:"@.is_prefix_of(upper) {
        Command::Mail
    } else if "RCPT TO:"@.is_prefix_of(upper) {
        Command::Recipient
    } else if upper == "DATA"@ {
        Command::Data
    } else if upper == "RSET"@ {
        Command::Reset
    } else if upper == "NOOP"@ {
        Command::Noop
    } else if upper == "QUIT"@ {
        Command::Quit
    } else {
        Command::Unknown
    }
}

/// The command of a line.
pub fn command(line: &str) -> (c: Command)
    ensures
        c == command_of(line@),
{
    let cs = chars_of(line);
    let upper = upper_chars(cs.as_slice());
    let u = upper.as_slice();
    if starts_with(u, "EHLO") || starts_with(u, "HELO") {
        Command::Hello
    } else if starts_with(u, "MAIL FROM:") {
        Command::Mail
    } else if starts_with(u, "RCPT TO:") {
        Command::Recipient
    } else if same_text(u, "DATA") {
        Command::Data
    } else if same_text(u, "RSET") {
        Command::Reset
    } else if same_text(u, "NOOP") {
        Command::Noop
    } else if same_text(u, "QUIT") {
        Command::Quit
    } else {
        Command::Unknown
    }
}

/// The address in a `MAIL FROM:` or `RCPT TO:` line: what follows the first
/// colon, without surrounding white space, then without angle brackets around
/// it, then without white space inside those. Nothing where there is no colon.
pub open spec fn addr_of(line: Seq<char>) -> Seq<char> {
    match text::split_once(line, ':') {
        Some((_, v)) => text::trim(text::strip(text::trim(v), Strip::AngleBrackets)),
        None => Seq::empty(),
    }
}

/// The address in a `MAIL FROM:` or `RCPT TO:` line: `<addr>` brackets
/// stripped, surrounding whitespace trimmed.
pub fn addr(line: &str) -> (s: String)
    ensures
        s@ == addr_of(line@),
{
    let cs = chars_of(line);
    let at = find_char(cs.as_slice(), ':');
    if at < cs.len() {
        let v = slice_subrange(cs.as_slice(), at + 1, cs.len());
        assert(v@ == line@.skip(at + 1));
        let trimmed = strip_chars(v, Strip::Whitespace);
        let bare = strip_chars(trimmed, Strip::AngleBrackets);
        string_of(strip_chars(bare, Strip::Whitespace))
    } else {
        String::new()
    }
}

/// A line of the message as it was before the client doubled its leading dot.
pub open spec fn unstuffed(line: Seq<char>) -> Seq<char> {
    if line.len() > 0 && line[0] == '.' {
        line.drop_first()
    } else {
        line
    }
}

/// The state of a dialogue: the sender and the recipients so far and, behind
/// `DATA`, the text of the message so far.
#[verifier::ext_equal]
pub struct SessionView {
    pub from: Seq<char>,
    pub to: Seq<Seq<char>>,
    pub data: Option<Seq<char>>,
}

/// What is to be done about a line of the client.
#[verifier::ext_equal]
pub enum ActionView {
    /// Nothing yet: the line is part of a message.
    Wait,
    /// Send this reply.
    Send(Reply),
    /// Store this message, then send this reply.
    Store { from: Seq<char>, to: Seq<Seq<char>>, raw: Seq<char>, reply: Reply },
    /// Send this reply and close the connection.
    Close(Reply),
}

impl SessionView {
    /// A dialogue in which nothing has been said.
    pub open spec fn fresh() -> SessionView {
        SessionView { from: Seq::empty(), to: Seq::empty(), data: None }
    }

    /// The state and the action that follow a line of the client.
    pub open spec fn next(self, line: Seq<char>) -> (SessionView, ActionView) {
        match self.data {
            Some(raw) => if line == "."@ {
                (
                    SessionView::fresh(),
                    ActionView::Store { from: self.from, to: self.to, raw, reply: Reply::Queued },
                )
            } else {
                let data = Some(raw + unstuffed(line).push('\n'));
                (SessionView { data, ..self }, ActionView::Wait)
            },
            None => match command_of(line) {
                Command::Hello => (self, ActionView::Send(Reply::Hello)),
                Command::Mail => (
                    SessionView { from: addr_of(line), to: Seq::empty(), data: None },
                    ActionView::Send(Reply::Okay),
                ),
                Command::Recipient => (
                    SessionView { to: self.to.push(addr_of(line)), ..self },
                    ActionView::Send(Reply::Okay),
                ),
                Command::Data => (
                    SessionView { data: Some(Seq::empty()), ..self },
                    ActionView::Send(Reply::StartData),
                ),
                Command::Reset => (SessionView::fresh(), ActionView::Send(Reply::Okay)),
                Command::Noop => (self, ActionView::Send(Reply::Okay)),
                Command::Quit => (self, ActionView::Close(Reply::Bye)),
                Command::Unknown => (self, ActionView::Send(Reply::NotImplemented)),
            },
        }
    }

    /// The state after some lines of the client.
    pub open spec fn after(self, lines: Seq<Seq<char>>) -> SessionView
        decreases lines.len(),
    {
        if lines.len() == 0 {
            self
        } else {
            self.after(lines.drop_last()).next(lines.last()).0
        }
    }

    /// The actions that follow some lines of the client, one for each.
    pub open spec fn actions(self, lines: Seq<Seq<char>>) -> Seq<ActionView>
        decreases lines.len(),
    {
        if lines.len() == 0 {
            Seq::empty()
        } else {
            let init = lines.drop_last();
            self.actions(init).push(self.after(init).next(lines.last()).1)
        }
    }
}

/// What is to be done about a line of the client.
#[derive(Debug)]
pub enum Action {
    /// Nothing yet: the line is part of a message.
    Wait,
    /// Send this reply.
    Send(Reply),
    /// Store this message, then send this reply.
    Store { from: String, to: Vec<String>, raw: String, reply: Reply },
    /// Send this reply and close the connection.
    Close(Reply),
}

impl View for Action {
    type V = ActionView;

    open spec fn view(&self) -> ActionView {
        match self {
            Action::Wait => ActionView::Wait,
            Action::Send(reply) => ActionView::Send(*reply),
            Action::Store { from, to, raw, reply } => ActionView::Store {
                from: from@,
                to: text::texts(to@),
                raw: raw@,
                reply: *reply,
            },
            Action::Close(reply) => ActionView::Close(*reply),
        }
    }
}

/// The state of a dialogue with one client.
#[derive(Debug)]
pub struct Session {
    from: String,
    to: Vec<String>,
    data: Option<String>,
}

impl View for Session {
    type V = SessionView;

    closed spec fn view(&self) -> SessionView {
        SessionView {
            from: self.from@,
            to: text::texts(self.to@),
            data: match self.data {
                Some(d) => Some(d@),
                None => None,
            },
        }
    }
}

impl Session {
    /// A dialogue in which nothing has been said. The first thing to send is
    /// `Reply::Ready`.
    pub fn new() -> (s: Session)
        ensures
            s@ == SessionView::fresh(),
    {
        let s = Session { from: String::new(), to: Vec::new(), data: None };
        assert(s@ == SessionView::fresh());
        s
    }

    /// Takes one line of the client, without its line end, and says what is to
    /// be done about it.
    pub fn receive(&mut self, line: &str) -> (a: Action)
        ensures
            (final(self)@, a@) == old(self)@.next(line@),
    {
        let ghost before = self@;
        match self.data.take() {
            Some(mut data) => {
                let cs = chars_of(line);
                if same_text(cs.as_slice(), ".") {
                    let mut from = String::new();
                    let mut to: Vec<String> = Vec::new();
                    std::mem::swap(&mut from, &mut self.from);
                    std::mem::swap(&mut to, &mut self.to);
                    assert(self@ == SessionView::fresh());
                    Action::Store { from, to, raw: data, reply: Reply::Queued }
                } else {
                    let ghost raw = data@;
                    let skip: usize = if cs.len() > 0 && cs[0] == '.' {
                        1
                    } else {
                        0
                    };
                    let rest = slice_subrange(cs.as_slice(), skip, cs.len());
                    assert(rest@ == unstuffed(line@));
                    data.append(string_of(rest).as_str());
                    data.push('\n');
                    assert(data@ == raw + unstuffed(line@).push('\n'));
                    self.data = Some(data);
                    Action::Wait
                }
            },
            None => match command(line) {
                Command::Hello => Action::Send(Reply::Hello),
                Command::Mail => {
                    self.from = addr(line);
                    self.to.clear();
                    assert(self@.to == Seq::<Seq<char>>::empty());
                    Action::Send(Reply::Okay)
                },
                Command::Recipient => {
                    self.to.push(addr(line));
                    assert(self@.to == before.to.push(addr_of(line@)));
                    Action::Send(Reply::Okay)
                },
                Command::Data => {
                    self.data = Some(String::new());
                    Action::Send(Reply::StartData)
                },
                Command::Reset => {
                    self.from = String::new();
                    self.to.clear();
                    assert(self@ == SessionView::fresh());
                    Action::Send(Reply::Okay)
                },
                Command::Noop => Action::Send(Reply::Okay),
                Command::Quit => Action::Close(Reply::Bye),
                Command::Unknown => Action::Send(Reply::NotImplemented),
            },
        }
    }
}

} // verus!
