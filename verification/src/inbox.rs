//! The inbox: the newest messages that came in, bounded in number.

use vstd::prelude::*;

use crate::message;
use crate::message::parse_message;
use crate::outside;
use crate::outside::{random_id, utc_now};
use crate::text;

verus! {

/// Inbox cap: newest wins, oldest evicted.
pub const MAX_KEPT: usize = 1000;

/// A point in time in UTC.
#[derive(Clone, Copy, Debug)]
pub struct Timestamp {
    secs: i64,
    nanos: u32,
}

impl View for Timestamp {
    type V = (i64, u32);

    /// Seconds since 1970, and nanoseconds within the second.
    closed spec fn view(&self) -> (i64, u32) {
        (self.secs, self.nanos)
    }
}

impl Timestamp {
    #[verifier::type_invariant]
    spec fn valid(self) -> bool {
        outside::representable(self.secs, self.nanos)
    }

    /// The point in time so many seconds after the start of 1970 and so many
    /// nanoseconds into that second, where there is one.
    pub fn new(secs: i64, nanos: u32) -> (t: Option<Timestamp>)
        ensures
            t is Some <==> outside::representable(secs, nanos),
            t matches Some(t) ==> t@ == (secs, nanos),
    {
        let in_year_range = -8_334_601_228_800 <= secs && secs <= 8_210_266_876_799;
        let may_leap = match secs.checked_rem_euclid(60) {
            Some(s) => s == 59,
            None => false,
        };
        if in_year_range && (nanos < 1_000_000_000 || (nanos < 2_000_000_000 && may_leap)) {
            Some(Timestamp { secs, nanos })
        } else {
            None
        }
    }

    /// The time on the system clock.
    pub fn now() -> (t: Timestamp)
        ensures
            outside::representable(t@.0, t@.1),
            0 <= t@.0,
            t@.1 < 1_000_000_000,
    {
        let (secs, nanos) = utc_now();
        Timestamp { secs, nanos }
    }

    /// Seconds since the start of 1970.
    pub fn secs(&self) -> (secs: i64)
        ensures
            secs == self@.0,
    {
        self.secs
    }

    /// Nanoseconds within the second.
    pub fn nanos(&self) -> (nanos: u32)
        ensures
            nanos == self@.1,
            outside::representable(self@.0, nanos),
    {
        proof {
            use_type_invariant(self);
        }
        self.nanos
    }
}

/// A message in the inbox.
#[derive(Debug)]
pub struct Email {
    /// The bits of a UUID.
    pub id: u128,
    pub from: String,
    pub to: Vec<String>,
    pub subject: String,
    pub body: String,
    pub received_at: Timestamp,
}

/// What a message in the inbox holds.
#[verifier::ext_equal]
pub struct EmailView {
    pub id: u128,
    pub from: Seq<char>,
    pub to: Seq<Seq<char>>,
    pub subject: Seq<char>,
    pub body: Seq<char>,
    pub received_at: (i64, u32),
}

impl View for Email {
    type V = EmailView;

    open spec fn view(&self) -> EmailView {
        EmailView {
            id: self.id,
            from: self.from@,
            to: text::texts(self.to@),
            subject: self.subject@,
            body: self.body@,
            received_at: self.received_at@,
        }
    }
}

impl Clone for Email {
    fn clone(&self) -> (m: Email)
        ensures
            m@ == self@,
    {
        let to = self.to.clone();
        assert(text::texts(to@) == text::texts(self.to@));
        Email {
            id: self.id,
            from: self.from.clone(),
            to,
            subject: self.subject.clone(),
            body: self.body.clone(),
            received_at: self.received_at,
        }
    }
}

/// What the messages of a list hold.
pub open spec fn emails(v: Seq<Email>) -> Seq<EmailView> {
    Seq::new(v.len(), |i: int| v[i]@)
}

/// The message that a delivery becomes.
pub open spec fn received(
    from: Seq<char>,
    to: Seq<Seq<char>>,
    raw: Seq<char>,
    id: u128,
    received_at: (i64, u32),
) -> EmailView {
    EmailView {
        id,
        from,
        to,
        subject: message::subject_of(raw),
        body: message::body_of(raw),
        received_at,
    }
}

/// The last `MAX_KEPT` messages of a list.
pub open spec fn kept(s: Seq<EmailView>) -> Seq<EmailView> {
    if s.len() > MAX_KEPT {
        s.skip(s.len() - MAX_KEPT)
    } else {
        s
    }
}

/// The messages that came in, in the order in which they came.
#[derive(Debug)]
pub struct Inbox {
    messages: Vec<Email>,
}

impl View for Inbox {
    type V = Seq<EmailView>;

    closed spec fn view(&self) -> Seq<EmailView> {
        emails(self.messages@)
    }
}

impl Inbox {
    /// The bound on the number of messages.
    pub open spec fn wf(&self) -> bool {
        self@.len() <= MAX_KEPT
    }

    /// An empty inbox.
    pub fn new() -> (inbox: Inbox)
        ensures
            inbox.wf(),
            inbox@ == Seq::<EmailView>::empty(),
    {
        let inbox = Inbox { messages: Vec::new() };
        assert(inbox@ == Seq::<EmailView>::empty());
        inbox
    }

    /// How many messages there are.
    pub fn len(&self) -> (n: usize)
        ensures
            n == self@.len(),
    {
        self.messages.len()
    }

    /// Whether there is no message.
    pub fn is_empty(&self) -> (b: bool)
        ensures
            b == (self@.len() == 0),
    {
        self.messages.len() == 0
    }

    /// The `i`th message that came in, of those that are left.
    pub fn get(&self, i: usize) -> (m: &Email)
        requires
            i < self@.len(),
        ensures
            m@ == self@[i as int],
    {
        &self.messages[i]
    }

    /// The message that came in last.
    pub fn last(&self) -> (m: Option<&Email>)
        ensures
            m is None <==> self@.len() == 0,
            m matches Some(m) ==> m@ == self@.last(),
    {
        let n = self.messages.len();
        if n == 0 {
            None
        } else {
            Some(&self.messages[n - 1])
        }
    }

    /// Adds a message. Where the inbox is full, the oldest messages leave it.
    pub fn keep(&mut self, email: Email)
        ensures
            final(self).wf(),
            final(self)@ == kept(old(self)@.push(email@)),
    {
        let ghost all = self@.push(email@);
        self.messages.push(email);
        assert(self@ == all);
        let n = self.messages.len();
        if n > MAX_KEPT {
            let newest = self.messages.split_off(n - MAX_KEPT);
            self.messages = newest;
            assert(self@ == all.skip(n - MAX_KEPT));
        }
    }

    /// Removes all messages.
    pub fn clear(&mut self)
        ensures
            final(self).wf(),
            final(self)@ == Seq::<EmailView>::empty(),
    {
        self.messages.clear();
        assert(self@ == Seq::<EmailView>::empty());
    }
}

/// Parses a delivery and makes a message of it, with the given identifier and
/// time.
pub fn receive_as(
    from: String,
    to: Vec<String>,
    raw: &str,
    id: u128,
    received_at: Timestamp,
) -> (m: Email)
    ensures
        m@ == received(from@, text::texts(to@), raw@, id, received_at@),
{
    let (subject, body) = parse_message(raw);
    Email { id, from, to, subject, body, received_at }
}

/// Parses a delivery and makes a message of it, with a random identifier and
/// the time on the system clock.
pub fn receive(from: String, to: Vec<String>, raw: &str) -> (m: Email)
    ensures
        outside::is_random_id(m@.id),
        outside::representable(m@.received_at.0, m@.received_at.1),
        0 <= m@.received_at.0,
        m@.received_at.1 < 1_000_000_000,
        m@ == received(from@, text::texts(to@), raw@, m@.id, m@.received_at),
{
    let id = random_id();
    let received_at = Timestamp::now();
    receive_as(from, to, raw, id, received_at)
}

/// Parses a delivery and puts it into the inbox under the given identifier and
/// time. Where the inbox is full, the oldest messages leave it.
pub fn store_as(
    inbox: &mut Inbox,
    from: String,
    to: Vec<String>,
    raw: &str,
    id: u128,
    received_at: Timestamp,
)
    ensures
        final(inbox).wf(),
        final(inbox)@ == kept(
            old(inbox)@.push(received(from@, text::texts(to@), raw@, id, received_at@)),
        ),
{
    inbox.keep(receive_as(from, to, raw, id, received_at));
}

/// Parses a delivery and puts it into the inbox, under a random identifier and
/// the time on the system clock. Where the inbox is full, the oldest messages
/// leave it.
pub fn store(inbox: &mut Inbox, from: String, to: Vec<String>, raw: &str)
    ensures
        final(inbox).wf(),
        exists|id: u128, at: (i64, u32)|
            outside::is_random_id(id) && outside::representable(at.0, at.1) && 0 <= at.0 && at.1
                < 1_000_000_000 && final(inbox)@ == kept(
                old(inbox)@.push(#[trigger] received(from@, text::texts(to@), raw@, id, at)),
            ),
{
    inbox.keep(receive(from, to, raw));
}

} // verus!
